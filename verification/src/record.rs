//! One recorded tick: everything that happened since the previous tick
//! boundary, stamped with the time since the recording started.

use vstd::prelude::*;
use crate::keys::AnyKey;
use crate::offsets::AnyOffset;

verus! {

/// The mathematical content of a `RecordEntry`.
pub ghost struct RecordEntryView {
    pub ms: u64,
    pub pressed: Seq<AnyKey>,
    pub released: Seq<AnyKey>,
    pub moves: Seq<AnyOffset>,
}

/// One recorded tick: the keys pressed, the keys released and the axis
/// movements seen since the previous tick boundary, stamped with the
/// milliseconds since the recording started.
#[derive(PartialEq, Debug)]
pub struct RecordEntry {
    pub ms: u64,
    pub pressed: Vec<AnyKey>,
    pub released: Vec<AnyKey>,
    pub moves: Vec<AnyOffset>,
}

impl View for RecordEntry {
    type V = RecordEntryView;

    open spec fn view(&self) -> RecordEntryView {
        RecordEntryView {
            ms: self.ms,
            pressed: self.pressed@,
            released: self.released@,
            moves: self.moves@,
        }
    }
}

/// The mathematical content of a record list: each entry's view, in
/// list order.
pub open spec fn records_view(v: Seq<RecordEntry>) -> Seq<RecordEntryView> {
    Seq::new(v.len(), |i: int| v[i]@)
}

/// Copies a key list element by element.
pub(crate) fn duplicate_keys(v: &Vec<AnyKey>) -> (r: Vec<AnyKey>)
    ensures
        r@ == v@,
{
    let mut r: Vec<AnyKey> = Vec::new();
    let mut i: usize = 0;
    while i < v.len()
        invariant
            i <= v@.len(),
            r@ == v@.subrange(0, i as int),
        decreases v@.len() - i,
    {
        r.push(v[i]);
        i += 1;
    }
    proof {
        assert(v@.subrange(0, v@.len() as int) == v@);
    }
    r
}

/// Copies a movement list element by element.
pub(crate) fn duplicate_moves(v: &Vec<AnyOffset>) -> (r: Vec<AnyOffset>)
    ensures
        r@ == v@,
{
    let mut r: Vec<AnyOffset> = Vec::new();
    let mut i: usize = 0;
    while i < v.len()
        invariant
            i <= v@.len(),
            r@ == v@.subrange(0, i as int),
        decreases v@.len() - i,
    {
        r.push(v[i]);
        i += 1;
    }
    proof {
        assert(v@.subrange(0, v@.len() as int) == v@);
    }
    r
}

impl Clone for RecordEntry {
    /// A copy whose content is the same tick.
    fn clone(&self) -> (r: Self)
        ensures
            r@ == self@,
    {
        RecordEntry {
            ms: self.ms,
            pressed: duplicate_keys(&self.pressed),
            released: duplicate_keys(&self.released),
            moves: duplicate_moves(&self.moves),
        }
    }
}

/// Copies a record list element by element; the copy has the same view.
pub fn duplicate_records(v: &Vec<RecordEntry>) -> (r: Vec<RecordEntry>)
    ensures
        records_view(r@) == records_view(v@),
{
    let mut r: Vec<RecordEntry> = Vec::new();
    let mut i: usize = 0;
    while i < v.len()
        invariant
            i <= v@.len(),
            r@.len() == i,
            forall|j: int| 0 <= j < i ==> #[trigger] r@[j]@ == v@[j]@,
        decreases v@.len() - i,
    {
        let e = v[i].clone();
        r.push(e);
        i += 1;
    }
    proof {
        assert(records_view(r@) =~= records_view(v@));
    }
    r
}

} // verus!
