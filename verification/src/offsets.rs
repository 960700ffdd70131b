//! Axis movement events, the per-axis last-known values, and the raw
//! controller snapshot that the poll loop diffs against.
//!
//! Axis values are carried in the units the hardware reports: trigger
//! positions as bytes (0 to 255), stick positions as signed 16-bit
//! values, mouse and wheel positions as signed pixel counts.

use vstd::prelude::*;
use vstd::arithmetic::power2::{pow2, lemma_pow2_adds, lemma2_to64};
use vstd::arithmetic::div_mod::lemma_div_denominator;

verus! {

/// One axis movement: mouse position, wheel delta, or a controller
/// slot's triggers or sticks.
#[derive(Clone, Copy, PartialEq, Eq, Structural, Debug)]
pub enum AnyOffset {
    /// Mouse position, x and y.
    Mouse(i64, i64),
    /// Wheel delta, x and y.
    Wheel(i64, i64),
    /// A controller slot's left and right trigger positions.
    Trigger(u32, u8, u8),
    /// A controller slot's left stick position, x and y.
    LeftStick(u32, i16, i16),
    /// A controller slot's right stick position, x and y.
    RightStick(u32, i16, i16),
}

impl AnyOffset {
    /// Controller movements must name one of the four controller slots.
    pub open spec fn slot_ok(self) -> bool {
        match self {
            AnyOffset::Mouse(_, _) => true,
            AnyOffset::Wheel(_, _) => true,
            AnyOffset::Trigger(slot, _, _) => slot < 4,
            AnyOffset::LeftStick(slot, _, _) => slot < 4,
            AnyOffset::RightStick(slot, _, _) => slot < 4,
        }
    }
}

/// Copies a vector of plainly copyable elements.
fn duplicate_vec<T: Copy>(v: &Vec<T>) -> (r: Vec<T>)
    ensures
        r@ == v@,
{
    let mut r: Vec<T> = Vec::new();
    let mut i: usize = 0;
    while i < v.len()
        invariant
            i <= v@.len(),
            r@ == v@.subrange(0, i as int),
        decreases v@.len() - i,
    {
        r.push(v[i]);
        i += 1;
    }
    proof {
        assert(r@ == v@.subrange(0, v@.len() as int));
        assert(v@.subrange(0, v@.len() as int) == v@);
    }
    r
}

/// The mathematical content of `AllOffsets`.
pub ghost struct AllOffsetsView {
    pub mouse: (i64, i64),
    pub wheel: (i64, i64),
    pub trigger: Seq<(u8, u8)>,
    pub left_stick: Seq<(i16, i16)>,
    pub right_stick: Seq<(i16, i16)>,
}

impl View for AllOffsets {
    type V = AllOffsetsView;

    open spec fn view(&self) -> AllOffsetsView {
        AllOffsetsView {
            mouse: self.mouse,
            wheel: self.wheel,
            trigger: self.trigger@,
            left_stick: self.left_stick@,
            right_stick: self.right_stick@,
        }
    }
}

/// Where one axis movement lands in the last-known axis values.
pub open spec fn apply_offset(o: AllOffsetsView, off: AnyOffset) -> AllOffsetsView {
    match off {
        AnyOffset::Mouse(x, y) => AllOffsetsView { mouse: (x, y), ..o },
        AnyOffset::Wheel(x, y) => AllOffsetsView { wheel: (x, y), ..o },
        AnyOffset::Trigger(slot, l, r) => AllOffsetsView {
            trigger: o.trigger.update(slot as int, (l, r)),
            ..o
        },
        AnyOffset::LeftStick(slot, x, y) => AllOffsetsView {
            left_stick: o.left_stick.update(slot as int, (x, y)),
            ..o
        },
        AnyOffset::RightStick(slot, x, y) => AllOffsetsView {
            right_stick: o.right_stick.update(slot as int, (x, y)),
            ..o
        },
    }
}

/// Every axis at rest: what the resting state looks like.
pub open spec fn resting_offsets() -> AllOffsetsView {
    AllOffsetsView {
        mouse: (0i64, 0i64),
        wheel: (0i64, 0i64),
        trigger: Seq::new(4, |i: int| (0u8, 0u8)),
        left_stick: Seq::new(4, |i: int| (0i16, 0i16)),
        right_stick: Seq::new(4, |i: int| (0i16, 0i16)),
    }
}

/// Last-known value of every axis class, with one entry per controller
/// slot for the controller axes.
#[derive(Debug)]
pub struct AllOffsets {
    pub mouse: (i64, i64),
    pub wheel: (i64, i64),
    pub trigger: Vec<(u8, u8)>,
    pub left_stick: Vec<(i16, i16)>,
    pub right_stick: Vec<(i16, i16)>,
}

impl AllOffsets {
    /// Each controller axis class keeps exactly four slots.
    pub open spec fn wf(self) -> bool {
        self.trigger@.len() == 4 && self.left_stick@.len() == 4 && self.right_stick@.len() == 4
    }

    /// All axes at rest: the state before any movement was seen.
    pub fn new() -> (r: Self)
        ensures
            r.wf(),
            r@ == resting_offsets(),
    {
        let r = AllOffsets {
            mouse: (0, 0),
            wheel: (0, 0),
            trigger: vec![(0, 0), (0, 0), (0, 0), (0, 0)],
            left_stick: vec![(0, 0), (0, 0), (0, 0), (0, 0)],
            right_stick: vec![(0, 0), (0, 0), (0, 0), (0, 0)],
        };
        proof {
            assert(r@.trigger =~= resting_offsets().trigger);
            assert(r@.left_stick =~= resting_offsets().left_stick);
            assert(r@.right_stick =~= resting_offsets().right_stick);
        }
        r
    }
}

impl Clone for AllOffsets {
    /// A field-for-field copy.
    fn clone(&self) -> (r: Self)
        ensures
            r.mouse == self.mouse,
            r.wheel == self.wheel,
            r.trigger@ == self.trigger@,
            r.left_stick@ == self.left_stick@,
            r.right_stick@ == self.right_stick@,
    {
        AllOffsets {
            mouse: self.mouse,
            wheel: self.wheel,
            trigger: duplicate_vec(&self.trigger),
            left_stick: duplicate_vec(&self.left_stick),
            right_stick: duplicate_vec(&self.right_stick),
        }
    }
}

impl Default for AllOffsets {
    /// Same resting state as `new`.
    fn default() -> (r: Self)
        ensures
            r.wf(),
            r@ == resting_offsets(),
    {
        AllOffsets::new()
    }
}

/// A change read off a polled controller, in raw hardware units.
/// Button events carry the button's bit mask within the button word.
#[derive(Clone, Copy, PartialEq, Eq, Structural, Debug)]
pub enum ControllerEvent {
    ButtonPress(usize),
    ButtonRelease(usize),
    TriggerMove(u8, u8),
    LSticksMove(i16, i16),
    RSticksMove(i16, i16),
}

/// The last snapshot read from one physical controller slot: packet
/// number, button word, trigger bytes and the four stick axes.
#[derive(Debug)]
pub struct ControllerRaw {
    pub pack_num: u32,
    pub button: u16,
    pub tri: (u8, u8),
    pub sticker: (i16, i16, i16, i16),
}

impl Clone for ControllerRaw {
    /// A field-for-field copy.
    fn clone(&self) -> (r: Self)
        ensures
            r == *self,
    {
        ControllerRaw {
            pack_num: self.pack_num,
            button: self.button,
            tri: (self.tri.0, self.tri.1),
            sticker: (self.sticker.0, self.sticker.1, self.sticker.2, self.sticker.3),
        }
    }
}

impl PartialEq for ControllerRaw {
    fn eq(&self, other: &ControllerRaw) -> (r: bool) {
        self.pack_num == other.pack_num && self.button == other.button && self.tri.0
            == other.tri.0 && self.tri.1 == other.tri.1 && self.sticker.0 == other.sticker.0
            && self.sticker.1 == other.sticker.1 && self.sticker.2 == other.sticker.2
            && self.sticker.3 == other.sticker.3
    }
}

impl vstd::std_specs::cmp::PartialEqSpecImpl for ControllerRaw {
    open spec fn obeys_eq_spec() -> bool {
        true
    }

    open spec fn eq_spec(&self, other: &ControllerRaw) -> bool {
        self.pack_num == other.pack_num && self.button == other.button && self.tri == other.tri
            && self.sticker == other.sticker
    }
}

impl ControllerRaw {
    /// A slot that has reported nothing yet.
    pub fn new() -> (r: Self)
        ensures
            r == (ControllerRaw { pack_num: 0u32, button: 0u16, tri: (0u8, 0u8), sticker: (0i16, 0i16, 0i16, 0i16) }),
    {
        ControllerRaw { pack_num: 0, button: 0, tri: (0, 0), sticker: (0, 0, 0, 0) }
    }
}

impl Default for ControllerRaw {
    /// Same empty snapshot as `new`.
    fn default() -> (r: Self)
        ensures
            r == (ControllerRaw { pack_num: 0u32, button: 0u16, tri: (0u8, 0u8), sticker: (0i16, 0i16, 0i16, 0i16) }),
    {
        ControllerRaw::new()
    }
}

/// The button events that a change of the button word from `old_bits` to
/// `new_bits` produces: one event per differing bit, in ascending bit
/// order, each carrying that bit's mask (`index` is the mask of the bit
/// currently at the bottom).
pub open spec fn button_events(old_bits: int, new_bits: int, index: int) -> Seq<ControllerEvent>
    recommends
        old_bits >= 0,
        new_bits >= 0,
    decreases old_bits + new_bits,
        when old_bits >= 0 && new_bits >= 0
{
    if old_bits == new_bits {
        Seq::empty()
    } else {
        let rest = button_events(old_bits / 2, new_bits / 2, index * 2);
        if old_bits % 2 != new_bits % 2 {
            if old_bits % 2 == 0 {
                seq![ControllerEvent::ButtonPress(index as usize)] + rest
            } else {
                seq![ControllerEvent::ButtonRelease(index as usize)] + rest
            }
        } else {
            rest
        }
    }
}

impl ControllerRaw {
    /// Records new trigger positions and reports them as one event.
    pub fn trigger_change(&mut self, tri_l: u8, tri_r: u8) -> (ev: ControllerEvent)
        ensures
            final(self).tri == (tri_l, tri_r),
            final(self).pack_num == old(self).pack_num,
            final(self).button == old(self).button,
            final(self).sticker == old(self).sticker,
            ev == ControllerEvent::TriggerMove(tri_l, tri_r),
    {
        self.tri = (tri_l, tri_r);
        ControllerEvent::TriggerMove(tri_l, tri_r)
    }

    /// Records a new left-stick position and reports it as one event.
    pub fn sl_change(&mut self, l_x: i16, l_y: i16) -> (ev: ControllerEvent)
        ensures
            final(self).sticker == (l_x, l_y, old(self).sticker.2, old(self).sticker.3),
            final(self).pack_num == old(self).pack_num,
            final(self).button == old(self).button,
            final(self).tri == old(self).tri,
            ev == ControllerEvent::LSticksMove(l_x, l_y),
    {
        self.sticker.0 = l_x;
        self.sticker.1 = l_y;
        ControllerEvent::LSticksMove(l_x, l_y)
    }

    /// Records a new right-stick position and reports it as one event.
    pub fn sr_change(&mut self, r_x: i16, r_y: i16) -> (ev: ControllerEvent)
        ensures
            final(self).sticker == (old(self).sticker.0, old(self).sticker.1, r_x, r_y),
            final(self).pack_num == old(self).pack_num,
            final(self).button == old(self).button,
            final(self).tri == old(self).tri,
            ev == ControllerEvent::RSticksMove(r_x, r_y),
    {
        self.sticker.2 = r_x;
        self.sticker.3 = r_y;
        ControllerEvent::RSticksMove(r_x, r_y)
    }

    /// Records a new button word and reports one press or release event
    /// per button whose bit changed, in ascending bit order.
    pub fn btn_change(&mut self, btn: u16) -> (events: Vec<ControllerEvent>)
        ensures
            final(self).button == btn,
            final(self).pack_num == old(self).pack_num,
            final(self).tri == old(self).tri,
            final(self).sticker == old(self).sticker,
            events@ == button_events(old(self).button as int, btn as int, 1),
    {
        let old_btn = self.button;
        self.button = btn;
        let mut cur_old: u16 = old_btn;
        let mut cur_new: u16 = btn;
        let mut index: usize = 1;
        let mut res: Vec<ControllerEvent> = Vec::new();
        let ghost total: Seq<ControllerEvent> = button_events(old_btn as int, btn as int, 1);
        let ghost mut k: nat = 0;
        proof {
            lemma2_to64();
        }
        while cur_old != cur_new
            invariant
                k <= 16,
                index == pow2(k),
                cur_old as int == old_btn as int / pow2(k) as int,
                cur_new as int == btn as int / pow2(k) as int,
                res@ + button_events(cur_old as int, cur_new as int, index as int) == total,
            decreases cur_old + cur_new,
        {
            proof {
                lemma2_to64();
                if k == 16 {
                    assert(pow2(16) == 0x10000);
                    assert(old_btn as int / 0x10000 == 0);
                    assert(btn as int / 0x10000 == 0);
                    assert(false);
                }
                assert(pow2(k) < 0x10000) by {
                    assert(k <= 15);
                    vstd::arithmetic::power2::lemma_pow2_strictly_increases(k, 16);
                }
            }
            let ghost rest = button_events(cur_old as int / 2, cur_new as int / 2, index as int * 2);
            if cur_old % 2 != cur_new % 2 {
                if cur_old % 2 == 0 {
                    res.push(ControllerEvent::ButtonPress(index));
                    proof {
                        assert(res@ + rest == total);
                    }
                } else {
                    res.push(ControllerEvent::ButtonRelease(index));
                    proof {
                        assert(res@ + rest == total);
                    }
                }
            } else {
                proof {
                    assert(res@ + rest == total);
                }
            }
            index = index * 2;
            cur_old = cur_old / 2;
            cur_new = cur_new / 2;
            proof {
                lemma_div_denominator(old_btn as int, pow2(k) as int, 2);
                lemma_div_denominator(btn as int, pow2(k) as int, 2);
                lemma_pow2_adds(k, 1);
                lemma2_to64();
                k = k + 1nat;
            }
        }
        res
    }
}

} // verus!
