//! Identity of pressable inputs: keyboard keys, mouse buttons and
//! controller buttons.

use vstd::prelude::*;

verus! {

/// Code of the left control key.
pub const KEY_CONTROL_LEFT: u32 = 1;
/// Code of the right control key.
pub const KEY_CONTROL_RIGHT: u32 = 2;
/// Code of the alt key.
pub const KEY_ALT: u32 = 3;
/// Code of the alt-gr key.
pub const KEY_ALT_GR: u32 = 4;
/// Code of the left shift key.
pub const KEY_SHIFT_LEFT: u32 = 5;
/// Code of the right shift key.
pub const KEY_SHIFT_RIGHT: u32 = 6;
/// Code of the tab key.
pub const KEY_TAB: u32 = 7;
/// Code of the left OS (windows) key.
pub const KEY_META_LEFT: u32 = 8;
/// Code of the right OS (windows) key.
pub const KEY_META_RIGHT: u32 = 9;
/// Code of the return key.
pub const KEY_RETURN: u32 = 10;
/// Code of the escape key.
pub const KEY_ESCAPE: u32 = 11;
/// Code of the letter key S.
pub const KEY_S: u32 = 12;
/// Code of the up-arrow key.
pub const KEY_UP_ARROW: u32 = 13;

/// A keyboard key, identified by a stable numeric code.
///
/// The platform layer assigns every physical key one code; the codes the
/// chord logic itself reads (the modifiers and a few often-bound keys)
/// are the named constants above.
#[derive(Clone, Copy, PartialEq, Eq, Structural, Debug, Hash)]
pub struct Key(pub u32);

/// One pressable input: a keyboard key, a mouse button (0 left, 1 right,
/// 2 middle, anything else pass-through), or a button of one controller
/// slot, as (slot, button bit).
#[derive(Clone, Copy, PartialEq, Eq, Structural, Debug, Hash)]
pub enum AnyKey {
    Keyboard(Key),
    MouseButton(u32),
    Controller(u32, usize),
}

impl From<(u32, usize)> for AnyKey {
    /// Builds the controller-button variant from a (slot, button) pair.
    fn from(button: (u32, usize)) -> (r: Self)
        ensures
            r == AnyKey::Controller(button.0, button.1),
    {
        AnyKey::Controller(button.0, button.1)
    }
}

impl vstd::std_specs::convert::FromSpecImpl<(u32, usize)> for AnyKey {
    open spec fn obeys_from_spec() -> bool {
        true
    }

    open spec fn from_spec(button: (u32, usize)) -> Self {
        AnyKey::Controller(button.0, button.1)
    }
}

/// True when `keys` holds no element twice: the shape the persistent
/// pressed set keeps at all times.
pub open spec fn no_duplicates(keys: Seq<AnyKey>) -> bool {
    forall|i: int, j: int| 0 <= i < j < keys.len() ==> keys[i] != keys[j]
}

/// Whether `keys` holds `key`, by one left-to-right scan.
pub fn contains_key(keys: &Vec<AnyKey>, key: AnyKey) -> (r: bool)
    ensures
        r == keys@.contains(key),
{
    let mut i: usize = 0;
    while i < keys.len()
        invariant
            i <= keys@.len(),
            forall|j: int| 0 <= j < i ==> keys@[j] != key,
        decreases keys@.len() - i,
    {
        if keys[i] == key {
            assert(keys@.contains(key));
            return true;
        }
        i += 1;
    }
    assert(!keys@.contains(key));
    false
}

} // verus!
