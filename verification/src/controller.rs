//! The virtual-gamepad output batcher: a shadow of the last logical
//! gamepad state, armed only when a write actually changed it, so the
//! driver is asked to update exactly once per real change.

use vstd::prelude::*;

verus! {

/// The logical state of the virtual gamepad: button word, trigger bytes
/// and the four stick axes.
#[derive(Clone, Copy, PartialEq, Eq, Structural, Debug)]
pub struct Gamepad {
    pub buttons: u16,
    pub left_trigger: u8,
    pub right_trigger: u8,
    pub thumb_lx: i16,
    pub thumb_ly: i16,
    pub thumb_rx: i16,
    pub thumb_ry: i16,
}

impl Gamepad {
    /// Everything at rest.
    pub open spec fn at_rest() -> Gamepad {
        Gamepad {
            buttons: 0u16,
            left_trigger: 0u8,
            right_trigger: 0u8,
            thumb_lx: 0i16,
            thumb_ly: 0i16,
            thumb_rx: 0i16,
            thumb_ry: 0i16,
        }
    }

    /// Everything at rest.
    pub fn new() -> (r: Self)
        ensures
            r == Gamepad::at_rest(),
    {
        Gamepad {
            buttons: 0,
            left_trigger: 0,
            right_trigger: 0,
            thumb_lx: 0,
            thumb_ly: 0,
            thumb_rx: 0,
            thumb_ry: 0,
        }
    }
}

/// The batcher: the shadow state and whether it differs from what the
/// sink last received.
#[derive(Clone, Copy, PartialEq, Eq, Structural, Debug)]
pub struct Controller {
    pub gamepad: Gamepad,
    pub updated: bool,
}

/// Pressing button mask `btn`: only when none of its bits is down does
/// the word change (and the batcher arm).
pub open spec fn pad_press(c: Controller, btn: u16) -> Controller {
    if c.gamepad.buttons & btn == 0 {
        Controller { gamepad: Gamepad { buttons: c.gamepad.buttons ^ btn, ..c.gamepad }, updated: true }
    } else {
        c
    }
}

/// Releasing button mask `btn`: only when some of its bits are down does
/// the word change (and the batcher arm).
pub open spec fn pad_release(c: Controller, btn: u16) -> Controller {
    if c.gamepad.buttons & btn != 0 {
        Controller { gamepad: Gamepad { buttons: c.gamepad.buttons ^ btn, ..c.gamepad }, updated: true }
    } else {
        c
    }
}

/// Writing the trigger pair: a no-change write leaves the batcher alone.
pub open spec fn pad_trigger(c: Controller, l: u8, r: u8) -> Controller {
    if c.gamepad.left_trigger != l || c.gamepad.right_trigger != r {
        Controller {
            gamepad: Gamepad { left_trigger: l, right_trigger: r, ..c.gamepad },
            updated: true,
        }
    } else {
        c
    }
}

/// Writing the left stick: a no-change write leaves the batcher alone.
pub open spec fn pad_left_stick(c: Controller, x: i16, y: i16) -> Controller {
    if c.gamepad.thumb_lx != x || c.gamepad.thumb_ly != y {
        Controller { gamepad: Gamepad { thumb_lx: x, thumb_ly: y, ..c.gamepad }, updated: true }
    } else {
        c
    }
}

/// Writing the right stick: a no-change write leaves the batcher alone.
pub open spec fn pad_right_stick(c: Controller, x: i16, y: i16) -> Controller {
    if c.gamepad.thumb_rx != x || c.gamepad.thumb_ry != y {
        Controller { gamepad: Gamepad { thumb_rx: x, thumb_ry: y, ..c.gamepad }, updated: true }
    } else {
        c
    }
}

impl Controller {
    /// A fresh batcher over a resting pad, armed so that the first flush
    /// announces the resting state to the sink.
    pub fn new() -> (r: Self)
        ensures
            r.gamepad == Gamepad::at_rest(),
            r.updated,
    {
        Controller { gamepad: Gamepad::new(), updated: true }
    }

    /// Presses the buttons of mask `btn` on the shadow pad.
    pub fn press(&mut self, btn: u16)
        ensures
            *final(self) == pad_press(*old(self), btn),
    {
        if self.gamepad.buttons & btn == 0 {
            self.updated = true;
            self.gamepad.buttons = self.gamepad.buttons ^ btn;
        }
    }

    /// Releases the buttons of mask `btn` on the shadow pad.
    pub fn release(&mut self, btn: u16)
        ensures
            *final(self) == pad_release(*old(self), btn),
    {
        if self.gamepad.buttons & btn != 0 {
            self.updated = true;
            self.gamepad.buttons = self.gamepad.buttons ^ btn;
        }
    }

    /// Writes the trigger pair to the shadow pad.
    pub fn trigger(&mut self, l: u8, r: u8)
        ensures
            *final(self) == pad_trigger(*old(self), l, r),
    {
        if self.gamepad.left_trigger != l || self.gamepad.right_trigger != r {
            self.updated = true;
            self.gamepad.left_trigger = l;
            self.gamepad.right_trigger = r;
        }
    }

    /// Writes the left stick to the shadow pad.
    pub fn left_stick(&mut self, x: i16, y: i16)
        ensures
            *final(self) == pad_left_stick(*old(self), x, y),
    {
        if self.gamepad.thumb_lx != x || self.gamepad.thumb_ly != y {
            self.updated = true;
            self.gamepad.thumb_lx = x;
            self.gamepad.thumb_ly = y;
        }
    }

    /// Writes the right stick to the shadow pad.
    pub fn right_stick(&mut self, x: i16, y: i16)
        ensures
            *final(self) == pad_right_stick(*old(self), x, y),
    {
        if self.gamepad.thumb_rx != x || self.gamepad.thumb_ry != y {
            self.updated = true;
            self.gamepad.thumb_rx = x;
            self.gamepad.thumb_ry = y;
        }
    }

    /// Hands the shadow state out exactly when some write changed it
    /// since the last flush; the caller sends it to the sink.
    pub fn try_update(&mut self) -> (r: Option<Gamepad>)
        ensures
            old(self).updated ==> r == Some(old(self).gamepad),
            !old(self).updated ==> r is None,
            final(self).gamepad == old(self).gamepad,
            !final(self).updated,
    {
        if self.updated {
            self.updated = false;
            Some(self.gamepad)
        } else {
            None
        }
    }
}

/// Law: writing the same stick position twice arms the batcher once.
/// The second identical write changes nothing, so a batcher flushed
/// after the first write stays quiet after the second: exactly one sink
/// update happens.
pub proof fn lemma_stick_write_dedup(c: Controller, x: i16, y: i16)
    ensures
        pad_left_stick(pad_left_stick(c, x, y), x, y) == pad_left_stick(c, x, y),
        !(Controller { updated: false, ..pad_left_stick(pad_left_stick(c, x, y), x, y) }).updated,
        pad_left_stick(
            Controller { updated: false, ..pad_left_stick(c, x, y) },
            x,
            y,
        ) == (Controller { updated: false, ..pad_left_stick(c, x, y) }),
        pad_right_stick(pad_right_stick(c, x, y), x, y) == pad_right_stick(c, x, y),
        pad_trigger(pad_trigger(c, x as u8, y as u8), x as u8, y as u8) == pad_trigger(
            c,
            x as u8,
            y as u8,
        ),
{
}

} // verus!
