//! The aggregated input state: the persistent pressed-key set, the
//! last-known axis values, the per-tick delta buffers, and the chord
//! pattern matching evaluated against that state.

use vstd::prelude::*;
use crate::keys::{AnyKey, Key, contains_key, no_duplicates};
use crate::keys::{KEY_CONTROL_LEFT, KEY_CONTROL_RIGHT, KEY_ALT, KEY_ALT_GR, KEY_SHIFT_LEFT,
    KEY_SHIFT_RIGHT, KEY_TAB, KEY_META_LEFT, KEY_META_RIGHT};
use crate::offsets::{AllOffsets, AllOffsetsView, AnyOffset, apply_offset, resting_offsets};
use crate::record::RecordEntry;
use crate::shortcut::{ShortCut, ShortCuts};

verus! {

/// Snapshot of everything the session has seen so far: the time of the
/// last tick boundary, the ordered set of currently-held keys, the
/// last-known axis values, and the not-yet-flushed per-tick buffers.
#[derive(Debug)]
pub struct GlobalState {
    /// Elapsed milliseconds at the last tick boundary.
    pub time_ms: u64,
    /// Currently-held keys, in the order first pressed, each at most once.
    pub pressed_keys: Vec<AnyKey>,
    /// Last-known value of every axis.
    pub offsets: AllOffsets,
    /// Transient buffer of keys pressed since the last tick boundary.
    pub rec_pressed: Vec<AnyKey>,
    /// Transient buffer of keys released since the last tick boundary.
    pub rec_released: Vec<AnyKey>,
    /// Transient buffer of axis movements since the last tick boundary.
    pub rec_moves: Vec<AnyOffset>,
    /// Elapsed time at which the running recording started.
    pub rec_start_ms: u64,
}

impl GlobalState {
    /// Keys pressed since the last tick boundary, one entry per event.
    pub open spec fn pending_pressed(self) -> Seq<AnyKey> {
        self.rec_pressed@
    }

    /// Keys released since the last tick boundary, one entry per event.
    pub open spec fn pending_released(self) -> Seq<AnyKey> {
        self.rec_released@
    }

    /// Axis movements since the last tick boundary, one entry per event.
    pub open spec fn pending_moves(self) -> Seq<AnyOffset> {
        self.rec_moves@
    }

    /// The elapsed time at which the running recording started.
    pub open spec fn rec_start(self) -> u64 {
        self.rec_start_ms
    }

    /// Each key is held at most once, and every axis class keeps its
    /// four controller slots.
    pub open spec fn wf(self) -> bool {
        no_duplicates(self.pressed_keys@) && self.offsets.wf()
    }

    /// Nothing seen yet: the clock at zero, no key held, every axis at
    /// rest, the transient buffers empty.
    pub open spec fn is_fresh(self) -> bool {
        self.time_ms == 0 && self.pressed_keys@ == Seq::<AnyKey>::empty() && self.offsets@
            == resting_offsets() && self.pending_pressed() == Seq::<AnyKey>::empty()
            && self.pending_released() == Seq::<AnyKey>::empty() && self.pending_moves()
            == Seq::<AnyOffset>::empty() && self.rec_start() == 0
    }

    /// The state before any input was seen.
    pub fn new() -> (r: Self)
        ensures
            r.wf(),
            r.is_fresh(),
    {
        GlobalState {
            time_ms: 0,
            pressed_keys: Vec::new(),
            offsets: AllOffsets::new(),
            rec_pressed: Vec::new(),
            rec_released: Vec::new(),
            rec_moves: Vec::new(),
            rec_start_ms: 0,
        }
    }

    /// Notes one key-press event: the transient buffer records every
    /// event, the persistent set gains the key only if it is absent.
    pub fn key_down(&mut self, key: AnyKey)
        requires
            old(self).wf(),
        ensures
            final(self).wf(),
            final(self).pending_pressed() == old(self).pending_pressed().push(key),
            old(self).pressed_keys@.contains(key) ==> final(self).pressed_keys@ == old(
                self,
            ).pressed_keys@,
            !old(self).pressed_keys@.contains(key) ==> final(self).pressed_keys@ == old(
                self,
            ).pressed_keys@.push(key),
            final(self).pressed_keys@.contains(key),
            final(self).time_ms == old(self).time_ms,
            final(self).offsets == old(self).offsets,
            final(self).pending_released() == old(self).pending_released(),
            final(self).pending_moves() == old(self).pending_moves(),
            final(self).rec_start() == old(self).rec_start(),
    {
        self.rec_pressed.push(key);
        if !contains_key(&self.pressed_keys, key) {
            self.pressed_keys.push(key);
            proof {
                let s = self.pressed_keys@;
                assert(s.last() == key);
                assert forall|i: int, j: int| 0 <= i < j < s.len() implies s[i] != s[j] by {
                    if j == s.len() - 1 {
                        assert(old(self).pressed_keys@.contains(s[i]) == false || s[i] != key);
                        assert(old(self).pressed_keys@[i] == s[i]);
                    }
                }
            }
        }
        proof {
            assert(self.pressed_keys@.contains(key));
        }
    }

    /// Notes one key-release event: the key leaves the persistent set
    /// (it was there at most once), and the transient buffer records the
    /// event whether or not the key was held.
    pub fn key_up(&mut self, key: AnyKey)
        requires
            old(self).wf(),
        ensures
            final(self).wf(),
            final(self).pressed_keys@ == old(self).pressed_keys@.remove_value(key),
            !final(self).pressed_keys@.contains(key),
            final(self).pending_released() == old(self).pending_released().push(key),
            final(self).time_ms == old(self).time_ms,
            final(self).offsets == old(self).offsets,
            final(self).pending_pressed() == old(self).pending_pressed(),
            final(self).pending_moves() == old(self).pending_moves(),
            final(self).rec_start() == old(self).rec_start(),
    {
        let ghost s = self.pressed_keys@;
        let mut i: usize = 0;
        let mut found: bool = false;
        while i < self.pressed_keys.len() && !found
            invariant
                self.pressed_keys@ == s,
                i <= s.len(),
                found ==> i < s.len() && s[i as int] == key,
                !found ==> forall|j: int| 0 <= j < i ==> s[j] != key,
            decreases s.len() - i + (if found { 0int } else { 1int }),
        {
            if self.pressed_keys[i] == key {
                found = true;
            } else {
                i += 1;
            }
        }
        proof {
            s.index_of_first_ensures(key);
        }
        if found {
            proof {
                let fi = s.index_of_first(key).unwrap();
                assert(s.contains(key));
                if fi < i as int {
                    assert(s[fi] != key);
                    assert(false);
                }
                if fi > i as int {
                    assert(s[i as int] != key);
                    assert(false);
                }
                assert(fi == i as int);
            }
            self.pressed_keys.remove(i);
            proof {
                let t = self.pressed_keys@;
                assert(t == s.remove(i as int));
                s.remove_ensures(i as int);
                assert forall|j: int| 0 <= j < t.len() implies t[j] != key by {
                    if j < i as int {
                        assert(t[j] == s[j]);
                        assert(s[j] != s[i as int]);
                    } else {
                        assert(t[j] == s[j + 1]);
                        assert(s[j + 1] != s[i as int]);
                    }
                }
                assert(!t.contains(key));
                assert forall|a: int, b: int| 0 <= a < b < t.len() implies t[a] != t[b] by {
                    let a0 = if a < i as int { a } else { a + 1 };
                    let b0 = if b < i as int { b } else { b + 1 };
                    assert(t[a] == s[a0]);
                    assert(t[b] == s[b0]);
                }
            }
        } else {
            proof {
                assert(forall|j: int| 0 <= j < s.len() ==> s[j] != key);
                assert(!s.contains(key));
                assert(self.pressed_keys@ == s.remove_value(key));
            }
        }
        self.rec_released.push(key);
    }

    /// Notes one axis movement: the matching slot of the last-known axis
    /// values is overwritten and the transient buffer records the event.
    pub fn moves(&mut self, offset: AnyOffset)
        requires
            old(self).wf(),
            offset.slot_ok(),
        ensures
            final(self).wf(),
            final(self).offsets@ == apply_offset(old(self).offsets@, offset),
            final(self).pending_moves() == old(self).pending_moves().push(offset),
            final(self).time_ms == old(self).time_ms,
            final(self).pressed_keys@ == old(self).pressed_keys@,
            final(self).pending_pressed() == old(self).pending_pressed(),
            final(self).pending_released() == old(self).pending_released(),
            final(self).rec_start() == old(self).rec_start(),
    {
        match offset {
            AnyOffset::Mouse(x, y) => {
                self.offsets.mouse = (x, y);
            },
            AnyOffset::Wheel(x, y) => {
                self.offsets.wheel = (x, y);
            },
            AnyOffset::Trigger(slot, l, r) => {
                self.offsets.trigger[slot as usize] = (l, r);
            },
            AnyOffset::LeftStick(slot, x, y) => {
                self.offsets.left_stick[slot as usize] = (x, y);
            },
            AnyOffset::RightStick(slot, x, y) => {
                self.offsets.right_stick[slot as usize] = (x, y);
            },
        }
        self.rec_moves.push(offset);
    }

    /// Cuts a tick boundary at elapsed time `ms`: the three transient
    /// buffers move into a new entry stamped relative to the recording
    /// start (clamped at zero if the start lies ahead of `ms`), and the
    /// last-seen time advances to `ms`.
    pub fn next_ms(&mut self, ms: u64) -> (entry: RecordEntry)
        requires
            old(self).wf(),
        ensures
            final(self).wf(),
            entry@.ms == if ms >= old(self).rec_start() {
                (ms - old(self).rec_start()) as u64
            } else {
                0u64
            },
            entry@.pressed == old(self).pending_pressed(),
            entry@.released == old(self).pending_released(),
            entry@.moves == old(self).pending_moves(),
            final(self).pending_pressed() == Seq::<AnyKey>::empty(),
            final(self).pending_released() == Seq::<AnyKey>::empty(),
            final(self).pending_moves() == Seq::<AnyOffset>::empty(),
            final(self).time_ms == ms,
            final(self).pressed_keys@ == old(self).pressed_keys@,
            final(self).offsets == old(self).offsets,
            final(self).rec_start() == old(self).rec_start(),
    {
        let mut pressed: Vec<AnyKey> = Vec::new();
        let mut released: Vec<AnyKey> = Vec::new();
        let mut moved: Vec<AnyOffset> = Vec::new();
        core::mem::swap(&mut pressed, &mut self.rec_pressed);
        core::mem::swap(&mut released, &mut self.rec_released);
        core::mem::swap(&mut moved, &mut self.rec_moves);
        let stamp: u64 = if ms >= self.rec_start_ms {
            ms - self.rec_start_ms
        } else {
            0
        };
        self.time_ms = ms;
        RecordEntry { ms: stamp, pressed, released, moves: moved }
    }

    /// Drops whatever the transient buffers hold without cutting a tick.
    pub fn clear_this(&mut self)
        requires
            old(self).wf(),
        ensures
            final(self).wf(),
            final(self).pending_pressed() == Seq::<AnyKey>::empty(),
            final(self).pending_released() == Seq::<AnyKey>::empty(),
            final(self).pending_moves() == Seq::<AnyOffset>::empty(),
            final(self).time_ms == old(self).time_ms,
            final(self).pressed_keys@ == old(self).pressed_keys@,
            final(self).offsets == old(self).offsets,
            final(self).rec_start() == old(self).rec_start(),
    {
        self.rec_pressed.clear();
        self.rec_released.clear();
        self.rec_moves.clear();
    }

    /// Marks the recording as having started `time_offset` milliseconds
    /// before the last tick boundary, so that fresh entries continue an
    /// existing timeline (clamped at zero if the offset reaches back
    /// past the clock origin).
    pub fn start_rec(&mut self, time_offset: u64)
        requires
            old(self).wf(),
        ensures
            final(self).wf(),
            final(self).rec_start() == if time_offset <= old(self).time_ms {
                (old(self).time_ms - time_offset) as u64
            } else {
                0u64
            },
            final(self).time_ms == old(self).time_ms,
            final(self).pressed_keys@ == old(self).pressed_keys@,
            final(self).offsets == old(self).offsets,
            final(self).pending_pressed() == old(self).pending_pressed(),
            final(self).pending_released() == old(self).pending_released(),
            final(self).pending_moves() == old(self).pending_moves(),
    {
        self.rec_start_ms = if time_offset <= self.time_ms {
            self.time_ms - time_offset
        } else {
            0
        };
    }
}

/// How one held input reshapes the pattern under construction: modifier
/// keys and the three named mouse buttons pin their flag, every other
/// key or controller button becomes the last-seen one and bumps the
/// matching counter (which sticks at its ceiling rather than wrap).
pub open spec fn apply_key(p: ShortCut, key: AnyKey) -> ShortCut {
    match key {
        AnyKey::Keyboard(k) => if k.0 == KEY_CONTROL_LEFT || k.0 == KEY_CONTROL_RIGHT {
            ShortCut { ctrl: Some(true), ..p }
        } else if k.0 == KEY_ALT || k.0 == KEY_ALT_GR {
            ShortCut { alt: Some(true), ..p }
        } else if k.0 == KEY_SHIFT_LEFT || k.0 == KEY_SHIFT_RIGHT {
            ShortCut { shift: Some(true), ..p }
        } else if k.0 == KEY_TAB {
            ShortCut { tab: Some(true), ..p }
        } else if k.0 == KEY_META_LEFT || k.0 == KEY_META_RIGHT {
            ShortCut { windows: Some(true), ..p }
        } else {
            ShortCut {
                key: Some(k),
                key_option: if p.key_option == 255 {
                    255u8
                } else {
                    (p.key_option + 1) as u8
                },
                ..p
            }
        },
        AnyKey::MouseButton(i) => if i == 0 {
            ShortCut { mouse_l_button: Some(true), ..p }
        } else if i == 1 {
            ShortCut { mouse_r_button: Some(true), ..p }
        } else if i == 2 {
            ShortCut { mouse_m_button: Some(true), ..p }
        } else {
            p
        },
        AnyKey::Controller(id, code) => ShortCut {
            controller_btn: Some((id, code)),
            controller_btn_option: if p.controller_btn_option == 255 {
                255u8
            } else {
                (p.controller_btn_option + 1) as u8
            },
            ..p
        },
    }
}

/// The pattern that a held-key list derives: the wildcard reshaped by
/// each held input, in the order pressed.
pub open spec fn pattern_of(keys: Seq<AnyKey>) -> ShortCut
    decreases keys.len(),
{
    if keys.len() == 0 {
        ShortCut::any_spec()
    } else {
        apply_key(pattern_of(keys.drop_last()), keys.last())
    }
}

/// How a candidate's three-valued flag reads a pattern's flag: `None`
/// ignores it, `Some(b)` demands that the pattern holds the modifier
/// exactly when `b` (a pattern flag left `None` counts as not held).
pub open spec fn flag_ok(pat_flag: Option<bool>, cand_flag: Option<bool>) -> bool {
    match cand_flag {
        None => true,
        Some(b) => (pat_flag is Some) == b,
    }
}

/// All eight modifier and mouse-button flags of the candidate accept
/// the pattern.
pub open spec fn modifiers_ok(pat: ShortCut, cand: ShortCut) -> bool {
    flag_ok(pat.alt, cand.alt) && flag_ok(pat.ctrl, cand.ctrl) && flag_ok(pat.shift, cand.shift)
        && flag_ok(pat.tab, cand.tab) && flag_ok(pat.windows, cand.windows) && flag_ok(
        pat.mouse_l_button,
        cand.mouse_l_button,
    ) && flag_ok(pat.mouse_r_button, cand.mouse_r_button) && flag_ok(
        pat.mouse_m_button,
        cand.mouse_m_button,
    )
}

/// The tri-state key rule of a candidate against the pattern and the
/// held-key list, exactly the table on `ShortCut`.
pub open spec fn key_rule(pressed: Seq<AnyKey>, pat: ShortCut, cand: ShortCut) -> bool {
    if cand.key_option == 0 {
        match cand.key {
            None => true,
            Some(k) => pressed.contains(AnyKey::Keyboard(k)),
        }
    } else if cand.key_option == 1 {
        match cand.key {
            None => pat.key_option == 1,
            Some(k) => pat.key_option == 1 && pat.key == Some(k),
        }
    } else if cand.key_option == 2 {
        match cand.key {
            None => pat.key_option == 0,
            Some(k) => !pressed.contains(AnyKey::Keyboard(k)),
        }
    } else {
        true
    }
}

/// The tri-state controller-button rule, the same table over controller
/// button identity.
pub open spec fn btn_rule(pressed: Seq<AnyKey>, pat: ShortCut, cand: ShortCut) -> bool {
    if cand.controller_btn_option == 0 {
        match cand.controller_btn {
            None => true,
            Some(b) => pressed.contains(AnyKey::Controller(b.0, b.1)),
        }
    } else if cand.controller_btn_option == 1 {
        match cand.controller_btn {
            None => pat.controller_btn_option == 1,
            Some(b) => pat.controller_btn_option == 1 && pat.controller_btn == Some(b),
        }
    } else if cand.controller_btn_option == 2 {
        match cand.controller_btn {
            None => pat.controller_btn_option == 0,
            Some(b) => !pressed.contains(AnyKey::Controller(b.0, b.1)),
        }
    } else {
        true
    }
}

/// The candidate's trigger-held flags accept the last-known axis values:
/// a named slot's trigger must be away from rest.
pub open spec fn triggers_ok(offsets: AllOffsetsView, cand: ShortCut) -> bool {
    (match cand.trigger_l {
        None => true,
        Some(slot) => offsets.trigger[slot as int].0 != 0,
    }) && (match cand.trigger_r {
        None => true,
        Some(slot) => offsets.trigger[slot as int].1 != 0,
    })
}

impl GlobalState {
    /// Whether the candidate chord `cand` matches this state, given the
    /// pattern derived from it: all pinned flags agree, the named
    /// triggers are held, and both tri-state rules pass.
    pub open spec fn shortcut_matched(self, pat: ShortCut, cand: ShortCut) -> bool {
        modifiers_ok(pat, cand) && triggers_ok(self.offsets@, cand) && key_rule(
            self.pressed_keys@,
            pat,
            cand,
        ) && btn_rule(self.pressed_keys@, pat, cand)
    }

    /// Whether a chord list fires against this state: any listed chord
    /// matches (`Contains`), or no listed chord matches (`Exclude`).
    pub open spec fn chords_matched(self, pat: ShortCut, exclude: bool, chords: Seq<ShortCut>) -> bool {
        if exclude {
            forall|i: int| 0 <= i < chords.len() ==> !(#[trigger] self.shortcut_matched(pat, chords[i]))
        } else {
            exists|i: int| 0 <= i < chords.len() && #[trigger] self.shortcut_matched(pat, chords[i])
        }
    }

    /// Derives the chord pattern of the currently-held inputs: held
    /// modifiers and mouse buttons pin their flags, and the plain keys
    /// and controller buttons leave their count and last representative.
    pub fn get_pattern(&self) -> (r: ShortCut)
        ensures
            r == pattern_of(self.pressed_keys@),
    {
        let ghost keys = self.pressed_keys@;
        let mut res = ShortCut::any();
        let mut i: usize = 0;
        while i < self.pressed_keys.len()
            invariant
                i <= keys.len(),
                keys == self.pressed_keys@,
                res == pattern_of(keys.subrange(0, i as int)),
            decreases keys.len() - i,
        {
            let key = self.pressed_keys[i];
            match key {
                AnyKey::Keyboard(k) => {
                    if k.0 == KEY_CONTROL_LEFT || k.0 == KEY_CONTROL_RIGHT {
                        res.ctrl = Some(true);
                    } else if k.0 == KEY_ALT || k.0 == KEY_ALT_GR {
                        res.alt = Some(true);
                    } else if k.0 == KEY_SHIFT_LEFT || k.0 == KEY_SHIFT_RIGHT {
                        res.shift = Some(true);
                    } else if k.0 == KEY_TAB {
                        res.tab = Some(true);
                    } else if k.0 == KEY_META_LEFT || k.0 == KEY_META_RIGHT {
                        res.windows = Some(true);
                    } else {
                        res.key = Some(k);
                        if res.key_option != 255 {
                            res.key_option += 1;
                        }
                    }
                },
                AnyKey::MouseButton(b) => {
                    if b == 0 {
                        res.mouse_l_button = Some(true);
                    } else if b == 1 {
                        res.mouse_r_button = Some(true);
                    } else if b == 2 {
                        res.mouse_m_button = Some(true);
                    }
                },
                AnyKey::Controller(id, code) => {
                    res.controller_btn = Some((id, code));
                    if res.controller_btn_option != 255 {
                        res.controller_btn_option += 1;
                    }
                },
            }
            proof {
                assert(keys.subrange(0, i + 1).drop_last() =~= keys.subrange(0, i as int));
                assert(keys.subrange(0, i + 1).last() == keys[i as int]);
            }
            i += 1;
        }
        proof {
            assert(keys.subrange(0, keys.len() as int) =~= keys);
        }
        res
    }

    /// Evaluates one candidate chord against this state and the given
    /// pattern.
    pub fn match_shortcut(&self, pat: &ShortCut, shortcut: &ShortCut) -> (r: bool)
        requires
            self.wf(),
            shortcut.wf(),
        ensures
            r == self.shortcut_matched(*pat, *shortcut),
    {
        let modifiers = flag_cmp(&pat.alt, &shortcut.alt) && flag_cmp(&pat.ctrl, &shortcut.ctrl)
            && flag_cmp(&pat.shift, &shortcut.shift) && flag_cmp(&pat.tab, &shortcut.tab)
            && flag_cmp(&pat.windows, &shortcut.windows) && flag_cmp(
            &pat.mouse_l_button,
            &shortcut.mouse_l_button,
        ) && flag_cmp(&pat.mouse_r_button, &shortcut.mouse_r_button) && flag_cmp(
            &pat.mouse_m_button,
            &shortcut.mouse_m_button,
        );
        if !modifiers {
            return false;
        }
        if let Some(slot) = shortcut.trigger_l {
            if self.offsets.trigger[slot as usize].0 == 0 {
                return false;
            }
        }
        if let Some(slot) = shortcut.trigger_r {
            if self.offsets.trigger[slot as usize].1 == 0 {
                return false;
            }
        }
        if shortcut.key_option == 0 {
            if let Some(k) = &shortcut.key {
                if !contains_key(&self.pressed_keys, AnyKey::Keyboard(*k)) {
                    return false;
                }
            }
        } else if shortcut.key_option == 1 {
            match &shortcut.key {
                None => if pat.key_option != 1 {
                    return false;
                },
                Some(k) => {
                    let held = match &pat.key {
                        Some(pk) => pk.0 == k.0,
                        None => false,
                    };
                    if pat.key_option != 1 || !held {
                        return false;
                    }
                },
            }
        } else if shortcut.key_option == 2 {
            match &shortcut.key {
                None => if pat.key_option != 0 {
                    return false;
                },
                Some(k) => if contains_key(&self.pressed_keys, AnyKey::Keyboard(*k)) {
                    return false;
                },
            }
        }
        if shortcut.controller_btn_option == 0 {
            if let Some(b) = &shortcut.controller_btn {
                if !contains_key(&self.pressed_keys, AnyKey::Controller(b.0, b.1)) {
                    return false;
                }
            }
        } else if shortcut.controller_btn_option == 1 {
            match &shortcut.controller_btn {
                None => if pat.controller_btn_option != 1 {
                    return false;
                },
                Some(b) => {
                    let held = match &pat.controller_btn {
                        Some(pb) => pb.0 == b.0 && pb.1 == b.1,
                        None => false,
                    };
                    if pat.controller_btn_option != 1 || !held {
                        return false;
                    }
                },
            }
        } else if shortcut.controller_btn_option == 2 {
            match &shortcut.controller_btn {
                None => if pat.controller_btn_option != 0 {
                    return false;
                },
                Some(b) => if contains_key(&self.pressed_keys, AnyKey::Controller(b.0, b.1)) {
                    return false;
                },
            }
        }
        true
    }

    /// Evaluates a chord list against this state and the given pattern.
    pub fn match_shortcuts(&self, pat: &ShortCut, shortcuts: &ShortCuts) -> (r: bool)
        requires
            self.wf(),
            shortcuts.wf(),
        ensures
            r == self.chords_matched(*pat, shortcuts.is_exclude(), shortcuts.chords()),
    {
        match shortcuts {
            ShortCuts::Contains(list) => {
                proof {
                    assert(shortcuts.chords() == list@);
                    assert forall|j: int| 0 <= j < list@.len() implies (#[trigger] list@[j]).wf() by {
                        assert(shortcuts.chords()[j].wf());
                    }
                }
                let mut i: usize = 0;
                while i < list.len()
                    invariant
                        i <= list@.len(),
                        self.wf(),
                        !shortcuts.is_exclude(),
                        shortcuts.chords() == list@,
                        forall|j: int| 0 <= j < list@.len() ==> (#[trigger] list@[j]).wf(),
                        forall|j: int| 0 <= j < i ==> !(#[trigger] self.shortcut_matched(
                            *pat,
                            list@[j],
                        )),
                    decreases list@.len() - i,
                {
                    if self.match_shortcut(pat, &list[i]) {
                        proof {
                            assert(self.shortcut_matched(*pat, shortcuts.chords()[i as int]));
                        }
                        return true;
                    }
                    i += 1;
                }
                proof {
                    assert(!self.chords_matched(*pat, false, list@));
                    assert(shortcuts.chords() =~= list@);
                }
                false
            },
            ShortCuts::Exclude(list) => {
                proof {
                    assert(shortcuts.chords() == list@);
                    assert forall|j: int| 0 <= j < list@.len() implies (#[trigger] list@[j]).wf() by {
                        assert(shortcuts.chords()[j].wf());
                    }
                }
                let mut i: usize = 0;
                while i < list.len()
                    invariant
                        i <= list@.len(),
                        self.wf(),
                        shortcuts.is_exclude(),
                        shortcuts.chords() == list@,
                        forall|j: int| 0 <= j < list@.len() ==> (#[trigger] list@[j]).wf(),
                        forall|j: int| 0 <= j < i ==> !(#[trigger] self.shortcut_matched(
                            *pat,
                            list@[j],
                        )),
                    decreases list@.len() - i,
                {
                    if self.match_shortcut(pat, &list[i]) {
                        proof {
                            assert(self.shortcut_matched(*pat, shortcuts.chords()[i as int]));
                        }
                        return false;
                    }
                    i += 1;
                }
                proof {
                    assert(self.chords_matched(*pat, true, list@));
                    assert(shortcuts.chords() =~= list@);
                }
                true
            },
        }
    }
}

/// How a candidate's pinned flag reads the pattern's flag.
fn flag_cmp(pat_flag: &Option<bool>, cand_flag: &Option<bool>) -> (r: bool)
    ensures
        r == flag_ok(*pat_flag, *cand_flag),
{
    match cand_flag {
        None => true,
        Some(b) => pat_flag.is_some() == *b,
    }
}

/// What removing a key does to a duplicate-free set: the key is gone,
/// every other key's membership is kept, and no duplicate appears.
pub proof fn lemma_remove_value_membership(s: Seq<AnyKey>, key: AnyKey)
    requires
        no_duplicates(s),
    ensures
        no_duplicates(s.remove_value(key)),
        !s.remove_value(key).contains(key),
        forall|k: AnyKey| k != key ==> s.remove_value(key).contains(k) == s.contains(k),
{
    s.index_of_first_ensures(key);
    if s.contains(key) {
        let fi = s.index_of_first(key).unwrap();
        s.remove_ensures(fi);
        let t = s.remove(fi);
        assert forall|j: int| 0 <= j < t.len() implies t[j] != key by {
            if j < fi {
                assert(t[j] == s[j]);
                assert(s[j] != s[fi]);
            } else {
                assert(t[j] == s[j + 1]);
                assert(s[j + 1] != s[fi]);
            }
        }
        assert(!t.contains(key));
        assert forall|a: int, b: int| 0 <= a < b < t.len() implies t[a] != t[b] by {
            let a0 = if a < fi {
                a
            } else {
                a + 1
            };
            let b0 = if b < fi {
                b
            } else {
                b + 1
            };
            assert(t[a] == s[a0]);
            assert(t[b] == s[b0]);
        }
        assert forall|k: AnyKey| k != key implies t.contains(k) == s.contains(k) by {
            if t.contains(k) {
                let j = choose|j: int| 0 <= j < t.len() && t[j] == k;
                if j < fi {
                    assert(s[j] == k);
                } else {
                    assert(s[j + 1] == k);
                }
            }
            if s.contains(k) {
                let m = choose|m: int| 0 <= m < s.len() && s[m] == k;
                if m < fi {
                    assert(t[m] == k);
                } else {
                    assert(m > fi);
                    assert(t[m - 1] == k);
                }
            }
        }
    }
}

/// One pressed-set call in a history.
pub ghost enum PressCall {
    Down(AnyKey),
    Up(AnyKey),
}

/// What the pressed set holds after a history of presses and releases,
/// starting from nothing: exactly the transitions that `key_down` and
/// `key_up` promise, folded over the history.
pub open spec fn pressed_after(hist: Seq<PressCall>) -> Seq<AnyKey>
    decreases hist.len(),
{
    if hist.len() == 0 {
        Seq::empty()
    } else {
        let prev = pressed_after(hist.drop_last());
        match hist.last() {
            PressCall::Down(k) => if prev.contains(k) {
                prev
            } else {
                prev.push(k)
            },
            PressCall::Up(k) => prev.remove_value(k),
        }
    }
}

/// Whether the most recent call in the history that names `k` pressed
/// it.
pub open spec fn held_after(hist: Seq<PressCall>, k: AnyKey) -> bool
    decreases hist.len(),
{
    if hist.len() == 0 {
        false
    } else {
        match hist.last() {
            PressCall::Down(j) => j == k || held_after(hist.drop_last(), k),
            PressCall::Up(j) => j != k && held_after(hist.drop_last(), k),
        }
    }
}

/// Law: over every finite sequence of presses and releases, the pressed
/// set holds a key exactly when the most recent call naming it pressed
/// it — however often `key_down` was repeated — and never holds a key
/// twice.  `key_down` and `key_up` promise exactly the transitions that
/// `pressed_after` folds, so every reachable aggregator satisfies this.
pub proof fn lemma_pressed_set_history(hist: Seq<PressCall>)
    ensures
        no_duplicates(pressed_after(hist)),
        forall|k: AnyKey| pressed_after(hist).contains(k) == held_after(hist, k),
    decreases hist.len(),
{
    broadcast use vstd::seq_lib::lemma_seq_contains_after_push;

    if hist.len() > 0 {
        lemma_pressed_set_history(hist.drop_last());
        let prev = pressed_after(hist.drop_last());
        let cur = pressed_after(hist);
        match hist.last() {
            PressCall::Down(key) => {
                if !prev.contains(key) {
                    let pushed = prev.push(key);
                    assert forall|a: int, b: int| 0 <= a < b < pushed.len() implies pushed[a]
                        != pushed[b] by {
                        if b == pushed.len() - 1 {
                            assert(prev[a] == pushed[a]);
                            assert(prev.contains(pushed[a]) || pushed[a] != key);
                        }
                    }
                }
                assert forall|k: AnyKey| cur.contains(k) == held_after(hist, k) by {
                    if prev.contains(key) {
                        assert(cur == prev);
                    } else {
                        assert(cur == prev.push(key));
                        assert(cur.contains(k) == (k == key || prev.contains(k)));
                    }
                    assert(prev.contains(k) == held_after(hist.drop_last(), k));
                    assert(held_after(hist, k) == (key == k || held_after(hist.drop_last(), k)));
                }
            },
            PressCall::Up(key) => {
                lemma_remove_value_membership(prev, key);
                assert(cur == prev.remove_value(key));
                assert forall|k: AnyKey| cur.contains(k) == held_after(hist, k) by {
                    assert(held_after(hist, k) == (key != k && held_after(hist.drop_last(), k)));
                    assert(prev.contains(k) == held_after(hist.drop_last(), k));
                    if k == key {
                        assert(!cur.contains(k));
                    } else {
                        assert(cur.contains(k) == prev.contains(k));
                    }
                }
            },
        }
    }
}

/// Law: the persistent pressed set holds each key at most once, and a
/// released key is absent from it no matter how many times it was
/// pressed beforehand.
pub proof fn lemma_pressed_set_idempotent(s: GlobalState, key: AnyKey)
    requires
        s.wf(),
    ensures
        forall|i: int, j: int|
            0 <= i < j < s.pressed_keys@.len() ==> s.pressed_keys@[i] != s.pressed_keys@[j],
        !s.pressed_keys@.remove_value(key).contains(key),
{
    let p = s.pressed_keys@;
    p.index_of_first_ensures(key);
    if p.contains(key) {
        let fi = p.index_of_first(key).unwrap();
        p.remove_ensures(fi);
        let t = p.remove(fi);
        assert forall|j: int| 0 <= j < t.len() implies t[j] != key by {
            if j < fi {
                assert(t[j] == p[j]);
                assert(p[j] != p[fi]);
            } else {
                assert(t[j] == p[j + 1]);
                assert(p[j + 1] != p[fi]);
            }
        }
        assert(!t.contains(key));
    }
}

/// Law: against any pattern, an empty excluding list always fires and an
/// empty containing list never does.
pub proof fn lemma_empty_chord_lists(s: GlobalState, pat: ShortCut)
    ensures
        s.chords_matched(pat, true, Seq::<ShortCut>::empty()),
        !s.chords_matched(pat, false, Seq::<ShortCut>::empty()),
{
}

/// Law: the tri-state key table, cell by cell.  For a candidate that
/// names `key_option` 0, 1 or 2, with or without a key, matching demands
/// of the pattern and the held-key list exactly what the table says.
pub proof fn lemma_key_rule_table(pressed: Seq<AnyKey>, pat: ShortCut, cand: ShortCut)
    ensures
        cand.key_option == 0 && cand.key is None ==> key_rule(pressed, pat, cand),
        cand.key_option == 0 && cand.key is Some ==> (key_rule(pressed, pat, cand)
            <==> pressed.contains(AnyKey::Keyboard(cand.key->0))),
        cand.key_option == 1 && cand.key is None ==> (key_rule(pressed, pat, cand)
            <==> pat.key_option == 1),
        cand.key_option == 1 && cand.key is Some ==> (key_rule(pressed, pat, cand)
            <==> pat.key_option == 1 && pat.key == cand.key),
        cand.key_option == 2 && cand.key is None ==> (key_rule(pressed, pat, cand)
            <==> pat.key_option == 0),
        cand.key_option == 2 && cand.key is Some ==> (key_rule(pressed, pat, cand)
            <==> !pressed.contains(AnyKey::Keyboard(cand.key->0))),
{
}

impl Default for GlobalState {
    /// Same empty state as `new`.
    fn default() -> (r: Self)
        ensures
            r.wf(),
            r.is_fresh(),
    {
        GlobalState::new()
    }
}

} // verus!
