use keyrec::keys::{AnyKey, Key, KEY_CONTROL_LEFT, KEY_RETURN, KEY_SHIFT_LEFT, KEY_UP_ARROW};
use keyrec::session::{Recorder, RecorderState};
use keyrec::shortcut::{ShortCut, ShortCuts};
use keyrec::state::GlobalState;

fn kb(code: u32) -> AnyKey {
    AnyKey::Keyboard(Key(code))
}

#[test]
fn test_shortcuts() {
    let mut record = Recorder::new();
    record.state = RecorderState::Playing;
    record.recorder.pressed_keys.push(kb(KEY_UP_ARROW));
    // A fresh scheduler reports itself done, so the session leaves playback.
    let outcome = record.match_shortcuts(true, 0);
    assert_eq!(outcome.state, RecorderState::Ready);
    assert!(outcome.player_stop);
    assert!(!outcome.player_start);
}

#[test]
fn pressed_set_holds_a_key_once() {
    let mut st = GlobalState::new();
    let k = kb(77);
    st.key_down(k);
    st.key_down(k);
    st.key_down(k);
    assert_eq!(st.pressed_keys.len(), 1);
    // The transient buffer is not idempotent: it records every call.
    assert_eq!(st.rec_pressed.len(), 3);
    st.key_up(k);
    assert!(!st.pressed_keys.contains(&k));
    assert_eq!(st.rec_released.len(), 1);
    // Releasing an absent key still records the event.
    st.key_up(k);
    assert!(!st.pressed_keys.contains(&k));
    assert_eq!(st.rec_released.len(), 2);
}

#[test]
fn empty_exclude_always_fires_empty_contains_never() {
    let st = GlobalState::new();
    let pat = st.get_pattern();
    assert!(st.match_shortcuts(&pat, &ShortCuts::Exclude(vec![])));
    assert!(!st.match_shortcuts(&pat, &ShortCuts::Contains(vec![])));
    let mut busy = GlobalState::new();
    busy.key_down(kb(KEY_CONTROL_LEFT));
    busy.key_down(kb(42));
    let pat2 = busy.get_pattern();
    assert!(busy.match_shortcuts(&pat2, &ShortCuts::Exclude(vec![])));
    assert!(!busy.match_shortcuts(&pat2, &ShortCuts::Contains(vec![])));
}

fn candidate(key_option: u8, key: Option<u32>) -> ShortCut {
    let mut sc = ShortCut::any();
    sc.key_option = key_option;
    sc.key = key.map(Key);
    sc
}

#[test]
fn tristate_key_table() {
    let k: u32 = 42;
    let other: u32 = 43;
    let empty = GlobalState::new();
    let mut with_k = GlobalState::new();
    with_k.key_down(kb(k));
    let mut with_other = GlobalState::new();
    with_other.key_down(kb(other));

    for (st, key_present, other_present) in [
        (&empty, false, false),
        (&with_k, true, false),
        (&with_other, false, true),
    ] {
        let pat = st.get_pattern();
        // key_option 0, key None: no constraint.
        assert!(st.match_shortcut(&pat, &candidate(0, None)));
        // key_option 0, key Some(k): k must be held.
        assert_eq!(st.match_shortcut(&pat, &candidate(0, Some(k))), key_present);
        // key_option 1, key None: exactly one plain key held.
        assert_eq!(
            st.match_shortcut(&pat, &candidate(1, None)),
            key_present ^ other_present
        );
        // key_option 1, key Some(k): the one held key is k.
        assert_eq!(st.match_shortcut(&pat, &candidate(1, Some(k))), key_present);
        // key_option 2, key None: no plain key held.
        assert_eq!(
            st.match_shortcut(&pat, &candidate(2, None)),
            !(key_present || other_present)
        );
        // key_option 2, key Some(k): k must not be held.
        assert_eq!(st.match_shortcut(&pat, &candidate(2, Some(k))), !key_present);
    }
}

#[test]
fn any_key_cell_demands_exactly_one_held_key() {
    let k: u32 = 42;
    let other: u32 = 43;
    let mut two = GlobalState::new();
    two.key_down(kb(k));
    two.key_down(kb(other));
    let pat = two.get_pattern();
    assert_eq!(pat.key_option, 2);
    // Two plain keys held: the "any single key" cell refuses.
    assert!(!two.match_shortcut(&pat, &candidate(1, None)));
    // So does the "exactly this key" cell, whichever key is named.
    assert!(!two.match_shortcut(&pat, &candidate(1, Some(k))));
    assert!(!two.match_shortcut(&pat, &candidate(1, Some(other))));
    // The membership cells still see both keys.
    assert!(two.match_shortcut(&pat, &candidate(0, Some(k))));
    assert!(!two.match_shortcut(&pat, &candidate(2, Some(k))));
    assert!(!two.match_shortcut(&pat, &candidate(2, None)));
}

#[test]
fn any_button_cell_demands_exactly_one_held_button() {
    fn btn_candidate(option: u8, btn: Option<(u32, usize)>) -> ShortCut {
        let mut sc = ShortCut::any();
        sc.controller_btn_option = option;
        sc.controller_btn = btn;
        sc
    }
    let mut one = GlobalState::new();
    one.key_down(AnyKey::Controller(0, 4));
    let pat1 = one.get_pattern();
    assert!(one.match_shortcut(&pat1, &btn_candidate(1, None)));
    assert!(one.match_shortcut(&pat1, &btn_candidate(1, Some((0, 4)))));
    let mut two = GlobalState::new();
    two.key_down(AnyKey::Controller(0, 4));
    two.key_down(AnyKey::Controller(0, 8));
    let pat2 = two.get_pattern();
    // Two controller buttons held: the single-button cells refuse.
    assert!(!two.match_shortcut(&pat2, &btn_candidate(1, None)));
    assert!(!two.match_shortcut(&pat2, &btn_candidate(1, Some((0, 4)))));
    // Membership cells still see both buttons.
    assert!(two.match_shortcut(&pat2, &btn_candidate(0, Some((0, 8)))));
    assert!(!two.match_shortcut(&pat2, &btn_candidate(2, Some((0, 4)))));
}

#[test]
fn pattern_collects_modifiers_and_last_key() {
    let mut st = GlobalState::new();
    st.key_down(kb(KEY_CONTROL_LEFT));
    st.key_down(kb(KEY_SHIFT_LEFT));
    st.key_down(kb(KEY_RETURN));
    st.key_down(AnyKey::MouseButton(1));
    st.key_down(AnyKey::Controller(0, 4));
    let pat = st.get_pattern();
    assert_eq!(pat.ctrl, Some(true));
    assert_eq!(pat.shift, Some(true));
    assert_eq!(pat.alt, None);
    assert_eq!(pat.key, Some(Key(KEY_RETURN)));
    assert_eq!(pat.key_option, 1);
    assert_eq!(pat.mouse_r_button, Some(true));
    assert_eq!(pat.controller_btn, Some((0, 4)));
    assert_eq!(pat.controller_btn_option, 1);
}

#[test]
fn trigger_flags_need_nonzero_trigger() {
    let mut st = GlobalState::new();
    let mut sc = ShortCut::any();
    sc.trigger_l = Some(0);
    let pat = st.get_pattern();
    assert!(!st.match_shortcut(&pat, &sc));
    st.moves(keyrec::offsets::AnyOffset::Trigger(0, 128, 0));
    let pat2 = st.get_pattern();
    assert!(st.match_shortcut(&pat2, &sc));
    let mut sc_r = ShortCut::any();
    sc_r.trigger_r = Some(0);
    assert!(!st.match_shortcut(&pat2, &sc_r));
}

#[test]
fn unpressed_modifier_counts_as_off_only_when_pinned() {
    // The derived pattern never pins an unpressed modifier to
    // Some(false): it stays None, and a candidate demanding the modifier
    // off still matches.
    let st = GlobalState::new();
    let pat = st.get_pattern();
    assert_eq!(pat.ctrl, None);
    let mut off = ShortCut::any();
    off.ctrl = Some(false);
    assert!(st.match_shortcut(&pat, &off));
    // Once the modifier is held the pattern pins it and the same
    // candidate refuses.
    let mut held = GlobalState::new();
    held.key_down(kb(KEY_CONTROL_LEFT));
    let pat2 = held.get_pattern();
    assert_eq!(pat2.ctrl, Some(true));
    assert!(!held.match_shortcut(&pat2, &off));
}
