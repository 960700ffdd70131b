use keyrec::keys::Key;
use keyrec::shortcut::ShortCut;

#[test]
fn bundled_chord_renders_every_pinned_cell() {
    let sc = ShortCut::shift_enter();
    assert_eq!(
        sc.describe(),
        "!Ctrl + Shift + !Alt + !Tab + !Windows + Key(10) SkipCbt"
    );
}

#[test]
fn wildcard_renders_as_skips() {
    assert_eq!(ShortCut::any().describe(), "SkipKey SkipCbt");
}

#[test]
fn numbers_triggers_and_buttons_render_in_decimal() {
    let mut sc = ShortCut::any();
    sc.trigger_l = Some(3);
    sc.key_option = 1;
    sc.key = Some(Key(1234));
    sc.controller_btn_option = 2;
    sc.controller_btn = Some((2, 12));
    assert_eq!(sc.describe(), "TriggerL(3) + Only.Key(1234)Not.Cbt12(2)");
}

#[test]
fn tri_state_key_cells_render_by_option() {
    let mut any_key = ShortCut::any();
    any_key.key_option = 1;
    assert_eq!(any_key.describe(), "AnyKey SkipCbt");
    let mut no_key = ShortCut::any();
    no_key.key_option = 2;
    assert_eq!(no_key.describe(), "NoKey SkipCbt");
}
