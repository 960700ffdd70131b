use keyrec::controller::Controller;
use keyrec::offsets::{ControllerEvent, ControllerRaw};

#[test]
fn same_stick_value_twice_updates_once() {
    let mut c = Controller::new();
    c.try_update();
    let mut updates: usize = 0;
    c.left_stick(1200, -300);
    if c.try_update().is_some() {
        updates += 1;
    }
    c.left_stick(1200, -300);
    if c.try_update().is_some() {
        updates += 1;
    }
    assert_eq!(updates, 1);
}

#[test]
fn fresh_batcher_announces_itself_once() {
    let mut c = Controller::new();
    assert!(c.try_update().is_some());
    assert!(c.try_update().is_none());
}

#[test]
fn press_and_release_toggle_mask_bits() {
    let mut c = Controller::new();
    c.try_update();
    c.press(0b100);
    assert_eq!(c.gamepad.buttons, 0b100);
    // Pressing a held button changes nothing.
    c.press(0b100);
    assert_eq!(c.gamepad.buttons, 0b100);
    c.release(0b100);
    assert_eq!(c.gamepad.buttons, 0);
    // Releasing an idle button changes nothing.
    c.release(0b100);
    assert_eq!(c.gamepad.buttons, 0);
}

#[test]
fn trigger_writes_dedupe() {
    let mut c = Controller::new();
    c.try_update();
    c.trigger(10, 20);
    assert!(c.try_update().is_some());
    c.trigger(10, 20);
    assert!(c.try_update().is_none());
    c.trigger(10, 21);
    assert!(c.try_update().is_some());
}

#[test]
fn button_word_diff_yields_masked_events() {
    let mut raw = ControllerRaw::new();
    let evs = raw.btn_change(0b101);
    assert_eq!(
        evs,
        vec![ControllerEvent::ButtonPress(1), ControllerEvent::ButtonPress(4)]
    );
    assert_eq!(raw.button, 0b101);
    let evs2 = raw.btn_change(0b001);
    assert_eq!(evs2, vec![ControllerEvent::ButtonRelease(4)]);
    let evs3 = raw.btn_change(0b001);
    assert!(evs3.is_empty());
}

#[test]
fn trigger_and_stick_changes_update_the_snapshot() {
    let mut raw = ControllerRaw::new();
    let ev = raw.trigger_change(100, 200);
    assert_eq!(ev, ControllerEvent::TriggerMove(100, 200));
    assert_eq!(raw.tri, (100, 200));
    let ev2 = raw.sl_change(-10, 11);
    assert_eq!(ev2, ControllerEvent::LSticksMove(-10, 11));
    let ev3 = raw.sr_change(7, -8);
    assert_eq!(ev3, ControllerEvent::RSticksMove(7, -8));
    assert_eq!(raw.sticker, (-10, 11, 7, -8));
}
