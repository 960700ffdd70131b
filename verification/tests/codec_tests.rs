use keyrec::codec::{decode_session, encode_session};
use keyrec::keys::{AnyKey, Key};
use keyrec::offsets::AnyOffset;
use keyrec::record::RecordEntry;
use keyrec::session::{Recorder, RecorderState};

fn sample_session() -> Recorder {
    let mut r = Recorder::new();
    r.state = RecorderState::Ready;
    r.init_state.time_ms = 99;
    r.init_state.pressed_keys.push(AnyKey::Keyboard(Key(3)));
    r.init_state.pressed_keys.push(AnyKey::Controller(1, 2));
    r.init_state.offsets.mouse = (-17, 2200);
    r.init_state.offsets.trigger[2] = (4, 250);
    r.init_state.offsets.left_stick[0] = (-32768, 32767);
    r.records.push(RecordEntry {
        ms: 0,
        pressed: vec![AnyKey::Keyboard(Key(42))],
        released: vec![],
        moves: vec![AnyOffset::Mouse(5, -6), AnyOffset::Wheel(0, -1)],
    });
    r.records.push(RecordEntry {
        ms: 50,
        pressed: vec![AnyKey::MouseButton(0)],
        released: vec![AnyKey::Keyboard(Key(42))],
        moves: vec![AnyOffset::Trigger(3, 0, 255), AnyOffset::RightStick(1, 100, -100)],
    });
    r
}

#[test]
fn save_then_load_round_trips() {
    let original = sample_session();
    let words = encode_session(&original);
    let loaded = decode_session(&words).expect("a saved session loads back");
    assert_eq!(loaded.config, original.config);
    assert_eq!(loaded.records, original.records);
    assert_eq!(loaded.init_state.time_ms, original.init_state.time_ms);
    assert_eq!(loaded.init_state.pressed_keys, original.init_state.pressed_keys);
    assert_eq!(loaded.init_state.offsets.mouse, original.init_state.offsets.mouse);
    assert_eq!(loaded.init_state.offsets.wheel, original.init_state.offsets.wheel);
    assert_eq!(loaded.init_state.offsets.trigger, original.init_state.offsets.trigger);
    assert_eq!(loaded.init_state.offsets.left_stick, original.init_state.offsets.left_stick);
    assert_eq!(loaded.init_state.offsets.right_stick, original.init_state.offsets.right_stick);
    // Transient state is not persisted: the loaded session starts fresh.
    assert!(loaded.init_state.rec_pressed.is_empty());
    assert_eq!(loaded.state, RecorderState::Ready);
    assert!(loaded.recorder.pressed_keys.is_empty());
    assert_eq!(loaded.rec_pos, (0, 0, 0));
}

#[test]
fn default_session_round_trips() {
    let mut original = Recorder::new();
    original.state = RecorderState::Ready;
    let words = encode_session(&original);
    let loaded = decode_session(&words).expect("the default session loads back");
    assert_eq!(loaded.config, original.config);
    assert_eq!(loaded.records, original.records);
}

#[test]
fn truncated_words_do_not_load() {
    let original = sample_session();
    let mut words = encode_session(&original);
    words.pop();
    assert!(decode_session(&words).is_none());
}

#[test]
fn trailing_words_do_not_load() {
    let original = sample_session();
    let mut words = encode_session(&original);
    words.push(0);
    assert!(decode_session(&words).is_none());
}

#[test]
fn garbage_words_do_not_load() {
    let words = vec![9, 9, 9];
    assert!(decode_session(&words).is_none());
    let empty: Vec<u64> = vec![];
    assert!(decode_session(&empty).is_none());
}
