use keyrec::keys::{AnyKey, Key, KEY_ESCAPE, KEY_RETURN, KEY_SHIFT_LEFT};
use keyrec::record::RecordEntry;
use keyrec::session::{InputEvent, Recorder, RecorderState};

fn entry(ms: u64) -> RecordEntry {
    RecordEntry { ms, pressed: vec![], released: vec![], moves: vec![] }
}

fn stamps(r: &Recorder) -> Vec<u64> {
    r.records.iter().map(|e| e.ms).collect()
}

fn ready_session(stamps: &[u64]) -> Recorder {
    let mut r = Recorder::new();
    r.state = RecorderState::Ready;
    for &ms in stamps {
        r.records.push(entry(ms));
    }
    r
}

#[test]
fn append_then_stop_splices_over_the_tail() {
    // Records e0..e9, an append that starts at position 5 and records two
    // entries, stopped without discarding: positions 5 through 9 are
    // overwritten by the fresh entries.
    let mut r = ready_session(&[0, 1, 2, 3, 4, 5, 6, 7, 8, 9]);
    r.start_record(5);
    assert_eq!(r.state, RecorderState::Recording);
    r.records.push(entry(100));
    r.records.push(entry(101));
    r.stop_record(false);
    assert_eq!(r.state, RecorderState::Ready);
    assert_eq!(stamps(&r), vec![0, 1, 2, 3, 4, 100, 101]);
}

#[test]
fn drop_after_start_from_zero_restores_the_list() {
    let mut r = ready_session(&[10, 20, 30]);
    r.start_record(0);
    r.records.push(entry(200));
    r.records.push(entry(201));
    r.stop_record(true);
    assert_eq!(r.state, RecorderState::Ready);
    assert_eq!(stamps(&r), vec![10, 20, 30]);
}

#[test]
fn fresh_recording_replaces_everything_on_stop() {
    let mut r = ready_session(&[10, 20, 30]);
    r.start_record(0);
    r.records.push(entry(200));
    r.stop_record(false);
    assert_eq!(stamps(&r), vec![200]);
}

#[test]
fn shift_enter_starts_recording() {
    let mut r = Recorder::new();
    r.state = RecorderState::Ready;
    r.handle_event(5, InputEvent::KeyDown(AnyKey::Keyboard(Key(KEY_SHIFT_LEFT))));
    r.handle_event(6, InputEvent::KeyDown(AnyKey::Keyboard(Key(KEY_RETURN))));
    let outcome = r.match_shortcuts(true, 0);
    assert_eq!(outcome.state, RecorderState::Recording);
    assert!(!outcome.save);
    assert!(!outcome.player_start);
    assert!(!outcome.player_stop);
}

#[test]
fn escape_stops_recording() {
    let mut r = Recorder::new();
    r.state = RecorderState::Ready;
    r.handle_event(5, InputEvent::KeyDown(AnyKey::Keyboard(Key(KEY_SHIFT_LEFT))));
    r.handle_event(6, InputEvent::KeyDown(AnyKey::Keyboard(Key(KEY_RETURN))));
    r.match_shortcuts(true, 0);
    assert_eq!(r.state, RecorderState::Recording);
    r.handle_event(40, InputEvent::KeyUp(AnyKey::Keyboard(Key(KEY_SHIFT_LEFT))));
    r.handle_event(41, InputEvent::KeyUp(AnyKey::Keyboard(Key(KEY_RETURN))));
    r.handle_event(60, InputEvent::KeyDown(AnyKey::Keyboard(Key(KEY_ESCAPE))));
    let outcome = r.match_shortcuts(true, 0);
    assert_eq!(outcome.state, RecorderState::Ready);
}

#[test]
fn ticks_are_cut_while_recording() {
    let mut r = Recorder::new();
    r.state = RecorderState::Recording;
    r.rec_pos = (0, 0, 0);
    // The first event arrives well past the last boundary: a tick with
    // the (empty) buffers is cut, then the key lands in fresh buffers.
    r.handle_event(10, InputEvent::KeyDown(AnyKey::Keyboard(Key(50))));
    assert_eq!(r.records.len(), 1);
    assert_eq!(r.recorder.rec_pressed.len(), 1);
    // An event within a millisecond of the boundary cuts nothing.
    r.handle_event(11, InputEvent::KeyUp(AnyKey::Keyboard(Key(50))));
    assert_eq!(r.records.len(), 1);
    // The next distant event flushes both buffered events into one
    // entry, stamped at the flush time.
    r.handle_event(30, InputEvent::KeyDown(AnyKey::Keyboard(Key(51))));
    assert_eq!(r.records.len(), 2);
    assert_eq!(r.records[1].ms, 30);
    assert_eq!(r.records[1].pressed, vec![AnyKey::Keyboard(Key(50))]);
    assert_eq!(r.records[1].released, vec![AnyKey::Keyboard(Key(50))]);
}

#[test]
fn error_state_stays_put() {
    let mut r = Recorder::new();
    assert_eq!(r.state, RecorderState::Error);
    assert!(!r.is_ok());
    let outcome = r.match_shortcuts(true, 0);
    assert_eq!(outcome.state, RecorderState::Error);
}

#[test]
fn continue_record_resumes_at_playback_position() {
    let mut r = ready_session(&[0, 10, 20, 30]);
    r.state = RecorderState::Playing;
    // Any chord that is neither idle hands nor a bare escape continues
    // the recording at the scheduler's position.
    r.handle_event(5, InputEvent::KeyDown(AnyKey::Keyboard(Key(99))));
    let outcome = r.match_shortcuts(false, 2);
    assert_eq!(outcome.state, RecorderState::Recording);
    assert!(outcome.player_stop);
    assert_eq!(r.rec_pos, (2, 4, 0));
}
