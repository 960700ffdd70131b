use keyrec::controller::Controller;
use keyrec::keys::{AnyKey, Key};
use keyrec::offsets::AnyOffset;
use keyrec::player::{InjectCmd, PlayStep, Player, PlayerEvent, FLOOR_MS};
use keyrec::record::RecordEntry;

fn entry(ms: u64) -> RecordEntry {
    RecordEntry { ms, pressed: vec![], released: vec![], moves: vec![] }
}

#[test]
fn playback_fires_in_order_within_the_floor() {
    // Records at relative times [0, 50, 120]: each fires no later than
    // the floor past its nominal time, strictly in list order.
    let mut p = Player::new();
    p.update(vec![entry(0), entry(50), entry(120)]);
    p.start(1000);
    let mut now: u64 = 1000;
    let mut fired: Vec<(usize, u64)> = Vec::new();
    loop {
        match p.plan(now) {
            PlayStep::Fire(pos, wait) => {
                assert!(wait >= FLOOR_MS);
                now += wait;
                fired.push((pos, now));
                p.advance(pos);
            }
            PlayStep::Finished => break,
            PlayStep::Idle => break,
        }
    }
    assert_eq!(fired.len(), 3);
    let nominal = [1000u64, 1050, 1120];
    for (i, (pos, at)) in fired.iter().enumerate() {
        assert_eq!(*pos, i);
        assert!(*at >= nominal[i]);
        assert!(*at <= nominal[i] + FLOOR_MS);
    }
    assert!(fired[0].1 < fired[1].1 && fired[1].1 < fired[2].1);
    assert!(!p.is_playing);
}

#[test]
fn idle_player_plans_nothing() {
    let p = Player::new();
    assert_eq!(p.plan(500), PlayStep::Idle);
}

#[test]
fn empty_list_finishes_immediately() {
    let mut p = Player::new();
    p.start(0);
    assert_eq!(p.plan(0), PlayStep::Finished);
}

#[test]
fn messages_drive_the_player() {
    let mut p = Player::new();
    p.process_msg(PlayerEvent::Update(vec![entry(0), entry(5)]));
    assert_eq!(p.current_pos, 0);
    p.process_msg(PlayerEvent::Start(700));
    assert!(p.is_playing);
    assert_eq!(p.start_time, 700);
    p.process_msg(PlayerEvent::Seek(1));
    assert_eq!(p.current_pos, 1);
    p.process_msg(PlayerEvent::Stop);
    assert!(!p.is_playing);
    assert_eq!(p.current_pos, 1);
}

#[test]
fn late_entries_still_wait_the_floor() {
    let mut p = Player::new();
    p.update(vec![entry(10)]);
    p.start(0);
    // The cycle reaches the entry long after it was due.
    assert_eq!(p.plan(500), PlayStep::Fire(0, FLOOR_MS));
}

#[test]
fn playing_an_entry_emits_commands_and_feeds_the_pad() {
    let mut p = Player::new();
    p.update(vec![RecordEntry {
        ms: 0,
        pressed: vec![AnyKey::Keyboard(Key(42)), AnyKey::Controller(0, 4)],
        released: vec![AnyKey::MouseButton(1)],
        moves: vec![
            AnyOffset::Mouse(100, 200),
            AnyOffset::Trigger(0, 128, 0),
            AnyOffset::LeftStick(0, -5, 5),
        ],
    }]);
    let mut pad = Controller::new();
    // Drain the arming that a fresh batcher starts with.
    pad.try_update();
    let cmds = p.play(0, &mut pad);
    assert_eq!(
        cmds,
        vec![
            InjectCmd::KeyPress(Key(42)),
            InjectCmd::ButtonRelease(1),
            InjectCmd::MouseMove(100, 200),
        ]
    );
    let sent = pad.try_update().expect("the pad changed, one update is due");
    assert_eq!(sent.buttons, 4);
    assert_eq!(sent.left_trigger, 128);
    assert_eq!(sent.thumb_lx, -5);
    assert_eq!(sent.thumb_ly, 5);
    // Nothing changed since: no second update.
    assert!(pad.try_update().is_none());
}
