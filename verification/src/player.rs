//! The playback scheduler's decisions: the message-driven player state,
//! what to do on each cycle, how long to wait before an entry fires, and
//! what one entry does to the injector and the gamepad batcher.
//!
//! The loop around these decisions — the inbox, the sleeps, the actual
//! injection — lives with the platform layer; everything it decides is
//! here.

use vstd::prelude::*;
use crate::keys::{AnyKey, Key};
use crate::offsets::AnyOffset;
use crate::record::{RecordEntry, RecordEntryView, records_view};
use crate::controller::{Controller, pad_press, pad_release, pad_trigger, pad_left_stick,
    pad_right_stick};

verus! {

/// The smallest sleep the scheduler takes before firing an entry, in
/// milliseconds: a positive floor that avoids busy-spinning and accepts
/// that much lateness.
pub const FLOOR_MS: u64 = 1;

/// A message to the scheduler: start against the given clock value, stop,
/// jump to a position, or replace the record list.
#[derive(Debug)]
pub enum PlayerEvent {
    Start(u64),
    Stop,
    Seek(usize),
    Update(Vec<RecordEntry>),
}

/// What the scheduler should do this cycle: sleep idle, stop because the
/// list ran out, or wait the given milliseconds and then fire the entry
/// at the given position.
#[derive(Clone, Copy, PartialEq, Eq, Structural, Debug)]
pub enum PlayStep {
    Idle,
    Finished,
    Fire(usize, u64),
}

/// One synthetic keyboard or mouse command for the injector; controller
/// work goes to the gamepad batcher instead.
#[derive(Clone, Copy, PartialEq, Eq, Structural, Debug)]
pub enum InjectCmd {
    KeyPress(Key),
    KeyRelease(Key),
    ButtonPress(u32),
    ButtonRelease(u32),
    MouseMove(i64, i64),
    Wheel(i64, i64),
}

/// How long the scheduler waits before firing an entry stamped
/// `entry_ms`, `now` milliseconds into its clock with the playback
/// baseline at `start`: the time left until the entry is due, floored.
pub open spec fn wait_for(entry_ms: u64, start: u64, now: u64) -> u64 {
    let elapsed = if now >= start {
        (now - start) as u64
    } else {
        0u64
    };
    let due = if entry_ms > elapsed {
        (entry_ms - elapsed) as u64
    } else {
        0u64
    };
    if due > FLOOR_MS {
        due
    } else {
        FLOOR_MS
    }
}

/// The player: whether it is playing, where it stands in the list, the
/// list it replays, and the clock value at which playback started.
#[derive(Debug)]
pub struct Player {
    pub is_playing: bool,
    pub current_pos: usize,
    pub records: Vec<RecordEntry>,
    pub start_time: u64,
}

impl Player {
    /// A stopped player over an empty list.
    pub fn new() -> (r: Self)
        ensures
            !r.is_playing,
            r.current_pos == 0,
            r.records@ == Seq::<RecordEntry>::empty(),
            r.start_time == 0,
    {
        Player { is_playing: false, current_pos: 0, records: Vec::new(), start_time: 0 }
    }

    /// Starts playing and takes `now_ms` as the baseline that entry
    /// stamps are measured against.
    pub fn start(&mut self, now_ms: u64)
        ensures
            final(self).is_playing,
            final(self).start_time == now_ms,
            final(self).current_pos == old(self).current_pos,
            final(self).records@ == old(self).records@,
    {
        self.is_playing = true;
        self.start_time = now_ms;
    }

    /// Stops playing; the position stays where it was.
    pub fn stop(&mut self)
        ensures
            !final(self).is_playing,
            final(self).current_pos == old(self).current_pos,
            final(self).records@ == old(self).records@,
            final(self).start_time == old(self).start_time,
    {
        self.is_playing = false;
    }

    /// Jumps to a position.
    pub fn seek(&mut self, pos: usize)
        ensures
            final(self).current_pos == pos,
            final(self).is_playing == old(self).is_playing,
            final(self).records@ == old(self).records@,
            final(self).start_time == old(self).start_time,
    {
        self.current_pos = pos;
    }

    /// Replaces the record list and rewinds to the front.
    pub fn update(&mut self, records: Vec<RecordEntry>)
        ensures
            final(self).records@ == records@,
            final(self).current_pos == 0,
            final(self).is_playing == old(self).is_playing,
            final(self).start_time == old(self).start_time,
    {
        self.records = records;
        self.seek(0);
    }

    /// Applies one inbox message.
    pub fn process_msg(&mut self, ev: PlayerEvent)
        ensures
            (match ev {
                PlayerEvent::Start(baseline) => {
                    &&& final(self).is_playing
                    &&& final(self).start_time == baseline
                    &&& final(self).current_pos == old(self).current_pos
                    &&& final(self).records@ == old(self).records@
                },
                PlayerEvent::Stop => {
                    &&& !final(self).is_playing
                    &&& final(self).current_pos == old(self).current_pos
                    &&& final(self).records@ == old(self).records@
                    &&& final(self).start_time == old(self).start_time
                },
                PlayerEvent::Seek(pos) => {
                    &&& final(self).current_pos == pos
                    &&& final(self).is_playing == old(self).is_playing
                    &&& final(self).records@ == old(self).records@
                    &&& final(self).start_time == old(self).start_time
                },
                PlayerEvent::Update(records) => {
                    &&& final(self).records@ == records@
                    &&& final(self).current_pos == 0
                    &&& final(self).is_playing == old(self).is_playing
                    &&& final(self).start_time == old(self).start_time
                },
            }),
    {
        match ev {
            PlayerEvent::Start(baseline) => self.start(baseline),
            PlayerEvent::Stop => self.stop(),
            PlayerEvent::Seek(pos) => self.seek(pos),
            PlayerEvent::Update(records) => self.update(records),
        }
    }

    /// Decides the cycle: sleep while idle, stop when the list has run
    /// out, otherwise wait until the entry at the current position is
    /// due (never less than the floor) and fire it.
    pub fn plan(&self, now_ms: u64) -> (r: PlayStep)
        ensures
            !self.is_playing ==> r == PlayStep::Idle,
            self.is_playing && self.current_pos >= self.records@.len() ==> r
                == PlayStep::Finished,
            self.is_playing && self.current_pos < self.records@.len() ==> r == PlayStep::Fire(
                self.current_pos,
                wait_for(
                    records_view(self.records@)[self.current_pos as int].ms,
                    self.start_time,
                    now_ms,
                ),
            ),
    {
        if !self.is_playing {
            return PlayStep::Idle;
        }
        if self.current_pos >= self.records.len() {
            return PlayStep::Finished;
        }
        let entry_ms = self.records[self.current_pos].ms;
        let elapsed = if now_ms >= self.start_time {
            now_ms - self.start_time
        } else {
            0
        };
        let due = if entry_ms > elapsed {
            entry_ms - elapsed
        } else {
            0
        };
        let wait = if due > FLOOR_MS {
            due
        } else {
            FLOOR_MS
        };
        PlayStep::Fire(self.current_pos, wait)
    }

    /// Moves past the entry just fired; reaching the end stops playback.
    pub fn advance(&mut self, pos: usize)
        requires
            pos < old(self).records@.len(),
        ensures
            final(self).current_pos == pos + 1,
            final(self).is_playing == (old(self).is_playing && pos + 1 < old(
                self,
            ).records@.len()),
            final(self).records@ == old(self).records@,
            final(self).start_time == old(self).start_time,
    {
        let n = self.records.len();
        assert(pos < n);
        self.current_pos = pos + 1;
        if pos + 1 >= n {
            self.stop();
        }
    }
}

/// The injector commands one recorded key produces when pressed or
/// released: keyboard and mouse go to the injector, controller buttons
/// go to the pad batcher and produce no command.
pub open spec fn key_cmd(k: AnyKey, press: bool) -> Seq<InjectCmd> {
    match k {
        AnyKey::Keyboard(key) => if press {
            seq![InjectCmd::KeyPress(key)]
        } else {
            seq![InjectCmd::KeyRelease(key)]
        },
        AnyKey::MouseButton(b) => if press {
            seq![InjectCmd::ButtonPress(b)]
        } else {
            seq![InjectCmd::ButtonRelease(b)]
        },
        AnyKey::Controller(_, _) => Seq::empty(),
    }
}

/// The injector commands of a key list, in list order.
pub open spec fn keys_cmds(keys: Seq<AnyKey>, press: bool) -> Seq<InjectCmd>
    decreases keys.len(),
{
    if keys.len() == 0 {
        Seq::empty()
    } else {
        keys_cmds(keys.drop_last(), press) + key_cmd(keys.last(), press)
    }
}

/// The injector command one axis movement produces: mouse and wheel go
/// to the injector, controller axes go to the pad batcher.
pub open spec fn move_cmd(off: AnyOffset) -> Seq<InjectCmd> {
    match off {
        AnyOffset::Mouse(x, y) => seq![InjectCmd::MouseMove(x, y)],
        AnyOffset::Wheel(x, y) => seq![InjectCmd::Wheel(x, y)],
        AnyOffset::Trigger(_, _, _) => Seq::empty(),
        AnyOffset::LeftStick(_, _, _) => Seq::empty(),
        AnyOffset::RightStick(_, _, _) => Seq::empty(),
    }
}

/// The injector commands of a movement list, in list order.
pub open spec fn moves_cmds(moves: Seq<AnyOffset>) -> Seq<InjectCmd>
    decreases moves.len(),
{
    if moves.len() == 0 {
        Seq::empty()
    } else {
        moves_cmds(moves.drop_last()) + move_cmd(moves.last())
    }
}

/// Every injector command one entry produces: its presses, then its
/// releases, then its movements.
pub open spec fn entry_cmds(e: RecordEntryView) -> Seq<InjectCmd> {
    keys_cmds(e.pressed, true) + keys_cmds(e.released, false) + moves_cmds(e.moves)
}

/// What one key does to the pad batcher: controller buttons press or
/// release their mask (the button index truncated to the word), the rest
/// nothing.
pub open spec fn pad_after_key(c: Controller, k: AnyKey, press: bool) -> Controller {
    match k {
        AnyKey::Controller(_, code) => if press {
            pad_press(c, code as u16)
        } else {
            pad_release(c, code as u16)
        },
        _ => c,
    }
}

/// What a key list does to the pad batcher, in list order.
pub open spec fn pad_after_keys(c: Controller, keys: Seq<AnyKey>, press: bool) -> Controller
    decreases keys.len(),
{
    if keys.len() == 0 {
        c
    } else {
        pad_after_key(pad_after_keys(c, keys.drop_last(), press), keys.last(), press)
    }
}

/// What one axis movement does to the pad batcher: controller axes write
/// their slot-independent value, mouse and wheel nothing.
pub open spec fn pad_after_move(c: Controller, off: AnyOffset) -> Controller {
    match off {
        AnyOffset::Trigger(_, l, r) => pad_trigger(c, l, r),
        AnyOffset::LeftStick(_, x, y) => pad_left_stick(c, x, y),
        AnyOffset::RightStick(_, x, y) => pad_right_stick(c, x, y),
        _ => c,
    }
}

/// What a movement list does to the pad batcher, in list order.
pub open spec fn pad_after_moves(c: Controller, moves: Seq<AnyOffset>) -> Controller
    decreases moves.len(),
{
    if moves.len() == 0 {
        c
    } else {
        pad_after_move(pad_after_moves(c, moves.drop_last()), moves.last())
    }
}

/// What one whole entry does to the pad batcher.
pub open spec fn pad_after_entry(c: Controller, e: RecordEntryView) -> Controller {
    pad_after_moves(pad_after_keys(pad_after_keys(c, e.pressed, true), e.released, false), e.moves)
}

impl Player {
    /// Fires the entry at `pos`: folds its controller work into the pad
    /// batcher and returns the injector commands in order.
    pub fn play(&self, pos: usize, controller: &mut Controller) -> (cmds: Vec<InjectCmd>)
        requires
            pos < self.records@.len(),
        ensures
            cmds@ == entry_cmds(records_view(self.records@)[pos as int]),
            *final(controller) == pad_after_entry(
                *old(controller),
                records_view(self.records@)[pos as int],
            ),
    {
        let entry = &self.records[pos];
        let ghost ev = records_view(self.records@)[pos as int];
        let mut cmds: Vec<InjectCmd> = Vec::new();
        let mut i: usize = 0;
        while i < entry.pressed.len()
            invariant
                i <= entry.pressed@.len(),
                ev.pressed == entry.pressed@,
                cmds@ == keys_cmds(entry.pressed@.subrange(0, i as int), true),
                *controller == pad_after_keys(
                    *old(controller),
                    entry.pressed@.subrange(0, i as int),
                    true,
                ),
            decreases entry.pressed@.len() - i,
        {
            let key = entry.pressed[i];
            match key {
                AnyKey::Keyboard(k) => cmds.push(InjectCmd::KeyPress(k)),
                AnyKey::MouseButton(b) => cmds.push(InjectCmd::ButtonPress(b)),
                AnyKey::Controller(_, code) => {
                    controller.press(#[verifier::truncate] (code as u16));
                },
            }
            proof {
                assert(entry.pressed@.subrange(0, i + 1).drop_last() =~= entry.pressed@.subrange(
                    0,
                    i as int,
                ));
                assert(entry.pressed@.subrange(0, i + 1).last() == entry.pressed@[i as int]);
            }
            i += 1;
        }
        proof {
            assert(entry.pressed@.subrange(0, entry.pressed@.len() as int) =~= entry.pressed@);
        }
        let ghost pad1 = pad_after_keys(*old(controller), ev.pressed, true);
        let ghost cmds1 = keys_cmds(ev.pressed, true);
        let mut j: usize = 0;
        while j < entry.released.len()
            invariant
                j <= entry.released@.len(),
                ev.released == entry.released@,
                cmds@ == cmds1 + keys_cmds(entry.released@.subrange(0, j as int), false),
                *controller == pad_after_keys(pad1, entry.released@.subrange(0, j as int), false),
            decreases entry.released@.len() - j,
        {
            let key = entry.released[j];
            match key {
                AnyKey::Keyboard(k) => cmds.push(InjectCmd::KeyRelease(k)),
                AnyKey::MouseButton(b) => cmds.push(InjectCmd::ButtonRelease(b)),
                AnyKey::Controller(_, code) => {
                    controller.release(#[verifier::truncate] (code as u16));
                },
            }
            proof {
                assert(entry.released@.subrange(0, j + 1).drop_last() =~= entry.released@.subrange(
                    0,
                    j as int,
                ));
                assert(entry.released@.subrange(0, j + 1).last() == entry.released@[j as int]);
            }
            j += 1;
        }
        proof {
            assert(entry.released@.subrange(0, entry.released@.len() as int) =~= entry.released@);
        }
        let ghost pad2 = pad_after_keys(pad1, ev.released, false);
        let ghost cmds2 = cmds1 + keys_cmds(ev.released, false);
        let mut m: usize = 0;
        while m < entry.moves.len()
            invariant
                m <= entry.moves@.len(),
                ev.moves == entry.moves@,
                cmds@ == cmds2 + moves_cmds(entry.moves@.subrange(0, m as int)),
                *controller == pad_after_moves(pad2, entry.moves@.subrange(0, m as int)),
            decreases entry.moves@.len() - m,
        {
            let off = entry.moves[m];
            match off {
                AnyOffset::Mouse(x, y) => cmds.push(InjectCmd::MouseMove(x, y)),
                AnyOffset::Wheel(x, y) => cmds.push(InjectCmd::Wheel(x, y)),
                AnyOffset::Trigger(_, l, r) => controller.trigger(l, r),
                AnyOffset::LeftStick(_, x, y) => controller.left_stick(x, y),
                AnyOffset::RightStick(_, x, y) => controller.right_stick(x, y),
            }
            proof {
                assert(entry.moves@.subrange(0, m + 1).drop_last() =~= entry.moves@.subrange(
                    0,
                    m as int,
                ));
                assert(entry.moves@.subrange(0, m + 1).last() == entry.moves@[m as int]);
            }
            m += 1;
        }
        proof {
            assert(entry.moves@.subrange(0, entry.moves@.len() as int) =~= entry.moves@);
        }
        cmds
    }
}


/// The wall-clock time at which the entry at position `i` fires when the
/// scheduler runs undisturbed: each cycle reaches the next position the
/// moment the previous entry fired, sleeps exactly the planned wait, and
/// fires.  The run starts with the cycle reaching position 0 at clock
/// value `now0`.
pub open spec fn fire_time(stamps: Seq<u64>, start: u64, now0: u64, i: int) -> int
    decreases i,
{
    if i <= 0 {
        now0 + wait_for(stamps[0], start, now0)
    } else {
        let prev = fire_time(stamps, start, now0, i - 1);
        prev + wait_for(stamps[i], start, prev as u64)
    }
}

/// Law: replaying a list whose stamps step up by at least the floor,
/// with the run reaching the first entry no later than it is due, fires
/// every entry no earlier than its nominal time (`start + stamps[i]`)
/// and no later than the floor past it, each strictly after the one
/// before: entries execute in list order, once per position, and
/// lateness never accumulates beyond the floor.
pub proof fn lemma_run_timing(stamps: Seq<u64>, start: u64, now0: u64, n: int)
    requires
        0 < n <= stamps.len(),
        start <= now0 <= start + stamps[0],
        forall|i: int| 0 < i < n ==> stamps[i - 1] + FLOOR_MS <= #[trigger] stamps[i],
        start + stamps[n - 1] + FLOOR_MS <= u64::MAX,
    ensures
        forall|i: int|
            0 <= i < n ==> start + stamps[i] <= #[trigger] fire_time(stamps, start, now0, i)
                <= start + stamps[i] + FLOOR_MS,
        forall|i: int|
            0 < i < n ==> fire_time(stamps, start, now0, i - 1) < #[trigger] fire_time(
                stamps,
                start,
                now0,
                i,
            ),
    decreases n,
{
    assert forall|i: int| 0 <= i < n implies #[trigger] stamps[i] <= stamps[n - 1] by {
        lemma_stamps_monotone(stamps, i, n - 1, n);
    }
    if n == 1 {
        assert(fire_time(stamps, start, now0, 0) == now0 + wait_for(stamps[0], start, now0));
    } else {
        lemma_run_timing(stamps, start, now0, n - 1);
        let prev = fire_time(stamps, start, now0, n - 2);
        assert(start + stamps[n - 2] <= prev <= start + stamps[n - 2] + FLOOR_MS);
        assert(prev <= start + stamps[n - 1]);
        assert(prev as u64 == prev);
        assert(fire_time(stamps, start, now0, n - 1) == prev + wait_for(
            stamps[n - 1],
            start,
            prev as u64,
        ));
    }
}

/// Stamps that step up by at least the floor never step down.
proof fn lemma_stamps_monotone(stamps: Seq<u64>, i: int, j: int, n: int)
    requires
        0 <= i <= j < n <= stamps.len(),
        forall|m: int| 0 < m < n ==> stamps[m - 1] + FLOOR_MS <= #[trigger] stamps[m],
    ensures
        stamps[i] <= stamps[j],
    decreases j - i,
{
    if i < j {
        lemma_stamps_monotone(stamps, i, j - 1, n);
        assert(stamps[j - 1] + FLOOR_MS <= stamps[j]);
    }
}

/// Law: the wait the scheduler takes is never under the floor, and when
/// the cycle reaches an entry no later than the entry is due, the entry
/// fires within the floor of its nominal time (`start + entry_ms`).
/// Entries therefore execute strictly in list order, at least the floor
/// apart.
pub proof fn lemma_playback_timing(entry_ms: u64, start: u64, now: u64)
    ensures
        wait_for(entry_ms, start, now) >= FLOOR_MS,
        start <= now && now <= start + entry_ms ==> start + entry_ms <= now + wait_for(
            entry_ms,
            start,
            now,
        ) <= start + entry_ms + FLOOR_MS,
{
}

} // verus!
