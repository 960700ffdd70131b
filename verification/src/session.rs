//! The recording session: the static configuration, the session state
//! machine, and the append / splice / discard rules of the record list.

use vstd::prelude::*;
use crate::keys::AnyKey;
use crate::offsets::{AnyOffset, ControllerEvent, apply_offset};
use crate::record::{RecordEntry, RecordEntryView, records_view};
use crate::shortcut::{ShortCut, ShortCuts};
use crate::state::{GlobalState, pattern_of};

verus! {

/// Static policy: which device classes are tapped, how often the
/// controllers are polled, and one chord binding per session action.
#[derive(PartialEq, Debug)]
pub struct Config {
    /// Controller polling interval in milliseconds.
    pub interval: u64,
    pub enable_mouse: bool,
    pub enable_keyboard: bool,
    /// Which of the four controller slots are polled.
    pub enable_controller: [bool; 4],
    pub start_record: ShortCuts,
    pub append_record: ShortCuts,
    pub stop_record: ShortCuts,
    pub start_playback: ShortCuts,
    pub stop_playback: ShortCuts,
    pub continue_record: ShortCuts,
    pub drop_record: ShortCuts,
    pub save_records: ShortCuts,
}

impl Config {
    /// Every binding's chords are well formed.
    pub open spec fn wf(self) -> bool {
        self.start_record.wf() && self.append_record.wf() && self.stop_record.wf()
            && self.start_playback.wf() && self.stop_playback.wf() && self.continue_record.wf()
            && self.drop_record.wf() && self.save_records.wf()
    }

    /// True when the binding is the containing variant over exactly the
    /// given chords.
    pub open spec fn binding_is(scs: ShortCuts, exclude: bool, chords: Seq<ShortCut>) -> bool {
        scs.is_exclude() == exclude && scs.chords() == chords
    }

    /// The bundled policy that `new` builds.
    pub open spec fn is_bundled(self) -> bool {
        &&& self.interval == 10
        &&& self.enable_mouse
        &&& self.enable_keyboard
        &&& self.enable_controller@ == seq![true, false, false, false]
        &&& Config::binding_is(self.start_record, false, seq![ShortCut::shift_enter_spec()])
        &&& Config::binding_is(self.append_record, false, seq![ShortCut::ctrl_shift_enter_spec()])
        &&& Config::binding_is(self.stop_record, false, seq![ShortCut::escape_spec()])
        &&& Config::binding_is(self.drop_record, false, seq![ShortCut::shift_escape_spec()])
        &&& Config::binding_is(self.start_playback, false, seq![ShortCut::ctrl_enter_spec()])
        &&& Config::binding_is(self.stop_playback, false, seq![ShortCut::escape_spec()])
        &&& Config::binding_is(
            self.continue_record,
            true,
            seq![ShortCut::empty_spec(), ShortCut::escape_spec()],
        )
        &&& Config::binding_is(self.save_records, false, seq![ShortCut::ctrl_right_s_spec()])
    }
}

impl Default for Config {
    /// Ten-millisecond polling, mouse, keyboard and the first controller
    /// slot enabled, and every binding an empty containing list (which
    /// never fires).
    fn default() -> (r: Self)
        ensures
            r.wf(),
            r.interval == 10,
            r.enable_mouse,
            r.enable_keyboard,
            r.enable_controller@ == seq![true, false, false, false],
            Config::binding_is(r.start_record, false, Seq::<ShortCut>::empty()),
            Config::binding_is(r.append_record, false, Seq::<ShortCut>::empty()),
            Config::binding_is(r.stop_record, false, Seq::<ShortCut>::empty()),
            Config::binding_is(r.start_playback, false, Seq::<ShortCut>::empty()),
            Config::binding_is(r.stop_playback, false, Seq::<ShortCut>::empty()),
            Config::binding_is(r.continue_record, false, Seq::<ShortCut>::empty()),
            Config::binding_is(r.drop_record, false, Seq::<ShortCut>::empty()),
            Config::binding_is(r.save_records, false, Seq::<ShortCut>::empty()),
    {
        let r = Config {
            interval: 10,
            enable_mouse: true,
            enable_keyboard: true,
            enable_controller: [true, false, false, false],
            start_record: ShortCuts::Contains(Vec::new()),
            append_record: ShortCuts::Contains(Vec::new()),
            stop_record: ShortCuts::Contains(Vec::new()),
            start_playback: ShortCuts::Contains(Vec::new()),
            stop_playback: ShortCuts::Contains(Vec::new()),
            continue_record: ShortCuts::Contains(Vec::new()),
            drop_record: ShortCuts::Contains(Vec::new()),
            save_records: ShortCuts::Contains(Vec::new()),
        };
        proof {
            assert(r.enable_controller@ =~= seq![true, false, false, false]);
        }
        r
    }
}

impl Config {
    /// The bundled bindings: shift-return starts a recording,
    /// control-shift-return appends to it, escape stops recording or
    /// playback, shift-escape drops the take, control-return starts
    /// playback, anything but a bare escape or an idle hand continues
    /// recording over a playback, and control-shift-S with the right
    /// mouse button saves the session.
    pub fn new() -> (r: Self)
        ensures
            r.wf(),
            r.is_bundled(),
    {
        let mut r = Config::default();
        let mut start_record: Vec<ShortCut> = Vec::new();
        start_record.push(ShortCut::shift_enter());
        r.start_record = ShortCuts::Contains(start_record);
        let mut append_record: Vec<ShortCut> = Vec::new();
        append_record.push(ShortCut::ctrl_shift_enter());
        r.append_record = ShortCuts::Contains(append_record);
        let mut stop_record: Vec<ShortCut> = Vec::new();
        stop_record.push(ShortCut::escape());
        r.stop_record = ShortCuts::Contains(stop_record);
        let mut drop_record: Vec<ShortCut> = Vec::new();
        drop_record.push(ShortCut::shift_escape());
        r.drop_record = ShortCuts::Contains(drop_record);
        let mut start_playback: Vec<ShortCut> = Vec::new();
        start_playback.push(ShortCut::ctrl_enter());
        r.start_playback = ShortCuts::Contains(start_playback);
        let mut stop_playback: Vec<ShortCut> = Vec::new();
        stop_playback.push(ShortCut::escape());
        r.stop_playback = ShortCuts::Contains(stop_playback);
        let mut continue_record: Vec<ShortCut> = Vec::new();
        continue_record.push(ShortCut::empty());
        continue_record.push(ShortCut::escape());
        r.continue_record = ShortCuts::Exclude(continue_record);
        let mut save_records: Vec<ShortCut> = Vec::new();
        save_records.push(ShortCut::ctrl_right_s());
        r.save_records = ShortCuts::Contains(save_records);
        proof {
            assert(r.start_record.chords() =~= seq![ShortCut::shift_enter_spec()]);
            assert(r.append_record.chords() =~= seq![ShortCut::ctrl_shift_enter_spec()]);
            assert(r.stop_record.chords() =~= seq![ShortCut::escape_spec()]);
            assert(r.drop_record.chords() =~= seq![ShortCut::shift_escape_spec()]);
            assert(r.start_playback.chords() =~= seq![ShortCut::ctrl_enter_spec()]);
            assert(r.stop_playback.chords() =~= seq![ShortCut::escape_spec()]);
            assert(r.continue_record.chords() =~= seq![
                ShortCut::empty_spec(),
                ShortCut::escape_spec(),
            ]);
            assert(r.save_records.chords() =~= seq![ShortCut::ctrl_right_s_spec()]);
        }
        r
    }
}

/// The session's mode: idle, recording a take, replaying one, or failed
/// for good (a device or driver could not be set up).
#[derive(PartialEq, Eq, Structural, Clone, Copy, Debug)]
pub enum RecorderState {
    Ready,
    Recording,
    Playing,
    Error,
}

impl Default for RecorderState {
    /// The idle mode.
    fn default() -> (r: Self)
        ensures
            r == RecorderState::Ready,
    {
        RecorderState::Ready
    }
}

/// One normalized input event, already stamped and converted by the
/// platform layer or by `controller_input`.
#[derive(Clone, Copy, PartialEq, Eq, Structural, Debug)]
pub enum InputEvent {
    KeyDown(AnyKey),
    KeyUp(AnyKey),
    Moved(AnyOffset),
}

impl InputEvent {
    /// Movements must name a valid controller slot.
    pub open spec fn wf(self) -> bool {
        match self {
            InputEvent::Moved(off) => off.slot_ok(),
            _ => true,
        }
    }
}

/// Turns one polled controller change of slot `id` into the normalized
/// event vocabulary.
pub fn controller_input(id: u32, ev: ControllerEvent) -> (r: InputEvent)
    requires
        id < 4,
    ensures
        r.wf(),
        r == (match ev {
            ControllerEvent::ButtonPress(index) => InputEvent::KeyDown(AnyKey::Controller(id, index)),
            ControllerEvent::ButtonRelease(index) => InputEvent::KeyUp(AnyKey::Controller(id, index)),
            ControllerEvent::TriggerMove(l, right) => InputEvent::Moved(AnyOffset::Trigger(id, l, right)),
            ControllerEvent::LSticksMove(x, y) => InputEvent::Moved(AnyOffset::LeftStick(id, x, y)),
            ControllerEvent::RSticksMove(x, y) => InputEvent::Moved(AnyOffset::RightStick(id, x, y)),
        }),
{
    match ev {
        ControllerEvent::ButtonPress(index) => InputEvent::KeyDown(AnyKey::Controller(id, index)),
        ControllerEvent::ButtonRelease(index) => InputEvent::KeyUp(AnyKey::Controller(id, index)),
        ControllerEvent::TriggerMove(l, right) => InputEvent::Moved(AnyOffset::Trigger(id, l, right)),
        ControllerEvent::LSticksMove(x, y) => InputEvent::Moved(AnyOffset::LeftStick(id, x, y)),
        ControllerEvent::RSticksMove(x, y) => InputEvent::Moved(AnyOffset::RightStick(id, x, y)),
    }
}

/// What one incoming event's timestamp must look like for the session to
/// cut a tick boundary before applying the event: more than one
/// millisecond past the last boundary.
pub open spec fn should_cut(g: GlobalState, ms: u64) -> bool {
    ms > g.time_ms + 1
}

/// The entry that cutting a tick at elapsed time `ms` produces from the
/// aggregator's transient buffers.
pub open spec fn cut_entry_view(g: GlobalState, ms: u64) -> RecordEntryView {
    RecordEntryView {
        ms: if ms >= g.rec_start() {
            (ms - g.rec_start()) as u64
        } else {
            0u64
        },
        pressed: g.pending_pressed(),
        released: g.pending_released(),
        moves: g.pending_moves(),
    }
}

/// The aggregator changed in nothing but possibly its recording-start
/// offset.
pub open spec fn aggregator_kept(pre: GlobalState, post: GlobalState) -> bool {
    post.time_ms == pre.time_ms && post.pressed_keys@ == pre.pressed_keys@ && post.offsets
        == pre.offsets && post.pending_pressed() == pre.pending_pressed()
        && post.pending_released() == pre.pending_released() && post.pending_moves()
        == pre.pending_moves()
}

/// The aggregator did not change at all.
pub open spec fn aggregator_unchanged(pre: GlobalState, post: GlobalState) -> bool {
    aggregator_kept(pre, post) && post.rec_start() == pre.rec_start()
}

/// What the session reports back to its caller after evaluating the
/// shortcuts once: the mode it is now in, and which outside actions the
/// caller must perform (persist the session, start the scheduler on a
/// copy of the records, stop the scheduler).
#[derive(Clone, Copy, PartialEq, Eq, Structural, Debug)]
pub struct StepOutcome {
    pub state: RecorderState,
    pub save: bool,
    pub player_start: bool,
    pub player_stop: bool,
}

/// The recording session: configuration, the record list, the live
/// aggregator, the running recording segment's positions, and the mode.
#[derive(Debug)]
pub struct Recorder {
    /// Static policy.
    pub config: Config,
    /// The aggregator snapshot taken when the session was loaded; kept
    /// for the persisted file, never read by the logic.
    pub init_state: GlobalState,
    /// The recorded entries.
    pub records: Vec<RecordEntry>,
    /// The live aggregator.
    pub recorder: GlobalState,
    /// The running segment: start position, list length at its start,
    /// and a spare slot kept for symmetry with the persisted shape.
    pub rec_pos: (usize, usize, usize),
    /// The session's mode.
    pub state: RecorderState,
}

impl Recorder {
    /// The configuration and aggregators are well formed, and while
    /// recording, the running segment's positions lie inside the list.
    pub open spec fn wf(self) -> bool {
        &&& self.config.wf()
        &&& self.recorder.wf()
        &&& self.init_state.wf()
        &&& (self.state == RecorderState::Recording ==> self.rec_pos.0 <= self.rec_pos.1
            <= self.records@.len())
    }

    /// The pattern the currently-held inputs derive.
    pub open spec fn session_pattern(self) -> ShortCut {
        pattern_of(self.recorder.pressed_keys@)
    }

    /// Whether a binding fires against the current state.
    pub open spec fn fires(self, scs: ShortCuts) -> bool {
        self.recorder.chords_matched(self.session_pattern(), scs.is_exclude(), scs.chords())
    }

    /// A fresh session with the bundled bindings, no records, and the
    /// mode parked at `Error` until the devices are up.
    pub fn new() -> (r: Self)
        ensures
            r.wf(),
            r.config.is_bundled(),
            r.records@ == Seq::<RecordEntry>::empty(),
            r.recorder.is_fresh(),
            r.init_state.is_fresh(),
            r.rec_pos == (0usize, 0usize, 0usize),
            r.state == RecorderState::Error,
    {
        Recorder {
            config: Config::new(),
            init_state: GlobalState::new(),
            records: Vec::new(),
            recorder: GlobalState::new(),
            rec_pos: (0, 0, 0),
            state: RecorderState::Error,
        }
    }

    /// Whether the main loop should keep running.
    pub fn is_ok(&self) -> (r: bool)
        ensures
            r == (self.state != RecorderState::Error),
    {
        self.state != RecorderState::Error
    }

    /// Cuts a tick at elapsed time `ms`; while recording, the cut entry
    /// joins the record list.
    pub fn next_ms(&mut self, ms: u64)
        requires
            old(self).wf(),
        ensures
            final(self).wf(),
            final(self).config == old(self).config,
            final(self).init_state == old(self).init_state,
            final(self).state == old(self).state,
            final(self).rec_pos == old(self).rec_pos,
            final(self).recorder.time_ms == ms,
            final(self).recorder.pressed_keys@ == old(self).recorder.pressed_keys@,
            final(self).recorder.offsets == old(self).recorder.offsets,
            final(self).recorder.rec_start() == old(self).recorder.rec_start(),
            final(self).recorder.pending_pressed() == Seq::<AnyKey>::empty(),
            final(self).recorder.pending_released() == Seq::<AnyKey>::empty(),
            final(self).recorder.pending_moves() == Seq::<AnyOffset>::empty(),
            old(self).state == RecorderState::Recording ==> records_view(final(self).records@)
                == records_view(old(self).records@).push(cut_entry_view(old(self).recorder, ms)),
            old(self).state != RecorderState::Recording ==> final(self).records@ == old(self).records@,
    {
        let entry = self.recorder.next_ms(ms);
        if self.state == RecorderState::Recording {
            proof {
                assert(entry@ == cut_entry_view(old(self).recorder, ms));
            }
            let ghost before = self.records@;
            self.records.push(entry);
            proof {
                assert(records_view(self.records@) =~= records_view(before).push(
                    cut_entry_view(old(self).recorder, ms),
                ));
            }
        }
    }

    /// Applies one normalized event: cuts a tick first when the event
    /// arrives more than a millisecond past the last boundary, then
    /// folds the event into the aggregator.
    pub fn handle_event(&mut self, ms: u64, ev: InputEvent)
        requires
            old(self).wf(),
            ev.wf(),
        ensures
            final(self).wf(),
            final(self).config == old(self).config,
            final(self).init_state == old(self).init_state,
            final(self).state == old(self).state,
            final(self).rec_pos == old(self).rec_pos,
            final(self).recorder.rec_start() == old(self).recorder.rec_start(),
            final(self).recorder.time_ms == if should_cut(old(self).recorder, ms) {
                ms
            } else {
                old(self).recorder.time_ms
            },
            should_cut(old(self).recorder, ms) && old(self).state == RecorderState::Recording
                ==> records_view(final(self).records@) == records_view(old(self).records@).push(
                cut_entry_view(old(self).recorder, ms),
            ),
            !(should_cut(old(self).recorder, ms) && old(self).state == RecorderState::Recording)
                ==> final(self).records@ == old(self).records@,
            (match ev {
                InputEvent::KeyDown(k) => {
                    &&& (old(self).recorder.pressed_keys@.contains(k) ==> final(self).recorder.pressed_keys@ == old(self).recorder.pressed_keys@)
                    &&& (!old(self).recorder.pressed_keys@.contains(k) ==> final(self).recorder.pressed_keys@ == old(self).recorder.pressed_keys@.push(k))
                    &&& final(self).recorder.offsets == old(self).recorder.offsets
                    &&& final(self).recorder.pending_pressed() == (if should_cut(
                        old(self).recorder,
                        ms,
                    ) {
                        Seq::<AnyKey>::empty()
                    } else {
                        old(self).recorder.pending_pressed()
                    }).push(k)
                    &&& final(self).recorder.pending_released() == (if should_cut(
                        old(self).recorder,
                        ms,
                    ) {
                        Seq::<AnyKey>::empty()
                    } else {
                        old(self).recorder.pending_released()
                    })
                    &&& final(self).recorder.pending_moves() == (if should_cut(
                        old(self).recorder,
                        ms,
                    ) {
                        Seq::<AnyOffset>::empty()
                    } else {
                        old(self).recorder.pending_moves()
                    })
                },
                InputEvent::KeyUp(k) => {
                    &&& final(self).recorder.pressed_keys@ == old(self).recorder.pressed_keys@.remove_value(k)
                    &&& !final(self).recorder.pressed_keys@.contains(k)
                    &&& final(self).recorder.offsets == old(self).recorder.offsets
                    &&& final(self).recorder.pending_released() == (if should_cut(
                        old(self).recorder,
                        ms,
                    ) {
                        Seq::<AnyKey>::empty()
                    } else {
                        old(self).recorder.pending_released()
                    }).push(k)
                    &&& final(self).recorder.pending_pressed() == (if should_cut(
                        old(self).recorder,
                        ms,
                    ) {
                        Seq::<AnyKey>::empty()
                    } else {
                        old(self).recorder.pending_pressed()
                    })
                    &&& final(self).recorder.pending_moves() == (if should_cut(
                        old(self).recorder,
                        ms,
                    ) {
                        Seq::<AnyOffset>::empty()
                    } else {
                        old(self).recorder.pending_moves()
                    })
                },
                InputEvent::Moved(off) => {
                    &&& final(self).recorder.pressed_keys@ == old(self).recorder.pressed_keys@
                    &&& final(self).recorder.offsets@ == apply_offset(
                        old(self).recorder.offsets@,
                        off,
                    )
                    &&& final(self).recorder.pending_moves() == (if should_cut(
                        old(self).recorder,
                        ms,
                    ) {
                        Seq::<AnyOffset>::empty()
                    } else {
                        old(self).recorder.pending_moves()
                    }).push(off)
                    &&& final(self).recorder.pending_pressed() == (if should_cut(
                        old(self).recorder,
                        ms,
                    ) {
                        Seq::<AnyKey>::empty()
                    } else {
                        old(self).recorder.pending_pressed()
                    })
                    &&& final(self).recorder.pending_released() == (if should_cut(
                        old(self).recorder,
                        ms,
                    ) {
                        Seq::<AnyKey>::empty()
                    } else {
                        old(self).recorder.pending_released()
                    })
                },
            }),
    {
        if ms > self.recorder.time_ms && ms - self.recorder.time_ms > 1 {
            self.next_ms(ms);
        }
        match ev {
            InputEvent::KeyDown(k) => self.recorder.key_down(k),
            InputEvent::KeyUp(k) => self.recorder.key_up(k),
            InputEvent::Moved(off) => self.recorder.moves(off),
        }
    }
}

/// The session entered a recording segment at `continue_at`, leaving
/// the record list alone and pointing the aggregator's recording start
/// so that fresh entries continue the timeline at that position.
pub open spec fn recording_started(pre: Recorder, post: Recorder, continue_at: usize) -> bool {
    &&& post.state == RecorderState::Recording
    &&& post.rec_pos.0 == continue_at
    &&& post.rec_pos.1 == pre.records@.len()
    &&& post.rec_pos.2 == 0
    &&& post.records@ == pre.records@
    &&& aggregator_kept(pre.recorder, post.recorder)
    &&& {
        let off = if continue_at == 0 {
            0u64
        } else {
            records_view(pre.records@)[continue_at - 1].ms
        };
        post.recorder.rec_start() == if off <= pre.recorder.time_ms {
            (pre.recorder.time_ms - off) as u64
        } else {
            0u64
        }
    }
}

/// The session closed its recording segment: entries recorded during the
/// segment (those past the length the list had when it started) replace
/// everything from the segment's start position on — or are thrown away
/// when the take is discarded.
pub open spec fn recording_stopped(pre: Recorder, post: Recorder, discard: bool) -> bool {
    &&& post.state == RecorderState::Ready
    &&& post.rec_pos == pre.rec_pos
    &&& aggregator_unchanged(pre.recorder, post.recorder)
    &&& (discard ==> post.records@ == pre.records@.subrange(0, pre.rec_pos.1 as int))
    &&& (!discard && pre.rec_pos.0 == 0 ==> post.records@ == pre.records@.subrange(
        pre.rec_pos.1 as int,
        pre.records@.len() as int,
    ))
    &&& (!discard && pre.rec_pos.0 > 0 ==> post.records@ == pre.records@.subrange(
        0,
        pre.rec_pos.0 as int,
    ) + pre.records@.subrange(pre.rec_pos.1 as int, pre.records@.len() as int))
}

/// Nothing about the session changed.
pub open spec fn session_unchanged(pre: Recorder, post: Recorder) -> bool {
    &&& post.state == pre.state
    &&& post.rec_pos == pre.rec_pos
    &&& post.records@ == pre.records@
    &&& aggregator_unchanged(pre.recorder, post.recorder)
}

impl Recorder {
    /// Opens a recording segment at `continue_at`: position 0 starts a
    /// fresh take over the whole list, any later position splices onto
    /// the entry before it.
    pub fn start_record(&mut self, continue_at: usize)
        requires
            old(self).wf(),
            continue_at <= old(self).records@.len(),
        ensures
            final(self).wf(),
            final(self).config == old(self).config,
            final(self).init_state == old(self).init_state,
            recording_started(*old(self), *final(self), continue_at),
    {
        if continue_at == 0 {
            self.rec_pos = (0, self.records.len(), 0);
            self.recorder.start_rec(0);
        } else {
            self.rec_pos = (continue_at, self.records.len(), 0);
            let off = self.records[continue_at - 1].ms;
            self.recorder.start_rec(off);
        }
        self.state = RecorderState::Recording;
    }

    /// Closes the recording segment: the entries recorded since it
    /// opened replace everything from its start position on, or are
    /// dropped entirely when `discard_records` is set.
    pub fn stop_record(&mut self, discard_records: bool)
        requires
            old(self).wf(),
            old(self).rec_pos.0 <= old(self).rec_pos.1 <= old(self).records@.len(),
        ensures
            final(self).wf(),
            final(self).config == old(self).config,
            final(self).init_state == old(self).init_state,
            recording_stopped(*old(self), *final(self), discard_records),
    {
        let ghost orig = self.records@;
        let ghost p0 = self.rec_pos.0 as int;
        let ghost p1 = self.rec_pos.1 as int;
        let mut rec = self.records.split_off(self.rec_pos.1);
        if !discard_records {
            if self.rec_pos.0 == 0 {
                self.records = rec;
            } else {
                let _tail = self.records.split_off(self.rec_pos.0);
                proof {
                    assert(orig.subrange(0, p1).subrange(0, p0) =~= orig.subrange(0, p0));
                }
                self.records.append(&mut rec);
                proof {
                    assert(self.records@ =~= orig.subrange(0, p0) + orig.subrange(
                        p1,
                        orig.len() as int,
                    ));
                }
            }
        }
        self.state = RecorderState::Ready;
    }

    /// Enters playback; the caller hands a copy of the record list to
    /// the scheduler and starts it.
    pub fn start_playback(&mut self)
        requires
            old(self).wf(),
        ensures
            final(self).wf(),
            final(self).config == old(self).config,
            final(self).init_state == old(self).init_state,
            final(self).state == RecorderState::Playing,
            final(self).rec_pos == old(self).rec_pos,
            final(self).records@ == old(self).records@,
            aggregator_unchanged(old(self).recorder, final(self).recorder),
    {
        self.state = RecorderState::Playing;
    }

    /// Leaves playback; the caller stops the scheduler.
    pub fn stop_playback(&mut self)
        requires
            old(self).wf(),
        ensures
            final(self).wf(),
            final(self).config == old(self).config,
            final(self).init_state == old(self).init_state,
            final(self).state == RecorderState::Ready,
            final(self).rec_pos == old(self).rec_pos,
            final(self).records@ == old(self).records@,
            aggregator_unchanged(old(self).recorder, final(self).recorder),
    {
        self.state = RecorderState::Ready;
    }

    /// Evaluates the bindings against the pattern of the currently-held
    /// inputs and takes one state-machine step.  `player_done` and
    /// `player_pos` report the scheduler's state; the outcome carries
    /// the new mode and the outside actions the caller must perform.
    pub fn match_shortcuts(&mut self, player_done: bool, player_pos: usize) -> (outcome:
        StepOutcome)
        requires
            old(self).wf(),
            player_pos <= old(self).records@.len(),
        ensures
            final(self).wf(),
            final(self).config == old(self).config,
            final(self).init_state == old(self).init_state,
            outcome.state == final(self).state,
            outcome.save == old(self).fires(old(self).config.save_records),
            old(self).state == RecorderState::Ready ==> {
                if old(self).fires(old(self).config.append_record) {
                    &&& recording_started(*old(self), *final(self), old(self).records@.len() as usize)
                    &&& !outcome.player_start
                    &&& !outcome.player_stop
                } else if old(self).fires(old(self).config.start_record) {
                    &&& recording_started(*old(self), *final(self), 0)
                    &&& !outcome.player_start
                    &&& !outcome.player_stop
                } else if old(self).fires(old(self).config.start_playback) {
                    &&& final(self).state == RecorderState::Playing
                    &&& final(self).rec_pos == old(self).rec_pos
                    &&& final(self).records@ == old(self).records@
                    &&& aggregator_unchanged(old(self).recorder, final(self).recorder)
                    &&& outcome.player_start
                    &&& !outcome.player_stop
                } else {
                    &&& session_unchanged(*old(self), *final(self))
                    &&& !outcome.player_start
                    &&& !outcome.player_stop
                }
            },
            old(self).state == RecorderState::Recording ==> {
                if old(self).fires(old(self).config.drop_record) {
                    &&& recording_stopped(*old(self), *final(self), true)
                    &&& !outcome.player_start
                    &&& !outcome.player_stop
                } else if old(self).fires(old(self).config.stop_record) {
                    &&& recording_stopped(*old(self), *final(self), false)
                    &&& !outcome.player_start
                    &&& !outcome.player_stop
                } else {
                    &&& session_unchanged(*old(self), *final(self))
                    &&& !outcome.player_start
                    &&& !outcome.player_stop
                }
            },
            old(self).state == RecorderState::Playing ==> {
                if player_done {
                    &&& final(self).state == RecorderState::Ready
                    &&& final(self).rec_pos == old(self).rec_pos
                    &&& final(self).records@ == old(self).records@
                    &&& aggregator_unchanged(old(self).recorder, final(self).recorder)
                    &&& !outcome.player_start
                    &&& outcome.player_stop
                } else if old(self).fires(old(self).config.continue_record) {
                    &&& recording_started(*old(self), *final(self), player_pos)
                    &&& !outcome.player_start
                    &&& outcome.player_stop
                } else if old(self).fires(old(self).config.stop_playback) {
                    &&& final(self).state == RecorderState::Ready
                    &&& final(self).rec_pos == old(self).rec_pos
                    &&& final(self).records@ == old(self).records@
                    &&& aggregator_unchanged(old(self).recorder, final(self).recorder)
                    &&& !outcome.player_start
                    &&& outcome.player_stop
                } else {
                    &&& session_unchanged(*old(self), *final(self))
                    &&& !outcome.player_start
                    &&& !outcome.player_stop
                }
            },
            old(self).state == RecorderState::Error ==> session_unchanged(*old(self), *final(self))
                && !outcome.player_start && !outcome.player_stop,
    {
        let pat = self.recorder.get_pattern();
        let save = self.recorder.match_shortcuts(&pat, &self.config.save_records);
        let mut player_start: bool = false;
        let mut player_stop: bool = false;
        match self.state {
            RecorderState::Ready => {
                if self.recorder.match_shortcuts(&pat, &self.config.append_record) {
                    let at = self.records.len();
                    self.start_record(at);
                } else if self.recorder.match_shortcuts(&pat, &self.config.start_record) {
                    self.start_record(0);
                } else if self.recorder.match_shortcuts(&pat, &self.config.start_playback) {
                    self.start_playback();
                    player_start = true;
                }
            },
            RecorderState::Recording => {
                if self.recorder.match_shortcuts(&pat, &self.config.drop_record) {
                    self.stop_record(true);
                } else if self.recorder.match_shortcuts(&pat, &self.config.stop_record) {
                    self.stop_record(false);
                }
            },
            RecorderState::Playing => {
                if player_done {
                    self.stop_playback();
                    player_stop = true;
                } else if self.recorder.match_shortcuts(&pat, &self.config.continue_record) {
                    self.stop_playback();
                    player_stop = true;
                    self.start_record(player_pos);
                } else if self.recorder.match_shortcuts(&pat, &self.config.stop_playback) {
                    self.stop_playback();
                    player_stop = true;
                }
            },
            RecorderState::Error => {},
        }
        StepOutcome { state: self.state, save, player_start, player_stop }
    }
}

} // verus!
