//! The persisted-session codec.  A session (configuration, the loaded
//! aggregator snapshot, and the record list) is written as a flat
//! sequence of 64-bit words; the platform layer stores those words one
//! per line in the session file.  Decoding is specified as a
//! mathematical function of the word sequence, and every encoder
//! promises that decoding what it wrote yields the encoded value back:
//! saving and loading a session round-trips its configuration and
//! records exactly.

use vstd::prelude::*;
use crate::keys::{AnyKey, Key};
use crate::offsets::{AllOffsetsView, AnyOffset};
use crate::record::RecordEntryView;
use crate::shortcut::{ShortCut, ShortCuts};
use crate::state::GlobalState;
use crate::session::{Config, Recorder, RecorderState};

verus! {

/// The persisted part of the aggregator: the transient buffers and the
/// recording-start offset are not stored.
pub ghost struct SnapshotView {
    pub time_ms: u64,
    pub pressed: Seq<AnyKey>,
    pub offsets: AllOffsetsView,
}

/// The persisted content of one chord binding.
pub ghost struct BindingView {
    pub exclude: bool,
    pub chords: Seq<ShortCut>,
}

/// The persisted content of the configuration.
pub ghost struct ConfigView {
    pub interval: u64,
    pub enable_mouse: bool,
    pub enable_keyboard: bool,
    pub enable_controller: Seq<bool>,
    pub start_record: BindingView,
    pub append_record: BindingView,
    pub stop_record: BindingView,
    pub start_playback: BindingView,
    pub stop_playback: BindingView,
    pub continue_record: BindingView,
    pub drop_record: BindingView,
    pub save_records: BindingView,
}

/// Everything the session file holds.
pub ghost struct SessionView {
    pub config: ConfigView,
    pub init: SnapshotView,
    pub records: Seq<RecordEntryView>,
}

/// The persisted view of a binding value.
pub open spec fn binding_view(s: ShortCuts) -> BindingView {
    BindingView { exclude: s.is_exclude(), chords: s.chords() }
}

/// The persisted view of a configuration value.
pub open spec fn config_view(c: Config) -> ConfigView {
    ConfigView {
        interval: c.interval,
        enable_mouse: c.enable_mouse,
        enable_keyboard: c.enable_keyboard,
        enable_controller: c.enable_controller@,
        start_record: binding_view(c.start_record),
        append_record: binding_view(c.append_record),
        stop_record: binding_view(c.stop_record),
        start_playback: binding_view(c.start_playback),
        stop_playback: binding_view(c.stop_playback),
        continue_record: binding_view(c.continue_record),
        drop_record: binding_view(c.drop_record),
        save_records: binding_view(c.save_records),
    }
}

/// The persisted view of an aggregator value.
pub open spec fn snapshot_view(g: GlobalState) -> SnapshotView {
    SnapshotView { time_ms: g.time_ms, pressed: g.pressed_keys@, offsets: g.offsets@ }
}

/// The persisted view of a whole session.
pub open spec fn session_view(r: Recorder) -> SessionView {
    SessionView {
        config: config_view(r.config),
        init: snapshot_view(r.init_state),
        records: crate::record::records_view(r.records@),
    }
}

// What follows specifies decoding: each function consumes a prefix of
// the word sequence and returns the decoded value with the words left
// over, or nothing when the words do not fit the shape.

/// One word.
pub open spec fn dec_word(s: Seq<u64>) -> Option<(u64, Seq<u64>)> {
    if s.len() >= 1 {
        Some((s[0], s.skip(1)))
    } else {
        None
    }
}

/// A flag: zero is false, everything else true.
pub open spec fn dec_flag(s: Seq<u64>) -> Option<(bool, Seq<u64>)> {
    match dec_word(s) {
        Some((w, r)) => Some((w != 0, r)),
        None => None,
    }
}

/// A byte-sized word.
pub open spec fn dec_byte(s: Seq<u64>) -> Option<(u8, Seq<u64>)> {
    match dec_word(s) {
        Some((w, r)) => if w <= 255 {
            Some((w as u8, r))
        } else {
            None
        },
        None => None,
    }
}

/// A 32-bit word.
pub open spec fn dec_u32(s: Seq<u64>) -> Option<(u32, Seq<u64>)> {
    match dec_word(s) {
        Some((w, r)) => if w <= u32::MAX as u64 {
            Some((w as u32, r))
        } else {
            None
        },
        None => None,
    }
}

/// A machine-sized word.
pub open spec fn dec_usize(s: Seq<u64>) -> Option<(usize, Seq<u64>)> {
    match dec_word(s) {
        Some((w, r)) => if w <= usize::MAX as u64 {
            Some((w as usize, r))
        } else {
            None
        },
        None => None,
    }
}

/// A signed 64-bit value as a sign word and a magnitude word: the
/// magnitude of a negative value v is stored as -1 - v.
pub open spec fn dec_i64(s: Seq<u64>) -> Option<(i64, Seq<u64>)> {
    match dec_word(s) {
        Some((tag, r)) => match dec_word(r) {
            Some((m, r2)) => if m <= i64::MAX as u64 {
                if tag == 0 {
                    Some((m as i64, r2))
                } else if tag == 1 {
                    Some(((-1 - m as int) as i64, r2))
                } else {
                    None
                }
            } else {
                None
            },
            None => None,
        },
        None => None,
    }
}

/// A signed 16-bit value stored shifted up by 32768.
pub open spec fn dec_i16(s: Seq<u64>) -> Option<(i16, Seq<u64>)> {
    match dec_word(s) {
        Some((w, r)) => if w <= 65535 {
            Some(((w as int - 32768) as i16, r))
        } else {
            None
        },
        None => None,
    }
}

/// A three-valued flag: 0 is `None`, 1 `Some(false)`, 2 `Some(true)`.
pub open spec fn dec_opt_flag(s: Seq<u64>) -> Option<(Option<bool>, Seq<u64>)> {
    match dec_word(s) {
        Some((w, r)) => if w == 0 {
            Some((None, r))
        } else if w == 1 {
            Some((Some(false), r))
        } else if w == 2 {
            Some((Some(true), r))
        } else {
            None
        },
        None => None,
    }
}

/// An optional 32-bit value: a presence word, then the value.
pub open spec fn dec_opt_u32(s: Seq<u64>) -> Option<(Option<u32>, Seq<u64>)> {
    match dec_word(s) {
        Some((tag, r)) => if tag == 0 {
            Some((None, r))
        } else if tag == 1 {
            match dec_u32(r) {
                Some((v, r2)) => Some((Some(v), r2)),
                None => None,
            }
        } else {
            None
        },
        None => None,
    }
}

/// An optional trigger slot: a presence word, then a slot under four,
/// so that a decoded chord is always well formed.
pub open spec fn dec_opt_slot(s: Seq<u64>) -> Option<(Option<u32>, Seq<u64>)> {
    match dec_opt_u32(s) {
        Some((v, r)) => match v {
            Some(slot) => if slot < 4 {
                Some((Some(slot), r))
            } else {
                None
            },
            None => Some((None, r)),
        },
        None => None,
    }
}

/// An optional key: a presence word, then the key code.
pub open spec fn dec_opt_key(s: Seq<u64>) -> Option<(Option<Key>, Seq<u64>)> {
    match dec_word(s) {
        Some((tag, r)) => if tag == 0 {
            Some((None, r))
        } else if tag == 1 {
            match dec_u32(r) {
                Some((v, r2)) => Some((Some(Key(v)), r2)),
                None => None,
            }
        } else {
            None
        },
        None => None,
    }
}

/// An optional controller button: a presence word, then slot and index.
pub open spec fn dec_opt_btn(s: Seq<u64>) -> Option<(Option<(u32, usize)>, Seq<u64>)> {
    match dec_word(s) {
        Some((tag, r)) => if tag == 0 {
            Some((None, r))
        } else if tag == 1 {
            match dec_u32(r) {
                Some((id, r2)) => match dec_usize(r2) {
                    Some((ix, r3)) => Some((Some((id, ix)), r3)),
                    None => None,
                },
                None => None,
            }
        } else {
            None
        },
        None => None,
    }
}

/// One pressable input: a variant word, then its payload.
pub open spec fn dec_anykey(s: Seq<u64>) -> Option<(AnyKey, Seq<u64>)> {
    match dec_word(s) {
        Some((tag, r)) => if tag == 0 {
            match dec_u32(r) {
                Some((code, r2)) => Some((AnyKey::Keyboard(Key(code)), r2)),
                None => None,
            }
        } else if tag == 1 {
            match dec_u32(r) {
                Some((b, r2)) => Some((AnyKey::MouseButton(b), r2)),
                None => None,
            }
        } else if tag == 2 {
            match dec_u32(r) {
                Some((id, r2)) => match dec_usize(r2) {
                    Some((ix, r3)) => Some((AnyKey::Controller(id, ix), r3)),
                    None => None,
                },
                None => None,
            }
        } else {
            None
        },
        None => None,
    }
}

/// `n` pressable inputs, one after the other.
pub open spec fn dec_anykey_items(s: Seq<u64>, n: nat) -> Option<(Seq<AnyKey>, Seq<u64>)>
    decreases n,
{
    if n == 0 {
        Some((Seq::empty(), s))
    } else {
        match dec_anykey_items(s, (n - 1) as nat) {
            Some((vs, r)) => match dec_anykey(r) {
                Some((v, r2)) => Some((vs.push(v), r2)),
                None => None,
            },
            None => None,
        }
    }
}

/// A key list: its length, then its keys.
pub open spec fn dec_keys(s: Seq<u64>) -> Option<(Seq<AnyKey>, Seq<u64>)> {
    match dec_usize(s) {
        Some((n, r)) => dec_anykey_items(r, n as nat),
        None => None,
    }
}

/// One axis movement: a variant word, then its payload.
pub open spec fn dec_anyoffset(s: Seq<u64>) -> Option<(AnyOffset, Seq<u64>)> {
    match dec_word(s) {
        Some((tag, r)) => if tag == 0 {
            match dec_i64(r) {
                Some((x, r2)) => match dec_i64(r2) {
                    Some((y, r3)) => Some((AnyOffset::Mouse(x, y), r3)),
                    None => None,
                },
                None => None,
            }
        } else if tag == 1 {
            match dec_i64(r) {
                Some((x, r2)) => match dec_i64(r2) {
                    Some((y, r3)) => Some((AnyOffset::Wheel(x, y), r3)),
                    None => None,
                },
                None => None,
            }
        } else if tag == 2 {
            match dec_u32(r) {
                Some((slot, r2)) => match dec_byte(r2) {
                    Some((l, r3)) => match dec_byte(r3) {
                        Some((rr, r4)) => Some((AnyOffset::Trigger(slot, l, rr), r4)),
                        None => None,
                    },
                    None => None,
                },
                None => None,
            }
        } else if tag == 3 {
            match dec_u32(r) {
                Some((slot, r2)) => match dec_i16(r2) {
                    Some((x, r3)) => match dec_i16(r3) {
                        Some((y, r4)) => Some((AnyOffset::LeftStick(slot, x, y), r4)),
                        None => None,
                    },
                    None => None,
                },
                None => None,
            }
        } else if tag == 4 {
            match dec_u32(r) {
                Some((slot, r2)) => match dec_i16(r2) {
                    Some((x, r3)) => match dec_i16(r3) {
                        Some((y, r4)) => Some((AnyOffset::RightStick(slot, x, y), r4)),
                        None => None,
                    },
                    None => None,
                },
                None => None,
            }
        } else {
            None
        },
        None => None,
    }
}

/// `n` axis movements, one after the other.
pub open spec fn dec_anyoffset_items(s: Seq<u64>, n: nat) -> Option<(Seq<AnyOffset>, Seq<u64>)>
    decreases n,
{
    if n == 0 {
        Some((Seq::empty(), s))
    } else {
        match dec_anyoffset_items(s, (n - 1) as nat) {
            Some((vs, r)) => match dec_anyoffset(r) {
                Some((v, r2)) => Some((vs.push(v), r2)),
                None => None,
            },
            None => None,
        }
    }
}

/// A movement list: its length, then its movements.
pub open spec fn dec_moves(s: Seq<u64>) -> Option<(Seq<AnyOffset>, Seq<u64>)> {
    match dec_usize(s) {
        Some((n, r)) => dec_anyoffset_items(r, n as nat),
        None => None,
    }
}

/// A pair of trigger bytes.
pub open spec fn dec_byte_pair(s: Seq<u64>) -> Option<((u8, u8), Seq<u64>)> {
    match dec_byte(s) {
        Some((a, r)) => match dec_byte(r) {
            Some((b, r2)) => Some(((a, b), r2)),
            None => None,
        },
        None => None,
    }
}

/// `n` pairs of trigger bytes.
pub open spec fn dec_byte_pairs(s: Seq<u64>, n: nat) -> Option<(Seq<(u8, u8)>, Seq<u64>)>
    decreases n,
{
    if n == 0 {
        Some((Seq::empty(), s))
    } else {
        match dec_byte_pairs(s, (n - 1) as nat) {
            Some((vs, r)) => match dec_byte_pair(r) {
                Some((v, r2)) => Some((vs.push(v), r2)),
                None => None,
            },
            None => None,
        }
    }
}

/// A pair of stick axes.
pub open spec fn dec_i16_pair(s: Seq<u64>) -> Option<((i16, i16), Seq<u64>)> {
    match dec_i16(s) {
        Some((a, r)) => match dec_i16(r) {
            Some((b, r2)) => Some(((a, b), r2)),
            None => None,
        },
        None => None,
    }
}

/// `n` pairs of stick axes.
pub open spec fn dec_i16_pairs(s: Seq<u64>, n: nat) -> Option<(Seq<(i16, i16)>, Seq<u64>)>
    decreases n,
{
    if n == 0 {
        Some((Seq::empty(), s))
    } else {
        match dec_i16_pairs(s, (n - 1) as nat) {
            Some((vs, r)) => match dec_i16_pair(r) {
                Some((v, r2)) => Some((vs.push(v), r2)),
                None => None,
            },
            None => None,
        }
    }
}

/// The mouse and wheel positions, four signed values.
pub open spec fn dec_plane(s: Seq<u64>) -> Option<(((i64, i64), (i64, i64)), Seq<u64>)> {
    match dec_i64(s) {
        Some((mx, r)) => match dec_i64(r) {
            Some((my, r2)) => match dec_i64(r2) {
                Some((wx, r3)) => match dec_i64(r3) {
                    Some((wy, r4)) => Some((((mx, my), (wx, wy)), r4)),
                    None => None,
                },
                None => None,
            },
            None => None,
        },
        None => None,
    }
}

/// The last-known axis values: mouse, wheel, and the three four-slot
/// controller classes.
pub open spec fn dec_offsets(s: Seq<u64>) -> Option<(AllOffsetsView, Seq<u64>)> {
    match dec_plane(s) {
        Some(((m, w), r)) => match dec_byte_pairs(r, 4) {
            Some((tr, r2)) => match dec_i16_pairs(r2, 4) {
                Some((ls, r3)) => match dec_i16_pairs(r3, 4) {
                    Some((rs, r4)) => Some(
                        (
                            AllOffsetsView {
                                mouse: m,
                                wheel: w,
                                trigger: tr,
                                left_stick: ls,
                                right_stick: rs,
                            },
                            r4,
                        ),
                    ),
                    None => None,
                },
                None => None,
            },
            None => None,
        },
        None => None,
    }
}

/// An aggregator snapshot: the tick time, the held keys, the axes.
pub open spec fn dec_snapshot(s: Seq<u64>) -> Option<(SnapshotView, Seq<u64>)> {
    match dec_word(s) {
        Some((t, r)) => match dec_keys(r) {
            Some((ks, r2)) => match dec_offsets(r2) {
                Some((os, r3)) => Some((SnapshotView { time_ms: t, pressed: ks, offsets: os }, r3)),
                None => None,
            },
            None => None,
        },
        None => None,
    }
}

/// One recorded tick: its stamp and its three delta lists.
pub open spec fn dec_entry(s: Seq<u64>) -> Option<(RecordEntryView, Seq<u64>)> {
    match dec_word(s) {
        Some((t, r)) => match dec_keys(r) {
            Some((ps, r2)) => match dec_keys(r2) {
                Some((rs, r3)) => match dec_moves(r3) {
                    Some((ms, r4)) => Some(
                        (RecordEntryView { ms: t, pressed: ps, released: rs, moves: ms }, r4),
                    ),
                    None => None,
                },
                None => None,
            },
            None => None,
        },
        None => None,
    }
}

/// `n` recorded ticks, one after the other.
pub open spec fn dec_entry_items(s: Seq<u64>, n: nat) -> Option<(Seq<RecordEntryView>, Seq<u64>)>
    decreases n,
{
    if n == 0 {
        Some((Seq::empty(), s))
    } else {
        match dec_entry_items(s, (n - 1) as nat) {
            Some((vs, r)) => match dec_entry(r) {
                Some((v, r2)) => Some((vs.push(v), r2)),
                None => None,
            },
            None => None,
        }
    }
}

/// The record list: its length, then its entries.
pub open spec fn dec_records(s: Seq<u64>) -> Option<(Seq<RecordEntryView>, Seq<u64>)> {
    match dec_usize(s) {
        Some((n, r)) => dec_entry_items(r, n as nat),
        None => None,
    }
}

/// The eight modifier and mouse-button slots of a chord, in
/// declaration order.
pub ghost struct FlagsView {
    pub ctrl: Option<bool>,
    pub alt: Option<bool>,
    pub shift: Option<bool>,
    pub tab: Option<bool>,
    pub windows: Option<bool>,
    pub mouse_l_button: Option<bool>,
    pub mouse_r_button: Option<bool>,
    pub mouse_m_button: Option<bool>,
}

/// Four three-valued flag slots in a row.
pub open spec fn dec_flag_quad(s: Seq<u64>) -> Option<
    ((Option<bool>, Option<bool>, Option<bool>, Option<bool>), Seq<u64>),
> {
    match dec_opt_flag(s) {
        Some((a, r1)) => match dec_opt_flag(r1) {
            Some((b, r2)) => match dec_opt_flag(r2) {
                Some((c, r3)) => match dec_opt_flag(r3) {
                    Some((d, r4)) => Some(((a, b, c, d), r4)),
                    None => None,
                },
                None => None,
            },
            None => None,
        },
        None => None,
    }
}

/// The eight three-valued flag slots of a chord.
pub open spec fn dec_flags8(s: Seq<u64>) -> Option<(FlagsView, Seq<u64>)> {
    match dec_flag_quad(s) {
        Some(((ctrl, alt, shift, tab), r)) => match dec_flag_quad(r) {
            Some(((win, ml, mr, mm), r2)) => Some(
                (
                    FlagsView {
                        ctrl,
                        alt,
                        shift,
                        tab,
                        windows: win,
                        mouse_l_button: ml,
                        mouse_r_button: mr,
                        mouse_m_button: mm,
                    },
                    r2,
                ),
            ),
            None => None,
        },
        None => None,
    }
}

/// The flag slots a chord holds.
pub open spec fn flags_of(sc: ShortCut) -> FlagsView {
    FlagsView {
        ctrl: sc.ctrl,
        alt: sc.alt,
        shift: sc.shift,
        tab: sc.tab,
        windows: sc.windows,
        mouse_l_button: sc.mouse_l_button,
        mouse_r_button: sc.mouse_r_button,
        mouse_m_button: sc.mouse_m_button,
    }
}

/// One chord: its two tri-state selectors, the eight flag slots and the
/// two trigger slots, in declaration order.
pub open spec fn dec_shortcut(s: Seq<u64>) -> Option<(ShortCut, Seq<u64>)> {
    match dec_byte(s) {
        Some((ko, r)) => match dec_opt_key(r) {
            Some((k, r2)) => match dec_byte(r2) {
                Some((co, r3)) => match dec_opt_btn(r3) {
                    Some((cb, r4)) => match dec_flags8(r4) {
                        Some((fs, r5)) => match dec_opt_slot(r5) {
                            Some((tl, r6)) => match dec_opt_slot(r6) {
                                Some((tr, r7)) => Some(
                                    (
                                        ShortCut {
                                            key_option: ko,
                                            key: k,
                                            controller_btn_option: co,
                                            controller_btn: cb,
                                            ctrl: fs.ctrl,
                                            alt: fs.alt,
                                            shift: fs.shift,
                                            tab: fs.tab,
                                            windows: fs.windows,
                                            mouse_l_button: fs.mouse_l_button,
                                            mouse_r_button: fs.mouse_r_button,
                                            mouse_m_button: fs.mouse_m_button,
                                            trigger_l: tl,
                                            trigger_r: tr,
                                        },
                                        r7,
                                    ),
                                ),
                                None => None,
                            },
                            None => None,
                        },
                        None => None,
                    },
                    None => None,
                },
                None => None,
            },
            None => None,
        },
        None => None,
    }
}

/// `n` chords, one after the other.
pub open spec fn dec_shortcut_items(s: Seq<u64>, n: nat) -> Option<(Seq<ShortCut>, Seq<u64>)>
    decreases n,
{
    if n == 0 {
        Some((Seq::empty(), s))
    } else {
        match dec_shortcut_items(s, (n - 1) as nat) {
            Some((vs, r)) => match dec_shortcut(r) {
                Some((v, r2)) => Some((vs.push(v), r2)),
                None => None,
            },
            None => None,
        }
    }
}

/// One binding: whether it excludes, then its chord list.
pub open spec fn dec_binding(s: Seq<u64>) -> Option<(BindingView, Seq<u64>)> {
    match dec_flag(s) {
        Some((ex, r)) => match dec_usize(r) {
            Some((n, r2)) => match dec_shortcut_items(r2, n as nat) {
                Some((cs, r3)) => Some((BindingView { exclude: ex, chords: cs }, r3)),
                None => None,
            },
            None => None,
        },
        None => None,
    }
}

/// `n` device-enable flags.
pub open spec fn dec_flag_items(s: Seq<u64>, n: nat) -> Option<(Seq<bool>, Seq<u64>)>
    decreases n,
{
    if n == 0 {
        Some((Seq::empty(), s))
    } else {
        match dec_flag_items(s, (n - 1) as nat) {
            Some((vs, r)) => match dec_flag(r) {
                Some((v, r2)) => Some((vs.push(v), r2)),
                None => None,
            },
            None => None,
        }
    }
}

/// The eight bindings of a configuration, in declaration order.
pub ghost struct BindingsView {
    pub start_record: BindingView,
    pub append_record: BindingView,
    pub stop_record: BindingView,
    pub start_playback: BindingView,
    pub stop_playback: BindingView,
    pub continue_record: BindingView,
    pub drop_record: BindingView,
    pub save_records: BindingView,
}

/// Four bindings in a row.
pub open spec fn dec_binding_quad(s: Seq<u64>) -> Option<
    ((BindingView, BindingView, BindingView, BindingView), Seq<u64>),
> {
    match dec_binding(s) {
        Some((a, r1)) => match dec_binding(r1) {
            Some((b, r2)) => match dec_binding(r2) {
                Some((c, r3)) => match dec_binding(r3) {
                    Some((d, r4)) => Some(((a, b, c, d), r4)),
                    None => None,
                },
                None => None,
            },
            None => None,
        },
        None => None,
    }
}

/// The eight bindings, one after the other.
pub open spec fn dec_bindings8(s: Seq<u64>) -> Option<(BindingsView, Seq<u64>)> {
    match dec_binding_quad(s) {
        Some(((b1, b2, b3, b4), r)) => match dec_binding_quad(r) {
            Some(((b5, b6, b7, b8), r2)) => Some(
                (
                    BindingsView {
                        start_record: b1,
                        append_record: b2,
                        stop_record: b3,
                        start_playback: b4,
                        stop_playback: b5,
                        continue_record: b6,
                        drop_record: b7,
                        save_records: b8,
                    },
                    r2,
                ),
            ),
            None => None,
        },
        None => None,
    }
}

/// The bindings a configuration holds.
pub open spec fn bindings_of(c: Config) -> BindingsView {
    BindingsView {
        start_record: binding_view(c.start_record),
        append_record: binding_view(c.append_record),
        stop_record: binding_view(c.stop_record),
        start_playback: binding_view(c.start_playback),
        stop_playback: binding_view(c.stop_playback),
        continue_record: binding_view(c.continue_record),
        drop_record: binding_view(c.drop_record),
        save_records: binding_view(c.save_records),
    }
}

/// The configuration: the polling interval, the device flags, and the
/// eight bindings in declaration order.
pub open spec fn dec_config(s: Seq<u64>) -> Option<(ConfigView, Seq<u64>)> {
    match dec_word(s) {
        Some((iv, r)) => match dec_flag(r) {
            Some((em, r2)) => match dec_flag(r2) {
                Some((ek, r3)) => match dec_flag_items(r3, 4) {
                    Some((ec, r4)) => match dec_bindings8(r4) {
                        Some((bs, r5)) => Some(
                            (
                                ConfigView {
                                    interval: iv,
                                    enable_mouse: em,
                                    enable_keyboard: ek,
                                    enable_controller: ec,
                                    start_record: bs.start_record,
                                    append_record: bs.append_record,
                                    stop_record: bs.stop_record,
                                    start_playback: bs.start_playback,
                                    stop_playback: bs.stop_playback,
                                    continue_record: bs.continue_record,
                                    drop_record: bs.drop_record,
                                    save_records: bs.save_records,
                                },
                                r5,
                            ),
                        ),
                        None => None,
                    },
                    None => None,
                },
                None => None,
            },
            None => None,
        },
        None => None,
    }
}

/// A whole session: configuration, aggregator snapshot, record list.
pub open spec fn dec_session(s: Seq<u64>) -> Option<(SessionView, Seq<u64>)> {
    match dec_config(s) {
        Some((c, r)) => match dec_snapshot(r) {
            Some((g, r2)) => match dec_records(r2) {
                Some((rs, r3)) => Some((SessionView { config: c, init: g, records: rs }, r3)),
                None => None,
            },
            None => None,
        },
        None => None,
    }
}


/// The buffer only grew and its old content is untouched.
pub open spec fn enc_ok(pre: Seq<u64>, post: Seq<u64>) -> bool {
    post.len() >= pre.len() && post.subrange(0, pre.len() as int) == pre
}

/// The words an encoder appended past the old length.
pub open spec fn written(pre: Seq<u64>, post: Seq<u64>) -> Seq<u64> {
    post.skip(pre.len() as int)
}

/// Appends one word.
#[verifier::rlimit(100)]
fn enc_word(out: &mut Vec<u64>, v: u64)
    ensures
        enc_ok(old(out)@, final(out)@),
        forall|rest: Seq<u64>| #[trigger] dec_word(written(old(out)@, final(out)@) + rest)
            == Some((v, rest)),
{
    out.push(v);
    proof {
        assert(out@.subrange(0, old(out)@.len() as int) =~= old(out)@);
        assert(written(old(out)@, out@) =~= seq![v]);
        assert forall|rest: Seq<u64>| #[trigger] dec_word(written(old(out)@, out@) + rest) == Some(
            (v, rest),
        ) by {
            let s = written(old(out)@, out@) + rest;
            assert(s.len() >= 1);
            assert(s[0] == v);
            assert(s.skip(1) =~= rest);
        }
    }
}

/// Appends a flag as 0 or 1.
#[verifier::rlimit(100)]
fn enc_flag(out: &mut Vec<u64>, v: bool)
    ensures
        enc_ok(old(out)@, final(out)@),
        forall|rest: Seq<u64>| #[trigger] dec_flag(written(old(out)@, final(out)@) + rest)
            == Some((v, rest)),
{
    enc_word(out, if v { 1 } else { 0 });
}

/// Appends a byte-sized value.
#[verifier::rlimit(100)]
fn enc_byte(out: &mut Vec<u64>, v: u8)
    ensures
        enc_ok(old(out)@, final(out)@),
        forall|rest: Seq<u64>| #[trigger] dec_byte(written(old(out)@, final(out)@) + rest)
            == Some((v, rest)),
{
    enc_word(out, v as u64);
}

/// Appends a 32-bit value.
#[verifier::rlimit(100)]
fn enc_u32(out: &mut Vec<u64>, v: u32)
    ensures
        enc_ok(old(out)@, final(out)@),
        forall|rest: Seq<u64>| #[trigger] dec_u32(written(old(out)@, final(out)@) + rest)
            == Some((v, rest)),
{
    enc_word(out, v as u64);
}

/// Appends a machine-sized value.
#[verifier::rlimit(100)]
fn enc_usize(out: &mut Vec<u64>, v: usize)
    ensures
        enc_ok(old(out)@, final(out)@),
        forall|rest: Seq<u64>| #[trigger] dec_usize(written(old(out)@, final(out)@) + rest)
            == Some((v, rest)),
{
    enc_word(out, v as u64);
}

/// Appends a signed 64-bit value as sign and magnitude.
#[verifier::rlimit(100)]
fn enc_i64(out: &mut Vec<u64>, v: i64)
    ensures
        enc_ok(old(out)@, final(out)@),
        forall|rest: Seq<u64>| #[trigger] dec_i64(written(old(out)@, final(out)@) + rest)
            == Some((v, rest)),
{
    let ghost g0 = out@;
    if v >= 0 {
        enc_word(out, 0);
        let ghost g1 = out@;
        enc_word(out, v as u64);
        proof {
            lemma_two_words(g0, g1, out@);
            let w1 = written(g0, g1);
            let w2 = written(g1, out@);
            assert forall|rest: Seq<u64>| #[trigger] dec_i64(written(g0, out@) + rest) == Some(
                (v, rest),
            ) by {
                assert(written(g0, out@) + rest =~= w1 + (w2 + rest));
                assert(dec_word(w1 + (w2 + rest)) == Some((0u64, w2 + rest)));
                assert(dec_word(w2 + rest) == Some((v as u64, rest)));
            }
        }
    } else {
        enc_word(out, 1);
        let ghost g1 = out@;
        enc_word(out, (-(v + 1)) as u64);
        proof {
            lemma_two_words(g0, g1, out@);
            let w1 = written(g0, g1);
            let w2 = written(g1, out@);
            assert forall|rest: Seq<u64>| #[trigger] dec_i64(written(g0, out@) + rest) == Some(
                (v, rest),
            ) by {
                assert(written(g0, out@) + rest =~= w1 + (w2 + rest));
                assert(dec_word(w1 + (w2 + rest)) == Some((1u64, w2 + rest)));
                assert(dec_word(w2 + rest) == Some(((-(v + 1)) as u64, rest)));
            }
        }
    }
}

/// An untouched buffer wrote nothing.
proof fn lemma_enc_refl(g: Seq<u64>)
    ensures
        enc_ok(g, g),
        written(g, g) == Seq::<u64>::empty(),
{
    assert(g.subrange(0, g.len() as int) =~= g);
    assert(written(g, g) =~= Seq::<u64>::empty());
}

/// After two appends, the whole written stretch splits at the boundary.
proof fn lemma_two_words(g0: Seq<u64>, g1: Seq<u64>, g2: Seq<u64>)
    requires
        enc_ok(g0, g1),
        enc_ok(g1, g2),
    ensures
        enc_ok(g0, g2),
        written(g0, g2) == written(g0, g1) + written(g1, g2),
{
    assert(g2.subrange(0, g0.len() as int) =~= g0);
    assert(written(g0, g2) =~= written(g0, g1) + written(g1, g2));
}

/// Appends a signed 16-bit value shifted up by 32768.
#[verifier::rlimit(100)]
fn enc_i16(out: &mut Vec<u64>, v: i16)
    ensures
        enc_ok(old(out)@, final(out)@),
        forall|rest: Seq<u64>| #[trigger] dec_i16(written(old(out)@, final(out)@) + rest)
            == Some((v, rest)),
{
    let w: u64 = ((v as i64) + 32768) as u64;
    enc_word(out, w);
}

/// Appends a three-valued flag.
#[verifier::rlimit(100)]
fn enc_opt_flag(out: &mut Vec<u64>, v: &Option<bool>)
    ensures
        enc_ok(old(out)@, final(out)@),
        forall|rest: Seq<u64>| #[trigger] dec_opt_flag(written(old(out)@, final(out)@) + rest)
            == Some((*v, rest)),
{
    match v {
        None => enc_word(out, 0),
        Some(false) => enc_word(out, 1),
        Some(true) => enc_word(out, 2),
    }
}

/// Appends an optional 32-bit value.
#[verifier::rlimit(100)]
fn enc_opt_u32(out: &mut Vec<u64>, v: &Option<u32>)
    ensures
        enc_ok(old(out)@, final(out)@),
        forall|rest: Seq<u64>| #[trigger] dec_opt_u32(written(old(out)@, final(out)@) + rest)
            == Some((*v, rest)),
{
    let ghost g0 = out@;
    match v {
        None => enc_word(out, 0),
        Some(x) => {
            enc_word(out, 1);
            let ghost g1 = out@;
            enc_u32(out, *x);
            proof {
                lemma_two_words(g0, g1, out@);
                let w1 = written(g0, g1);
                let w2 = written(g1, out@);
                assert forall|rest: Seq<u64>| #[trigger] dec_opt_u32(written(g0, out@) + rest)
                    == Some((*v, rest)) by {
                    assert(written(g0, out@) + rest =~= w1 + (w2 + rest));
                    assert(dec_word(w1 + (w2 + rest)) == Some((1u64, w2 + rest)));
                    assert(dec_u32(w2 + rest) == Some((*x, rest)));
                }
            }
        },
    }
}

/// Appends an optional key code.
#[verifier::rlimit(100)]
fn enc_opt_key(out: &mut Vec<u64>, v: &Option<Key>)
    ensures
        enc_ok(old(out)@, final(out)@),
        forall|rest: Seq<u64>| #[trigger] dec_opt_key(written(old(out)@, final(out)@) + rest)
            == Some((*v, rest)),
{
    let ghost g0 = out@;
    match v {
        None => enc_word(out, 0),
        Some(k) => {
            enc_word(out, 1);
            let ghost g1 = out@;
            enc_u32(out, k.0);
            proof {
                lemma_two_words(g0, g1, out@);
                let w1 = written(g0, g1);
                let w2 = written(g1, out@);
                assert forall|rest: Seq<u64>| #[trigger] dec_opt_key(written(g0, out@) + rest)
                    == Some((*v, rest)) by {
                    assert(written(g0, out@) + rest =~= w1 + (w2 + rest));
                    assert(dec_word(w1 + (w2 + rest)) == Some((1u64, w2 + rest)));
                    assert(dec_u32(w2 + rest) == Some((k.0, rest)));
                }
            }
        },
    }
}

/// Appends an optional controller button.
#[verifier::rlimit(100)]
fn enc_opt_btn(out: &mut Vec<u64>, v: &Option<(u32, usize)>)
    ensures
        enc_ok(old(out)@, final(out)@),
        forall|rest: Seq<u64>| #[trigger] dec_opt_btn(written(old(out)@, final(out)@) + rest)
            == Some((*v, rest)),
{
    let ghost g0 = out@;
    match v {
        None => enc_word(out, 0),
        Some(b) => {
            enc_word(out, 1);
            let ghost g1 = out@;
            enc_u32(out, b.0);
            let ghost g2 = out@;
            enc_usize(out, b.1);
            proof {
                lemma_two_words(g0, g1, g2);
                lemma_two_words(g0, g2, out@);
                lemma_two_words(g1, g2, out@);
                let w1 = written(g0, g1);
                let w2 = written(g1, g2);
                let w3 = written(g2, out@);
                assert forall|rest: Seq<u64>| #[trigger] dec_opt_btn(written(g0, out@) + rest)
                    == Some((*v, rest)) by {
                    assert(written(g0, out@) + rest =~= w1 + (w2 + (w3 + rest)));
                    assert(dec_word(w1 + (w2 + (w3 + rest))) == Some((1u64, w2 + (w3 + rest))));
                    assert(dec_u32(w2 + (w3 + rest)) == Some((b.0, w3 + rest)));
                    assert(dec_usize(w3 + rest) == Some((b.1, rest)));
                }
            }
        },
    }
}

/// Appends one pressable input.
#[verifier::rlimit(100)]
fn enc_anykey(out: &mut Vec<u64>, v: AnyKey)
    ensures
        enc_ok(old(out)@, final(out)@),
        forall|rest: Seq<u64>| #[trigger] dec_anykey(written(old(out)@, final(out)@) + rest)
            == Some((v, rest)),
{
    let ghost g0 = out@;
    match v {
        AnyKey::Keyboard(k) => {
            enc_word(out, 0);
            let ghost g1 = out@;
            enc_u32(out, k.0);
            proof {
                lemma_two_words(g0, g1, out@);
                let w1 = written(g0, g1);
                let w2 = written(g1, out@);
                assert forall|rest: Seq<u64>| #[trigger] dec_anykey(written(g0, out@) + rest)
                    == Some((v, rest)) by {
                    assert(written(g0, out@) + rest =~= w1 + (w2 + rest));
                    assert(dec_word(w1 + (w2 + rest)) == Some((0u64, w2 + rest)));
                    assert(dec_u32(w2 + rest) == Some((k.0, rest)));
                }
            }
        },
        AnyKey::MouseButton(b) => {
            enc_word(out, 1);
            let ghost g1 = out@;
            enc_u32(out, b);
            proof {
                lemma_two_words(g0, g1, out@);
                let w1 = written(g0, g1);
                let w2 = written(g1, out@);
                assert forall|rest: Seq<u64>| #[trigger] dec_anykey(written(g0, out@) + rest)
                    == Some((v, rest)) by {
                    assert(written(g0, out@) + rest =~= w1 + (w2 + rest));
                    assert(dec_word(w1 + (w2 + rest)) == Some((1u64, w2 + rest)));
                    assert(dec_u32(w2 + rest) == Some((b, rest)));
                }
            }
        },
        AnyKey::Controller(id, ix) => {
            enc_word(out, 2);
            let ghost g1 = out@;
            enc_u32(out, id);
            let ghost g2 = out@;
            enc_usize(out, ix);
            proof {
                lemma_two_words(g0, g1, g2);
                lemma_two_words(g0, g2, out@);
                lemma_two_words(g1, g2, out@);
                let w1 = written(g0, g1);
                let w2 = written(g1, g2);
                let w3 = written(g2, out@);
                assert forall|rest: Seq<u64>| #[trigger] dec_anykey(written(g0, out@) + rest)
                    == Some((v, rest)) by {
                    assert(written(g0, out@) + rest =~= w1 + (w2 + (w3 + rest)));
                    assert(dec_word(w1 + (w2 + (w3 + rest))) == Some((2u64, w2 + (w3 + rest))));
                    assert(dec_u32(w2 + (w3 + rest)) == Some((id, w3 + rest)));
                    assert(dec_usize(w3 + rest) == Some((ix, rest)));
                }
            }
        },
    }
}

/// Appends a key list with its length in front.
#[verifier::rlimit(100)]
fn enc_keys(out: &mut Vec<u64>, v: &Vec<AnyKey>)
    ensures
        enc_ok(old(out)@, final(out)@),
        forall|rest: Seq<u64>| #[trigger] dec_keys(written(old(out)@, final(out)@) + rest)
            == Some((v@, rest)),
{
    let ghost g0 = out@;
    enc_usize(out, v.len());
    let ghost g1 = out@;
    proof {
        lemma_enc_refl(g1);
        assert forall|rest: Seq<u64>| #[trigger] dec_anykey_items(written(g1, g1) + rest, 0nat)
            == Some((v@.subrange(0, 0int), rest)) by {
            assert(written(g1, g1) + rest =~= rest);
            assert(v@.subrange(0, 0int) =~= Seq::<AnyKey>::empty());
        }
    }
    let mut i: usize = 0;
    while i < v.len()
        invariant
            i <= v@.len(),
            enc_ok(g1, out@),
            forall|rest: Seq<u64>| #[trigger] dec_anykey_items(written(g1, out@) + rest, i as nat)
                == Some((v@.subrange(0, i as int), rest)),
        decreases v@.len() - i,
    {
        let ghost gp = out@;
        enc_anykey(out, v[i]);
        proof {
            lemma_two_words(g1, gp, out@);
            assert forall|rest: Seq<u64>| #[trigger] dec_anykey_items(
                written(g1, out@) + rest,
                (i + 1) as nat,
            ) == Some((v@.subrange(0, i + 1), rest)) by {
                let wi = written(g1, gp);
                let we = written(gp, out@);
                assert((wi + we) + rest =~= wi + (we + rest));
                assert(dec_anykey_items(wi + (we + rest), i as nat) == Some(
                    (v@.subrange(0, i as int), we + rest),
                ));
                assert(dec_anykey(we + rest) == Some((v@[i as int], rest)));
                assert(v@.subrange(0, i as int).push(v@[i as int]) =~= v@.subrange(0, i + 1));
            }
        }
        i += 1;
    }
    proof {
        lemma_two_words(g0, g1, out@);
        assert(v@.subrange(0, v@.len() as int) =~= v@);
        assert forall|rest: Seq<u64>| #[trigger] dec_keys(written(g0, out@) + rest) == Some(
            (v@, rest),
        ) by {
            let wl = written(g0, g1);
            let wi = written(g1, out@);
            assert((wl + wi) + rest =~= wl + (wi + rest));
            assert(dec_usize(wl + (wi + rest)) == Some((v@.len() as usize, wi + rest)));
        }
    }
}

/// Appends one axis movement.
#[verifier::rlimit(100)]
fn enc_anyoffset(out: &mut Vec<u64>, v: AnyOffset)
    ensures
        enc_ok(old(out)@, final(out)@),
        forall|rest: Seq<u64>| #[trigger] dec_anyoffset(written(old(out)@, final(out)@) + rest)
            == Some((v, rest)),
{
    let ghost g0 = out@;
    match v {
        AnyOffset::Mouse(x, y) => {
            enc_word(out, 0);
            let ghost g1 = out@;
            enc_i64(out, x);
            let ghost g2 = out@;
            enc_i64(out, y);
            proof {
                lemma_two_words(g0, g1, g2);
                lemma_two_words(g0, g2, out@);
                lemma_two_words(g1, g2, out@);
                let w1 = written(g0, g1);
                let w2 = written(g1, g2);
                let w3 = written(g2, out@);
                assert forall|rest: Seq<u64>| #[trigger] dec_anyoffset(written(g0, out@) + rest)
                    == Some((v, rest)) by {
                    assert(written(g0, out@) + rest =~= w1 + (w2 + (w3 + rest)));
                    assert(dec_word(w1 + (w2 + (w3 + rest))) == Some((0u64, w2 + (w3 + rest))));
                    assert(dec_i64(w2 + (w3 + rest)) == Some((x, w3 + rest)));
                    assert(dec_i64(w3 + rest) == Some((y, rest)));
                }
            }
        },
        AnyOffset::Wheel(x, y) => {
            enc_word(out, 1);
            let ghost g1 = out@;
            enc_i64(out, x);
            let ghost g2 = out@;
            enc_i64(out, y);
            proof {
                lemma_two_words(g0, g1, g2);
                lemma_two_words(g0, g2, out@);
                lemma_two_words(g1, g2, out@);
                let w1 = written(g0, g1);
                let w2 = written(g1, g2);
                let w3 = written(g2, out@);
                assert forall|rest: Seq<u64>| #[trigger] dec_anyoffset(written(g0, out@) + rest)
                    == Some((v, rest)) by {
                    assert(written(g0, out@) + rest =~= w1 + (w2 + (w3 + rest)));
                    assert(dec_word(w1 + (w2 + (w3 + rest))) == Some((1u64, w2 + (w3 + rest))));
                    assert(dec_i64(w2 + (w3 + rest)) == Some((x, w3 + rest)));
                    assert(dec_i64(w3 + rest) == Some((y, rest)));
                }
            }
        },
        AnyOffset::Trigger(slot, l, r) => {
            enc_word(out, 2);
            let ghost g1 = out@;
            enc_u32(out, slot);
            let ghost g2 = out@;
            enc_byte(out, l);
            let ghost g3 = out@;
            enc_byte(out, r);
            proof {
                lemma_two_words(g0, g1, g2);
                lemma_two_words(g0, g2, g3);
                lemma_two_words(g0, g3, out@);
                lemma_two_words(g1, g2, g3);
                lemma_two_words(g1, g3, out@);
                lemma_two_words(g2, g3, out@);
                let w1 = written(g0, g1);
                let w2 = written(g1, g2);
                let w3 = written(g2, g3);
                let w4 = written(g3, out@);
                assert forall|rest: Seq<u64>| #[trigger] dec_anyoffset(written(g0, out@) + rest)
                    == Some((v, rest)) by {
                    assert(written(g0, out@) + rest =~= w1 + (w2 + (w3 + (w4 + rest))));
                    assert(dec_word(w1 + (w2 + (w3 + (w4 + rest)))) == Some(
                        (2u64, w2 + (w3 + (w4 + rest))),
                    ));
                    assert(dec_u32(w2 + (w3 + (w4 + rest))) == Some((slot, w3 + (w4 + rest))));
                    assert(dec_byte(w3 + (w4 + rest)) == Some((l, w4 + rest)));
                    assert(dec_byte(w4 + rest) == Some((r, rest)));
                }
            }
        },
        AnyOffset::LeftStick(slot, x, y) => {
            enc_word(out, 3);
            let ghost g1 = out@;
            enc_u32(out, slot);
            let ghost g2 = out@;
            enc_i16(out, x);
            let ghost g3 = out@;
            enc_i16(out, y);
            proof {
                lemma_two_words(g0, g1, g2);
                lemma_two_words(g0, g2, g3);
                lemma_two_words(g0, g3, out@);
                lemma_two_words(g1, g2, g3);
                lemma_two_words(g1, g3, out@);
                lemma_two_words(g2, g3, out@);
                let w1 = written(g0, g1);
                let w2 = written(g1, g2);
                let w3 = written(g2, g3);
                let w4 = written(g3, out@);
                assert forall|rest: Seq<u64>| #[trigger] dec_anyoffset(written(g0, out@) + rest)
                    == Some((v, rest)) by {
                    assert(written(g0, out@) + rest =~= w1 + (w2 + (w3 + (w4 + rest))));
                    assert(dec_word(w1 + (w2 + (w3 + (w4 + rest)))) == Some(
                        (3u64, w2 + (w3 + (w4 + rest))),
                    ));
                    assert(dec_u32(w2 + (w3 + (w4 + rest))) == Some((slot, w3 + (w4 + rest))));
                    assert(dec_i16(w3 + (w4 + rest)) == Some((x, w4 + rest)));
                    assert(dec_i16(w4 + rest) == Some((y, rest)));
                }
            }
        },
        AnyOffset::RightStick(slot, x, y) => {
            enc_word(out, 4);
            let ghost g1 = out@;
            enc_u32(out, slot);
            let ghost g2 = out@;
            enc_i16(out, x);
            let ghost g3 = out@;
            enc_i16(out, y);
            proof {
                lemma_two_words(g0, g1, g2);
                lemma_two_words(g0, g2, g3);
                lemma_two_words(g0, g3, out@);
                lemma_two_words(g1, g2, g3);
                lemma_two_words(g1, g3, out@);
                lemma_two_words(g2, g3, out@);
                let w1 = written(g0, g1);
                let w2 = written(g1, g2);
                let w3 = written(g2, g3);
                let w4 = written(g3, out@);
                assert forall|rest: Seq<u64>| #[trigger] dec_anyoffset(written(g0, out@) + rest)
                    == Some((v, rest)) by {
                    assert(written(g0, out@) + rest =~= w1 + (w2 + (w3 + (w4 + rest))));
                    assert(dec_word(w1 + (w2 + (w3 + (w4 + rest)))) == Some(
                        (4u64, w2 + (w3 + (w4 + rest))),
                    ));
                    assert(dec_u32(w2 + (w3 + (w4 + rest))) == Some((slot, w3 + (w4 + rest))));
                    assert(dec_i16(w3 + (w4 + rest)) == Some((x, w4 + rest)));
                    assert(dec_i16(w4 + rest) == Some((y, rest)));
                }
            }
        },
    }
}

/// Appends a movement list with its length in front.
#[verifier::rlimit(100)]
fn enc_moves(out: &mut Vec<u64>, v: &Vec<AnyOffset>)
    ensures
        enc_ok(old(out)@, final(out)@),
        forall|rest: Seq<u64>| #[trigger] dec_moves(written(old(out)@, final(out)@) + rest)
            == Some((v@, rest)),
{
    let ghost g0 = out@;
    enc_usize(out, v.len());
    let ghost g1 = out@;
    proof {
        lemma_enc_refl(g1);
        assert forall|rest: Seq<u64>| #[trigger] dec_anyoffset_items(written(g1, g1) + rest, 0nat)
            == Some((v@.subrange(0, 0int), rest)) by {
            assert(written(g1, g1) + rest =~= rest);
            assert(v@.subrange(0, 0int) =~= Seq::<AnyOffset>::empty());
        }
    }
    let mut i: usize = 0;
    while i < v.len()
        invariant
            i <= v@.len(),
            enc_ok(g1, out@),
            forall|rest: Seq<u64>| #[trigger] dec_anyoffset_items(
                written(g1, out@) + rest,
                i as nat,
            ) == Some((v@.subrange(0, i as int), rest)),
        decreases v@.len() - i,
    {
        let ghost gp = out@;
        enc_anyoffset(out, v[i]);
        proof {
            lemma_two_words(g1, gp, out@);
            assert forall|rest: Seq<u64>| #[trigger] dec_anyoffset_items(
                written(g1, out@) + rest,
                (i + 1) as nat,
            ) == Some((v@.subrange(0, i + 1), rest)) by {
                let wi = written(g1, gp);
                let we = written(gp, out@);
                assert((wi + we) + rest =~= wi + (we + rest));
                assert(dec_anyoffset_items(wi + (we + rest), i as nat) == Some(
                    (v@.subrange(0, i as int), we + rest),
                ));
                assert(dec_anyoffset(we + rest) == Some((v@[i as int], rest)));
                assert(v@.subrange(0, i as int).push(v@[i as int]) =~= v@.subrange(0, i + 1));
            }
        }
        i += 1;
    }
    proof {
        lemma_two_words(g0, g1, out@);
        assert(v@.subrange(0, v@.len() as int) =~= v@);
        assert forall|rest: Seq<u64>| #[trigger] dec_moves(written(g0, out@) + rest) == Some(
            (v@, rest),
        ) by {
            let wl = written(g0, g1);
            let wi = written(g1, out@);
            assert((wl + wi) + rest =~= wl + (wi + rest));
            assert(dec_usize(wl + (wi + rest)) == Some((v@.len() as usize, wi + rest)));
        }
    }
}

/// Appends a pair of trigger bytes.
#[verifier::rlimit(100)]
fn enc_byte_pair(out: &mut Vec<u64>, v: (u8, u8))
    ensures
        enc_ok(old(out)@, final(out)@),
        forall|rest: Seq<u64>| #[trigger] dec_byte_pair(written(old(out)@, final(out)@) + rest)
            == Some((v, rest)),
{
    let ghost g0 = out@;
    enc_byte(out, v.0);
    let ghost g1 = out@;
    enc_byte(out, v.1);
    let ghost g2 = out@;
    proof {
        lemma_two_words(g0, g1, g2);
        assert forall|rest: Seq<u64>| #[trigger] dec_byte_pair(written(g0, g2) + rest)
            == Some((v, rest)) by {
            assert(written(g0, g2) + rest =~= written(g0, g1) + (written(
                g1,
                g2,
            ) + rest));
            assert(dec_byte(written(g0, g1) + (written(g1, g2) + rest)) == Some(
                (v.0, written(g1, g2) + rest),
            ));
            assert(dec_byte(written(g1, g2) + rest) == Some((v.1, rest)));
        }
    }
}

/// Appends a pair of stick axes.
#[verifier::rlimit(100)]
fn enc_i16_pair(out: &mut Vec<u64>, v: (i16, i16))
    ensures
        enc_ok(old(out)@, final(out)@),
        forall|rest: Seq<u64>| #[trigger] dec_i16_pair(written(old(out)@, final(out)@) + rest)
            == Some((v, rest)),
{
    let ghost g0 = out@;
    enc_i16(out, v.0);
    let ghost g1 = out@;
    enc_i16(out, v.1);
    let ghost g2 = out@;
    proof {
        lemma_two_words(g0, g1, g2);
        assert forall|rest: Seq<u64>| #[trigger] dec_i16_pair(written(g0, g2) + rest)
            == Some((v, rest)) by {
            assert(written(g0, g2) + rest =~= written(g0, g1) + (written(
                g1,
                g2,
            ) + rest));
            assert(dec_i16(written(g0, g1) + (written(g1, g2) + rest)) == Some(
                (v.0, written(g1, g2) + rest),
            ));
            assert(dec_i16(written(g1, g2) + rest) == Some((v.1, rest)));
        }
    }
}

/// Appends the elements of a byte_pair list, without a length in front.
#[verifier::rlimit(100)]
fn enc_byte_pairs(out: &mut Vec<u64>, v: &Vec<(u8, u8)>)
    ensures
        enc_ok(old(out)@, final(out)@),
        forall|rest: Seq<u64>| #[trigger] dec_byte_pairs(written(old(out)@, final(out)@) + rest, v@.len())
            == Some((v@, rest)),
{
    let ghost g1 = out@;
    proof {
        lemma_enc_refl(g1);
        assert forall|rest: Seq<u64>| #[trigger] dec_byte_pairs(written(g1, g1) + rest, 0nat) == Some(
            (v@.subrange(0, 0int), rest),
        ) by {
            assert(written(g1, g1) + rest =~= rest);
            assert(v@.subrange(0, 0int) =~= Seq::<(u8, u8)>::empty());
        }
    }
    let mut i: usize = 0;
    while i < v.len()
        invariant
            i <= v@.len(),
            enc_ok(g1, out@),
            forall|rest: Seq<u64>| #[trigger] dec_byte_pairs(written(g1, out@) + rest, i as nat) == Some(
                (v@.subrange(0, i as int), rest),
            ),
        decreases v@.len() - i,
    {
        let ghost gp = out@;
        enc_byte_pair(out, v[i]);
        proof {
            lemma_two_words(g1, gp, out@);
            assert forall|rest: Seq<u64>| #[trigger] dec_byte_pairs(written(g1, out@) + rest, (i + 1) as nat)
                == Some((v@.subrange(0, i + 1), rest)) by {
                let wi = written(g1, gp);
                let we = written(gp, out@);
                assert((wi + we) + rest =~= wi + (we + rest));
                assert(dec_byte_pairs(wi + (we + rest), i as nat) == Some(
                    (v@.subrange(0, i as int), we + rest),
                ));
                assert(dec_byte_pair(we + rest) == Some((v@[i as int], rest)));
                assert(v@.subrange(0, i as int).push(v@[i as int]) =~= v@.subrange(0, i + 1));
            }
        }
        i += 1;
    }
    proof {
        assert(v@.subrange(0, v@.len() as int) =~= v@);
    }
}

/// Appends the elements of a i16_pair list, without a length in front.
#[verifier::rlimit(100)]
fn enc_i16_pairs(out: &mut Vec<u64>, v: &Vec<(i16, i16)>)
    ensures
        enc_ok(old(out)@, final(out)@),
        forall|rest: Seq<u64>| #[trigger] dec_i16_pairs(written(old(out)@, final(out)@) + rest, v@.len())
            == Some((v@, rest)),
{
    let ghost g1 = out@;
    proof {
        lemma_enc_refl(g1);
        assert forall|rest: Seq<u64>| #[trigger] dec_i16_pairs(written(g1, g1) + rest, 0nat) == Some(
            (v@.subrange(0, 0int), rest),
        ) by {
            assert(written(g1, g1) + rest =~= rest);
            assert(v@.subrange(0, 0int) =~= Seq::<(i16, i16)>::empty());
        }
    }
    let mut i: usize = 0;
    while i < v.len()
        invariant
            i <= v@.len(),
            enc_ok(g1, out@),
            forall|rest: Seq<u64>| #[trigger] dec_i16_pairs(written(g1, out@) + rest, i as nat) == Some(
                (v@.subrange(0, i as int), rest),
            ),
        decreases v@.len() - i,
    {
        let ghost gp = out@;
        enc_i16_pair(out, v[i]);
        proof {
            lemma_two_words(g1, gp, out@);
            assert forall|rest: Seq<u64>| #[trigger] dec_i16_pairs(written(g1, out@) + rest, (i + 1) as nat)
                == Some((v@.subrange(0, i + 1), rest)) by {
                let wi = written(g1, gp);
                let we = written(gp, out@);
                assert((wi + we) + rest =~= wi + (we + rest));
                assert(dec_i16_pairs(wi + (we + rest), i as nat) == Some(
                    (v@.subrange(0, i as int), we + rest),
                ));
                assert(dec_i16_pair(we + rest) == Some((v@[i as int], rest)));
                assert(v@.subrange(0, i as int).push(v@[i as int]) =~= v@.subrange(0, i + 1));
            }
        }
        i += 1;
    }
    proof {
        assert(v@.subrange(0, v@.len() as int) =~= v@);
    }
}

/// Appends the mouse and wheel positions.
#[verifier::rlimit(100)]
fn enc_plane(out: &mut Vec<u64>, m: (i64, i64), w: (i64, i64))
    ensures
        enc_ok(old(out)@, final(out)@),
        forall|rest: Seq<u64>| #[trigger] dec_plane(written(old(out)@, final(out)@) + rest)
            == Some(((m, w), rest)),
{
    let ghost g0 = out@;
    enc_i64(out, m.0);
    let ghost g1 = out@;
    enc_i64(out, m.1);
    let ghost g2 = out@;
    enc_i64(out, w.0);
    let ghost g3 = out@;
    enc_i64(out, w.1);
    let ghost g4 = out@;
    proof {
        lemma_two_words(g2, g3, g4);
        lemma_two_words(g1, g2, g4);
        lemma_two_words(g0, g1, g4);
        assert forall|rest: Seq<u64>| #[trigger] dec_plane(written(g0, g4) + rest) == Some(
            ((m, w), rest),
        ) by {
            assert(written(g0, g4) + rest =~= written(g0, g1) + (written(g1, g4) + rest));
            assert(dec_i64(written(g0, g1) + (written(g1, g4) + rest)) == Some(
                (m.0, written(g1, g4) + rest),
            ));
            assert(written(g1, g4) + rest =~= written(g1, g2) + (written(g2, g4) + rest));
            assert(dec_i64(written(g1, g2) + (written(g2, g4) + rest)) == Some(
                (m.1, written(g2, g4) + rest),
            ));
            assert(written(g2, g4) + rest =~= written(g2, g3) + (written(g3, g4) + rest));
            assert(dec_i64(written(g2, g3) + (written(g3, g4) + rest)) == Some(
                (w.0, written(g3, g4) + rest),
            ));
            assert(dec_i64(written(g3, g4) + rest) == Some((w.1, rest)));
            assert((m, w) == ((m.0, m.1), (w.0, w.1)));
        }
    }
}

/// Appends the last-known axis values.
#[verifier::rlimit(100)]
fn enc_offsets(out: &mut Vec<u64>, v: &crate::offsets::AllOffsets)
    requires
        v.wf(),
    ensures
        enc_ok(old(out)@, final(out)@),
        forall|rest: Seq<u64>| #[trigger] dec_offsets(written(old(out)@, final(out)@) + rest)
            == Some((v@, rest)),
{
    let ghost g0 = out@;
    enc_plane(out, v.mouse, v.wheel);
    let ghost g1 = out@;
    enc_byte_pairs(out, &v.trigger);
    let ghost g2 = out@;
    enc_i16_pairs(out, &v.left_stick);
    let ghost g3 = out@;
    enc_i16_pairs(out, &v.right_stick);
    let ghost g4 = out@;
    proof {
        lemma_two_words(g2, g3, g4);
        lemma_two_words(g1, g2, g4);
        lemma_two_words(g0, g1, g4);
        assert forall|rest: Seq<u64>| #[trigger] dec_offsets(written(g0, g4) + rest) == Some(
            (v@, rest),
        ) by {
            assert(written(g0, g4) + rest =~= written(g0, g1) + (written(g1, g4) + rest));
            assert(dec_plane(written(g0, g1) + (written(g1, g4) + rest)) == Some(
                ((v.mouse, v.wheel), written(g1, g4) + rest),
            ));
            assert(written(g1, g4) + rest =~= written(g1, g2) + (written(g2, g4) + rest));
            assert(v.trigger@.len() == 4);
            assert(dec_byte_pairs(
                written(g1, g2) + (written(g2, g4) + rest),
                v.trigger@.len(),
            ) == Some((v.trigger@, written(g2, g4) + rest)));
            assert(written(g2, g4) + rest =~= written(g2, g3) + (written(g3, g4) + rest));
            assert(v.left_stick@.len() == 4);
            assert(dec_i16_pairs(
                written(g2, g3) + (written(g3, g4) + rest),
                v.left_stick@.len(),
            ) == Some((v.left_stick@, written(g3, g4) + rest)));
            assert(v.right_stick@.len() == 4);
            assert(dec_i16_pairs(written(g3, g4) + rest, v.right_stick@.len()) == Some(
                (v.right_stick@, rest),
            ));
        }
    }
}

/// Appends the persisted part of an aggregator.
#[verifier::rlimit(100)]
fn enc_snapshot(out: &mut Vec<u64>, v: &GlobalState)
    requires
        v.offsets.wf(),
    ensures
        enc_ok(old(out)@, final(out)@),
        forall|rest: Seq<u64>| #[trigger] dec_snapshot(written(old(out)@, final(out)@) + rest)
            == Some((snapshot_view(*v), rest)),
{
    let ghost g0 = out@;
    enc_word(out, v.time_ms);
    let ghost g1 = out@;
    enc_keys(out, &v.pressed_keys);
    let ghost g2 = out@;
    enc_offsets(out, &v.offsets);
    let ghost g3 = out@;
    proof {
        lemma_two_words(g1, g2, g3);
        lemma_two_words(g0, g1, g3);
        assert forall|rest: Seq<u64>| #[trigger] dec_snapshot(written(g0, g3) + rest)
            == Some((snapshot_view(*v), rest)) by {
            assert(written(g0, g3) + rest =~= written(g0, g1) + (written(
                g1,
                g3,
            ) + rest));
            assert(dec_word(written(g0, g1) + (written(g1, g3) + rest)) == Some(
                (v.time_ms, written(g1, g3) + rest),
            ));
            assert(written(g1, g3) + rest =~= written(g1, g2) + (written(
                g2,
                g3,
            ) + rest));
            assert(dec_keys(written(g1, g2) + (written(g2, g3) + rest)) == Some(
                (v.pressed_keys@, written(g2, g3) + rest),
            ));
            assert(dec_offsets(written(g2, g3) + rest) == Some((v.offsets@, rest)));
        }
    }
}

/// Appends one recorded tick.
#[verifier::rlimit(100)]
fn enc_entry(out: &mut Vec<u64>, v: &crate::record::RecordEntry)
    ensures
        enc_ok(old(out)@, final(out)@),
        forall|rest: Seq<u64>| #[trigger] dec_entry(written(old(out)@, final(out)@) + rest)
            == Some((v@, rest)),
{
    let ghost g0 = out@;
    enc_word(out, v.ms);
    let ghost g1 = out@;
    enc_keys(out, &v.pressed);
    let ghost g2 = out@;
    enc_keys(out, &v.released);
    let ghost g3 = out@;
    enc_moves(out, &v.moves);
    let ghost g4 = out@;
    proof {
        lemma_two_words(g2, g3, g4);
        lemma_two_words(g1, g2, g4);
        lemma_two_words(g0, g1, g4);
        assert forall|rest: Seq<u64>| #[trigger] dec_entry(written(g0, g4) + rest)
            == Some((v@, rest)) by {
            assert(written(g0, g4) + rest =~= written(g0, g1) + (written(
                g1,
                g4,
            ) + rest));
            assert(dec_word(written(g0, g1) + (written(g1, g4) + rest)) == Some(
                (v.ms, written(g1, g4) + rest),
            ));
            assert(written(g1, g4) + rest =~= written(g1, g2) + (written(
                g2,
                g4,
            ) + rest));
            assert(dec_keys(written(g1, g2) + (written(g2, g4) + rest)) == Some(
                (v.pressed@, written(g2, g4) + rest),
            ));
            assert(written(g2, g4) + rest =~= written(g2, g3) + (written(
                g3,
                g4,
            ) + rest));
            assert(dec_keys(written(g2, g3) + (written(g3, g4) + rest)) == Some(
                (v.released@, written(g3, g4) + rest),
            ));
            assert(dec_moves(written(g3, g4) + rest) == Some((v.moves@, rest)));
        }
    }
}

/// Appends an optional trigger slot (a slot under four).
#[verifier::rlimit(100)]
fn enc_opt_slot(out: &mut Vec<u64>, v: &Option<u32>)
    requires
        v is Some ==> v->0 < 4,
    ensures
        enc_ok(old(out)@, final(out)@),
        forall|rest: Seq<u64>| #[trigger] dec_opt_slot(written(old(out)@, final(out)@) + rest)
            == Some((*v, rest)),
{
    let ghost g0 = out@;
    enc_opt_u32(out, v);
    proof {
        assert forall|rest: Seq<u64>| #[trigger] dec_opt_slot(written(g0, out@) + rest) == Some(
            (*v, rest),
        ) by {
            assert(dec_opt_u32(written(g0, out@) + rest) == Some((*v, rest)));
        }
    }
}

/// Appends four flag slots.
#[verifier::rlimit(100)]
fn enc_flag_quad(out: &mut Vec<u64>, a: &Option<bool>, b: &Option<bool>, c: &Option<bool>, d: &Option<bool>)
    ensures
        enc_ok(old(out)@, final(out)@),
        forall|rest: Seq<u64>| #[trigger] dec_flag_quad(written(old(out)@, final(out)@) + rest)
            == Some(((*a, *b, *c, *d), rest)),
{
    let ghost g0 = out@;
    enc_opt_flag(out, a);
    let ghost g1 = out@;
    enc_opt_flag(out, b);
    let ghost g2 = out@;
    enc_opt_flag(out, c);
    let ghost g3 = out@;
    enc_opt_flag(out, d);
    let ghost g4 = out@;
    proof {
        lemma_two_words(g2, g3, g4);
        lemma_two_words(g1, g2, g4);
        lemma_two_words(g0, g1, g4);
        assert forall|rest: Seq<u64>| #[trigger] dec_flag_quad(written(g0, g4) + rest)
            == Some(((*a, *b, *c, *d), rest)) by {
            assert(written(g0, g4) + rest =~= written(g0, g1) + (written(g1, g4) + rest));
            assert(dec_opt_flag(written(g0, g1) + (written(g1, g4) + rest)) == Some((*a, written(g1, g4) + rest)));
            assert(written(g1, g4) + rest =~= written(g1, g2) + (written(g2, g4) + rest));
            assert(dec_opt_flag(written(g1, g2) + (written(g2, g4) + rest)) == Some((*b, written(g2, g4) + rest)));
            assert(written(g2, g4) + rest =~= written(g2, g3) + (written(g3, g4) + rest));
            assert(dec_opt_flag(written(g2, g3) + (written(g3, g4) + rest)) == Some((*c, written(g3, g4) + rest)));
            assert(dec_opt_flag(written(g3, g4) + rest) == Some((*d, rest)));
        }
    }
}

/// Appends the eight flag slots of a chord.
#[verifier::rlimit(100)]
fn enc_flags8(out: &mut Vec<u64>, sc: &ShortCut)
    ensures
        enc_ok(old(out)@, final(out)@),
        forall|rest: Seq<u64>| #[trigger] dec_flags8(written(old(out)@, final(out)@) + rest)
            == Some((flags_of(*sc), rest)),
{
    let ghost g0 = out@;
    enc_flag_quad(out, &sc.ctrl, &sc.alt, &sc.shift, &sc.tab);
    let ghost g1 = out@;
    enc_flag_quad(out, &sc.windows, &sc.mouse_l_button, &sc.mouse_r_button, &sc.mouse_m_button);
    let ghost g2 = out@;
    proof {
        lemma_two_words(g0, g1, g2);
        assert forall|rest: Seq<u64>| #[trigger] dec_flags8(written(g0, g2) + rest)
            == Some((flags_of(*sc), rest)) by {
            assert(written(g0, g2) + rest =~= written(g0, g1) + (written(g1, g2) + rest));
            assert(dec_flag_quad(written(g0, g1) + (written(g1, g2) + rest)) == Some(((sc.ctrl, sc.alt, sc.shift, sc.tab), written(g1, g2) + rest)));
            assert(dec_flag_quad(written(g1, g2) + rest) == Some(((sc.windows, sc.mouse_l_button, sc.mouse_r_button, sc.mouse_m_button), rest)));
        }
    }
}


/// Chains the component decoders of one chord.
proof fn lemma_chain_shortcut(
    w1: Seq<u64>,
    w2: Seq<u64>,
    w3: Seq<u64>,
    w4: Seq<u64>,
    w5: Seq<u64>,
    w6: Seq<u64>,
    w7: Seq<u64>,
    sc: ShortCut,
)
    requires
        forall|rest: Seq<u64>| #[trigger] dec_byte(w1 + rest) == Some((sc.key_option, rest)),
        forall|rest: Seq<u64>| #[trigger] dec_opt_key(w2 + rest) == Some((sc.key, rest)),
        forall|rest: Seq<u64>| #[trigger] dec_byte(w3 + rest) == Some(
            (sc.controller_btn_option, rest),
        ),
        forall|rest: Seq<u64>| #[trigger] dec_opt_btn(w4 + rest) == Some(
            (sc.controller_btn, rest),
        ),
        forall|rest: Seq<u64>| #[trigger] dec_flags8(w5 + rest) == Some((flags_of(sc), rest)),
        forall|rest: Seq<u64>| #[trigger] dec_opt_slot(w6 + rest) == Some((sc.trigger_l, rest)),
        forall|rest: Seq<u64>| #[trigger] dec_opt_slot(w7 + rest) == Some((sc.trigger_r, rest)),
    ensures
        forall|rest: Seq<u64>| #[trigger] dec_shortcut(
            (w1 + (w2 + (w3 + (w4 + (w5 + (w6 + w7)))))) + rest,
        ) == Some((sc, rest)),
{
    assert forall|rest: Seq<u64>| #[trigger] dec_shortcut(
        (w1 + (w2 + (w3 + (w4 + (w5 + (w6 + w7)))))) + rest,
    ) == Some((sc, rest)) by {
        assert((w1 + (w2 + (w3 + (w4 + (w5 + (w6 + w7)))))) + rest =~= w1 + ((w2 + (w3 + (w4 + (w5
            + (w6 + w7))))) + rest));
        assert((w2 + (w3 + (w4 + (w5 + (w6 + w7))))) + rest =~= w2 + ((w3 + (w4 + (w5 + (w6 + w7))))
            + rest));
        assert((w3 + (w4 + (w5 + (w6 + w7)))) + rest =~= w3 + ((w4 + (w5 + (w6 + w7))) + rest));
        assert((w4 + (w5 + (w6 + w7))) + rest =~= w4 + ((w5 + (w6 + w7)) + rest));
        assert((w5 + (w6 + w7)) + rest =~= w5 + ((w6 + w7) + rest));
        assert((w6 + w7) + rest =~= w6 + (w7 + rest));
    }
}

/// Appends one chord.
fn enc_shortcut(out: &mut Vec<u64>, sc: &ShortCut)
    requires
        sc.wf(),
    ensures
        enc_ok(old(out)@, final(out)@),
        forall|rest: Seq<u64>| #[trigger] dec_shortcut(written(old(out)@, final(out)@) + rest)
            == Some((*sc, rest)),
{
    let ghost g0 = out@;
    enc_byte(out, sc.key_option);
    let ghost g1 = out@;
    enc_opt_key(out, &sc.key);
    let ghost g2 = out@;
    enc_byte(out, sc.controller_btn_option);
    let ghost g3 = out@;
    enc_opt_btn(out, &sc.controller_btn);
    let ghost g4 = out@;
    enc_flags8(out, sc);
    let ghost g5 = out@;
    enc_opt_slot(out, &sc.trigger_l);
    let ghost g6 = out@;
    enc_opt_slot(out, &sc.trigger_r);
    let ghost g7 = out@;
    proof {
        lemma_two_words(g5, g6, g7);
        lemma_two_words(g4, g5, g7);
        lemma_two_words(g3, g4, g7);
        lemma_two_words(g2, g3, g7);
        lemma_two_words(g1, g2, g7);
        lemma_two_words(g0, g1, g7);
        let w1 = written(g0, g1);
        let w2 = written(g1, g2);
        let w3 = written(g2, g3);
        let w4 = written(g3, g4);
        let w5 = written(g4, g5);
        let w6 = written(g5, g6);
        let w7 = written(g6, g7);
        assert(written(g0, g7) == w1 + (w2 + (w3 + (w4 + (w5 + (w6 + w7))))));
        lemma_chain_shortcut(w1, w2, w3, w4, w5, w6, w7, *sc);
    }
}

/// Appends the chords of a list, without a length in front.
#[verifier::rlimit(100)]
fn enc_shortcut_items(out: &mut Vec<u64>, v: &Vec<ShortCut>)
    requires
        forall|i: int| 0 <= i < v@.len() ==> (#[trigger] v@[i]).wf(),
    ensures
        enc_ok(old(out)@, final(out)@),
        forall|rest: Seq<u64>| #[trigger] dec_shortcut_items(
            written(old(out)@, final(out)@) + rest,
            v@.len(),
        ) == Some((v@, rest)),
{
    let ghost g1 = out@;
    proof {
        lemma_enc_refl(g1);
        assert forall|rest: Seq<u64>| #[trigger] dec_shortcut_items(written(g1, g1) + rest, 0nat)
            == Some((v@.subrange(0, 0int), rest)) by {
            assert(written(g1, g1) + rest =~= rest);
            assert(v@.subrange(0, 0int) =~= Seq::<ShortCut>::empty());
        }
    }
    let mut i: usize = 0;
    while i < v.len()
        invariant
            i <= v@.len(),
            enc_ok(g1, out@),
            forall|j: int| 0 <= j < v@.len() ==> (#[trigger] v@[j]).wf(),
            forall|rest: Seq<u64>| #[trigger] dec_shortcut_items(written(g1, out@) + rest, i as nat)
                == Some((v@.subrange(0, i as int), rest)),
        decreases v@.len() - i,
    {
        let ghost gp = out@;
        enc_shortcut(out, &v[i]);
        proof {
            lemma_two_words(g1, gp, out@);
            assert forall|rest: Seq<u64>| #[trigger] dec_shortcut_items(
                written(g1, out@) + rest,
                (i + 1) as nat,
            ) == Some((v@.subrange(0, i + 1), rest)) by {
                let wi = written(g1, gp);
                let we = written(gp, out@);
                assert((wi + we) + rest =~= wi + (we + rest));
                assert(dec_shortcut_items(wi + (we + rest), i as nat) == Some(
                    (v@.subrange(0, i as int), we + rest),
                ));
                assert(dec_shortcut(we + rest) == Some((v@[i as int], rest)));
                assert(v@.subrange(0, i as int).push(v@[i as int]) =~= v@.subrange(0, i + 1));
            }
        }
        i += 1;
    }
    proof {
        assert(v@.subrange(0, v@.len() as int) =~= v@);
    }
}

/// Appends one binding: its variant, then its chords with a length.
#[verifier::rlimit(100)]
fn enc_binding(out: &mut Vec<u64>, v: &ShortCuts)
    requires
        v.wf(),
    ensures
        enc_ok(old(out)@, final(out)@),
        forall|rest: Seq<u64>| #[trigger] dec_binding(written(old(out)@, final(out)@) + rest)
            == Some((binding_view(*v), rest)),
{
    let list = match v {
        ShortCuts::Contains(list) => list,
        ShortCuts::Exclude(list) => list,
    };
    proof {
        assert(v.chords() == list@);
        assert forall|j: int| 0 <= j < list@.len() implies (#[trigger] list@[j]).wf() by {
            assert(v.chords()[j].wf());
        }
    }
    let exclude = match v {
        ShortCuts::Contains(_) => false,
        ShortCuts::Exclude(_) => true,
    };
    let ghost g0 = out@;
    enc_flag(out, exclude);
    let ghost g1 = out@;
    enc_usize(out, list.len());
    let ghost g2 = out@;
    enc_shortcut_items(out, list);
    let ghost g3 = out@;
    proof {
        lemma_two_words(g1, g2, g3);
        lemma_two_words(g0, g1, g3);
        assert forall|rest: Seq<u64>| #[trigger] dec_binding(written(g0, g3) + rest)
            == Some((binding_view(*v), rest)) by {
            assert(written(g0, g3) + rest =~= written(g0, g1) + (written(g1, g3) + rest));
            assert(dec_flag(written(g0, g1) + (written(g1, g3) + rest)) == Some((v.is_exclude(), written(g1, g3) + rest)));
            assert(written(g1, g3) + rest =~= written(g1, g2) + (written(g2, g3) + rest));
            assert(dec_usize(written(g1, g2) + (written(g2, g3) + rest)) == Some((list@.len() as usize, written(g2, g3) + rest)));
            assert(dec_shortcut_items(written(g2, g3) + rest, list@.len()) == Some((list@, rest)));
        }
    }
}


/// Chains four binding decoders.
proof fn lemma_chain_binding_quad(
    w1: Seq<u64>,
    w2: Seq<u64>,
    w3: Seq<u64>,
    w4: Seq<u64>,
    a: BindingView,
    b: BindingView,
    c: BindingView,
    d: BindingView,
)
    requires
        forall|rest: Seq<u64>| #[trigger] dec_binding(w1 + rest) == Some((a, rest)),
        forall|rest: Seq<u64>| #[trigger] dec_binding(w2 + rest) == Some((b, rest)),
        forall|rest: Seq<u64>| #[trigger] dec_binding(w3 + rest) == Some((c, rest)),
        forall|rest: Seq<u64>| #[trigger] dec_binding(w4 + rest) == Some((d, rest)),
    ensures
        forall|rest: Seq<u64>| #[trigger] dec_binding_quad((w1 + (w2 + (w3 + w4))) + rest) == Some(
            ((a, b, c, d), rest),
        ),
{
    assert forall|rest: Seq<u64>| #[trigger] dec_binding_quad((w1 + (w2 + (w3 + w4))) + rest)
        == Some(((a, b, c, d), rest)) by {
        assert((w1 + (w2 + (w3 + w4))) + rest =~= w1 + ((w2 + (w3 + w4)) + rest));
        assert((w2 + (w3 + w4)) + rest =~= w2 + ((w3 + w4) + rest));
        assert((w3 + w4) + rest =~= w3 + (w4 + rest));
    }
}

/// Appends four bindings.
fn enc_binding_quad(out: &mut Vec<u64>, a: &ShortCuts, b: &ShortCuts, c: &ShortCuts, d: &ShortCuts)
    requires
        a.wf(),
        b.wf(),
        c.wf(),
        d.wf(),
    ensures
        enc_ok(old(out)@, final(out)@),
        forall|rest: Seq<u64>| #[trigger] dec_binding_quad(written(old(out)@, final(out)@) + rest)
            == Some(
            ((binding_view(*a), binding_view(*b), binding_view(*c), binding_view(*d)), rest),
        ),
{
    let ghost g0 = out@;
    enc_binding(out, a);
    let ghost g1 = out@;
    enc_binding(out, b);
    let ghost g2 = out@;
    enc_binding(out, c);
    let ghost g3 = out@;
    enc_binding(out, d);
    let ghost g4 = out@;
    proof {
        lemma_two_words(g2, g3, g4);
        lemma_two_words(g1, g2, g4);
        lemma_two_words(g0, g1, g4);
        let w1 = written(g0, g1);
        let w2 = written(g1, g2);
        let w3 = written(g2, g3);
        let w4 = written(g3, g4);
        assert(written(g0, g4) == w1 + (w2 + (w3 + w4)));
        lemma_chain_binding_quad(
            w1,
            w2,
            w3,
            w4,
            binding_view(*a),
            binding_view(*b),
            binding_view(*c),
            binding_view(*d),
        );
    }
}

/// Appends the eight bindings of a configuration.
#[verifier::rlimit(100)]
fn enc_bindings8(out: &mut Vec<u64>, c: &Config)
    requires
        c.wf(),
    ensures
        enc_ok(old(out)@, final(out)@),
        forall|rest: Seq<u64>| #[trigger] dec_bindings8(written(old(out)@, final(out)@) + rest)
            == Some((bindings_of(*c), rest)),
{
    let ghost g0 = out@;
    enc_binding_quad(out, &c.start_record, &c.append_record, &c.stop_record, &c.start_playback);
    let ghost g1 = out@;
    enc_binding_quad(out, &c.stop_playback, &c.continue_record, &c.drop_record, &c.save_records);
    let ghost g2 = out@;
    proof {
        lemma_two_words(g0, g1, g2);
        assert forall|rest: Seq<u64>| #[trigger] dec_bindings8(written(g0, g2) + rest)
            == Some((bindings_of(*c), rest)) by {
            assert(written(g0, g2) + rest =~= written(g0, g1) + (written(g1, g2) + rest));
            assert(dec_binding_quad(written(g0, g1) + (written(g1, g2) + rest)) == Some(((binding_view(c.start_record), binding_view(c.append_record), binding_view(c.stop_record), binding_view(c.start_playback)), written(g1, g2) + rest)));
            assert(dec_binding_quad(written(g1, g2) + rest) == Some(((binding_view(c.stop_playback), binding_view(c.continue_record), binding_view(c.drop_record), binding_view(c.save_records)), rest)));
        }
    }
}

/// Appends the four device-enable flags.
#[verifier::rlimit(100)]
fn enc_flag_items(out: &mut Vec<u64>, v: &[bool; 4])
    ensures
        enc_ok(old(out)@, final(out)@),
        forall|rest: Seq<u64>| #[trigger] dec_flag_items(written(old(out)@, final(out)@) + rest, 4)
            == Some((v@, rest)),
{
    let ghost g0 = out@;
    enc_flag(out, v[0]);
    let ghost g1 = out@;
    enc_flag(out, v[1]);
    let ghost g2 = out@;
    enc_flag(out, v[2]);
    let ghost g3 = out@;
    enc_flag(out, v[3]);
    let ghost g4 = out@;
    proof {
        lemma_two_words(g2, g3, g4);
        lemma_two_words(g1, g2, g4);
        lemma_two_words(g0, g1, g4);
        assert forall|rest: Seq<u64>| #[trigger] dec_flag_items(written(g0, g4) + rest, 4)
            == Some((v@, rest)) by {
            reveal_with_fuel(dec_flag_items, 5);
            assert(written(g0, g4) + rest =~= written(g0, g1) + (written(g1, g4) + rest));
            assert(dec_flag(written(g0, g1) + (written(g1, g4) + rest)) == Some((v@[0], written(g1, g4) + rest)));
            assert(written(g1, g4) + rest =~= written(g1, g2) + (written(g2, g4) + rest));
            assert(dec_flag(written(g1, g2) + (written(g2, g4) + rest)) == Some((v@[1], written(g2, g4) + rest)));
            assert(written(g2, g4) + rest =~= written(g2, g3) + (written(g3, g4) + rest));
            assert(dec_flag(written(g2, g3) + (written(g3, g4) + rest)) == Some((v@[2], written(g3, g4) + rest)));
            assert(dec_flag(written(g3, g4) + rest) == Some((v@[3], rest)));
            assert(Seq::<bool>::empty().push(v@[0]).push(v@[1]).push(v@[2]).push(v@[3]) =~= v@);
        }
    }
}


/// Chains the component decoders of the configuration.
proof fn lemma_chain_config(
    w1: Seq<u64>,
    w2: Seq<u64>,
    w3: Seq<u64>,
    w4: Seq<u64>,
    w5: Seq<u64>,
    c: Config,
)
    requires
        forall|rest: Seq<u64>| #[trigger] dec_word(w1 + rest) == Some((c.interval, rest)),
        forall|rest: Seq<u64>| #[trigger] dec_flag(w2 + rest) == Some((c.enable_mouse, rest)),
        forall|rest: Seq<u64>| #[trigger] dec_flag(w3 + rest) == Some((c.enable_keyboard, rest)),
        forall|rest: Seq<u64>| #[trigger] dec_flag_items(w4 + rest, 4) == Some(
            (c.enable_controller@, rest),
        ),
        forall|rest: Seq<u64>| #[trigger] dec_bindings8(w5 + rest) == Some((bindings_of(c), rest)),
    ensures
        forall|rest: Seq<u64>| #[trigger] dec_config((w1 + (w2 + (w3 + (w4 + w5)))) + rest) == Some(
            (config_view(c), rest),
        ),
{
    assert forall|rest: Seq<u64>| #[trigger] dec_config((w1 + (w2 + (w3 + (w4 + w5)))) + rest)
        == Some((config_view(c), rest)) by {
        assert((w1 + (w2 + (w3 + (w4 + w5)))) + rest =~= w1 + ((w2 + (w3 + (w4 + w5))) + rest));
        assert((w2 + (w3 + (w4 + w5))) + rest =~= w2 + ((w3 + (w4 + w5)) + rest));
        assert((w3 + (w4 + w5)) + rest =~= w3 + ((w4 + w5) + rest));
        assert((w4 + w5) + rest =~= w4 + (w5 + rest));
    }
}

/// Appends the configuration.
fn enc_config(out: &mut Vec<u64>, c: &Config)
    requires
        c.wf(),
    ensures
        enc_ok(old(out)@, final(out)@),
        forall|rest: Seq<u64>| #[trigger] dec_config(written(old(out)@, final(out)@) + rest)
            == Some((config_view(*c), rest)),
{
    let ghost g0 = out@;
    enc_word(out, c.interval);
    let ghost g1 = out@;
    enc_flag(out, c.enable_mouse);
    let ghost g2 = out@;
    enc_flag(out, c.enable_keyboard);
    let ghost g3 = out@;
    enc_flag_items(out, &c.enable_controller);
    let ghost g4 = out@;
    enc_bindings8(out, c);
    let ghost g5 = out@;
    proof {
        lemma_two_words(g3, g4, g5);
        lemma_two_words(g2, g3, g5);
        lemma_two_words(g1, g2, g5);
        lemma_two_words(g0, g1, g5);
        let w1 = written(g0, g1);
        let w2 = written(g1, g2);
        let w3 = written(g2, g3);
        let w4 = written(g3, g4);
        let w5 = written(g4, g5);
        assert(written(g0, g5) == w1 + (w2 + (w3 + (w4 + w5))));
        lemma_chain_config(w1, w2, w3, w4, w5, *c);
    }
}

/// Appends the record list with its length in front.
#[verifier::rlimit(100)]
fn enc_records(out: &mut Vec<u64>, v: &Vec<crate::record::RecordEntry>)
    ensures
        enc_ok(old(out)@, final(out)@),
        forall|rest: Seq<u64>| #[trigger] dec_records(written(old(out)@, final(out)@) + rest)
            == Some((crate::record::records_view(v@), rest)),
{
    let ghost g0 = out@;
    enc_usize(out, v.len());
    let ghost g1 = out@;
    proof {
        lemma_enc_refl(g1);
        assert forall|rest: Seq<u64>| #[trigger] dec_entry_items(written(g1, g1) + rest, 0nat)
            == Some((crate::record::records_view(v@.subrange(0, 0int)), rest)) by {
            assert(written(g1, g1) + rest =~= rest);
            assert(crate::record::records_view(v@.subrange(0, 0int))
                =~= Seq::<RecordEntryView>::empty());
        }
    }
    let mut i: usize = 0;
    while i < v.len()
        invariant
            i <= v@.len(),
            enc_ok(g1, out@),
            forall|rest: Seq<u64>| #[trigger] dec_entry_items(written(g1, out@) + rest, i as nat)
                == Some((crate::record::records_view(v@.subrange(0, i as int)), rest)),
        decreases v@.len() - i,
    {
        let ghost gp = out@;
        enc_entry(out, &v[i]);
        proof {
            lemma_two_words(g1, gp, out@);
            assert forall|rest: Seq<u64>| #[trigger] dec_entry_items(
                written(g1, out@) + rest,
                (i + 1) as nat,
            ) == Some((crate::record::records_view(v@.subrange(0, i + 1)), rest)) by {
                let wi = written(g1, gp);
                let we = written(gp, out@);
                assert((wi + we) + rest =~= wi + (we + rest));
                assert(dec_entry_items(wi + (we + rest), i as nat) == Some(
                    (crate::record::records_view(v@.subrange(0, i as int)), we + rest),
                ));
                assert(dec_entry(we + rest) == Some((v@[i as int]@, rest)));
                assert(crate::record::records_view(v@.subrange(0, i as int)).push(v@[i as int]@)
                    =~= crate::record::records_view(v@.subrange(0, i + 1)));
            }
        }
        i += 1;
    }
    proof {
        lemma_two_words(g0, g1, out@);
        assert(v@.subrange(0, v@.len() as int) =~= v@);
        assert forall|rest: Seq<u64>| #[trigger] dec_records(written(g0, out@) + rest) == Some(
            (crate::record::records_view(v@), rest),
        ) by {
            let wl = written(g0, g1);
            let wi = written(g1, out@);
            assert((wl + wi) + rest =~= wl + (wi + rest));
            assert(dec_usize(wl + (wi + rest)) == Some((v@.len() as usize, wi + rest)));
            assert(crate::record::records_view(v@.subrange(0, v@.len() as int))
                =~= crate::record::records_view(v@));
        }
    }
}


/// Chains the three component decoders of a session.
proof fn lemma_chain_session(w1: Seq<u64>, w2: Seq<u64>, w3: Seq<u64>, r: Recorder)
    requires
        forall|rest: Seq<u64>| #[trigger] dec_config(w1 + rest) == Some(
            (config_view(r.config), rest),
        ),
        forall|rest: Seq<u64>| #[trigger] dec_snapshot(w2 + rest) == Some(
            (snapshot_view(r.init_state), rest),
        ),
        forall|rest: Seq<u64>| #[trigger] dec_records(w3 + rest) == Some(
            (crate::record::records_view(r.records@), rest),
        ),
    ensures
        forall|rest: Seq<u64>| #[trigger] dec_session((w1 + (w2 + w3)) + rest) == Some(
            (session_view(r), rest),
        ),
{
    assert forall|rest: Seq<u64>| #[trigger] dec_session((w1 + (w2 + w3)) + rest) == Some(
        (session_view(r), rest),
    ) by {
        assert((w1 + (w2 + w3)) + rest =~= w1 + ((w2 + w3) + rest));
        assert((w2 + w3) + rest =~= w2 + (w3 + rest));
    }
}

/// Writes a whole session to words.  Decoding the written words yields
/// the session's configuration, aggregator snapshot and record list back
/// exactly, with nothing left over: saving and then loading a session
/// round-trips it.
pub fn encode_session(session: &Recorder) -> (words: Vec<u64>)
    requires
        session.wf(),
    ensures
        forall|rest: Seq<u64>| #[trigger] dec_session(words@ + rest) == Some(
            (session_view(*session), rest),
        ),
        dec_session(words@) == Some((session_view(*session), Seq::<u64>::empty())),
{
    let mut out: Vec<u64> = Vec::new();
    let ghost g0 = out@;
    enc_config(&mut out, &session.config);
    let ghost g1 = out@;
    enc_snapshot(&mut out, &session.init_state);
    let ghost g2 = out@;
    enc_records(&mut out, &session.records);
    let ghost g3 = out@;
    proof {
        lemma_two_words(g1, g2, g3);
        lemma_two_words(g0, g1, g3);
        let w1 = written(g0, g1);
        let w2 = written(g1, g2);
        let w3 = written(g2, g3);
        assert(written(g0, g3) == w1 + (w2 + w3));
        lemma_chain_session(w1, w2, w3, *session);
        assert(out@ =~= written(g0, g3));
        assert(out@ + Seq::<u64>::empty() =~= out@);
        assert(dec_session(out@ + Seq::<u64>::empty()) == Some(
            (session_view(*session), Seq::<u64>::empty()),
        ));
    }
    out
}

/// Once decoding a run of items has failed, asking for more items
/// fails too.
proof fn dec_anykey_items_none(s: Seq<u64>, n0: nat, n: nat)
    requires
        n0 <= n,
        dec_anykey_items(s, n0) is None,
    ensures
        dec_anykey_items(s, n) is None,
    decreases n,
{
    if n > n0 {
        dec_anykey_items_none(s, n0, (n - 1) as nat);
    }
}

/// Once decoding a run of items has failed, asking for more items
/// fails too.
proof fn dec_anyoffset_items_none(s: Seq<u64>, n0: nat, n: nat)
    requires
        n0 <= n,
        dec_anyoffset_items(s, n0) is None,
    ensures
        dec_anyoffset_items(s, n) is None,
    decreases n,
{
    if n > n0 {
        dec_anyoffset_items_none(s, n0, (n - 1) as nat);
    }
}

/// Once decoding a run of items has failed, asking for more items
/// fails too.
proof fn dec_shortcut_items_none(s: Seq<u64>, n0: nat, n: nat)
    requires
        n0 <= n,
        dec_shortcut_items(s, n0) is None,
    ensures
        dec_shortcut_items(s, n) is None,
    decreases n,
{
    if n > n0 {
        dec_shortcut_items_none(s, n0, (n - 1) as nat);
    }
}

/// Once decoding a run of items has failed, asking for more items
/// fails too.
proof fn dec_entry_items_none(s: Seq<u64>, n0: nat, n: nat)
    requires
        n0 <= n,
        dec_entry_items(s, n0) is None,
    ensures
        dec_entry_items(s, n) is None,
    decreases n,
{
    if n > n0 {
        dec_entry_items_none(s, n0, (n - 1) as nat);
    }
}

/// Once decoding a run of items has failed, asking for more items
/// fails too.
proof fn dec_flag_items_none(s: Seq<u64>, n0: nat, n: nat)
    requires
        n0 <= n,
        dec_flag_items(s, n0) is None,
    ensures
        dec_flag_items(s, n) is None,
    decreases n,
{
    if n > n0 {
        dec_flag_items_none(s, n0, (n - 1) as nat);
    }
}

/// Once decoding a run of items has failed, asking for more items
/// fails too.
proof fn dec_byte_pairs_none(s: Seq<u64>, n0: nat, n: nat)
    requires
        n0 <= n,
        dec_byte_pairs(s, n0) is None,
    ensures
        dec_byte_pairs(s, n) is None,
    decreases n,
{
    if n > n0 {
        dec_byte_pairs_none(s, n0, (n - 1) as nat);
    }
}

/// Once decoding a run of items has failed, asking for more items
/// fails too.
proof fn dec_i16_pairs_none(s: Seq<u64>, n0: nat, n: nat)
    requires
        n0 <= n,
        dec_i16_pairs(s, n0) is None,
    ensures
        dec_i16_pairs(s, n) is None,
    decreases n,
{
    if n > n0 {
        dec_i16_pairs_none(s, n0, (n - 1) as nat);
    }
}

/// Reads one word at `pos`.
fn read_word(words: &Vec<u64>, pos: usize) -> (r: Option<(u64, usize)>)
    requires
        pos <= words@.len(),
    ensures
        (match r {
            Some(vp) => pos <= vp.1 <= words@.len() && dec_word(words@.skip(pos as int)) == Some(
                (vp.0, words@.skip(vp.1 as int)),
            ),
            None => dec_word(words@.skip(pos as int)) is None,
        }),
{
    if pos < words.len() {
        let v = words[pos];
        proof {
            assert(words@.skip(pos as int).skip(1) =~= words@.skip(pos as int + 1));
        }
        Some((v, pos + 1))
    } else {
        proof {
            assert(words@.skip(pos as int).len() == 0);
        }
        None
    }
}

/// Reads a flag.
fn read_flag(words: &Vec<u64>, pos: usize) -> (r: Option<(bool, usize)>)
    requires
        pos <= words@.len(),
    ensures
        (match r {
            Some(vp) => pos <= vp.1 <= words@.len() && dec_flag(words@.skip(pos as int)) == Some(
                (vp.0, words@.skip(vp.1 as int)),
            ),
            None => dec_flag(words@.skip(pos as int)) is None,
        }),
{
    match read_word(words, pos) {
        Some((w, p)) => Some((w != 0, p)),
        None => None,
    }
}

/// Reads a byte-sized word.
fn read_byte(words: &Vec<u64>, pos: usize) -> (r: Option<(u8, usize)>)
    requires
        pos <= words@.len(),
    ensures
        (match r {
            Some(vp) => pos <= vp.1 <= words@.len() && dec_byte(words@.skip(pos as int)) == Some(
                (vp.0, words@.skip(vp.1 as int)),
            ),
            None => dec_byte(words@.skip(pos as int)) is None,
        }),
{
    match read_word(words, pos) {
        Some((w, p)) => if w <= 255 {
            Some((w as u8, p))
        } else {
            None
        },
        None => None,
    }
}

/// Reads a 32-bit word.
fn read_u32(words: &Vec<u64>, pos: usize) -> (r: Option<(u32, usize)>)
    requires
        pos <= words@.len(),
    ensures
        (match r {
            Some(vp) => pos <= vp.1 <= words@.len() && dec_u32(words@.skip(pos as int)) == Some(
                (vp.0, words@.skip(vp.1 as int)),
            ),
            None => dec_u32(words@.skip(pos as int)) is None,
        }),
{
    match read_word(words, pos) {
        Some((w, p)) => if w <= u32::MAX as u64 {
            Some((w as u32, p))
        } else {
            None
        },
        None => None,
    }
}

/// Reads a machine-sized word.
fn read_usize(words: &Vec<u64>, pos: usize) -> (r: Option<(usize, usize)>)
    requires
        pos <= words@.len(),
    ensures
        (match r {
            Some(vp) => pos <= vp.1 <= words@.len() && dec_usize(words@.skip(pos as int)) == Some(
                (vp.0, words@.skip(vp.1 as int)),
            ),
            None => dec_usize(words@.skip(pos as int)) is None,
        }),
{
    match read_word(words, pos) {
        Some((w, p)) => if w <= usize::MAX as u64 {
            Some((w as usize, p))
        } else {
            None
        },
        None => None,
    }
}

/// Reads a signed 64-bit value.
fn read_i64(words: &Vec<u64>, pos: usize) -> (r: Option<(i64, usize)>)
    requires
        pos <= words@.len(),
    ensures
        (match r {
            Some(vp) => pos <= vp.1 <= words@.len() && dec_i64(words@.skip(pos as int)) == Some(
                (vp.0, words@.skip(vp.1 as int)),
            ),
            None => dec_i64(words@.skip(pos as int)) is None,
        }),
{
    match read_word(words, pos) {
        Some((tag, p1)) => match read_word(words, p1) {
            Some((m, p2)) => if m <= i64::MAX as u64 {
                if tag == 0 {
                    Some((m as i64, p2))
                } else if tag == 1 {
                    Some((-(m as i64) - 1, p2))
                } else {
                    None
                }
            } else {
                None
            },
            None => None,
        },
        None => None,
    }
}

/// Reads a signed 16-bit value.
fn read_i16(words: &Vec<u64>, pos: usize) -> (r: Option<(i16, usize)>)
    requires
        pos <= words@.len(),
    ensures
        (match r {
            Some(vp) => pos <= vp.1 <= words@.len() && dec_i16(words@.skip(pos as int)) == Some(
                (vp.0, words@.skip(vp.1 as int)),
            ),
            None => dec_i16(words@.skip(pos as int)) is None,
        }),
{
    match read_word(words, pos) {
        Some((w, p)) => if w <= 65535 {
            Some(((w as i64 - 32768) as i16, p))
        } else {
            None
        },
        None => None,
    }
}

/// Reads a three-valued flag.
fn read_opt_flag(words: &Vec<u64>, pos: usize) -> (r: Option<(Option<bool>, usize)>)
    requires
        pos <= words@.len(),
    ensures
        (match r {
            Some(vp) => pos <= vp.1 <= words@.len() && dec_opt_flag(words@.skip(pos as int))
                == Some((vp.0, words@.skip(vp.1 as int))),
            None => dec_opt_flag(words@.skip(pos as int)) is None,
        }),
{
    match read_word(words, pos) {
        Some((w, p)) => if w == 0 {
            Some((None, p))
        } else if w == 1 {
            Some((Some(false), p))
        } else if w == 2 {
            Some((Some(true), p))
        } else {
            None
        },
        None => None,
    }
}

/// Reads an optional 32-bit value.
fn read_opt_u32(words: &Vec<u64>, pos: usize) -> (r: Option<(Option<u32>, usize)>)
    requires
        pos <= words@.len(),
    ensures
        (match r {
            Some(vp) => pos <= vp.1 <= words@.len() && dec_opt_u32(words@.skip(pos as int))
                == Some((vp.0, words@.skip(vp.1 as int))),
            None => dec_opt_u32(words@.skip(pos as int)) is None,
        }),
{
    match read_word(words, pos) {
        Some((tag, p)) => if tag == 0 {
            Some((None, p))
        } else if tag == 1 {
            match read_u32(words, p) {
                Some((v, p2)) => Some((Some(v), p2)),
                None => None,
            }
        } else {
            None
        },
        None => None,
    }
}

/// Reads an optional trigger slot.
fn read_opt_slot(words: &Vec<u64>, pos: usize) -> (r: Option<(Option<u32>, usize)>)
    requires
        pos <= words@.len(),
    ensures
        (match r {
            Some(vp) => pos <= vp.1 <= words@.len() && dec_opt_slot(words@.skip(pos as int))
                == Some((vp.0, words@.skip(vp.1 as int))) && (vp.0 is Some ==> vp.0->0 < 4),
            None => dec_opt_slot(words@.skip(pos as int)) is None,
        }),
{
    match read_opt_u32(words, pos) {
        Some((v, p)) => match v {
            Some(slot) => if slot < 4 {
                Some((Some(slot), p))
            } else {
                None
            },
            None => Some((None, p)),
        },
        None => None,
    }
}

/// Reads an optional key code.
fn read_opt_key(words: &Vec<u64>, pos: usize) -> (r: Option<(Option<Key>, usize)>)
    requires
        pos <= words@.len(),
    ensures
        (match r {
            Some(vp) => pos <= vp.1 <= words@.len() && dec_opt_key(words@.skip(pos as int))
                == Some((vp.0, words@.skip(vp.1 as int))),
            None => dec_opt_key(words@.skip(pos as int)) is None,
        }),
{
    match read_word(words, pos) {
        Some((tag, p)) => if tag == 0 {
            Some((None, p))
        } else if tag == 1 {
            match read_u32(words, p) {
                Some((v, p2)) => Some((Some(Key(v)), p2)),
                None => None,
            }
        } else {
            None
        },
        None => None,
    }
}

/// Reads an optional controller button.
fn read_opt_btn(words: &Vec<u64>, pos: usize) -> (r: Option<(Option<(u32, usize)>, usize)>)
    requires
        pos <= words@.len(),
    ensures
        (match r {
            Some(vp) => pos <= vp.1 <= words@.len() && dec_opt_btn(words@.skip(pos as int))
                == Some((vp.0, words@.skip(vp.1 as int))),
            None => dec_opt_btn(words@.skip(pos as int)) is None,
        }),
{
    match read_word(words, pos) {
        Some((tag, p)) => if tag == 0 {
            Some((None, p))
        } else if tag == 1 {
            match read_u32(words, p) {
                Some((id, p2)) => match read_usize(words, p2) {
                    Some((ix, p3)) => Some((Some((id, ix)), p3)),
                    None => None,
                },
                None => None,
            }
        } else {
            None
        },
        None => None,
    }
}

/// Reads one pressable input.
fn read_anykey(words: &Vec<u64>, pos: usize) -> (r: Option<(AnyKey, usize)>)
    requires
        pos <= words@.len(),
    ensures
        (match r {
            Some(vp) => pos <= vp.1 <= words@.len() && dec_anykey(words@.skip(pos as int))
                == Some((vp.0, words@.skip(vp.1 as int))),
            None => dec_anykey(words@.skip(pos as int)) is None,
        }),
{
    match read_word(words, pos) {
        Some((tag, p)) => if tag == 0 {
            match read_u32(words, p) {
                Some((code, p2)) => Some((AnyKey::Keyboard(Key(code)), p2)),
                None => None,
            }
        } else if tag == 1 {
            match read_u32(words, p) {
                Some((b, p2)) => Some((AnyKey::MouseButton(b), p2)),
                None => None,
            }
        } else if tag == 2 {
            match read_u32(words, p) {
                Some((id, p2)) => match read_usize(words, p2) {
                    Some((ix, p3)) => Some((AnyKey::Controller(id, ix), p3)),
                    None => None,
                },
                None => None,
            }
        } else {
            None
        },
        None => None,
    }
}

/// Reads one axis movement.
fn read_anyoffset(words: &Vec<u64>, pos: usize) -> (r: Option<(AnyOffset, usize)>)
    requires
        pos <= words@.len(),
    ensures
        (match r {
            Some(vp) => pos <= vp.1 <= words@.len() && dec_anyoffset(words@.skip(pos as int))
                == Some((vp.0, words@.skip(vp.1 as int))),
            None => dec_anyoffset(words@.skip(pos as int)) is None,
        }),
{
    match read_word(words, pos) {
        Some((tag, p)) => if tag == 0 {
            match read_i64(words, p) {
                Some((x, p2)) => match read_i64(words, p2) {
                    Some((y, p3)) => Some((AnyOffset::Mouse(x, y), p3)),
                    None => None,
                },
                None => None,
            }
        } else if tag == 1 {
            match read_i64(words, p) {
                Some((x, p2)) => match read_i64(words, p2) {
                    Some((y, p3)) => Some((AnyOffset::Wheel(x, y), p3)),
                    None => None,
                },
                None => None,
            }
        } else if tag == 2 {
            match read_u32(words, p) {
                Some((slot, p2)) => match read_byte(words, p2) {
                    Some((l, p3)) => match read_byte(words, p3) {
                        Some((rr, p4)) => Some((AnyOffset::Trigger(slot, l, rr), p4)),
                        None => None,
                    },
                    None => None,
                },
                None => None,
            }
        } else if tag == 3 {
            match read_u32(words, p) {
                Some((slot, p2)) => match read_i16(words, p2) {
                    Some((x, p3)) => match read_i16(words, p3) {
                        Some((y, p4)) => Some((AnyOffset::LeftStick(slot, x, y), p4)),
                        None => None,
                    },
                    None => None,
                },
                None => None,
            }
        } else if tag == 4 {
            match read_u32(words, p) {
                Some((slot, p2)) => match read_i16(words, p2) {
                    Some((x, p3)) => match read_i16(words, p3) {
                        Some((y, p4)) => Some((AnyOffset::RightStick(slot, x, y), p4)),
                        None => None,
                    },
                    None => None,
                },
                None => None,
            }
        } else {
            None
        },
        None => None,
    }
}

/// Reads a key list.
fn read_keys(words: &Vec<u64>, pos: usize) -> (r: Option<(Vec<AnyKey>, usize)>)
    requires
        pos <= words@.len(),
    ensures
        (match r {
            Some(vp) => pos <= vp.1 <= words@.len() && dec_keys(words@.skip(pos as int)) == Some(
                (vp.0@, words@.skip(vp.1 as int)),
            ),
            None => dec_keys(words@.skip(pos as int)) is None,
        }),
{
    match read_usize(words, pos) {
        Some((n, start)) => {
            let mut acc: Vec<AnyKey> = Vec::new();
            let mut cur: usize = start;
            let mut i: usize = 0;
            while i < n
                invariant
                    i <= n,
                    pos <= words@.len(),
                    dec_usize(words@.skip(pos as int)) == Some(
                        (n, words@.skip(start as int)),
                    ),
                    start <= cur <= words@.len(),
                    dec_anykey_items(words@.skip(start as int), i as nat) == Some(
                        (acc@, words@.skip(cur as int)),
                    ),
                decreases n - i,
            {
                match read_anykey(words, cur) {
                    Some((k, next)) => {
                        acc.push(k);
                        cur = next;
                        i += 1;
                    },
                    None => {
                        proof {
                            assert(dec_anykey_items(words@.skip(start as int), (i + 1) as nat)
                                is None);
                            dec_anykey_items_none(
                                words@.skip(start as int),
                                (i + 1) as nat,
                                n as nat,
                            );
                        }
                        return None;
                    },
                }
            }
            Some((acc, cur))
        },
        None => None,
    }
}

/// Reads a movement list.
fn read_moves(words: &Vec<u64>, pos: usize) -> (r: Option<(Vec<AnyOffset>, usize)>)
    requires
        pos <= words@.len(),
    ensures
        (match r {
            Some(vp) => pos <= vp.1 <= words@.len() && dec_moves(words@.skip(pos as int)) == Some(
                (vp.0@, words@.skip(vp.1 as int)),
            ),
            None => dec_moves(words@.skip(pos as int)) is None,
        }),
{
    match read_usize(words, pos) {
        Some((n, start)) => {
            let mut acc: Vec<AnyOffset> = Vec::new();
            let mut cur: usize = start;
            let mut i: usize = 0;
            while i < n
                invariant
                    i <= n,
                    pos <= words@.len(),
                    dec_usize(words@.skip(pos as int)) == Some(
                        (n, words@.skip(start as int)),
                    ),
                    start <= cur <= words@.len(),
                    dec_anyoffset_items(words@.skip(start as int), i as nat) == Some(
                        (acc@, words@.skip(cur as int)),
                    ),
                decreases n - i,
            {
                match read_anyoffset(words, cur) {
                    Some((k, next)) => {
                        acc.push(k);
                        cur = next;
                        i += 1;
                    },
                    None => {
                        proof {
                            assert(dec_anyoffset_items(words@.skip(start as int), (i + 1) as nat)
                                is None);
                            dec_anyoffset_items_none(
                                words@.skip(start as int),
                                (i + 1) as nat,
                                n as nat,
                            );
                        }
                        return None;
                    },
                }
            }
            Some((acc, cur))
        },
        None => None,
    }
}

/// Reads four pairs of trigger bytes.
fn read_byte_pairs4(words: &Vec<u64>, pos: usize) -> (r: Option<(Vec<(u8, u8)>, usize)>)
    requires
        pos <= words@.len(),
    ensures
        (match r {
            Some(vp) => pos <= vp.1 <= words@.len() && vp.0@.len() == 4 && dec_byte_pairs(
                words@.skip(pos as int),
                4,
            ) == Some((vp.0@, words@.skip(vp.1 as int))),
            None => dec_byte_pairs(words@.skip(pos as int), 4) is None,
        }),
{
    let mut acc: Vec<(u8, u8)> = Vec::new();
    let mut cur: usize = pos;
    let mut i: usize = 0;
    while i < 4
        invariant
            i <= 4,
            pos <= cur <= words@.len(),
            acc@.len() == i,
            dec_byte_pairs(words@.skip(pos as int), i as nat) == Some(
                (acc@, words@.skip(cur as int)),
            ),
        decreases 4 - i,
    {
        match read_byte(words, cur) {
            Some((a, p1)) => match read_byte(words, p1) {
                Some((b, p2)) => {
                    acc.push((a, b));
                    cur = p2;
                    i += 1;
                },
                None => {
                    proof {
                        assert(dec_byte_pairs(words@.skip(pos as int), (i + 1) as nat) is None);
                        dec_byte_pairs_none(words@.skip(pos as int), (i + 1) as nat, 4);
                    }
                    return None;
                },
            },
            None => {
                proof {
                    assert(dec_byte_pairs(words@.skip(pos as int), (i + 1) as nat) is None);
                    dec_byte_pairs_none(words@.skip(pos as int), (i + 1) as nat, 4);
                }
                return None;
            },
        }
    }
    Some((acc, cur))
}

/// Reads four pairs of stick axes.
fn read_i16_pairs4(words: &Vec<u64>, pos: usize) -> (r: Option<(Vec<(i16, i16)>, usize)>)
    requires
        pos <= words@.len(),
    ensures
        (match r {
            Some(vp) => pos <= vp.1 <= words@.len() && vp.0@.len() == 4 && dec_i16_pairs(
                words@.skip(pos as int),
                4,
            ) == Some((vp.0@, words@.skip(vp.1 as int))),
            None => dec_i16_pairs(words@.skip(pos as int), 4) is None,
        }),
{
    let mut acc: Vec<(i16, i16)> = Vec::new();
    let mut cur: usize = pos;
    let mut i: usize = 0;
    while i < 4
        invariant
            i <= 4,
            pos <= cur <= words@.len(),
            acc@.len() == i,
            dec_i16_pairs(words@.skip(pos as int), i as nat) == Some(
                (acc@, words@.skip(cur as int)),
            ),
        decreases 4 - i,
    {
        match read_i16(words, cur) {
            Some((a, p1)) => match read_i16(words, p1) {
                Some((b, p2)) => {
                    acc.push((a, b));
                    cur = p2;
                    i += 1;
                },
                None => {
                    proof {
                        assert(dec_i16_pairs(words@.skip(pos as int), (i + 1) as nat) is None);
                        dec_i16_pairs_none(words@.skip(pos as int), (i + 1) as nat, 4);
                    }
                    return None;
                },
            },
            None => {
                proof {
                    assert(dec_i16_pairs(words@.skip(pos as int), (i + 1) as nat) is None);
                    dec_i16_pairs_none(words@.skip(pos as int), (i + 1) as nat, 4);
                }
                return None;
            },
        }
    }
    Some((acc, cur))
}

/// Reads the last-known axis values.
fn read_offsets(words: &Vec<u64>, pos: usize) -> (r: Option<(crate::offsets::AllOffsets, usize)>)
    requires
        pos <= words@.len(),
    ensures
        (match r {
            Some(vp) => pos <= vp.1 <= words@.len() && vp.0.wf() && dec_offsets(
                words@.skip(pos as int),
            ) == Some((vp.0@, words@.skip(vp.1 as int))),
            None => dec_offsets(words@.skip(pos as int)) is None,
        }),
{
    match read_i64(words, pos) {
        Some((mx, p1)) => match read_i64(words, p1) {
            Some((my, p2)) => match read_i64(words, p2) {
                Some((wx, p3)) => match read_i64(words, p3) {
                    Some((wy, p4)) => match read_byte_pairs4(words, p4) {
                        Some((tr, p5)) => match read_i16_pairs4(words, p5) {
                            Some((ls, p6)) => match read_i16_pairs4(words, p6) {
                                Some((rs, p7)) => Some(
                                    (
                                        crate::offsets::AllOffsets {
                                            mouse: (mx, my),
                                            wheel: (wx, wy),
                                            trigger: tr,
                                            left_stick: ls,
                                            right_stick: rs,
                                        },
                                        p7,
                                    ),
                                ),
                                None => None,
                            },
                            None => None,
                        },
                        None => None,
                    },
                    None => None,
                },
                None => None,
            },
            None => None,
        },
        None => None,
    }
}

/// Reads an aggregator snapshot into a fresh aggregator whose transient
/// buffers are empty.
fn read_snapshot(words: &Vec<u64>, pos: usize) -> (r: Option<(GlobalState, usize)>)
    requires
        pos <= words@.len(),
    ensures
        (match r {
            Some(vp) => pos <= vp.1 <= words@.len() && vp.0.offsets.wf() && dec_snapshot(
                words@.skip(pos as int),
            ) == Some((snapshot_view(vp.0), words@.skip(vp.1 as int)))
                && vp.0.pending_pressed() == Seq::<AnyKey>::empty() && vp.0.pending_released()
                == Seq::<AnyKey>::empty() && vp.0.pending_moves() == Seq::<AnyOffset>::empty()
                && vp.0.rec_start() == 0,
            None => dec_snapshot(words@.skip(pos as int)) is None,
        }),
{
    match read_word(words, pos) {
        Some((t, p1)) => match read_keys(words, p1) {
            Some((ks, p2)) => match read_offsets(words, p2) {
                Some((os, p3)) => Some(
                    (
                        GlobalState {
                            time_ms: t,
                            pressed_keys: ks,
                            offsets: os,
                            rec_pressed: Vec::new(),
                            rec_released: Vec::new(),
                            rec_moves: Vec::new(),
                            rec_start_ms: 0,
                        },
                        p3,
                    ),
                ),
                None => None,
            },
            None => None,
        },
        None => None,
    }
}

/// Reads one recorded tick.
fn read_entry(words: &Vec<u64>, pos: usize) -> (r: Option<(crate::record::RecordEntry, usize)>)
    requires
        pos <= words@.len(),
    ensures
        (match r {
            Some(vp) => pos <= vp.1 <= words@.len() && dec_entry(words@.skip(pos as int)) == Some(
                (vp.0@, words@.skip(vp.1 as int)),
            ),
            None => dec_entry(words@.skip(pos as int)) is None,
        }),
{
    match read_word(words, pos) {
        Some((t, p1)) => match read_keys(words, p1) {
            Some((ps, p2)) => match read_keys(words, p2) {
                Some((rs, p3)) => match read_moves(words, p3) {
                    Some((ms, p4)) => Some(
                        (
                            crate::record::RecordEntry {
                                ms: t,
                                pressed: ps,
                                released: rs,
                                moves: ms,
                            },
                            p4,
                        ),
                    ),
                    None => None,
                },
                None => None,
            },
            None => None,
        },
        None => None,
    }
}

/// Reads the record list.
fn read_records(words: &Vec<u64>, pos: usize) -> (r: Option<
    (Vec<crate::record::RecordEntry>, usize),
>)
    requires
        pos <= words@.len(),
    ensures
        (match r {
            Some(vp) => pos <= vp.1 <= words@.len() && dec_records(words@.skip(pos as int))
                == Some((crate::record::records_view(vp.0@), words@.skip(vp.1 as int))),
            None => dec_records(words@.skip(pos as int)) is None,
        }),
{
    match read_usize(words, pos) {
        Some((n, start)) => {
            let mut acc: Vec<crate::record::RecordEntry> = Vec::new();
            let mut cur: usize = start;
            let mut i: usize = 0;
            while i < n
                invariant
                    i <= n,
                    pos <= words@.len(),
                    dec_usize(words@.skip(pos as int)) == Some(
                        (n, words@.skip(start as int)),
                    ),
                    start <= cur <= words@.len(),
                    dec_entry_items(words@.skip(start as int), i as nat) == Some(
                        (crate::record::records_view(acc@), words@.skip(cur as int)),
                    ),
                decreases n - i,
            {
                match read_entry(words, cur) {
                    Some((e, next)) => {
                        let ghost before = acc@;
                        let ghost ev = e@;
                        acc.push(e);
                        proof {
                            assert(crate::record::records_view(acc@)
                                =~= crate::record::records_view(before).push(ev));
                        }
                        cur = next;
                        i += 1;
                    },
                    None => {
                        proof {
                            assert(dec_entry_items(words@.skip(start as int), (i + 1) as nat)
                                is None);
                            dec_entry_items_none(
                                words@.skip(start as int),
                                (i + 1) as nat,
                                n as nat,
                            );
                        }
                        return None;
                    },
                }
            }
            Some((acc, cur))
        },
        None => None,
    }
}

/// Reads one chord.
#[verifier::rlimit(100)]
fn read_shortcut(words: &Vec<u64>, pos: usize) -> (r: Option<(ShortCut, usize)>)
    requires
        pos <= words@.len(),
    ensures
        (match r {
            Some(vp) => pos <= vp.1 <= words@.len() && vp.0.wf() && dec_shortcut(
                words@.skip(pos as int),
            ) == Some((vp.0, words@.skip(vp.1 as int))),
            None => dec_shortcut(words@.skip(pos as int)) is None,
        }),
{
    let r1 = read_byte(words, pos);
    if r1.is_none() {
        return None;
    }
    let (ko, p1) = r1.unwrap();
    let r2 = read_opt_key(words, p1);
    if r2.is_none() {
        return None;
    }
    let (k, p2) = r2.unwrap();
    let r3 = read_byte(words, p2);
    if r3.is_none() {
        return None;
    }
    let (co, p3) = r3.unwrap();
    let r4 = read_opt_btn(words, p3);
    if r4.is_none() {
        return None;
    }
    let (cb, p4) = r4.unwrap();
    let r5 = read_opt_flag(words, p4);
    if r5.is_none() {
        return None;
    }
    let (ctrl, p5) = r5.unwrap();
    let r6 = read_opt_flag(words, p5);
    if r6.is_none() {
        return None;
    }
    let (alt, p6) = r6.unwrap();
    let r7 = read_opt_flag(words, p6);
    if r7.is_none() {
        return None;
    }
    let (shift, p7) = r7.unwrap();
    let r8 = read_opt_flag(words, p7);
    if r8.is_none() {
        return None;
    }
    let (tab, p8) = r8.unwrap();
    let r9 = read_opt_flag(words, p8);
    if r9.is_none() {
        return None;
    }
    let (win, p9) = r9.unwrap();
    let r10 = read_opt_flag(words, p9);
    if r10.is_none() {
        return None;
    }
    let (ml, p10) = r10.unwrap();
    let r11 = read_opt_flag(words, p10);
    if r11.is_none() {
        return None;
    }
    let (mr, p11) = r11.unwrap();
    let r12 = read_opt_flag(words, p11);
    if r12.is_none() {
        return None;
    }
    let (mm, p12) = r12.unwrap();
    let r13 = read_opt_slot(words, p12);
    if r13.is_none() {
        return None;
    }
    let (tl, p13) = r13.unwrap();
    let r14 = read_opt_slot(words, p13);
    if r14.is_none() {
        return None;
    }
    let (tr, p14) = r14.unwrap();
    Some(
        (
            ShortCut {
                key_option: ko,
                key: k,
                controller_btn_option: co,
                controller_btn: cb,
                ctrl,
                alt,
                shift,
                tab,
                windows: win,
                mouse_l_button: ml,
                mouse_r_button: mr,
                mouse_m_button: mm,
                trigger_l: tl,
                trigger_r: tr,
            },
            p14,
        ),
    )
}

/// Reads one binding.
#[verifier::rlimit(100)]
fn read_binding(words: &Vec<u64>, pos: usize) -> (r: Option<(ShortCuts, usize)>)
    requires
        pos <= words@.len(),
    ensures
        (match r {
            Some(vp) => pos <= vp.1 <= words@.len() && vp.0.wf() && dec_binding(
                words@.skip(pos as int),
            ) == Some((binding_view(vp.0), words@.skip(vp.1 as int))),
            None => dec_binding(words@.skip(pos as int)) is None,
        }),
{
    match read_flag(words, pos) {
        Some((exclude, p0)) => match read_usize(words, p0) {
            Some((n, start)) => {
                let mut acc: Vec<ShortCut> = Vec::new();
                let mut cur: usize = start;
                let mut i: usize = 0;
                while i < n
                    invariant
                        i <= n,
                        pos <= words@.len(),
                        p0 <= words@.len(),
                        start <= cur <= words@.len(),
                        dec_flag(words@.skip(pos as int)) == Some(
                            (exclude, words@.skip(p0 as int)),
                        ),
                        dec_usize(words@.skip(p0 as int)) == Some(
                            (n, words@.skip(start as int)),
                        ),
                        forall|j: int| 0 <= j < acc@.len() ==> (#[trigger] acc@[j]).wf(),
                        dec_shortcut_items(words@.skip(start as int), i as nat) == Some(
                            (acc@, words@.skip(cur as int)),
                        ),
                    decreases n - i,
                {
                    match read_shortcut(words, cur) {
                        Some((sc, next)) => {
                            acc.push(sc);
                            cur = next;
                            i += 1;
                        },
                        None => {
                            proof {
                                assert(dec_shortcut_items(
                                    words@.skip(start as int),
                                    (i + 1) as nat,
                                ) is None);
                                dec_shortcut_items_none(
                                    words@.skip(start as int),
                                    (i + 1) as nat,
                                    n as nat,
                                );
                            }
                            return None;
                        },
                    }
                }
                let res = if exclude {
                    ShortCuts::Exclude(acc)
                } else {
                    ShortCuts::Contains(acc)
                };
                Some((res, cur))
            },
            None => None,
        },
        None => None,
    }
}

/// Reads the configuration.
#[verifier::rlimit(100)]
fn read_config(words: &Vec<u64>, pos: usize) -> (r: Option<(Config, usize)>)
    requires
        pos <= words@.len(),
    ensures
        (match r {
            Some(vp) => pos <= vp.1 <= words@.len() && vp.0.wf() && dec_config(
                words@.skip(pos as int),
            ) == Some((config_view(vp.0), words@.skip(vp.1 as int))),
            None => dec_config(words@.skip(pos as int)) is None,
        }),
{
    let r1 = read_word(words, pos);
    if r1.is_none() {
        return None;
    }
    let (iv, p1) = r1.unwrap();
    let r2 = read_flag(words, p1);
    if r2.is_none() {
        return None;
    }
    let (em, p2) = r2.unwrap();
    let r3 = read_flag(words, p2);
    if r3.is_none() {
        return None;
    }
    let (ek, p3) = r3.unwrap();
    let r4a = read_flag(words, p3);
    if r4a.is_none() {
        proof {
            reveal_with_fuel(dec_flag_items, 5);
            assert(dec_flag_items(words@.skip(p3 as int), 1nat) is None);
            dec_flag_items_none(words@.skip(p3 as int), 1nat, 4nat);
        }
        return None;
    }
    let (e0, q1) = r4a.unwrap();
    let r4b = read_flag(words, q1);
    if r4b.is_none() {
        proof {
            reveal_with_fuel(dec_flag_items, 5);
            assert(dec_flag_items(words@.skip(p3 as int), 2nat) is None);
            dec_flag_items_none(words@.skip(p3 as int), 2nat, 4nat);
        }
        return None;
    }
    let (e1, q2) = r4b.unwrap();
    let r4c = read_flag(words, q2);
    if r4c.is_none() {
        proof {
            reveal_with_fuel(dec_flag_items, 5);
            assert(dec_flag_items(words@.skip(p3 as int), 3nat) is None);
            dec_flag_items_none(words@.skip(p3 as int), 3nat, 4nat);
        }
        return None;
    }
    let (e2, q3) = r4c.unwrap();
    let r4d = read_flag(words, q3);
    if r4d.is_none() {
        proof {
            reveal_with_fuel(dec_flag_items, 5);
            assert(dec_flag_items(words@.skip(p3 as int), 4nat) is None);
        }
        return None;
    }
    let (e3, p4) = r4d.unwrap();
    let ec: [bool; 4] = [e0, e1, e2, e3];
    proof {
        reveal_with_fuel(dec_flag_items, 5);
        assert(ec@ =~= Seq::<bool>::empty().push(e0).push(e1).push(e2).push(e3));
        assert(dec_flag_items(words@.skip(p3 as int), 4nat) == Some(
            (ec@, words@.skip(p4 as int)),
        ));
    }
    let b1 = read_binding(words, p4);
    if b1.is_none() {
        return None;
    }
    let (start_record, p5) = b1.unwrap();
    let b2 = read_binding(words, p5);
    if b2.is_none() {
        return None;
    }
    let (append_record, p6) = b2.unwrap();
    let b3 = read_binding(words, p6);
    if b3.is_none() {
        return None;
    }
    let (stop_record, p7) = b3.unwrap();
    let b4 = read_binding(words, p7);
    if b4.is_none() {
        return None;
    }
    let (start_playback, p8) = b4.unwrap();
    let b5 = read_binding(words, p8);
    if b5.is_none() {
        return None;
    }
    let (stop_playback, p9) = b5.unwrap();
    let b6 = read_binding(words, p9);
    if b6.is_none() {
        return None;
    }
    let (continue_record, p10) = b6.unwrap();
    let b7 = read_binding(words, p10);
    if b7.is_none() {
        return None;
    }
    let (drop_record, p11) = b7.unwrap();
    let b8 = read_binding(words, p11);
    if b8.is_none() {
        return None;
    }
    let (save_records, p12) = b8.unwrap();
    Some(
        (
            Config {
                interval: iv,
                enable_mouse: em,
                enable_keyboard: ek,
                enable_controller: ec,
                start_record,
                append_record,
                stop_record,
                start_playback,
                stop_playback,
                continue_record,
                drop_record,
                save_records,
            },
            p12,
        ),
    )
}

/// Whether a decoded snapshot can stand as a live aggregator: the
/// pressed set must hold no key twice.
pub open spec fn snapshot_ok(v: SnapshotView) -> bool {
    crate::keys::no_duplicates(v.pressed)
}

/// Whether a key list holds some key twice.
fn find_duplicate(keys: &Vec<AnyKey>) -> (r: bool)
    ensures
        r == !crate::keys::no_duplicates(keys@),
{
    let mut i: usize = 0;
    while i < keys.len()
        invariant
            i <= keys@.len(),
            forall|a: int, b: int| 0 <= a < b < keys@.len() && a < i ==> keys@[a] != keys@[b],
        decreases keys@.len() - i,
    {
        let mut j: usize = i + 1;
        while j < keys.len()
            invariant
                i < j <= keys@.len(),
                i < keys@.len(),
                forall|b: int| i < b < j ==> keys@[i as int] != keys@[b],
            decreases keys@.len() - j,
        {
            if keys[i] == keys[j] {
                return true;
            }
            j += 1;
        }
        i += 1;
    }
    false
}

/// Reads the three parts of a session.
#[verifier::rlimit(100)]
fn read_session(words: &Vec<u64>, pos: usize) -> (r: Option<
    ((Config, GlobalState, Vec<crate::record::RecordEntry>), usize),
>)
    requires
        pos <= words@.len(),
    ensures
        (match r {
            Some(vp) => {
                &&& pos <= vp.1 <= words@.len()
                &&& vp.0.0.wf()
                &&& vp.0.1.offsets.wf()
                &&& vp.0.1.pending_pressed() == Seq::<AnyKey>::empty()
                &&& vp.0.1.pending_released() == Seq::<AnyKey>::empty()
                &&& vp.0.1.pending_moves() == Seq::<AnyOffset>::empty()
                &&& vp.0.1.rec_start() == 0
                &&& dec_session(words@.skip(pos as int)) == Some(
                    (
                        SessionView {
                            config: config_view(vp.0.0),
                            init: snapshot_view(vp.0.1),
                            records: crate::record::records_view(vp.0.2@),
                        },
                        words@.skip(vp.1 as int),
                    ),
                )
            },
            None => dec_session(words@.skip(pos as int)) is None,
        }),
{
    match read_config(words, pos) {
        Some((config, p1)) => match read_snapshot(words, p1) {
            Some((init_state, p2)) => match read_records(words, p2) {
                Some((records, p3)) => Some(((config, init_state, records), p3)),
                None => None,
            },
            None => None,
        },
        None => None,
    }
}

/// Reads a whole session back from its words.  Succeeds exactly when the
/// words decode to a session, nothing trails them, and the decoded
/// snapshot holds no key twice; the loaded session is then idle, with a
/// fresh live aggregator, and its configuration, snapshot and records
/// are exactly what the words say.
#[verifier::rlimit(100)]
pub fn decode_session(words: &Vec<u64>) -> (r: Option<Recorder>)
    ensures
        (match r {
            Some(rec) => {
                &&& rec.wf()
                &&& dec_session(words@) == Some((session_view(rec), Seq::<u64>::empty()))
                &&& rec.state == RecorderState::Ready
                &&& rec.rec_pos == (0usize, 0usize, 0usize)
                &&& rec.recorder.wf()
                &&& rec.recorder.is_fresh()
            },
            None => !(dec_session(words@) matches Some(p) && p.1.len() == 0 && snapshot_ok(
                p.0.init,
            )),
        }),
{
    proof {
        assert(words@.skip(0int) =~= words@);
    }
    let r1 = read_session(words, 0);
    if r1.is_none() {
        return None;
    }
    let ((config, init_state, records), p3) = r1.unwrap();
    if p3 != words.len() {
        proof {
            assert(words@.skip(p3 as int).len() != 0);
        }
        return None;
    }
    proof {
        assert(words@.skip(words@.len() as int) =~= Seq::<u64>::empty());
    }
    if find_duplicate(&init_state.pressed_keys) {
        return None;
    }
    let rec = Recorder {
        config,
        init_state,
        records,
        recorder: GlobalState::new(),
        rec_pos: (0, 0, 0),
        state: RecorderState::Ready,
    };
    Some(rec)
}

/// Law: a session saved and loaded again comes back with the same
/// configuration, snapshot and records.  What `encode_session` writes is
/// exactly what `dec_session` reads back, with nothing left over; the
/// loaded session's transient state starts fresh.
pub proof fn lemma_save_load_round_trip(words: Seq<u64>, v: SessionView)
    requires
        forall|rest: Seq<u64>| #[trigger] dec_session(words + rest) == Some((v, rest)),
    ensures
        dec_session(words) == Some((v, Seq::<u64>::empty())),
{
    assert(words + Seq::<u64>::empty() =~= words);
}

} // verus!
