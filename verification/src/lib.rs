//! Verified core of a keyboard / mouse / gamepad macro recorder.
//!
//! The library owns the logic of the tool: the aggregated input-state
//! tracker, the chord ("shortcut") pattern matcher, the recording
//! state machine with its append / splice / discard rules, the playback
//! scheduler's decisions, the virtual-gamepad output batcher, and the
//! session codec that the persisted file round-trips through.  The
//! platform layer (OS event taps, device polling, synthetic input
//! injection, the virtual-controller driver, file storage) stays
//! outside and exchanges plain values with this crate.

pub mod keys;
pub mod offsets;
pub mod shortcut;
pub mod record;
pub mod state;
pub mod session;
pub mod controller;
pub mod player;
pub mod codec;
