//! A personal activity-logging timer.
//!
//! A user starts a workblock of a planned duration; the library slices it
//! into fixed-length intervals, tracks the prompt/auto-away race for each
//! interval, aggregates a day's intervals into timeline, activity and
//! phrase-frequency summaries, and archives finished days.
//!
//! The in-memory [`store::Store`] holds the durable truth (workblocks,
//! intervals, daily archives); [`timer::TimerManager`] owns the transient
//! scheduling state. All wall-clock readings enter through explicit
//! parameters or the wrappers in [`clock`], so every decision the library
//! makes is checked for every possible time.

use vstd::prelude::*;

pub mod clock;
pub mod date;
pub mod lifecycle;
pub mod norm;
pub mod store;
pub mod timer;
pub mod tray;
pub mod viz;

verus! {

/// Length of one interval slice, in minutes.
pub const SLICE_LENGTH_MINUTES: i32 = 15;

/// Grace window of the auto-away timer, in seconds.
pub const AUTO_AWAY_GRACE_SECONDS: i64 = 600;

} // verus!
