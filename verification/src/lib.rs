//! Core of a terminal focus-timer application: a drift-corrected countdown
//! state machine with a Pomodoro work/break cycle, an append-only session
//! history with streak tracking and aggregate statistics, a tag store with
//! frequency-based autocomplete, a task list, configuration handling, and a
//! self-delimiting text codec for the persisted records.
//!
//! Time is injected: functions take the current monotonic instant in
//! milliseconds or the current civil day number as arguments, so every rule
//! in this crate is deterministic and verified.

use vstd::prelude::*;

pub mod clock;
pub mod codec;
pub mod config;
pub mod digits;
pub mod history;
pub mod milestones;
pub mod nav;
pub mod settings;
pub mod tags;
pub mod tasks;
pub mod text;
pub mod timer;

verus! {

/// Milliseconds in one civil day.
pub const MILLIS_PER_DAY: u64 = 86_400_000;

/// The civil day number (days since the Unix epoch) of a wall-clock
/// timestamp given in milliseconds since the Unix epoch.
pub open spec fn spec_day_of_millis(ms: u64) -> u64 {
    (ms / MILLIS_PER_DAY) as u64
}

/// Computes the civil day number of a Unix-epoch timestamp in milliseconds.
pub fn day_of_millis(ms: u64) -> (day: u64)
    ensures
        day == spec_day_of_millis(ms),
{
    ms / MILLIS_PER_DAY
}

} // verus!
