//! The countdown / Pomodoro state machine.
//!
//! The engine never advances the remaining time by repeated subtraction.
//! While running it keeps an anchor instant and the remaining time that was
//! current when the countdown was last resumed; the true remaining time at
//! any instant is `start_remaining - (now - anchor)`, floored at zero. All
//! instants are injected as milliseconds on a monotonic clock.

use vstd::prelude::*;
use crate::config::Config;

verus! {

/// Timer mode: the cycling Pomodoro mode, or a flat countdown over the
/// given number of seconds (no cycling, no session recording on the cycle).
#[derive(Debug, Clone, Copy, PartialEq, Eq, Structural)]
pub enum TimerMode {
    Pomodoro,
    Timer(u64),
}

/// The phase of the Pomodoro cycle (meaningful under `TimerMode::Pomodoro`).
#[derive(Debug, Clone, Copy, PartialEq, Eq, Structural)]
pub enum TimerState {
    Work,
    ShortBreak,
    LongBreak,
}

impl TimerState {
    /// Human-readable name of the phase.
    pub fn display_name(&self) -> (r: &'static str)
        ensures
            *self == TimerState::Work ==> r@ == "Work"@,
            *self == TimerState::ShortBreak ==> r@ == "Short Break"@,
            *self == TimerState::LongBreak ==> r@ == "Long Break"@,
    {
        match self {
            TimerState::Work => "Work",
            TimerState::ShortBreak => "Short Break",
            TimerState::LongBreak => "Long Break",
        }
    }

    /// The tag under which sessions of this phase are recorded.
    pub fn session_type(&self) -> (r: &'static str)
        ensures
            *self == TimerState::Work ==> r@ == "work"@,
            *self == TimerState::ShortBreak ==> r@ == "short_break"@,
            *self == TimerState::LongBreak ==> r@ == "long_break"@,
    {
        match self {
            TimerState::Work => "work",
            TimerState::ShortBreak => "short_break",
            TimerState::LongBreak => "long_break",
        }
    }
}

/// Emitted by `tick` when a countdown reaches zero: the phase that ended
/// and its nominal duration in seconds.
#[derive(Debug, Clone, Copy, PartialEq, Eq, Structural)]
pub struct CompletionEvent {
    pub ended_state: TimerState,
    pub duration_secs: u64,
}

/// The countdown engine.
///
/// Invariant (`wf`): the engine is paused exactly when it has no anchor,
/// `sessions_before_long` is positive, `session_count` stays below it, and
/// a flat timer's length is at most the largest configurable work duration.
#[derive(Debug, Clone, Copy, PartialEq, Eq, Structural)]
pub struct Engine {
    pub timer_mode: TimerMode,
    pub timer_state: TimerState,
    /// Remaining time in milliseconds, as of the last pause, reset or tick.
    pub remaining_ms: u64,
    pub is_paused: bool,
    /// Monotonic instant (ms) of the last resume; present iff running.
    pub start_anchor: Option<u64>,
    /// Remaining time (ms) snapshotted at the last resume.
    pub start_remaining_ms: u64,
    /// Completed Work sessions in the current cycle.
    pub session_count: u8,
    /// Cached copy of the configured cycle length.
    pub sessions_before_long: u8,
}

/// `a - b` floored at zero.
pub open spec fn sat_sub(a: u64, b: u64) -> u64 {
    if a >= b { (a - b) as u64 } else { 0 }
}

/// Remaining milliseconds of a running engine at instant `now`.
pub open spec fn spec_remaining_at(e: Engine, now: u64) -> u64 {
    match e.start_anchor {
        Some(anchor) => sat_sub(e.start_remaining_ms, sat_sub(now, anchor)),
        None => e.remaining_ms,
    }
}

/// Nominal duration, in milliseconds, of a Pomodoro phase under `c`.
pub open spec fn spec_state_duration_ms(c: Config, s: TimerState) -> u64 {
    match s {
        TimerState::Work => (c.work_duration_mins * 60_000) as u64,
        TimerState::ShortBreak => (c.short_break_mins * 60_000) as u64,
        TimerState::LongBreak => (c.long_break_mins * 60_000) as u64,
    }
}

/// Nominal duration, in milliseconds, of the current state and mode.
pub open spec fn spec_current_duration_ms(c: Config, e: Engine) -> u64 {
    match e.timer_mode {
        TimerMode::Pomodoro => spec_state_duration_ms(c, e.timer_state),
        TimerMode::Timer(secs) => (secs * 1000) as u64,
    }
}

/// The Pomodoro phase after a completion or skip of `s`, and the new
/// session count: Work advances the count and goes to a short break, or to
/// the long break (resetting the count) when the cycle is full; breaks
/// return to Work.
pub open spec fn spec_advance_state(s: TimerState, count: u8, before_long: u8) -> (TimerState, u8) {
    match s {
        TimerState::Work => {
            if count + 1 >= before_long {
                (TimerState::LongBreak, 0)
            } else {
                (TimerState::ShortBreak, (count + 1) as u8)
            }
        },
        TimerState::ShortBreak => (TimerState::Work, count),
        TimerState::LongBreak => (TimerState::Work, count),
    }
}

/// The engine after a resume at instant `now`: anchor the countdown and
/// snapshot the remaining time.
pub open spec fn spec_after_resume(e: Engine, now: u64) -> Engine {
    Engine {
        is_paused: false,
        start_anchor: Some(now),
        start_remaining_ms: e.remaining_ms,
        ..e
    }
}

/// The engine after a pause at instant `now`: recompute the remaining time
/// from the anchor and clear it.
pub open spec fn spec_after_pause(e: Engine, now: u64) -> Engine {
    Engine {
        is_paused: true,
        start_anchor: None,
        remaining_ms: spec_remaining_at(e, now),
        ..e
    }
}

/// The engine after the Pomodoro advance at instant `now`: move to the next
/// phase per the transition table, reset the countdown to that phase's
/// nominal duration, and auto-resume only when break auto-start is enabled
/// and the new phase is not Work.
pub open spec fn spec_after_advance(e: Engine, c: Config, now: u64) -> Engine {
    let (ns, ncount) = spec_advance_state(e.timer_state, e.session_count, e.sessions_before_long);
    let d = spec_state_duration_ms(c, ns);
    let run = c.auto_start_breaks && ns != TimerState::Work;
    Engine {
        timer_state: ns,
        session_count: ncount,
        remaining_ms: d,
        start_remaining_ms: d,
        is_paused: !run,
        start_anchor: if run { Some(now) } else { None },
        ..e
    }
}

/// One tick at instant `now`: a paused engine is untouched; a running one
/// has its remaining time recomputed from the anchor, and on reaching zero
/// emits the completion event and advances (Pomodoro) or stops (flat
/// timer).
pub open spec fn spec_tick(e: Engine, c: Config, now: u64) -> (Engine, Option<CompletionEvent>) {
    if e.is_paused {
        (e, None)
    } else {
        let rem = spec_remaining_at(e, now);
        if rem > 0 {
            (Engine { remaining_ms: rem, ..e }, None)
        } else {
            let ev = CompletionEvent {
                ended_state: e.timer_state,
                duration_secs: (spec_current_duration_ms(c, e) / 1000) as u64,
            };
            match e.timer_mode {
                TimerMode::Pomodoro => (spec_after_advance(e, c, now), Some(ev)),
                TimerMode::Timer(_) => (
                    Engine { remaining_ms: 0, is_paused: true, start_anchor: None, ..e },
                    Some(ev),
                ),
            }
        }
    }
}

impl Engine {
    /// Structural invariant of the engine.
    pub open spec fn wf(self) -> bool {
        &&& self.is_paused <==> self.start_anchor is None
        &&& self.sessions_before_long >= 1
        &&& self.session_count < self.sessions_before_long
        &&& match self.timer_mode {
            TimerMode::Timer(secs) => secs <= 7200,
            TimerMode::Pomodoro => true,
        }
    }

    /// A fresh engine: Pomodoro mode, Work phase, full work duration,
    /// paused, cycle count zero.
    pub fn new(c: &Config) -> (e: Engine)
        requires
            c.wf(),
        ensures
            e.wf(),
            e.timer_mode == TimerMode::Pomodoro,
            e.timer_state == TimerState::Work,
            e.remaining_ms == spec_state_duration_ms(*c, TimerState::Work),
            e.is_paused,
            e.session_count == 0,
            e.sessions_before_long == c.sessions_before_long_break,
    {
        let work_ms = c.work_duration_mins * 60_000;
        Engine {
            timer_mode: TimerMode::Pomodoro,
            timer_state: TimerState::Work,
            remaining_ms: work_ms,
            is_paused: true,
            start_anchor: None,
            start_remaining_ms: work_ms,
            session_count: 0,
            sessions_before_long: c.sessions_before_long_break,
        }
    }

    /// Nominal duration (ms) of the current state and mode.
    pub fn current_duration_ms(&self, c: &Config) -> (d: u64)
        requires
            c.wf(),
            self.wf(),
        ensures
            d == spec_current_duration_ms(*c, *self),
    {
        match self.timer_mode {
            TimerMode::Pomodoro => self.state_duration_ms(c, self.timer_state),
            TimerMode::Timer(secs) => secs * 1000,
        }
    }

    /// Nominal duration (ms) of a Pomodoro phase under `c`.
    pub fn state_duration_ms(&self, c: &Config, s: TimerState) -> (d: u64)
        requires
            c.wf(),
        ensures
            d == spec_state_duration_ms(*c, s),
    {
        match s {
            TimerState::Work => c.work_duration_mins * 60_000,
            TimerState::ShortBreak => c.short_break_mins * 60_000,
            TimerState::LongBreak => c.long_break_mins * 60_000,
        }
    }

    /// If paused, resumes: anchors the countdown at `now` and snapshots
    /// the remaining time. If running, pauses: recomputes the remaining
    /// time from the anchor and clears it. Returns whether the caller
    /// should enter focus mode (configured, and only on resume).
    pub fn toggle_pause(&mut self, now: u64, c: &Config) -> (enter_focus: bool)
        requires
            old(self).wf(),
        ensures
            final(self).wf(),
            old(self).is_paused ==> *final(self) == spec_after_resume(*old(self), now),
            !old(self).is_paused ==> *final(self) == spec_after_pause(*old(self), now),
            enter_focus == (old(self).is_paused && c.focus_mode_on_start),
    {
        if self.is_paused {
            self.start_anchor = Some(now);
            self.start_remaining_ms = self.remaining_ms;
            self.is_paused = false;
            c.focus_mode_on_start
        } else {
            self.remaining_ms = self.remaining_at(now);
            self.start_anchor = None;
            self.is_paused = true;
            false
        }
    }

    /// The remaining time at instant `now`: while running it is derived
    /// from the anchor (never by repeated subtraction), floored at zero;
    /// while paused it is the stored value.
    pub fn remaining_at(&self, now: u64) -> (rem: u64)
        ensures
            rem == spec_remaining_at(*self, now),
    {
        match self.start_anchor {
            Some(anchor) => {
                let elapsed = if now >= anchor { now - anchor } else { 0 };
                if self.start_remaining_ms >= elapsed {
                    self.start_remaining_ms - elapsed
                } else {
                    0
                }
            },
            None => self.remaining_ms,
        }
    }

    /// Resets the countdown to the full nominal duration of the current
    /// state and mode, clears the anchor and forces a pause.
    pub fn reset(&mut self, c: &Config)
        requires
            old(self).wf(),
            c.wf(),
        ensures
            final(self).wf(),
            *final(self) == (Engine {
                remaining_ms: spec_current_duration_ms(*c, *old(self)),
                start_remaining_ms: spec_current_duration_ms(*c, *old(self)),
                start_anchor: None,
                is_paused: true,
                ..*old(self)
            }),
    {
        let d = self.current_duration_ms(c);
        self.remaining_ms = d;
        self.start_remaining_ms = d;
        self.start_anchor = None;
        self.is_paused = true;
    }

    /// Toggles between Pomodoro and flat Timer mode. Entering Timer mode
    /// sets the countdown to the configured work duration; returning to
    /// Pomodoro resets to the Work phase and a fresh cycle. Either way the
    /// engine ends paused with the anchor cleared.
    pub fn switch_mode(&mut self, c: &Config)
        requires
            old(self).wf(),
            c.wf(),
        ensures
            final(self).wf(),
            old(self).timer_mode == TimerMode::Pomodoro ==> *final(self) == (Engine {
                timer_mode: TimerMode::Timer((c.work_duration_mins * 60) as u64),
                remaining_ms: (c.work_duration_mins * 60_000) as u64,
                start_remaining_ms: (c.work_duration_mins * 60_000) as u64,
                start_anchor: None,
                is_paused: true,
                ..*old(self)
            }),
            old(self).timer_mode is Timer ==> *final(self) == (Engine {
                timer_mode: TimerMode::Pomodoro,
                timer_state: TimerState::Work,
                session_count: 0,
                remaining_ms: spec_state_duration_ms(*c, TimerState::Work),
                start_remaining_ms: spec_state_duration_ms(*c, TimerState::Work),
                start_anchor: None,
                is_paused: true,
                ..*old(self)
            }),
    {
        match self.timer_mode {
            TimerMode::Pomodoro => {
                self.timer_mode = TimerMode::Timer(c.work_duration_mins * 60);
                self.remaining_ms = c.work_duration_mins * 60_000;
            },
            TimerMode::Timer(_) => {
                self.timer_mode = TimerMode::Pomodoro;
                self.timer_state = TimerState::Work;
                self.session_count = 0;
                self.remaining_ms = self.state_duration_ms(c, TimerState::Work);
            },
        }
        self.start_remaining_ms = self.remaining_ms;
        self.start_anchor = None;
        self.is_paused = true;
    }

    /// The Pomodoro advance: moves to the next phase per the transition
    /// table, resets the countdown, and auto-resumes only into a break and
    /// only when break auto-start is enabled.
    fn advance(&mut self, now: u64, c: &Config)
        requires
            old(self).wf(),
            c.wf(),
        ensures
            final(self).wf(),
            *final(self) == spec_after_advance(*old(self), *c, now),
    {
        match self.timer_state {
            TimerState::Work => {
                if self.session_count + 1 >= self.sessions_before_long {
                    self.timer_state = TimerState::LongBreak;
                    self.session_count = 0;
                } else {
                    self.timer_state = TimerState::ShortBreak;
                    self.session_count = self.session_count + 1;
                }
            },
            TimerState::ShortBreak | TimerState::LongBreak => {
                self.timer_state = TimerState::Work;
            },
        }
        let d = self.state_duration_ms(c, self.timer_state);
        self.remaining_ms = d;
        self.start_remaining_ms = d;
        let run = c.auto_start_breaks && !matches!(self.timer_state, TimerState::Work);
        if run {
            self.start_anchor = Some(now);
            self.is_paused = false;
        } else {
            self.start_anchor = None;
            self.is_paused = true;
        }
    }

    /// Skips to the next Pomodoro phase, discarding the rest of the
    /// current one. Valid only in Pomodoro mode; a no-op in Timer mode.
    /// Skipping is a discard, not a completion: no session is recorded and
    /// no counter outside the engine moves.
    pub fn skip(&mut self, now: u64, c: &Config)
        requires
            old(self).wf(),
            c.wf(),
        ensures
            final(self).wf(),
            old(self).timer_mode == TimerMode::Pomodoro ==> *final(self) == spec_after_advance(
                *old(self),
                *c,
                now,
            ),
            old(self).timer_mode is Timer ==> *final(self) == *old(self),
    {
        if matches!(self.timer_mode, TimerMode::Pomodoro) {
            self.advance(now, c);
        }
    }

    /// One tick at instant `now`, per `spec_tick`: a no-op while paused;
    /// otherwise recomputes the remaining time from the anchor and, when
    /// it reaches zero, returns the completion event (the phase that
    /// ended and its nominal duration in seconds) after advancing the
    /// cycle (Pomodoro) or stopping (flat timer). Repeating the call at
    /// the same instant changes nothing further.
    pub fn tick(&mut self, now: u64, c: &Config) -> (ev: Option<CompletionEvent>)
        requires
            old(self).wf(),
            c.wf(),
        ensures
            final(self).wf(),
            (*final(self), ev) == spec_tick(*old(self), *c, now),
    {
        if self.is_paused {
            return None;
        }
        let rem = self.remaining_at(now);
        if rem > 0 {
            self.remaining_ms = rem;
            return None;
        }
        let ev = CompletionEvent {
            ended_state: self.timer_state,
            duration_secs: self.current_duration_ms(c) / 1000,
        };
        match self.timer_mode {
            TimerMode::Pomodoro => {
                self.advance(now, c);
            },
            TimerMode::Timer(_) => {
                self.remaining_ms = 0;
                self.is_paused = true;
                self.start_anchor = None;
            },
        }
        Some(ev)
    }

    /// Refreshes the cached cycle length after the configuration changed.
    /// A cycle count already at or past the new length is pulled back to
    /// the last slot, so the next Work completion still ends in the long
    /// break.
    pub fn set_sessions_before_long(&mut self, n: u8)
        requires
            old(self).wf(),
            n >= 1,
        ensures
            final(self).wf(),
            final(self).sessions_before_long == n,
            final(self).session_count == if old(self).session_count < n {
                old(self).session_count as int
            } else {
                n - 1
            },
            *final(self) == (Engine {
                sessions_before_long: n,
                session_count: final(self).session_count,
                ..*old(self)
            }),
    {
        self.sessions_before_long = n;
        if self.session_count >= n {
            self.session_count = n - 1;
        }
    }

    /// Progress through the current interval in thousandths: zero at the
    /// start, one thousand when the countdown has run out, and zero when
    /// the nominal duration is zero (defensive; durations are at least a
    /// minute).
    pub fn progress_permille(&self, c: &Config) -> (p: u64)
        requires
            self.wf(),
            c.wf(),
            self.remaining_ms <= spec_current_duration_ms(*c, *self),
        ensures
            p == if spec_current_duration_ms(*c, *self) == 0 {
                0int
            } else {
                (spec_current_duration_ms(*c, *self) - self.remaining_ms) * 1000int
                    / spec_current_duration_ms(*c, *self) as int
            },
            p <= 1000,
    {
        let total = self.current_duration_ms(c);
        if total == 0 {
            0
        } else {
            let done = total - self.remaining_ms;
            let p = (done as u128 * 1000 / total as u128) as u64;
            proof {
                assert(done * 1000 / total as int <= 1000) by (nonlinear_arith)
                    requires
                        0 < total,
                        0 <= done <= total,
                ;
            }
            p
        }
    }
}

/// Total of the injected elapsed durations of a pause/resume schedule.
pub open spec fn spec_total_elapsed(times: Seq<(u64, u64)>) -> int
    decreases times.len(),
{
    if times.len() == 0 {
        0
    } else {
        times[0].1 + spec_total_elapsed(times.drop_first())
    }
}

/// The engine after running a pause/resume schedule: for each pair
/// `(t, d)` in order, resume at instant `t` and pause at instant `t + d`.
pub open spec fn spec_after_cycles(e: Engine, times: Seq<(u64, u64)>) -> Engine
    decreases times.len(),
{
    if times.len() == 0 {
        e
    } else {
        let t = times[0].0;
        let d = times[0].1;
        spec_after_cycles(
            spec_after_pause(spec_after_resume(e, t), (t + d) as u64),
            times.drop_first(),
        )
    }
}

/// Pause/resume is drift-free: however a total elapsed time is split into
/// resume/pause cycles, the remaining time afterwards is the initial
/// remaining time minus the sum of the injected elapsed durations, floored
/// at zero, and every other field of the engine is untouched.
pub proof fn lemma_pause_resume_drift_free(e: Engine, times: Seq<(u64, u64)>)
    requires
        forall|i: int| 0 <= i < times.len() ==> times[i].0 + times[i].1 <= u64::MAX,
    ensures
        spec_total_elapsed(times) >= 0,
        spec_after_cycles(e, times).remaining_ms == if spec_total_elapsed(times)
            >= e.remaining_ms {
            0int
        } else {
            e.remaining_ms - spec_total_elapsed(times)
        },
        spec_after_cycles(e, times) == (Engine {
            remaining_ms: spec_after_cycles(e, times).remaining_ms,
            start_remaining_ms: spec_after_cycles(e, times).start_remaining_ms,
            start_anchor: None,
            is_paused: true,
            ..e
        }) || times.len() == 0,
    decreases times.len(),
{
    if times.len() > 0 {
        let t = times[0].0;
        let d = times[0].1;
        let e1 = spec_after_pause(spec_after_resume(e, t), (t + d) as u64);
        assert(e1.remaining_ms == sat_sub(e.remaining_ms, d));
        assert(spec_total_elapsed(times) == d + spec_total_elapsed(times.drop_first()));
        lemma_pause_resume_drift_free(e1, times.drop_first());
    }
}

/// Ticking is idempotent: a second tick at the same instant, under the
/// same configuration, leaves the engine exactly as the first tick left
/// it, and emits nothing.
pub proof fn lemma_tick_idempotent(e: Engine, c: Config, now: u64)
    requires
        e.wf(),
        c.wf(),
    ensures
        spec_tick(spec_tick(e, c, now).0, c, now) == (
            spec_tick(e, c, now).0,
            None::<CompletionEvent>,
        ),
{
}

} // verus!

