//! The append-only session log, streak tracking over civil days, and the
//! aggregate queries derived from the log.
//!
//! Dates are civil day numbers (days since the Unix epoch) and timestamps
//! are Unix milliseconds; both are injected by the caller, so the streak
//! rules and the aggregates are deterministic functions of their arguments.

use vstd::prelude::*;
use crate::clock::fresh_id;
use crate::spec_day_of_millis;
use crate::day_of_millis;
use crate::timer::TimerState;

verus! {

/// A completed session: immutable once created, appended to the history
/// on natural completion (never on skip).
#[derive(Debug, PartialEq, Eq)]
pub struct Session {
    /// Random 128-bit identifier.
    pub id: u128,
    /// Creation time, Unix milliseconds.
    pub timestamp_ms: u64,
    pub session_type: TimerState,
    pub duration_secs: u64,
    pub completed: bool,
    /// Name of the task selected when the session ended, if any
    /// (a denormalized snapshot, not a live reference).
    pub task_name: Option<String>,
    /// Free-text note captured after a Work session, if any.
    pub note: Option<String>,
}

impl Clone for Session {
    /// An exact copy.
    fn clone(&self) -> (r: Session)
        ensures
            r == *self,
    {
        Session {
            id: self.id,
            timestamp_ms: self.timestamp_ms,
            session_type: self.session_type,
            duration_secs: self.duration_secs,
            completed: self.completed,
            task_name: match &self.task_name {
                Some(n) => Some(n.clone()),
                None => None,
            },
            note: match &self.note {
                Some(n) => Some(n.clone()),
                None => None,
            },
        }
    }
}

impl Session {
    /// A new completed session without a note, created at `now_ms`.
    /// The identifier is random; everything else is as given.
    pub fn new(session_type: TimerState, duration_secs: u64, task_name: Option<String>, now_ms: u64) -> (s: Session)
        ensures
            s == (Session { id: s.id, ..spec_session(session_type, duration_secs, task_name, None, now_ms) }),
    {
        Session {
            id: fresh_id(),
            timestamp_ms: now_ms,
            session_type,
            duration_secs,
            completed: true,
            task_name,
            note: None,
        }
    }

    /// A new completed session carrying an optional note, created at
    /// `now_ms`. The identifier is random; everything else is as given.
    pub fn with_note(
        session_type: TimerState,
        duration_secs: u64,
        task_name: Option<String>,
        note: Option<String>,
        now_ms: u64,
    ) -> (s: Session)
        ensures
            s == (Session { id: s.id, ..spec_session(session_type, duration_secs, task_name, note, now_ms) }),
    {
        Session {
            id: fresh_id(),
            timestamp_ms: now_ms,
            session_type,
            duration_secs,
            completed: true,
            task_name,
            note,
        }
    }
}

/// The abstract value of a `Session`: its strings as character sequences.
pub struct SessionV {
    pub id: u128,
    pub timestamp_ms: u64,
    pub session_type: TimerState,
    pub duration_secs: u64,
    pub completed: bool,
    pub task_name: Option<Seq<char>>,
    pub note: Option<Seq<char>>,
}

impl View for Session {
    type V = SessionV;

    open spec fn view(&self) -> SessionV {
        SessionV {
            id: self.id,
            timestamp_ms: self.timestamp_ms,
            session_type: self.session_type,
            duration_secs: self.duration_secs,
            completed: self.completed,
            task_name: match self.task_name {
                Some(ref n) => Some(n@),
                None => None,
            },
            note: match self.note {
                Some(ref n) => Some(n@),
                None => None,
            },
        }
    }
}

/// The abstract value of a `SessionHistory`.
pub struct HistoryV {
    pub sessions: Seq<SessionV>,
    pub current_streak: u32,
    pub longest_streak: u32,
    pub last_session_date: Option<u64>,
}

impl View for SessionHistory {
    type V = HistoryV;

    open spec fn view(&self) -> HistoryV {
        HistoryV {
            sessions: self.sessions@.map_values(|s: Session| s@),
            current_streak: self.current_streak,
            longest_streak: self.longest_streak,
            last_session_date: self.last_session_date,
        }
    }
}

/// A session value with the given fields, a zero identifier and the
/// completed flag set; constructors replace the identifier by a fresh one.
pub open spec fn spec_session(
    session_type: TimerState,
    duration_secs: u64,
    task_name: Option<String>,
    note: Option<String>,
    now_ms: u64,
) -> Session {
    Session {
        id: 0,
        timestamp_ms: now_ms,
        session_type,
        duration_secs,
        completed: true,
        task_name,
        note,
    }
}

/// `s` is a Work session whose civil day lies in `lo..=hi`.
pub open spec fn is_work_in(s: Session, lo: u64, hi: u64) -> bool {
    &&& s.session_type == TimerState::Work
    &&& lo <= spec_day_of_millis(s.timestamp_ms) <= hi
}

/// How many of the sessions are Work sessions on a day in `lo..=hi`.
pub open spec fn spec_work_count_in(ss: Seq<Session>, lo: u64, hi: u64) -> int
    decreases ss.len(),
{
    if ss.len() == 0 {
        0
    } else {
        spec_work_count_in(ss.drop_last(), lo, hi) + if is_work_in(ss.last(), lo, hi) {
            1int
        } else {
            0int
        }
    }
}

/// Total seconds of Work sessions on a day in `lo..=hi`.
pub open spec fn spec_focus_secs_in(ss: Seq<Session>, lo: u64, hi: u64) -> int
    decreases ss.len(),
{
    if ss.len() == 0 {
        0
    } else {
        spec_focus_secs_in(ss.drop_last(), lo, hi) + if is_work_in(ss.last(), lo, hi) {
            ss.last().duration_secs as int
        } else {
            0int
        }
    }
}

/// The streak fields after a Work session on `date`:
/// no prior date starts a streak of one; the same day changes nothing; the
/// next day lengthens the streak (and the longest streak follows it up);
/// any other gap, including a date in the past, restarts at one. The
/// recorded date moves to `date` in every case. The streak length
/// saturates at `u32::MAX` rather than overflowing.
pub open spec fn spec_streak_after(cur: u32, longest: u32, last: Option<u64>, date: u64) -> (
    u32,
    u32,
    Option<u64>,
) {
    match last {
        None => (1u32, 1u32, Some(date)),
        Some(l) => {
            if date == l {
                (cur, longest, Some(l))
            } else if date == l + 1 {
                let nc = if cur == u32::MAX {
                    cur
                } else {
                    (cur + 1) as u32
                };
                (nc, if nc > longest { nc } else { longest }, Some(date))
            } else {
                (1u32, longest, Some(date))
            }
        },
    }
}

/// The session log with its derived streak state.
///
/// Invariant (`wf`): the longest streak is at least the current one, a
/// recorded last date implies a longest streak of at least one, and no
/// recorded date means no current streak.
#[derive(Debug, Clone, PartialEq, Eq)]
pub struct SessionHistory {
    /// Insertion order is chronological.
    pub sessions: Vec<Session>,
    pub current_streak: u32,
    pub longest_streak: u32,
    /// Civil day of the most recent Work session, if any.
    pub last_session_date: Option<u64>,
}

impl Default for SessionHistory {
    /// An empty history: no sessions, no streak.
    fn default() -> (h: SessionHistory)
        ensures
            h.wf(),
            h.sessions@.len() == 0,
            h.current_streak == 0,
            h.longest_streak == 0,
            h.last_session_date is None,
    {
        SessionHistory {
            sessions: Vec::new(),
            current_streak: 0,
            longest_streak: 0,
            last_session_date: None,
        }
    }
}

impl SessionHistory {
    /// Structural invariant of the streak fields.
    pub open spec fn wf(self) -> bool {
        &&& self.current_streak <= self.longest_streak
        &&& self.last_session_date is Some ==> self.longest_streak >= 1
        &&& self.last_session_date is None ==> self.current_streak == 0
    }

    /// Appends a session; a Work session also updates the streak from the
    /// session's civil day. Sessions are never mutated or removed
    /// individually.
    pub fn add(&mut self, session: Session)
        requires
            old(self).wf(),
        ensures
            final(self).wf(),
            final(self).sessions@ == old(self).sessions@.push(session),
            session.session_type == TimerState::Work ==> (
                final(self).current_streak,
                final(self).longest_streak,
                final(self).last_session_date,
            ) == spec_streak_after(
                old(self).current_streak,
                old(self).longest_streak,
                old(self).last_session_date,
                spec_day_of_millis(session.timestamp_ms),
            ),
            session.session_type != TimerState::Work ==> (
                final(self).current_streak,
                final(self).longest_streak,
                final(self).last_session_date,
            ) == (old(self).current_streak, old(self).longest_streak, old(self).last_session_date),
    {
        if session.session_type == TimerState::Work {
            let day = day_of_millis(session.timestamp_ms);
            self.update_streak(day);
        }
        self.sessions.push(session);
    }

    /// Applies `spec_streak_after` for a Work session on `date`.
    fn update_streak(&mut self, date: u64)
        requires
            old(self).wf(),
        ensures
            final(self).wf(),
            final(self).sessions@ == old(self).sessions@,
            (final(self).current_streak, final(self).longest_streak, final(self).last_session_date)
                == spec_streak_after(
                old(self).current_streak,
                old(self).longest_streak,
                old(self).last_session_date,
                date,
            ),
    {
        match self.last_session_date {
            None => {
                self.current_streak = 1;
                self.longest_streak = 1;
                self.last_session_date = Some(date);
            },
            Some(last) => {
                if date == last {
                    // Same day: streak unchanged.
                } else if last < u64::MAX && date == last + 1 {
                    if self.current_streak < u32::MAX {
                        self.current_streak = self.current_streak + 1;
                    }
                    if self.current_streak > self.longest_streak {
                        self.longest_streak = self.current_streak;
                    }
                    self.last_session_date = Some(date);
                } else {
                    self.current_streak = 1;
                    self.last_session_date = Some(date);
                }
            },
        }
    }

    /// The load-time lapse check: a gap of more than one day between the
    /// recorded last Work session and `today` ends the current streak.
    /// The longest streak is untouched.
    pub fn recalculate_on_load(&mut self, today: u64)
        requires
            old(self).wf(),
        ensures
            final(self).wf(),
            *final(self) == (SessionHistory {
                current_streak: if (match old(self).last_session_date {
                    Some(l) => today > l && today - l > 1,
                    None => false,
                }) {
                    0u32
                } else {
                    old(self).current_streak
                },
                ..*old(self)
            }),
    {
        match self.last_session_date {
            Some(last) => {
                if today > last && today - last > 1 {
                    self.current_streak = 0;
                }
            },
            None => {},
        }
    }

    /// Restores the invariant on a value read back from a persisted
    /// record: the longest streak is raised to the current one, a recorded
    /// date forces a longest streak of at least one, and no recorded date
    /// clears the current streak.
    pub fn normalize(&mut self)
        ensures
            final(self).wf(),
            final(self).sessions@ == old(self).sessions@,
            final(self).last_session_date == old(self).last_session_date,
            final(self).current_streak == if old(self).last_session_date is None {
                0int
            } else {
                old(self).current_streak as int
            },
            final(self).longest_streak == if final(self).current_streak > old(self).longest_streak {
                final(self).current_streak as int
            } else if old(self).last_session_date is Some && old(self).longest_streak == 0 {
                1int
            } else {
                old(self).longest_streak as int
            },
    {
        if self.last_session_date.is_none() {
            self.current_streak = 0;
        }
        if self.current_streak > self.longest_streak {
            self.longest_streak = self.current_streak;
        } else if self.last_session_date.is_some() && self.longest_streak == 0 {
            self.longest_streak = 1;
        }
    }

    /// How many Work sessions lie on a day in `lo..=hi`.
    pub fn work_count_in(&self, lo: u64, hi: u64) -> (n: usize)
        ensures
            n == spec_work_count_in(self.sessions@, lo, hi),
    {
        let len = self.sessions.len();
        let mut i: usize = 0;
        let mut n: usize = 0;
        while i < len
            invariant
                i <= len,
                len == self.sessions@.len(),
                n <= i,
                n == spec_work_count_in(self.sessions@.take(i as int), lo, hi),
            decreases len - i,
        {
            proof {
                assert(self.sessions@.take(i as int + 1).drop_last() =~= self.sessions@.take(
                    i as int,
                ));
                assert(self.sessions@.take(i as int + 1).last() == self.sessions@[i as int]);
                lemma_work_count_bounded(self.sessions@.take(i as int), lo, hi);
            }
            let s = &self.sessions[i];
            let day = day_of_millis(s.timestamp_ms);
            if s.session_type == TimerState::Work && lo <= day && day <= hi {
                n = n + 1;
            }
            i = i + 1;
        }
        proof {
            assert(self.sessions@.take(len as int) =~= self.sessions@);
        }
        n
    }

    /// Total focus seconds of Work sessions on a day in `lo..=hi`,
    /// saturating at `u64::MAX`.
    pub fn focus_secs_in(&self, lo: u64, hi: u64) -> (secs: u64)
        ensures
            secs == if spec_focus_secs_in(self.sessions@, lo, hi) > u64::MAX {
                u64::MAX as int
            } else {
                spec_focus_secs_in(self.sessions@, lo, hi)
            },
    {
        let len = self.sessions.len();
        let mut i: usize = 0;
        let mut acc: u64 = 0;
        while i < len
            invariant
                i <= len,
                len == self.sessions@.len(),
                spec_focus_secs_in(self.sessions@.take(i as int), lo, hi) >= 0,
                acc == if spec_focus_secs_in(self.sessions@.take(i as int), lo, hi) > u64::MAX {
                    u64::MAX as int
                } else {
                    spec_focus_secs_in(self.sessions@.take(i as int), lo, hi)
                },
            decreases len - i,
        {
            proof {
                assert(self.sessions@.take(i as int + 1).drop_last() =~= self.sessions@.take(
                    i as int,
                ));
                assert(self.sessions@.take(i as int + 1).last() == self.sessions@[i as int]);
            }
            let s = &self.sessions[i];
            let day = day_of_millis(s.timestamp_ms);
            if s.session_type == TimerState::Work && lo <= day && day <= hi {
                acc = if acc <= u64::MAX - s.duration_secs {
                    acc + s.duration_secs
                } else {
                    u64::MAX
                };
            }
            i = i + 1;
        }
        proof {
            assert(self.sessions@.take(len as int) =~= self.sessions@);
        }
        acc
    }

    /// Today's completed Work sessions.
    pub fn today_pomodoro_count(&self, today: u64) -> (n: usize)
        ensures
            n == spec_work_count_in(self.sessions@, today, today),
    {
        self.work_count_in(today, today)
    }

    /// Alias of `today_pomodoro_count`.
    pub fn today_session_count(&self, today: u64) -> (n: usize)
        ensures
            n == spec_work_count_in(self.sessions@, today, today),
    {
        self.today_pomodoro_count(today)
    }

    /// Today's total focus seconds (saturating).
    pub fn today_focus_secs(&self, today: u64) -> (secs: u64)
        ensures
            secs == if spec_focus_secs_in(self.sessions@, today, today) > u64::MAX {
                u64::MAX as int
            } else {
                spec_focus_secs_in(self.sessions@, today, today)
            },
    {
        self.focus_secs_in(today, today)
    }

    /// Focus seconds of the current ISO week: from the Monday of `today`'s
    /// week (clamped at the epoch) onwards, saturating.
    pub fn week_focus_secs(&self, today: u64) -> (secs: u64)
        ensures
            secs == ({
                let start = crate::timer::sat_sub(today, spec_weekday_from_monday(today));
                if spec_focus_secs_in(self.sessions@, start, u64::MAX) > u64::MAX {
                    u64::MAX as int
                } else {
                    spec_focus_secs_in(self.sessions@, start, u64::MAX)
                }
            }),
    {
        let w = weekday_from_monday(today);
        let start = if today >= w {
            today - w
        } else {
            0
        };
        self.focus_secs_in(start, u64::MAX)
    }

    /// All-time focus seconds (saturating).
    pub fn total_focus_secs(&self) -> (secs: u64)
        ensures
            secs == if spec_focus_secs_in(self.sessions@, 0, u64::MAX) > u64::MAX {
                u64::MAX as int
            } else {
                spec_focus_secs_in(self.sessions@, 0, u64::MAX)
            },
    {
        self.focus_secs_in(0, u64::MAX)
    }

    /// Focus seconds of each of the last seven days (clamped at the
    /// epoch), oldest first, each labeled with its weekday name.
    pub fn last_7_days_focus(&self, today: u64) -> (r: Vec<(String, u64)>)
        ensures
            r@.len() == 7,
            forall|j: int|
                0 <= j < 7 ==> {
                    let date = crate::timer::sat_sub(today, (6 - j) as u64);
                    {
                        &&& (#[trigger] r@[j]).0@ == spec_day_name(spec_weekday_from_monday(date))@
                        &&& r@[j].1 == if spec_focus_secs_in(self.sessions@, date, date) > u64::MAX {
                            u64::MAX as int
                        } else {
                            spec_focus_secs_in(self.sessions@, date, date)
                        }
                    }
                },
    {
        let mut r: Vec<(String, u64)> = Vec::new();
        let mut j: usize = 0;
        while j < 7
            invariant
                j <= 7,
                r@.len() == j,
                forall|k: int|
                    0 <= k < j ==> {
                        let date = crate::timer::sat_sub(today, (6 - k) as u64);
                        {
                            &&& (#[trigger] r@[k]).0@ == spec_day_name(
                                spec_weekday_from_monday(date),
                            )@
                            &&& r@[k].1 == if spec_focus_secs_in(self.sessions@, date, date)
                                > u64::MAX {
                                u64::MAX as int
                            } else {
                                spec_focus_secs_in(self.sessions@, date, date)
                            }
                        }
                    },
            decreases 7 - j,
        {
            let back = (6 - j) as u64;
            let date = if today >= back {
                today - back
            } else {
                0
            };
            let name = day_name(weekday_from_monday(date));
            let secs = self.focus_secs_in(date, date);
            r.push((name.to_owned(), secs));
            j = j + 1;
        }
        r
    }

    /// The `count` most recent sessions, newest first (all of them when
    /// fewer exist).
    pub fn recent_sessions(&self, count: usize) -> (r: Vec<Session>)
        ensures
            r@.len() == if count <= self.sessions@.len() {
                count as int
            } else {
                self.sessions@.len() as int
            },
            forall|j: int|
                0 <= j < r@.len() ==> #[trigger] r@[j] == self.sessions@[self.sessions@.len() - 1
                    - j],
    {
        let len = self.sessions.len();
        let m = if count <= len {
            count
        } else {
            len
        };
        let mut r: Vec<Session> = Vec::new();
        let mut j: usize = 0;
        while j < m
            invariant
                j <= m,
                m <= len,
                len == self.sessions@.len(),
                r@.len() == j,
                forall|k: int|
                    0 <= k < j ==> #[trigger] r@[k] == self.sessions@[len - 1 - k],
            decreases m - j,
        {
            r.push(self.sessions[len - 1 - j].clone());
            j = j + 1;
        }
        r
    }
}

/// Weekday of a civil day number, counted from Monday (0 = Monday …
/// 6 = Sunday). Day zero, 1970-01-01, was a Thursday.
pub open spec fn spec_weekday_from_monday(day: u64) -> u64 {
    (((day % 7) + 3) % 7) as u64
}

/// Computes `spec_weekday_from_monday`.
pub fn weekday_from_monday(day: u64) -> (w: u64)
    ensures
        w == spec_weekday_from_monday(day),
        w < 7,
{
    ((day % 7) + 3) % 7
}

/// Three-letter weekday name, Monday first; out-of-range values answer for
/// themselves with Monday's name (callers pass a weekday below seven).
pub open spec fn spec_day_name(w: u64) -> &'static str {
    if w == 1 {
        "Tue"
    } else if w == 2 {
        "Wed"
    } else if w == 3 {
        "Thu"
    } else if w == 4 {
        "Fri"
    } else if w == 5 {
        "Sat"
    } else if w == 6 {
        "Sun"
    } else {
        "Mon"
    }
}

/// Computes `spec_day_name`.
pub fn day_name(w: u64) -> (r: &'static str)
    ensures
        r == spec_day_name(w),
{
    if w == 1 {
        "Tue"
    } else if w == 2 {
        "Wed"
    } else if w == 3 {
        "Thu"
    } else if w == 4 {
        "Fri"
    } else if w == 5 {
        "Sat"
    } else if w == 6 {
        "Sun"
    } else {
        "Mon"
    }
}

/// A Work-session count never exceeds the number of sessions.
pub proof fn lemma_work_count_bounded(ss: Seq<Session>, lo: u64, hi: u64)
    ensures
        0 <= spec_work_count_in(ss, lo, hi) <= ss.len(),
    decreases ss.len(),
{
    if ss.len() > 0 {
        lemma_work_count_bounded(ss.drop_last(), lo, hi);
    }
}

} // verus!
