//! Celebration decisions on Work-session completion: which milestone, if
//! any, to show, and for how many ticks.

use vstd::prelude::*;

verus! {

/// A milestone worth celebrating.
#[derive(Debug, Clone, Copy, PartialEq, Eq, Structural)]
pub enum Celebration {
    /// The daily pomodoro goal was just reached.
    DailyGoal,
    /// A seven-day streak.
    StreakWeek,
    /// A thirty-day streak.
    StreakMonth,
    /// A hundred-day streak.
    StreakHundred,
    /// One hour of focus today.
    FocusHour,
    /// Two hours of focus today.
    FocusTwoHours,
}

/// The celebration a just-finished Work session triggers, with its
/// display time in ticks: reaching the daily goal wins; otherwise a focus
/// milestone (the hour, shown until 85 minutes; two hours, until 145)
/// outranks a streak milestone of 7, 30 or 100 days; otherwise nothing.
pub open spec fn spec_celebration_for(
    completed_today: int,
    goal: u8,
    streak: u32,
    today_mins: int,
) -> Option<(Celebration, u8)> {
    if completed_today + 1 == goal {
        Some((Celebration::DailyGoal, 50u8))
    } else if 60 <= today_mins < 85 {
        Some((Celebration::FocusHour, 40u8))
    } else if 120 <= today_mins < 145 {
        Some((Celebration::FocusTwoHours, 40u8))
    } else if streak == 7 {
        Some((Celebration::StreakWeek, 50u8))
    } else if streak == 30 {
        Some((Celebration::StreakMonth, 50u8))
    } else if streak == 100 {
        Some((Celebration::StreakHundred, 50u8))
    } else {
        None
    }
}

/// Decides the celebration after a Work completion: `completed_today` is
/// the count before this session, `today_mins` today's focus minutes.
pub fn celebration_for(completed_today: usize, goal: u8, streak: u32, today_mins: u64) -> (r:
    Option<(Celebration, u8)>)
    ensures
        r == spec_celebration_for(completed_today as int, goal, streak, today_mins as int),
{
    if completed_today < u8::MAX as usize && completed_today + 1 == goal as usize {
        Some((Celebration::DailyGoal, 50))
    } else if 60 <= today_mins && today_mins < 85 {
        Some((Celebration::FocusHour, 40))
    } else if 120 <= today_mins && today_mins < 145 {
        Some((Celebration::FocusTwoHours, 40))
    } else if streak == 7 {
        Some((Celebration::StreakWeek, 50))
    } else if streak == 30 {
        Some((Celebration::StreakMonth, 50))
    } else if streak == 100 {
        Some((Celebration::StreakHundred, 50))
    } else {
        None
    }
}

} // verus!
