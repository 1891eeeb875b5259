//! Application configuration: durations, cycle length, goals and flags.
//!
//! Every numeric setting has a fixed valid range. Adjustments clamp into
//! the range instead of failing, and values read back from a persisted
//! record are clamped the same way, so a well-formed configuration is an
//! invariant of the whole crate.

use vstd::prelude::*;
use crate::settings::SettingsField;

verus! {

/// Application configuration. Durations are minutes.
#[derive(Debug, Clone, PartialEq, Eq)]
pub struct Config {
    pub work_duration_mins: u64,
    pub short_break_mins: u64,
    pub long_break_mins: u64,
    pub sessions_before_long_break: u8,
    pub default_mode: String,
    pub auto_start_breaks: bool,
    pub daily_goal_pomodoros: u8,
    pub show_streak: bool,
    pub breathing_enabled: bool,
    pub hide_hints_after_secs: u8,
    pub theme: String,
    pub focus_mode_on_start: bool,
    pub notifications_enabled: bool,
}

/// The abstract value of a `Config`: its strings as character sequences.
pub struct ConfigV {
    pub work_duration_mins: u64,
    pub short_break_mins: u64,
    pub long_break_mins: u64,
    pub sessions_before_long_break: u8,
    pub default_mode: Seq<char>,
    pub auto_start_breaks: bool,
    pub daily_goal_pomodoros: u8,
    pub show_streak: bool,
    pub breathing_enabled: bool,
    pub hide_hints_after_secs: u8,
    pub theme: Seq<char>,
    pub focus_mode_on_start: bool,
    pub notifications_enabled: bool,
}

impl View for Config {
    type V = ConfigV;

    open spec fn view(&self) -> ConfigV {
        ConfigV {
            work_duration_mins: self.work_duration_mins,
            short_break_mins: self.short_break_mins,
            long_break_mins: self.long_break_mins,
            sessions_before_long_break: self.sessions_before_long_break,
            default_mode: self.default_mode@,
            auto_start_breaks: self.auto_start_breaks,
            daily_goal_pomodoros: self.daily_goal_pomodoros,
            show_streak: self.show_streak,
            breathing_enabled: self.breathing_enabled,
            hide_hints_after_secs: self.hide_hints_after_secs,
            theme: self.theme@,
            focus_mode_on_start: self.focus_mode_on_start,
            notifications_enabled: self.notifications_enabled,
        }
    }
}

/// Clamps `v` into `lo..=hi`.
pub open spec fn spec_clamp(v: int, lo: int, hi: int) -> int {
    if v < lo {
        lo
    } else if v > hi {
        hi
    } else {
        v
    }
}

/// Clamps `v + delta` into `lo..=hi`, the rule every numeric adjustment
/// follows.
pub open spec fn spec_adjusted(v: int, delta: int, lo: int, hi: int) -> int {
    spec_clamp(v + delta, lo, hi)
}

fn clamp_i128(v: i128, lo: i128, hi: i128) -> (r: i128)
    requires
        lo <= hi,
    ensures
        r == spec_clamp(v as int, lo as int, hi as int),
{
    if v < lo {
        lo
    } else if v > hi {
        hi
    } else {
        v
    }
}

impl Config {
    /// The valid ranges of every numeric setting.
    pub open spec fn wf(self) -> bool {
        &&& 1 <= self.work_duration_mins <= 120
        &&& 1 <= self.short_break_mins <= 60
        &&& 1 <= self.long_break_mins <= 60
        &&& 1 <= self.sessions_before_long_break <= 10
        &&& 1 <= self.daily_goal_pomodoros <= 20
        &&& self.hide_hints_after_secs <= 10
    }

    /// Adjusts the setting selected by `field` by `delta` steps, clamping
    /// into the field's valid range; boolean fields toggle on any step.
    /// `SettingsField::ResetData` is not a value and leaves the
    /// configuration unchanged; the result says whether anything could
    /// have changed (so the caller knows whether to persist).
    pub fn adjust(&mut self, field: SettingsField, delta: i64) -> (changed: bool)
        requires
            old(self).wf(),
        ensures
            final(self).wf(),
            changed == (field != SettingsField::ResetData),
            field == SettingsField::WorkDuration ==> *final(self) == (Config {
                work_duration_mins: spec_adjusted(old(self).work_duration_mins as int, delta as int, 1, 120) as u64,
                ..*old(self)
            }),
            field == SettingsField::ShortBreak ==> *final(self) == (Config {
                short_break_mins: spec_adjusted(old(self).short_break_mins as int, delta as int, 1, 60) as u64,
                ..*old(self)
            }),
            field == SettingsField::LongBreak ==> *final(self) == (Config {
                long_break_mins: spec_adjusted(old(self).long_break_mins as int, delta as int, 1, 60) as u64,
                ..*old(self)
            }),
            field == SettingsField::SessionsBeforeLong ==> *final(self) == (Config {
                sessions_before_long_break: spec_adjusted(old(self).sessions_before_long_break as int, delta as int, 1, 10) as u8,
                ..*old(self)
            }),
            field == SettingsField::DailyGoal ==> *final(self) == (Config {
                daily_goal_pomodoros: spec_adjusted(old(self).daily_goal_pomodoros as int, delta as int, 1, 20) as u8,
                ..*old(self)
            }),
            field == SettingsField::ShowStreak ==> *final(self) == (Config {
                show_streak: !old(self).show_streak,
                ..*old(self)
            }),
            field == SettingsField::BreathingAnimation ==> *final(self) == (Config {
                breathing_enabled: !old(self).breathing_enabled,
                ..*old(self)
            }),
            field == SettingsField::HideHintsAfter ==> *final(self) == (Config {
                hide_hints_after_secs: spec_adjusted(old(self).hide_hints_after_secs as int, delta as int, 0, 10) as u8,
                ..*old(self)
            }),
            field == SettingsField::AutoStartBreaks ==> *final(self) == (Config {
                auto_start_breaks: !old(self).auto_start_breaks,
                ..*old(self)
            }),
            field == SettingsField::FocusModeOnStart ==> *final(self) == (Config {
                focus_mode_on_start: !old(self).focus_mode_on_start,
                ..*old(self)
            }),
            field == SettingsField::NotificationsEnabled ==> *final(self) == (Config {
                notifications_enabled: !old(self).notifications_enabled,
                ..*old(self)
            }),
            field == SettingsField::ResetData ==> *final(self) == *old(self),
    {
        match field {
            SettingsField::WorkDuration => {
                self.work_duration_mins = clamp_i128(self.work_duration_mins as i128 + delta as i128, 1, 120) as u64;
                true
            },
            SettingsField::ShortBreak => {
                self.short_break_mins = clamp_i128(self.short_break_mins as i128 + delta as i128, 1, 60) as u64;
                true
            },
            SettingsField::LongBreak => {
                self.long_break_mins = clamp_i128(self.long_break_mins as i128 + delta as i128, 1, 60) as u64;
                true
            },
            SettingsField::SessionsBeforeLong => {
                self.sessions_before_long_break = clamp_i128(self.sessions_before_long_break as i128 + delta as i128, 1, 10) as u8;
                true
            },
            SettingsField::DailyGoal => {
                self.daily_goal_pomodoros = clamp_i128(self.daily_goal_pomodoros as i128 + delta as i128, 1, 20) as u8;
                true
            },
            SettingsField::ShowStreak => {
                self.show_streak = !self.show_streak;
                true
            },
            SettingsField::BreathingAnimation => {
                self.breathing_enabled = !self.breathing_enabled;
                true
            },
            SettingsField::HideHintsAfter => {
                self.hide_hints_after_secs = clamp_i128(self.hide_hints_after_secs as i128 + delta as i128, 0, 10) as u8;
                true
            },
            SettingsField::AutoStartBreaks => {
                self.auto_start_breaks = !self.auto_start_breaks;
                true
            },
            SettingsField::FocusModeOnStart => {
                self.focus_mode_on_start = !self.focus_mode_on_start;
                true
            },
            SettingsField::NotificationsEnabled => {
                self.notifications_enabled = !self.notifications_enabled;
                true
            },
            SettingsField::ResetData => false,
        }
    }

    /// Clamps every numeric field into its valid range, establishing
    /// `wf`. Applied to configurations read back from a persisted record,
    /// so a record written by another version of the format cannot break
    /// the invariant.
    pub fn normalize(&mut self)
        ensures
            final(self).wf(),
            final(self).work_duration_mins == spec_clamp(old(self).work_duration_mins as int, 1, 120),
            final(self).short_break_mins == spec_clamp(old(self).short_break_mins as int, 1, 60),
            final(self).long_break_mins == spec_clamp(old(self).long_break_mins as int, 1, 60),
            final(self).sessions_before_long_break == spec_clamp(old(self).sessions_before_long_break as int, 1, 10),
            final(self).daily_goal_pomodoros == spec_clamp(old(self).daily_goal_pomodoros as int, 1, 20),
            final(self).hide_hints_after_secs == spec_clamp(old(self).hide_hints_after_secs as int, 0, 10),
            final(self).default_mode == old(self).default_mode,
            final(self).theme == old(self).theme,
            final(self).auto_start_breaks == old(self).auto_start_breaks,
            final(self).show_streak == old(self).show_streak,
            final(self).breathing_enabled == old(self).breathing_enabled,
            final(self).focus_mode_on_start == old(self).focus_mode_on_start,
            final(self).notifications_enabled == old(self).notifications_enabled,
    {
        self.work_duration_mins = clamp_i128(self.work_duration_mins as i128, 1, 120) as u64;
        self.short_break_mins = clamp_i128(self.short_break_mins as i128, 1, 60) as u64;
        self.long_break_mins = clamp_i128(self.long_break_mins as i128, 1, 60) as u64;
        self.sessions_before_long_break = clamp_i128(self.sessions_before_long_break as i128, 1, 10) as u8;
        self.daily_goal_pomodoros = clamp_i128(self.daily_goal_pomodoros as i128, 1, 20) as u8;
        self.hide_hints_after_secs = clamp_i128(self.hide_hints_after_secs as i128, 0, 10) as u8;
    }
}

impl Default for Config {
    /// The defaults: 25/5/15 minute phases, four sessions to a long
    /// break, a goal of eight pomodoros, notifications on.
    fn default() -> (c: Config)
        ensures
            c.wf(),
            c.work_duration_mins == 25,
            c.short_break_mins == 5,
            c.long_break_mins == 15,
            c.sessions_before_long_break == 4,
            c.default_mode@ == "pomodoro"@,
            !c.auto_start_breaks,
            c.daily_goal_pomodoros == 8,
            c.show_streak,
            !c.breathing_enabled,
            c.hide_hints_after_secs == 3,
            c.theme@ == "dark"@,
            !c.focus_mode_on_start,
            c.notifications_enabled,
    {
        Config {
            work_duration_mins: 25,
            short_break_mins: 5,
            long_break_mins: 15,
            sessions_before_long_break: 4,
            default_mode: String::from_str("pomodoro"),
            auto_start_breaks: false,
            daily_goal_pomodoros: 8,
            show_streak: true,
            breathing_enabled: false,
            hide_hints_after_secs: 3,
            theme: String::from_str("dark"),
            focus_mode_on_start: false,
            notifications_enabled: true,
        }
    }
}

} // verus!
