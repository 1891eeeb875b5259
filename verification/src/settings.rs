//! The settings screen's fields: their grouping into categories and the
//! cyclic order in which the selection moves through them.

use vstd::prelude::*;

verus! {

/// A group of related settings fields.
#[derive(Debug, Clone, Copy, PartialEq, Eq, Structural)]
pub enum SettingsCategory {
    Timer,
    Goals,
    Appearance,
    Behavior,
    Notifications,
    Danger,
}

impl SettingsCategory {
    /// Display heading of the category.
    pub fn name(&self) -> (r: &'static str)
        ensures
            *self == SettingsCategory::Timer ==> r@ == "TIMER"@,
            *self == SettingsCategory::Goals ==> r@ == "GOALS & STREAKS"@,
            *self == SettingsCategory::Appearance ==> r@ == "APPEARANCE"@,
            *self == SettingsCategory::Behavior ==> r@ == "BEHAVIOR"@,
            *self == SettingsCategory::Notifications ==> r@ == "NOTIFICATIONS"@,
            *self == SettingsCategory::Danger ==> r@ == "DANGER ZONE"@,
    {
        match self {
            SettingsCategory::Timer => "TIMER",
            SettingsCategory::Goals => "GOALS & STREAKS",
            SettingsCategory::Appearance => "APPEARANCE",
            SettingsCategory::Behavior => "BEHAVIOR",
            SettingsCategory::Notifications => "NOTIFICATIONS",
            SettingsCategory::Danger => "DANGER ZONE",
        }
    }
}

/// One adjustable field of the settings screen, in display order.
#[derive(Debug, Clone, Copy, PartialEq, Eq, Structural)]
pub enum SettingsField {
    WorkDuration,
    ShortBreak,
    LongBreak,
    SessionsBeforeLong,
    DailyGoal,
    ShowStreak,
    BreathingAnimation,
    HideHintsAfter,
    AutoStartBreaks,
    FocusModeOnStart,
    NotificationsEnabled,
    ResetData,
}

/// The fields in display order.
pub open spec fn spec_all_fields() -> Seq<SettingsField> {
    seq![
        SettingsField::WorkDuration,
        SettingsField::ShortBreak,
        SettingsField::LongBreak,
        SettingsField::SessionsBeforeLong,
        SettingsField::DailyGoal,
        SettingsField::ShowStreak,
        SettingsField::BreathingAnimation,
        SettingsField::HideHintsAfter,
        SettingsField::AutoStartBreaks,
        SettingsField::FocusModeOnStart,
        SettingsField::NotificationsEnabled,
        SettingsField::ResetData,
    ]
}

/// Position of `f` in the display order.
pub open spec fn spec_field_index(f: SettingsField) -> int {
    match f {
        SettingsField::WorkDuration => 0,
        SettingsField::ShortBreak => 1,
        SettingsField::LongBreak => 2,
        SettingsField::SessionsBeforeLong => 3,
        SettingsField::DailyGoal => 4,
        SettingsField::ShowStreak => 5,
        SettingsField::BreathingAnimation => 6,
        SettingsField::HideHintsAfter => 7,
        SettingsField::AutoStartBreaks => 8,
        SettingsField::FocusModeOnStart => 9,
        SettingsField::NotificationsEnabled => 10,
        SettingsField::ResetData => 11,
    }
}

impl SettingsField {
    /// The category this field belongs to.
    pub fn category(&self) -> (r: SettingsCategory)
        ensures
            r == match *self {
                SettingsField::WorkDuration
                | SettingsField::ShortBreak
                | SettingsField::LongBreak
                | SettingsField::SessionsBeforeLong => SettingsCategory::Timer,
                SettingsField::DailyGoal | SettingsField::ShowStreak => SettingsCategory::Goals,
                SettingsField::BreathingAnimation
                | SettingsField::HideHintsAfter => SettingsCategory::Appearance,
                SettingsField::AutoStartBreaks
                | SettingsField::FocusModeOnStart => SettingsCategory::Behavior,
                SettingsField::NotificationsEnabled => SettingsCategory::Notifications,
                SettingsField::ResetData => SettingsCategory::Danger,
            },
    {
        match self {
            SettingsField::WorkDuration
            | SettingsField::ShortBreak
            | SettingsField::LongBreak
            | SettingsField::SessionsBeforeLong => SettingsCategory::Timer,
            SettingsField::DailyGoal | SettingsField::ShowStreak => SettingsCategory::Goals,
            SettingsField::BreathingAnimation
            | SettingsField::HideHintsAfter => SettingsCategory::Appearance,
            SettingsField::AutoStartBreaks
            | SettingsField::FocusModeOnStart => SettingsCategory::Behavior,
            SettingsField::NotificationsEnabled => SettingsCategory::Notifications,
            SettingsField::ResetData => SettingsCategory::Danger,
        }
    }

    /// Every field, in display order.
    pub fn all() -> (r: Vec<SettingsField>)
        ensures
            r@ =~= spec_all_fields(),
            r@.len() == 12,
    {
        let mut v: Vec<SettingsField> = Vec::new();
        v.push(SettingsField::WorkDuration);
        v.push(SettingsField::ShortBreak);
        v.push(SettingsField::LongBreak);
        v.push(SettingsField::SessionsBeforeLong);
        v.push(SettingsField::DailyGoal);
        v.push(SettingsField::ShowStreak);
        v.push(SettingsField::BreathingAnimation);
        v.push(SettingsField::HideHintsAfter);
        v.push(SettingsField::AutoStartBreaks);
        v.push(SettingsField::FocusModeOnStart);
        v.push(SettingsField::NotificationsEnabled);
        v.push(SettingsField::ResetData);
        proof {
            assert(v@ =~= spec_all_fields());
        }
        v
    }

    /// The field after this one in display order, wrapping around.
    pub fn next(&self) -> (r: SettingsField)
        ensures
            r == spec_all_fields()[(spec_field_index(*self) + 1) % 12],
    {
        match self {
            SettingsField::WorkDuration => SettingsField::ShortBreak,
            SettingsField::ShortBreak => SettingsField::LongBreak,
            SettingsField::LongBreak => SettingsField::SessionsBeforeLong,
            SettingsField::SessionsBeforeLong => SettingsField::DailyGoal,
            SettingsField::DailyGoal => SettingsField::ShowStreak,
            SettingsField::ShowStreak => SettingsField::BreathingAnimation,
            SettingsField::BreathingAnimation => SettingsField::HideHintsAfter,
            SettingsField::HideHintsAfter => SettingsField::AutoStartBreaks,
            SettingsField::AutoStartBreaks => SettingsField::FocusModeOnStart,
            SettingsField::FocusModeOnStart => SettingsField::NotificationsEnabled,
            SettingsField::NotificationsEnabled => SettingsField::ResetData,
            SettingsField::ResetData => SettingsField::WorkDuration,
        }
    }

    /// The field before this one in display order, wrapping around.
    pub fn prev(&self) -> (r: SettingsField)
        ensures
            r == spec_all_fields()[(spec_field_index(*self) + 11) % 12],
    {
        match self {
            SettingsField::WorkDuration => SettingsField::ResetData,
            SettingsField::ShortBreak => SettingsField::WorkDuration,
            SettingsField::LongBreak => SettingsField::ShortBreak,
            SettingsField::SessionsBeforeLong => SettingsField::LongBreak,
            SettingsField::DailyGoal => SettingsField::SessionsBeforeLong,
            SettingsField::ShowStreak => SettingsField::DailyGoal,
            SettingsField::BreathingAnimation => SettingsField::ShowStreak,
            SettingsField::HideHintsAfter => SettingsField::BreathingAnimation,
            SettingsField::AutoStartBreaks => SettingsField::HideHintsAfter,
            SettingsField::FocusModeOnStart => SettingsField::AutoStartBreaks,
            SettingsField::NotificationsEnabled => SettingsField::FocusModeOnStart,
            SettingsField::ResetData => SettingsField::NotificationsEnabled,
        }
    }
}

} // verus!
