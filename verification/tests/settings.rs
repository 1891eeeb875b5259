use pomo_tui::config::Config;
use pomo_tui::digits::format_duration;
use pomo_tui::digits::formatted_time;
use pomo_tui::digits::greeting_for_hour;
use pomo_tui::milestones::Celebration;
use pomo_tui::milestones::celebration_for;
use pomo_tui::nav::ActivePane;
use pomo_tui::settings::SettingsCategory;
use pomo_tui::settings::SettingsField;

#[test]
fn numeric_settings_clamp_at_their_bounds() {
    let mut c = Config::default();
    c.work_duration_mins = 120;
    assert!(c.adjust(SettingsField::WorkDuration, 1));
    assert_eq!(c.work_duration_mins, 120, "clamped at the top");
    c.work_duration_mins = 1;
    c.adjust(SettingsField::WorkDuration, -1);
    assert_eq!(c.work_duration_mins, 1, "clamped at the bottom");
    c.adjust(SettingsField::ShortBreak, 10);
    assert_eq!(c.short_break_mins, 15);
    c.adjust(SettingsField::HideHintsAfter, -100);
    assert_eq!(c.hide_hints_after_secs, 0, "hint delay may reach zero");
}

#[test]
fn boolean_settings_toggle() {
    let mut c = Config::default();
    assert!(!c.auto_start_breaks);
    c.adjust(SettingsField::AutoStartBreaks, 1);
    assert!(c.auto_start_breaks);
    c.adjust(SettingsField::AutoStartBreaks, -1);
    assert!(!c.auto_start_breaks);
    c.adjust(SettingsField::NotificationsEnabled, 1);
    assert!(!c.notifications_enabled);
}

#[test]
fn reset_data_field_changes_nothing() {
    let mut c = Config::default();
    let before = c.clone();
    assert!(!c.adjust(SettingsField::ResetData, 1));
    assert_eq!(c, before);
}

#[test]
fn field_order_wraps_around() {
    let all = SettingsField::all();
    assert_eq!(all.len(), 12);
    assert_eq!(all[0], SettingsField::WorkDuration);
    assert_eq!(all[11], SettingsField::ResetData);
    assert_eq!(SettingsField::ResetData.next(), SettingsField::WorkDuration);
    assert_eq!(SettingsField::WorkDuration.prev(), SettingsField::ResetData);
    for w in all.windows(2) {
        assert_eq!(w[0].next(), w[1]);
        assert_eq!(w[1].prev(), w[0]);
    }
}

#[test]
fn fields_belong_to_their_categories() {
    assert_eq!(SettingsField::WorkDuration.category(), SettingsCategory::Timer);
    assert_eq!(SettingsField::DailyGoal.category(), SettingsCategory::Goals);
    assert_eq!(SettingsField::BreathingAnimation.category(), SettingsCategory::Appearance);
    assert_eq!(SettingsField::AutoStartBreaks.category(), SettingsCategory::Behavior);
    assert_eq!(SettingsField::NotificationsEnabled.category(), SettingsCategory::Notifications);
    assert_eq!(SettingsField::ResetData.category(), SettingsCategory::Danger);
    assert_eq!(SettingsCategory::Danger.name(), "DANGER ZONE");
}

#[test]
fn pane_toggle_alternates() {
    assert_eq!(ActivePane::Tasks.toggled(), ActivePane::Timer);
    assert_eq!(ActivePane::Timer.toggled(), ActivePane::Tasks);
}

#[test]
fn countdown_display_is_mm_ss() {
    assert_eq!(formatted_time(1500), "25:00");
    assert_eq!(formatted_time(65), "01:05");
    assert_eq!(formatted_time(0), "00:00");
    assert_eq!(formatted_time(7200), "120:00", "long timers keep all digits");
}

#[test]
fn duration_display_uses_hours_past_sixty_minutes() {
    assert_eq!(format_duration(300), "5m");
    assert_eq!(format_duration(3900), "1h 5m");
    assert_eq!(format_duration(0), "0m");
    assert_eq!(format_duration(59), "0m", "seconds under a minute truncate");
}

#[test]
fn greetings_follow_the_clock() {
    assert_eq!(greeting_for_hour(6), "Good morning");
    assert_eq!(greeting_for_hour(13), "Good afternoon");
    assert_eq!(greeting_for_hour(19), "Good evening");
    assert_eq!(greeting_for_hour(23), "Good night");
    assert_eq!(greeting_for_hour(2), "Good night");
}

#[test]
fn celebrations_rank_goal_then_focus_then_streak() {
    assert_eq!(celebration_for(7, 8, 7, 10), Some((Celebration::DailyGoal, 50)));
    assert_eq!(celebration_for(2, 8, 7, 61), Some((Celebration::FocusHour, 40)));
    assert_eq!(celebration_for(2, 8, 2, 130), Some((Celebration::FocusTwoHours, 40)));
    assert_eq!(celebration_for(2, 8, 7, 10), Some((Celebration::StreakWeek, 50)));
    assert_eq!(celebration_for(2, 8, 30, 200), Some((Celebration::StreakMonth, 50)));
    assert_eq!(celebration_for(2, 8, 100, 300), Some((Celebration::StreakHundred, 50)));
    assert_eq!(celebration_for(2, 8, 3, 10), None);
}

#[test]
fn normalize_clamps_every_numeric_field() {
    let mut c = Config::default();
    c.work_duration_mins = 0;
    c.short_break_mins = 999;
    c.long_break_mins = 0;
    c.sessions_before_long_break = 200;
    c.daily_goal_pomodoros = 0;
    c.hide_hints_after_secs = 99;
    c.normalize();
    assert_eq!(c.work_duration_mins, 1);
    assert_eq!(c.short_break_mins, 60);
    assert_eq!(c.long_break_mins, 1);
    assert_eq!(c.sessions_before_long_break, 10);
    assert_eq!(c.daily_goal_pomodoros, 1);
    assert_eq!(c.hide_hints_after_secs, 10);
}
