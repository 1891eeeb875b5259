use pomo_tui::history::Session;
use pomo_tui::history::SessionHistory;
use pomo_tui::history::day_name;
use pomo_tui::history::weekday_from_monday;
use pomo_tui::timer::TimerState;

const DAY_MS: u64 = 86_400_000;

fn work_on_day(day: u64) -> Session {
    Session::new(TimerState::Work, 1500, None, day * DAY_MS)
}

#[test]
fn streak_grows_on_consecutive_days() {
    let mut h = SessionHistory::default();
    h.add(work_on_day(1));
    assert_eq!(h.current_streak, 1);
    h.add(work_on_day(2));
    assert_eq!(h.current_streak, 2);
    assert_eq!(h.longest_streak, 2);
    assert_eq!(h.last_session_date, Some(2));
}

#[test]
fn streak_resets_after_a_gap() {
    let mut h = SessionHistory::default();
    h.add(work_on_day(1));
    h.add(work_on_day(2));
    h.add(work_on_day(4));
    assert_eq!(h.current_streak, 1, "a two-day gap restarts the streak");
    assert_eq!(h.longest_streak, 2, "the longest streak is kept");
}

#[test]
fn same_day_sessions_do_not_inflate_the_streak() {
    let mut h = SessionHistory::default();
    h.add(work_on_day(1));
    h.add(work_on_day(2));
    let before = h.current_streak;
    h.add(work_on_day(2));
    assert_eq!(h.current_streak, before);
}

#[test]
fn breaks_do_not_touch_the_streak() {
    let mut h = SessionHistory::default();
    h.add(work_on_day(1));
    h.add(Session::new(TimerState::ShortBreak, 300, None, 2 * DAY_MS));
    assert_eq!(h.current_streak, 1);
    assert_eq!(h.last_session_date, Some(1));
}

#[test]
fn lapse_on_load_clears_the_current_streak_only() {
    let mut h = SessionHistory::default();
    h.add(work_on_day(1));
    h.add(work_on_day(2));
    h.recalculate_on_load(3);
    assert_eq!(h.current_streak, 2, "one missed day is still fine");
    h.recalculate_on_load(5);
    assert_eq!(h.current_streak, 0);
    assert_eq!(h.longest_streak, 2);
}

#[test]
fn todays_aggregates_count_only_todays_work() {
    let mut h = SessionHistory::default();
    h.add(work_on_day(9));
    h.add(work_on_day(10));
    h.add(work_on_day(10));
    h.add(Session::new(TimerState::LongBreak, 900, None, 10 * DAY_MS));
    assert_eq!(h.today_pomodoro_count(10), 2);
    assert_eq!(h.today_session_count(10), 2);
    assert_eq!(h.today_focus_secs(10), 3000);
    assert_eq!(h.total_focus_secs(), 4500);
}

#[test]
fn week_starts_on_monday() {
    // Day 4 (1970-01-05) was a Monday; day 3 a Sunday.
    assert_eq!(weekday_from_monday(4), 0);
    assert_eq!(weekday_from_monday(0), 3, "the epoch day was a Thursday");
    let mut h = SessionHistory::default();
    h.add(work_on_day(3)); // Sunday, previous week
    h.add(work_on_day(4)); // Monday
    h.add(work_on_day(5)); // Tuesday
    assert_eq!(h.week_focus_secs(5), 3000);
}

#[test]
fn seven_day_buckets_are_oldest_first_and_labeled() {
    let mut h = SessionHistory::default();
    h.add(work_on_day(10)); // Sunday (10 % 7 = 3 -> weekday 6)
    h.add(work_on_day(4));  // Monday, six days earlier
    let buckets = h.last_7_days_focus(10);
    assert_eq!(buckets.len(), 7);
    assert_eq!(buckets[0], ("Mon".to_string(), 1500));
    assert_eq!(buckets[6], ("Sun".to_string(), 1500));
    assert_eq!(buckets[1], ("Tue".to_string(), 0));
}

#[test]
fn day_names_cover_the_week() {
    let names: Vec<&str> = (0..7u64).map(day_name).collect();
    assert_eq!(names, vec!["Mon", "Tue", "Wed", "Thu", "Fri", "Sat", "Sun"]);
}

#[test]
fn recent_sessions_come_newest_first() {
    let mut h = SessionHistory::default();
    h.add(work_on_day(1));
    h.add(work_on_day(2));
    h.add(work_on_day(3));
    let recent = h.recent_sessions(2);
    assert_eq!(recent.len(), 2);
    assert_eq!(recent[0].timestamp_ms, 3 * DAY_MS);
    assert_eq!(recent[1].timestamp_ms, 2 * DAY_MS);
    assert_eq!(h.recent_sessions(10).len(), 3);
}

#[test]
fn normalize_repairs_a_hostile_record() {
    let mut h = SessionHistory {
        sessions: Vec::new(),
        current_streak: 9,
        longest_streak: 2,
        last_session_date: Some(5),
    };
    h.normalize();
    assert_eq!(h.current_streak, 9);
    assert_eq!(h.longest_streak, 9);

    let mut h2 = SessionHistory {
        sessions: Vec::new(),
        current_streak: 3,
        longest_streak: 0,
        last_session_date: None,
    };
    h2.normalize();
    assert_eq!(h2.current_streak, 0);
}

#[test]
fn first_session_starts_both_streaks_at_one() {
    let mut h = SessionHistory::default();
    h.add(work_on_day(100));
    assert_eq!(h.current_streak, 1);
    assert_eq!(h.longest_streak, 1);
    assert_eq!(h.last_session_date, Some(100));
}

#[test]
fn a_session_in_the_past_restarts_the_streak() {
    let mut h = SessionHistory::default();
    h.add(work_on_day(10));
    h.add(work_on_day(11));
    h.add(work_on_day(5));
    assert_eq!(h.current_streak, 1);
    assert_eq!(h.last_session_date, Some(5));
}
