use pomo_tui::config::Config;
use pomo_tui::timer::CompletionEvent;
use pomo_tui::timer::Engine;
use pomo_tui::timer::TimerMode;
use pomo_tui::timer::TimerState;

fn default_config() -> Config {
    Config::default()
}

#[test]
fn new_engine_is_paused_at_full_work_duration() {
    let c = default_config();
    let e = Engine::new(&c);
    assert_eq!(e.timer_mode, TimerMode::Pomodoro);
    assert_eq!(e.timer_state, TimerState::Work);
    assert_eq!(e.remaining_ms, 25 * 60_000);
    assert!(e.is_paused);
    assert_eq!(e.session_count, 0);
    assert_eq!(e.sessions_before_long, 4);
}

#[test]
fn pause_resume_is_drift_free() {
    // Elapsed 3s, then 1s, over two resume/pause cycles with a long idle
    // gap in between: exactly 4s are subtracted.
    let c = default_config();
    let mut e = Engine::new(&c);
    let initial = e.remaining_ms;
    e.toggle_pause(1_000, &c);
    e.toggle_pause(4_000, &c);
    assert_eq!(e.remaining_ms, initial - 3_000);
    e.toggle_pause(60_000, &c);
    e.toggle_pause(61_000, &c);
    assert_eq!(e.remaining_ms, initial - 4_000);
    assert!(e.is_paused);
}

#[test]
fn remaining_floors_at_zero() {
    let c = default_config();
    let mut e = Engine::new(&c);
    e.toggle_pause(0, &c);
    assert_eq!(e.remaining_at(30 * 60_000), 0);
}

#[test]
fn tick_while_paused_changes_nothing() {
    let c = default_config();
    let mut e = Engine::new(&c);
    let before = e;
    assert_eq!(e.tick(5_000, &c), None);
    assert_eq!(e, before);
}

#[test]
fn tick_is_idempotent_at_the_same_instant() {
    let c = default_config();
    let mut e = Engine::new(&c);
    e.toggle_pause(0, &c);
    let now = 10_000;
    let _ = e.tick(now, &c);
    let snapshot = e;
    let ev = e.tick(now, &c);
    assert_eq!(e, snapshot);
    assert_eq!(ev, None);
}

#[test]
fn tick_is_idempotent_across_a_completion() {
    let c = default_config();
    let mut e = Engine::new(&c);
    e.toggle_pause(0, &c);
    let now = 25 * 60_000;
    let ev = e.tick(now, &c);
    assert!(ev.is_some());
    let snapshot = e;
    let ev2 = e.tick(now, &c);
    assert_eq!(e, snapshot);
    assert_eq!(ev2, None);
}

#[test]
fn completion_event_names_the_ended_phase() {
    let c = default_config();
    let mut e = Engine::new(&c);
    e.toggle_pause(0, &c);
    let ev = e.tick(25 * 60_000, &c);
    assert_eq!(
        ev,
        Some(CompletionEvent { ended_state: TimerState::Work, duration_secs: 25 * 60 })
    );
    assert_eq!(e.timer_state, TimerState::ShortBreak);
    assert_eq!(e.session_count, 1);
    assert!(e.is_paused, "break auto-start is off by default");
}

#[test]
fn four_work_completions_cycle_through_the_long_break() {
    // With sessions_before_long = 4: three short breaks, then the long
    // one, and the cycle count returns to zero.
    let c = default_config();
    let mut e = Engine::new(&c);
    let mut seen = Vec::new();
    for _ in 0..4 {
        assert_eq!(e.timer_state, TimerState::Work);
        e.skip(0, &c); // complete the work phase
        seen.push(e.timer_state);
        e.skip(0, &c); // complete the break
    }
    assert_eq!(
        seen,
        vec![
            TimerState::ShortBreak,
            TimerState::ShortBreak,
            TimerState::ShortBreak,
            TimerState::LongBreak
        ]
    );
    assert_eq!(e.session_count, 0);
}

#[test]
fn auto_start_breaks_resumes_into_breaks_only() {
    let mut c = default_config();
    c.auto_start_breaks = true;
    let mut e = Engine::new(&c);
    e.skip(7_000, &c);
    assert_eq!(e.timer_state, TimerState::ShortBreak);
    assert!(!e.is_paused, "breaks auto-start when configured");
    e.skip(9_000, &c);
    assert_eq!(e.timer_state, TimerState::Work);
    assert!(e.is_paused, "work always waits for an explicit resume");
}

#[test]
fn skip_in_timer_mode_is_a_no_op() {
    let c = default_config();
    let mut e = Engine::new(&c);
    e.switch_mode(&c);
    let before = e;
    e.skip(0, &c);
    assert_eq!(e, before);
}

#[test]
fn switch_mode_round_trip_resets_the_cycle() {
    let c = default_config();
    let mut e = Engine::new(&c);
    e.skip(0, &c);
    assert_eq!(e.session_count, 1);
    e.switch_mode(&c);
    assert_eq!(e.timer_mode, TimerMode::Timer(25 * 60));
    assert_eq!(e.remaining_ms, 25 * 60_000);
    assert!(e.is_paused);
    e.switch_mode(&c);
    assert_eq!(e.timer_mode, TimerMode::Pomodoro);
    assert_eq!(e.timer_state, TimerState::Work);
    assert_eq!(e.session_count, 0);
}

#[test]
fn flat_timer_completion_stops_without_cycling() {
    let c = default_config();
    let mut e = Engine::new(&c);
    e.switch_mode(&c);
    e.toggle_pause(0, &c);
    let ev = e.tick(25 * 60_000, &c);
    assert!(ev.is_some());
    assert_eq!(e.timer_mode, TimerMode::Timer(25 * 60));
    assert_eq!(e.remaining_ms, 0);
    assert!(e.is_paused);
}

#[test]
fn reset_restores_the_full_duration() {
    let c = default_config();
    let mut e = Engine::new(&c);
    e.toggle_pause(0, &c);
    let _ = e.tick(60_000, &c);
    e.reset(&c);
    assert_eq!(e.remaining_ms, 25 * 60_000);
    assert!(e.is_paused);
}

#[test]
fn lowering_the_cycle_length_keeps_the_next_long_break() {
    let c = default_config();
    let mut e = Engine::new(&c);
    e.skip(0, &c);
    e.skip(0, &c);
    e.skip(0, &c);
    e.skip(0, &c);
    assert_eq!(e.session_count, 2);
    e.set_sessions_before_long(2);
    assert_eq!(e.sessions_before_long, 2);
    assert_eq!(e.session_count, 1);
    e.skip(0, &c);
    assert_eq!(e.timer_state, TimerState::LongBreak);
}

#[test]
fn progress_permille_is_exact() {
    let c = default_config();
    let mut e = Engine::new(&c);
    assert_eq!(e.progress_permille(&c), 0);
    e.remaining_ms = 25 * 60_000 * 3 / 4;
    assert_eq!(e.progress_permille(&c), 250);
    e.remaining_ms = 0;
    assert_eq!(e.progress_permille(&c), 1000);
}

#[test]
fn phase_names_and_session_types() {
    assert_eq!(TimerState::Work.display_name(), "Work");
    assert_eq!(TimerState::ShortBreak.display_name(), "Short Break");
    assert_eq!(TimerState::LongBreak.display_name(), "Long Break");
    assert_eq!(TimerState::Work.session_type(), "work");
    assert_eq!(TimerState::ShortBreak.session_type(), "short_break");
    assert_eq!(TimerState::LongBreak.session_type(), "long_break");
}
