use pomo_tui::tasks::Task;
use pomo_tui::tasks::TaskList;
use pomo_tui::tasks::parse_task_input;

fn named(name: &str) -> Task {
    Task::with_tags(name.to_string(), Vec::new())
}

#[test]
fn parse_splits_name_and_tags() {
    let (name, tags) = parse_task_input("Buy milk #shopping #urgent");
    assert_eq!(name, "Buy milk");
    assert_eq!(tags, vec!["shopping".to_string(), "urgent".to_string()]);
}

#[test]
fn parse_handles_edge_shapes() {
    assert_eq!(parse_task_input(""), (String::new(), Vec::new()));
    assert_eq!(parse_task_input("   "), (String::new(), Vec::new()));
    assert_eq!(parse_task_input("#only #tags"), (String::new(), vec![
        "only".to_string(),
        "tags".to_string()
    ]));
    // A lone '#' is not a tag; it stays in the name.
    assert_eq!(parse_task_input("odd # word"), ("odd # word".to_string(), Vec::new()));
    // Runs of whitespace collapse to single spaces in the name.
    assert_eq!(parse_task_input("  a \t b  #t "), ("a b".to_string(), vec!["t".to_string()]));
}

#[test]
fn with_tags_starts_fresh() {
    let t = Task::with_tags("read".to_string(), vec!["books".to_string()]);
    assert_eq!(t.name, "read");
    assert!(!t.completed);
    assert_eq!(t.pomodoros_spent, 0);
    assert_eq!(t.tags, vec!["books".to_string()]);
}

#[test]
fn add_selects_the_new_task() {
    let mut l = TaskList::default();
    l.add(named("a"));
    l.add(named("b"));
    assert_eq!(l.selected, 1);
    assert_eq!(l.tasks.len(), 2);
}

#[test]
fn selection_wraps_both_ways() {
    let mut l = TaskList::default();
    l.add(named("a"));
    l.add(named("b"));
    l.add(named("c"));
    assert_eq!(l.selected, 2);
    l.select_next();
    assert_eq!(l.selected, 0, "down from the last wraps to the top");
    l.select_prev();
    assert_eq!(l.selected, 2, "up from the first wraps to the bottom");
    l.select_prev();
    assert_eq!(l.selected, 1);
}

#[test]
fn selection_is_inert_on_an_empty_list() {
    let mut l = TaskList::default();
    l.select_next();
    l.select_prev();
    l.remove_selected();
    l.toggle_selected();
    assert_eq!(l.selected, 0);
    assert!(l.tasks.is_empty());
}

#[test]
fn remove_clamps_the_cursor() {
    let mut l = TaskList::default();
    l.add(named("a"));
    l.add(named("b"));
    assert_eq!(l.selected, 1);
    l.remove_selected();
    assert_eq!(l.tasks.len(), 1);
    assert_eq!(l.selected, 0);
    l.remove_selected();
    assert!(l.tasks.is_empty());
    assert_eq!(l.selected, 0);
}

#[test]
fn clear_completed_keeps_order_of_open_tasks() {
    let mut l = TaskList::default();
    l.add(named("a"));
    l.add(named("b"));
    l.add(named("c"));
    l.select_prev(); // select "b"
    l.toggle_selected();
    l.clear_completed();
    let names: Vec<&str> = l.tasks.iter().map(|t| t.name.as_str()).collect();
    assert_eq!(names, vec!["a", "c"]);
    assert!(l.selected < l.tasks.len());
}

#[test]
fn toggle_flips_completion() {
    let mut l = TaskList::default();
    l.add(named("a"));
    l.toggle_selected();
    assert!(l.tasks[0].completed);
    l.toggle_selected();
    assert!(!l.tasks[0].completed);
}

#[test]
fn pomodoro_counter_increments_on_the_selected_task() {
    let mut l = TaskList::default();
    l.add(named("a"));
    l.add(named("b"));
    l.increment_selected_pomodoros();
    l.increment_selected_pomodoros();
    assert_eq!(l.tasks[0].pomodoros_spent, 0);
    assert_eq!(l.tasks[1].pomodoros_spent, 2);
}

#[test]
fn selected_name_reports_the_cursor() {
    let mut l = TaskList::default();
    assert_eq!(l.selected_name(), None);
    l.add(named("deep work"));
    assert_eq!(l.selected_name(), Some("deep work".to_string()));
}
