use pomo_tui::tags::TagInfo;
use pomo_tui::tags::TagStore;
use pomo_tui::tags::accept_suggestion;
use pomo_tui::tags::partial_tag_of;

fn store_with_counts() -> TagStore {
    // "urgent" used five times, "shopping" twice.
    let mut store = TagStore::default();
    for _ in 0..5 {
        store.record_usage(&vec!["urgent".to_string()], 10);
    }
    for _ in 0..2 {
        store.record_usage(&vec!["shopping".to_string()], 10);
    }
    store
}

#[test]
fn suggest_prefers_a_prefix_match() {
    let store = store_with_counts();
    assert_eq!(store.suggest("ur"), Some("urgent"));
    assert_eq!(store.suggest("sho"), Some("shopping"));
    assert_eq!(store.suggest("xyz"), None);
}

#[test]
fn suggest_returns_nothing_for_empty_input() {
    let store = store_with_counts();
    assert_eq!(store.suggest(""), None);
}

#[test]
fn suggest_falls_back_to_a_substring_match() {
    let store = store_with_counts();
    assert_eq!(store.suggest("gent"), Some("urgent"));
    assert_eq!(store.suggest("opp"), Some("shopping"));
}

#[test]
fn suggest_is_case_insensitive_both_ways() {
    // Depends on real lowercasing: with the input handed back unchanged,
    // neither direction would match.
    let mut store = TagStore::default();
    store.record_usage(&vec!["Urgent".to_string()], 10);
    assert_eq!(store.suggest("UR"), Some("Urgent"));
    assert_eq!(store.suggest("urg"), Some("Urgent"));
}

#[test]
fn record_usage_counts_case_insensitively_and_keeps_the_first_spelling() {
    let mut store = TagStore::default();
    store.record_usage(&vec!["Work".to_string()], 1);
    store.record_usage(&vec!["WORK".to_string(), "home".to_string()], 2);
    assert_eq!(store.tags.len(), 2);
    let work = store.tags.iter().find(|t| t.name == "Work").unwrap();
    assert_eq!(work.count, 2);
    assert_eq!(work.last_used, 2);
}

#[test]
fn entries_stay_sorted_by_count_with_stable_ties() {
    let mut store = TagStore::default();
    store.record_usage(&vec!["a".to_string()], 1);
    store.record_usage(&vec!["b".to_string()], 1);
    store.record_usage(&vec!["c".to_string(), "c".to_string()], 1);
    let names: Vec<&str> = store.tags.iter().map(|t| t.name.as_str()).collect();
    assert_eq!(names, vec!["c", "a", "b"], "c leads by count; a and b keep their order");
    let counts: Vec<u32> = store.tags.iter().map(|t| t.count).collect();
    assert_eq!(counts, vec![2, 1, 1]);
}

#[test]
fn recent_tags_lists_the_top_names() {
    let store = store_with_counts();
    assert_eq!(store.recent_tags(1), vec!["urgent"]);
    assert_eq!(store.recent_tags(5), vec!["urgent", "shopping"]);
    assert_eq!(store.recent_tags(0), Vec::<&str>::new());
}

#[test]
fn cleanup_drops_tags_idle_for_over_thirty_days() {
    let mut store = TagStore::default();
    store.record_usage(&vec!["old".to_string()], 1);
    store.record_usage(&vec!["fresh".to_string()], 20);
    store.cleanup_old_tags(40);
    let names: Vec<&str> = store.tags.iter().map(|t| t.name.as_str()).collect();
    assert_eq!(names, vec!["fresh"], "day 1 is more than 30 days before day 40");
}

#[test]
fn cleanup_keeps_everything_near_the_epoch() {
    let mut store = TagStore::default();
    store.record_usage(&vec!["early".to_string()], 0);
    store.cleanup_old_tags(10);
    assert_eq!(store.tags.len(), 1);
}

#[test]
fn tag_info_new_starts_at_count_one() {
    let t = TagInfo::new("focus".to_string(), 7);
    assert_eq!(t.name, "focus");
    assert_eq!(t.last_used, 7);
    assert_eq!(t.count, 1);
}

#[test]
fn partial_tag_tracks_the_last_hash() {
    assert_eq!(partial_tag_of("buy milk #sho"), Some("sho".to_string()));
    assert_eq!(partial_tag_of("no tags here"), None);
    assert_eq!(partial_tag_of("ends with hash #"), None);
    assert_eq!(partial_tag_of("#done #also done"), None, "a space closes the tag");
    assert_eq!(partial_tag_of("#a #b"), Some("b".to_string()));
}

#[test]
fn accepting_a_suggestion_replaces_the_partial_tag() {
    assert_eq!(accept_suggestion("buy milk #sho", "shopping"), "buy milk #shopping ");
    assert_eq!(accept_suggestion("no hash", "shopping"), "no hash");
    assert_eq!(accept_suggestion("#a #sh", "shopping"), "#a #shopping ");
}

#[test]
fn normalize_dedups_case_insensitively_and_sorts() {
    let mut store = TagStore {
        tags: vec![
            TagInfo { name: "focus".to_string(), last_used: 1, count: 1 },
            TagInfo { name: "Work".to_string(), last_used: 2, count: 3 },
            TagInfo { name: "WORK".to_string(), last_used: 3, count: 9 },
        ],
    };
    store.normalize();
    let names: Vec<&str> = store.tags.iter().map(|t| t.name.as_str()).collect();
    assert_eq!(names, vec!["Work", "focus"], "first spelling wins, sorted by count");
    assert_eq!(store.tags[0].count, 3);
}
