use pomo_tui::codec::encode_config;
use pomo_tui::codec::encode_history;
use pomo_tui::codec::encode_tagstore;
use pomo_tui::codec::encode_taskstore;
use pomo_tui::codec::parse_config;
use pomo_tui::codec::parse_history;
use pomo_tui::codec::parse_tagstore;
use pomo_tui::codec::parse_taskstore;
use pomo_tui::config::Config;
use pomo_tui::history::Session;
use pomo_tui::history::SessionHistory;
use pomo_tui::tags::TagInfo;
use pomo_tui::tags::TagStore;
use pomo_tui::tasks::Task;
use pomo_tui::timer::TimerState;

#[test]
fn history_round_trips() {
    let mut h = SessionHistory::default();
    h.add(Session::with_note(
        TimerState::Work,
        1500,
        Some("write: report".to_string()),
        Some("went well\nsecond line".to_string()),
        86_400_000,
    ));
    h.add(Session::new(TimerState::ShortBreak, 300, None, 90_000_000));
    h.add(Session::with_note(TimerState::LongBreak, 900, Some(String::new()), None, 172_800_000));
    let doc = encode_history(&h);
    let back = parse_history(&doc).expect("its own encoding parses");
    assert_eq!(back, h);
}

#[test]
fn empty_history_round_trips() {
    let h = SessionHistory::default();
    let back = parse_history(&encode_history(&h)).unwrap();
    assert_eq!(back, h);
}

#[test]
fn history_with_unusual_text_round_trips() {
    let mut h = SessionHistory::default();
    h.add(Session::with_note(
        TimerState::Work,
        1,
        Some("42:13\n-".to_string()),
        Some("ünïcödé 🍅 and a \\ backslash".to_string()),
        5,
    ));
    h.current_streak = 1;
    h.longest_streak = u32::MAX;
    let back = parse_history(&encode_history(&h)).unwrap();
    assert_eq!(back, h);
}

#[test]
fn config_round_trips() {
    let mut c = Config::default();
    c.work_duration_mins = 90;
    c.theme = "light mode".to_string();
    c.default_mode = String::new();
    c.auto_start_breaks = true;
    c.hide_hints_after_secs = 0;
    let back = parse_config(&encode_config(&c)).expect("its own encoding parses");
    assert_eq!(back, c);
}

#[test]
fn tagstore_round_trips() {
    let store = TagStore {
        tags: vec![
            TagInfo { name: "urgent".to_string(), last_used: 20_000, count: 5 },
            TagInfo { name: "Déjà vu".to_string(), last_used: 0, count: 1 },
        ],
    };
    let back = parse_tagstore(&encode_tagstore(&store)).expect("its own encoding parses");
    assert_eq!(back.tags, store.tags);
}

#[test]
fn taskstore_round_trips() {
    let tasks = vec![
        Task {
            id: u128::MAX,
            name: "15:abc".to_string(),
            completed: true,
            pomodoros_spent: 3,
            tags: vec!["a".to_string(), String::new(), "c d".to_string()],
        },
        Task {
            id: 0,
            name: String::new(),
            completed: false,
            pomodoros_spent: 0,
            tags: Vec::new(),
        },
    ];
    let back = parse_taskstore(&encode_taskstore(&tasks)).expect("its own encoding parses");
    assert_eq!(back, tasks);
}

#[test]
fn malformed_documents_parse_to_nothing() {
    let empty: Vec<char> = Vec::new();
    assert!(parse_history(&empty).is_none());
    assert!(parse_config(&empty).is_none());
    assert!(parse_tagstore(&"definitely not a record".chars().collect::<Vec<char>>()).is_none());
    // A count that promises more entries than the document holds.
    assert!(parse_tagstore(&"5\n".chars().collect::<Vec<char>>()).is_none());
    // Trailing garbage is rejected.
    let mut doc = encode_history(&SessionHistory::default());
    doc.push('x');
    assert!(parse_history(&doc).is_none());
}

#[test]
fn parsed_config_can_be_normalized_into_range() {
    // A document carrying out-of-range values parses as stored and is
    // clamped before use.
    let mut c = Config::default();
    c.work_duration_mins = 0;
    let mut back = parse_config(&encode_config(&c)).unwrap();
    assert_eq!(back.work_duration_mins, 0);
    back.normalize();
    assert_eq!(back.work_duration_mins, 1);
}
