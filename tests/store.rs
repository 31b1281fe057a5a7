use taskcast::store::MemoryShortTermStore;
use taskcast::types::{EventQueryOptions, Level, SinceCursor, Task, TaskEvent, TaskStatus};

fn ev(i: u64, ts: u64) -> TaskEvent {
    TaskEvent {
        id: format!("evt_{i}"),
        task_id: "t".to_string(),
        index: i,
        timestamp: ts,
        event_type: "log".to_string(),
        level: Level::Info,
        data: "null".to_string(),
        series_id: None,
        series_mode: None,
    }
}

fn filled() -> MemoryShortTermStore {
    let mut s = MemoryShortTermStore::new();
    for i in 0..5u64 {
        s.append_event("t", ev(i, 100 * (i + 1)));
    }
    s
}

fn since(id: Option<&str>, index: Option<u64>, timestamp: Option<u64>) -> Option<EventQueryOptions> {
    Some(EventQueryOptions { since: Some(SinceCursor { id: id.map(String::from), index, timestamp }), limit: None })
}

fn indices(es: &[TaskEvent]) -> Vec<u64> {
    es.iter().map(|e| e.index).collect()
}

#[test]
fn cursor_id_wins_over_index_and_timestamp() {
    let s = filled();
    let got = s.get_events("t", since(Some("evt_1"), Some(3), Some(400)));
    assert_eq!(indices(&got), vec![2, 3, 4]);
}

#[test]
fn cursor_index_wins_over_timestamp() {
    let s = filled();
    let got = s.get_events("t", since(None, Some(3), Some(100)));
    assert_eq!(indices(&got), vec![4]);
}

#[test]
fn cursor_timestamp_alone() {
    let s = filled();
    let got = s.get_events("t", since(None, None, Some(300)));
    assert_eq!(indices(&got), vec![3, 4]);
}

#[test]
fn unknown_cursor_id_returns_everything() {
    let s = filled();
    let got = s.get_events("t", since(Some("missing"), None, None));
    assert_eq!(indices(&got), vec![0, 1, 2, 3, 4]);
}

#[test]
fn limit_truncates_after_cursor() {
    let s = filled();
    let opts = EventQueryOptions { since: Some(SinceCursor { id: None, index: Some(0), timestamp: None }), limit: Some(2) };
    assert_eq!(indices(&s.get_events("t", Some(opts))), vec![1, 2]);
}

#[test]
fn next_index_counts_from_zero_per_task() {
    let mut s = MemoryShortTermStore::new();
    assert_eq!(s.next_index("a"), Some(0));
    assert_eq!(s.next_index("a"), Some(1));
    assert_eq!(s.next_index("b"), Some(0));
    assert_eq!(s.next_index("a"), Some(2));
}

#[test]
fn tasks_are_saved_and_replaced() {
    let mut s = MemoryShortTermStore::new();
    assert!(s.get_task("x").is_none());
    let mut t = Task {
        id: "x".to_string(),
        task_type: None,
        status: TaskStatus::Pending,
        params: None,
        result: None,
        error: None,
        metadata: None,
        created_at: 1,
        updated_at: 1,
        completed_at: None,
        ttl: None,
        auth_config: None,
        webhooks: None,
        cleanup: None,
    };
    s.save_task(t.clone());
    t.status = TaskStatus::Running;
    s.save_task(t);
    assert_eq!(s.get_task("x").unwrap().status, TaskStatus::Running);
    assert!(s.get_events("x", None).is_empty());
}

#[test]
fn replace_last_series_event_searches_from_the_tail() {
    let mut s = MemoryShortTermStore::new();
    let mut first = ev(0, 1);
    first.series_id = Some("s".to_string());
    s.replace_last_series_event("t", "s", first.clone());
    s.append_event("t", ev(1, 2));
    s.append_event("t", first.clone());
    let mut next = ev(2, 3);
    next.series_id = Some("s".to_string());
    s.replace_last_series_event("t", "s", next);
    let log = s.get_events("t", None);
    assert_eq!(log.iter().map(|e| e.id.clone()).collect::<Vec<_>>(), vec!["evt_0", "evt_1", "evt_2"]);
}
