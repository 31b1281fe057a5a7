use taskcast::engine::{
    ArchiveWrite, CreateTaskInput, EngineError, PublishEventInput, TaskEngine, TaskEngineOptions,
    TransitionPayload,
};
use taskcast::broadcast::MemoryBroadcastProvider;
use taskcast::store::MemoryShortTermStore;
use taskcast::types::{EventQueryOptions, Level, SeriesMode, SinceCursor, TaskError, TaskStatus};

fn engine() -> TaskEngine {
    TaskEngine::new(TaskEngineOptions {
        short_term: MemoryShortTermStore::new(),
        broadcast: MemoryBroadcastProvider::new(),
        long_term: false,
    })
}

fn create(e: &mut TaskEngine, id: &str, task_type: Option<&str>) {
    e.create_task(CreateTaskInput {
        id: Some(id.to_string()),
        task_type: task_type.map(String::from),
        ..Default::default()
    })
    .unwrap();
}

fn input(t: &str, level: Level, data: &str) -> PublishEventInput {
    PublishEventInput {
        event_type: t.to_string(),
        level,
        data: data.to_string(),
        series_id: None,
        series_mode: None,
    }
}

#[test]
fn create_task_without_id_gets_a_fresh_id() {
    let mut e = engine();
    let task = e.create_task(CreateTaskInput::default()).unwrap();
    assert_eq!(task.id.len(), 26);
    assert_eq!(task.status, TaskStatus::Pending);
    assert!(task.created_at > 0);
    assert_eq!(task.created_at, task.updated_at);
    let got = e.get_task(&task.id).unwrap().unwrap();
    assert_eq!(got.id, task.id);
}

#[test]
fn lifecycle_scenario() {
    let mut e = engine();
    create(&mut e, "t1", Some("process"));
    let running = e.transition_task("t1", TaskStatus::Running, None).unwrap();
    assert_eq!(running.status, TaskStatus::Running);
    assert!(running.completed_at.is_none());
    let ev = e.publish_event("t1", input("progress", Level::Info, r#"{"percent":50}"#)).unwrap();
    assert_eq!(ev.index, 1);
    let done = e
        .transition_task(
            "t1",
            TaskStatus::Completed,
            Some(TransitionPayload { result: Some(r#"{"output":"x"}"#.to_string()), error: None }),
        )
        .unwrap();
    assert_eq!(done.status, TaskStatus::Completed);
    assert_eq!(done.completed_at, Some(done.updated_at));
    assert_eq!(done.result.as_deref(), Some(r#"{"output":"x"}"#));
    let history = e.get_events("t1", None).unwrap();
    assert_eq!(history.len(), 3);
    assert_eq!(history[0].event_type, "taskcast:status");
    assert_eq!(history[0].index, 0);
    let d0: serde_json::Value = serde_json::from_str(&history[0].data).unwrap();
    assert_eq!(d0["status"], "running");
    assert_eq!(history[1].event_type, "progress");
    assert_eq!(history[1].index, 1);
    assert_eq!(history[2].event_type, "taskcast:status");
    assert_eq!(history[2].index, 2);
    let d2: serde_json::Value = serde_json::from_str(&history[2].data).unwrap();
    assert_eq!(d2["status"], "completed");
    assert_eq!(d2["result"]["output"], "x");
}

#[test]
fn invalid_transition_scenario() {
    let mut e = engine();
    create(&mut e, "t2", None);
    let err = e.transition_task("t2", TaskStatus::Completed, None).unwrap_err();
    assert!(matches!(
        err,
        EngineError::InvalidTransition { from: TaskStatus::Pending, to: TaskStatus::Completed }
    ));
    assert!(err.message().contains("Invalid transition"));
    assert!(e.get_events("t2", None).unwrap().is_empty());
    assert_eq!(e.get_task("t2").unwrap().unwrap().status, TaskStatus::Pending);
}

#[test]
fn history_cursor_scenario() {
    let mut e = engine();
    create(&mut e, "t1", Some("process"));
    e.transition_task("t1", TaskStatus::Running, None).unwrap();
    e.publish_event("t1", input("progress", Level::Info, r#"{"percent":50}"#)).unwrap();
    e.transition_task("t1", TaskStatus::Completed, None).unwrap();
    let opts = EventQueryOptions {
        since: Some(SinceCursor { id: None, index: Some(1), timestamp: None }),
        limit: None,
    };
    let after = e.get_events("t1", Some(opts)).unwrap();
    assert_eq!(after.len(), 1);
    assert_eq!(after[0].index, 2);
    assert_eq!(after[0].event_type, "taskcast:status");
}

#[test]
fn terminal_lockout() {
    let mut e = engine();
    create(&mut e, "t3", None);
    e.transition_task("t3", TaskStatus::Running, None).unwrap();
    e.transition_task("t3", TaskStatus::Failed, None).unwrap();
    for _ in 0..3 {
        let err = e.publish_event("t3", input("log", Level::Info, "1")).unwrap_err();
        assert!(matches!(err, EngineError::TaskTerminal(TaskStatus::Failed)));
    }
    assert_eq!(e.get_events("t3", None).unwrap().len(), 2);
    assert!(matches!(
        e.transition_task("t3", TaskStatus::Running, None),
        Err(EngineError::InvalidTransition { .. })
    ));
}

#[test]
fn missing_task_is_reported() {
    let mut e = engine();
    assert!(matches!(
        e.publish_event("nope", input("log", Level::Info, "1")),
        Err(EngineError::TaskNotFound(id)) if id == "nope"
    ));
    assert!(matches!(
        e.transition_task("nope", TaskStatus::Running, None),
        Err(EngineError::TaskNotFound(_))
    ));
}

#[test]
fn batch_indices_are_dense() {
    let mut e = engine();
    create(&mut e, "t6", None);
    e.transition_task("t6", TaskStatus::Running, None).unwrap();
    let first: Vec<PublishEventInput> = (0..30).map(|i| input("tick", Level::Debug, &i.to_string())).collect();
    let second: Vec<PublishEventInput> = (0..30).map(|i| input("tock", Level::Debug, &i.to_string())).collect();
    let a = e.publish_events("t6", first).unwrap();
    let b = e.publish_events("t6", second).unwrap();
    let mut all: Vec<u64> = a.iter().chain(b.iter()).map(|ev| ev.index).collect();
    all.sort();
    all.dedup();
    assert_eq!(all.len(), 60);
    let k = all[0];
    assert_eq!(k, 1);
    assert_eq!(all, (k..k + 60).collect::<Vec<u64>>());
}

#[test]
fn subscriber_sees_published_events() {
    let mut e = engine();
    create(&mut e, "t7", None);
    let token = e.subscribe("t7").unwrap();
    e.transition_task("t7", TaskStatus::Running, None).unwrap();
    e.publish_event("t7", input("progress", Level::Info, "{}")).unwrap();
    let got = e.take_pending(token);
    assert_eq!(got.len(), 2);
    assert_eq!(got[0].index, 0);
    assert_eq!(got[1].event_type, "progress");
    e.unsubscribe(token);
    e.publish_event("t7", input("progress", Level::Info, "{}")).unwrap();
    assert!(e.take_pending(token).is_empty());
}

#[test]
fn failure_records_error_in_status_event() {
    let mut e = engine();
    create(&mut e, "t5", None);
    e.transition_task("t5", TaskStatus::Running, None).unwrap();
    let err = TaskError { code: Some("TIMEOUT".to_string()), message: "Request timed out".to_string(), details: None };
    let failed = e
        .transition_task("t5", TaskStatus::Failed, Some(TransitionPayload { result: None, error: Some(err) }))
        .unwrap();
    assert_eq!(failed.error.as_ref().unwrap().message, "Request timed out");
    let history = e.get_events("t5", None).unwrap();
    let d: serde_json::Value = serde_json::from_str(&history[1].data).unwrap();
    assert_eq!(d["status"], "failed");
    assert_eq!(d["error"]["code"], "TIMEOUT");
    assert_eq!(d["error"]["message"], "Request timed out");
    assert!(d["error"].get("details").is_none());
    assert!(d["result"].is_null());
}

#[test]
fn error_messages_name_the_statuses() {
    let err = EngineError::InvalidTransition { from: TaskStatus::Pending, to: TaskStatus::Completed };
    assert_eq!(err.message(), "Invalid transition: Pending \u{2192} Completed");
    assert_eq!(
        EngineError::TaskTerminal(TaskStatus::Failed).message(),
        "Cannot publish to task in terminal status: Failed"
    );
    assert_eq!(EngineError::TaskNotFound("x".to_string()).message(), "Task not found: x");
}

#[test]
fn archive_receives_saved_tasks_and_emitted_events() {
    let mut e = TaskEngine::new(TaskEngineOptions {
        short_term: MemoryShortTermStore::new(),
        broadcast: MemoryBroadcastProvider::new(),
        long_term: true,
    });
    create(&mut e, "ta", None);
    e.transition_task("ta", TaskStatus::Running, None).unwrap();
    let ev = e.publish_event("ta", input("log", Level::Info, "1")).unwrap();
    let writes = e.take_archive_writes();
    assert_eq!(writes.len(), 4);
    assert!(matches!(&writes[0], ArchiveWrite::SaveTask(t) if t.status == TaskStatus::Pending));
    assert!(matches!(&writes[1], ArchiveWrite::SaveTask(t) if t.status == TaskStatus::Running));
    assert!(matches!(&writes[2], ArchiveWrite::SaveEvent(x) if x.index == 0));
    assert!(matches!(&writes[3], ArchiveWrite::SaveEvent(x) if x.id == ev.id));
    assert!(e.take_archive_writes().is_empty());
}

#[test]
fn no_archive_writes_without_long_term() {
    let mut e = engine();
    create(&mut e, "tb", None);
    e.transition_task("tb", TaskStatus::Running, None).unwrap();
    assert!(e.take_archive_writes().is_empty());
}

#[test]
fn latest_series_keeps_one_entry_in_history() {
    let mut e = engine();
    create(&mut e, "tl", None);
    e.transition_task("tl", TaskStatus::Running, None).unwrap();
    let mut last = None;
    for k in 0..4 {
        let mut i = input("progress", Level::Info, &format!("{{\"p\":{k}}}"));
        i.series_id = Some("s".to_string());
        i.series_mode = Some(SeriesMode::Latest);
        last = Some(e.publish_event("tl", i).unwrap());
    }
    let history = e.get_events("tl", None).unwrap();
    let of_series: Vec<_> = history.iter().filter(|ev| ev.series_id.as_deref() == Some("s")).collect();
    assert_eq!(of_series.len(), 1);
    assert_eq!(of_series[0], &last.unwrap());
    assert_eq!(history.len(), 2);
}

#[test]
fn get_task_falls_back_to_the_archive() {
    let mut e = TaskEngine::new(TaskEngineOptions {
        short_term: MemoryShortTermStore::new(),
        broadcast: MemoryBroadcastProvider::new(),
        long_term: true,
    });
    assert!(e.needs_archive_read("old"));
    create(&mut e, "t", None);
    let archived = e.get_task("t").unwrap().unwrap();
    assert!(!e.needs_archive_read("t"));
    let mut other = archived.clone();
    other.id = "old".to_string();
    assert_eq!(e.get_task_with_archive("old", Some(other.clone())), Some(other));
    assert_eq!(e.get_task_with_archive("t", None), Some(archived));
    assert_eq!(engine().get_task_with_archive("old", None), None);
}

#[test]
fn subscribe_succeeds_while_tokens_last() {
    let mut e = engine();
    let a = e.subscribe("x").unwrap();
    let b = e.subscribe("x").unwrap();
    assert_eq!(b, a + 1);
}
