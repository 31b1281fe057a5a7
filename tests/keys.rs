use taskcast::keys::{default_prefix, Keys, TableNames};

#[test]
fn key_generation_default_prefix() {
    let keys = Keys::new("taskcast");
    assert_eq!(keys.task("t1"), "taskcast:task:t1");
    assert_eq!(keys.events("t1"), "taskcast:events:t1");
    assert_eq!(keys.idx("t1"), "taskcast:idx:t1");
    assert_eq!(keys.series_latest("t1", "s1"), "taskcast:series:t1:s1");
    assert_eq!(keys.series_ids("t1"), "taskcast:seriesIds:t1");
}

#[test]
fn key_generation_custom_prefix() {
    let keys = Keys::new("myapp");
    assert_eq!(keys.task("task_123"), "myapp:task:task_123");
    assert_eq!(keys.events("task_123"), "myapp:events:task_123");
    assert_eq!(keys.idx("task_123"), "myapp:idx:task_123");
    assert_eq!(keys.series_latest("task_123", "progress"), "myapp:series:task_123:progress");
    assert_eq!(keys.series_ids("task_123"), "myapp:seriesIds:task_123");
}

#[test]
fn key_generation_empty_ids() {
    let keys = Keys::new("tc");
    assert_eq!(keys.task(""), "tc:task:");
    assert_eq!(keys.events(""), "tc:events:");
    assert_eq!(keys.idx(""), "tc:idx:");
}

#[test]
fn key_generation_special_characters() {
    let keys = Keys::new("taskcast");
    assert_eq!(keys.task("a:b:c"), "taskcast:task:a:b:c");
    assert_eq!(keys.series_latest("task-1", "series/2"), "taskcast:series:task-1:series/2");
}

#[test]
fn table_names_with_default_prefix() {
    let tables = TableNames::new("taskcast");
    assert_eq!(tables.tasks, "taskcast_tasks");
    assert_eq!(tables.events, "taskcast_events");
}

#[test]
fn table_names_with_custom_prefix() {
    let tables = TableNames::new("myapp");
    assert_eq!(tables.tasks, "myapp_tasks");
    assert_eq!(tables.events, "myapp_events");
}

#[test]
fn table_names_with_empty_prefix() {
    let tables = TableNames::new("");
    assert_eq!(tables.tasks, "_tasks");
    assert_eq!(tables.events, "_events");
}

#[test]
fn timestamp_f64_to_i64_conversion() {
    let ts: f64 = 1700000000000.0;
    let as_i64 = ts as i64;
    assert_eq!(as_i64, 1700000000000_i64);
    let back = as_i64 as f64;
    assert!((back - ts).abs() < f64::EPSILON);
}

#[test]
fn ttl_u64_to_i32_conversion() {
    let ttl: u64 = 3600;
    let as_i32 = ttl as i32;
    assert_eq!(as_i32, 3600);
    let back = as_i32 as u64;
    assert_eq!(back, ttl);
}

#[test]
fn default_prefix_is_taskcast() {
    let keys = Keys::new(default_prefix());
    assert_eq!(keys.task("t1"), "taskcast:task:t1");
    assert_eq!(taskcast::broadcast::channel_prefix(default_prefix()), "taskcast:task:");
}
