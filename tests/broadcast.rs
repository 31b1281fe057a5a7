use taskcast::broadcast::{channel_name, channel_prefix, task_id_from_channel, MemoryBroadcastProvider};
use taskcast::types::{Level, TaskEvent};

fn event(id: &str, task: &str, index: u64) -> TaskEvent {
    TaskEvent {
        id: id.to_string(),
        task_id: task.to_string(),
        index,
        timestamp: 1_700_000_000_000,
        event_type: "progress".to_string(),
        level: Level::Info,
        data: "null".to_string(),
        series_id: None,
        series_mode: None,
    }
}

#[test]
fn channel_prefix_default() {
    let prefix = "taskcast";
    let channel_prefix = channel_prefix(prefix);
    assert_eq!(channel_prefix, "taskcast:task:");
}

#[test]
fn channel_prefix_custom() {
    let prefix = "myapp";
    let channel_prefix = channel_prefix(prefix);
    assert_eq!(channel_prefix, "myapp:task:");
}

#[test]
fn full_channel_name() {
    let channel_prefix = "taskcast:task:";
    let task_id = "task_01";
    let full = channel_name(channel_prefix, task_id);
    assert_eq!(full, "taskcast:task:task_01");
}

#[test]
fn strip_prefix_from_channel() {
    let channel_prefix = "taskcast:task:";
    let channel = "taskcast:task:task_01";
    let task_id = task_id_from_channel(channel_prefix, channel);
    assert_eq!(task_id, "task_01");
}

#[test]
fn strip_prefix_passthrough_when_no_match() {
    let channel_prefix = "taskcast:task:";
    let channel = "other:channel";
    let task_id = task_id_from_channel(channel_prefix, channel);
    assert_eq!(task_id, "other:channel");
}

#[test]
fn publish_reaches_subscribers_of_the_channel_in_order() {
    let mut bus = MemoryBroadcastProvider::new();
    let a = bus.subscribe("t1").unwrap();
    let b = bus.subscribe("t2").unwrap();
    bus.publish("t1", &event("e1", "t1", 0));
    bus.publish("t1", &event("e2", "t1", 1));
    let got = bus.take_pending(a);
    assert_eq!(got.len(), 2);
    assert_eq!(got[0].id, "e1");
    assert_eq!(got[1].id, "e2");
    assert!(bus.take_pending(b).is_empty());
    assert!(bus.take_pending(a).is_empty());
}

#[test]
fn unsubscribe_is_idempotent_and_independent() {
    let mut bus = MemoryBroadcastProvider::new();
    let a = bus.subscribe("t1").unwrap();
    let b = bus.subscribe("t1").unwrap();
    assert_ne!(a, b);
    bus.unsubscribe(a);
    bus.unsubscribe(a);
    bus.publish("t1", &event("e1", "t1", 0));
    assert!(bus.take_pending(a).is_empty());
    assert_eq!(bus.take_pending(b).len(), 1);
}

#[test]
fn broadcast_publish_with_no_subscribers() {
    let mut bus = MemoryBroadcastProvider::new();
    bus.publish("t1", &event("e1", "t1", 0));
    assert!(bus.take_pending(0).is_empty());
}

#[test]
fn broadcast_publish_with_subscriber() {
    let mut bus = MemoryBroadcastProvider::new();
    let token = bus.subscribe("t1").unwrap();
    bus.publish("t1", &event("e1", "t1", 0));
    assert_eq!(bus.take_pending(token).len(), 1);
}

#[test]
fn broadcast_unsubscribe_stops_delivery() {
    let mut bus = MemoryBroadcastProvider::new();
    let token = bus.subscribe("t1").unwrap();
    bus.publish("t1", &event("e1", "t1", 0));
    assert_eq!(bus.take_pending(token).len(), 1);
    bus.unsubscribe(token);
    bus.publish("t1", &event("e2", "t1", 1));
    assert!(bus.take_pending(token).is_empty());
}

#[test]
fn broadcast_multiple_subscribers_same_channel() {
    let mut bus = MemoryBroadcastProvider::new();
    let a = bus.subscribe("t1").unwrap();
    let b = bus.subscribe("t1").unwrap();
    bus.publish("t1", &event("e1", "t1", 0));
    assert_eq!(bus.take_pending(a).len(), 1);
    assert_eq!(bus.take_pending(b).len(), 1);
}

#[test]
fn broadcast_channels_are_independent() {
    let mut bus = MemoryBroadcastProvider::new();
    let token = bus.subscribe("t1").unwrap();
    bus.publish("t2", &event("e1", "t2", 0));
    assert!(bus.take_pending(token).is_empty());
}

#[test]
fn broadcast_unsubscribe_only_removes_target_handler() {
    let mut bus = MemoryBroadcastProvider::new();
    let a = bus.subscribe("t1").unwrap();
    let b = bus.subscribe("t1").unwrap();
    bus.unsubscribe(a);
    bus.publish("t1", &event("e1", "t1", 0));
    assert!(bus.take_pending(a).is_empty());
    assert_eq!(bus.take_pending(b).len(), 1);
}
