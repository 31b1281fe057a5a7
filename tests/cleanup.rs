use taskcast::cleanup::{filter_events_for_cleanup, matches_cleanup_rule};
use taskcast::types::{CleanupEventFilter, CleanupRule, CleanupRuleMatch, CleanupTarget, CleanupTrigger, Level, SeriesMode, Task, TaskEvent, TaskStatus};

// ─── Helpers ────────────────────────────────────────────────────────────

fn make_task(status: TaskStatus) -> Task {
    Task {
        id: "task_01".to_string(),
        task_type: Some("crawl".to_string()),
        status,
        params: None,
        result: None,
        error: None,
        metadata: None,
        created_at: 1_000_000,
        updated_at: 2_000_000,
        completed_at: Some(2_000_000),
        ttl: None,
        auth_config: None,
        webhooks: None,
        cleanup: None,
    }
}

fn make_rule() -> CleanupRule {
    CleanupRule {
        name: None,
        rule_match: None,
        trigger: CleanupTrigger { after_ms: None },
        target: CleanupTarget::All,
        event_filter: None,
    }
}

fn make_event(index: u64, event_type: &str, level: Level, timestamp: u64) -> TaskEvent {
    TaskEvent {
        id: format!("evt_{}", index),
        task_id: "task_01".to_string(),
        index,
        timestamp,
        event_type: event_type.to_string(),
        level,
        data: "null".to_string(),
        series_id: None,
        series_mode: None,
    }
}

// ─── matches_cleanup_rule ───────────────────────────────────────────────

#[test]
fn non_terminal_task_does_not_match() {
    let task = make_task(TaskStatus::Pending);
    let rule = make_rule();
    assert!(!matches_cleanup_rule(&task, &rule, 99_999_999));
}

#[test]
fn running_task_does_not_match() {
    let task = make_task(TaskStatus::Running);
    let rule = make_rule();
    assert!(!matches_cleanup_rule(&task, &rule, 99_999_999));
}

#[test]
fn terminal_task_matches_with_no_constraints() {
    let task = make_task(TaskStatus::Completed);
    let rule = make_rule();
    assert!(matches_cleanup_rule(&task, &rule, 99_999_999));
}

#[test]
fn terminal_task_failed_matches_with_no_constraints() {
    let task = make_task(TaskStatus::Failed);
    let rule = make_rule();
    assert!(matches_cleanup_rule(&task, &rule, 99_999_999));
}

#[test]
fn terminal_task_timeout_matches_with_no_constraints() {
    let task = make_task(TaskStatus::Timeout);
    let rule = make_rule();
    assert!(matches_cleanup_rule(&task, &rule, 99_999_999));
}

#[test]
fn terminal_task_cancelled_matches_with_no_constraints() {
    let task = make_task(TaskStatus::Cancelled);
    let rule = make_rule();
    assert!(matches_cleanup_rule(&task, &rule, 99_999_999));
}

// ─── Status matching ────────────────────────────────────────────────────

#[test]
fn matching_status_returns_true() {
    let task = make_task(TaskStatus::Completed);
    let rule = CleanupRule {
        rule_match: Some(CleanupRuleMatch {
            status: Some(vec![TaskStatus::Completed, TaskStatus::Failed]),
            task_types: None,
        }),
        ..make_rule()
    };
    assert!(matches_cleanup_rule(&task, &rule, 99_999_999));
}

#[test]
fn non_matching_status_returns_false() {
    let task = make_task(TaskStatus::Cancelled);
    let rule = CleanupRule {
        rule_match: Some(CleanupRuleMatch {
            status: Some(vec![TaskStatus::Completed, TaskStatus::Failed]),
            task_types: None,
        }),
        ..make_rule()
    };
    assert!(!matches_cleanup_rule(&task, &rule, 99_999_999));
}

// ─── Task type matching ─────────────────────────────────────────────────

#[test]
fn matching_task_type_exact() {
    let task = make_task(TaskStatus::Completed);
    let rule = CleanupRule {
        rule_match: Some(CleanupRuleMatch {
            status: None,
            task_types: Some(vec!["crawl".to_string()]),
        }),
        ..make_rule()
    };
    assert!(matches_cleanup_rule(&task, &rule, 99_999_999));
}

#[test]
fn matching_task_type_wildcard() {
    let mut task = make_task(TaskStatus::Completed);
    task.task_type = Some("crawl.deep".to_string());
    let rule = CleanupRule {
        rule_match: Some(CleanupRuleMatch {
            status: None,
            task_types: Some(vec!["crawl.*".to_string()]),
        }),
        ..make_rule()
    };
    assert!(matches_cleanup_rule(&task, &rule, 99_999_999));
}

#[test]
fn non_matching_task_type_returns_false() {
    let task = make_task(TaskStatus::Completed);
    let rule = CleanupRule {
        rule_match: Some(CleanupRuleMatch {
            status: None,
            task_types: Some(vec!["render".to_string()]),
        }),
        ..make_rule()
    };
    assert!(!matches_cleanup_rule(&task, &rule, 99_999_999));
}

#[test]
fn task_with_no_type_does_not_match_task_types_rule() {
    let mut task = make_task(TaskStatus::Completed);
    task.task_type = None;
    let rule = CleanupRule {
        rule_match: Some(CleanupRuleMatch {
            status: None,
            task_types: Some(vec!["crawl".to_string()]),
        }),
        ..make_rule()
    };
    assert!(!matches_cleanup_rule(&task, &rule, 99_999_999));
}

// ─── Trigger afterMs ────────────────────────────────────────────────────

#[test]
fn trigger_after_ms_elapsed_matches() {
    let task = make_task(TaskStatus::Completed); // completed_at = 2_000_000
    let rule = CleanupRule {
        trigger: CleanupTrigger {
            after_ms: Some(1_000_000),
        },
        ..make_rule()
    };
    // now = 3_000_001 => elapsed = 1_000_001 >= 1_000_000
    assert!(matches_cleanup_rule(&task, &rule, 3_000_001));
}

#[test]
fn trigger_after_ms_exactly_elapsed_matches() {
    let task = make_task(TaskStatus::Completed); // completed_at = 2_000_000
    let rule = CleanupRule {
        trigger: CleanupTrigger {
            after_ms: Some(1_000_000),
        },
        ..make_rule()
    };
    // now = 3_000_000 => elapsed = 1_000_000 >= 1_000_000
    assert!(matches_cleanup_rule(&task, &rule, 3_000_000));
}

#[test]
fn trigger_after_ms_not_elapsed_does_not_match() {
    let task = make_task(TaskStatus::Completed); // completed_at = 2_000_000
    let rule = CleanupRule {
        trigger: CleanupTrigger {
            after_ms: Some(1_000_000),
        },
        ..make_rule()
    };
    // now = 2_500_000 => elapsed = 500_000 < 1_000_000
    assert!(!matches_cleanup_rule(&task, &rule, 2_500_000));
}

#[test]
fn trigger_after_ms_uses_updated_at_when_no_completed_at() {
    let mut task = make_task(TaskStatus::Failed);
    task.completed_at = None;
    task.updated_at = 5_000_000;
    let rule = CleanupRule {
        trigger: CleanupTrigger {
            after_ms: Some(1_000),
        },
        ..make_rule()
    };
    // now = 5_001_001 => elapsed = 1_001 >= 1_000
    assert!(matches_cleanup_rule(&task, &rule, 5_001_001));
    // now = 5_000_500 => elapsed = 500 < 1_000
    assert!(!matches_cleanup_rule(&task, &rule, 5_000_500));
}

// ─── Combined constraints ───────────────────────────────────────────────

#[test]
fn combined_status_and_type_and_trigger() {
    let task = make_task(TaskStatus::Completed); // type="crawl", completed_at=2_000_000
    let rule = CleanupRule {
        rule_match: Some(CleanupRuleMatch {
            status: Some(vec![TaskStatus::Completed]),
            task_types: Some(vec!["crawl".to_string()]),
        }),
        trigger: CleanupTrigger {
            after_ms: Some(500_000),
        },
        ..make_rule()
    };
    // now = 2_600_000 => elapsed = 600_000 >= 500_000
    assert!(matches_cleanup_rule(&task, &rule, 2_600_000));
}

// ─── filter_events_for_cleanup ──────────────────────────────────────────

#[test]
fn no_event_filter_returns_all_events() {
    let events = vec![
        make_event(0, "log", Level::Info, 100),
        make_event(1, "progress", Level::Debug, 200),
    ];
    let rule = make_rule(); // event_filter = None
    let result = filter_events_for_cleanup(&events, &rule, 999, Some(500));
    assert_eq!(result.len(), 2);
}

#[test]
fn type_filter_keeps_matching_events() {
    let events = vec![
        make_event(0, "log", Level::Info, 100),
        make_event(1, "progress", Level::Info, 200),
        make_event(2, "log.detail", Level::Info, 300),
    ];
    let rule = CleanupRule {
        event_filter: Some(CleanupEventFilter {
            types: Some(vec!["log".to_string()]),
            levels: None,
            older_than_ms: None,
            series_mode: None,
        }),
        ..make_rule()
    };
    let result = filter_events_for_cleanup(&events, &rule, 999, None);
    assert_eq!(result.len(), 1);
    assert_eq!(result[0].event_type, "log");
}

#[test]
fn type_filter_wildcard() {
    let events = vec![
        make_event(0, "log", Level::Info, 100),
        make_event(1, "log.detail", Level::Info, 200),
        make_event(2, "progress", Level::Info, 300),
    ];
    let rule = CleanupRule {
        event_filter: Some(CleanupEventFilter {
            types: Some(vec!["log.*".to_string()]),
            levels: None,
            older_than_ms: None,
            series_mode: None,
        }),
        ..make_rule()
    };
    let result = filter_events_for_cleanup(&events, &rule, 999, None);
    assert_eq!(result.len(), 1);
    assert_eq!(result[0].event_type, "log.detail");
}

#[test]
fn level_filter_keeps_matching_events() {
    let events = vec![
        make_event(0, "log", Level::Debug, 100),
        make_event(1, "log", Level::Info, 200),
        make_event(2, "log", Level::Error, 300),
    ];
    let rule = CleanupRule {
        event_filter: Some(CleanupEventFilter {
            types: None,
            levels: Some(vec![Level::Debug, Level::Info]),
            older_than_ms: None,
            series_mode: None,
        }),
        ..make_rule()
    };
    let result = filter_events_for_cleanup(&events, &rule, 999, None);
    assert_eq!(result.len(), 2);
    assert_eq!(result[0].level, Level::Debug);
    assert_eq!(result[1].level, Level::Info);
}

#[test]
fn series_mode_filter_keeps_matching_events() {
    let mut evt0 = make_event(0, "log", Level::Info, 100);
    evt0.series_mode = Some(SeriesMode::KeepAll);
    let mut evt1 = make_event(1, "log", Level::Info, 200);
    evt1.series_mode = Some(SeriesMode::Latest);
    let evt2 = make_event(2, "log", Level::Info, 300); // no series_mode

    let events = vec![evt0, evt1, evt2];
    let rule = CleanupRule {
        event_filter: Some(CleanupEventFilter {
            types: None,
            levels: None,
            older_than_ms: None,
            series_mode: Some(vec![SeriesMode::KeepAll]),
        }),
        ..make_rule()
    };
    let result = filter_events_for_cleanup(&events, &rule, 999, None);
    assert_eq!(result.len(), 1);
    assert_eq!(result[0].series_mode, Some(SeriesMode::KeepAll));
}

#[test]
fn series_mode_filter_excludes_events_without_series_mode() {
    let evt = make_event(0, "log", Level::Info, 100); // series_mode = None
    let events = vec![evt];
    let rule = CleanupRule {
        event_filter: Some(CleanupEventFilter {
            types: None,
            levels: None,
            older_than_ms: None,
            series_mode: Some(vec![SeriesMode::Accumulate]),
        }),
        ..make_rule()
    };
    let result = filter_events_for_cleanup(&events, &rule, 999, None);
    assert!(result.is_empty());
}

#[test]
fn older_than_ms_filter_keeps_old_events() {
    // completed_at = 1000, older_than_ms = 500, cutoff = 1000 - 500 = 500
    // event at timestamp 400 < 500 => kept
    // event at timestamp 500 >= 500 => excluded
    // event at timestamp 800 >= 500 => excluded
    let events = vec![
        make_event(0, "log", Level::Info, 400),
        make_event(1, "log", Level::Info, 500),
        make_event(2, "log", Level::Info, 800),
    ];
    let rule = CleanupRule {
        event_filter: Some(CleanupEventFilter {
            types: None,
            levels: None,
            older_than_ms: Some(500),
            series_mode: None,
        }),
        ..make_rule()
    };
    let result = filter_events_for_cleanup(&events, &rule, 2000, Some(1000));
    assert_eq!(result.len(), 1);
    assert_eq!(result[0].timestamp, 400);
}

#[test]
fn older_than_ms_filter_without_completed_at_keeps_all() {
    let events = vec![
        make_event(0, "log", Level::Info, 100),
        make_event(1, "log", Level::Info, 200),
    ];
    let rule = CleanupRule {
        event_filter: Some(CleanupEventFilter {
            types: None,
            levels: None,
            older_than_ms: Some(50),
            series_mode: None,
        }),
        ..make_rule()
    };
    // No completed_at means the olderThanMs check is skipped
    let result = filter_events_for_cleanup(&events, &rule, 999, None);
    assert_eq!(result.len(), 2);
}

#[test]
fn combined_event_filters() {
    let events = vec![
        make_event(0, "log", Level::Debug, 100),
        make_event(1, "log", Level::Info, 200),
        make_event(2, "progress", Level::Debug, 300),
        make_event(3, "log", Level::Debug, 600),
    ];
    let rule = CleanupRule {
        event_filter: Some(CleanupEventFilter {
            types: Some(vec!["log".to_string()]),
            levels: Some(vec![Level::Debug]),
            older_than_ms: Some(500),
            series_mode: None,
        }),
        ..make_rule()
    };
    // completed_at=1000, older_than_ms=500, cutoff=500
    // event 0: type=log OK, level=Debug OK, timestamp 100 < 500 OK => kept
    // event 1: type=log OK, level=Info != Debug => excluded
    // event 2: type=progress != log => excluded
    // event 3: type=log OK, level=Debug OK, timestamp 600 >= 500 => excluded
    let result = filter_events_for_cleanup(&events, &rule, 2000, Some(1000));
    assert_eq!(result.len(), 1);
    assert_eq!(result[0].index, 0);
}

#[test]
fn empty_events_returns_empty() {
    let events: Vec<TaskEvent> = vec![];
    let rule = make_rule();
    let result = filter_events_for_cleanup(&events, &rule, 999, None);
    assert!(result.is_empty());
}

#[test]
fn cleanup_rule_composition() {
    let task = make_task(TaskStatus::Completed);
    let rule = CleanupRule {
        rule_match: Some(CleanupRuleMatch {
            task_types: Some(vec!["crawl".to_string()]),
            status: Some(vec![TaskStatus::Completed]),
        }),
        trigger: CleanupTrigger { after_ms: Some(500_000) },
        ..make_rule()
    };
    assert!(matches_cleanup_rule(&task, &rule, 2_600_000));
    assert!(!matches_cleanup_rule(&task, &rule, 2_400_000));
}
