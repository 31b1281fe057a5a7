use vstd::prelude::*;

use crate::filter::{level_in, matches_type, type_admitted, views};
use crate::state_machine::{is_terminal, terminal};
use crate::types::{CleanupEventFilter, CleanupRule, SeriesMode, Task, TaskEvent, TaskStatus};

verus! {

/// The moment a task finished, or its last update where it has none.
pub open spec fn finished_at(task: Task) -> int {
    match task.completed_at {
        Some(c) => c as int,
        None => task.updated_at as int,
    }
}

/// Whether a retention rule applies to a task at time `now` (ms).
pub open spec fn rule_applies(task: Task, rule: CleanupRule, now: int) -> bool {
    &&& terminal(task.status)
    &&& (rule.rule_match matches Some(m) ==> {
        &&& (m.status matches Some(ss) ==> ss@.contains(task.status))
        &&& (m.task_types matches Some(tt) ==> (task.task_type matches Some(t)
            && type_admitted(t@, Some(views(tt@)))))
    })
    &&& (rule.trigger.after_ms matches Some(a) ==> now - finished_at(task) >= a)
}

/// Whether a cleanup event filter selects an event; `completed_at` is the
/// task's completion time, without which the age test is skipped.
pub open spec fn event_selected(e: TaskEvent, ef: CleanupEventFilter, completed_at: Option<u64>) -> bool {
    &&& (ef.types matches Some(ts) ==> type_admitted(e.event_type@, Some(views(ts@))))
    &&& (ef.levels matches Some(ls) ==> ls@.contains(e.level))
    &&& (ef.series_mode matches Some(ms) ==> (e.series_mode matches Some(m) && ms@.contains(m)))
    &&& ((ef.older_than_ms, completed_at) matches (Some(o), Some(c)) ==> (e.timestamp as int) < (c
        as int) - (o as int))
}

/// The events of `es` that a rule removes, in their order.
pub open spec fn selected_events(es: Seq<TaskEvent>, rule: CleanupRule, completed_at: Option<u64>) -> Seq<
    TaskEvent,
>
    decreases es.len(),
{
    if es.len() == 0 {
        Seq::empty()
    } else {
        let prev = selected_events(es.drop_last(), rule, completed_at);
        match rule.event_filter {
            None => prev.push(es.last()),
            Some(ef) => if event_selected(es.last(), ef, completed_at) {
                prev.push(es.last())
            } else {
                prev
            },
        }
    }
}

/// Whether `s` is one of `ss`.
pub fn status_in(s: TaskStatus, ss: &Vec<TaskStatus>) -> (r: bool)
    ensures
        r == ss@.contains(s),
{
    let mut i: usize = 0;
    while i < ss.len()
        invariant
            0 <= i <= ss@.len(),
            forall|j: int| 0 <= j < i ==> ss@[j] != s,
        decreases ss@.len() - i,
    {
        if ss[i] == s {
            assert(ss@[i as int] == s);
            return true;
        }
        i = i + 1;
    }
    false
}

/// Whether `m` is one of `ms`.
pub fn mode_in(m: SeriesMode, ms: &Vec<SeriesMode>) -> (r: bool)
    ensures
        r == ms@.contains(m),
{
    let mut i: usize = 0;
    while i < ms.len()
        invariant
            0 <= i <= ms@.len(),
            forall|j: int| 0 <= j < i ==> ms@[j] != m,
        decreases ms@.len() - i,
    {
        if ms[i] == m {
            assert(ms@[i as int] == m);
            return true;
        }
        i = i + 1;
    }
    false
}

/// Whether a task matches a retention rule at time `now` (ms): it is
/// terminal, its status and type are among those the rule names, and enough
/// time has passed since it finished.
pub fn matches_cleanup_rule(task: &Task, rule: &CleanupRule, now: u64) -> (r: bool)
    ensures
        r == rule_applies(*task, *rule, now as int),
{
    if !is_terminal(&task.status) {
        return false;
    }
    if let Some(m) = &rule.rule_match {
        if let Some(statuses) = &m.status {
            if !status_in(task.status, statuses) {
                return false;
            }
        }
        if let Some(task_types) = &m.task_types {
            match &task.task_type {
                Some(t) => {
                    if !matches_type(t.as_str(), Some(task_types.as_slice())) {
                        return false;
                    }
                },
                None => return false,
            }
        }
    }
    if let Some(after_ms) = rule.trigger.after_ms {
        let completed_at = match task.completed_at {
            Some(c) => c,
            None => task.updated_at,
        };
        if now < completed_at || now - completed_at < after_ms {
            return false;
        }
    }
    true
}

/// Whether an event passes every part of a cleanup event filter.
fn event_selected_exec(e: &TaskEvent, ef: &CleanupEventFilter, completed_at: Option<u64>) -> (r: bool)
    ensures
        r == event_selected(*e, *ef, completed_at),
{
    if let Some(types) = &ef.types {
        if !matches_type(e.event_type.as_str(), Some(types.as_slice())) {
            return false;
        }
    }
    if let Some(levels) = &ef.levels {
        if !level_in(e.level, levels) {
            return false;
        }
    }
    if let Some(modes) = &ef.series_mode {
        match e.series_mode {
            Some(m) => {
                if !mode_in(m, modes) {
                    return false;
                }
            },
            None => return false,
        }
    }
    if let Some(older_than_ms) = ef.older_than_ms {
        if let Some(completed) = completed_at {
            if completed < older_than_ms || e.timestamp >= completed - older_than_ms {
                return false;
            }
        }
    }
    true
}

/// The events that a rule removes: all of them without an event filter,
/// otherwise those that every part of the filter selects.
pub fn filter_events_for_cleanup(
    events: &[TaskEvent],
    rule: &CleanupRule,
    now: u64,
    completed_at: Option<u64>,
) -> (r: Vec<TaskEvent>)
    ensures
        r@ == selected_events(events@, *rule, completed_at),
{
    let mut result: Vec<TaskEvent> = Vec::new();
    let mut i: usize = 0;
    while i < events.len()
        invariant
            0 <= i <= events@.len(),
            result@ == selected_events(events@.subrange(0, i as int), *rule, completed_at),
        decreases events@.len() - i,
    {
        let ghost next = events@.subrange(0, i + 1);
        assert(next.drop_last() =~= events@.subrange(0, i as int));
        let keep = match &rule.event_filter {
            None => true,
            Some(ef) => event_selected_exec(&events[i], ef, completed_at),
        };
        if keep {
            result.push(events[i].duplicate());
        }
        i = i + 1;
    }
    assert(events@.subrange(0, events@.len() as int) =~= events@);
    result
}

} // verus!
