use vstd::prelude::*;

use crate::text::{starts_with_part, str_eq};
use crate::types::{Level, SubscribeFilter, TaskEvent};

verus! {

/// A task event with its consumer-local filtered index and its raw index.
#[derive(Clone, Debug)]
pub struct FilteredEvent {
    pub filtered_index: u64,
    pub raw_index: u64,
    pub event: TaskEvent,
}

/// The type of the events that status transitions emit.
pub open spec fn status_event_type() -> Seq<char> {
    "taskcast:status"@
}

/// One pattern against one event type: `*` matches everything, `prefix.*`
/// matches types that begin with `prefix.`, anything else matches itself.
pub open spec fn pattern_matches(p: Seq<char>, t: Seq<char>) -> bool {
    ||| p == seq!['*']
    ||| (p.len() >= 2 && p[p.len() - 2] == '.' && p[p.len() - 1] == '*'
        && p.subrange(0, p.len() - 1).is_prefix_of(t))
    ||| p == t
}

/// Views of a list of strings.
pub open spec fn views(ps: Seq<String>) -> Seq<Seq<char>> {
    ps.map_values(|s: String| s@)
}

/// An event type against a pattern list: no list admits every type, an
/// empty list admits none.
pub open spec fn type_admitted(t: Seq<char>, patterns: Option<Seq<Seq<char>>>) -> bool {
    match patterns {
        None => true,
        Some(ps) => some_pattern_matches(ps, t),
    }
}

/// Whether any of the patterns matches the event type.
pub open spec fn some_pattern_matches(ps: Seq<Seq<char>>, t: Seq<char>) -> bool {
    exists|i: int| 0 <= i < ps.len() && pattern_matches(#[trigger] ps[i], t)
}

/// Whether an event passes a subscribe filter.
pub open spec fn filter_accepts(e: TaskEvent, f: SubscribeFilter) -> bool {
    &&& !(f.include_status == Some(false) && e.event_type@ == status_event_type())
    &&& (f.types matches Some(ts) ==> type_admitted(e.event_type@, Some(views(ts@))))
    &&& (f.levels matches Some(ls) ==> ls@.contains(e.level))
}

/// How many events of `es` pass the filter.
pub open spec fn accepted_count(es: Seq<TaskEvent>, f: SubscribeFilter) -> nat
    decreases es.len(),
{
    if es.len() == 0 {
        0
    } else {
        accepted_count(es.drop_last(), f) + if filter_accepts(es.last(), f) { 1nat } else { 0nat }
    }
}

/// The `since.index` cursor of a filter, if any.
pub open spec fn since_index(f: SubscribeFilter) -> Option<u64> {
    match f.since {
        Some(c) => c.index,
        None => None,
    }
}

/// The filtered view of a log: each accepted event numbered by its rank
/// among the accepted ones, those at or below the `since.index` cursor left
/// out.
pub open spec fn filtered_view(es: Seq<TaskEvent>, f: SubscribeFilter) -> Seq<FilteredEvent>
    decreases es.len(),
{
    if es.len() == 0 {
        Seq::empty()
    } else {
        let prev = filtered_view(es.drop_last(), f);
        let e = es.last();
        let k = accepted_count(es.drop_last(), f);
        if filter_accepts(e, f) && !(since_index(f) matches Some(si) && k <= si) {
            prev.push(FilteredEvent { filtered_index: k as u64, raw_index: e.index, event: e })
        } else {
            prev
        }
    }
}

/// At most every event of a log passes a filter.
pub proof fn lemma_accepted_count_bound(es: Seq<TaskEvent>, f: SubscribeFilter)
    ensures
        accepted_count(es, f) <= es.len(),
    decreases es.len(),
{
    if es.len() > 0 {
        lemma_accepted_count_bound(es.drop_last(), f);
    }
}

/// Whether a single pattern matches an event type.
fn pattern_matches_exec(pattern: &str, event_type: &str) -> (r: bool)
    ensures
        r == pattern_matches(pattern@, event_type@),
{
    let n = pattern.unicode_len();
    if n == 1 && pattern.get_char(0) == '*' {
        assert(pattern@ =~= seq!['*']);
        return true;
    }
    if n >= 2 && pattern.get_char(n - 2) == '.' && pattern.get_char(n - 1) == '*' {
        if starts_with_part(event_type, pattern, n - 1) {
            return true;
        }
    }
    str_eq(pattern, event_type)
}

/// Whether `event_type` matches at least one of `patterns`. No patterns
/// means no filter; an empty list matches nothing.
pub fn matches_type(event_type: &str, patterns: Option<&[String]>) -> (r: bool)
    ensures
        r == type_admitted(event_type@, match patterns {
            Some(ps) => Some(views(ps@)),
            None => None,
        }),
{
    let ps = match patterns {
        None => return true,
        Some(p) => p,
    };
    let ghost vs = views(ps@);
    let mut i: usize = 0;
    while i < ps.len()
        invariant
            0 <= i <= ps@.len(),
            vs == views(ps@),
            patterns == Some(ps),
            forall|j: int| 0 <= j < i ==> !pattern_matches(#[trigger] vs[j], event_type@),
        decreases ps@.len() - i,
    {
        if pattern_matches_exec(ps[i].as_str(), event_type) {
            assert(vs[i as int] == ps@[i as int]@);
            assert(pattern_matches(vs[i as int], event_type@));
            assert(some_pattern_matches(vs, event_type@));
            return true;
        }
        i = i + 1;
    }
    false
}

/// Whether `level` is one of `levels`.
pub fn level_in(level: Level, levels: &Vec<Level>) -> (r: bool)
    ensures
        r == levels@.contains(level),
{
    let mut i: usize = 0;
    while i < levels.len()
        invariant
            0 <= i <= levels@.len(),
            forall|j: int| 0 <= j < i ==> levels@[j] != level,
        decreases levels@.len() - i,
    {
        if levels[i] == level {
            assert(levels@[i as int] == level);
            return true;
        }
        i = i + 1;
    }
    false
}

/// Whether an event passes a subscribe filter.
pub fn matches_filter(event: &TaskEvent, filter: &SubscribeFilter) -> (r: bool)
    ensures
        r == filter_accepts(*event, *filter),
{
    let include_status = match filter.include_status {
        Some(b) => b,
        None => true,
    };
    if !include_status && str_eq(event.event_type.as_str(), "taskcast:status") {
        return false;
    }
    if let Some(types) = &filter.types {
        if !matches_type(event.event_type.as_str(), Some(types.as_slice())) {
            return false;
        }
    }
    if let Some(levels) = &filter.levels {
        if !level_in(event.level, levels) {
            return false;
        }
    }
    true
}

/// Numbers the events that pass the filter in raw order, from 0, and
/// leaves out those at or below the `since.index` cursor (which still take
/// their number).
pub fn apply_filtered_index(events: &[TaskEvent], filter: &SubscribeFilter) -> (r: Vec<
    FilteredEvent,
>)
    ensures
        r@ == filtered_view(events@, *filter),
{
    let since = match &filter.since {
        Some(s) => s.index,
        None => None,
    };
    let mut counter: u64 = 0;
    let mut result: Vec<FilteredEvent> = Vec::new();
    let mut i: usize = 0;
    while i < events.len()
        invariant
            0 <= i <= events@.len(),
            since == since_index(*filter),
            counter == accepted_count(events@.subrange(0, i as int), *filter),
            result@ == filtered_view(events@.subrange(0, i as int), *filter),
        decreases events@.len() - i,
    {
        let ghost pre = events@.subrange(0, i as int);
        let ghost next = events@.subrange(0, i + 1);
        assert(next.drop_last() =~= pre);
        assert(next.last() == events@[i as int]);
        proof {
            lemma_accepted_count_bound(pre, *filter);
        }
        let event = &events[i];
        if matches_filter(event, filter) {
            let current = counter;
            counter = counter + 1;
            let skip = match since {
                Some(si) => current <= si,
                None => false,
            };
            if !skip {
                result.push(
                    FilteredEvent { filtered_index: current, raw_index: event.index, event: event.duplicate() },
                );
            }
        }
        i = i + 1;
    }
    assert(events@.subrange(0, events@.len() as int) =~= events@);
    result
}

/// Applying the filter twice to the same log gives equal results, with
/// equal filtered indices.
pub proof fn lemma_filter_deterministic(
    es: Seq<TaskEvent>,
    f: SubscribeFilter,
    r1: Seq<FilteredEvent>,
    r2: Seq<FilteredEvent>,
)
    requires
        r1 == filtered_view(es, f),
        r2 == filtered_view(es, f),
    ensures
        r1 == r2,
        forall|i: int| 0 <= i < r1.len() ==> r1[i].filtered_index == r2[i].filtered_index,
{
}

} // verus!
