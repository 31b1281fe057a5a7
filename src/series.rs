use vstd::prelude::*;

use crate::json::{json_text_member, json_with_text, text_member, with_text_member};
use crate::store::{replaced_log, MemoryShortTermStore};
use crate::text::concat;
use crate::types::{SeriesMode, TaskEvent};

verus! {

/// The data of an accumulated event: where both the previous event of the
/// series and the new one are objects with a string `text`, the new object
/// with the two texts joined; otherwise the new data as it is.
pub open spec fn accumulated_data(prev: Option<TaskEvent>, e: TaskEvent) -> Seq<char> {
    match prev {
        Some(p) => match (json_text_member(p.data@), json_text_member(e.data@)) {
            (Some(a), Some(b)) => json_with_text(e.data@, a + b),
            _ => e.data@,
        },
        None => e.data@,
    }
}

/// `r` is `e` with its data replaced, all else equal.
pub open spec fn same_but_data(r: TaskEvent, e: TaskEvent) -> bool {
    r == TaskEvent { data: r.data, ..e }
}

/// Applies an event's series mode against the store and returns the event
/// that observers see. Without a series id and mode, or under keep-all, the
/// event is returned and the store left alone. Under accumulate, the text
/// is joined with the series' previous event and the result recorded as the
/// series' latest. Under latest, the event takes the place of the previous
/// one in the log (or is appended) and is recorded as the latest.
pub fn process_series(event: TaskEvent, store: &mut MemoryShortTermStore) -> (r: TaskEvent)
    requires
        old(store).wf(),
    ensures
        final(store).wf(),
        match (event.series_id, event.series_mode) {
            (Some(sid), Some(SeriesMode::Accumulate)) => {
                &&& same_but_data(r, event)
                &&& r.data@ == accumulated_data(old(store).latest_of(event.task_id@, sid@), event)
                &&& forall|k: Seq<char>, s: Seq<char>| #[trigger] final(store).latest_of(k, s) == if k
                    == event.task_id@ && s == sid@ {
                    Some(r)
                } else {
                    old(store).latest_of(k, s)
                }
                &&& forall|k: Seq<char>| #[trigger] final(store).task_of(k) == old(store).task_of(k)
                &&& forall|k: Seq<char>| #[trigger] final(store).log_of(k) == old(store).log_of(k)
                &&& forall|k: Seq<char>| #[trigger] final(store).counter_of(k) == old(store).counter_of(k)
            },
            (Some(sid), Some(SeriesMode::Latest)) => {
                &&& r == event
                &&& final(store).log_of(event.task_id@) == replaced_log(
                    old(store).log_of(event.task_id@),
                    old(store).latest_of(event.task_id@, sid@),
                    event,
                )
                &&& forall|k: Seq<char>, s: Seq<char>| #[trigger] final(store).latest_of(k, s) == if k
                    == event.task_id@ && s == sid@ {
                    Some(event)
                } else {
                    old(store).latest_of(k, s)
                }
                &&& forall|k: Seq<char>| #[trigger] final(store).task_of(k) == old(store).task_of(k)
                &&& forall|k: Seq<char>| k != event.task_id@ ==> #[trigger] final(store).log_of(k)
                    == old(store).log_of(k)
                &&& forall|k: Seq<char>| #[trigger] final(store).counter_of(k) == old(store).counter_of(k)
            },
            _ => r == event && final(store).same_as(old(store)),
        },
{
    let (series_id, mode) = match (&event.series_id, event.series_mode) {
        (Some(sid), Some(m)) => (sid.clone(), m),
        _ => return event,
    };
    match mode {
        SeriesMode::KeepAll => event,
        SeriesMode::Accumulate => {
            let prev = store.get_series_latest(event.task_id.as_str(), series_id.as_str());
            let merged = match prev {
                Some(p) => match (text_member(p.data.as_str()), text_member(event.data.as_str())) {
                    (Some(a), Some(b)) => {
                        let joined = concat(a.as_str(), b.as_str());
                        let data = with_text_member(event.data.as_str(), joined.as_str());
                        TaskEvent { data, ..event }
                    },
                    _ => event,
                },
                None => event,
            };
            store.set_series_latest(merged.task_id.as_str(), series_id.as_str(), merged.duplicate());
            merged
        },
        SeriesMode::Latest => {
            store.replace_last_series_event(event.task_id.as_str(), series_id.as_str(), event.duplicate());
            event
        },
    }
}

} // verus!
