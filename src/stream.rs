use vstd::prelude::*;

use crate::filter::{
    accepted_count, apply_filtered_index, filter_accepts, filtered_view, matches_filter,
    status_event_type, FilteredEvent,
};
use crate::json::{json_status_member, status_member};
use crate::state_machine::{is_terminal, status_wire_name, terminal, wire_name};
use crate::text::str_eq;
use crate::types::{SSEEnvelope, SubscribeFilter, TaskEvent, TaskStatus};

verus! {

/// The body of a data message: the wrapped envelope or the event itself.
#[derive(Clone, Debug)]
pub enum StreamPayload {
    Envelope(SSEEnvelope),
    Raw(TaskEvent),
}

/// One message of an event stream.
#[derive(Clone, Debug)]
pub enum StreamMessage {
    /// A `taskcast.event` message; `id` is the event id.
    Event { id: String, payload: StreamPayload },
    /// The closing `taskcast.done` message.
    Done { reason: String },
}

/// Where a live stream stands: the filtered index of the next matching
/// event, and whether it has ended.
#[derive(Clone, Copy, Debug, PartialEq, Eq, Structural)]
pub struct StreamState {
    pub next_filtered_index: u64,
    pub closed: bool,
}

/// The envelope of an event at a filtered index.
pub open spec fn envelope_of(e: TaskEvent, filtered_index: u64) -> SSEEnvelope {
    SSEEnvelope {
        filtered_index,
        raw_index: e.index,
        event_id: e.id,
        task_id: e.task_id,
        event_type: e.event_type,
        timestamp: e.timestamp,
        level: e.level,
        data: e.data,
        series_id: e.series_id,
        series_mode: e.series_mode,
    }
}

/// Whether a filter asks for envelopes (the default) or raw events.
pub open spec fn wraps(f: SubscribeFilter) -> bool {
    f.wrap != Some(false)
}

/// The data message for a filtered event.
pub open spec fn message_for(fe: FilteredEvent, wrap: bool) -> StreamMessage {
    StreamMessage::Event {
        id: fe.event.id,
        payload: if wrap {
            StreamPayload::Envelope(envelope_of(fe.event, fe.filtered_index))
        } else {
            StreamPayload::Raw(fe.event)
        },
    }
}

/// Whether an event ends a stream: a status event whose data names a
/// terminal status.
pub open spec fn ends_stream(e: TaskEvent) -> bool {
    &&& e.event_type@ == status_event_type()
    &&& json_status_member(e.data@) matches Some(n)
    &&& (n == wire_name(TaskStatus::Completed) || n == wire_name(TaskStatus::Failed) || n == wire_name(
        TaskStatus::Timeout,
    ) || n == wire_name(TaskStatus::Cancelled))
}

/// The envelope of an event at a filtered index.
pub fn to_envelope(event: &TaskEvent, filtered_index: u64) -> (r: SSEEnvelope)
    ensures
        r == envelope_of(*event, filtered_index),
{
    let e = event.duplicate();
    SSEEnvelope {
        filtered_index,
        raw_index: e.index,
        event_id: e.id,
        task_id: e.task_id,
        event_type: e.event_type,
        timestamp: e.timestamp,
        level: e.level,
        data: e.data,
        series_id: e.series_id,
        series_mode: e.series_mode,
    }
}

/// Whether a status is terminal.
pub fn is_terminal_status(status: &TaskStatus) -> (r: bool)
    ensures
        r == terminal(*status),
{
    is_terminal(status)
}

fn message_of(fe: &FilteredEvent, wrap: bool) -> (r: StreamMessage)
    ensures
        r == message_for(*fe, wrap),
{
    let payload = if wrap {
        StreamPayload::Envelope(to_envelope(&fe.event, fe.filtered_index))
    } else {
        StreamPayload::Raw(fe.event.duplicate())
    };
    StreamMessage::Event { id: fe.event.id.clone(), payload }
}

/// Every filtered index of a log's filtered view is below the number of
/// events that pass the filter, which is at most the log's length.
pub proof fn lemma_filtered_indices_bounded(es: Seq<TaskEvent>, f: SubscribeFilter)
    ensures
        forall|i: int|
            0 <= i < filtered_view(es, f).len() ==> (#[trigger] filtered_view(es, f)[i]).filtered_index
                < accepted_count(es, f),
        accepted_count(es, f) <= es.len(),
    decreases es.len(),
{
    if es.len() > 0 {
        lemma_filtered_indices_bounded(es.drop_last(), f);
        crate::filter::lemma_accepted_count_bound(es.drop_last(), f);
    }
}

/// The state a stream goes live in after replaying `replayed`.
pub open spec fn live_start(replayed: Seq<FilteredEvent>) -> u64 {
    if replayed.len() == 0 {
        0
    } else {
        (replayed.last().filtered_index + 1) as u64
    }
}

/// Opens a stream on a task in status `status` whose log is `history`: one
/// data message per event of the filtered view, then, where the task is
/// terminal, a done message naming its status, which ends the stream.
/// Otherwise the stream goes live, numbering from just past the last
/// replayed event.
pub fn replay(status: TaskStatus, history: &[TaskEvent], filter: &SubscribeFilter) -> (r: (
    Vec<StreamMessage>,
    StreamState,
))
    ensures
        ({
            let fv = filtered_view(history@, *filter);
            &&& forall|i: int| 0 <= i < fv.len() ==> r.0@[i] == message_for(#[trigger] fv[i], wraps(*filter))
            &&& terminal(status) ==> {
                &&& r.0@.len() == fv.len() + 1
                &&& r.0@[fv.len() as int] matches StreamMessage::Done { reason } && reason@ == wire_name(status)
                &&& r.1.closed
            }
            &&& !terminal(status) ==> {
                &&& r.0@.len() == fv.len()
                &&& r.1 == StreamState { next_filtered_index: live_start(fv), closed: false }
            }
        }),
{
    let wrap = match filter.wrap {
        Some(w) => w,
        None => true,
    };
    let filtered = apply_filtered_index(history, filter);
    let ghost fv = filtered@;
    proof {
        lemma_filtered_indices_bounded(history@, *filter);
    }
    let mut out: Vec<StreamMessage> = Vec::new();
    let mut i: usize = 0;
    while i < filtered.len()
        invariant
            0 <= i <= filtered@.len(),
            fv == filtered@,
            wrap == wraps(*filter),
            out@.len() == i,
            forall|j: int| 0 <= j < i ==> out@[j] == message_for(#[trigger] fv[j], wrap),
        decreases filtered@.len() - i,
    {
        out.push(message_of(&filtered[i], wrap));
        i = i + 1;
    }
    if is_terminal(&status) {
        out.push(StreamMessage::Done { reason: String::from_str(status_wire_name(&status)) });
        return (out, StreamState { next_filtered_index: 0, closed: true });
    }
    let next = if filtered.len() == 0 {
        0
    } else {
        let n = history.len();
        let last = filtered[filtered.len() - 1].filtered_index;
        assert(fv[fv.len() - 1] == fv.last());
        assert(last < accepted_count(history@, *filter));
        assert(last < n);
        last + 1
    };
    (out, StreamState { next_filtered_index: next, closed: false })
}

/// Whether a live event ends the stream.
fn ends_stream_exec(e: &TaskEvent) -> (r: bool)
    ensures
        r == ends_stream(*e),
{
    if !str_eq(e.event_type.as_str(), "taskcast:status") {
        return false;
    }
    match status_member(e.data.as_str()) {
        Some(name) => {
            let n = name.as_str();
            str_eq(n, "completed") || str_eq(n, "failed") || str_eq(n, "timeout") || str_eq(
                n,
                "cancelled",
            )
        },
        None => false,
    }
}

/// One live event on a stream: ignored once the stream has ended or where
/// the filter rejects it; otherwise a data message at the next filtered
/// index, followed by a done message (ending the stream) where the event
/// reports a terminal status.
pub fn on_live_event(state: StreamState, event: &TaskEvent, filter: &SubscribeFilter) -> (r: (
    Vec<StreamMessage>,
    StreamState,
))
    requires
        state.next_filtered_index < u64::MAX,
    ensures
        state.closed || !filter_accepts(*event, *filter) ==> r.0@.len() == 0 && r.1 == state,
        !state.closed && filter_accepts(*event, *filter) ==> {
            &&& r.0@[0] == message_for(
                FilteredEvent {
                    filtered_index: state.next_filtered_index,
                    raw_index: event.index,
                    event: *event,
                },
                wraps(*filter),
            )
            &&& r.1.next_filtered_index == state.next_filtered_index + 1
            &&& ends_stream(*event) ==> r.0@.len() == 2 && r.1.closed && (r.0@[1] matches StreamMessage::Done {
                reason,
            } && json_status_member(event.data@) == Some(reason@))
            &&& !ends_stream(*event) ==> r.0@.len() == 1 && !r.1.closed
        },
{
    let mut out: Vec<StreamMessage> = Vec::new();
    if state.closed || !matches_filter(event, filter) {
        return (out, state);
    }
    let wrap = match filter.wrap {
        Some(w) => w,
        None => true,
    };
    let fe = FilteredEvent {
        filtered_index: state.next_filtered_index,
        raw_index: event.index,
        event: event.duplicate(),
    };
    out.push(message_of(&fe, wrap));
    let next = state.next_filtered_index + 1;
    if ends_stream_exec(event) {
        let reason = match status_member(event.data.as_str()) {
            Some(n) => n,
            None => String::new(),
        };
        out.push(StreamMessage::Done { reason });
        return (out, StreamState { next_filtered_index: next, closed: true });
    }
    (out, StreamState { next_filtered_index: next, closed: false })
}

} // verus!

verus! {

/// Replay and live join: where every event of the history passes the filter
/// and no `since.index` cursor is set, the replay numbers the history
/// `0..n` in order and the stream goes live at `n`, so the next two
/// matching live events receive `n` and `n + 1`.
pub proof fn lemma_replay_then_live(h: Seq<TaskEvent>, f: SubscribeFilter)
    requires
        forall|i: int| 0 <= i < h.len() ==> filter_accepts(#[trigger] h[i], f),
        crate::filter::since_index(f) is None,
        h.len() < u64::MAX,
    ensures
        filtered_view(h, f).len() == h.len(),
        forall|i: int|
            0 <= i < h.len() ==> (#[trigger] filtered_view(h, f)[i]).filtered_index == i
                && filtered_view(h, f)[i].event == h[i],
        live_start(filtered_view(h, f)) == h.len(),
        accepted_count(h, f) == h.len(),
    decreases h.len(),
{
    if h.len() > 0 {
        let p = h.drop_last();
        assert forall|i: int| 0 <= i < p.len() implies filter_accepts(#[trigger] p[i], f) by {
            assert(p[i] == h[i]);
        }
        lemma_replay_then_live(p, f);
        assert(filter_accepts(h.last(), f));
        let fv = filtered_view(h, f);
        assert forall|i: int| 0 <= i < h.len() implies (#[trigger] fv[i]).filtered_index == i
            && fv[i].event == h[i] by {
            if i < p.len() {
                assert(fv[i] == filtered_view(p, f)[i]);
                assert(p[i] == h[i]);
            }
        }
    }
}

} // verus!
