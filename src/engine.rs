use vstd::prelude::*;

use crate::broadcast::{delivered, MemoryBroadcastProvider};
use crate::json::{error_object, json_error_object, json_status_data, opt_view, status_data};
use crate::series::{accumulated_data, process_series};
use crate::state_machine::{
    allowed, can_transition, invalid_transition_message, is_terminal, status_label, status_name,
    status_wire_name, terminal, wire_name,
};
use crate::text::concat;
use crate::store::{in_series, lemma_latest_keeps_one_entry, query, replaced_log, MemoryShortTermStore};
use crate::types::{
    copy_opt_string, EventQueryOptions, Level, SeriesMode, Task, TaskError, TaskEvent, TaskStatus,
};

verus! {

/// Why an engine operation failed.
#[derive(Debug)]
pub enum EngineError {
    TaskNotFound(String),
    InvalidTransition { from: TaskStatus, to: TaskStatus },
    TaskTerminal(TaskStatus),
    Store(String),
}

impl EngineError {
    /// A description of the error for its reader.
    pub fn message(&self) -> (r: String)
        ensures
            match *self {
                EngineError::TaskNotFound(id) => r@ == "Task not found: "@ + id@,
                EngineError::InvalidTransition { from, to } => r@ == invalid_transition_message(from, to),
                EngineError::TaskTerminal(s) => r@ == "Cannot publish to task in terminal status: "@
                    + status_label(s),
                EngineError::Store(m) => r == m,
            },
    {
        match self {
            EngineError::TaskNotFound(id) => concat("Task not found: ", id.as_str()),
            EngineError::InvalidTransition { from, to } => {
                let head = concat("Invalid transition: ", status_name(from));
                let mid = concat(head.as_str(), " \u{2192} ");
                concat(mid.as_str(), status_name(to))
            },
            EngineError::TaskTerminal(s) => concat(
                "Cannot publish to task in terminal status: ",
                status_name(s),
            ),
            EngineError::Store(m) => m.clone(),
        }
    }
}

/// What a producer gives to create a task. Structured fields are JSON text.
#[derive(Debug, Default)]
pub struct CreateTaskInput {
    pub id: Option<String>,
    pub task_type: Option<String>,
    pub params: Option<String>,
    pub metadata: Option<String>,
    pub ttl: Option<u64>,
    pub webhooks: Option<String>,
    pub cleanup: Option<String>,
    pub auth_config: Option<String>,
}

/// What a producer gives to publish an event. `data` is JSON text.
#[derive(Debug)]
pub struct PublishEventInput {
    pub event_type: String,
    pub level: Level,
    pub data: String,
    pub series_id: Option<String>,
    pub series_mode: Option<SeriesMode>,
}

impl PublishEventInput {
    /// An equal copy.
    pub fn duplicate(&self) -> (r: PublishEventInput)
        ensures
            r == *self,
    {
        PublishEventInput {
            event_type: self.event_type.clone(),
            level: self.level,
            data: self.data.clone(),
            series_id: copy_opt_string(&self.series_id),
            series_mode: self.series_mode,
        }
    }
}

/// Result and error recorded with a transition. `result` is JSON text.
#[derive(Debug)]
pub struct TransitionPayload {
    pub result: Option<String>,
    pub error: Option<TaskError>,
}

/// The collaborators an engine is built from.
pub struct TaskEngineOptions {
    pub short_term: MemoryShortTermStore,
    pub broadcast: MemoryBroadcastProvider,
    /// Whether a long-term archive is attached: the engine then records
    /// each saved task and each emitted event for it.
    pub long_term: bool,
}

/// A write that the long-term archive is owed, best effort.
#[derive(Clone, Debug)]
pub enum ArchiveWrite {
    SaveTask(Task),
    SaveEvent(TaskEvent),
}

/// Relies on std::time::SystemTime::now: milliseconds since the Unix epoch.
#[verifier::external_body]
fn now_millis() -> (r: u64) {
    std::time::SystemTime::now()
        .duration_since(std::time::UNIX_EPOCH)
        .map(|d| d.as_millis() as u64)
        .unwrap_or(0)
}

/// Relies on ulid::Ulid::new and its Display: a fresh sortable id of 26
/// characters.
#[verifier::external_body]
fn new_ulid() -> (r: String)
    ensures
        r@.len() == 26,
{
    ulid::Ulid::new().to_string()
}

/// The JSON text of an optional task error.
fn error_json(e: &Option<TaskError>) -> (r: Option<String>)
    ensures
        opt_view(r) == error_view(*e),
{
    match e {
        Some(err) => Some(error_object(&err.code, err.message.as_str(), &err.details)),
        None => None,
    }
}

/// The JSON text that stands for an optional task error.
pub open spec fn error_view(e: Option<TaskError>) -> Option<Seq<char>> {
    match e {
        Some(err) => Some(json_error_object(opt_view(err.code), err.message@, opt_view(err.details))),
        None => None,
    }
}

/// `e` carries the fields of `input` for task `id`, with the data that the
/// series mode gives it against the store `st`.
pub open spec fn event_of_input(
    e: TaskEvent,
    id: Seq<char>,
    input: PublishEventInput,
    st: MemoryShortTermStore,
) -> bool {
    &&& e.task_id@ == id
    &&& e.event_type == input.event_type
    &&& e.level == input.level
    &&& e.series_id == input.series_id
    &&& e.series_mode == input.series_mode
    &&& match (input.series_id, input.series_mode) {
        (Some(sid), Some(SeriesMode::Accumulate)) => e.data@ == accumulated_data(
            st.latest_of(id, sid@),
            TaskEvent { data: input.data, ..e },
        ),
        _ => e.data == input.data,
    }
}

/// Whether the series step itself places `e` in the log: a `latest`-mode
/// event of a series.
pub open spec fn placed_by_series(e: TaskEvent) -> bool {
    e.series_id is Some && e.series_mode == Some(SeriesMode::Latest)
}

/// The log of task `id` once event `e` was emitted against the store `st`:
/// under the latest mode, `e` takes the place of its series' previous
/// latest event (or is appended where there is none); otherwise it is
/// appended.
pub open spec fn log_after_emit(st: MemoryShortTermStore, id: Seq<char>, e: TaskEvent) -> Seq<TaskEvent> {
    match (e.series_id, e.series_mode) {
        (Some(sid), Some(SeriesMode::Latest)) => replaced_log(st.log_of(id), st.latest_of(id, sid@), e),
        _ => st.log_of(id).push(e),
    }
}

/// Whether emitting `e` records it as the latest of series `s`.
pub open spec fn series_touched(e: TaskEvent, s: Seq<char>) -> bool {
    e.series_id matches Some(sid) && sid@ == s && (e.series_mode == Some(SeriesMode::Accumulate)
        || e.series_mode == Some(SeriesMode::Latest))
}

/// The store and bus of `after` are those of `before` once event `e` was
/// emitted on task `id`: it took the next index, went through the series
/// step, stands in the log once and was published on the task's channel.
pub open spec fn emitted(before: TaskEngine, after: TaskEngine, id: Seq<char>, e: TaskEvent) -> bool {
    &&& e.index == before.store().counter_of(id)
    &&& after.store().log_of(id) == log_after_emit(before.store(), id, e)
    &&& forall|k: Seq<char>| k != id ==> #[trigger] after.store().log_of(k) == before.store().log_of(k)
    &&& forall|k: Seq<char>| #[trigger] after.store().counter_of(k) == if k == id {
        (before.store().counter_of(k) + 1) as u64
    } else {
        before.store().counter_of(k)
    }
    &&& forall|k: Seq<char>, s: Seq<char>| #[trigger] after.store().latest_of(k, s) == if k == id
        && series_touched(e, s) {
        Some(e)
    } else {
        before.store().latest_of(k, s)
    }
    &&& after.bus().subscribers() == delivered(before.bus().subscribers(), id, e)
}

/// `after` recorded the archive writes `ws` after those of `before`, where
/// an archive is attached, and nothing otherwise.
pub open spec fn archived(before: TaskEngine, after: TaskEngine, ws: Seq<ArchiveWrite>) -> bool {
    &&& after.archiving() == before.archiving()
    &&& after.archive_writes() == if before.archiving() {
        before.archive_writes() + ws
    } else {
        before.archive_writes()
    }
}

/// `e` is the status event of a transition to `to` that left task `u`.
pub open spec fn status_event(e: TaskEvent, to: TaskStatus, u: Task) -> bool {
    &&& e.event_type@ == crate::filter::status_event_type()
    &&& e.level == Level::Info
    &&& e.series_id is None
    &&& e.series_mode is None
    &&& e.data@ == json_status_data(wire_name(to), opt_view(u.result), error_view(u.error))
}

/// What a transition of task `id` to `to` returned and did.
pub open spec fn transition_post(
    before: TaskEngine,
    after: TaskEngine,
    id: Seq<char>,
    to: TaskStatus,
    payload: Option<TransitionPayload>,
    r: Result<Task, EngineError>,
) -> bool {
    match before.store().task_of(id) {
        None => (r matches Err(EngineError::TaskNotFound(m)) && m@ == id) && after == before,
        Some(t) => if !allowed(t.status, to) {
            r == Err::<Task, EngineError>(EngineError::InvalidTransition { from: t.status, to })
                && after == before
        } else if before.store().counter_of(id) == u64::MAX {
            r matches Err(EngineError::Store(_))
        } else {
            r matches Ok(u) && {
                &&& u == transitioned(t, to, payload, u.updated_at)
                &&& u.updated_at >= t.updated_at
                &&& after.store().task_of(id) == Some(u)
                &&& forall|k: Seq<char>| k != id ==> #[trigger] after.store().task_of(k)
                    == before.store().task_of(k)
                &&& exists|e: TaskEvent|
                    emitted(before, after, id, e) && status_event(e, to, u) && archived(
                        before,
                        after,
                        seq![ArchiveWrite::SaveTask(u), ArchiveWrite::SaveEvent(e)],
                    )
            }
        },
    }
}

/// What a publish of `input` on task `id` returned and did.
pub open spec fn publish_post(
    before: TaskEngine,
    after: TaskEngine,
    id: Seq<char>,
    input: PublishEventInput,
    r: Result<TaskEvent, EngineError>,
) -> bool {
    match before.store().task_of(id) {
        None => (r matches Err(EngineError::TaskNotFound(m)) && m@ == id) && after == before,
        Some(t) => if terminal(t.status) {
            r == Err::<TaskEvent, EngineError>(EngineError::TaskTerminal(t.status)) && after == before
        } else if before.store().counter_of(id) == u64::MAX {
            r matches Err(EngineError::Store(_))
        } else {
            r matches Ok(e) && {
                &&& event_of_input(e, id, input, before.store())
                &&& emitted(before, after, id, e)
                &&& forall|k: Seq<char>| #[trigger] after.store().task_of(k) == before.store().task_of(k)
                &&& archived(before, after, seq![ArchiveWrite::SaveEvent(e)])
            }
        },
    }
}

/// `es` were emitted on task `id` one after another from `inputs`, the
/// engine passing through `states`: each event carries its input's fields,
/// was emitted from the state before it to the state after it, and was
/// recorded for the archive.
pub open spec fn emitted_run(
    states: Seq<TaskEngine>,
    id: Seq<char>,
    inputs: Seq<PublishEventInput>,
    es: Seq<TaskEvent>,
) -> bool {
    &&& states.len() == es.len() + 1
    &&& es.len() <= inputs.len()
    &&& forall|i: int|
        0 <= i < es.len() ==> {
            &&& event_of_input(#[trigger] es[i], id, inputs[i], states[i].store())
            &&& emitted(states[i], states[i + 1], id, es[i])
            &&& archived(states[i], states[i + 1], seq![ArchiveWrite::SaveEvent(es[i])])
        }
}

/// A task after a legal transition to `to` at time `now`: `result` and
/// `error` from the payload where it has them, completion stamped when `to`
/// is terminal.
pub open spec fn transitioned(t: Task, to: TaskStatus, payload: Option<TransitionPayload>, now: u64) -> Task {
    Task {
        status: to,
        updated_at: now,
        completed_at: if terminal(to) {
            Some(now)
        } else {
            t.completed_at
        },
        result: match payload {
            Some(p) if p.result is Some => p.result,
            _ => t.result,
        },
        error: match payload {
            Some(p) if p.error is Some => p.error,
            _ => t.error,
        },
        ..t
    }
}

/// `emitted` depends on the engine before only through its logs, counters,
/// series and bus.
proof fn lemma_emitted_rebase(b1: TaskEngine, b2: TaskEngine, after: TaskEngine, id: Seq<char>, e: TaskEvent)
    requires
        emitted(b1, after, id, e),
        forall|k: Seq<char>| #[trigger] b1.store().log_of(k) == b2.store().log_of(k),
        forall|k: Seq<char>| #[trigger] b1.store().counter_of(k) == b2.store().counter_of(k),
        forall|k: Seq<char>, s: Seq<char>| #[trigger] b1.store().latest_of(k, s) == b2.store().latest_of(k, s),
        b1.bus() == b2.bus(),
    ensures
        emitted(b2, after, id, e),
{
    assert(b1.store().log_of(id) == b2.store().log_of(id));
    if let (Some(sid), Some(SeriesMode::Latest)) = (e.series_id, e.series_mode) {
        assert(b1.store().latest_of(id, sid@) == b2.store().latest_of(id, sid@));
    }
    assert(log_after_emit(b1.store(), id, e) == log_after_emit(b2.store(), id, e));
}

/// The task engine: creates tasks, drives their lifecycle, emits their
/// events into the short-term store and onto the broadcast bus. Where a
/// long-term archive is attached, it records every task save and every
/// emitted event as an archive write; whoever drives the engine takes them
/// with `take_archive_writes` and performs them, best effort.
pub struct TaskEngine {
    short_term: MemoryShortTermStore,
    broadcast: MemoryBroadcastProvider,
    long_term: bool,
    archive: Vec<ArchiveWrite>,
}

impl TaskEngine {
    /// The engine's short-term store.
    pub closed spec fn store(&self) -> MemoryShortTermStore {
        self.short_term
    }

    /// The engine's broadcast bus.
    pub closed spec fn bus(&self) -> MemoryBroadcastProvider {
        self.broadcast
    }

    /// Whether a long-term archive is attached.
    pub closed spec fn archiving(&self) -> bool {
        self.long_term
    }

    /// The archive writes recorded and not yet taken, oldest first.
    pub closed spec fn archive_writes(&self) -> Seq<ArchiveWrite> {
        self.archive@
    }

    /// Both collaborators are well formed.
    pub open spec fn wf(&self) -> bool {
        self.store().wf() && self.bus().wf()
    }

    /// An engine over the given collaborators.
    pub fn new(opts: TaskEngineOptions) -> (r: Self)
        requires
            opts.short_term.wf(),
            opts.broadcast.wf(),
        ensures
            r.wf(),
            r.store() == opts.short_term,
            r.bus() == opts.broadcast,
            r.archiving() == opts.long_term,
            r.archive_writes() == Seq::<ArchiveWrite>::empty(),
    {
        TaskEngine {
            short_term: opts.short_term,
            broadcast: opts.broadcast,
            long_term: opts.long_term,
            archive: Vec::new(),
        }
    }

    /// Hands out the archive writes recorded so far, oldest first, and
    /// forgets them.
    pub fn take_archive_writes(&mut self) -> (r: Vec<ArchiveWrite>)
        requires
            old(self).wf(),
        ensures
            final(self).wf(),
            r@ == old(self).archive_writes(),
            final(self).archive_writes() == Seq::<ArchiveWrite>::empty(),
            final(self).store() == old(self).store(),
            final(self).bus() == old(self).bus(),
            final(self).archiving() == old(self).archiving(),
    {
        let mut out: Vec<ArchiveWrite> = Vec::new();
        std::mem::swap(&mut out, &mut self.archive);
        out
    }

    /// Records an archive write where an archive is attached.
    fn record(&mut self, w: ArchiveWrite)
        ensures
            final(self).store() == old(self).store(),
            final(self).bus() == old(self).bus(),
            final(self).archiving() == old(self).archiving(),
            final(self).archive_writes() == if old(self).archiving() {
                old(self).archive_writes().push(w)
            } else {
                old(self).archive_writes()
            },
    {
        if self.long_term {
            self.archive.push(w);
        }
    }

    /// Creates a pending task, stamped now, under the given id or a fresh
    /// one, and saves it.
    pub fn create_task(&mut self, input: CreateTaskInput) -> (r: Result<Task, EngineError>)
        requires
            old(self).wf(),
        ensures
            final(self).wf(),
            r matches Ok(t) && {
                &&& t.status == TaskStatus::Pending
                &&& t.created_at == t.updated_at
                &&& t.completed_at is None && t.result is None && t.error is None
                &&& (input.id matches Some(i) ==> t.id == i)
                &&& (input.id is None ==> t.id@.len() == 26)
                &&& t.task_type == input.task_type && t.params == input.params
                &&& t.metadata == input.metadata && t.ttl == input.ttl
                &&& t.webhooks == input.webhooks && t.cleanup == input.cleanup
                &&& t.auth_config == input.auth_config
                &&& forall|k: Seq<char>| #[trigger] final(self).store().task_of(k) == if k == t.id@ {
                    Some(t)
                } else {
                    old(self).store().task_of(k)
                }
                &&& archived(*old(self), *final(self), seq![ArchiveWrite::SaveTask(t)])
            },
            forall|k: Seq<char>| #[trigger] final(self).store().log_of(k) == old(self).store().log_of(k),
            forall|k: Seq<char>| #[trigger] final(self).store().counter_of(k) == old(self).store().counter_of(k),
            forall|k: Seq<char>, s: Seq<char>| #[trigger] final(self).store().latest_of(k, s) == old(
                self,
            ).store().latest_of(k, s),
            final(self).bus() == old(self).bus(),
    {
        let now = now_millis();
        let id = match input.id {
            Some(i) => i,
            None => new_ulid(),
        };
        let task = Task {
            id,
            task_type: input.task_type,
            status: TaskStatus::Pending,
            params: input.params,
            result: None,
            error: None,
            metadata: input.metadata,
            created_at: now,
            updated_at: now,
            completed_at: None,
            ttl: input.ttl,
            auth_config: input.auth_config,
            webhooks: input.webhooks,
            cleanup: input.cleanup,
        };
        self.short_term.save_task(task.duplicate());
        if let Some(ttl) = task.ttl {
            self.short_term.set_ttl(task.id.as_str(), ttl);
        }
        self.record(ArchiveWrite::SaveTask(task.duplicate()));
        assert(seq![ArchiveWrite::SaveTask(task)] =~= Seq::empty().push(ArchiveWrite::SaveTask(task)));
        assert(old(self).archive_writes() + seq![ArchiveWrite::SaveTask(task)] =~= old(self).archive_writes().push(ArchiveWrite::SaveTask(task)));
        Ok(task)
    }

    /// The task saved under `task_id`, if any.
    pub fn get_task(&self, task_id: &str) -> (r: Result<Option<Task>, EngineError>)
        requires
            self.wf(),
        ensures
            r == Ok::<Option<Task>, EngineError>(self.store().task_of(task_id@)),
    {
        Ok(self.short_term.get_task(task_id))
    }

    /// The task saved under `task_id`, falling back, where the short-term
    /// store has none and an archive is attached, to `from_archive`: what the
    /// archive holds under that id.
    pub fn get_task_with_archive(&self, task_id: &str, from_archive: Option<Task>) -> (r: Option<Task>)
        requires
            self.wf(),
        ensures
            r == match self.store().task_of(task_id@) {
                Some(t) => Some(t),
                None => if self.archiving() {
                    from_archive
                } else {
                    None
                },
            },
    {
        match self.short_term.get_task(task_id) {
            Some(t) => Some(t),
            None => if self.long_term {
                from_archive
            } else {
                None
            },
        }
    }

    /// Whether reading task `task_id` has to ask the archive: the
    /// short-term store has no such task and an archive is attached.
    pub fn needs_archive_read(&self, task_id: &str) -> (r: bool)
        requires
            self.wf(),
        ensures
            r == (self.store().task_of(task_id@) is None && self.archiving()),
    {
        self.long_term && self.short_term.get_task(task_id).is_none()
    }

    /// The events of a task that a history query returns.
    pub fn get_events(&self, task_id: &str, opts: Option<EventQueryOptions>) -> (r: Result<
        Vec<TaskEvent>,
        EngineError,
    >)
        requires
            self.wf(),
        ensures
            r matches Ok(es) && es@ == query(self.store().log_of(task_id@), opts),
    {
        Ok(self.short_term.get_events(task_id, opts))
    }

    /// Registers on the channel of a task; see `MemoryBroadcastProvider::subscribe`.
    pub fn subscribe(&mut self, task_id: &str) -> (r: Option<u64>)
        requires
            old(self).wf(),
        ensures
            final(self).wf(),
            final(self).store() == old(self).store(),
            final(self).archiving() == old(self).archiving(),
            final(self).archive_writes() == old(self).archive_writes(),
            r matches Some(t) ==> {
                &&& final(self).bus().subscribers() == old(self).bus().subscribers().push(
                    (t, task_id@, Seq::empty()),
                )
                &&& forall|i: int|
                    0 <= i < old(self).bus().subscribers().len() ==> old(self).bus().subscribers()[i].0
                        != t
            },
            r is None ==> final(self).bus().subscribers() == old(self).bus().subscribers(),
            r is None <==> old(self).bus().next_token() == u64::MAX,
    {
        self.broadcast.subscribe(task_id)
    }

    /// The events delivered to a registration since it last took them.
    pub fn take_pending(&mut self, token: u64) -> (r: Vec<TaskEvent>)
        requires
            old(self).wf(),
        ensures
            final(self).wf(),
            final(self).store() == old(self).store(),
            final(self).archiving() == old(self).archiving(),
            final(self).archive_writes() == old(self).archive_writes(),
            match crate::broadcast::token_pos(old(self).bus().subscribers(), token) {
                Some(p) => r@ == old(self).bus().subscribers()[p].2,
                None => r@ == Seq::<TaskEvent>::empty(),
            },
    {
        self.broadcast.take_pending(token)
    }

    /// Ends a registration.
    pub fn unsubscribe(&mut self, token: u64)
        requires
            old(self).wf(),
        ensures
            final(self).wf(),
            final(self).store() == old(self).store(),
            final(self).archiving() == old(self).archiving(),
            final(self).archive_writes() == old(self).archive_writes(),
            final(self).bus().subscribers() == match crate::broadcast::token_pos(
                old(self).bus().subscribers(),
                token,
            ) {
                Some(p) => old(self).bus().subscribers().remove(p),
                None => old(self).bus().subscribers(),
            },
    {
        self.broadcast.unsubscribe(token)
    }

    /// Moves a task to `to` where the lifecycle allows it, records the
    /// payload's result and error, and emits a status event. The task is
    /// stamped with the current time, never earlier than its last update.
    pub fn transition_task(&mut self, task_id: &str, to: TaskStatus, payload: Option<TransitionPayload>) -> (r:
        Result<Task, EngineError>)
        requires
            old(self).wf(),
        ensures
            final(self).wf(),
            transition_post(*old(self), *final(self), task_id@, to, payload, r),
    {
        let task = match self.short_term.get_task(task_id) {
            Some(t) => t,
            None => return Err(EngineError::TaskNotFound(String::from_str(task_id))),
        };
        proof {
            self.short_term.lemma_task_key(task_id@);
        }
        if !can_transition(&task.status, &to) {
            return Err(EngineError::InvalidTransition { from: task.status, to });
        }
        let clock = now_millis();
        let now = if clock < task.updated_at {
            task.updated_at
        } else {
            clock
        };
        let result = match &payload {
            Some(p) if p.result.is_some() => copy_opt_string(&p.result),
            _ => copy_opt_string(&task.result),
        };
        let error = match &payload {
            Some(p) if p.error.is_some() => match &p.error {
                Some(e) => Some(e.duplicate()),
                None => None,
            },
            _ => match &task.error {
                Some(e) => Some(e.duplicate()),
                None => None,
            },
        };
        let completed_at = if is_terminal(&to) {
            Some(now)
        } else {
            task.completed_at
        };
        let updated = Task { status: to, updated_at: now, completed_at, result, error, ..task };
        assert(updated == transitioned(task, to, payload, now));
        let ghost before = *self;
        self.short_term.save_task(updated.duplicate());
        self.record(ArchiveWrite::SaveTask(updated.duplicate()));
        let ghost mid = *self;
        let data = status_data(status_wire_name(&to), &updated.result, &error_json(&updated.error));
        let input = PublishEventInput {
            event_type: String::from_str("taskcast:status"),
            level: Level::Info,
            data,
            series_id: None,
            series_mode: None,
        };
        let ghost input_v = input;
        match self.emit(task_id, input) {
            Ok(e) => {
                proof {
                    lemma_emitted_rebase(mid, before, *self, task_id@, e);
                    assert(emitted(*old(self), *self, task_id@, e));
                    assert(status_event(e, to, updated));
                    assert(old(self).archive_writes() + seq![ArchiveWrite::SaveTask(updated), ArchiveWrite::SaveEvent(e)]
                        =~= old(self).archive_writes().push(ArchiveWrite::SaveTask(updated)).push(ArchiveWrite::SaveEvent(e)));
                    assert(mid.archive_writes() + seq![ArchiveWrite::SaveEvent(e)] =~= mid.archive_writes().push(ArchiveWrite::SaveEvent(e)));
                    assert(archived(*old(self), *self, seq![ArchiveWrite::SaveTask(updated), ArchiveWrite::SaveEvent(e)]));
                }
                Ok(updated)
            },
            Err(err) => {
                assert(mid.store().counter_of(task_id@) == before.store().counter_of(task_id@));
                Err(err)
            },
        }
    }

    /// Emits an event on a task that exists and is not terminal.
    pub fn publish_event(&mut self, task_id: &str, input: PublishEventInput) -> (r: Result<
        TaskEvent,
        EngineError,
    >)
        requires
            old(self).wf(),
        ensures
            final(self).wf(),
            publish_post(*old(self), *final(self), task_id@, input, r),
    {
        let task = match self.short_term.get_task(task_id) {
            Some(t) => t,
            None => return Err(EngineError::TaskNotFound(String::from_str(task_id))),
        };
        if is_terminal(&task.status) {
            return Err(EngineError::TaskTerminal(task.status));
        }
        self.emit(task_id, input)
    }

    /// Emits a batch of events on a task that exists and is not terminal,
    /// in order; their indices are consecutive from the task's counter.
    pub fn publish_events(&mut self, task_id: &str, inputs: Vec<PublishEventInput>) -> (r: Result<
        Vec<TaskEvent>,
        EngineError,
    >)
        requires
            old(self).wf(),
        ensures
            final(self).wf(),
            forall|k: Seq<char>| #[trigger] final(self).store().task_of(k) == old(self).store().task_of(
                k,
            ),
            old(self).store().task_of(task_id@) is None ==> (r matches Err(EngineError::TaskNotFound(m))
                && m@ == task_id@),
            old(self).store().task_of(task_id@) matches Some(t) ==> {
                &&& terminal(t.status) ==> r == Err::<Vec<TaskEvent>, EngineError>(
                    EngineError::TaskTerminal(t.status),
                )
                &&& !terminal(t.status) && old(self).store().counter_of(task_id@) + inputs@.len()
                    <= u64::MAX ==> r is Ok
            },
            r matches Ok(es) ==> {
                &&& es@.len() == inputs@.len()
                &&& exists|states: Seq<TaskEngine>|
                    states[0] == *old(self) && states.last() == *final(self) && emitted_run(
                        states,
                        task_id@,
                        inputs@,
                        es@,
                    )
                &&& final(self).store().counter_of(task_id@) == old(self).store().counter_of(task_id@)
                    + inputs@.len()
                &&& forall|i: int|
                    0 <= i < es@.len() ==> {
                        &&& (#[trigger] es@[i]).index == old(self).store().counter_of(task_id@) + i
                        &&& es@[i].task_id@ == task_id@
                        &&& es@[i].event_type == inputs@[i].event_type
                        &&& es@[i].level == inputs@[i].level
                    }
            },
    {
        let task = match self.short_term.get_task(task_id) {
            Some(t) => t,
            None => return Err(EngineError::TaskNotFound(String::from_str(task_id))),
        };
        if is_terminal(&task.status) {
            return Err(EngineError::TaskTerminal(task.status));
        }
        let ghost c0 = self.store().counter_of(task_id@);
        let ghost mut states: Seq<TaskEngine> = seq![*self];
        let mut out: Vec<TaskEvent> = Vec::new();
        let mut i: usize = 0;
        while i < inputs.len()
            invariant
                0 <= i <= inputs@.len(),
                self.wf(),
                out@.len() == i,
                self.store().counter_of(task_id@) == c0 + i,
                c0 == old(self).store().counter_of(task_id@),
                old(self).store().task_of(task_id@) == Some(task),
                !terminal(task.status),
                forall|k: Seq<char>| #[trigger] self.store().task_of(k) == old(self).store().task_of(k),
                forall|j: int|
                    0 <= j < i ==> {
                        &&& (#[trigger] out@[j]).index == c0 + j
                        &&& out@[j].task_id@ == task_id@
                        &&& out@[j].event_type == inputs@[j].event_type
                        &&& out@[j].level == inputs@[j].level
                    },
                states[0] == *old(self),
                states.last() == *self,
                emitted_run(states, task_id@, inputs@, out@),
            decreases inputs@.len() - i,
        {
            let input = inputs[i].duplicate();
            let ghost before = *self;
            match self.emit(task_id, input) {
                Ok(e) => {
                    out.push(e);
                    proof {
                        let prev = states;
                        states = states.push(*self);
                        assert(states[0] == *old(self));
                        assert forall|j: int| 0 <= j < out@.len() implies {
                            &&& event_of_input(#[trigger] out@[j], task_id@, inputs@[j], states[j].store())
                            &&& emitted(states[j], states[j + 1], task_id@, out@[j])
                            &&& archived(states[j], states[j + 1], seq![ArchiveWrite::SaveEvent(out@[j])])
                        } by {
                            if j < out@.len() - 1 {
                                assert(out@[j] == out@.drop_last()[j]);
                                assert(states[j] == prev[j]);
                                assert(states[j + 1] == prev[j + 1]);
                            } else {
                                assert(states[j] == before);
                            }
                        }
                    }
                },
                Err(err) => return Err(err),
            }
            i = i + 1;
        }
        Ok(out)
    }

    /// Gives an event the next index of its task, runs it through the
    /// series step, appends it to the log unless that step already put it
    /// in place (the latest mode), and publishes it.
    fn emit(&mut self, task_id: &str, input: PublishEventInput) -> (r: Result<TaskEvent, EngineError>)
        requires
            old(self).wf(),
        ensures
            final(self).wf(),
            forall|k: Seq<char>| #[trigger] final(self).store().task_of(k) == old(self).store().task_of(k),
            old(self).store().counter_of(task_id@) == u64::MAX ==> {
                &&& r matches Err(EngineError::Store(_))
                &&& final(self).store().same_as(&old(self).store())
                &&& final(self).bus() == old(self).bus()
                &&& archived(*old(self), *final(self), Seq::empty())
            },
            old(self).store().counter_of(task_id@) < u64::MAX ==> (r matches Ok(e) && {
                &&& event_of_input(e, task_id@, input, old(self).store())
                &&& emitted(*old(self), *final(self), task_id@, e)
                &&& archived(*old(self), *final(self), seq![ArchiveWrite::SaveEvent(e)])
            }),
    {
        let index = match self.short_term.next_index(task_id) {
            Some(i) => i,
            None => {
                assert(old(self).archive_writes() + Seq::empty() =~= old(self).archive_writes());
                return Err(EngineError::Store(String::from_str("index counter exhausted")));
            },
        };
        let ghost st1 = self.short_term;
        let raw = TaskEvent {
            id: new_ulid(),
            task_id: String::from_str(task_id),
            index,
            timestamp: now_millis(),
            event_type: input.event_type,
            level: input.level,
            data: input.data,
            series_id: input.series_id,
            series_mode: input.series_mode,
        };
        let ghost raw_v = raw;
        let event = process_series(raw, &mut self.short_term);
        let ghost st2 = self.short_term;
        let placed = match (&event.series_id, event.series_mode) {
            (Some(_), Some(SeriesMode::Latest)) => true,
            _ => false,
        };
        if !placed {
            self.short_term.append_event(task_id, event.duplicate());
        }
        self.broadcast.publish(task_id, &event);
        self.record(ArchiveWrite::SaveEvent(event.duplicate()));
        assert(old(self).archive_writes() + seq![ArchiveWrite::SaveEvent(event)] =~= old(self).archive_writes().push(ArchiveWrite::SaveEvent(event)));
        proof {
            let ghost o = old(self).store();
            assert forall|k: Seq<char>| #[trigger] self.store().task_of(k) == o.task_of(k) by {
                assert(st1.task_of(k) == o.task_of(k));
                assert(st2.task_of(k) == st1.task_of(k));
            }
            assert forall|k: Seq<char>| k != task_id@ implies #[trigger] self.store().log_of(k) == o.log_of(k) by {
                assert(st1.log_of(k) == o.log_of(k));
                assert(st2.log_of(k) == st1.log_of(k));
            }
            assert forall|k: Seq<char>| #[trigger] self.store().counter_of(k) == if k == task_id@ {
                (o.counter_of(k) + 1) as u64
            } else {
                o.counter_of(k)
            } by {
                assert(st2.counter_of(k) == st1.counter_of(k));
            }
            assert forall|k: Seq<char>, s: Seq<char>| #[trigger] self.store().latest_of(k, s) == if k == task_id@
                && series_touched(event, s) {
                Some(event)
            } else {
                o.latest_of(k, s)
            } by {
                assert(st1.latest_of(k, s) == o.latest_of(k, s));
                assert(st2.latest_of(k, s) == self.store().latest_of(k, s));
            }
            assert(st1.log_of(task_id@) == o.log_of(task_id@));
            assert(st1.latest_of(task_id@, seq![]) == o.latest_of(task_id@, seq![]));
            match (raw_v.series_id, raw_v.series_mode) {
                (Some(sid), Some(SeriesMode::Latest)) => {
                    assert(st1.latest_of(task_id@, sid@) == o.latest_of(task_id@, sid@));
                },
                (Some(sid), Some(SeriesMode::Accumulate)) => {
                    assert(st1.latest_of(task_id@, sid@) == o.latest_of(task_id@, sid@));
                },
                _ => {},
            }
        }
        Ok(event)
    }
}

} // verus!

verus! {

/// Index density: along any run of emissions on one task, the indices are
/// the consecutive integers from the task's counter before the run, so no
/// two coincide.
pub proof fn lemma_index_density(engines: Seq<TaskEngine>, events: Seq<TaskEvent>, id: Seq<char>)
    requires
        engines.len() == events.len() + 1,
        forall|i: int| 0 <= i < events.len() ==> emitted(engines[i], #[trigger] engines[i + 1], id, events[i]),
        engines[0].store().counter_of(id) + events.len() <= u64::MAX,
    ensures
        forall|i: int| 0 <= i < events.len() ==> (#[trigger] events[i]).index == engines[0].store().counter_of(id) + i,
        forall|i: int, j: int| 0 <= i < j < events.len() ==> events[i].index != events[j].index,
        engines.last().store().counter_of(id) == engines[0].store().counter_of(id) + events.len(),
    decreases events.len(),
{
    if events.len() > 0 {
        let n = events.len() - 1;
        assert(emitted(engines[n], engines[n + 1], id, events[n]));
        lemma_index_density(engines.drop_last(), events.drop_last(), id);
        assert forall|i: int| 0 <= i < events.len() implies (#[trigger] events[i]).index
            == engines[0].store().counter_of(id) + i by {
            if i < n {
                assert(events.drop_last()[i] == events[i]);
            }
        }
    }
}

/// Under the latest mode a series keeps one entry in a task's history:
/// where the only entry of series `sid` in the log is its latest event (or
/// the series has neither), emitting a new `latest`-mode event of the
/// series with a fresh id leaves exactly one entry of the series, that
/// event, which is also the series' new latest; so it stays so after any
/// number of such emissions.
pub proof fn lemma_latest_publish_keeps_one_entry(
    before: TaskEngine,
    after: TaskEngine,
    id: Seq<char>,
    sid: Seq<char>,
    e: TaskEvent,
)
    requires
        emitted(before, after, id, e),
        in_series(e, sid),
        e.series_mode == Some(SeriesMode::Latest),
        forall|j: int| 0 <= j < before.store().log_of(id).len() ==> before.store().log_of(id)[j].id@ != e.id@,
        before.store().latest_of(id, sid) is None ==> forall|j: int|
            0 <= j < before.store().log_of(id).len() ==> !in_series(#[trigger] before.store().log_of(id)[j], sid),
        before.store().latest_of(id, sid) matches Some(p) ==> exists|q: int|
            0 <= q < before.store().log_of(id).len() && before.store().log_of(id)[q] == p && (forall|j: int|
                0 <= j < before.store().log_of(id).len() && in_series(#[trigger] before.store().log_of(id)[j], sid)
                    ==> j == q) && (forall|j: int|
                0 <= j < before.store().log_of(id).len() && (#[trigger] before.store().log_of(id)[j]).id@ == p.id@
                    ==> j == q),
    ensures
        after.store().latest_of(id, sid) == Some(e),
        exists|q: int|
            0 <= q < after.store().log_of(id).len() && after.store().log_of(id)[q] == e && (forall|j: int|
                0 <= j < after.store().log_of(id).len() && in_series(#[trigger] after.store().log_of(id)[j], sid)
                    ==> j == q) && (forall|j: int|
                0 <= j < after.store().log_of(id).len() && (#[trigger] after.store().log_of(id)[j]).id@ == e.id@
                    ==> j == q),
{
    assert(series_touched(e, sid));
    lemma_latest_keeps_one_entry(before.store().log_of(id), sid, before.store().latest_of(id, sid), e);
    let x = e.series_id.unwrap();
    assert(x@ == sid);
    assert(after.store().log_of(id) == replaced_log(before.store().log_of(id), before.store().latest_of(id, sid), e));
}

/// Terminal lockout: once a transition to a terminal status succeeded,
/// publishing on the task fails with `TaskTerminal` and changes nothing, so
/// it stays so for every later publish.
pub proof fn lemma_terminal_lockout(
    before: TaskEngine,
    after: TaskEngine,
    id: Seq<char>,
    to: TaskStatus,
    payload: Option<TransitionPayload>,
    u: Task,
    input: PublishEventInput,
    later: TaskEngine,
    r: Result<TaskEvent, EngineError>,
)
    requires
        transition_post(before, after, id, to, payload, Ok(u)),
        terminal(to),
        publish_post(after, later, id, input, r),
    ensures
        r == Err::<TaskEvent, EngineError>(EngineError::TaskTerminal(to)),
        later == after,
{
}

} // verus!
