use vstd::prelude::*;

use crate::text::str_eq;
use crate::types::{EventQueryOptions, SinceCursor, Task, TaskEvent};

verus! {

// ─── History queries over a log ─────────────────────────────────────────────

/// Position of the first event of `es` whose id is `id`.
pub open spec fn first_pos_of_id(es: Seq<TaskEvent>, id: Seq<char>) -> Option<int>
    decreases es.len(),
{
    if es.len() == 0 {
        None
    } else {
        match first_pos_of_id(es.drop_last(), id) {
            Some(i) => Some(i),
            None => if es.last().id@ == id {
                Some(es.len() - 1)
            } else {
                None
            },
        }
    }
}

/// Position of the last event of `es` whose id is `id`.
pub open spec fn last_pos_of_id(es: Seq<TaskEvent>, id: Seq<char>) -> Option<int>
    decreases es.len(),
{
    if es.len() == 0 {
        None
    } else if es.last().id@ == id {
        Some(es.len() - 1)
    } else {
        last_pos_of_id(es.drop_last(), id)
    }
}

/// Events with an index above `k`, in order.
pub open spec fn after_index(es: Seq<TaskEvent>, k: u64) -> Seq<TaskEvent>
    decreases es.len(),
{
    if es.len() == 0 {
        Seq::empty()
    } else if es.last().index > k {
        after_index(es.drop_last(), k).push(es.last())
    } else {
        after_index(es.drop_last(), k)
    }
}

/// Events with a timestamp above `t`, in order.
pub open spec fn after_timestamp(es: Seq<TaskEvent>, t: u64) -> Seq<TaskEvent>
    decreases es.len(),
{
    if es.len() == 0 {
        Seq::empty()
    } else if es.last().timestamp > t {
        after_timestamp(es.drop_last(), t).push(es.last())
    } else {
        after_timestamp(es.drop_last(), t)
    }
}

/// A cursor applied to a log: by id if it has one (everything after the
/// first event with that id, or the whole log where none has it), else by
/// index, else by timestamp.
pub open spec fn apply_cursor(es: Seq<TaskEvent>, c: SinceCursor) -> Seq<TaskEvent> {
    match c.id {
        Some(id) => match first_pos_of_id(es, id@) {
            Some(i) => es.subrange(i + 1, es.len() as int),
            None => es,
        },
        None => match c.index {
            Some(k) => after_index(es, k),
            None => match c.timestamp {
                Some(t) => after_timestamp(es, t),
                None => es,
            },
        },
    }
}

/// A history query over a log: the cursor, then the limit.
pub open spec fn query(es: Seq<TaskEvent>, opts: Option<EventQueryOptions>) -> Seq<TaskEvent> {
    match opts {
        None => es,
        Some(o) => {
            let after = match o.since {
                Some(c) => apply_cursor(es, c),
                None => es,
            };
            match o.limit {
                Some(n) => if (n as int) < after.len() {
                    after.subrange(0, n as int)
                } else {
                    after
                },
                None => after,
            }
        },
    }
}

proof fn lemma_first_pos_extends(es: Seq<TaskEvent>, id: Seq<char>, n: int)
    requires
        0 <= n <= es.len(),
        first_pos_of_id(es.subrange(0, n), id) is Some,
    ensures
        first_pos_of_id(es, id) == first_pos_of_id(es.subrange(0, n), id),
    decreases es.len() - n,
{
    if n < es.len() {
        assert(es.subrange(0, n + 1).drop_last() =~= es.subrange(0, n));
        lemma_first_pos_extends(es, id, n + 1);
    } else {
        assert(es.subrange(0, n) =~= es);
    }
}

proof fn lemma_first_pos_range(es: Seq<TaskEvent>, id: Seq<char>)
    ensures
        first_pos_of_id(es, id) matches Some(i) ==> 0 <= i < es.len() && es[i].id@ == id,
    decreases es.len(),
{
    if es.len() > 0 {
        lemma_first_pos_range(es.drop_last(), id);
    }
}

proof fn lemma_last_pos_range(es: Seq<TaskEvent>, id: Seq<char>)
    ensures
        last_pos_of_id(es, id) matches Some(i) ==> 0 <= i < es.len() && es[i].id@ == id,
    decreases es.len(),
{
    if es.len() > 0 {
        lemma_last_pos_range(es.drop_last(), id);
    }
}

/// Where the first event with id `id` stands in `es`.
fn first_pos(es: &Vec<TaskEvent>, id: &str) -> (r: Option<usize>)
    ensures
        r matches Some(i) ==> first_pos_of_id(es@, id@) == Some(i as int),
        r is None ==> first_pos_of_id(es@, id@) is None,
{
    let mut i: usize = 0;
    while i < es.len()
        invariant
            0 <= i <= es@.len(),
            first_pos_of_id(es@.subrange(0, i as int), id@) is None,
        decreases es@.len() - i,
    {
        assert(es@.subrange(0, i + 1).drop_last() =~= es@.subrange(0, i as int));
        if str_eq(es[i].id.as_str(), id) {
            proof {
                lemma_first_pos_extends(es@, id@, i + 1);
            }
            return Some(i);
        }
        i = i + 1;
    }
    assert(es@.subrange(0, es@.len() as int) =~= es@);
    None
}

/// Where the last event with id `id` stands in `es`.
fn last_pos(es: &Vec<TaskEvent>, id: &str) -> (r: Option<usize>)
    ensures
        r matches Some(i) ==> last_pos_of_id(es@, id@) == Some(i as int),
        r is None ==> last_pos_of_id(es@, id@) is None,
{
    let mut j = es.len();
    assert(es@.subrange(0, j as int) =~= es@);
    while j > 0
        invariant
            j <= es@.len(),
            last_pos_of_id(es@, id@) == last_pos_of_id(es@.subrange(0, j as int), id@),
        decreases j,
    {
        let ghost pre = es@.subrange(0, j as int);
        assert(pre.drop_last() =~= es@.subrange(0, j - 1));
        assert(pre.last() == es@[j - 1]);
        if str_eq(es[j - 1].id.as_str(), id) {
            return Some(j - 1);
        }
        j = j - 1;
    }
    None
}

/// Copies of `es[from..]`.
fn copy_from(es: &Vec<TaskEvent>, from: usize) -> (r: Vec<TaskEvent>)
    requires
        from <= es@.len(),
    ensures
        r@ == es@.subrange(from as int, es@.len() as int),
{
    let mut r: Vec<TaskEvent> = Vec::new();
    let mut i = from;
    while i < es.len()
        invariant
            from <= i <= es@.len(),
            r@ == es@.subrange(from as int, i as int),
        decreases es@.len() - i,
    {
        r.push(es[i].duplicate());
        assert(r@ =~= es@.subrange(from as int, i + 1));
        i = i + 1;
    }
    r
}

/// The events of a log that a history query returns.
pub fn query_events(es: &Vec<TaskEvent>, opts: &Option<EventQueryOptions>) -> (r: Vec<TaskEvent>)
    ensures
        r@ == query(es@, *opts),
{
    let o = match opts {
        None => return copy_from(es, 0),
        Some(o) => o,
    };
    let mut result: Vec<TaskEvent>;
    match &o.since {
        None => {
            result = copy_from(es, 0);
        },
        Some(c) => {
            if let Some(id) = &c.id {
                match first_pos(es, id.as_str()) {
                    Some(p) => {
                        proof {
                            lemma_first_pos_range(es@, id@);
                        }
                        let n = es.len();
                        assert(p < n);
                        result = copy_from(es, p + 1);
                    },
                    None => {
                        result = copy_from(es, 0);
                    },
                }
            } else if let Some(k) = c.index {
                result = Vec::new();
                let mut i: usize = 0;
                while i < es.len()
                    invariant
                        0 <= i <= es@.len(),
                        result@ == after_index(es@.subrange(0, i as int), k),
                    decreases es@.len() - i,
                {
                    assert(es@.subrange(0, i + 1).drop_last() =~= es@.subrange(0, i as int));
                    if es[i].index > k {
                        result.push(es[i].duplicate());
                    }
                    i = i + 1;
                }
                assert(es@.subrange(0, es@.len() as int) =~= es@);
            } else if let Some(t) = c.timestamp {
                result = Vec::new();
                let mut i: usize = 0;
                while i < es.len()
                    invariant
                        0 <= i <= es@.len(),
                        result@ == after_timestamp(es@.subrange(0, i as int), t),
                    decreases es@.len() - i,
                {
                    assert(es@.subrange(0, i + 1).drop_last() =~= es@.subrange(0, i as int));
                    if es[i].timestamp > t {
                        result.push(es[i].duplicate());
                    }
                    i = i + 1;
                }
                assert(es@.subrange(0, es@.len() as int) =~= es@);
            } else {
                result = copy_from(es, 0);
            }
        },
    }
    if let Some(n) = o.limit {
        if n < result.len() as u64 {
            result.truncate(n as usize);
        }
    }
    result
}

/// Where the cursor names an id, its index and timestamp are not consulted;
/// where it names an index but no id, its timestamp is not consulted.
pub proof fn lemma_cursor_precedence(es: Seq<TaskEvent>, c: SinceCursor)
    ensures
        c.id is Some ==> apply_cursor(es, c) == apply_cursor(
            es,
            SinceCursor { id: c.id, index: None, timestamp: None },
        ),
        c.id is None && c.index is Some ==> apply_cursor(es, c) == apply_cursor(
            es,
            SinceCursor { id: None, index: c.index, timestamp: None },
        ),
{
}

/// The log after a series' latest event `e` took the place of the previous
/// latest `prev` (its last occurrence), or was appended where there was none.
pub open spec fn replaced_log(log: Seq<TaskEvent>, prev: Option<TaskEvent>, e: TaskEvent) -> Seq<TaskEvent> {
    match prev {
        Some(p) => match last_pos_of_id(log, p.id@) {
            Some(q) => log.update(q, e),
            None => log,
        },
        None => log.push(e),
    }
}

/// Whether an event belongs to series `sid`.
pub open spec fn in_series(e: TaskEvent, sid: Seq<char>) -> bool {
    e.series_id matches Some(x) && x@ == sid
}

proof fn lemma_last_pos_none(es: Seq<TaskEvent>, id: Seq<char>)
    ensures
        last_pos_of_id(es, id) is None ==> forall|j: int| 0 <= j < es.len() ==> es[j].id@ != id,
    decreases es.len(),
{
    if es.len() > 0 {
        lemma_last_pos_none(es.drop_last(), id);
        if last_pos_of_id(es, id) is None {
            assert forall|j: int| 0 <= j < es.len() implies es[j].id@ != id by {
                if j < es.len() - 1 {
                    assert(es.drop_last()[j] == es[j]);
                }
            }
        }
    }
}

/// Under the latest mode a series keeps one entry in the log: where the
/// only entry of series `sid` is its previous latest event (or it has none
/// and no previous latest), replacing with a new event of the series whose
/// id is fresh leaves exactly one entry of the series, the new event, and
/// its id appears once.
pub proof fn lemma_latest_keeps_one_entry(log: Seq<TaskEvent>, sid: Seq<char>, prev: Option<TaskEvent>, e: TaskEvent)
    requires
        in_series(e, sid),
        forall|j: int| 0 <= j < log.len() ==> log[j].id@ != e.id@,
        prev is None ==> forall|j: int| 0 <= j < log.len() ==> !in_series(#[trigger] log[j], sid),
        prev matches Some(p) ==> exists|q: int|
            0 <= q < log.len() && log[q] == p && (forall|j: int|
                0 <= j < log.len() && in_series(#[trigger] log[j], sid) ==> j == q) && (forall|j: int|
                0 <= j < log.len() && (#[trigger] log[j]).id@ == p.id@ ==> j == q),
    ensures
        exists|q: int|
            0 <= q < replaced_log(log, prev, e).len() && replaced_log(log, prev, e)[q] == e && (forall|j: int|
                0 <= j < replaced_log(log, prev, e).len() && in_series(#[trigger] replaced_log(log, prev, e)[j], sid)
                    ==> j == q) && (forall|j: int|
                0 <= j < replaced_log(log, prev, e).len() && (#[trigger] replaced_log(log, prev, e)[j]).id@ == e.id@ ==> j == q),
{
    let n = replaced_log(log, prev, e);
    match prev {
        Some(p) => {
            let q = choose|q: int|
                0 <= q < log.len() && log[q] == p && (forall|j: int|
                    0 <= j < log.len() && in_series(#[trigger] log[j], sid) ==> j == q) && (forall|j: int|
                    0 <= j < log.len() && (#[trigger] log[j]).id@ == p.id@ ==> j == q);
            lemma_last_pos_range(log, p.id@);
            lemma_last_pos_none(log, p.id@);
            assert(last_pos_of_id(log, p.id@) == Some(q));
            assert(n == log.update(q, e));
            assert(n[q] == e);
        },
        None => {
            assert(n == log.push(e));
            assert(n[log.len() as int] == e);
        },
    }
}

// ─── The in-memory store ────────────────────────────────────────────────────

/// The latest event of one series.
pub struct SeriesEntry {
    pub series_id: String,
    pub event: TaskEvent,
}

/// Everything the store keeps under one task id.
pub struct TaskSlot {
    pub id: String,
    pub task: Option<Task>,
    pub events: Vec<TaskEvent>,
    pub next_index: u64,
    pub series: Vec<SeriesEntry>,
}

/// The latest event recorded for a series: the last entry with its id.
pub open spec fn latest_in(series: Seq<SeriesEntry>, sid: Seq<char>) -> Option<TaskEvent>
    decreases series.len(),
{
    if series.len() == 0 {
        None
    } else if series.last().series_id@ == sid {
        Some(series.last().event)
    } else {
        latest_in(series.drop_last(), sid)
    }
}

proof fn lemma_latest_in_update(series: Seq<SeriesEntry>, j: int, x: SeriesEntry, s: Seq<char>)
    requires
        0 <= j < series.len(),
        series[j].series_id@ == x.series_id@,
        forall|k: int| j < k < series.len() ==> series[k].series_id@ != x.series_id@,
    ensures
        latest_in(series.update(j, x), s) == if s == x.series_id@ {
            Some(x.event)
        } else {
            latest_in(series, s)
        },
    decreases series.len(),
{
    let n = series.update(j, x);
    if j == series.len() - 1 {
        assert(n.drop_last() =~= series.drop_last());
    } else {
        assert(n.drop_last() =~= series.drop_last().update(j, x));
        lemma_latest_in_update(series.drop_last(), j, x, s);
    }
}

/// Where the last entry of series `sid` stands.
fn last_series_pos(series: &Vec<SeriesEntry>, sid: &str) -> (r: Option<usize>)
    ensures
        r matches Some(j) ==> j < series@.len() && series@[j as int].series_id@ == sid@ && forall|k: int|
            j < k < series@.len() ==> series@[k].series_id@ != sid@,
        r is None ==> forall|k: int| 0 <= k < series@.len() ==> series@[k].series_id@ != sid@,
{
    let mut j = series.len();
    while j > 0
        invariant
            j <= series@.len(),
            forall|k: int| j <= k < series@.len() ==> series@[k].series_id@ != sid@,
        decreases j,
    {
        if str_eq(series[j - 1].series_id.as_str(), sid) {
            return Some(j - 1);
        }
        j = j - 1;
    }
    None
}

/// No two slots share an id.
pub open spec fn unique_ids(slots: Seq<TaskSlot>) -> bool {
    forall|i: int, j: int|
        0 <= i < slots.len() && 0 <= j < slots.len() && i != j ==> slots[i].id@ != slots[j].id@
}

/// The slot with the given id, if any.
pub open spec fn slot_in(slots: Seq<TaskSlot>, id: Seq<char>) -> Option<TaskSlot> {
    if exists|i: int| 0 <= i < slots.len() && slots[i].id@ == id {
        Some(slots[choose|i: int| 0 <= i < slots.len() && slots[i].id@ == id])
    } else {
        None
    }
}

proof fn lemma_slot_at(slots: Seq<TaskSlot>, i: int)
    requires
        unique_ids(slots),
        0 <= i < slots.len(),
    ensures
        slot_in(slots, slots[i].id@) == Some(slots[i]),
{
    let id = slots[i].id@;
    let j = choose|j: int| 0 <= j < slots.len() && slots[j].id@ == id;
    assert(j == i);
}

proof fn lemma_slot_update(slots: Seq<TaskSlot>, i: int, s: TaskSlot)
    requires
        unique_ids(slots),
        0 <= i < slots.len(),
        s.id@ == slots[i].id@,
    ensures
        unique_ids(slots.update(i, s)),
        forall|k: Seq<char>|
            slot_in(slots.update(i, s), k) == if k == s.id@ {
                Some(s)
            } else {
                slot_in(slots, k)
            },
{
    let n = slots.update(i, s);
    assert forall|k: Seq<char>|
        slot_in(n, k) == if k == s.id@ {
            Some(s)
        } else {
            slot_in(slots, k)
        } by {
        if k == s.id@ {
            lemma_slot_at(n, i);
        } else {
            if exists|j: int| 0 <= j < slots.len() && slots[j].id@ == k {
                let j = choose|j: int| 0 <= j < slots.len() && slots[j].id@ == k;
                lemma_slot_at(slots, j);
                lemma_slot_at(n, j);
            } else {
                assert(!exists|j: int| 0 <= j < n.len() && n[j].id@ == k) by {
                    assert forall|j: int| 0 <= j < n.len() implies n[j].id@ != k by {
                        if j != i {
                            assert(n[j] == slots[j]);
                        }
                    }
                }
            }
        }
    }
}

proof fn lemma_slot_push(slots: Seq<TaskSlot>, s: TaskSlot)
    requires
        unique_ids(slots),
        slot_in(slots, s.id@) is None,
    ensures
        unique_ids(slots.push(s)),
        forall|k: Seq<char>|
            slot_in(slots.push(s), k) == if k == s.id@ {
                Some(s)
            } else {
                slot_in(slots, k)
            },
{
    let n = slots.push(s);
    assert(forall|j: int| 0 <= j < slots.len() ==> slots[j].id@ != s.id@);
    assert(unique_ids(n));
    assert forall|k: Seq<char>|
        slot_in(n, k) == if k == s.id@ {
            Some(s)
        } else {
            slot_in(slots, k)
        } by {
        if k == s.id@ {
            lemma_slot_at(n, slots.len() as int);
        } else {
            if exists|j: int| 0 <= j < slots.len() && slots[j].id@ == k {
                let j = choose|j: int| 0 <= j < slots.len() && slots[j].id@ == k;
                lemma_slot_at(slots, j);
                lemma_slot_at(n, j);
            } else {
                assert(!exists|j: int| 0 <= j < n.len() && n[j].id@ == k) by {
                    assert forall|j: int| 0 <= j < n.len() implies n[j].id@ != k by {
                        if j < slots.len() {
                            assert(n[j] == slots[j]);
                        }
                    }
                }
            }
        }
    }
}

/// The reference short-term store: task records, per-task append logs,
/// per-task index counters and series-latest entries, all in memory.
pub struct MemoryShortTermStore {
    slots: Vec<TaskSlot>,
}

impl MemoryShortTermStore {
    /// The slot kept under a task id.
    pub closed spec fn slot(&self, id: Seq<char>) -> Option<TaskSlot> {
        slot_in(self.slots@, id)
    }

    /// The store's internal invariant.
    pub closed spec fn wf(&self) -> bool {
        &&& unique_ids(self.slots@)
        &&& forall|i: int|
            0 <= i < self.slots@.len() ==> ((#[trigger] self.slots@[i]).task matches Some(t) ==> t.id@
                == self.slots@[i].id@)
    }

    /// A task record is saved under its own id.
    pub proof fn lemma_task_key(&self, k: Seq<char>)
        requires
            self.wf(),
        ensures
            self.task_of(k) matches Some(t) ==> t.id@ == k,
    {
        if exists|i: int| 0 <= i < self.slots@.len() && self.slots@[i].id@ == k {
            let i = choose|i: int| 0 <= i < self.slots@.len() && self.slots@[i].id@ == k;
            lemma_slot_at(self.slots@, i);
        }
    }

    /// The task record saved under `id`.
    pub open spec fn task_of(&self, id: Seq<char>) -> Option<Task> {
        match self.slot(id) {
            Some(s) => s.task,
            None => None,
        }
    }

    /// The append log of task `id`, in raw order.
    pub open spec fn log_of(&self, id: Seq<char>) -> Seq<TaskEvent> {
        match self.slot(id) {
            Some(s) => s.events@,
            None => Seq::empty(),
        }
    }

    /// The index that `next_index` hands out next for task `id`.
    pub open spec fn counter_of(&self, id: Seq<char>) -> u64 {
        match self.slot(id) {
            Some(s) => s.next_index,
            None => 0,
        }
    }

    /// The latest stored event of series `sid` of task `id`.
    pub open spec fn latest_of(&self, id: Seq<char>, sid: Seq<char>) -> Option<TaskEvent> {
        match self.slot(id) {
            Some(s) => latest_in(s.series@, sid),
            None => None,
        }
    }

    /// The two stores expose the same records, logs, counters and series.
    pub open spec fn same_as(&self, other: &Self) -> bool {
        &&& forall|k: Seq<char>| #[trigger] self.task_of(k) == other.task_of(k)
        &&& forall|k: Seq<char>| #[trigger] self.counter_of(k) == other.counter_of(k)
        &&& forall|k: Seq<char>, s: Seq<char>| #[trigger] self.latest_of(k, s) == other.latest_of(k, s)
        &&& forall|k: Seq<char>| #[trigger] self.log_of(k) == other.log_of(k)
    }

    /// Nothing but the log of task `id` differs between the two stores.
    pub open spec fn same_but_log(&self, other: &Self, id: Seq<char>) -> bool {
        &&& forall|k: Seq<char>| #[trigger] self.task_of(k) == other.task_of(k)
        &&& forall|k: Seq<char>| #[trigger] self.counter_of(k) == other.counter_of(k)
        &&& forall|k: Seq<char>, s: Seq<char>| #[trigger] self.latest_of(k, s) == other.latest_of(k, s)
        &&& forall|k: Seq<char>| k != id ==> #[trigger] self.log_of(k) == other.log_of(k)
    }

    /// An empty store.
    pub fn new() -> (r: Self)
        ensures
            r.wf(),
            forall|k: Seq<char>| #[trigger] r.task_of(k) is None,
            forall|k: Seq<char>| #[trigger] r.log_of(k) == Seq::<TaskEvent>::empty(),
            forall|k: Seq<char>| #[trigger] r.counter_of(k) == 0,
            forall|k: Seq<char>, s: Seq<char>| #[trigger] r.latest_of(k, s) is None,
    {
        MemoryShortTermStore { slots: Vec::new() }
    }

    proof fn lemma_after_slot_update(fin: Self, mid: Self, i: int, id: Seq<char>)
        requires
            mid.wf(),
            0 <= i < mid.slots@.len(),
            mid.slots@[i].id@ == id,
            fin.slots@ == mid.slots@.update(i, fin.slots@[i]),
            fin.slots@[i].id@ == id,
            fin.slots@[i].task == mid.slots@[i].task || (fin.slots@[i].task matches Some(t) && t.id@
                == id),
        ensures
            fin.wf(),
            fin.slot(id) == Some(fin.slots@[i]),
            mid.slot(id) == Some(mid.slots@[i]),
            forall|k: Seq<char>| k != id ==> #[trigger] fin.task_of(k) == mid.task_of(k),
            forall|k: Seq<char>| k != id ==> #[trigger] fin.log_of(k) == mid.log_of(k),
            forall|k: Seq<char>| k != id ==> #[trigger] fin.counter_of(k) == mid.counter_of(k),
            forall|k: Seq<char>, s: Seq<char>| k != id ==> #[trigger] fin.latest_of(k, s) == mid.latest_of(k, s),
            fin.task_of(id) == fin.slots@[i].task,
            mid.task_of(id) == mid.slots@[i].task,
            fin.log_of(id) == fin.slots@[i].events@,
            mid.log_of(id) == mid.slots@[i].events@,
            fin.counter_of(id) == fin.slots@[i].next_index,
            mid.counter_of(id) == mid.slots@[i].next_index,
            forall|s: Seq<char>| #[trigger] fin.latest_of(id, s) == latest_in(fin.slots@[i].series@, s),
            forall|s: Seq<char>| #[trigger] mid.latest_of(id, s) == latest_in(mid.slots@[i].series@, s),
    {
        lemma_slot_update(mid.slots@, i, fin.slots@[i]);
        lemma_slot_at(mid.slots@, i);
        lemma_slot_at(fin.slots@, i);
    }

    /// Where the slot of `id` is in `slots`, if it is there.
    fn find_slot(&self, id: &str) -> (r: Option<usize>)
        requires
            self.wf(),
        ensures
            r matches Some(i) ==> i < self.slots@.len() && self.slots@[i as int].id@ == id@
                && self.slot(id@) == Some(self.slots@[i as int]),
            r is None ==> self.slot(id@) is None,
    {
        let mut i: usize = 0;
        while i < self.slots.len()
            invariant
                0 <= i <= self.slots@.len(),
                self.wf(),
                forall|j: int| 0 <= j < i ==> self.slots@[j].id@ != id@,
            decreases self.slots@.len() - i,
        {
            if str_eq(self.slots[i].id.as_str(), id) {
                proof {
                    lemma_slot_at(self.slots@, i as int);
                }
                return Some(i);
            }
            i = i + 1;
        }
        None
    }

    /// The position of the slot of `id`, made empty if there was none;
    /// nothing that the store exposes changes.
    fn slot_for(&mut self, id: &str) -> (r: usize)
        requires
            old(self).wf(),
        ensures
            final(self).wf(),
            r < final(self).slots@.len(),
            final(self).slots@[r as int].id@ == id@,
            final(self).slot(id@) == Some(final(self).slots@[r as int]),
            forall|k: Seq<char>| #[trigger] final(self).task_of(k) == old(self).task_of(k),
            forall|k: Seq<char>| #[trigger] final(self).log_of(k) == old(self).log_of(k),
            forall|k: Seq<char>| #[trigger] final(self).counter_of(k) == old(self).counter_of(k),
            forall|k: Seq<char>, s: Seq<char>| #[trigger] final(self).latest_of(k, s) == old(self).latest_of(k, s),
    {
        match self.find_slot(id) {
            Some(i) => i,
            None => {
                let s = TaskSlot {
                    id: String::from_str(id),
                    task: None,
                    events: Vec::new(),
                    next_index: 0,
                    series: Vec::new(),
                };
                proof {
                    lemma_slot_push(self.slots@, s);
                }
                self.slots.push(s);
                proof {
                    lemma_slot_at(self.slots@, self.slots@.len() - 1);
                }
                self.slots.len() - 1
            },
        }
    }

    /// Saves a task record under its id, replacing any earlier one.
    pub fn save_task(&mut self, task: Task)
        requires
            old(self).wf(),
        ensures
            final(self).wf(),
            forall|k: Seq<char>| #[trigger] final(self).task_of(k) == if k == task.id@ {
                Some(task)
            } else {
                old(self).task_of(k)
            },
            forall|k: Seq<char>| #[trigger] final(self).log_of(k) == old(self).log_of(k),
            forall|k: Seq<char>| #[trigger] final(self).counter_of(k) == old(self).counter_of(k),
            forall|k: Seq<char>, s: Seq<char>| #[trigger] final(self).latest_of(k, s) == old(self).latest_of(k, s),
    {
        let i = self.slot_for(task.id.as_str());
        let ghost mid = *self;
        let ghost tid = task.id@;
        self.slots[i].task = Some(task);
        proof {
            Self::lemma_after_slot_update(*self, mid, i as int, tid);
            assert(self.slots@[i as int].events == mid.slots@[i as int].events);
            assert(self.slots@[i as int].series == mid.slots@[i as int].series);
            assert(mid.log_of(tid) == old(self).log_of(tid));
            assert(mid.counter_of(tid) == old(self).counter_of(tid));
            assert forall|k: Seq<char>, s: Seq<char>| #[trigger] self.latest_of(k, s) == old(self).latest_of(k, s) by {
                assert(mid.latest_of(k, s) == old(self).latest_of(k, s));
            }
        }
    }

    /// The task record saved under `id`, if any.
    pub fn get_task(&self, task_id: &str) -> (r: Option<Task>)
        requires
            self.wf(),
        ensures
            r == self.task_of(task_id@),
    {
        match self.find_slot(task_id) {
            Some(i) => match &self.slots[i].task {
                Some(t) => Some(t.duplicate()),
                None => None,
            },
            None => None,
        }
    }

    /// Appends an event to the log of a task.
    pub fn append_event(&mut self, task_id: &str, event: TaskEvent)
        requires
            old(self).wf(),
        ensures
            final(self).wf(),
            final(self).log_of(task_id@) == old(self).log_of(task_id@).push(event),
            final(self).same_but_log(old(self), task_id@),
    {
        let i = self.slot_for(task_id);
        let ghost mid = *self;
        self.slots[i].events.push(event);
        proof {
            Self::lemma_after_slot_update(*self, mid, i as int, task_id@);
            assert(self.slots@[i as int].task == mid.slots@[i as int].task);
            assert(self.slots@[i as int].series == mid.slots@[i as int].series);
            assert(mid.log_of(task_id@) == old(self).log_of(task_id@));
            assert(mid.task_of(task_id@) == old(self).task_of(task_id@));
            assert(mid.counter_of(task_id@) == old(self).counter_of(task_id@));
            assert forall|k: Seq<char>, s: Seq<char>| #[trigger] self.latest_of(k, s) == old(self).latest_of(k, s) by {
                assert(mid.latest_of(k, s) == old(self).latest_of(k, s));
            }
            assert forall|k: Seq<char>| #[trigger] self.task_of(k) == old(self).task_of(k) by {
                assert(mid.task_of(k) == old(self).task_of(k));
            }
            assert forall|k: Seq<char>| #[trigger] self.counter_of(k) == old(self).counter_of(k) by {
                assert(mid.counter_of(k) == old(self).counter_of(k));
            }
            assert forall|k: Seq<char>| k != task_id@ implies #[trigger] self.log_of(k) == old(self).log_of(k) by {
                assert(mid.log_of(k) == old(self).log_of(k));
            }
        }
    }

    /// The events of a task that a history query returns, in raw order.
    pub fn get_events(&self, task_id: &str, opts: Option<EventQueryOptions>) -> (r: Vec<TaskEvent>)
        requires
            self.wf(),
        ensures
            r@ == query(self.log_of(task_id@), opts),
    {
        match self.find_slot(task_id) {
            Some(i) => query_events(&self.slots[i].events, &opts),
            None => {
                let empty: Vec<TaskEvent> = Vec::new();
                query_events(&empty, &opts)
            },
        }
    }

    /// Expiry of a task's keys; records in memory do not expire.
    pub fn set_ttl(&self, task_id: &str, ttl_seconds: u64) {
    }

    /// The latest stored event of a series.
    pub fn get_series_latest(&self, task_id: &str, series_id: &str) -> (r: Option<TaskEvent>)
        requires
            self.wf(),
        ensures
            r == self.latest_of(task_id@, series_id@),
    {
        match self.find_slot(task_id) {
            Some(i) => {
                let series = &self.slots[i].series;
                let mut j = series.len();
                assert(series@.subrange(0, j as int) =~= series@);
                while j > 0
                    invariant
                        j <= series@.len(),
                        i < self.slots@.len(),
                        self.slot(task_id@) == Some(self.slots@[i as int]),
                        series@ == self.slots@[i as int].series@,
                        latest_in(series@, series_id@) == latest_in(series@.subrange(0, j as int), series_id@),
                    decreases j,
                {
                    let ghost pre = series@.subrange(0, j as int);
                    assert(pre.drop_last() =~= series@.subrange(0, j - 1));
                    assert(pre.last() == series@[j - 1]);
                    if str_eq(series[j - 1].series_id.as_str(), series_id) {
                        return Some(series[j - 1].event.duplicate());
                    }
                    j = j - 1;
                }
                None
            },
            None => None,
        }
    }

    /// Records `event` as the latest of its series.
    pub fn set_series_latest(&mut self, task_id: &str, series_id: &str, event: TaskEvent)
        requires
            old(self).wf(),
        ensures
            final(self).wf(),
            forall|k: Seq<char>| #[trigger] final(self).task_of(k) == old(self).task_of(k),
            forall|k: Seq<char>| #[trigger] final(self).log_of(k) == old(self).log_of(k),
            forall|k: Seq<char>| #[trigger] final(self).counter_of(k) == old(self).counter_of(k),
            forall|k: Seq<char>, s: Seq<char>| #[trigger] final(self).latest_of(k, s) == if k == task_id@
                && s == series_id@ {
                Some(event)
            } else {
                old(self).latest_of(k, s)
            },
    {
        let i = self.slot_for(task_id);
        let ghost mid = *self;
        let entry = SeriesEntry { series_id: String::from_str(series_id), event };
        let ghost x = entry;
        match last_series_pos(&self.slots[i].series, series_id) {
            Some(j) => {
                self.slots[i].series.set(j, entry);
                proof {
                    assert forall|s: Seq<char>| latest_in(self.slots@[i as int].series@, s) == if s
                        == series_id@ {
                        Some(x.event)
                    } else {
                        latest_in(mid.slots@[i as int].series@, s)
                    } by {
                        lemma_latest_in_update(mid.slots@[i as int].series@, j as int, x, s);
                    }
                }
            },
            None => {
                self.slots[i].series.push(entry);
                proof {
                    let ser = self.slots@[i as int].series@;
                    assert(ser.drop_last() == mid.slots@[i as int].series@);
                }
            },
        }
        proof {
            Self::lemma_after_slot_update(*self, mid, i as int, task_id@);
            assert(self.slots@[i as int].task == mid.slots@[i as int].task);
            assert(self.slots@[i as int].events == mid.slots@[i as int].events);
            assert(mid.log_of(task_id@) == old(self).log_of(task_id@));
            assert(mid.task_of(task_id@) == old(self).task_of(task_id@));
            assert(mid.counter_of(task_id@) == old(self).counter_of(task_id@));
            assert forall|k: Seq<char>, s: Seq<char>| #[trigger] self.latest_of(k, s) == if k == task_id@
                && s == series_id@ {
                Some(event)
            } else {
                old(self).latest_of(k, s)
            } by {
                assert(mid.latest_of(k, s) == old(self).latest_of(k, s));
            }
            assert forall|k: Seq<char>| #[trigger] self.task_of(k) == old(self).task_of(k) by {
                assert(mid.task_of(k) == old(self).task_of(k));
            }
            assert forall|k: Seq<char>| #[trigger] self.counter_of(k) == old(self).counter_of(k) by {
                assert(mid.counter_of(k) == old(self).counter_of(k));
            }
            assert forall|k: Seq<char>| #[trigger] self.log_of(k) == old(self).log_of(k) by {
                assert(mid.log_of(k) == old(self).log_of(k));
            }
        }
    }

    /// Puts `event` where the previous latest event of its series stands in
    /// the log (its last occurrence, searched from the tail), or appends it
    /// where the series has none yet; then records it as the latest.
    pub fn replace_last_series_event(&mut self, task_id: &str, series_id: &str, event: TaskEvent)
        requires
            old(self).wf(),
        ensures
            final(self).wf(),
            final(self).log_of(task_id@) == replaced_log(
                old(self).log_of(task_id@),
                old(self).latest_of(task_id@, series_id@),
                event,
            ),
            forall|k: Seq<char>| #[trigger] final(self).task_of(k) == old(self).task_of(k),
            forall|k: Seq<char>| k != task_id@ ==> #[trigger] final(self).log_of(k) == old(self).log_of(k),
            forall|k: Seq<char>| #[trigger] final(self).counter_of(k) == old(self).counter_of(k),
            forall|k: Seq<char>, s: Seq<char>| #[trigger] final(self).latest_of(k, s) == if k == task_id@
                && s == series_id@ {
                Some(event)
            } else {
                old(self).latest_of(k, s)
            },
    {
        let prev = self.get_series_latest(task_id, series_id);
        match prev {
            Some(p) => {
                let i = self.slot_for(task_id);
                let ghost mid = *self;
                let ghost before = self.slots@;
                let found = last_pos(&self.slots[i].events, p.id.as_str());
                proof {
                    lemma_last_pos_range(before[i as int].events@, p.id@);
                }
                let ev = event.duplicate();
                if let Some(pos) = found {
                    self.slots[i].events.set(pos, ev);
                }
                proof {
                    assert(self.slots@ =~= mid.slots@.update(i as int, self.slots@[i as int]));
                    Self::lemma_after_slot_update(*self, mid, i as int, task_id@);
                    assert(self.slots@[i as int].task == mid.slots@[i as int].task);
                    assert(self.slots@[i as int].series == mid.slots@[i as int].series);
                    assert(self.slots@[i as int].next_index == mid.slots@[i as int].next_index);
                    assert(mid.log_of(task_id@) == old(self).log_of(task_id@));
                    assert(mid.task_of(task_id@) == old(self).task_of(task_id@));
                    assert(mid.counter_of(task_id@) == old(self).counter_of(task_id@));
                    assert(mid.latest_of(task_id@, series_id@) == old(self).latest_of(task_id@, series_id@));
                    assert forall|k: Seq<char>, s: Seq<char>| #[trigger] self.latest_of(k, s) == old(self).latest_of(k, s) by {
                        assert(mid.latest_of(k, s) == old(self).latest_of(k, s));
                    }
                    assert forall|k: Seq<char>| #[trigger] self.task_of(k) == old(self).task_of(k) by {
                        assert(mid.task_of(k) == old(self).task_of(k));
                    }
                    assert forall|k: Seq<char>| #[trigger] self.counter_of(k) == old(self).counter_of(k) by {
                        assert(mid.counter_of(k) == old(self).counter_of(k));
                    }
                    assert forall|k: Seq<char>| k != task_id@ implies #[trigger] self.log_of(k) == old(self).log_of(k) by {
                        assert(mid.log_of(k) == old(self).log_of(k));
                    }
                }
            },
            None => {
                self.append_event(task_id, event.duplicate());
            },
        }
        self.set_series_latest(task_id, series_id, event);
    }

    /// `after` is `before` once `next_index` handed out `v` for task `id`.
    pub open spec fn issued(before: Self, after: Self, id: Seq<char>, v: u64) -> bool {
        &&& v == before.counter_of(id)
        &&& v < u64::MAX
        &&& forall|k: Seq<char>| #[trigger] after.counter_of(k) == if k == id {
            (v + 1) as u64
        } else {
            before.counter_of(k)
        }
    }

    /// Hands out the next index of a task and advances its counter; `None`
    /// where the counter is exhausted.
    pub fn next_index(&mut self, task_id: &str) -> (r: Option<u64>)
        requires
            old(self).wf(),
        ensures
            final(self).wf(),
            r == if old(self).counter_of(task_id@) < u64::MAX {
                Some(old(self).counter_of(task_id@))
            } else {
                None
            },
            r matches Some(v) ==> Self::issued(*old(self), *final(self), task_id@, v),
            forall|k: Seq<char>| #[trigger] final(self).counter_of(k) == if k == task_id@ && r is Some {
                (old(self).counter_of(k) + 1) as u64
            } else {
                old(self).counter_of(k)
            },
            forall|k: Seq<char>| #[trigger] final(self).task_of(k) == old(self).task_of(k),
            forall|k: Seq<char>| #[trigger] final(self).log_of(k) == old(self).log_of(k),
            forall|k: Seq<char>, s: Seq<char>| #[trigger] final(self).latest_of(k, s) == old(self).latest_of(k, s),
    {
        let i = self.slot_for(task_id);
        let current = self.slots[i].next_index;
        proof {
            assert(self.counter_of(task_id@) == old(self).counter_of(task_id@));
        }
        if current == u64::MAX {
            return None;
        }
        let ghost mid = *self;
        self.slots[i].next_index = current + 1;
        proof {
            Self::lemma_after_slot_update(*self, mid, i as int, task_id@);
            assert(self.slots@[i as int].task == mid.slots@[i as int].task);
            assert(self.slots@[i as int].series == mid.slots@[i as int].series);
            assert(self.slots@[i as int].events == mid.slots@[i as int].events);
            assert(mid.log_of(task_id@) == old(self).log_of(task_id@));
            assert(mid.task_of(task_id@) == old(self).task_of(task_id@));
            assert forall|k: Seq<char>, s: Seq<char>| #[trigger] self.latest_of(k, s) == old(self).latest_of(k, s) by {
                assert(mid.latest_of(k, s) == old(self).latest_of(k, s));
            }
            assert forall|k: Seq<char>| #[trigger] self.task_of(k) == old(self).task_of(k) by {
                assert(mid.task_of(k) == old(self).task_of(k));
            }
            assert forall|k: Seq<char>| #[trigger] self.counter_of(k) == if k == task_id@ {
                (old(self).counter_of(k) + 1) as u64
            } else {
                old(self).counter_of(k)
            } by {
                assert(mid.counter_of(k) == old(self).counter_of(k));
            }
            assert forall|k: Seq<char>| #[trigger] self.log_of(k) == old(self).log_of(k) by {
                assert(mid.log_of(k) == old(self).log_of(k));
            }
        }
        Some(current)
    }
}

} // verus!

verus! {

/// How many of `ids` are `id`.
pub open spec fn count_of(ids: Seq<Seq<char>>, id: Seq<char>) -> nat
    decreases ids.len(),
{
    if ids.len() == 0 {
        0
    } else {
        count_of(ids.drop_last(), id) + if ids.last() == id { 1nat } else { 0nat }
    }
}

proof fn lemma_count_grows(ids: Seq<Seq<char>>, id: Seq<char>, i: int, j: int)
    requires
        0 <= i <= j <= ids.len(),
    ensures
        count_of(ids.subrange(0, i), id) <= count_of(ids.subrange(0, j), id),
    decreases j - i,
{
    if i < j {
        lemma_count_grows(ids, id, i, j - 1);
        assert(ids.subrange(0, j).drop_last() =~= ids.subrange(0, j - 1));
    }
}

proof fn lemma_counter_along_run(
    stores: Seq<MemoryShortTermStore>,
    ids: Seq<Seq<char>>,
    vs: Seq<u64>,
    tid: Seq<char>,
    n: int,
)
    requires
        stores.len() == ids.len() + 1,
        vs.len() == ids.len(),
        forall|i: int| 0 <= i < ids.len() ==> MemoryShortTermStore::issued(#[trigger] stores[i], stores[i + 1], ids[i], vs[i]),
        0 <= n <= ids.len(),
    ensures
        stores[n].counter_of(tid) == stores[0].counter_of(tid) + count_of(ids.subrange(0, n), tid),
    decreases n,
{
    if n > 0 {
        lemma_counter_along_run(stores, ids, vs, tid, n - 1);
        assert(ids.subrange(0, n).drop_last() =~= ids.subrange(0, n - 1));
        assert(MemoryShortTermStore::issued(stores[n - 1], stores[n], ids[n - 1], vs[n - 1]));
        assert(stores[n].counter_of(tid) == if tid == ids[n - 1] {
            (vs[n - 1] + 1) as u64
        } else {
            stores[n - 1].counter_of(tid)
        });
    } else {
        assert(ids.subrange(0, 0) =~= Seq::<Seq<char>>::empty());
    }
}

/// Index density on a shared store: along any run of `next_index` calls on
/// one store, whatever task each call names and whoever makes it, the
/// indices handed out for a task are its counter before the run plus the
/// number of earlier calls for that task, so they are consecutive and no
/// two coincide.
pub proof fn lemma_next_index_run(
    stores: Seq<MemoryShortTermStore>,
    ids: Seq<Seq<char>>,
    vs: Seq<u64>,
    tid: Seq<char>,
)
    requires
        stores.len() == ids.len() + 1,
        vs.len() == ids.len(),
        forall|i: int| 0 <= i < ids.len() ==> MemoryShortTermStore::issued(#[trigger] stores[i], stores[i + 1], ids[i], vs[i]),
    ensures
        forall|i: int|
            0 <= i < ids.len() && ids[i] == tid ==> vs[i] == stores[0].counter_of(tid) + count_of(
                #[trigger] ids.subrange(0, i),
                tid,
            ),
        forall|i: int, j: int|
            0 <= i < j < ids.len() && ids[i] == tid && ids[j] == tid ==> vs[i] < vs[j],
        stores.last().counter_of(tid) == stores[0].counter_of(tid) + count_of(ids, tid),
{
    assert forall|i: int| 0 <= i < ids.len() && ids[i] == tid implies vs[i] == stores[0].counter_of(tid)
        + count_of(#[trigger] ids.subrange(0, i), tid) by {
        lemma_counter_along_run(stores, ids, vs, tid, i);
        assert(MemoryShortTermStore::issued(stores[i], stores[i + 1], ids[i], vs[i]));
    }
    assert forall|i: int, j: int| 0 <= i < j < ids.len() && ids[i] == tid && ids[j] == tid implies vs[i]
        < vs[j] by {
        lemma_counter_along_run(stores, ids, vs, tid, i);
        lemma_counter_along_run(stores, ids, vs, tid, j);
        assert(MemoryShortTermStore::issued(stores[i], stores[i + 1], ids[i], vs[i]));
        assert(MemoryShortTermStore::issued(stores[j], stores[j + 1], ids[j], vs[j]));
        lemma_count_grows(ids, tid, i + 1, j);
        assert(ids.subrange(0, i + 1).drop_last() =~= ids.subrange(0, i));
    }
    lemma_counter_along_run(stores, ids, vs, tid, ids.len() as int);
    assert(ids.subrange(0, ids.len() as int) =~= ids);
}

} // verus!
