use vstd::prelude::*;

use crate::text::concat;

verus! {

/// The key prefix used where none is configured: `taskcast`.
pub fn default_prefix() -> (r: &'static str)
    ensures
        r@ == "taskcast"@,
{
    "taskcast"
}

/// The key scheme of a shared short-term store under a prefix.
pub struct Keys {
    pub prefix: String,
}

/// `a`, `b` and `c` one after another.
fn concat3(a: &str, b: &str, c: &str) -> (r: String)
    ensures
        r@ == a@ + b@ + c@,
{
    let ab = concat(a, b);
    concat(ab.as_str(), c)
}

impl Keys {
    /// The scheme under `prefix`.
    pub fn new(prefix: &str) -> (r: Keys)
        ensures
            r.prefix@ == prefix@,
    {
        Keys { prefix: String::from_str(prefix) }
    }

    /// `{prefix}:task:{id}`: the task record.
    pub fn task(&self, id: &str) -> (r: String)
        ensures
            r@ == self.prefix@ + ":task:"@ + id@,
    {
        concat3(self.prefix.as_str(), ":task:", id)
    }

    /// `{prefix}:events:{id}`: the append log.
    pub fn events(&self, id: &str) -> (r: String)
        ensures
            r@ == self.prefix@ + ":events:"@ + id@,
    {
        concat3(self.prefix.as_str(), ":events:", id)
    }

    /// `{prefix}:idx:{id}`: the index counter.
    pub fn idx(&self, id: &str) -> (r: String)
        ensures
            r@ == self.prefix@ + ":idx:"@ + id@,
    {
        concat3(self.prefix.as_str(), ":idx:", id)
    }

    /// `{prefix}:series:{taskId}:{seriesId}`: the latest event of a series.
    pub fn series_latest(&self, task_id: &str, series_id: &str) -> (r: String)
        ensures
            r@ == self.prefix@ + ":series:"@ + task_id@ + ":"@ + series_id@,
    {
        let head = concat3(self.prefix.as_str(), ":series:", task_id);
        concat3(head.as_str(), ":", series_id)
    }

    /// `{prefix}:seriesIds:{taskId}`: the series ids of a task.
    pub fn series_ids(&self, task_id: &str) -> (r: String)
        ensures
            r@ == self.prefix@ + ":seriesIds:"@ + task_id@,
    {
        concat3(self.prefix.as_str(), ":seriesIds:", task_id)
    }
}

/// The table names of a long-term store under a prefix.
pub struct TableNames {
    pub tasks: String,
    pub events: String,
}

impl TableNames {
    /// `{prefix}_tasks` and `{prefix}_events`.
    pub fn new(prefix: &str) -> (r: TableNames)
        ensures
            r.tasks@ == prefix@ + "_tasks"@,
            r.events@ == prefix@ + "_events"@,
    {
        TableNames { tasks: concat(prefix, "_tasks"), events: concat(prefix, "_events") }
    }
}

} // verus!
