use vstd::prelude::*;

verus! {

/// Lifecycle status of a task.
#[derive(Clone, Copy, Debug, PartialEq, Eq, Structural)]
pub enum TaskStatus {
    Pending,
    Running,
    Completed,
    Failed,
    Timeout,
    Cancelled,
}

/// Severity of an event.
#[derive(Clone, Copy, Debug, PartialEq, Eq, Structural)]
pub enum Level {
    Debug,
    Info,
    Warn,
    Error,
}

/// How events that share a series id are compacted.
#[derive(Clone, Copy, Debug, PartialEq, Eq, Structural)]
pub enum SeriesMode {
    KeepAll,
    Accumulate,
    Latest,
}

/// A permission carried by a caller's credential.
#[derive(Clone, Copy, Debug, PartialEq, Eq, Structural)]
pub enum PermissionScope {
    TaskCreate,
    TaskManage,
    EventPublish,
    EventSubscribe,
    EventHistory,
    WebhookCreate,
    All,
}

/// Delay growth between webhook delivery attempts.
#[derive(Clone, Copy, Debug, PartialEq, Eq, Structural)]
pub enum BackoffStrategy {
    Fixed,
    Exponential,
    Linear,
}

/// What a cleanup rule removes.
#[derive(Clone, Copy, Debug, PartialEq, Eq, Structural)]
pub enum CleanupTarget {
    All,
    Events,
    Task,
}

/// Retry policy of webhook delivery.
#[derive(Clone, Copy, Debug, PartialEq, Eq, Structural)]
pub struct RetryConfig {
    pub retries: u32,
    pub backoff: BackoffStrategy,
    pub initial_delay_ms: u64,
    pub max_delay_ms: u64,
    pub timeout_ms: u64,
}

/// Which tasks a cleanup rule applies to.
#[derive(Clone, Debug)]
pub struct CleanupRuleMatch {
    pub task_types: Option<Vec<String>>,
    pub status: Option<Vec<TaskStatus>>,
}

/// When a cleanup rule fires, relative to task completion.
#[derive(Clone, Copy, Debug, PartialEq, Eq, Structural)]
pub struct CleanupTrigger {
    pub after_ms: Option<u64>,
}

/// Which events of a task a cleanup rule removes.
#[derive(Clone, Debug)]
pub struct CleanupEventFilter {
    pub types: Option<Vec<String>>,
    pub levels: Option<Vec<Level>>,
    pub older_than_ms: Option<u64>,
    pub series_mode: Option<Vec<SeriesMode>>,
}

/// A retention rule.
#[derive(Clone, Debug)]
pub struct CleanupRule {
    pub name: Option<String>,
    pub rule_match: Option<CleanupRuleMatch>,
    pub trigger: CleanupTrigger,
    pub target: CleanupTarget,
    pub event_filter: Option<CleanupEventFilter>,
}

/// The retention rules of a task.
#[derive(Clone, Debug)]
pub struct CleanupConfig {
    pub rules: Vec<CleanupRule>,
}

/// Scopes that a per-task authorization rule applies to.
#[derive(Clone, Debug)]
pub struct TaskAuthRuleMatch {
    pub scope: Vec<PermissionScope>,
}

/// What a per-task authorization rule demands of a caller; `claims` is
/// JSON text.
#[derive(Clone, Debug)]
pub struct TaskAuthRuleRequire {
    pub claims: Option<String>,
    pub sub: Option<Vec<String>>,
}

/// A per-task authorization rule.
#[derive(Clone, Debug)]
pub struct TaskAuthRule {
    pub rule_match: TaskAuthRuleMatch,
    pub require: TaskAuthRuleRequire,
}

/// The authorization rules of a task.
#[derive(Clone, Debug)]
pub struct TaskAuthConfig {
    pub rules: Vec<TaskAuthRule>,
}

/// Context handed to the unhandled-error hook.
#[derive(Clone, Debug)]
pub struct ErrorContext {
    pub operation: String,
    pub task_id: Option<String>,
}

/// Failure details recorded on a task. `details` is JSON text.
#[derive(Clone, Debug, PartialEq, Eq)]
pub struct TaskError {
    pub code: Option<String>,
    pub message: String,
    pub details: Option<String>,
}

/// A tracked unit of work. Structured fields (`params`, `result`,
/// `metadata`, `auth_config`, `webhooks`, `cleanup`) are JSON text;
/// timestamps are milliseconds since the Unix epoch.
#[derive(Clone, Debug, PartialEq, Eq)]
pub struct Task {
    pub id: String,
    pub task_type: Option<String>,
    pub status: TaskStatus,
    pub params: Option<String>,
    pub result: Option<String>,
    pub error: Option<TaskError>,
    pub metadata: Option<String>,
    pub created_at: u64,
    pub updated_at: u64,
    pub completed_at: Option<u64>,
    pub ttl: Option<u64>,
    pub auth_config: Option<String>,
    pub webhooks: Option<String>,
    pub cleanup: Option<String>,
}

/// An event attached to a task. `data` is JSON text; `timestamp` is in
/// milliseconds since the Unix epoch.
#[derive(Clone, Debug, PartialEq, Eq)]
pub struct TaskEvent {
    pub id: String,
    pub task_id: String,
    pub index: u64,
    pub timestamp: u64,
    pub event_type: String,
    pub level: Level,
    pub data: String,
    pub series_id: Option<String>,
    pub series_mode: Option<SeriesMode>,
}

/// The wrapped shape of an event on a stream.
#[derive(Clone, Debug)]
pub struct SSEEnvelope {
    pub filtered_index: u64,
    pub raw_index: u64,
    pub event_id: String,
    pub task_id: String,
    pub event_type: String,
    pub timestamp: u64,
    pub level: Level,
    pub data: String,
    pub series_id: Option<String>,
    pub series_mode: Option<SeriesMode>,
}

/// A resume position in an event log.
#[derive(Clone, Debug)]
pub struct SinceCursor {
    pub id: Option<String>,
    pub index: Option<u64>,
    pub timestamp: Option<u64>,
}

/// What a consumer of a task's events wants to see.
#[derive(Clone, Debug)]
pub struct SubscribeFilter {
    pub since: Option<SinceCursor>,
    pub types: Option<Vec<String>>,
    pub levels: Option<Vec<Level>>,
    pub include_status: Option<bool>,
    pub wrap: Option<bool>,
}

/// Cursor and limit of a history read.
#[derive(Clone, Debug)]
pub struct EventQueryOptions {
    pub since: Option<SinceCursor>,
    pub limit: Option<u64>,
}

/// Copies an optional string, keeping it equal.
pub fn copy_opt_string(s: &Option<String>) -> (r: Option<String>)
    ensures
        r == *s,
{
    match s {
        Some(v) => Some(v.clone()),
        None => None,
    }
}

impl TaskError {
    /// An equal copy.
    pub fn duplicate(&self) -> (r: TaskError)
        ensures
            r == *self,
    {
        TaskError {
            code: copy_opt_string(&self.code),
            message: self.message.clone(),
            details: copy_opt_string(&self.details),
        }
    }
}

impl Task {
    /// An equal copy.
    pub fn duplicate(&self) -> (r: Task)
        ensures
            r == *self,
    {
        Task {
            id: self.id.clone(),
            task_type: copy_opt_string(&self.task_type),
            status: self.status,
            params: copy_opt_string(&self.params),
            result: copy_opt_string(&self.result),
            error: match &self.error {
                Some(e) => Some(e.duplicate()),
                None => None,
            },
            metadata: copy_opt_string(&self.metadata),
            created_at: self.created_at,
            updated_at: self.updated_at,
            completed_at: self.completed_at,
            ttl: self.ttl,
            auth_config: copy_opt_string(&self.auth_config),
            webhooks: copy_opt_string(&self.webhooks),
            cleanup: copy_opt_string(&self.cleanup),
        }
    }
}

impl TaskEvent {
    /// An equal copy.
    pub fn duplicate(&self) -> (r: TaskEvent)
        ensures
            r == *self,
    {
        TaskEvent {
            id: self.id.clone(),
            task_id: self.task_id.clone(),
            index: self.index,
            timestamp: self.timestamp,
            event_type: self.event_type.clone(),
            level: self.level,
            data: self.data.clone(),
            series_id: copy_opt_string(&self.series_id),
            series_mode: self.series_mode,
        }
    }
}

} // verus!
