use vstd::prelude::*;

verus! {

/// Verbosity of the server log.
#[derive(Clone, Copy, Debug, PartialEq, Eq, Structural)]
pub enum LogLevel {
    Debug,
    Info,
    Warn,
    Error,
}

/// The syntax of a configuration file.
#[derive(Clone, Copy, Debug, PartialEq, Eq, Structural)]
pub enum ConfigFormat {
    Json,
    Yaml,
}

/// One configured adapter.
#[derive(Clone, Debug)]
pub struct AdapterEntry {
    pub provider: String,
    pub url: Option<String>,
}

/// The adapters a deployment uses.
#[derive(Clone, Debug)]
pub struct AdaptersConfig {
    pub broadcast: Option<AdapterEntry>,
    pub short_term: Option<AdapterEntry>,
    pub long_term: Option<AdapterEntry>,
}

/// Error-reporting switches.
#[derive(Clone, Debug)]
pub struct SentryConfig {
    pub dsn: Option<String>,
    pub capture_task_failures: Option<bool>,
    pub capture_task_timeouts: Option<bool>,
    pub capture_unhandled_errors: Option<bool>,
    pub capture_dropped_events: Option<bool>,
    pub capture_storage_errors: Option<bool>,
    pub capture_broadcast_errors: Option<bool>,
    pub trace_sse_connections: Option<bool>,
    pub trace_event_publish: Option<bool>,
}

/// A configured default retry policy; unset fields fall back.
#[derive(Clone, Debug)]
pub struct WebhookRetryConfig {
    pub retries: Option<u32>,
    pub backoff: Option<String>,
    pub initial_delay_ms: Option<u64>,
    pub max_delay_ms: Option<u64>,
    pub timeout_ms: Option<u64>,
}

/// Deployment-wide webhook settings.
#[derive(Clone, Debug)]
pub struct WebhookGlobalConfig {
    pub default_retry: Option<WebhookRetryConfig>,
}

} // verus!
