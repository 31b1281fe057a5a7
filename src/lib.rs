//! Task tracking and event streaming.
//!
//! Producers create tasks, drive them through a small lifecycle, and
//! publish events on them; each event of a task gets the next index of a
//! dense per-task counter. Consumers read a task's history with a cursor or
//! follow it as a stream that replays the history through a filter and then
//! goes live. Events of a series are compacted by the series mode.
//!
//! Every function here is verified: its contract is proved against the
//! mathematical model that its module states (`MemoryShortTermStore::log_of`,
//! `filter::filtered_view`, `stream::message_for`, ...).

pub mod types;
pub mod config;
pub mod text;
pub mod json;
pub mod state_machine;
pub mod filter;
pub mod cleanup;
pub mod store;
pub mod series;
pub mod broadcast;
pub mod engine;
pub mod stream;
pub mod query;
pub mod auth;
pub mod error;
pub mod webhook;
pub mod keys;
