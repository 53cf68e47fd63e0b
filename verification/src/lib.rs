//! Core of a periodic command watcher: it decodes ANSI-styled command output
//! into styled text, expands tabs elastically, marks differences between
//! successive outputs and literal search matches, keeps an append-only record
//! store with a volatile and a durable backend, and plans the scheduler's
//! ticks.

pub mod action;
pub mod bytes;
pub mod config;
pub mod diff;
pub mod exec;
pub mod old_config;
pub mod runner;
pub mod search;
pub mod store;
pub mod style;
pub mod termtext;
pub mod types;
pub mod unicode;
