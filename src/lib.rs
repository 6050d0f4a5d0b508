//! A personal time ledger: one timer at a time, a store of completed time
//! slices with their tags and descriptions, and a chronological timeline.
//!
//! - `error`: what operations fail with.
//! - `model`: the rows (slices, tags, descriptions).
//! - `database`: the store and its schema invariants.
//! - `timeline`: the ordered read view over the store.
//! - `clock`: wall-clock time and a stopwatch.
//! - `text`: durations, `#tags` and start arguments read from text.
//! - `controller`: the timer state machine and its watchdog.
//! - `laws`: properties that relate several operations.
pub mod error;
pub mod model;
pub mod database;
pub mod timeline;
pub mod clock;
pub mod text;
pub mod controller;
pub mod laws;
