//! Poll-based directory change tracking.
//!
//! The library captures a directory tree as a [`file_tracker::Snapshot`] of
//! per-path metadata, compares successive snapshots into classified change
//! records, and encodes the tracker state into a durable byte format that
//! round-trips exactly. A small state machine drives the periodic
//! scan / diff / notify / persist cycle; the surrounding process supplies the
//! filesystem walks, the timer and the notification sink.

pub mod codec;
pub mod config;
pub mod error;
pub mod file_tracker;
pub mod sync;
