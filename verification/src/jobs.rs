//! Jobs that the server runs on a schedule, and the queue that holds them in
//! the order in which they fall due.
//!
//! Instants are milliseconds since the epoch and intervals are milliseconds.
pub mod job;
pub mod job_queue;
pub mod scheduled_job;
pub mod scheduling_strategy;
