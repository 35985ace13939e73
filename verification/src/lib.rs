//! Batch copying of objects between buckets of an object store.
//!
//! The crate holds the decisions of a batch copy and leaves the network to its
//! caller: it decodes the input rows into copy tasks, builds the request of
//! each task, schedules the tasks under a bound on how many may be in flight,
//! and counts the outcomes.

pub mod address;
pub mod config;
pub mod outcome;
pub mod reader;
pub mod record;
pub mod report;
pub mod runner;
pub mod schedule;
pub mod scheduler;
pub mod tally;
