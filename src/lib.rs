//! Benchmarks a batch of proof jobs: each job runs an external command a
//! configured number of times, at most a given number of jobs at once, and
//! the run times of each finished job become one CSV row.
//!
//! - `job_source`: which directories are jobs, and in what order.
//! - `scheduler`: the slots that bound concurrency, and the steps that carry
//!   one job through its runs.
//! - `event`: the lifecycle events that executors send.
//! - `aggregator`: the single consumer of those events and its per-job table.
//! - `csv`: the row written for each finished job.
pub mod aggregator;
pub mod csv;
pub mod event;
pub mod job_source;
pub mod scheduler;
