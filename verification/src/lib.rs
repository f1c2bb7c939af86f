//! Resource accounting for instrumented programs.
//!
//! A program brackets its steps with calls to a tracker: it starts and
//! finishes operations, and starts and ends named phases around groups of
//! operations. At each call it passes a reading of the clock and of the
//! process's resource counters. The tracker works out what each operation
//! cost, adds that cost to every phase that is open when the operation
//! finishes, and reports operations, phases and the whole run.
//!
//! - [`metrics`]: readings, samples, the cost of an interval and how costs
//!   combine.
//! - [`phases`]: the phases of a run and their totals.
//! - [`tracker`]: the tracker for one operation at a time.
//! - [`concurrent`]: the tracker for one operation per thread.
//! - [`report`]: the report of a run and its text.
//!
//! Nothing here reads a clock or asks the operating system: the caller does,
//! and no call can fail.

pub mod concurrent;
pub mod metrics;
pub mod phases;
pub mod report;
pub mod tracker;
