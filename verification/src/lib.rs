//! Verified core of a terminal dashboard for a Slurm-managed compute cluster.
//!
//! The library parses the delimited text that the scheduler's introspection
//! commands emit into typed node and job records, groups those records into a
//! cluster / partition / node hierarchy, derives per-resource utilization
//! figures under a resource-blocking model, and renders them as proportional
//! bars with sub-character resolution.  All quantities that the scheduler
//! reports fractionally (CPU load, memory with unit suffixes) are held in
//! exact fixed-point integers: one resource unit is `UNIT_SCALE` hundredths.
//!
//! Command execution and terminal drawing live outside this crate; the
//! library works on plain values and is verified end to end.

pub mod args;
pub mod bar;
pub mod cluster;
pub mod config;
pub mod error;
pub mod misc;
pub mod jobs;
pub mod nodes;
pub mod partitions;
pub mod scrollbar;
pub mod text;
pub mod utilities;
pub mod utilization;

pub use utilization::Utilization;

use vstd::prelude::*;

verus! {

/// Fixed-point scale: utilization quantities count hundredths of a resource
/// unit, so that fractional CPU load is represented exactly.
pub const UNIT_SCALE: u64 = 100;

/// Upper bound accepted for any single parsed resource amount (CPU count,
/// megabytes of memory, GPU count, hundredths of CPU load).  Keeping every
/// amount below this bound lets the utilization arithmetic stay inside `u64`
/// without overflow.
pub const MAX_AMOUNT: u64 = 1_000_000_000_000_000;

} // verus!
