//! The configuration the dashboard runs with.  Argument parsing itself
//! happens outside the library; this type carries the plain values.

use vstd::prelude::*;

verus! {

/// Runtime configuration of the dashboard.
#[derive(Clone, Debug, PartialEq, Eq)]
pub struct Args {
    /// Default memory per CPU in megabytes; zero disables blocking.
    pub def_mem_per_cpu: u64,
    /// Refresh interval in seconds; zero disables automatic updates.
    pub interval: u64,
    /// Location of the node-info executable.
    pub sinfo: String,
    /// Location of the job-info executable.
    pub squeue: String,
    /// Whether only the version is printed.
    pub version: bool,
}

impl Default for Args {
    /// The stock configuration: the documented default memory per CPU, a
    /// five-second refresh, and the standard tool names.
    fn default() -> (r: Self)
        ensures
            r.def_mem_per_cpu == 15948,
            r.interval == 5,
            r.sinfo@ == "sinfo"@,
            r.squeue@ == "squeue"@,
            !r.version,
    {
        Args {
            def_mem_per_cpu: 15948,
            interval: 5,
            sinfo: String::from_str("sinfo"),
            squeue: String::from_str("squeue"),
            version: false,
        }
    }
}

} // verus!
