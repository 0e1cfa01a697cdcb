//! The schedule of update runs: how often a run starts. The timer loop
//! itself lives with the caller; this type only fixes the arithmetic.

use vstd::prelude::*;

verus! {

/// Periodic schedule for update runs.
pub struct Scheduler {
    interval_hours: u64,
}

impl Scheduler {
    /// The configured interval in hours.
    pub closed spec fn spec_hours(&self) -> u64 {
        self.interval_hours
    }

    /// A schedule that runs every `interval_hours` hours.
    pub fn new(interval_hours: u64) -> (s: Scheduler)
        ensures
            s.spec_hours() == interval_hours,
    {
        Scheduler { interval_hours }
    }

    /// The interval in seconds.
    pub fn interval(&self) -> (secs: u64)
        requires
            self.spec_hours() * 3600 <= u64::MAX,
        ensures
            secs == self.spec_hours() * 3600,
    {
        self.interval_hours * 3600
    }
}

} // verus!
