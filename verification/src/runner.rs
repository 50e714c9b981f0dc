//! Scheduler loop controller: the start/stop state machine of the single
//! recurring background worker. The host owns the actual thread and timer;
//! this type decides, with contracts, when a worker may be spawned and
//! when the loop must wind down.

use vstd::prelude::*;

verus! {

/// The controller's state: whether a worker was ever started, and whether
/// cooperative termination was requested.
pub struct SchedulerRunner {
    pub started: bool,
    pub stop_requested: bool,
}

impl SchedulerRunner {
    /// A fresh controller: not started, not stopping.
    pub fn new() -> (r: SchedulerRunner)
        ensures
            !r.started,
            !r.stop_requested,
    {
        SchedulerRunner { started: false, stop_requested: false }
    }

    /// Marks the loop started and says whether a worker must be spawned:
    /// only on the first call, so that starting is idempotent.
    pub fn start(&mut self) -> (spawn: bool)
        ensures
            final(self).started,
            final(self).stop_requested == old(self).stop_requested,
            spawn == !old(self).started,
    {
        let spawn = !self.started;
        self.started = true;
        spawn
    }

    /// Requests cooperative termination: the loop observes the flag at the
    /// top of its next iteration; an in-flight tick completes.
    pub fn stop(&mut self)
        ensures
            final(self).started == old(self).started,
            final(self).stop_requested,
    {
        self.stop_requested = true;
    }

    /// True while the loop should keep ticking.
    pub fn should_run(&self) -> (r: bool)
        ensures
            r == !self.stop_requested,
    {
        !self.stop_requested
    }
}

} // verus!
