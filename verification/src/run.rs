//! The bookkeeping of one invocation: how a run starts, and the progress
//! counters the scheduler keeps while completions stream in.

use vstd::prelude::*;

verus! {

/// What an invocation does: print the usage line and stop, or synchronize
/// into the given target directory.
pub enum RunMode {
    Usage,
    Sync(String),
}

/// Decides what an invocation does: without a target-directory argument it
/// only prints usage — no run, no filesystem mutation; with one it
/// synchronizes into that directory.
pub fn plan_invocation(target_arg: Option<String>) -> (mode: RunMode)
    ensures
        target_arg is None ==> mode is Usage,
        target_arg matches Some(dir) ==> mode == RunMode::Sync(dir),
{
    match target_arg {
        None => RunMode::Usage,
        Some(dir) => RunMode::Sync(dir),
    }
}

/// The scheduler's counters: the total task count, fixed once discovery
/// completes, and the number of completed tasks, which only ever grows and
/// never passes the total.
pub struct Progress {
    pub total: u64,
    pub completed: u64,
}

impl Progress {
    /// Starts counting a run of `total` tasks, none completed yet.
    pub fn new(total: u64) -> (p: Self)
        ensures
            p.total == total,
            p.completed == 0,
    {
        Progress { total, completed: 0 }
    }

    /// Records one task completion, whatever its outcome was.
    pub fn record(&mut self)
        requires
            old(self).completed < old(self).total,
        ensures
            final(self).total == old(self).total,
            final(self).completed == old(self).completed + 1,
    {
        self.completed = self.completed + 1;
    }
}

} // verus!
