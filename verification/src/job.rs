//! Jobs: a unit of work for the pool, or the sentinel that stops a worker.

use vstd::prelude::*;

verus! {

/// One item on the pool's queue: either a unit of work of type `W`,
/// owned by whichever worker claims it, or the `Terminate` sentinel,
/// whose sole effect is to stop the worker that claims it.
pub enum Job<W> {
    Task(W),
    Terminate,
}

impl<W> Job<W> {
    /// Wraps a unit of work as a `Task` job. Only the pool's teardown
    /// produces `Terminate` jobs; submission always goes through here.
    pub fn new(work: W) -> (j: Job<W>)
        ensures
            j == Job::Task(work),
    {
        Job::Task(work)
    }
}

} // verus!
