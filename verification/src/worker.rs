//! Workers: the state a worker can be in, and the dispatch decision a
//! worker makes for each job it claims.

use vstd::prelude::*;
use crate::job::Job;

verus! {

/// The lifecycle state of one worker.
///
/// A worker is `Idle` while it is blocked on the queue, `Busy` while it
/// is running a claimed unit of work, and `Stopped` once it has claimed
/// a `Terminate` sentinel. `Failed` is the terminal event of a unit of
/// work that fails during invocation: the worker exits without resuming
/// its loop and without consuming a sentinel. Neither a stopped nor a
/// failed worker ever runs again.
#[derive(Clone, Copy, PartialEq, Eq, Structural, Debug)]
pub enum WorkerState {
    Idle,
    Busy,
    Stopped,
    Failed,
}

/// What a worker does with one claimed job: run the enclosed unit of
/// work exactly once, or stop its loop.
pub enum WorkerAction<W> {
    Run(W),
    Stop,
}

/// The dispatch decision of a worker's loop: a `Task` job is run (its
/// work is handed out exactly once, and the worker keeps looping), a
/// `Terminate` job stops the worker without running anything.
pub fn dispatch<W>(j: Job<W>) -> (a: WorkerAction<W>)
    ensures
        (j matches Job::Task(w) ==> a == WorkerAction::Run(w)),
        j is Terminate ==> a is Stop,
{
    match j {
        Job::Task(w) => WorkerAction::Run(w),
        Job::Terminate => WorkerAction::Stop,
    }
}

} // verus!
