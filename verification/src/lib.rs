//! A fixed-size worker pool, modelled as a verified state machine.
//!
//! A pool owns a FIFO queue of jobs and a fixed set of workers. Callers
//! submit units of work; each job is claimed by exactly one worker, in
//! submission order. Teardown places one `Terminate` sentinel per worker
//! on the queue and runs the queue dry, so that every job submitted
//! before teardown is claimed and every worker has stopped by the time
//! teardown returns.
//!
//! The pool's protocol lives here and is verified; an embedder supplies
//! the execution environment (threads, a shared channel) and drives the
//! protocol by performing each `WorkerAction` it is handed.

pub mod job;
pub mod pool;
pub mod worker;
