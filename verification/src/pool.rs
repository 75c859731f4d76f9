//! The pool: owner of the job queue and of a fixed set of workers.
//!
//! `Pool` is the protocol state of the worker pool: the FIFO queue of
//! pending jobs, the state of each worker, and whether teardown has
//! begun. Its methods are the protocol's transitions; an embedder (or a
//! test) drives them and performs the actions they hand back. Two ghost
//! logs — the works submitted and the works claimed, each in order —
//! tie the contracts to the pool's history: claiming is FIFO, and once
//! the queue is dry every submitted work has been claimed exactly once.

use vstd::prelude::*;
use std::collections::VecDeque;
use crate::job::Job;
use crate::worker::{WorkerAction, WorkerState};

verus! {

/// The works enclosed in the `Task` jobs of `s`, in queue order.
pub open spec fn task_works<W>(s: Seq<Job<W>>) -> Seq<W>
    decreases s.len(),
{
    if s.len() == 0 {
        Seq::empty()
    } else {
        match s[0] {
            Job::Task(w) => seq![w] + task_works(s.drop_first()),
            Job::Terminate => task_works(s.drop_first()),
        }
    }
}

/// How many `Terminate` sentinels `s` holds.
pub open spec fn terminate_count<W>(s: Seq<Job<W>>) -> int
    decreases s.len(),
{
    if s.len() == 0 {
        0
    } else {
        (if s[0] is Terminate { 1int } else { 0int }) + terminate_count(s.drop_first())
    }
}

/// How many workers in `ws` have stopped.
pub open spec fn stopped_count(ws: Seq<WorkerState>) -> int
    decreases ws.len(),
{
    if ws.len() == 0 {
        0
    } else {
        (if ws[0] is Stopped { 1int } else { 0int }) + stopped_count(ws.drop_first())
    }
}

/// No `Task` job stands behind a `Terminate` sentinel: the sentinels,
/// if any, form the tail of the queue.
pub open spec fn sentinels_last<W>(s: Seq<Job<W>>) -> bool {
    forall|i: int, j: int| 0 <= i < j < s.len() && s[i] is Terminate ==> s[j] is Terminate
}

/// Appending a job changes the sentinel count and the enclosed works in
/// the evident way.
proof fn lemma_jobs_push<W>(s: Seq<Job<W>>, j: Job<W>)
    ensures
        terminate_count(s.push(j)) == terminate_count(s) + (if j is Terminate { 1int } else { 0int }),
        (j matches Job::Task(w) ==> task_works(s.push(j)) == task_works(s).push(w)),
        j is Terminate ==> task_works(s.push(j)) == task_works(s),
    decreases s.len(),
{
    assert(s.push(j)[s.len() as int] == j);
    if s.len() == 0 {
        reveal_with_fuel(task_works, 2);
        reveal_with_fuel(terminate_count, 2);
        assert(s.push(j)[0] == j);
        assert(s.push(j).drop_first() =~= Seq::<Job<W>>::empty());
        match j {
            Job::Task(w) => {
                assert(task_works(s.push(j)) =~= task_works(s).push(w));
            },
            Job::Terminate => {
                assert(task_works(s.push(j)) =~= task_works(s));
            },
        }
    } else {
        assert(s.push(j)[0] == s[0]);
        assert(s.push(j).drop_first() =~= s.drop_first().push(j));
        lemma_jobs_push(s.drop_first(), j);
        if let Job::Task(w) = j {
            assert(task_works(s.push(j)) =~= task_works(s).push(w));
        }
    }
}

/// A queue without sentinels holds no `Terminate` job anywhere.
proof fn lemma_no_terminates<W>(s: Seq<Job<W>>)
    requires
        terminate_count(s) == 0,
        sentinels_last(s),
    ensures
        forall|i: int| 0 <= i < s.len() ==> !(s[i] is Terminate),
    decreases s.len(),
{
    if s.len() > 0 {
        lemma_terminate_count_bounds(s.drop_first());
        assert(!(s[0] is Terminate));
        assert(forall|i: int, j: int|
            0 <= i < j < s.drop_first().len() && s.drop_first()[i] is Terminate
                ==> s.drop_first()[j] is Terminate) by {
            assert(forall|i: int| 0 <= i < s.drop_first().len() ==> s.drop_first()[i] == s[i + 1]);
        }
        lemma_no_terminates(s.drop_first());
        assert(forall|i: int| 1 <= i < s.len() ==> s[i] == s.drop_first()[i - 1]);
    }
}

/// The sentinel count never exceeds the queue's length.
proof fn lemma_terminate_count_bounds<W>(s: Seq<Job<W>>)
    ensures
        0 <= terminate_count(s) <= s.len(),
    decreases s.len(),
{
    if s.len() > 0 {
        lemma_terminate_count_bounds(s.drop_first());
    }
}

/// The stopped count never exceeds the number of workers.
proof fn lemma_stopped_count_bounds(ws: Seq<WorkerState>)
    ensures
        0 <= stopped_count(ws) <= ws.len(),
    decreases ws.len(),
{
    if ws.len() > 0 {
        lemma_stopped_count_bounds(ws.drop_first());
    }
}

/// A queue of sentinels only encloses no work, and counts one sentinel
/// per item.
proof fn lemma_all_terminates<W>(s: Seq<Job<W>>)
    requires
        forall|i: int| 0 <= i < s.len() ==> s[i] is Terminate,
    ensures
        task_works(s) == Seq::<W>::empty(),
        terminate_count(s) == s.len(),
    decreases s.len(),
{
    if s.len() > 0 {
        assert(forall|i: int| 0 <= i < s.drop_first().len() ==> s.drop_first()[i] == s[i + 1]);
        lemma_all_terminates(s.drop_first());
    }
}

/// A set of workers none of which has stopped counts zero stopped.
proof fn lemma_none_stopped(ws: Seq<WorkerState>)
    requires
        forall|i: int| 0 <= i < ws.len() ==> !(ws[i] is Stopped),
    ensures
        stopped_count(ws) == 0,
    decreases ws.len(),
{
    if ws.len() > 0 {
        assert(forall|i: int| 0 <= i < ws.drop_first().len() ==> ws.drop_first()[i] == ws[i + 1]);
        lemma_none_stopped(ws.drop_first());
    }
}

/// Changing one worker's state changes the stopped count by the
/// difference the change makes at that position.
proof fn lemma_stopped_count_update(ws: Seq<WorkerState>, i: int, v: WorkerState)
    requires
        0 <= i < ws.len(),
    ensures
        stopped_count(ws.update(i, v)) == stopped_count(ws)
            - (if ws[i] is Stopped { 1int } else { 0int })
            + (if v is Stopped { 1int } else { 0int }),
    decreases ws.len(),
{
    if i == 0 {
        assert(ws.update(0, v).drop_first() =~= ws.drop_first());
    } else {
        assert(ws.update(i, v).drop_first() =~= ws.drop_first().update(i - 1, v));
        lemma_stopped_count_update(ws.drop_first(), i - 1, v);
    }
}

/// The one error the pool reports: the operation arrived after teardown
/// had already begun. It signals misuse by the caller and is fatal to
/// the submission, never silently swallowed.
#[derive(Clone, Copy, PartialEq, Eq, Debug)]
pub enum PoolError {
    ShutDown,
}

/// The protocol state of a fixed-size worker pool over works of type `W`.
pub struct Pool<W> {
    queue: VecDeque<Job<W>>,
    workers: Vec<WorkerState>,
    down: bool,
    submitted: Ghost<Seq<W>>,
    claimed: Ghost<Seq<W>>,
}

impl<W> Pool<W> {
    /// The jobs pending on the queue, front first.
    pub closed spec fn queued(self) -> Seq<Job<W>> {
        self.queue@
    }

    /// The state of each worker, by ordinal id.
    pub closed spec fn workers(self) -> Seq<WorkerState> {
        self.workers@
    }

    /// Whether teardown has begun.
    pub closed spec fn is_down(self) -> bool {
        self.down
    }

    /// Every work accepted by `submit`, in submission order.
    pub closed spec fn submitted(self) -> Seq<W> {
        self.submitted@
    }

    /// Every work handed to a worker, in claim order.
    pub closed spec fn claimed(self) -> Seq<W> {
        self.claimed@
    }

    /// The pool's invariant.
    ///
    /// The claimed works followed by the works still queued are exactly
    /// the submitted works, in order; one `Terminate` sentinel per
    /// worker is sent at teardown and each stopped worker has consumed
    /// exactly one of them; sentinels form the queue's tail; and once
    /// the last sentinel is consumed the queue is empty.
    pub closed spec fn wf(self) -> bool {
        &&& self.claimed@ + task_works(self.queue@) == self.submitted@
        &&& terminate_count(self.queue@) + stopped_count(self.workers@)
            == if self.down { self.workers@.len() as int } else { 0int }
        &&& sentinels_last(self.queue@)
        &&& self.down && terminate_count(self.queue@) == 0 ==> self.queue@.len() == 0
        &&& self.workers@.len() >= 1
    }

    /// Constructs a pool of `requested` workers, all idle, with an
    /// empty queue. A request for zero workers is clamped to one — a
    /// pool without workers could never drain its queue — so the pool
    /// always holds at least one worker.
    pub fn new(requested: usize) -> (p: Pool<W>)
        ensures
            p.wf(),
            p.workers().len() == if requested >= 1 { requested as int } else { 1int },
            forall|i: int| 0 <= i < p.workers().len() ==> p.workers()[i] is Idle,
            p.queued() == Seq::<Job<W>>::empty(),
            p.submitted() == Seq::<W>::empty(),
            p.claimed() == Seq::<W>::empty(),
            !p.is_down(),
    {
        let count: usize = if requested >= 1 { requested } else { 1 };
        let mut workers: Vec<WorkerState> = Vec::new();
        let mut i: usize = 0;
        while i < count
            invariant
                i <= count,
                workers@.len() == i,
                forall|k: int| 0 <= k < i ==> workers@[k] is Idle,
            decreases count - i,
        {
            workers.push(WorkerState::Idle);
            i = i + 1;
        }
        let p = Pool {
            queue: VecDeque::new(),
            workers,
            down: false,
            submitted: Ghost(Seq::empty()),
            claimed: Ghost(Seq::empty()),
        };
        proof {
            lemma_none_stopped(p.workers@);
            assert(p.claimed@ + task_works(p.queue@) =~= p.submitted@);
        }
        p
    }

    /// Enqueues `work` as a `Task` job at the back of the queue.
    ///
    /// Returns `Ok` and extends the queue exactly when teardown has not
    /// begun. After teardown the producer side is gone: the call
    /// returns `Err(PoolError::ShutDown)` and changes nothing.
    pub fn submit(&mut self, work: W) -> (r: Result<(), PoolError>)
        requires
            old(self).wf(),
        ensures
            final(self).wf(),
            old(self).is_down() ==> r == Err::<(), PoolError>(PoolError::ShutDown)
                && *final(self) == *old(self),
            !old(self).is_down() ==> r == Ok::<(), PoolError>(())
                && final(self).queued() == old(self).queued().push(Job::Task(work))
                && final(self).submitted() == old(self).submitted().push(work),
            final(self).claimed() == old(self).claimed(),
            final(self).workers() == old(self).workers(),
            final(self).is_down() == old(self).is_down(),
    {
        if self.down {
            return Err(PoolError::ShutDown);
        }
        proof {
            lemma_jobs_push(self.queue@, Job::Task(work));
            lemma_terminate_count_bounds(self.queue@);
            lemma_stopped_count_bounds(self.workers@);
            lemma_no_terminates(self.queue@);
        }
        self.queue.push_back(Job::Task(work));
        self.submitted = Ghost(self.submitted@.push(work));
        proof {
            let q0 = old(self).queue@;
            assert(self.claimed@ + task_works(q0).push(work) =~= self.claimed@ + task_works(q0)
                + seq![work]);
            assert(old(self).submitted@.push(work) =~= old(self).submitted@ + seq![work]);
            assert(sentinels_last(self.queue@)) by {
                assert(forall|i: int| 0 <= i < q0.len() ==> self.queue@[i] == q0[i]);
                assert(!(self.queue@[q0.len() as int] is Terminate));
            }
        }
        Ok(())
    }

    /// Begins teardown: sends exactly one `Terminate` sentinel per
    /// worker, at the back of the queue, and closes the producer side.
    ///
    /// Jobs still queued stand before the sentinels, so they are all
    /// claimed before any worker stops. Returns `Ok` exactly when
    /// teardown had not begun yet; a repeated call is a defined error,
    /// `Err(PoolError::ShutDown)`, and changes nothing.
    pub fn begin_teardown(&mut self) -> (r: Result<(), PoolError>)
        requires
            old(self).wf(),
        ensures
            final(self).wf(),
            old(self).is_down() ==> r == Err::<(), PoolError>(PoolError::ShutDown)
                && *final(self) == *old(self),
            !old(self).is_down() ==> r == Ok::<(), PoolError>(())
                && final(self).is_down()
                && final(self).queued() == old(self).queued()
                    + Seq::new(old(self).workers().len(), |i: int| Job::<W>::Terminate)
                && task_works(final(self).queued()) == task_works(old(self).queued()),
            final(self).submitted() == old(self).submitted(),
            final(self).claimed() == old(self).claimed(),
            final(self).workers() == old(self).workers(),
    {
        if self.down {
            return Err(PoolError::ShutDown);
        }
        proof {
            lemma_terminate_count_bounds(self.queue@);
            lemma_stopped_count_bounds(self.workers@);
        }
        let count: usize = self.workers.len();
        let mut i: usize = 0;
        while i < count
            invariant
                i <= count,
                count == self.workers@.len(),
                self.queue@ == old(self).queue@ + Seq::new(i as nat, |k: int| Job::<W>::Terminate),
                task_works(self.queue@) == task_works(old(self).queue@),
                terminate_count(self.queue@) == i as int,
                sentinels_last(self.queue@),
                self.workers@ == old(self).workers@,
                self.down == false,
                self.submitted@ == old(self).submitted@,
                self.claimed@ == old(self).claimed@,
            decreases count - i,
        {
            proof {
                lemma_jobs_push(self.queue@, Job::<W>::Terminate);
            }
            let ghost q0 = self.queue@;
            self.queue.push_back(Job::Terminate);
            i = i + 1;
            proof {
                assert(self.queue@ =~= old(self).queue@
                    + Seq::new(i as nat, |k: int| Job::<W>::Terminate));
                assert(sentinels_last(self.queue@)) by {
                    assert(forall|k: int| 0 <= k < q0.len() ==> self.queue@[k] == q0[k]);
                    assert(self.queue@[q0.len() as int] is Terminate);
                }
            }
        }
        self.down = true;
        proof {
            assert(self.claimed@ + task_works(self.queue@) == self.submitted@);
        }
        Ok(())
    }

    /// One turn of a worker's loop: worker `worker`, which must be
    /// idle, claims the job at the front of the queue.
    ///
    /// A `Task` job hands its work out — exactly once, to this worker
    /// alone, in FIFO order — and the worker is busy until `finish` or
    /// `fail` is called for it. A `Terminate` sentinel stops the worker
    /// for good and hands nothing out.
    pub fn step(&mut self, worker: usize) -> (a: WorkerAction<W>)
        requires
            old(self).wf(),
            worker < old(self).workers().len(),
            old(self).workers()[worker as int] is Idle,
            old(self).queued().len() > 0,
        ensures
            final(self).wf(),
            final(self).queued() == old(self).queued().drop_first(),
            old(self).queued()[0] matches Job::Task(w) ==> a == WorkerAction::Run(w)
                && final(self).claimed() == old(self).claimed().push(w)
                && final(self).workers()
                    == old(self).workers().update(worker as int, WorkerState::Busy),
            old(self).queued()[0] is Terminate ==> a is Stop
                && final(self).claimed() == old(self).claimed()
                && final(self).workers()
                    == old(self).workers().update(worker as int, WorkerState::Stopped),
            stopped_count(final(self).workers()) == stopped_count(old(self).workers())
                + (if old(self).queued()[0] is Terminate { 1int } else { 0int }),
            final(self).submitted() == old(self).submitted(),
            final(self).is_down() == old(self).is_down(),
    {
        let job = match self.queue.pop_front() {
            Some(j) => j,
            None => unreached(),
        };
        proof {
            assert(old(self).queue@.drop_first() =~= self.queue@);
        }
        match job {
            Job::Task(w) => {
                self.workers[worker] = WorkerState::Busy;
                self.claimed = Ghost(self.claimed@.push(w));
                proof {
                    lemma_stopped_count_update(
                        old(self).workers@,
                        worker as int,
                        WorkerState::Busy,
                    );
                    assert(self.claimed@ + task_works(self.queue@) =~= old(self).claimed@
                        + task_works(old(self).queue@));
                    self.lemma_step_tail(*old(self));
                }
                WorkerAction::Run(w)
            },
            Job::Terminate => {
                self.workers[worker] = WorkerState::Stopped;
                proof {
                    lemma_stopped_count_update(
                        old(self).workers@,
                        worker as int,
                        WorkerState::Stopped,
                    );
                    self.lemma_step_tail(*old(self));
                }
                WorkerAction::Stop
            },
        }
    }

    /// The queue-side parts of the invariant survive popping the front
    /// job: the sentinels still form the tail, and once no sentinel is
    /// left after teardown the queue is empty.
    proof fn lemma_step_tail(self, prev: Pool<W>)
        requires
            prev.wf(),
            prev.queue@.len() > 0,
            self.queue@ == prev.queue@.drop_first(),
            self.down == prev.down,
        ensures
            sentinels_last(self.queue@),
            self.down && terminate_count(self.queue@) == 0 ==> self.queue@.len() == 0,
    {
        let q = prev.queue@;
        assert(forall|k: int| 0 <= k < self.queue@.len() ==> self.queue@[k] == q[k + 1]);
        if q[0] is Terminate {
            assert(forall|k: int| 0 <= k < q.len() ==> q[k] is Terminate);
            assert(forall|k: int| 0 <= k < self.queue@.len() ==> self.queue@[k] is Terminate);
            lemma_all_terminates(self.queue@);
        }
        if self.down && terminate_count(self.queue@) == 0 {
            if q[0] is Task {
                assert(terminate_count(q) == terminate_count(self.queue@));
                assert(q.len() == 0);
            }
        }
    }

    /// Marks worker `worker`, which must be busy, idle again: its unit
    /// of work has run to completion and the worker goes back to
    /// blocking on the queue.
    pub fn finish(&mut self, worker: usize)
        requires
            old(self).wf(),
            worker < old(self).workers().len(),
            old(self).workers()[worker as int] is Busy,
        ensures
            final(self).wf(),
            final(self).workers()
                == old(self).workers().update(worker as int, WorkerState::Idle),
            final(self).queued() == old(self).queued(),
            final(self).submitted() == old(self).submitted(),
            final(self).claimed() == old(self).claimed(),
            final(self).is_down() == old(self).is_down(),
    {
        self.workers[worker] = WorkerState::Idle;
        proof {
            lemma_stopped_count_update(old(self).workers@, worker as int, WorkerState::Idle);
        }
    }

    /// Records worker `worker`'s terminal event: its unit of work
    /// failed during invocation.
    ///
    /// The failure is not caught or retried — the worker exits without
    /// resuming its loop, consumes no sentinel, and is never restarted.
    /// The pool does not detect the death: it still sends one sentinel
    /// per worker at teardown, so the dead worker's sentinel is never
    /// consumed, and the pool's effective capacity shrinks by one for
    /// good.
    pub fn fail(&mut self, worker: usize)
        requires
            old(self).wf(),
            worker < old(self).workers().len(),
            old(self).workers()[worker as int] is Busy,
        ensures
            final(self).wf(),
            final(self).workers()
                == old(self).workers().update(worker as int, WorkerState::Failed),
            final(self).queued() == old(self).queued(),
            final(self).submitted() == old(self).submitted(),
            final(self).claimed() == old(self).claimed(),
            final(self).is_down() == old(self).is_down(),
    {
        self.workers[worker] = WorkerState::Failed;
        proof {
            lemma_stopped_count_update(old(self).workers@, worker as int, WorkerState::Failed);
        }
    }

    /// How many workers the pool owns. Fixed for the pool's lifetime.
    pub fn num_workers(&self) -> (n: usize)
        ensures
            n == self.workers().len(),
    {
        self.workers.len()
    }

    /// How many jobs — works and sentinels — are pending on the queue.
    pub fn pending_jobs(&self) -> (n: usize)
        ensures
            n == self.queued().len(),
    {
        self.queue.len()
    }

    /// Whether teardown has begun.
    pub fn is_shut_down(&self) -> (d: bool)
        ensures
            d == self.is_down(),
    {
        self.down
    }

    /// The state of worker `worker`.
    pub fn worker_state(&self, worker: usize) -> (s: WorkerState)
        requires
            worker < self.workers().len(),
        ensures
            s == self.workers()[worker as int],
    {
        self.workers[worker]
    }

    /// Whether every worker of the pool has stopped.
    pub fn all_stopped(&self) -> (r: bool)
        ensures
            r == (forall|i: int| 0 <= i < self.workers().len() ==> self.workers()[i] is Stopped),
    {
        let count: usize = self.workers.len();
        let mut i: usize = 0;
        while i < count
            invariant
                i <= count,
                count == self.workers@.len(),
                forall|k: int| 0 <= k < i ==> self.workers@[k] is Stopped,
            decreases count - i,
        {
            match self.workers[i] {
                WorkerState::Stopped => {},
                _ => {
                    return false;
                },
            }
            i = i + 1;
        }
        true
    }

    /// Runs the queue dry after teardown has begun: every job still
    /// queued is claimed, in FIFO order, until every worker has
    /// consumed its sentinel and stopped.
    ///
    /// The works claimed on the way are returned in claim order — they
    /// are the works of every `Task` job that was still pending, each
    /// exactly once — and each is treated as run to completion before
    /// the next job is claimed. When `drain` returns, the queue is
    /// empty, all workers have stopped, and every submitted work has
    /// been claimed exactly once, in submission order.
    pub fn drain(&mut self) -> (ran: Vec<W>)
        requires
            old(self).wf(),
            old(self).is_down(),
            forall|i: int| 0 <= i < old(self).workers().len()
                ==> old(self).workers()[i] is Idle,
        ensures
            final(self).wf(),
            ran@ == task_works(old(self).queued()),
            final(self).queued().len() == 0,
            forall|i: int| 0 <= i < final(self).workers().len()
                ==> final(self).workers()[i] is Stopped,
            final(self).workers().len() == old(self).workers().len(),
            final(self).submitted() == old(self).submitted(),
            final(self).claimed() == old(self).claimed() + task_works(old(self).queued()),
            final(self).claimed() == final(self).submitted(),
            final(self).is_down(),
    {
        proof {
            lemma_none_stopped(self.workers@);
        }
        let mut ran: Vec<W> = Vec::new();
        let mut w: usize = 0;
        let count: usize = self.workers.len();
        while self.pending_jobs() > 0
            invariant
                self.wf(),
                self.is_down(),
                count == self.workers().len(),
                self.workers().len() == old(self).workers().len(),
                w as int == stopped_count(self.workers()),
                w <= self.workers().len(),
                forall|i: int| 0 <= i < w ==> self.workers()[i] is Stopped,
                forall|i: int| w <= i < self.workers().len() ==> self.workers()[i] is Idle,
                self.submitted() == old(self).submitted(),
                self.claimed() == old(self).claimed() + ran@,
                task_works(old(self).queued()) == ran@ + task_works(self.queued()),
            decreases self.queued().len(),
        {
            proof {
                lemma_terminate_count_bounds(self.queue@);
                if terminate_count(self.queue@) == 0 {
                    assert(self.queue@.len() == 0);
                }
                lemma_stopped_count_bounds(self.workers@);
            }
            let ghost q = self.queued();
            let ghost before = *self;
            match self.step(w) {
                WorkerAction::Run(work) => {
                    ran.push(work);
                    let ghost mid = *self;
                    self.finish(w);
                    proof {
                        lemma_stopped_count_update(mid.workers(), w as int, WorkerState::Idle);
                        assert(q[0] is Task);
                        assert(self.claimed() =~= old(self).claimed() + ran@);
                        assert(task_works(q) == seq![work] + task_works(q.drop_first()));
                        assert(task_works(old(self).queued()) =~= ran@
                            + task_works(self.queued()));
                    }
                },
                WorkerAction::Stop => {
                    w = w + 1;
                    proof {
                        assert(task_works(q) == task_works(q.drop_first()));
                        assert(forall|i: int| 0 <= i < w - 1
                            ==> self.workers()[i] == before.workers()[i]);
                    }
                },
            }
        }
        proof {
            assert(task_works(self.queue@) == Seq::<W>::empty());
            assert(ran@ =~= ran@ + task_works(self.queued()));
            assert(self.claimed@ =~= self.claimed@ + task_works(self.queue@));
        }
        ran
    }

    /// Tears the pool down, blocking until every worker has stopped:
    /// sends one `Terminate` sentinel per worker, then runs the queue
    /// dry as `drain` does.
    ///
    /// Returns, in claim order, the works of the jobs that were still
    /// pending when teardown began — each claimed exactly once before
    /// the sentinel behind it, so after the call the queue is empty,
    /// all workers have stopped, and every submitted work has been
    /// claimed exactly once, in submission order. Tearing a pool down
    /// twice is a defined error, `Err(PoolError::ShutDown)`, never a
    /// hang.
    pub fn shutdown(&mut self) -> (r: Result<Vec<W>, PoolError>)
        requires
            old(self).wf(),
            !old(self).is_down() ==> forall|i: int|
                0 <= i < old(self).workers().len() ==> old(self).workers()[i] is Idle,
        ensures
            final(self).wf(),
            old(self).is_down() ==> r is Err && *final(self) == *old(self),
            !old(self).is_down() ==> (r matches Ok(ran)
                && ran@ == task_works(old(self).queued())
                && final(self).queued().len() == 0
                && (forall|i: int| 0 <= i < final(self).workers().len()
                    ==> final(self).workers()[i] is Stopped)
                && final(self).claimed() == final(self).submitted()
                && final(self).submitted() == old(self).submitted()
                && final(self).is_down()),
            final(self).workers().len() == old(self).workers().len(),
    {
        match self.begin_teardown() {
            Ok(()) => {},
            Err(e) => {
                return Err(e);
            },
        }
        let ran = self.drain();
        Ok(ran)
    }
}

/// Nested pool independence: a unit of work may construct and fully use
/// a pool of its own while an outer pool's worker is busy running it.
///
/// The nested pool's whole lifecycle happens here — construction,
/// submission of every one of `sub_works`, blocking teardown — so it
/// completes before the enclosing job can finish, and every sub-work is
/// claimed exactly once, in submission order. The outer pool is only
/// read: its worker stays busy, and nothing else about it can change.
/// Nesting costs the outer pool exactly that one worker for the
/// duration.
pub fn run_nested_pool<W, V>(
    outer: &Pool<W>,
    worker: usize,
    nested_workers: usize,
    sub_works: Vec<V>,
) -> (ran: Vec<V>)
    requires
        worker < outer.workers().len(),
        outer.workers()[worker as int] is Busy,
    ensures
        ran@ == sub_works@,
        outer.workers()[worker as int] is Busy,
{
    let ghost all = sub_works@;
    let mut rest = sub_works;
    let mut nested: Pool<V> = Pool::new(nested_workers);
    while rest.len() > 0
        invariant
            nested.wf(),
            !nested.is_down(),
            nested.claimed() == Seq::<V>::empty(),
            forall|i: int| 0 <= i < nested.workers().len() ==> nested.workers()[i] is Idle,
            nested.submitted() + rest@ == all,
        decreases rest@.len(),
    {
        let ghost submitted_before = nested.submitted();
        let work = rest.remove(0);
        let r = nested.submit(work);
        proof {
            assert(r is Ok);
            assert(submitted_before.push(work) + rest@ =~= all);
        }
    }
    let ghost queued_before = nested.queued();
    let got = match nested.shutdown() {
        Ok(ran) => ran,
        Err(_) => unreached(),
    };
    proof {
        assert(Seq::<V>::empty() + task_works(queued_before) =~= task_works(queued_before));
    }
    got
}

/// FIFO claiming: in a well-formed pool the works claimed so far are
/// exactly the first claimed-many submitted works, in submission
/// order — a worker never claims a work ahead of one submitted earlier.
pub proof fn lemma_fifo<W>(p: Pool<W>)
    requires
        p.wf(),
    ensures
        p.claimed() == p.submitted().take(p.claimed().len() as int),
{
    assert(p.claimed() =~= (p.claimed() + task_works(p.queued())).take(p.claimed().len() as int));
}

/// Completeness: once a well-formed pool's queue is dry, every
/// submitted work has been claimed exactly once — the claim log equals
/// the submission log.
pub proof fn lemma_drained_all_claimed<W>(p: Pool<W>)
    requires
        p.wf(),
        p.queued().len() == 0,
    ensures
        p.claimed() == p.submitted(),
{
    assert(p.claimed() =~= p.claimed() + task_works(p.queued()));
}

/// Sentinel accounting: once a torn-down, well-formed pool's queue is
/// dry, every one of its workers has stopped — each of the pool's
/// worker-many sentinels was consumed by exactly one worker.
pub proof fn lemma_drained_down_all_stopped<W>(p: Pool<W>)
    requires
        p.wf(),
        p.is_down(),
        p.queued().len() == 0,
    ensures
        stopped_count(p.workers()) == p.workers().len(),
        forall|i: int| 0 <= i < p.workers().len() ==> p.workers()[i] is Stopped,
{
    lemma_stopped_full(p.workers());
}

/// A worker set whose stopped count is its length is stopped
/// throughout.
proof fn lemma_stopped_full(ws: Seq<WorkerState>)
    requires
        stopped_count(ws) == ws.len(),
    ensures
        forall|i: int| 0 <= i < ws.len() ==> ws[i] is Stopped,
    decreases ws.len(),
{
    if ws.len() > 0 {
        lemma_stopped_count_bounds(ws.drop_first());
        assert(ws[0] is Stopped);
        lemma_stopped_full(ws.drop_first());
        assert(forall|i: int| 1 <= i < ws.len() ==> ws[i] == ws.drop_first()[i - 1]);
    }
}

} // verus!
