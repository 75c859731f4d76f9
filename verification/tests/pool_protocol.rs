use worker_pool::job::Job;
use worker_pool::pool::{run_nested_pool, Pool};
use worker_pool::worker::{dispatch, WorkerAction, WorkerState};

#[test]
fn fifo_one_worker_abc() {
    // One worker; submit A, B, C in that order; the works are claimed
    // (and so run) in exactly that order, and teardown stops the worker.
    let mut pool: Pool<String> = Pool::new(1);
    pool.submit(String::from("A")).unwrap();
    pool.submit(String::from("B")).unwrap();
    pool.submit(String::from("C")).unwrap();
    let log = pool.shutdown().unwrap();
    assert_eq!(log, vec!["A".to_string(), "B".to_string(), "C".to_string()]);
    assert!(pool.all_stopped());
    assert_eq!(pool.pending_jobs(), 0);
}

#[test]
fn fifo_order_with_manual_steps() {
    // Driving the worker loop by hand claims jobs in submission order.
    let mut pool: Pool<u64> = Pool::new(1);
    pool.submit(10).unwrap();
    pool.submit(20).unwrap();
    pool.submit(30).unwrap();
    pool.begin_teardown().unwrap();
    let mut log: Vec<u64> = Vec::new();
    while pool.pending_jobs() > 0 {
        match pool.step(0) {
            WorkerAction::Run(work) => {
                log.push(work);
                pool.finish(0);
            }
            WorkerAction::Stop => {}
        }
    }
    assert_eq!(log, vec![10, 20, 30]);
    assert!(pool.all_stopped());
}

#[test]
fn all_jobs_run_exactly_once_many_workers() {
    // Every submitted job is claimed exactly once before teardown
    // completes, whatever the worker count.
    let mut pool: Pool<u64> = Pool::new(3);
    for i in 0..50u64 {
        pool.submit(i).unwrap();
    }
    let ran = pool.shutdown().unwrap();
    let expected: Vec<u64> = (0..50).collect();
    assert_eq!(ran, expected);
    assert!(pool.all_stopped());
}

#[test]
fn teardown_blocks_until_all_workers_exit() {
    // After shutdown returns, every one of the N workers has stopped.
    let mut pool: Pool<u64> = Pool::new(4);
    pool.submit(1).unwrap();
    pool.shutdown().unwrap();
    assert_eq!(pool.num_workers(), 4);
    assert!(pool.all_stopped());
    for w in 0..4 {
        assert!(matches!(pool.worker_state(w), WorkerState::Stopped));
    }
}

#[test]
fn teardown_without_jobs_stops_all_workers() {
    // Tearing down a fresh pool of N workers sends exactly N sentinels,
    // each consumed by exactly one worker; a repeated teardown is a
    // defined error, never a hang.
    let mut pool: Pool<u64> = Pool::new(5);
    let ran = pool.shutdown().unwrap();
    assert!(ran.is_empty());
    assert_eq!(pool.num_workers(), 5);
    assert_eq!(pool.pending_jobs(), 0);
    assert!(pool.all_stopped());
    assert!(pool.shutdown().is_err());
    assert!(pool.all_stopped());
}

#[test]
fn nested_pool_outer_worker_stays_busy() {
    // A job may construct and fully use a nested pool of its own; the
    // nested pool completes before the outer job finishes, and the
    // outer worker stays busy the whole time.
    let mut outer: Pool<u64> = Pool::new(1);
    outer.submit(7).unwrap();
    outer.begin_teardown().unwrap();
    match outer.step(0) {
        WorkerAction::Run(work) => {
            assert_eq!(work, 7);
            assert!(matches!(outer.worker_state(0), WorkerState::Busy));
            let mut nested: Pool<u64> = Pool::new(3);
            for j in 0..6u64 {
                nested.submit(100 + j).unwrap();
            }
            assert!(matches!(outer.worker_state(0), WorkerState::Busy));
            let sub = nested.shutdown().unwrap();
            assert_eq!(sub, vec![100, 101, 102, 103, 104, 105]);
            assert!(nested.all_stopped());
            // The nested pool is fully torn down while the outer worker
            // is still running this job.
            assert!(matches!(outer.worker_state(0), WorkerState::Busy));
            outer.finish(0);
        }
        WorkerAction::Stop => panic!("the submitted job must come before the sentinel"),
    }
    match outer.step(0) {
        WorkerAction::Stop => {}
        WorkerAction::Run(_) => panic!("only the sentinel is left"),
    }
    assert!(outer.all_stopped());
}

#[test]
fn thousand_jobs_with_nested_pools() {
    // 1000 outer jobs on 4 workers; every even-indexed job fans out to
    // a nested pool of 2 with 2 sub-jobs. All 1000 outer jobs and all
    // 500 x 2 = 1000 sub-jobs complete exactly once before the outer
    // teardown returns.
    let mut outer: Pool<u64> = Pool::new(4);
    for i in 0..1000u64 {
        outer.submit(i).unwrap();
    }
    outer.begin_teardown().unwrap();
    let mut outer_ran: Vec<u64> = Vec::new();
    let mut sub_ran: u64 = 0;
    let mut fallback: u64 = 0;
    let mut w = 0;
    while outer.pending_jobs() > 0 {
        match outer.step(w) {
            WorkerAction::Run(i) => {
                if i % 2 == 0 {
                    let mut nested: Pool<u64> = Pool::new(2);
                    for j in 0..2u64 {
                        nested.submit(i * 10 + j).unwrap();
                    }
                    let sub = nested.shutdown().unwrap();
                    assert_eq!(sub, vec![i * 10, i * 10 + 1]);
                    sub_ran += sub.len() as u64;
                } else {
                    fallback += 1;
                }
                outer_ran.push(i);
                outer.finish(w);
            }
            WorkerAction::Stop => {
                w += 1;
            }
        }
    }
    let expected: Vec<u64> = (0..1000).collect();
    assert_eq!(outer_ran, expected);
    assert_eq!(sub_ran, 1000);
    assert_eq!(fallback, 500);
    assert!(outer.all_stopped());
}

#[test]
fn run_nested_pool_returns_sub_works_in_order() {
    // The verified nested-use path: while the outer worker is busy, a
    // nested pool runs all sub-works to completion, in order, and the
    // outer pool is untouched.
    let mut outer: Pool<u64> = Pool::new(2);
    outer.submit(1).unwrap();
    outer.begin_teardown().unwrap();
    match outer.step(0) {
        WorkerAction::Run(work) => {
            assert_eq!(work, 1);
            let ran = run_nested_pool(&outer, 0, 2, vec![4, 5, 6]);
            assert_eq!(ran, vec![4, 5, 6]);
            assert!(matches!(outer.worker_state(0), WorkerState::Busy));
            outer.finish(0);
        }
        WorkerAction::Stop => panic!("the job comes before the sentinels"),
    }
    let rest = outer.drain();
    assert!(rest.is_empty());
    assert!(outer.all_stopped());
}

#[test]
fn dispatch_runs_task_and_stops_on_terminate() {
    // A worker's dispatch decision: a task hands its work out, the
    // sentinel stops the loop.
    match dispatch(Job::new(42u64)) {
        WorkerAction::Run(work) => assert_eq!(work, 42),
        WorkerAction::Stop => panic!("a task is run, not stopped on"),
    }
    match dispatch(Job::<u64>::Terminate) {
        WorkerAction::Stop => {}
        WorkerAction::Run(_) => panic!("the sentinel runs nothing"),
    }
}
