use kata_threadpool::pool::{get_task, Pool, PoolError, RecvError, Teardown, WorkerState};
use std::sync::atomic::{AtomicUsize, Ordering};
use std::sync::Arc;

type Task = Box<dyn FnOnce() + Send + 'static>;

fn counting_task(counter: &Arc<AtomicUsize>) -> Task {
    let counter = Arc::clone(counter);
    Box::new(move || {
        counter.fetch_add(1, Ordering::SeqCst);
    })
}

/// Lets every waiting worker take and run one task, as the worker threads
/// would; returns how many tasks ran.
fn one_round(pool: &mut Pool<Task>) -> usize {
    let mut ran = 0;
    for w in 0..pool.thread_count() {
        if pool.worker_state(w) == WorkerState::Waiting {
            match get_task(pool, w) {
                Ok(Some(task)) => {
                    task();
                    pool.finish_task(w);
                    ran += 1;
                }
                Ok(None) => {}
                Err(RecvError) => {}
            }
        }
    }
    ran
}

/// Runs the workers until every one of them has left its loop.
fn run_to_teardown(pool: &mut Pool<Task>) {
    let mut rounds = 0;
    while !pool.is_torn_down() {
        one_round(pool);
        rounds += 1;
        assert!(rounds < 100_000, "workers never left their loop");
    }
}

#[test]
fn zero_threads_is_refused() {
    assert_eq!(Pool::<Task>::with_thread_count(0).err(), Some(PoolError::InvalidThreadCount));
}

#[test]
fn n_threads_give_n_live_workers() {
    for n in 1..=16 {
        let pool = Pool::<Task>::with_thread_count(n).unwrap();
        assert_eq!(pool.thread_count(), n);
        assert_eq!(pool.live_workers(), n);
        assert_eq!(pool.handle_count(), 1);
        assert!(pool.is_open());
        assert_eq!(pool.queued(), 0);
        assert!(!pool.is_torn_down());
    }
}

#[test]
fn hundred_tasks_on_four_workers_run_once_each() {
    let counter = Arc::new(AtomicUsize::new(0));
    let mut pool = Pool::<Task>::with_thread_count(4).unwrap();
    for _ in 0..100 {
        pool.spawn(counting_task(&counter));
    }
    assert_eq!(pool.queued(), 100);
    // A few tasks run while the pool is still in use.
    assert_eq!(one_round(&mut pool), 4);
    assert_eq!(pool.discard(), Teardown::CloseThenJoin);
    assert!(!pool.is_open());
    run_to_teardown(&mut pool);
    assert_eq!(counter.load(Ordering::SeqCst), 100);
    assert_eq!(pool.queued(), 0);
    assert_eq!(pool.abnormal_exits(), 0);
    assert_eq!(pool.live_workers(), 0);
}

#[test]
fn ten_producers_fifty_tasks_each_count_five_hundred() {
    let counter = Arc::new(AtomicUsize::new(0));
    let mut pool = Pool::<Task>::with_thread_count(4).unwrap();
    for _ in 0..9 {
        pool.duplicate();
    }
    assert_eq!(pool.handle_count(), 10);
    // The ten producers take turns; the workers take tasks in between.
    for round in 0..50 {
        for _producer in 0..10 {
            pool.spawn(counting_task(&counter));
        }
        if round % 3 == 0 {
            one_round(&mut pool);
        }
    }
    for _ in 0..9 {
        assert_eq!(pool.discard(), Teardown::Keep);
    }
    assert_eq!(pool.discard(), Teardown::CloseThenJoin);
    run_to_teardown(&mut pool);
    assert_eq!(counter.load(Ordering::SeqCst), 500);
}

#[test]
fn only_the_last_discard_tears_down() {
    let mut pool = Pool::<Task>::with_thread_count(2).unwrap();
    pool.duplicate();
    pool.duplicate();
    assert_eq!(pool.handle_count(), 3);
    assert_eq!(pool.discard(), Teardown::Keep);
    assert!(pool.is_open());
    assert_eq!(pool.discard(), Teardown::Keep);
    assert!(pool.is_open());
    assert_eq!(pool.discard(), Teardown::CloseThenJoin);
    assert!(!pool.is_open());
    assert_eq!(pool.handle_count(), 0);
    run_to_teardown(&mut pool);
    assert_eq!(pool.worker_state(0), WorkerState::Terminated);
    assert_eq!(pool.worker_state(1), WorkerState::Terminated);
}

#[test]
fn waiting_on_an_empty_open_queue_blocks() {
    let mut pool = Pool::<Task>::with_thread_count(1).unwrap();
    assert!(matches!(get_task(&mut pool, 0), Ok(None)));
    assert_eq!(pool.worker_state(0), WorkerState::Waiting);
    pool.discard();
    assert!(matches!(get_task(&mut pool, 0), Err(RecvError)));
    assert_eq!(pool.worker_state(0), WorkerState::Terminated);
    assert!(pool.is_torn_down());
}

#[test]
fn tasks_are_delivered_in_submission_order() {
    let mut pool = Pool::<u32>::with_thread_count(3).unwrap();
    for t in 10..15 {
        pool.spawn(t);
    }
    let mut got = vec![];
    for w in 0..3 {
        if let Ok(Some(t)) = get_task(&mut pool, w) {
            got.push(t);
        }
    }
    pool.finish_task(1);
    if let Ok(Some(t)) = get_task(&mut pool, 1) {
        got.push(t);
    }
    assert_eq!(got, vec![10, 11, 12, 13]);
    assert_eq!(pool.queued(), 1);
}

#[test]
fn spawn_after_teardown_is_lost() {
    let mut pool = Pool::<u32>::with_thread_count(1).unwrap();
    pool.discard();
    pool.spawn(7);
    assert_eq!(pool.queued(), 0);
    assert!(matches!(get_task(&mut pool, 0), Err(RecvError)));
}

#[test]
fn a_fault_kills_only_its_worker() {
    let counter = Arc::new(AtomicUsize::new(0));
    let mut pool = Pool::<Task>::with_thread_count(3).unwrap();
    // The first task faults on worker 0.
    pool.spawn(Box::new(|| {}));
    match get_task(&mut pool, 0) {
        Ok(Some(_faulting)) => pool.fault_task(0),
        _ => panic!("worker 0 should have taken the first task"),
    }
    assert_eq!(pool.worker_state(0), WorkerState::Faulted);
    assert_eq!(pool.live_workers(), 2);
    for _ in 0..20 {
        pool.spawn(counting_task(&counter));
    }
    assert_eq!(pool.discard(), Teardown::CloseThenJoin);
    run_to_teardown(&mut pool);
    assert_eq!(counter.load(Ordering::SeqCst), 20);
    assert_eq!(pool.abnormal_exits(), 1);
    assert_eq!(pool.worker_state(0), WorkerState::Faulted);
    assert_eq!(pool.worker_state(1), WorkerState::Terminated);
    assert_eq!(pool.worker_state(2), WorkerState::Terminated);
}

#[test]
fn all_workers_faulted_leaves_tasks_queued() {
    let mut pool = Pool::<u32>::with_thread_count(1).unwrap();
    pool.spawn(1);
    pool.spawn(2);
    assert!(matches!(get_task(&mut pool, 0), Ok(Some(1))));
    pool.fault_task(0);
    assert_eq!(pool.live_workers(), 0);
    pool.discard();
    assert!(pool.is_torn_down());
    assert_eq!(pool.queued(), 1);
    assert_eq!(pool.abnormal_exits(), 1);
}
