use std::cell::Cell;
use std::rc::Rc;
use vanessa::worker::{
    bg, init, init_with, receive, shutdown, shutdown_blocking, Pool, PoolError, Received,
};

type Job = Box<dyn FnOnce()>;

/// Lets the workers take items in turn until each has stopped or the queue
/// is empty; runs the tasks and returns how many ran.
fn run_workers(pool: &mut Pool<Job>) -> usize {
    let mut ran = 0;
    loop {
        let mut progressed = false;
        for id in 0..pool.worker_count() {
            if pool.worker(id).stopped {
                continue;
            }
            match receive(pool, id) {
                Received::Task(t) => {
                    t();
                    ran += 1;
                    progressed = true;
                }
                Received::Stop => progressed = true,
                Received::Empty => {}
            }
        }
        if !progressed {
            return ran;
        }
    }
}

#[test]
fn worker_interface() {
    let mut pool: Pool<Job> = Pool::new();
    assert_eq!(init(&mut pool, Some(4)), Ok(()));
    assert_eq!(bg(&mut pool, Box::new(|| {})), Ok(()));
    let done = shutdown_blocking(&mut pool).unwrap();
    assert_eq!(done.to_join, vec![0, 1, 2, 3]);
    assert_eq!(run_workers(&mut pool), 1);
}

#[test]
fn init_without_known_parallelism_starts_one_worker() {
    let mut pool: Pool<Job> = Pool::new();
    assert_eq!(init(&mut pool, None), Ok(()));
    assert_eq!(pool.worker_count(), 1);
    assert_eq!(pool.worker(0).id, 0);
    assert!(pool.worker(0).has_handle);
}

#[test]
fn counter_reaches_one_hundred_with_two_workers() {
    let counter = Rc::new(Cell::new(0u32));
    let mut pool: Pool<Job> = Pool::new();
    assert_eq!(init_with(&mut pool, 2), Ok(()));
    for _ in 0..100 {
        let c = counter.clone();
        assert_eq!(bg(&mut pool, Box::new(move || c.set(c.get() + 1))), Ok(()));
    }
    let done = shutdown_blocking(&mut pool).unwrap();
    assert!(done.unsignalled.is_empty());
    assert_eq!(done.to_join, vec![0, 1]);
    assert_eq!(run_workers(&mut pool), 100);
    assert_eq!(counter.get(), 100);
    assert!(pool.worker(0).stopped && pool.worker(1).stopped);
    assert!(!pool.worker(0).has_handle && !pool.worker(1).has_handle);
    assert_eq!(pool.queued_len(), 0);
}

#[test]
fn zero_worker_pool_runs_nothing_and_shuts_down() {
    let ran = Rc::new(Cell::new(false));
    let mut pool: Pool<Job> = Pool::new();
    assert_eq!(init_with(&mut pool, 0), Ok(()));
    let r = ran.clone();
    assert_eq!(bg(&mut pool, Box::new(move || r.set(true))), Ok(()));
    assert_eq!(pool.queued_len(), 1);
    let done = shutdown_blocking(&mut pool).unwrap();
    assert!(done.to_join.is_empty());
    assert!(done.unsignalled.is_empty());
    assert_eq!(run_workers(&mut pool), 0);
    assert_eq!(pool.queued_len(), 1);
    assert!(!ran.get());
}

#[test]
fn second_init_is_rejected() {
    let mut pool: Pool<Job> = Pool::new();
    assert_eq!(init_with(&mut pool, 3), Ok(()));
    assert_eq!(init_with(&mut pool, 5), Err(PoolError::AlreadyInitialized));
    assert_eq!(init(&mut pool, Some(8)), Err(PoolError::AlreadyInitialized));
    assert_eq!(pool.worker_count(), 3);
}

#[test]
fn shutdown_twice_is_safe() {
    let mut pool: Pool<Job> = Pool::new();
    assert_eq!(init_with(&mut pool, 2), Ok(()));
    assert_eq!(shutdown(&mut pool), Ok(vec![]));
    assert_eq!(shutdown(&mut pool), Ok(vec![]));
    assert_eq!(pool.queued_len(), 4);
    run_workers(&mut pool);
    assert_eq!(pool.queued_len(), 2);
    assert_eq!(shutdown(&mut pool), Ok(vec![0, 1]));
    assert_eq!(pool.queued_len(), 2);
}

#[test]
fn uninitialized_pool_refuses_everything() {
    let mut pool: Pool<Job> = Pool::new();
    assert!(!pool.is_initialized());
    assert_eq!(bg(&mut pool, Box::new(|| {})), Err(PoolError::Uninitialized));
    assert_eq!(shutdown(&mut pool), Err(PoolError::Uninitialized));
    assert!(matches!(shutdown_blocking(&mut pool), Err(PoolError::Uninitialized)));
    assert_eq!(pool.queued_len(), 0);
}

#[test]
fn submission_after_all_workers_stopped_is_disconnected() {
    let mut pool: Pool<Job> = Pool::new();
    assert_eq!(init_with(&mut pool, 1), Ok(()));
    assert_eq!(shutdown(&mut pool), Ok(vec![]));
    assert!(matches!(receive(&mut pool, 0), Received::Stop));
    assert_eq!(bg(&mut pool, Box::new(|| {})), Err(PoolError::Disconnected));
}

#[test]
fn tasks_are_delivered_once_in_order() {
    let mut pool: Pool<u32> = Pool::new();
    assert_eq!(init_with(&mut pool, 3), Ok(()));
    for i in 0..10u32 {
        assert_eq!(bg(&mut pool, i), Ok(()));
    }
    let mut got = Vec::new();
    for k in 0..12usize {
        match receive(&mut pool, k % 3) {
            Received::Task(t) => got.push(t),
            Received::Stop => panic!("no stop was queued"),
            Received::Empty => {}
        }
    }
    assert_eq!(got, (0..10).collect::<Vec<u32>>());
    assert!(matches!(receive(&mut pool, 0), Received::Empty));
}

#[test]
fn tasks_queued_before_blocking_shutdown_run_before_the_stops() {
    let mut pool: Pool<u32> = Pool::new();
    assert_eq!(init_with(&mut pool, 2), Ok(()));
    for i in 0..5u32 {
        assert_eq!(bg(&mut pool, i), Ok(()));
    }
    let done = shutdown_blocking(&mut pool).unwrap();
    assert_eq!(done.to_join, vec![0, 1]);
    let mut tasks = Vec::new();
    let mut stopped = 0;
    for k in 0..7usize {
        match receive(&mut pool, k % 2) {
            Received::Task(t) => tasks.push(t),
            Received::Stop => stopped += 1,
            Received::Empty => {}
        }
    }
    assert_eq!(tasks, vec![0, 1, 2, 3, 4]);
    assert_eq!(stopped, 2);
}
