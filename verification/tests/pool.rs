use psync::thread_pool::{Assignment, ThreadPool};

#[test]
fn new_pool_has_its_workers_and_nothing_to_do() {
    let mut pool: ThreadPool<u32> = ThreadPool::new(3);
    assert_eq!(pool.workers(), 3);
    assert_eq!(pool.waiting(), 0);
    assert!(!pool.is_closed());
    assert_eq!(pool.assign(), Assignment::Wait);
}

#[test]
fn jobs_are_given_out_in_the_order_handed_in() {
    let mut pool: ThreadPool<&'static str> = ThreadPool::new(2);
    pool.run("walk");
    pool.run("copy a");
    pool.run("copy b");
    assert_eq!(pool.waiting(), 3);
    assert_eq!(pool.assign(), Assignment::Run("walk"));
    assert_eq!(pool.assign(), Assignment::Run("copy a"));
    pool.run("copy c");
    assert_eq!(pool.assign(), Assignment::Run("copy b"));
    assert_eq!(pool.assign(), Assignment::Run("copy c"));
    assert_eq!(pool.assign(), Assignment::Wait);
    assert_eq!(pool.waiting(), 0);
}

#[test]
fn job_handed_in_by_a_running_job_is_carried_out() {
    let mut pool: ThreadPool<u8> = ThreadPool::new(1);
    pool.run(1);
    assert_eq!(pool.assign(), Assignment::Run(1));
    // job 1 hands in job 2 while it runs
    pool.run(2);
    assert_eq!(pool.assign(), Assignment::Run(2));
    assert_eq!(pool.assign(), Assignment::Wait);
}

#[test]
fn closed_pool_finishes_its_queue_before_its_workers_leave() {
    let mut pool: ThreadPool<u8> = ThreadPool::new(2);
    pool.run(1);
    pool.run(2);
    pool.close();
    assert!(pool.is_closed());
    assert_eq!(pool.waiting(), 2);
    assert_eq!(pool.assign(), Assignment::Run(1));
    assert_eq!(pool.assign(), Assignment::Run(2));
    assert_eq!(pool.assign(), Assignment::Exit);
    assert_eq!(pool.assign(), Assignment::Exit);
}

#[test]
fn closed_empty_pool_lets_its_workers_go_at_once() {
    let mut pool: ThreadPool<u8> = ThreadPool::new(4);
    assert_eq!(pool.assign(), Assignment::Wait);
    pool.close();
    assert_eq!(pool.assign(), Assignment::Exit);
    assert_eq!(pool.workers(), 4);
}
