use coffee_points::pool::{Builder, ThreadPool};

#[test]
fn fresh_pool_counters() {
    let pool = ThreadPool::new(4);
    assert_eq!(pool.queued_count(), 0);
    assert_eq!(pool.active_count(), 0);
    assert_eq!(pool.max_count(), 4);
    assert_eq!(pool.panic_count(), 0);
}

#[test]
fn job_lifecycle_accounting() {
    let mut pool = ThreadPool::new(2);
    pool.execute();
    pool.execute();
    assert_eq!(pool.queued_count(), 2);
    assert!(pool.has_work());
    assert!(!pool.join());

    pool.worker_take_job();
    assert_eq!(pool.queued_count(), 1);
    assert_eq!(pool.active_count(), 1);

    pool.worker_finish_job();
    pool.worker_take_job();
    pool.worker_finish_job();
    assert_eq!(pool.queued_count(), 0);
    assert_eq!(pool.active_count(), 0);
    assert!(!pool.has_work());
    assert!(pool.join());
}

#[test]
fn panicking_worker_is_counted_and_replaced() {
    let mut pool = ThreadPool::new(2);
    pool.execute();
    pool.worker_take_job();
    pool.worker_panicked();
    assert_eq!(pool.panic_count(), 1);
    assert_eq!(pool.active_count(), 0);
    // the pool keeps its configured size; a replacement worker is spawned
    assert_eq!(pool.max_count(), 2);
}

#[test]
fn resizing_reports_workers_to_spawn() {
    let mut pool = ThreadPool::new(4);
    assert_eq!(pool.set_num_threads(12), 8);
    assert_eq!(pool.max_count(), 12);
    // shrinking spawns nobody: surplus workers exit at the top of their loop
    assert_eq!(pool.set_num_threads(2), 0);
    assert_eq!(pool.max_count(), 2);
}

#[test]
fn workers_exit_when_pool_shrinks() {
    let mut pool = ThreadPool::new(2);
    pool.execute();
    pool.execute();
    pool.worker_take_job();
    pool.worker_take_job();
    assert!(pool.worker_should_exit());
    pool.set_num_threads(3);
    assert!(!pool.worker_should_exit());
}

#[test]
fn builder_carries_its_settings() {
    let pool = Builder::new()
        .num_threads(3)
        .thread_name("points-worker".to_string())
        .thread_stack_size(1 << 16)
        .build();
    assert_eq!(pool.max_count(), 3);
    assert_eq!(pool.name, Some("points-worker".to_string()));
    assert_eq!(pool.stack_size, Some(1 << 16));
}

#[test]
fn with_name_names_the_pool() {
    let pool = ThreadPool::with_name("test".to_string(), 2);
    assert_eq!(pool.name, Some("test".to_string()));
    assert_eq!(pool.max_count(), 2);
}

#[test]
fn default_pool_sizes_by_cpu_count() {
    // the machine reports at least one CPU
    let pool = ThreadPool::default();
    assert!(pool.max_count() >= 1);
    assert_eq!(pool.queued_count(), 0);
}
