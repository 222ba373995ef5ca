use coopexec::exec::Executor;
use coopexec::jobs::{fibonacci, Job, JobKind, ERR_JOB_OVERFLOW};
use coopexec::task::{TaskResult, TaskState, Work};

#[test]
fn test_spawn_blocking() {
    let mut ex = Executor::new(4);
    let h = ex.offload(Job { kind: JobKind::Square(42), cost: 10 });
    let result = ex.await_result(h);
    assert_eq!(result, TaskResult::Value(1764));
    println!("\u{2705} spawn_blocking test passed");
}

#[test]
fn failing_job_is_contained_and_pool_survives() {
    let mut ex = Executor::new(2);
    let bad = ex.offload(Job { kind: JobKind::Raise(7), cost: 5 });
    assert_eq!(ex.await_result(bad), TaskResult::TaskFailed(7));
    assert!(matches!(ex.tasks[bad.id].state, TaskState::Failed(7)));
    // a subsequent offload still succeeds
    let good = ex.offload(Job { kind: JobKind::Square(6), cost: 5 });
    assert_eq!(ex.await_result(good), TaskResult::Value(36));
}

#[test]
fn cpu_bound_job_does_not_delay_sleepers() {
    let mut ex = Executor::new(2);
    let heavy = ex.offload(Job { kind: JobKind::Fib(20), cost: 10_000 });
    let mut sleepers = Vec::new();
    for k in 0..10u64 {
        sleepers.push(ex.spawn(Work::Sleep(100, k)));
    }
    let results = ex.join_all(&sleepers);
    for (k, r) in results.iter().enumerate() {
        assert_eq!(*r, TaskResult::Value(k as u64));
    }
    // every lightweight task completed on schedule, unaffected by the
    // worker still grinding on the heavy job
    for h in &sleepers {
        assert_eq!(ex.tasks[h.id].finished_at, 100);
    }
    assert_eq!(ex.await_result(heavy), TaskResult::Value(6765));
    assert_eq!(ex.now, 10_000);
}

#[test]
fn saturated_pool_queues_jobs_in_fifo_order() {
    let mut ex = Executor::new(1);
    let first = ex.offload(Job { kind: JobKind::Produce(1), cost: 100 });
    let second = ex.offload(Job { kind: JobKind::Produce(2), cost: 100 });
    let results = ex.join_all(&vec![first, second]);
    assert_eq!(results, vec![TaskResult::Value(1), TaskResult::Value(2)]);
    // one worker: the second job starts only when the first worker is free
    assert_eq!(ex.tasks[first.id].finished_at, 100);
    assert_eq!(ex.tasks[second.id].finished_at, 200);
    assert_eq!(ex.now, 200);
}

#[test]
fn oversized_job_operands_fail_instead_of_overflowing() {
    let mut ex = Executor::new(1);
    let sq = ex.offload(Job { kind: JobKind::Square(5_000_000_000), cost: 1 });
    assert_eq!(ex.await_result(sq), TaskResult::TaskFailed(ERR_JOB_OVERFLOW));
    let fib = ex.offload(Job { kind: JobKind::Fib(94), cost: 1 });
    assert_eq!(ex.await_result(fib), TaskResult::TaskFailed(ERR_JOB_OVERFLOW));
}

#[test]
fn fibonacci_exact_values() {
    assert_eq!(fibonacci(0), 0);
    assert_eq!(fibonacci(1), 1);
    assert_eq!(fibonacci(2), 1);
    assert_eq!(fibonacci(10), 55);
    assert_eq!(fibonacci(20), 6765);
}
