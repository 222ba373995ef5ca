use coopexec::exec::Executor;
use coopexec::task::{TaskResult, TaskState, Work};

#[test]
fn test_concurrent_sleeps() {
    let mut ex = Executor::new(4);
    let a = ex.spawn(Work::Sleep(100, 1));
    let b = ex.spawn(Work::Sleep(100, 2));
    let hs = vec![a, b];
    let results = ex.join_all(&hs);
    assert!(ex.now < 150);
    assert_eq!(ex.now, 100);
    assert_eq!(results, vec![TaskResult::Value(1), TaskResult::Value(2)]);
    println!("\u{2705} Concurrent sleeps test passed");
}

#[test]
fn immediate_task_completes_at_spawn_instant() {
    let mut ex = Executor::new(1);
    let h = ex.spawn(Work::Produce(9));
    let r = ex.await_result(h);
    assert_eq!(r, TaskResult::Value(9));
    assert_eq!(ex.now, 0);
    assert_eq!(ex.tasks[h.id].finished_at, 0);
}

#[test]
fn raising_task_fails_with_its_cause() {
    let mut ex = Executor::new(1);
    let h = ex.spawn(Work::Raise(33));
    assert_eq!(ex.await_result(h), TaskResult::TaskFailed(33));
    assert!(matches!(ex.tasks[h.id].state, TaskState::Failed(33)));
}

#[test]
fn await_twice_returns_identical_result_without_rerun() {
    let mut ex = Executor::new(2);
    let h = ex.spawn(Work::Sleep(250, 5));
    let first = ex.await_result(h);
    let clock_after_first = ex.now;
    let finished_after_first = ex.tasks[h.id].finished_at;
    let second = ex.await_result(h);
    assert_eq!(first, TaskResult::Value(5));
    assert_eq!(second, first);
    // no re-execution: the clock did not move again and the stored
    // completion instant is untouched
    assert_eq!(ex.now, clock_after_first);
    assert_eq!(ex.tasks[h.id].finished_at, finished_after_first);
}

#[test]
fn cancelled_task_reports_cancelled_result() {
    let mut ex = Executor::new(1);
    let h = ex.spawn(Work::Sleep(1000, 4));
    ex.cancel(h);
    assert!(matches!(ex.tasks[h.id].state, TaskState::Cancelled));
    assert_eq!(ex.await_result(h), TaskResult::Cancelled);
    // its timer never fires: the clock has nothing to advance to
    assert_eq!(ex.now, 0);
}

#[test]
fn cancel_after_completion_keeps_the_result() {
    let mut ex = Executor::new(1);
    let h = ex.spawn(Work::Sleep(10, 8));
    assert_eq!(ex.await_result(h), TaskResult::Value(8));
    ex.cancel(h);
    assert_eq!(ex.await_result(h), TaskResult::Value(8));
}

#[test]
fn shutdown_abandons_outstanding_work() {
    let mut ex = Executor::new(2);
    let done = ex.spawn(Work::Produce(1));
    let r = ex.await_result(done);
    let sleeping = ex.spawn(Work::Sleep(5000, 2));
    ex.shutdown();
    assert!(matches!(ex.tasks[sleeping.id].state, TaskState::Cancelled));
    assert_eq!(ex.await_result(done), r);
    assert_eq!(ex.ready.len(), 0);
    assert_eq!(ex.timers.len(), 0);
    assert_eq!(ex.pool.busy.len(), 0);
    assert_eq!(ex.pool.queue.len(), 0);
}

#[test]
fn saturating_clock_arithmetic() {
    assert_eq!(coopexec::clock::sat_add(u64::MAX, 5), u64::MAX);
    assert_eq!(coopexec::clock::sat_add(0, 7), 7);
    assert_eq!(coopexec::clock::sat_add(3, 4), 7);
}
