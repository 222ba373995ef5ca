use coopexec::exec::{Executor, SelectOutcome};
use coopexec::task::{TaskResult, TaskState, Work};

#[test]
fn joinall_two_equal_sleeps_takes_one_duration() {
    let mut ex = Executor::new(4);
    let a = ex.spawn(Work::Sleep(500, 1));
    let b = ex.spawn(Work::Sleep(500, 2));
    let results = ex.join_all(&vec![a, b]);
    // concurrent: the pair finishes after 500 virtual milliseconds, not 1000
    assert_eq!(ex.now, 500);
    assert_eq!(results, vec![TaskResult::Value(1), TaskResult::Value(2)]);
}

#[test]
fn joinall_elapsed_is_max_not_sum() {
    let mut ex = Executor::new(4);
    let a = ex.spawn(Work::Sleep(100, 1));
    let b = ex.spawn(Work::Sleep(300, 2));
    let c = ex.spawn(Work::Sleep(200, 3));
    let results = ex.join_all(&vec![a, b, c]);
    assert_eq!(ex.now, 300);
    assert_eq!(
        results,
        vec![TaskResult::Value(1), TaskResult::Value(2), TaskResult::Value(3)]
    );
    assert_eq!(ex.tasks[a.id].finished_at, 100);
    assert_eq!(ex.tasks[b.id].finished_at, 300);
    assert_eq!(ex.tasks[c.id].finished_at, 200);
}

#[test]
fn joinall_swapped_input_swaps_only_positions() {
    let mut first = Executor::new(2);
    let a1 = first.spawn(Work::Sleep(100, 10));
    let b1 = first.spawn(Work::Sleep(50, 20));
    let r1 = first.join_all(&vec![a1, b1]);

    let mut second = Executor::new(2);
    let a2 = second.spawn(Work::Sleep(100, 10));
    let b2 = second.spawn(Work::Sleep(50, 20));
    let r2 = second.join_all(&vec![b2, a2]);

    // each task's own result is unchanged; only the positions moved
    assert_eq!(r1[0], r2[1]);
    assert_eq!(r1[1], r2[0]);
    assert_eq!(r1, vec![TaskResult::Value(10), TaskResult::Value(20)]);
}

#[test]
fn race_task_beats_later_timer() {
    let mut ex = Executor::new(2);
    let task = ex.spawn(Work::Sleep(100, 7));
    let timer = ex.after(200);
    let (winner, result) = ex.race(&vec![task, timer]);
    assert_eq!(winner, 0);
    assert_eq!(result, TaskResult::Value(7));
    assert_eq!(ex.now, 100);
    assert!(matches!(ex.tasks[timer.id].state, TaskState::Cancelled));
    // the cancelled timer leaves no dangling readiness entry: nothing wakes
    // later and the clock never reaches the timer's deadline
    ex.run();
    assert_eq!(ex.now, 100);
    assert!(matches!(ex.tasks[timer.id].state, TaskState::Cancelled));
}

#[test]
fn race_tie_breaks_by_list_order() {
    let mut ex = Executor::new(1);
    let a = ex.spawn(Work::Produce(1));
    let b = ex.spawn(Work::Produce(2));
    let (winner, result) = ex.race(&vec![a, b]);
    assert_eq!(winner, 0);
    assert_eq!(result, TaskResult::Value(1));
}

#[test]
fn select_timeout_fires_first() {
    let mut ex = Executor::new(1);
    let slow = ex.spawn(Work::Sleep(3000, 1));
    let outcome = ex.select_with_timeout(slow, 1000);
    assert!(matches!(outcome, SelectOutcome::TimedOut));
    assert_eq!(ex.now, 1000);
    assert!(matches!(ex.tasks[slow.id].state, TaskState::Cancelled));
    // the 3-second task produces no further observable effect: its timer is
    // gone, so draining the scheduler again moves nothing
    ex.run();
    assert_eq!(ex.now, 1000);
    assert!(matches!(ex.tasks[slow.id].state, TaskState::Cancelled));
}

#[test]
fn select_task_finishes_within_window() {
    let mut ex = Executor::new(1);
    let quick = ex.spawn(Work::Sleep(500, 11));
    let outcome = ex.select_with_timeout(quick, 1000);
    assert!(matches!(outcome, SelectOutcome::Done(TaskResult::Value(11))));
    assert_eq!(ex.now, 500);
}
