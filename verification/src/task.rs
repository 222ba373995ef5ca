//! Tasks: units of suspendable work and their terminal results.

use vstd::prelude::*;

use crate::clock::sat_add_spec;
use crate::jobs::{job_outcome, Job};

verus! {

/// What an external caller holds for a spawned task: its stable identifier,
/// an index into the executor's task table.
#[derive(Clone, Copy, PartialEq, Eq, Structural, Debug)]
pub struct TaskHandle {
    pub id: usize,
}

/// The terminal result a task delivers to whoever awaits or joins it.
#[derive(Clone, Copy, PartialEq, Eq, Structural, Debug)]
pub enum TaskResult {
    /// The task's work completed with this value.
    Value(u64),
    /// The task's own work raised an error with this cause code.
    TaskFailed(u64),
    /// Cooperative cancellation was observed at a suspension point.
    Cancelled,
}

/// The lifecycle state of a task. Transitions are driven only by the
/// scheduler; `Running` spans a single uninterrupted resumption.
#[derive(Clone, Copy, PartialEq, Eq, Structural, Debug)]
pub enum TaskState {
    Pending,
    Running,
    Suspended,
    Completed(u64),
    Failed(u64),
    Cancelled,
}

/// The resumable work of a task, as an explicit state machine: what the task
/// does when first resumed, and what it produces.
#[derive(Clone, Copy, PartialEq, Eq, Structural, Debug)]
pub enum Work {
    /// Complete immediately with the value.
    Produce(u64),
    /// Raise an error with the given cause as soon as the task runs.
    Raise(u64),
    /// Suspend on a timer for the duration, then complete with the value.
    Sleep(u64, u64),
    /// Submit the job to the offload pool, suspend, and complete with the
    /// job's result once a worker has executed it.
    Offload(Job),
}

/// One entry of the executor's task table.
#[derive(Clone, Copy, Debug)]
pub struct Task {
    /// Equals the task's index in the table, stable for its lifetime.
    pub id: usize,
    /// The task's work; never mutated after spawn.
    pub work: Work,
    pub state: TaskState,
    /// Virtual instant at which the task was spawned.
    pub spawned_at: u64,
    /// Virtual instant at which the task was woken for completion or reached
    /// a terminal state; meaningful once the task has fired or finished.
    pub finished_at: u64,
    /// Result slot for offloaded work: written exactly once, by the pool,
    /// before the task is marked ready.
    pub slot: Option<TaskResult>,
}

pub open spec fn is_terminal(s: TaskState) -> bool {
    match s {
        TaskState::Completed(_) => true,
        TaskState::Failed(_) => true,
        TaskState::Cancelled => true,
        _ => false,
    }
}

/// The result delivered for a terminal state.
pub open spec fn state_result(s: TaskState) -> TaskResult {
    match s {
        TaskState::Completed(v) => TaskResult::Value(v),
        TaskState::Failed(e) => TaskResult::TaskFailed(e),
        _ => TaskResult::Cancelled,
    }
}

/// The terminal state a task reaches when it runs to completion without
/// being cancelled: a function of the task's own work alone.
pub open spec fn work_outcome(w: Work) -> TaskState {
    match w {
        Work::Produce(v) => TaskState::Completed(v),
        Work::Raise(e) => TaskState::Failed(e),
        Work::Sleep(_d, v) => TaskState::Completed(v),
        Work::Offload(j) => job_outcome(j),
    }
}

/// Running work to completion ends in success or failure; `Cancelled` is
/// only ever entered through a cancellation signal.
pub proof fn lemma_work_outcome_terminal(w: Work)
    ensures
        work_outcome(w) is Completed || work_outcome(w) is Failed,
{
    match w {
        Work::Offload(j) => crate::jobs::lemma_job_outcome_terminal(j),
        _ => {},
    }
}

/// The virtual instant at which an uncancelled task finishes, for work whose
/// completion time is a function of the spawn instant alone.
pub open spec fn work_finish_time(w: Work, spawned_at: u64) -> u64 {
    match w {
        Work::Produce(_v) => spawned_at,
        Work::Raise(_e) => spawned_at,
        Work::Sleep(d, _v) => sat_add_spec(spawned_at, d),
        Work::Offload(_j) => spawned_at,
    }
}

/// Converts a terminal state into the result handed to callers.
pub fn state_to_result(s: TaskState) -> (r: TaskResult)
    requires
        is_terminal(s),
    ensures
        r == state_result(s),
{
    match s {
        TaskState::Completed(v) => TaskResult::Value(v),
        TaskState::Failed(e) => TaskResult::TaskFailed(e),
        _ => TaskResult::Cancelled,
    }
}

} // verus!
