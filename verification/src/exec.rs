//! The executor: task table, readiness queue, timer service, offload pool
//! and the cooperative scheduler loop that drives them.
//!
//! Virtual time: the clock `now` advances only when the readiness queue is
//! drained, and then exactly to the earliest pending deadline or worker
//! finish time. A resumption consumes no virtual time, so a task spawned at
//! some instant is first resumed at that same instant.

use vstd::prelude::*;

use crate::clock::{lemma_sat_add_ge, sat_add, sat_add_spec};
use crate::jobs::{job_outcome, lemma_job_outcome_terminal, run_job, Job};
use crate::task::{
    is_terminal, lemma_work_outcome_terminal, state_result, state_to_result, work_finish_time,
    work_outcome, Task, TaskHandle, TaskResult, TaskState, Work,
};

verus! {

/// The scheduler steps a task at most twice (start, and wake after a
/// suspension); what remains for one task.
pub open spec fn step_weight(t: Task) -> nat {
    match t.state {
        TaskState::Pending => match t.work {
            Work::Produce(_v) => 1,
            Work::Raise(_e) => 1,
            Work::Sleep(_d, _v) => 2,
            Work::Offload(_j) => 2,
        },
        TaskState::Suspended => 1,
        _ => 0,
    }
}

/// Total resumption work remaining over a task table.
pub open spec fn tasks_weight(s: Seq<Task>) -> nat
    decreases s.len(),
{
    if s.len() == 0 {
        0
    } else {
        tasks_weight(s.drop_last()) + step_weight(s.last())
    }
}

pub proof fn lemma_tasks_weight_update(s: Seq<Task>, i: int, t: Task)
    requires
        0 <= i < s.len(),
    ensures
        tasks_weight(s.update(i, t)) + step_weight(s[i]) == tasks_weight(s) + step_weight(t),
    decreases s.len(),
{
    let s2 = s.update(i, t);
    if i == s.len() - 1 {
        assert(s2.drop_last() =~= s.drop_last());
        assert(s2.last() == t);
    } else {
        assert(s2.drop_last() =~= s.drop_last().update(i, t));
        lemma_tasks_weight_update(s.drop_last(), i, t);
        assert(s2.last() == s.last());
    }
}

/// What every scheduler step leaves untouched: the set of tasks, each task's
/// identity, work and spawn instant, terminal tasks in their entirety, and
/// the pool's size.
pub open spec fn same_tasks_core(pre: Executor, post: Executor) -> bool {
    &&& post.tasks@.len() == pre.tasks@.len()
    &&& forall|i: int|
        0 <= i < pre.tasks@.len() ==> {
            &&& post.tasks@[i].id == pre.tasks@[i].id
            &&& post.tasks@[i].work == pre.tasks@[i].work
            &&& post.tasks@[i].spawned_at == pre.tasks@[i].spawned_at
        }
    &&& forall|i: int|
        0 <= i < pre.tasks@.len() && is_terminal(pre.tasks@[i].state)
            ==> post.tasks@[i] == pre.tasks@[i]
    &&& post.pool.capacity == pre.pool.capacity
}

pub proof fn lemma_same_tasks_core_trans(a: Executor, b: Executor, c: Executor)
    requires
        same_tasks_core(a, b),
        same_tasks_core(b, c),
    ensures
        same_tasks_core(a, c),
{
}

/// Everything the scheduler has run so far: the summary a caller needs after
/// the loop has drained. All tasks are terminal, no structure holds an
/// entry, and if the clock moved at all it stopped exactly on some task's
/// wake or cancellation instant.
pub open spec fn run_post(pre: Executor, post: Executor) -> bool {
    &&& same_tasks_core(pre, post)
    &&& post.now >= pre.now
    &&& forall|i: int| 0 <= i < post.tasks@.len() ==> is_terminal(post.tasks@[i].state)
    &&& post.ready@.len() == 0
    &&& post.timers@.len() == 0
    &&& post.pool.busy@.len() == 0
    &&& post.pool.queue@.len() == 0
    &&& (post.now == pre.now || post.advance_marked())
    &&& forall|i: int|
        0 <= i < post.tasks@.len() && post.tasks@[i].state is Cancelled
            ==> pre.tasks@[i].state is Cancelled
}

/// What `race` guarantees, relating the executor before the race to the one
/// after it: the reported winner is terminal, its result is its stored
/// terminal result, a winner that was still live finished as its own work
/// dictates and the clock stands on its completion instant, every other
/// live entrant was cancelled, a cancelled sleeper's own wake instant could
/// not have preceded the winner's finish, and every entrant listed before
/// the winner was still live when the race began.
pub open spec fn race_post(
    pre: Executor,
    post: Executor,
    handles: Seq<TaskHandle>,
    winner: int,
    result: TaskResult,
) -> bool {
    &&& same_tasks_core(pre, post)
    &&& post.now >= pre.now
    &&& 0 <= winner < handles.len()
    &&& is_terminal(post.tasks@[handles[winner].id as int].state)
    &&& result == state_result(post.tasks@[handles[winner].id as int].state)
    &&& !is_terminal(pre.tasks@[handles[winner].id as int].state) ==> {
        &&& post.tasks@[handles[winner].id as int].state == work_outcome(
            pre.tasks@[handles[winner].id as int].work,
        )
        &&& post.now == post.tasks@[handles[winner].id as int].finished_at
    }
    &&& forall|k: int|
        0 <= k < handles.len() && k != winner && handles[k].id != handles[winner].id
            && !is_terminal(pre.tasks@[handles[k].id as int].state)
            ==> post.tasks@[handles[k].id as int].state is Cancelled
    &&& forall|k: int|
        0 <= k < handles.len() && k != winner && handles[k].id != handles[winner].id
            && !is_terminal(pre.tasks@[handles[k].id as int].state)
            && pre.tasks@[handles[k].id as int].work is Sleep ==> work_finish_time(
            pre.tasks@[handles[k].id as int].work,
            pre.tasks@[handles[k].id as int].spawned_at,
        ) >= post.tasks@[handles[winner].id as int].finished_at
    &&& forall|k: int|
        0 <= k < winner ==> !is_terminal(pre.tasks@[handles[k].id as int].state)
}

/// What `select_with_timeout` reports: the task's own result, or that the
/// timeout window elapsed first.
#[derive(Clone, Copy, PartialEq, Eq, Structural, Debug)]
pub enum SelectOutcome {
    Done(TaskResult),
    TimedOut,
}

/// The results `join_all` hands back for a list of handles: position `k`
/// holds the terminal result of `handles[k]`, whatever the completion order
/// was.
pub open spec fn join_results(tasks: Seq<Task>, handles: Seq<TaskHandle>) -> Seq<TaskResult> {
    Seq::new(handles.len(), |k: int| state_result(tasks[handles[k].id as int].state))
}

/// Why a task was posted to the readiness queue.
#[derive(Clone, Copy, PartialEq, Eq, Structural, Debug)]
pub enum WakeReason {
    /// Newly spawned tasks are immediately ready.
    Spawned,
    /// The task's timer deadline elapsed.
    TimerFired,
    /// A worker finished the task's offloaded job.
    OffloadDone,
}

/// One entry of the readiness queue: a runnable task and why it woke.
#[derive(Clone, Copy, PartialEq, Eq, Structural, Debug)]
pub struct ReadyEntry {
    pub task: usize,
    pub reason: WakeReason,
}

/// A pending timer: the task is woken once the deadline has elapsed.
#[derive(Clone, Copy, PartialEq, Eq, Structural, Debug)]
pub struct TimerEntry {
    pub task: usize,
    pub deadline: u64,
}

/// A job currently executing on a worker, finishing at the given instant.
#[derive(Clone, Copy, PartialEq, Eq, Structural, Debug)]
pub struct BusyJob {
    pub task: usize,
    pub job: Job,
    pub finish: u64,
}

/// A job waiting for a free worker, in FIFO submission order.
#[derive(Clone, Copy, PartialEq, Eq, Structural, Debug)]
pub struct QueuedJob {
    pub task: usize,
    pub job: Job,
}

/// A bounded pool of workers for blocking jobs. At most `capacity` jobs run
/// at once; the rest wait in `queue` in submission order.
pub struct OffloadPool {
    pub capacity: usize,
    pub busy: Vec<BusyJob>,
    pub queue: Vec<QueuedJob>,
}

/// The executor instance owning all scheduler state. Multiple isolated
/// executors may coexist; nothing here is ambient or global.
pub struct Executor {
    pub tasks: Vec<Task>,
    pub ready: Vec<ReadyEntry>,
    pub timers: Vec<TimerEntry>,
    pub pool: OffloadPool,
    /// The virtual clock, in milliseconds.
    pub now: u64,
}

impl Executor {
    /// Some readiness entry names task `i`.
    pub open spec fn has_ready(self, i: int) -> bool {
        exists|j: int| 0 <= j < self.ready@.len() && self.ready@[j].task == i
    }

    /// Some pending timer belongs to task `i`.
    pub open spec fn has_timer(self, i: int) -> bool {
        exists|j: int| 0 <= j < self.timers@.len() && self.timers@[j].task == i
    }

    /// Every timer of task `i` carries this deadline.
    pub open spec fn timer_at(self, i: int, dl: u64) -> bool {
        forall|j: int|
            0 <= j < self.timers@.len() && self.timers@[j].task == i
                ==> self.timers@[j].deadline == dl
    }

    /// Task `i`'s job is executing on a worker.
    pub open spec fn in_busy(self, i: int) -> bool {
        exists|j: int| 0 <= j < self.pool.busy@.len() && self.pool.busy@[j].task == i
    }

    /// Every busy entry of task `i` executes this job.
    pub open spec fn busy_at(self, i: int, job: Job) -> bool {
        forall|j: int|
            0 <= j < self.pool.busy@.len() && self.pool.busy@[j].task == i
                ==> self.pool.busy@[j].job == job
    }

    /// Task `i`'s job waits for a free worker.
    pub open spec fn in_queue(self, i: int) -> bool {
        exists|j: int| 0 <= j < self.pool.queue@.len() && self.pool.queue@[j].task == i
    }

    /// Every queued entry of task `i` holds this job.
    pub open spec fn queue_at(self, i: int, job: Job) -> bool {
        forall|j: int|
            0 <= j < self.pool.queue@.len() && self.pool.queue@[j].task == i
                ==> self.pool.queue@[j].job == job
    }

    /// No scheduler structure references task `i` any more.
    pub open spec fn quiescent(self, i: int) -> bool {
        &&& !self.has_ready(i)
        &&& !self.has_timer(i)
        &&& !self.in_busy(i)
        &&& !self.in_queue(i)
    }

    pub open spec fn ready_distinct(self) -> bool {
        forall|j: int, k: int|
            0 <= j < k < self.ready@.len() ==> self.ready@[j].task != self.ready@[k].task
    }

    pub open spec fn timers_distinct(self) -> bool {
        forall|j: int, k: int|
            0 <= j < k < self.timers@.len() ==> self.timers@[j].task != self.timers@[k].task
    }

    pub open spec fn busy_distinct(self) -> bool {
        forall|j: int, k: int|
            0 <= j < k < self.pool.busy@.len()
                ==> self.pool.busy@[j].task != self.pool.busy@[k].task
    }

    pub open spec fn queue_distinct(self) -> bool {
        forall|j: int, k: int|
            0 <= j < k < self.pool.queue@.len()
                ==> self.pool.queue@[j].task != self.pool.queue@[k].task
    }

    /// For completed work whose finish instant is a function of the spawn
    /// instant, the recorded finish instant is exactly that: a sleep ends
    /// when its duration has elapsed, immediate work ends at its spawn.
    pub open spec fn finish_timing_ok(self, i: int) -> bool {
        let t = self.tasks@[i];
        match t.work {
            Work::Produce(_v) => t.finished_at == t.spawned_at,
            Work::Raise(_e) => t.finished_at == t.spawned_at,
            Work::Sleep(d, _v) => t.finished_at == sat_add_spec(t.spawned_at, d),
            Work::Offload(_j) => true,
        }
    }

    /// The per-task slice of the executor invariant: the task's state agrees
    /// with exactly the scheduler structures that may reference it, a task is
    /// in the readiness queue if and only if it is eligible to be resumed,
    /// and a terminal, uncancelled task holds the outcome of its own work.
    pub open spec fn task_ok(self, i: int) -> bool {
        let t = self.tasks@[i];
        &&& t.id == i
        &&& t.spawned_at <= self.now
        &&& t.spawned_at <= t.finished_at
        &&& t.finished_at <= self.now
        &&& match t.state {
            TaskState::Pending => {
                &&& t.spawned_at == self.now
                &&& self.has_ready(i)
                &&& !self.has_timer(i)
                &&& !self.in_busy(i)
                &&& !self.in_queue(i)
                &&& t.slot is None
            },
            TaskState::Running => false,
            TaskState::Suspended => match t.work {
                Work::Sleep(d, _v) => {
                    &&& t.slot is None
                    &&& !self.in_busy(i)
                    &&& !self.in_queue(i)
                    &&& if self.has_timer(i) {
                        &&& self.timer_at(i, sat_add_spec(t.spawned_at, d))
                        &&& !self.has_ready(i)
                    } else {
                        &&& self.has_ready(i)
                        &&& self.now == sat_add_spec(t.spawned_at, d)
                        &&& t.finished_at == self.now
                    }
                },
                Work::Offload(job) => {
                    &&& !self.has_timer(i)
                    &&& if self.in_busy(i) {
                        &&& self.busy_at(i, job)
                        &&& !self.in_queue(i)
                        &&& !self.has_ready(i)
                        &&& t.slot is None
                    } else if self.in_queue(i) {
                        &&& self.queue_at(i, job)
                        &&& !self.has_ready(i)
                        &&& t.slot is None
                    } else {
                        &&& self.has_ready(i)
                        &&& t.slot == Some(state_result(job_outcome(job)))
                        &&& t.finished_at == self.now
                    }
                },
                _ => false,
            },
            TaskState::Completed(v) => {
                &&& work_outcome(t.work) == TaskState::Completed(v)
                &&& self.quiescent(i)
                &&& self.finish_timing_ok(i)
            },
            TaskState::Failed(e) => {
                &&& work_outcome(t.work) == TaskState::Failed(e)
                &&& self.quiescent(i)
                &&& self.finish_timing_ok(i)
            },
            TaskState::Cancelled => {
                &&& !self.has_ready(i)
                &&& !self.has_timer(i)
                &&& !self.in_queue(i)
            },
        }
    }

    /// The executor invariant: every structure references valid, live tasks,
    /// no task is referenced twice by the same structure, deadlines and
    /// finish times never lie in the past, the pool respects its bound and
    /// queues only when saturated, and every task satisfies `task_ok`.
    pub open spec fn wf(self) -> bool {
        &&& self.ready_distinct()
        &&& self.timers_distinct()
        &&& self.busy_distinct()
        &&& self.queue_distinct()
        &&& forall|j: int|
            0 <= j < self.ready@.len() ==> (self.ready@[j].task as int) < self.tasks@.len()
        &&& forall|j: int|
            0 <= j < self.timers@.len()
                ==> (self.timers@[j].task as int) < self.tasks@.len()
                    && self.timers@[j].deadline >= self.now
        &&& forall|j: int|
            0 <= j < self.pool.busy@.len()
                ==> (self.pool.busy@[j].task as int) < self.tasks@.len()
                    && self.pool.busy@[j].finish >= self.now
        &&& forall|j: int|
            0 <= j < self.pool.queue@.len()
                ==> (self.pool.queue@[j].task as int) < self.tasks@.len()
        &&& self.pool.capacity >= 1
        &&& self.pool.busy@.len() <= self.pool.capacity
        &&& (self.pool.queue@.len() > 0 ==> self.pool.busy@.len() == self.pool.capacity)
        &&& forall|i: int| 0 <= i < self.tasks@.len() ==> self.task_ok(i)
    }

    /// The clock did not move silently: some task was woken or finished at
    /// the current instant, or a cancellation is in the table.
    pub open spec fn advance_marked(self) -> bool {
        ||| exists|i: int|
            0 <= i < self.tasks@.len() && self.tasks@[i].finished_at == self.now
        ||| exists|i: int| 0 <= i < self.tasks@.len() && self.tasks@[i].state is Cancelled
    }

    /// Termination measure for the scheduler loop: remaining resumptions
    /// plus pending structure entries, weighted so every step decreases it.
    pub open spec fn measure(self) -> nat {
        3 * tasks_weight(self.tasks@) + self.ready@.len() + 2 * self.timers@.len() + 2
            * self.pool.busy@.len() + 3 * self.pool.queue@.len()
    }

    /// Creates an executor with no tasks, an idle pool of the given size and
    /// the virtual clock at zero.
    pub fn new(pool_capacity: usize) -> (ex: Executor)
        requires
            pool_capacity >= 1,
        ensures
            ex.wf(),
            ex.tasks@.len() == 0,
            ex.ready@.len() == 0,
            ex.timers@.len() == 0,
            ex.pool.busy@.len() == 0,
            ex.pool.queue@.len() == 0,
            ex.pool.capacity == pool_capacity,
            ex.now == 0,
    {
        Executor {
            tasks: Vec::new(),
            ready: Vec::new(),
            timers: Vec::new(),
            pool: OffloadPool { capacity: pool_capacity, busy: Vec::new(), queue: Vec::new() },
            now: 0,
        }
    }

    /// Registers a new task for the given work and enqueues it as
    /// immediately ready. Everything already registered is untouched.
    pub fn spawn(&mut self, work: Work) -> (h: TaskHandle)
        requires
            old(self).wf(),
            old(self).tasks@.len() < usize::MAX,
        ensures
            final(self).wf(),
            h.id == old(self).tasks@.len(),
            final(self).tasks@.len() == old(self).tasks@.len() + 1,
            final(self).tasks@[h.id as int].work == work,
            final(self).tasks@[h.id as int].state == TaskState::Pending,
            final(self).tasks@[h.id as int].spawned_at == old(self).now,
            forall|i: int|
                0 <= i < old(self).tasks@.len() ==> final(self).tasks@[i] == old(self).tasks@[i],
            final(self).now == old(self).now,
            final(self).timers@ == old(self).timers@,
            final(self).pool.busy@ == old(self).pool.busy@,
            final(self).pool.queue@ == old(self).pool.queue@,
            final(self).pool.capacity == old(self).pool.capacity,
            final(self).ready@ == old(self).ready@.push(
                ReadyEntry { task: h.id, reason: WakeReason::Spawned },
            ),
    {
        let id = self.tasks.len();
        let t = Task {
            id,
            work,
            state: TaskState::Pending,
            spawned_at: self.now,
            finished_at: self.now,
            slot: None,
        };
        self.tasks.push(t);
        self.ready.push(ReadyEntry { task: id, reason: WakeReason::Spawned });
        proof {
            let post = *self;
            let pre = *old(self);
            assert forall|i: int| 0 <= i < post.tasks@.len() implies post.task_ok(i) by {
                if i < pre.tasks@.len() {
                    assert(pre.task_ok(i));
                    assert(post.tasks@[i] == pre.tasks@[i]);
                    assert(pre.has_ready(i) ==> post.has_ready(i)) by {
                        if pre.has_ready(i) {
                            let j = choose|j: int|
                                0 <= j < pre.ready@.len() && pre.ready@[j].task == i;
                            assert(post.ready@[j].task == i);
                        }
                    }
                    assert(post.has_ready(i) ==> pre.has_ready(i)) by {
                        if post.has_ready(i) {
                            let j = choose|j: int|
                                0 <= j < post.ready@.len() && post.ready@[j].task == i;
                            assert(j < pre.ready@.len());
                        }
                    }
                } else {
                    assert(post.ready@[post.ready@.len() - 1].task == i);
                    assert(post.has_ready(i));
                }
            }
        }
        TaskHandle { id }
    }

    /// One scheduler tick: pops the head of the readiness queue and resumes
    /// that task. The task's own state field is the source of truth for what
    /// the resumption does: a pending task starts its work (completing at
    /// once, or suspending on a timer or on the offload pool), a suspended
    /// task's awaited condition has been delivered, so it completes with the
    /// value or the stored job result. Within the tick the task runs to its
    /// next suspension point without interruption. At most the woken task
    /// changes, and if it reached a terminal state, that state is the
    /// outcome of its own work.
    fn step_ready(&mut self)
        requires
            old(self).wf(),
            old(self).ready@.len() > 0,
        ensures
            final(self).wf(),
            final(self).now == old(self).now,
            same_tasks_core(*old(self), *final(self)),
            final(self).measure() < old(self).measure(),
            old(self).advance_marked() ==> final(self).advance_marked(),
            forall|i: int|
                0 <= i < old(self).tasks@.len() && i != old(self).ready@[0].task as int
                    ==> final(self).tasks@[i] == old(self).tasks@[i],
            forall|i: int|
                0 <= i < old(self).tasks@.len() && !is_terminal(old(self).tasks@[i].state)
                    && is_terminal(final(self).tasks@[i].state)
                    ==> final(self).tasks@[i].state == work_outcome(old(self).tasks@[i].work)
                        && final(self).tasks@[i].finished_at == final(self).now,
    {
        let ghost pre = *old(self);
        proof {
            assert(pre.task_ok(pre.ready@[0].task as int));
        }
        let e = self.ready.remove(0);
        let w = e.task;
        let ghost wi = w as int;
        let t = self.tasks[w];
        match t.state {
            TaskState::Pending => match t.work {
                Work::Produce(v) => {
                    self.tasks.set(
                        w,
                        Task { state: TaskState::Completed(v), finished_at: self.now, ..t },
                    );
                },
                Work::Raise(c) => {
                    self.tasks.set(
                        w,
                        Task { state: TaskState::Failed(c), finished_at: self.now, ..t },
                    );
                },
                Work::Sleep(d, _v) => {
                    let dl = sat_add(t.spawned_at, d);
                    self.timers.push(TimerEntry { task: w, deadline: dl });
                    self.tasks.set(w, Task { state: TaskState::Suspended, ..t });
                    proof {
                        lemma_sat_add_ge(t.spawned_at, d);
                        assert(self.timers@.drop_last() =~= pre.timers@);
                    }
                },
                Work::Offload(job) => {
                    if self.pool.busy.len() < self.pool.capacity {
                        let f = sat_add(self.now, job.cost);
                        self.pool.busy.push(BusyJob { task: w, job, finish: f });
                        proof {
                            lemma_sat_add_ge(self.now, job.cost);
                            assert(self.pool.busy@.drop_last() =~= pre.pool.busy@);
                        }
                    } else {
                        self.pool.queue.push(QueuedJob { task: w, job });
                        proof {
                            assert(self.pool.queue@.drop_last() =~= pre.pool.queue@);
                        }
                    }
                    self.tasks.set(w, Task { state: TaskState::Suspended, ..t });
                },
            },
            TaskState::Suspended => match t.work {
                Work::Sleep(_d, v) => {
                    self.tasks.set(
                        w,
                        Task { state: TaskState::Completed(v), finished_at: self.now, ..t },
                    );
                },
                Work::Offload(job) => {
                    proof {
                        lemma_job_outcome_terminal(job);
                    }
                    match t.slot {
                        Some(TaskResult::Value(v)) => {
                            self.tasks.set(w, Task { state: TaskState::Completed(v), ..t });
                        },
                        Some(TaskResult::TaskFailed(c)) => {
                            self.tasks.set(w, Task { state: TaskState::Failed(c), ..t });
                        },
                        _ => {
                            // the pool writes the slot before posting readiness,
                            // and never writes a cancellation
                            proof {
                                assert(false);
                            }
                        },
                    }
                },
                _ => {
                    // immediate work never suspends
                    proof {
                        assert(false);
                    }
                },
            },
            _ => {
                // A duplicate or stale wake would be a no-op; under the
                // invariant a terminal task holds no readiness entry.
                proof {
                    assert(pre.has_ready(wi));
                    assert(false);
                }
            },
        }
        proof {
            let post = *self;
            assert(post.ready@ == pre.ready@.remove(0));
            lemma_frame(pre, post, wi);
            assert forall|i: int|
                0 <= i < post.tasks@.len() && i != wi implies post.task_ok(i) by {
                assert(pre.task_ok(i));
                assert(post.tasks@[i] == pre.tasks@[i]);
            }
            let tpre = pre.tasks@[wi];
            match tpre.state {
                TaskState::Pending => match tpre.work {
                    Work::Sleep(d, _v) => {
                        let dl = sat_add_spec(tpre.spawned_at, d);
                        assert(post.timers@[post.timers@.len() - 1].task == wi);
                        assert(post.has_timer(wi));
                        assert forall|j: int|
                            0 <= j < post.timers@.len() && post.timers@[j].task == wi implies post.timers@[j].deadline
                            == dl by {
                            if j < pre.timers@.len() {
                                assert(pre.timers@[j].task == wi);
                                assert(pre.has_timer(wi));
                            }
                        }
                        assert(post.timer_at(wi, dl));
                    },
                    Work::Offload(jb) => {
                        if post.pool.busy@ != pre.pool.busy@ {
                            assert(post.pool.busy@[post.pool.busy@.len() - 1].task == wi);
                            assert(post.in_busy(wi));
                            assert forall|j: int|
                                0 <= j < post.pool.busy@.len() && post.pool.busy@[j].task == wi implies post.pool.busy@[j].job
                                == jb by {
                                if j < pre.pool.busy@.len() {
                                    assert(pre.pool.busy@[j].task == wi);
                                    assert(pre.in_busy(wi));
                                }
                            }
                            assert(post.busy_at(wi, jb));
                            assert(!post.in_queue(wi));
                        } else {
                            assert(post.pool.queue@[post.pool.queue@.len() - 1].task == wi);
                            assert(post.in_queue(wi));
                            assert(!post.in_busy(wi));
                            assert forall|j: int|
                                0 <= j < post.pool.queue@.len() && post.pool.queue@[j].task == wi implies post.pool.queue@[j].job
                                == jb by {
                                if j < pre.pool.queue@.len() {
                                    assert(pre.pool.queue@[j].task == wi);
                                    assert(pre.in_queue(wi));
                                }
                            }
                            assert(post.queue_at(wi, jb));
                        }
                    },
                    _ => {},
                },
                _ => {},
            }
            assert(post.task_ok(wi));
            assert(post.wf());
            lemma_tasks_weight_update(pre.tasks@, wi, post.tasks@[wi]);
            assert(post.measure() < pre.measure());
            if pre.advance_marked() {
                if exists|i: int|
                    0 <= i < pre.tasks@.len() && pre.tasks@[i].finished_at == pre.now {
                    let i = choose|i: int|
                        0 <= i < pre.tasks@.len() && pre.tasks@[i].finished_at == pre.now;
                    assert(post.tasks@[i].finished_at == post.now);
                } else {
                    let i = choose|i: int|
                        0 <= i < pre.tasks@.len() && pre.tasks@[i].state is Cancelled;
                    assert(post.tasks@[i].state is Cancelled);
                }
            }
        }
    }

    /// With the readiness queue drained, moves the virtual clock to the
    /// earliest pending event and delivers it: an elapsed timer posts a
    /// `TimerFired` readiness entry for its task; a finished worker executes
    /// its job exactly once, writes the result slot before posting
    /// `OffloadDone`, hands the freed worker the queue's head, and discards
    /// without effect an outcome whose task was cancelled while the job ran.
    /// No deadline ever fires early and no task's state changes here.
    fn advance(&mut self)
        requires
            old(self).wf(),
            old(self).ready@.len() == 0,
            old(self).timers@.len() > 0 || old(self).pool.busy@.len() > 0,
        ensures
            final(self).wf(),
            same_tasks_core(*old(self), *final(self)),
            forall|i: int|
                0 <= i < old(self).tasks@.len()
                    ==> final(self).tasks@[i].state == old(self).tasks@[i].state,
            final(self).now >= old(self).now,
            final(self).measure() < old(self).measure(),
            final(self).advance_marked(),
    {
        let ghost pre = *old(self);
        let has_t = self.timers.len() > 0;
        let has_b = self.pool.busy.len() > 0;
        let ti = if has_t {
            self.min_timer_idx()
        } else {
            0
        };
        let bi = if has_b {
            self.min_busy_idx()
        } else {
            0
        };
        let fire_timer = if has_t && has_b {
            self.timers[ti].deadline <= self.pool.busy[bi].finish
        } else {
            has_t
        };
        if fire_timer {
            let entry = self.timers.remove(ti);
            self.now = entry.deadline;
            let x = entry.task;
            let ghost xi = x as int;
            proof {
                assert(pre.has_timer(xi));
                assert(pre.task_ok(xi));
            }
            let t = self.tasks[x];
            self.tasks.set(x, Task { finished_at: self.now, ..t });
            self.ready.push(ReadyEntry { task: x, reason: WakeReason::TimerFired });
            proof {
                let post = *self;
                assert(post.timers@ == pre.timers@.remove(ti as int));
                assert(forall|j: int| 0 <= j < ti ==> post.timers@[j] == pre.timers@[j]);
                assert(forall|j: int|
                    ti <= j < post.timers@.len() ==> post.timers@[j] == pre.timers@[j + 1]);
                assert(!post.has_timer(xi)) by {
                    if post.has_timer(xi) {
                        let j = choose|j: int|
                            0 <= j < post.timers@.len() && post.timers@[j].task == xi;
                        if j < ti {
                            assert(pre.timers@[j].task == xi);
                        } else {
                            assert(pre.timers@[j + 1].task == xi);
                        }
                    }
                }
                assert forall|i: int| i != xi && pre.has_timer(i) implies post.has_timer(i) by {
                    let j = choose|j: int|
                        0 <= j < pre.timers@.len() && pre.timers@[j].task == i;
                    if j < ti {
                        assert(post.timers@[j].task == i);
                    } else {
                        assert(post.timers@[j - 1].task == i);
                    }
                }
                assert forall|i: int| i != xi && post.has_timer(i) implies pre.has_timer(i) by {
                    let j = choose|j: int|
                        0 <= j < post.timers@.len() && post.timers@[j].task == i;
                    if j < ti {
                        assert(pre.timers@[j].task == i);
                    } else {
                        assert(pre.timers@[j + 1].task == i);
                    }
                }
                assert forall|i: int, dl: u64| i != xi && pre.timer_at(i, dl) implies post.timer_at(
                    i,
                    dl,
                ) by {
                    assert forall|j: int|
                        0 <= j < post.timers@.len() && post.timers@[j].task == i implies post.timers@[j].deadline
                        == dl by {
                        if j < ti {
                            assert(pre.timers@[j].task == i);
                        } else {
                            assert(pre.timers@[j + 1].task == i);
                        }
                    }
                }
                assert forall|j: int, k: int|
                    0 <= j < k < post.timers@.len() implies post.timers@[j].task
                    != post.timers@[k].task by {
                    let j2 = if j < ti {
                        j
                    } else {
                        j + 1
                    };
                    let k2 = if k < ti {
                        k
                    } else {
                        k + 1
                    };
                    assert(pre.timers@[j2].task != pre.timers@[k2].task);
                }
                assert(post.has_ready(xi)) by {
                    assert(post.ready@[0].task == xi);
                }
                assert forall|i: int| i != xi implies !post.has_ready(i) by {
                    if post.has_ready(i) {
                        let j = choose|j: int|
                            0 <= j < post.ready@.len() && post.ready@[j].task == i;
                        assert(j == 0);
                    }
                }
                assert(post.now == pre.timers@[ti as int].deadline);
                assert forall|i: int|
                    0 <= i < post.tasks@.len() && i != xi implies post.task_ok(i) by {
                    assert(pre.task_ok(i));
                    assert(post.tasks@[i] == pre.tasks@[i]);
                    assert(!pre.has_ready(i));
                    if pre.has_timer(i) {
                        let j = choose|j: int|
                            0 <= j < pre.timers@.len() && pre.timers@[j].task == i;
                        assert(pre.timers@[j].deadline >= pre.timers@[ti as int].deadline);
                    }
                }
                assert(post.task_ok(xi)) by {
                    assert(pre.timer_at(xi, sat_add_spec(pre.tasks@[xi].spawned_at, pre.tasks@[xi].work->Sleep_0)));
                }
                assert(post.wf()) by {
                    assert forall|j: int|
                        0 <= j < post.timers@.len() implies (post.timers@[j].task as int)
                        < post.tasks@.len() && post.timers@[j].deadline >= post.now by {
                        let j2 = if j < ti {
                            j
                        } else {
                            j + 1
                        };
                        assert(pre.timers@[j2] == post.timers@[j]);
                        assert(pre.timers@[j2].deadline >= pre.timers@[ti as int].deadline);
                    }
                    assert forall|j: int|
                        0 <= j < post.pool.busy@.len() implies post.pool.busy@[j].finish
                        >= post.now by {
                        assert(pre.pool.busy@[j].finish >= pre.pool.busy@[bi as int].finish);
                    }
                }
                lemma_tasks_weight_update(pre.tasks@, xi, post.tasks@[xi]);
                assert(post.measure() < pre.measure());
                assert(post.tasks@[xi].finished_at == post.now);
            }
        } else {
            let b = self.pool.busy.remove(bi);
            self.now = b.finish;
            let x = b.task;
            let ghost xi = x as int;
            proof {
                assert(pre.in_busy(xi)) by {
                    assert(pre.pool.busy@[bi as int].task == xi);
                }
                assert(pre.task_ok(xi));
            }
            let res = run_job(b.job);
            let t = self.tasks[x];
            match t.state {
                TaskState::Suspended => {
                    self.tasks.set(x, Task { slot: Some(res), finished_at: self.now, ..t });
                    self.ready.push(ReadyEntry { task: x, reason: WakeReason::OffloadDone });
                },
                _ => {
                    proof {
                        assert(pre.tasks@[xi].state is Cancelled);
                    }
                },
            }
            if self.pool.queue.len() > 0 {
                let q = self.pool.queue.remove(0);
                let nf = sat_add(self.now, q.job.cost);
                proof {
                    lemma_sat_add_ge(self.now, q.job.cost);
                    assert(pre.task_ok(q.task as int));
                }
                self.pool.busy.push(BusyJob { task: q.task, job: q.job, finish: nf });
            }
            proof {
                let post = *self;
                let mid = pre.pool.busy@.remove(bi as int);
                assert(forall|j: int| 0 <= j < bi ==> mid[j] == pre.pool.busy@[j]);
                assert(forall|j: int| bi <= j < mid.len() ==> mid[j] == pre.pool.busy@[j + 1]);
                let refilled = pre.pool.queue@.len() > 0;
                let qt: int = if refilled {
                    pre.pool.queue@[0].task as int
                } else {
                    xi
                };
                if refilled {
                    assert(post.pool.busy@.drop_last() =~= mid);
                    assert(post.pool.busy@ =~= mid.push(post.pool.busy@.last()));
                } else {
                    assert(post.pool.busy@ == mid);
                }
                assert(refilled ==> qt != xi) by {
                    if refilled {
                        assert(pre.pool.queue@[0].task == qt);
                        assert(0 <= qt < pre.tasks@.len());
                        assert(pre.in_queue(qt));
                        assert(pre.task_ok(qt));
                        if qt == xi {
                            assert(pre.pool.busy@[bi as int].task == qt);
                            assert(pre.in_busy(qt));
                            assert(pre.tasks@[qt].state is Suspended);
                            assert(!pre.in_queue(qt));
                            assert(false);
                        }
                    }
                }
                // busy membership after remove and optional push
                assert(!post.in_busy(xi)) by {
                    if post.in_busy(xi) {
                        let j = choose|j: int|
                            0 <= j < post.pool.busy@.len() && post.pool.busy@[j].task == xi;
                        if j < mid.len() {
                            let j2 = if j < bi {
                                j
                            } else {
                                j + 1
                            };
                            assert(pre.pool.busy@[j2].task == xi);
                            assert(j2 != bi);
                        }
                    }
                }
                assert forall|i: int| i != xi && i != qt && pre.in_busy(i) implies post.in_busy(
                    i,
                ) by {
                    let j = choose|j: int|
                        0 <= j < pre.pool.busy@.len() && pre.pool.busy@[j].task == i;
                    if j < bi {
                        assert(post.pool.busy@[j].task == i);
                    } else {
                        assert(post.pool.busy@[j - 1].task == i);
                    }
                }
                assert forall|i: int| i != xi && i != qt && post.in_busy(i) implies pre.in_busy(
                    i,
                ) by {
                    let j = choose|j: int|
                        0 <= j < post.pool.busy@.len() && post.pool.busy@[j].task == i;
                    assert(j < mid.len());
                    let j2 = if j < bi {
                        j
                    } else {
                        j + 1
                    };
                    assert(pre.pool.busy@[j2].task == i);
                }
                assert forall|i: int, jb: Job| i != xi && i != qt && pre.busy_at(i, jb)
                    implies post.busy_at(i, jb) by {
                    assert forall|j: int|
                        0 <= j < post.pool.busy@.len() && post.pool.busy@[j].task == i
                        implies post.pool.busy@[j].job == jb by {
                        assert(j < mid.len());
                        let j2 = if j < bi {
                            j
                        } else {
                            j + 1
                        };
                        assert(pre.pool.busy@[j2].task == i && pre.pool.busy@[j2].job
                            == post.pool.busy@[j].job);
                    }
                }
                if refilled {
                    assert(post.in_busy(qt)) by {
                        assert(post.pool.busy@.last().task == qt);
                    }
                    assert(pre.queue_at(qt, pre.pool.queue@[0].job));
                    assert forall|j: int|
                        0 <= j < post.pool.busy@.len() && post.pool.busy@[j].task == qt
                        implies post.pool.busy@[j].job == pre.pool.queue@[0].job by {
                        if j < mid.len() {
                            let j2 = if j < bi {
                                j
                            } else {
                                j + 1
                            };
                            assert(pre.pool.busy@[j2].task == qt);
                            assert(pre.in_busy(qt));
                            assert(pre.task_ok(qt));
                        }
                    }
                    assert(post.busy_at(qt, pre.pool.queue@[0].job));
                    // queue shrinks at the head
                    assert(post.pool.queue@ == pre.pool.queue@.remove(0));
                    assert(forall|j: int|
                        0 <= j < post.pool.queue@.len() ==> post.pool.queue@[j]
                            == pre.pool.queue@[j + 1]);
                    assert(!post.in_queue(qt)) by {
                        if post.in_queue(qt) {
                            let j = choose|j: int|
                                0 <= j < post.pool.queue@.len() && post.pool.queue@[j].task == qt;
                            assert(pre.pool.queue@[j + 1].task == qt);
                        }
                    }
                    assert forall|i: int| i != qt && pre.in_queue(i) implies post.in_queue(i) by {
                        let j = choose|j: int|
                            0 <= j < pre.pool.queue@.len() && pre.pool.queue@[j].task == i;
                        assert(j != 0);
                        assert(post.pool.queue@[j - 1].task == i);
                    }
                    assert forall|i: int| i != qt && post.in_queue(i) implies pre.in_queue(i) by {
                        let j = choose|j: int|
                            0 <= j < post.pool.queue@.len() && post.pool.queue@[j].task == i;
                        assert(pre.pool.queue@[j + 1].task == i);
                    }
                    assert forall|i: int, jb: Job| i != qt && pre.queue_at(i, jb)
                        implies post.queue_at(i, jb) by {
                        assert forall|j: int|
                            0 <= j < post.pool.queue@.len() && post.pool.queue@[j].task == i
                            implies post.pool.queue@[j].job == jb by {
                            assert(pre.pool.queue@[j + 1].task == i && pre.pool.queue@[j + 1].job
                                == post.pool.queue@[j].job);
                        }
                    }
                    assert forall|j: int, k: int|
                        0 <= j < k < post.pool.queue@.len() implies post.pool.queue@[j].task
                        != post.pool.queue@[k].task by {
                        assert(pre.pool.queue@[j + 1].task != pre.pool.queue@[k + 1].task);
                    }
                } else {
                    assert(post.pool.queue@ == pre.pool.queue@);
                }
                // busy distinctness
                assert forall|j: int, k: int|
                    0 <= j < k < post.pool.busy@.len() implies post.pool.busy@[j].task
                    != post.pool.busy@[k].task by {
                    if k < mid.len() {
                        let j2 = if j < bi {
                            j
                        } else {
                            j + 1
                        };
                        let k2 = if k < bi {
                            k
                        } else {
                            k + 1
                        };
                        assert(pre.pool.busy@[j2].task != pre.pool.busy@[k2].task);
                    } else {
                        assert(post.pool.busy@[k].task == qt);
                        if post.pool.busy@[j].task as int == qt {
                            let j2 = if j < bi {
                                j
                            } else {
                                j + 1
                            };
                            assert(pre.pool.busy@[j2].task == qt);
                            assert(pre.in_busy(qt));
                            assert(pre.task_ok(qt));
                        }
                    }
                }
                // readiness queue: empty before, at most one entry now
                let woke = !(pre.tasks@[xi].state is Cancelled);
                assert forall|i: int| i != xi implies !post.has_ready(i) by {
                    if post.has_ready(i) {
                        let j = choose|j: int|
                            0 <= j < post.ready@.len() && post.ready@[j].task == i;
                        assert(post.ready@[j].task == x);
                    }
                }
                assert(post.now == pre.pool.busy@[bi as int].finish);
                assert forall|j: int|
                    0 <= j < post.timers@.len() implies post.timers@[j].deadline >= post.now by {
                    if has_t {
                        assert(post.timers@[j].deadline >= pre.timers@[ti as int].deadline);
                        assert(pre.timers@[ti as int].deadline > pre.pool.busy@[bi as int].finish);
                    }
                }
                assert forall|j: int|
                    0 <= j < post.pool.busy@.len() implies post.pool.busy@[j].finish
                    >= post.now by {
                    if j < mid.len() {
                        let j2 = if j < bi {
                            j
                        } else {
                            j + 1
                        };
                        assert(post.pool.busy@[j] == pre.pool.busy@[j2]);
                        assert(pre.pool.busy@[j2].finish >= pre.pool.busy@[bi as int].finish);
                    } else {
                        lemma_sat_add_ge(post.now, post.pool.busy@[j].job.cost);
                    }
                }
                assert forall|i: int|
                    0 <= i < post.tasks@.len() && i != xi implies post.task_ok(i) by {
                    assert(pre.task_ok(i));
                    assert(post.tasks@[i] == pre.tasks@[i]);
                    assert(!pre.has_ready(i));
                    if i == qt && refilled {
                        assert(post.busy_at(qt, pre.pool.queue@[0].job));
                        assert(!post.in_queue(qt));
                        assert(!post.has_ready(qt));
                    }
                }
                if woke {
                    assert(pre.tasks@[xi].state is Suspended);
                    assert(pre.busy_at(xi, pre.tasks@[xi].work->Offload_0));
                    assert(b.job == pre.tasks@[xi].work->Offload_0);
                    assert(post.tasks@[xi].slot == Some(
                        state_result(job_outcome(pre.tasks@[xi].work->Offload_0)),
                    ));
                    assert(post.has_ready(xi)) by {
                        assert(post.ready@[0].task == xi);
                    }
                    assert(!post.in_queue(xi));
                    assert(post.task_ok(xi));
                } else {
                    assert(pre.tasks@[xi].state is Cancelled);
                    assert(post.tasks@[xi] == pre.tasks@[xi]);
                    assert(!post.has_ready(xi));
                    assert(!post.in_queue(xi)) by {
                        if refilled && post.in_queue(xi) {
                            assert(pre.in_queue(xi));
                        }
                    }
                    assert(post.task_ok(xi));
                }
                assert(post.wf());
                if woke {
                    lemma_tasks_weight_update(pre.tasks@, xi, post.tasks@[xi]);
                }
                assert(post.measure() < pre.measure());
                assert(post.advance_marked()) by {
                    if woke {
                        assert(post.tasks@[xi].finished_at == post.now);
                    } else {
                        assert(post.tasks@[xi].state is Cancelled);
                    }
                }
            }
        }
    }

    /// Removes the readiness entry of task `x`, if any. Every other task's
    /// membership is untouched.
    fn remove_ready_entry(&mut self, x: usize)
        requires
            old(self).ready_distinct(),
        ensures
            final(self).tasks@ == old(self).tasks@,
            final(self).timers@ == old(self).timers@,
            final(self).pool.busy@ == old(self).pool.busy@,
            final(self).pool.queue@ == old(self).pool.queue@,
            final(self).pool.capacity == old(self).pool.capacity,
            final(self).now == old(self).now,
            final(self).ready_distinct(),
            !final(self).has_ready(x as int),
            forall|i: int|
                i != x as int ==> (final(self).has_ready(i) <==> old(self).has_ready(i)),
            forall|j: int|
                0 <= j < final(self).ready@.len() ==> old(self).ready@.contains(
                    final(self).ready@[j],
                ),
    {
        let ghost pre = *old(self);
        let mut j: usize = 0;
        let mut found = false;
        let mut idx: usize = 0;
        while j < self.ready.len()
            invariant
                j <= self.ready@.len(),
                found ==> idx < self.ready@.len() && self.ready@[idx as int].task == x,
                !found ==> forall|k: int| 0 <= k < j ==> self.ready@[k].task != x,
            decreases self.ready@.len() - j,
        {
            if self.ready[j].task == x {
                found = true;
                idx = j;
            }
            j += 1;
        }
        if found {
            self.ready.remove(idx);
            proof {
                let post = *self;
                let xi = x as int;
                assert(forall|k: int| 0 <= k < idx ==> post.ready@[k] == pre.ready@[k]);
                assert(forall|k: int|
                    idx <= k < post.ready@.len() ==> post.ready@[k] == pre.ready@[k + 1]);
                assert(!post.has_ready(xi)) by {
                    if post.has_ready(xi) {
                        let k = choose|k: int|
                            0 <= k < post.ready@.len() && post.ready@[k].task == xi;
                        let k2 = if k < idx {
                            k
                        } else {
                            k + 1
                        };
                        assert(pre.ready@[k2].task == xi);
                        assert(k2 != idx);
                    }
                }
                assert forall|i: int| i != xi && pre.has_ready(i) implies post.has_ready(i) by {
                    let k = choose|k: int|
                        0 <= k < pre.ready@.len() && pre.ready@[k].task == i;
                    if k < idx {
                        assert(post.ready@[k].task == i);
                    } else {
                        assert(post.ready@[k - 1].task == i);
                    }
                }
                assert forall|i: int| i != xi && post.has_ready(i) implies pre.has_ready(i) by {
                    let k = choose|k: int|
                        0 <= k < post.ready@.len() && post.ready@[k].task == i;
                    let k2 = if k < idx {
                        k
                    } else {
                        k + 1
                    };
                    assert(pre.ready@[k2].task == i);
                }
                assert forall|k: int, k2: int|
                    0 <= k < k2 < post.ready@.len() implies post.ready@[k].task
                    != post.ready@[k2].task by {
                    let a = if k < idx {
                        k
                    } else {
                        k + 1
                    };
                    let b = if k2 < idx {
                        k2
                    } else {
                        k2 + 1
                    };
                    assert(pre.ready@[a].task != pre.ready@[b].task);
                }
                assert forall|k: int|
                    0 <= k < post.ready@.len() implies pre.ready@.contains(post.ready@[k]) by {
                    let k2 = if k < idx {
                        k
                    } else {
                        k + 1
                    };
                    assert(pre.ready@[k2] == post.ready@[k]);
                }
            }
        }
    }

    /// Removes the pending timer of task `x`, if any: a cancelled timer
    /// leaves the pending set before it can fire.
    fn remove_timer_entry(&mut self, x: usize)
        requires
            old(self).timers_distinct(),
        ensures
            final(self).tasks@ == old(self).tasks@,
            final(self).ready@ == old(self).ready@,
            final(self).pool.busy@ == old(self).pool.busy@,
            final(self).pool.queue@ == old(self).pool.queue@,
            final(self).pool.capacity == old(self).pool.capacity,
            final(self).now == old(self).now,
            final(self).timers_distinct(),
            !final(self).has_timer(x as int),
            forall|i: int|
                i != x as int ==> (final(self).has_timer(i) <==> old(self).has_timer(i)),
            forall|i: int, dl: u64|
                i != x as int && old(self).timer_at(i, dl) ==> final(self).timer_at(i, dl),
            forall|j: int|
                0 <= j < final(self).timers@.len() ==> old(self).timers@.contains(
                    final(self).timers@[j],
                ),
    {
        let ghost pre = *old(self);
        let mut j: usize = 0;
        let mut found = false;
        let mut idx: usize = 0;
        while j < self.timers.len()
            invariant
                j <= self.timers@.len(),
                found ==> idx < self.timers@.len() && self.timers@[idx as int].task == x,
                !found ==> forall|k: int| 0 <= k < j ==> self.timers@[k].task != x,
            decreases self.timers@.len() - j,
        {
            if self.timers[j].task == x {
                found = true;
                idx = j;
            }
            j += 1;
        }
        if found {
            self.timers.remove(idx);
            proof {
                let post = *self;
                let xi = x as int;
                assert(forall|k: int| 0 <= k < idx ==> post.timers@[k] == pre.timers@[k]);
                assert(forall|k: int|
                    idx <= k < post.timers@.len() ==> post.timers@[k] == pre.timers@[k + 1]);
                assert(!post.has_timer(xi)) by {
                    if post.has_timer(xi) {
                        let k = choose|k: int|
                            0 <= k < post.timers@.len() && post.timers@[k].task == xi;
                        let k2 = if k < idx {
                            k
                        } else {
                            k + 1
                        };
                        assert(pre.timers@[k2].task == xi);
                        assert(k2 != idx);
                    }
                }
                assert forall|i: int| i != xi && pre.has_timer(i) implies post.has_timer(i) by {
                    let k = choose|k: int|
                        0 <= k < pre.timers@.len() && pre.timers@[k].task == i;
                    if k < idx {
                        assert(post.timers@[k].task == i);
                    } else {
                        assert(post.timers@[k - 1].task == i);
                    }
                }
                assert forall|i: int| i != xi && post.has_timer(i) implies pre.has_timer(i) by {
                    let k = choose|k: int|
                        0 <= k < post.timers@.len() && post.timers@[k].task == i;
                    let k2 = if k < idx {
                        k
                    } else {
                        k + 1
                    };
                    assert(pre.timers@[k2].task == i);
                }
                assert forall|i: int, dl: u64| i != xi && pre.timer_at(i, dl)
                    implies post.timer_at(i, dl) by {
                    assert forall|k: int|
                        0 <= k < post.timers@.len() && post.timers@[k].task == i
                        implies post.timers@[k].deadline == dl by {
                        let k2 = if k < idx {
                            k
                        } else {
                            k + 1
                        };
                        assert(pre.timers@[k2] == post.timers@[k]);
                    }
                }
                assert forall|k: int, k2: int|
                    0 <= k < k2 < post.timers@.len() implies post.timers@[k].task
                    != post.timers@[k2].task by {
                    let a = if k < idx {
                        k
                    } else {
                        k + 1
                    };
                    let b = if k2 < idx {
                        k2
                    } else {
                        k2 + 1
                    };
                    assert(pre.timers@[a].task != pre.timers@[b].task);
                }
                assert forall|k: int|
                    0 <= k < post.timers@.len() implies pre.timers@.contains(post.timers@[k]) by {
                    let k2 = if k < idx {
                        k
                    } else {
                        k + 1
                    };
                    assert(pre.timers@[k2] == post.timers@[k]);
                }
            }
        }
    }

    /// Removes the queued (not yet started) job of task `x`, if any. A job
    /// already on a worker is left to finish; its outcome is discarded.
    fn remove_queue_entry(&mut self, x: usize)
        requires
            old(self).queue_distinct(),
        ensures
            final(self).tasks@ == old(self).tasks@,
            final(self).ready@ == old(self).ready@,
            final(self).timers@ == old(self).timers@,
            final(self).pool.busy@ == old(self).pool.busy@,
            final(self).pool.capacity == old(self).pool.capacity,
            final(self).now == old(self).now,
            final(self).queue_distinct(),
            !final(self).in_queue(x as int),
            forall|i: int|
                i != x as int ==> (final(self).in_queue(i) <==> old(self).in_queue(i)),
            forall|i: int, jb: Job|
                i != x as int && old(self).queue_at(i, jb) ==> final(self).queue_at(i, jb),
            forall|j: int|
                0 <= j < final(self).pool.queue@.len() ==> old(self).pool.queue@.contains(
                    final(self).pool.queue@[j],
                ),
            final(self).pool.queue@.len() <= old(self).pool.queue@.len(),
    {
        let ghost pre = *old(self);
        let mut j: usize = 0;
        let mut found = false;
        let mut idx: usize = 0;
        while j < self.pool.queue.len()
            invariant
                j <= self.pool.queue@.len(),
                found ==> idx < self.pool.queue@.len() && self.pool.queue@[idx as int].task == x,
                !found ==> forall|k: int| 0 <= k < j ==> self.pool.queue@[k].task != x,
            decreases self.pool.queue@.len() - j,
        {
            if self.pool.queue[j].task == x {
                found = true;
                idx = j;
            }
            j += 1;
        }
        if found {
            self.pool.queue.remove(idx);
            proof {
                let post = *self;
                let xi = x as int;
                assert(forall|k: int| 0 <= k < idx ==> post.pool.queue@[k] == pre.pool.queue@[k]);
                assert(forall|k: int|
                    idx <= k < post.pool.queue@.len() ==> post.pool.queue@[k]
                        == pre.pool.queue@[k + 1]);
                assert(!post.in_queue(xi)) by {
                    if post.in_queue(xi) {
                        let k = choose|k: int|
                            0 <= k < post.pool.queue@.len() && post.pool.queue@[k].task == xi;
                        let k2 = if k < idx {
                            k
                        } else {
                            k + 1
                        };
                        assert(pre.pool.queue@[k2].task == xi);
                        assert(k2 != idx);
                    }
                }
                assert forall|i: int| i != xi && pre.in_queue(i) implies post.in_queue(i) by {
                    let k = choose|k: int|
                        0 <= k < pre.pool.queue@.len() && pre.pool.queue@[k].task == i;
                    if k < idx {
                        assert(post.pool.queue@[k].task == i);
                    } else {
                        assert(post.pool.queue@[k - 1].task == i);
                    }
                }
                assert forall|i: int| i != xi && post.in_queue(i) implies pre.in_queue(i) by {
                    let k = choose|k: int|
                        0 <= k < post.pool.queue@.len() && post.pool.queue@[k].task == i;
                    let k2 = if k < idx {
                        k
                    } else {
                        k + 1
                    };
                    assert(pre.pool.queue@[k2].task == i);
                }
                assert forall|i: int, jb: Job| i != xi && pre.queue_at(i, jb)
                    implies post.queue_at(i, jb) by {
                    assert forall|k: int|
                        0 <= k < post.pool.queue@.len() && post.pool.queue@[k].task == i
                        implies post.pool.queue@[k].job == jb by {
                        let k2 = if k < idx {
                            k
                        } else {
                            k + 1
                        };
                        assert(pre.pool.queue@[k2] == post.pool.queue@[k]);
                    }
                }
                assert forall|k: int, k2: int|
                    0 <= k < k2 < post.pool.queue@.len() implies post.pool.queue@[k].task
                    != post.pool.queue@[k2].task by {
                    let a = if k < idx {
                        k
                    } else {
                        k + 1
                    };
                    let b = if k2 < idx {
                        k2
                    } else {
                        k2 + 1
                    };
                    assert(pre.pool.queue@[a].task != pre.pool.queue@[b].task);
                }
                assert forall|k: int|
                    0 <= k < post.pool.queue@.len() implies pre.pool.queue@.contains(
                    post.pool.queue@[k]) by {
                    let k2 = if k < idx {
                        k
                    } else {
                        k + 1
                    };
                    assert(pre.pool.queue@[k2] == post.pool.queue@[k]);
                }
            }
        }
    }

    /// Issues a cooperative cancellation. A pending or suspended task is at
    /// a suspension point, so it observes the signal now: it unwinds to
    /// `Cancelled`, its timer and any not-yet-started job leave the pending
    /// sets, and its readiness entry is withdrawn, so no spurious later wake
    /// remains. A task already terminal is unaffected; a job already on a
    /// worker runs to completion and its outcome is discarded on delivery.
    pub fn cancel(&mut self, h: TaskHandle)
        requires
            old(self).wf(),
            (h.id as int) < old(self).tasks@.len(),
        ensures
            final(self).wf(),
            same_tasks_core(*old(self), *final(self)),
            final(self).now == old(self).now,
            forall|i: int|
                0 <= i < old(self).tasks@.len() && i != h.id as int ==> final(self).tasks@[i]
                    == old(self).tasks@[i],
            is_terminal(old(self).tasks@[h.id as int].state)
                ==> final(self).tasks@ == old(self).tasks@,
            !is_terminal(old(self).tasks@[h.id as int].state)
                ==> final(self).tasks@[h.id as int].state is Cancelled
                    && final(self).tasks@[h.id as int].finished_at == old(self).now,
    {
        let ghost pre = *old(self);
        let ghost xi = h.id as int;
        let t = self.tasks[h.id];
        match t.state {
            TaskState::Pending | TaskState::Suspended => {
                self.remove_ready_entry(h.id);
                let ghost s1 = *self;
                self.remove_timer_entry(h.id);
                let ghost s2 = *self;
                self.remove_queue_entry(h.id);
                self.tasks.set(
                    h.id,
                    Task { state: TaskState::Cancelled, finished_at: self.now, ..t },
                );
                proof {
                    let post = *self;
                    assert(pre.task_ok(xi));
                    assert(s1.timers@ == pre.timers@);
                    assert(post.timers@ == s2.timers@);
                    assert(s2.pool.queue@ == pre.pool.queue@);
                    assert forall|i: int| i != xi implies (post.has_timer(i) <==> pre.has_timer(
                        i,
                    )) by {
                        if pre.has_timer(i) {
                            let j = choose|j: int|
                                0 <= j < pre.timers@.len() && pre.timers@[j].task == i;
                            assert(s1.timers@[j].task == i);
                            assert(s1.has_timer(i));
                            assert(s2.has_timer(i));
                            let j2 = choose|j2: int|
                                0 <= j2 < s2.timers@.len() && s2.timers@[j2].task == i;
                            assert(post.timers@[j2].task == i);
                        }
                        if post.has_timer(i) {
                            let j = choose|j: int|
                                0 <= j < post.timers@.len() && post.timers@[j].task == i;
                            assert(s2.timers@[j].task == i);
                            assert(s2.has_timer(i));
                            assert(s1.has_timer(i));
                            let j2 = choose|j2: int|
                                0 <= j2 < s1.timers@.len() && s1.timers@[j2].task == i;
                            assert(pre.timers@[j2].task == i);
                        }
                    }
                    assert forall|i: int, dl: u64| i != xi && pre.timer_at(i, dl)
                        implies post.timer_at(i, dl) by {
                        assert forall|j: int|
                            0 <= j < s1.timers@.len() && s1.timers@[j].task == i
                            implies s1.timers@[j].deadline == dl by {
                            assert(pre.timers@[j].task == i);
                        }
                        assert(s1.timer_at(i, dl));
                        assert(s2.timer_at(i, dl));
                        assert forall|j: int|
                            0 <= j < post.timers@.len() && post.timers@[j].task == i
                            implies post.timers@[j].deadline == dl by {
                            assert(s2.timers@[j].task == i);
                        }
                    }
                    assert forall|i: int| i != xi implies (post.in_queue(i) <==> pre.in_queue(
                        i,
                    )) by {
                        if pre.in_queue(i) {
                            let j = choose|j: int|
                                0 <= j < pre.pool.queue@.len() && pre.pool.queue@[j].task == i;
                            assert(s2.pool.queue@[j].task == i);
                            assert(s2.in_queue(i));
                            assert(post.in_queue(i));
                        }
                        if post.in_queue(i) {
                            assert(s2.in_queue(i));
                            let j = choose|j: int|
                                0 <= j < s2.pool.queue@.len() && s2.pool.queue@[j].task == i;
                            assert(pre.pool.queue@[j].task == i);
                        }
                    }
                    assert forall|i: int, jb: Job| i != xi && pre.queue_at(i, jb)
                        implies post.queue_at(i, jb) by {
                        assert forall|j: int|
                            0 <= j < s2.pool.queue@.len() && s2.pool.queue@[j].task == i
                            implies s2.pool.queue@[j].job == jb by {
                            assert(pre.pool.queue@[j].task == i);
                        }
                        assert(s2.queue_at(i, jb));
                        assert(post.queue_at(i, jb));
                    }
                    assert(!post.has_timer(xi)) by {
                        if post.has_timer(xi) {
                            let j = choose|j: int|
                                0 <= j < post.timers@.len() && post.timers@[j].task == xi;
                            assert(s2.timers@[j].task == xi);
                            assert(s2.has_timer(xi));
                        }
                    }
                    assert(!post.has_ready(xi)) by {
                        if post.has_ready(xi) {
                            let j = choose|j: int|
                                0 <= j < post.ready@.len() && post.ready@[j].task == xi;
                            assert(s1.ready@[j].task == xi);
                            assert(s1.has_ready(xi));
                        }
                    }
                    assert forall|i: int|
                        0 <= i < post.tasks@.len() && i != xi implies post.task_ok(i) by {
                        assert(pre.task_ok(i));
                        assert(post.tasks@[i] == pre.tasks@[i]);
                        assert(post.has_ready(i) <==> pre.has_ready(i));
                        assert(post.in_busy(i) <==> pre.in_busy(i));
                        assert(forall|jb: Job| pre.busy_at(i, jb) ==> post.busy_at(i, jb));
                    }
                    assert(post.task_ok(xi));
                    assert forall|j: int|
                        0 <= j < post.ready@.len() implies (post.ready@[j].task as int)
                        < post.tasks@.len() by {
                        assert(pre.ready@.contains(post.ready@[j]));
                        let k = choose|k: int|
                            0 <= k < pre.ready@.len() && pre.ready@[k] == post.ready@[j];
                        assert((pre.ready@[k].task as int) < pre.tasks@.len());
                    }
                    assert forall|j: int|
                        0 <= j < post.timers@.len() implies (post.timers@[j].task as int)
                        < post.tasks@.len() && post.timers@[j].deadline >= post.now by {
                        assert(pre.timers@.contains(post.timers@[j]));
                        let k = choose|k: int|
                            0 <= k < pre.timers@.len() && pre.timers@[k] == post.timers@[j];
                        assert((pre.timers@[k].task as int) < pre.tasks@.len());
                        assert(pre.timers@[k].deadline >= pre.now);
                    }
                    assert forall|j: int|
                        0 <= j < post.pool.queue@.len() implies (post.pool.queue@[j].task as int)
                        < post.tasks@.len() by {
                        assert(pre.pool.queue@.contains(post.pool.queue@[j]));
                        let k = choose|k: int|
                            0 <= k < pre.pool.queue@.len() && pre.pool.queue@[k]
                                == post.pool.queue@[j];
                        assert((pre.pool.queue@[k].task as int) < pre.tasks@.len());
                    }
                    assert(post.wf());
                }
            },
            _ => {
                proof {
                    assert(pre.task_ok(xi));
                    assert(is_terminal(pre.tasks@[xi].state));
                }
            },
        }
    }

    /// The scheduler loop: drains the readiness queue, advancing the virtual
    /// clock to the next deadline or worker finish whenever the queue is
    /// empty, until no entry, timer or job remains. On return every task is
    /// terminal, an uncancelled task holds the outcome of its own work, and
    /// the clock either never moved or stopped exactly on some task's wake
    /// or cancellation instant.
    pub fn run(&mut self)
        requires
            old(self).wf(),
        ensures
            final(self).wf(),
            run_post(*old(self), *final(self)),
    {
        let ghost start = *old(self);
        loop
            invariant
                self.wf(),
                same_tasks_core(start, *self),
                self.now >= start.now,
                self.now == start.now || self.advance_marked(),
                forall|i: int|
                    0 <= i < self.tasks@.len() && self.tasks@[i].state is Cancelled
                        ==> start.tasks@[i].state is Cancelled,
            ensures
                self.ready@.len() == 0,
                self.timers@.len() == 0,
                self.pool.busy@.len() == 0,
            decreases self.measure(),
        {
            let ghost mid = *self;
            if self.ready.len() > 0 {
                self.step_ready();
            } else if self.timers.len() > 0 || self.pool.busy.len() > 0 {
                self.advance();
            } else {
                break;
            }
            proof {
                lemma_same_tasks_core_trans(start, mid, *self);
                assert forall|i: int|
                    0 <= i < self.tasks@.len() && self.tasks@[i].state is Cancelled
                    implies start.tasks@[i].state is Cancelled by {
                    if !(mid.tasks@[i].state is Cancelled) {
                        if is_terminal(mid.tasks@[i].state) {
                            assert(self.tasks@[i] == mid.tasks@[i]);
                        } else {
                            lemma_work_outcome_terminal(mid.tasks@[i].work);
                        }
                    }
                }
            }
        }
        proof {
            assert(self.pool.queue@.len() == 0);
            assert forall|i: int|
                0 <= i < self.tasks@.len() implies is_terminal(self.tasks@[i].state) by {
                assert(self.task_ok(i));
            }
        }
    }

    /// Blocks the calling context (never a worker thread) until the task is
    /// terminal and returns its stored result. Retrieval is idempotent: on a
    /// task that is already terminal this re-runs nothing, changes no task,
    /// and returns the identical stored result every time.
    pub fn await_result(&mut self, h: TaskHandle) -> (r: TaskResult)
        requires
            old(self).wf(),
            (h.id as int) < old(self).tasks@.len(),
        ensures
            final(self).wf(),
            run_post(*old(self), *final(self)),
            is_terminal(final(self).tasks@[h.id as int].state),
            r == state_result(final(self).tasks@[h.id as int].state),
            is_terminal(old(self).tasks@[h.id as int].state) ==> final(self).tasks@[h.id as int]
                == old(self).tasks@[h.id as int] && r == state_result(
                old(self).tasks@[h.id as int].state,
            ),
    {
        self.run();
        let t = self.tasks[h.id];
        state_to_result(t.state)
    }

    /// The first listed handle whose task is terminal, in list order: the
    /// documented tie-break when several complete in the same tick.
    fn first_terminal_handle(&self, handles: &Vec<TaskHandle>) -> (r: Option<usize>)
        requires
            forall|k: int|
                0 <= k < handles@.len() ==> (handles@[k].id as int) < self.tasks@.len(),
        ensures
            match r {
                Some(k) => {
                    &&& (k as int) < handles@.len()
                    &&& is_terminal(self.tasks@[handles@[k as int].id as int].state)
                    &&& forall|k2: int|
                        0 <= k2 < k as int ==> !is_terminal(
                            self.tasks@[handles@[k2].id as int].state,
                        )
                },
                None => forall|k: int|
                    0 <= k < handles@.len() ==> !is_terminal(
                        self.tasks@[handles@[k].id as int].state,
                    ),
            },
    {
        let mut k: usize = 0;
        while k < handles.len()
            invariant
                k <= handles@.len(),
                forall|k2: int|
                    0 <= k2 < handles@.len() ==> (handles@[k2].id as int) < self.tasks@.len(),
                forall|k2: int|
                    0 <= k2 < k ==> !is_terminal(self.tasks@[handles@[k2].id as int].state),
            decreases handles@.len() - k,
        {
            let st = self.tasks[handles[k].id].state;
            match st {
                TaskState::Completed(_v) => {
                    return Some(k);
                },
                TaskState::Failed(_e) => {
                    return Some(k);
                },
                TaskState::Cancelled => {
                    return Some(k);
                },
                _ => {},
            }
            k += 1;
        }
        None
    }

    /// Races the listed tasks: runs the scheduler until the first of them
    /// reaches a terminal state, reports its index and result, and issues a
    /// cooperative cancellation to every other listed task. Ties within one
    /// tick are broken by list order. A losing task that had not finished is
    /// left `Cancelled` with no readiness entry, timer or queued job behind,
    /// and a losing sleeper's own wake instant could not have preceded the
    /// winner's finish.
    pub fn race(&mut self, handles: &Vec<TaskHandle>) -> (res: (usize, TaskResult))
        requires
            old(self).wf(),
            handles@.len() >= 1,
            forall|k: int|
                0 <= k < handles@.len() ==> (handles@[k].id as int) < old(self).tasks@.len(),
        ensures
            final(self).wf(),
            race_post(*old(self), *final(self), handles@, res.0 as int, res.1),
    {
        let ghost pre = *old(self);
        let mut winner: usize = 0;
        loop
            invariant
                self.wf(),
                same_tasks_core(pre, *self),
                self.now >= pre.now,
                handles@.len() >= 1,
                forall|k: int|
                    0 <= k < handles@.len() ==> (handles@[k].id as int) < self.tasks@.len(),
                forall|k1: int, k2: int|
                    0 <= k1 < handles@.len() && 0 <= k2 < handles@.len() && !is_terminal(
                        pre.tasks@[handles@[k1].id as int].state,
                    ) && is_terminal(self.tasks@[handles@[k1].id as int].state) && !is_terminal(
                        pre.tasks@[handles@[k2].id as int].state,
                    ) && is_terminal(self.tasks@[handles@[k2].id as int].state)
                        ==> handles@[k1].id == handles@[k2].id,
                (exists|k: int|
                    0 <= k < handles@.len() && is_terminal(
                        pre.tasks@[handles@[k].id as int].state,
                    )) ==> forall|i: int|
                    0 <= i < self.tasks@.len() ==> self.tasks@[i] == pre.tasks@[i],
                forall|i: int|
                    0 <= i < self.tasks@.len() && self.tasks@[i].state is Cancelled
                        ==> pre.tasks@[i].state is Cancelled,
                forall|k: int|
                    0 <= k < handles@.len() && !is_terminal(
                        pre.tasks@[handles@[k].id as int].state,
                    ) && is_terminal(self.tasks@[handles@[k].id as int].state)
                        ==> self.tasks@[handles@[k].id as int].finished_at == self.now,
            ensures
                self.wf(),
                same_tasks_core(pre, *self),
                self.now >= pre.now,
                (winner as int) < handles@.len(),
                is_terminal(self.tasks@[handles@[winner as int].id as int].state),
                !is_terminal(pre.tasks@[handles@[winner as int].id as int].state)
                    ==> self.tasks@[handles@[winner as int].id as int].state == work_outcome(
                    pre.tasks@[handles@[winner as int].id as int].work,
                ) && self.now == self.tasks@[handles@[winner as int].id as int].finished_at,
                forall|k: int|
                    0 <= k < handles@.len() && k != winner as int
                        && handles@[k].id != handles@[winner as int].id
                        && !is_terminal(pre.tasks@[handles@[k].id as int].state)
                        ==> !is_terminal(self.tasks@[handles@[k].id as int].state),
                forall|k: int|
                    0 <= k < winner as int ==> !is_terminal(
                        pre.tasks@[handles@[k].id as int].state,
                    ),
            decreases self.measure(),
        {
            let ghost mid = *self;
            match self.first_terminal_handle(handles) {
                Some(k) => {
                    winner = k;
                    proof {
                        let wid = handles@[k as int].id as int;
                        assert forall|k2: int| 0 <= k2 < k as int implies !is_terminal(
                            pre.tasks@[handles@[k2].id as int].state) by {
                            if is_terminal(pre.tasks@[handles@[k2].id as int].state) {
                                assert(self.tasks@[handles@[k2].id as int]
                                    == pre.tasks@[handles@[k2].id as int]);
                            }
                        }
                        if !is_terminal(pre.tasks@[wid].state) {
                            assert(self.task_ok(wid));
                            assert(!(self.tasks@[wid].state is Cancelled));
                            assert(self.tasks@[wid].work == pre.tasks@[wid].work);
                            assert(self.tasks@[wid].state == work_outcome(pre.tasks@[wid].work));
                        } else {
                            assert(forall|i: int|
                                0 <= i < self.tasks@.len() ==> self.tasks@[i] == pre.tasks@[i]);
                        }
                    }
                    break ;
                },
                None => {
                    if self.ready.len() > 0 {
                        self.step_ready();
                    } else if self.timers.len() > 0 || self.pool.busy.len() > 0 {
                        self.advance();
                    } else {
                        proof {
                            assert(self.pool.queue@.len() == 0);
                            let h0 = handles@[0].id as int;
                            assert(self.task_ok(h0));
                            assert(is_terminal(self.tasks@[h0].state));
                            assert(false);
                        }
                        break ;
                    }
                    proof {
                        lemma_same_tasks_core_trans(pre, mid, *self);
                        assert forall|i: int|
                            0 <= i < self.tasks@.len() && self.tasks@[i].state is Cancelled
                            implies pre.tasks@[i].state is Cancelled by {
                            if !(mid.tasks@[i].state is Cancelled) {
                                if is_terminal(mid.tasks@[i].state) {
                                    assert(self.tasks@[i] == mid.tasks@[i]);
                                } else {
                                    lemma_work_outcome_terminal(mid.tasks@[i].work);
                                }
                            }
                        }
                    }
                },
            }
        }
        let ghost brk = *self;
        let wid = handles[winner].id;
        proof {
            assert forall|k: int|
                0 <= k < handles@.len() && k != winner as int && handles@[k].id != wid
                    && !is_terminal(pre.tasks@[handles@[k].id as int].state)
                    && pre.tasks@[handles@[k].id as int].work is Sleep implies work_finish_time(
                pre.tasks@[handles@[k].id as int].work,
                pre.tasks@[handles@[k].id as int].spawned_at,
            ) >= brk.tasks@[wid as int].finished_at by {
                let li = handles@[k].id as int;
                assert(brk.task_ok(li));
                assert(brk.task_ok(wid as int));
                let lw = brk.tasks@[li].work;
                let sp = brk.tasks@[li].spawned_at;
                lemma_sat_add_ge(sp, lw->Sleep_0);
                if brk.tasks@[li].state is Suspended {
                    if brk.has_timer(li) {
                        let j = choose|j: int|
                            0 <= j < brk.timers@.len() && brk.timers@[j].task == li;
                        assert(brk.timers@[j].deadline == sat_add_spec(sp, lw->Sleep_0));
                        assert(brk.timers@[j].deadline >= brk.now);
                    }
                } else {
                    assert(brk.tasks@[li].state is Pending);
                }
            }
        }
        let mut k: usize = 0;
        while k < handles.len()
            invariant
                self.wf(),
                same_tasks_core(brk, *self),
                self.now == brk.now,
                k <= handles@.len(),
                (winner as int) < handles@.len(),
                wid == handles@[winner as int].id,
                forall|k2: int|
                    0 <= k2 < handles@.len() ==> (handles@[k2].id as int) < self.tasks@.len(),
                self.tasks@[wid as int] == brk.tasks@[wid as int],
                is_terminal(brk.tasks@[wid as int].state),
                forall|k2: int|
                    0 <= k2 < k && k2 != winner as int && handles@[k2].id != wid && !is_terminal(
                        pre.tasks@[handles@[k2].id as int].state,
                    ) ==> self.tasks@[handles@[k2].id as int].state is Cancelled,
                forall|k2: int|
                    k <= k2 < handles@.len() && k2 != winner as int && handles@[k2].id != wid
                        && !is_terminal(pre.tasks@[handles@[k2].id as int].state) ==> (
                    self.tasks@[handles@[k2].id as int].state is Cancelled || !is_terminal(
                        self.tasks@[handles@[k2].id as int].state,
                    )),
            decreases handles@.len() - k,
        {
            let ghost mid = *self;
            if k != winner {
                let hk = handles[k];
                if hk.id != wid {
                    self.cancel(hk);
                }
            }
            proof {
                lemma_same_tasks_core_trans(brk, mid, *self);
            }
            k += 1;
        }
        let t = self.tasks[wid];
        let r = state_to_result(t.state);
        proof {
            lemma_same_tasks_core_trans(pre, brk, *self);
        }
        (winner, r)
    }

    /// Runs the scheduler until every listed task is terminal and collects
    /// their results in input order, regardless of completion order. All
    /// failures are surfaced to the caller rather than swallowed: position
    /// `k` of the output is exactly the terminal result of `handles[k]`.
    pub fn join_all(&mut self, handles: &Vec<TaskHandle>) -> (results: Vec<TaskResult>)
        requires
            old(self).wf(),
            forall|k: int|
                0 <= k < handles@.len() ==> (handles@[k].id as int) < old(self).tasks@.len(),
        ensures
            final(self).wf(),
            run_post(*old(self), *final(self)),
            results@.len() == handles@.len(),
            forall|k: int|
                0 <= k < handles@.len() ==> results@[k] == state_result(
                    final(self).tasks@[handles@[k].id as int].state,
                ),
            results@ == join_results(final(self).tasks@, handles@),
    {
        self.run();
        let mut results: Vec<TaskResult> = Vec::new();
        let mut k: usize = 0;
        while k < handles.len()
            invariant
                self.wf(),
                forall|k2: int|
                    0 <= k2 < handles@.len() ==> (handles@[k2].id as int) < self.tasks@.len(),
                forall|i: int| 0 <= i < self.tasks@.len() ==> is_terminal(self.tasks@[i].state),
                k <= handles@.len(),
                results@.len() == k,
                forall|k2: int|
                    0 <= k2 < k ==> results@[k2] == state_result(
                        self.tasks@[handles@[k2].id as int].state,
                    ),
            decreases handles@.len() - k,
        {
            let h = handles[k];
            let t = self.tasks[h.id];
            results.push(state_to_result(t.state));
            k += 1;
        }
        proof {
            assert(results@ =~= join_results(self.tasks@, handles@));
        }
        results
    }

    /// `after(duration)`: a handle whose condition is satisfied once the
    /// duration has elapsed from registration — a timer task that completes
    /// with value zero at its deadline.
    pub fn after(&mut self, duration: u64) -> (h: TaskHandle)
        requires
            old(self).wf(),
            old(self).tasks@.len() < usize::MAX,
        ensures
            final(self).wf(),
            h.id == old(self).tasks@.len(),
            final(self).tasks@.len() == old(self).tasks@.len() + 1,
            final(self).tasks@[h.id as int].work == Work::Sleep(duration, 0),
            final(self).tasks@[h.id as int].state == TaskState::Pending,
            final(self).tasks@[h.id as int].spawned_at == old(self).now,
            forall|i: int|
                0 <= i < old(self).tasks@.len() ==> final(self).tasks@[i] == old(self).tasks@[i],
            final(self).now == old(self).now,
    {
        self.spawn(Work::Sleep(duration, 0))
    }

    /// Submits a blocking job to the offload pool, via a task that suspends
    /// while a worker runs the job; the caller awaits the handle exactly as
    /// for any other task.
    pub fn offload(&mut self, job: Job) -> (h: TaskHandle)
        requires
            old(self).wf(),
            old(self).tasks@.len() < usize::MAX,
        ensures
            final(self).wf(),
            h.id == old(self).tasks@.len(),
            final(self).tasks@.len() == old(self).tasks@.len() + 1,
            final(self).tasks@[h.id as int].work == Work::Offload(job),
            final(self).tasks@[h.id as int].state == TaskState::Pending,
            final(self).tasks@[h.id as int].spawned_at == old(self).now,
            forall|i: int|
                0 <= i < old(self).tasks@.len() ==> final(self).tasks@[i] == old(self).tasks@[i],
            final(self).now == old(self).now,
    {
        self.spawn(Work::Offload(job))
    }

    /// Races the task against a fresh timer: the task's result if it
    /// finishes within the window, `TimedOut` otherwise. Timeout semantics
    /// are implemented entirely by this race; there is no separate interrupt
    /// mechanism. On timeout the task is cooperatively cancelled, so a
    /// sleeping task's own wake could not have preceded the deadline, and
    /// anything it would later produce is discarded.
    pub fn select_with_timeout(&mut self, h: TaskHandle, duration: u64) -> (res: SelectOutcome)
        requires
            old(self).wf(),
            (h.id as int) < old(self).tasks@.len(),
            old(self).tasks@.len() < usize::MAX,
        ensures
            final(self).wf(),
            final(self).tasks@.len() == old(self).tasks@.len() + 1,
            final(self).now >= old(self).now,
            forall|i: int|
                0 <= i < old(self).tasks@.len() && is_terminal(old(self).tasks@[i].state)
                    ==> final(self).tasks@[i] == old(self).tasks@[i],
            match res {
                SelectOutcome::Done(r) => {
                    &&& is_terminal(final(self).tasks@[h.id as int].state)
                    &&& r == state_result(final(self).tasks@[h.id as int].state)
                    &&& !is_terminal(old(self).tasks@[h.id as int].state)
                        ==> final(self).tasks@[h.id as int].state
                            == work_outcome(old(self).tasks@[h.id as int].work)
                    &&& final(self).tasks@[old(self).tasks@.len() as int].state is Cancelled
                },
                SelectOutcome::TimedOut => {
                    &&& !is_terminal(old(self).tasks@[h.id as int].state)
                    &&& final(self).tasks@[h.id as int].state is Cancelled
                    &&& final(self).tasks@[old(self).tasks@.len() as int].state
                        == TaskState::Completed(0)
                    &&& final(self).tasks@[old(self).tasks@.len() as int].finished_at
                        == sat_add_spec(old(self).now, duration)
                    &&& final(self).now == sat_add_spec(old(self).now, duration)
                    &&& old(self).tasks@[h.id as int].work is Sleep ==> work_finish_time(
                        old(self).tasks@[h.id as int].work,
                        old(self).tasks@[h.id as int].spawned_at,
                    ) >= sat_add_spec(old(self).now, duration)
                },
            },
    {
        let ghost pre = *old(self);
        let timer = self.spawn(Work::Sleep(duration, 0));
        let ghost mid = *self;
        let mut hs: Vec<TaskHandle> = Vec::new();
        hs.push(h);
        hs.push(timer);
        let (w, r) = self.race(&hs);
        proof {
            assert(hs@[0] == h);
            assert(hs@[1] == timer);
            assert(timer.id == pre.tasks@.len());
            assert(mid.tasks@[h.id as int] == pre.tasks@[h.id as int]);
            assert(mid.tasks@[timer.id as int].state == TaskState::Pending);
            assert(!is_terminal(TaskState::Pending));
        }
        if w == 0 {
            SelectOutcome::Done(r)
        } else {
            proof {
                assert(w == 1);
                assert(!is_terminal(mid.tasks@[hs@[0].id as int].state));
                let ti = timer.id as int;
                assert(is_terminal(self.tasks@[ti].state));
                assert(!(self.tasks@[ti].state is Cancelled) ==> self.tasks@[ti].state
                    == work_outcome(mid.tasks@[ti].work));
                assert(self.task_ok(ti));
                assert(self.tasks@[ti].state == TaskState::Completed(0));
                assert(self.tasks@[ti].finished_at == sat_add_spec(
                    mid.tasks@[ti].spawned_at,
                    duration,
                ));
            }
            SelectOutcome::TimedOut
        }
    }

    /// Stops the executor: every task not yet terminal is abandoned as
    /// `Cancelled`, and all outstanding readiness entries, timers and pool
    /// work are dropped. Already-terminal tasks keep their results.
    pub fn shutdown(&mut self)
        requires
            old(self).wf(),
        ensures
            final(self).wf(),
            same_tasks_core(*old(self), *final(self)),
            final(self).now == old(self).now,
            final(self).ready@.len() == 0,
            final(self).timers@.len() == 0,
            final(self).pool.busy@.len() == 0,
            final(self).pool.queue@.len() == 0,
            forall|i: int| 0 <= i < final(self).tasks@.len() ==> is_terminal(
                final(self).tasks@[i].state,
            ),
            forall|i: int|
                0 <= i < old(self).tasks@.len() && !is_terminal(old(self).tasks@[i].state)
                    ==> final(self).tasks@[i].state is Cancelled,
    {
        let ghost pre = *old(self);
        let mut i: usize = 0;
        while i < self.tasks.len()
            invariant
                pre.wf(),
                i <= self.tasks@.len(),
                self.tasks@.len() == pre.tasks@.len(),
                self.now == pre.now,
                self.ready@ == pre.ready@,
                self.timers@ == pre.timers@,
                self.pool.busy@ == pre.pool.busy@,
                self.pool.queue@ == pre.pool.queue@,
                self.pool.capacity == pre.pool.capacity,
                forall|j: int| i <= j < self.tasks@.len() ==> self.tasks@[j] == pre.tasks@[j],
                forall|j: int|
                    0 <= j < i && is_terminal(pre.tasks@[j].state) ==> self.tasks@[j]
                        == pre.tasks@[j],
                forall|j: int|
                    0 <= j < i && !is_terminal(pre.tasks@[j].state) ==> self.tasks@[j] == (
                    Task {
                        state: TaskState::Cancelled,
                        finished_at: pre.now,
                        ..pre.tasks@[j]
                    }),
                forall|j: int| 0 <= j < i ==> is_terminal(self.tasks@[j].state),
            decreases self.tasks@.len() - i,
        {
            let t = self.tasks[i];
            match t.state {
                TaskState::Pending | TaskState::Suspended => {
                    self.tasks.set(
                        i,
                        Task { state: TaskState::Cancelled, finished_at: self.now, ..t },
                    );
                },
                _ => {
                    proof {
                        assert(pre.task_ok(i as int));
                        assert(is_terminal(t.state));
                    }
                },
            }
            i += 1;
        }
        self.ready.clear();
        self.timers.clear();
        self.pool.busy.clear();
        self.pool.queue.clear();
        proof {
            let post = *self;
            assert forall|i2: int| 0 <= i2 < post.tasks@.len() implies post.task_ok(i2) by {
                assert(pre.task_ok(i2));
            }
            assert(post.wf());
        }
    }
}

impl Executor {
    /// Index of the earliest pending timer; equal deadlines are broken by
    /// ascending task identifier, so firing order is deterministic.
    fn min_timer_idx(&self) -> (r: usize)
        requires
            self.timers@.len() > 0,
        ensures
            r < self.timers@.len(),
            forall|j: int|
                0 <= j < self.timers@.len()
                    ==> self.timers@[j].deadline >= self.timers@[r as int].deadline,
    {
        let mut best: usize = 0;
        let mut j: usize = 1;
        while j < self.timers.len()
            invariant
                1 <= j <= self.timers@.len(),
                best < j,
                forall|k: int|
                    0 <= k < j ==> self.timers@[k].deadline >= self.timers@[best as int].deadline,
            decreases self.timers@.len() - j,
        {
            let cand = self.timers[j];
            let cur = self.timers[best];
            if cand.deadline < cur.deadline || (cand.deadline == cur.deadline && cand.task
                < cur.task) {
                best = j;
            }
            j += 1;
        }
        best
    }

    /// Index of the earliest finishing busy job; ties broken by ascending
    /// task identifier.
    fn min_busy_idx(&self) -> (r: usize)
        requires
            self.pool.busy@.len() > 0,
        ensures
            r < self.pool.busy@.len(),
            forall|j: int|
                0 <= j < self.pool.busy@.len()
                    ==> self.pool.busy@[j].finish >= self.pool.busy@[r as int].finish,
    {
        let mut best: usize = 0;
        let mut j: usize = 1;
        while j < self.pool.busy.len()
            invariant
                1 <= j <= self.pool.busy@.len(),
                best < j,
                forall|k: int|
                    0 <= k < j
                        ==> self.pool.busy@[k].finish >= self.pool.busy@[best as int].finish,
            decreases self.pool.busy@.len() - j,
        {
            let cand = self.pool.busy[j];
            let cur = self.pool.busy[best];
            if cand.finish < cur.finish || (cand.finish == cur.finish && cand.task < cur.task) {
                best = j;
            }
            j += 1;
        }
        best
    }
}

/// After popping the head readiness entry (for task `w`) and appending at
/// most one entry for `w` to the timers, the busy set or the queue, every
/// other task sees exactly the memberships it saw before, and all
/// distinctness is kept.
pub proof fn lemma_frame(pre: Executor, post: Executor, w: int)
    requires
        pre.ready@.len() > 0,
        pre.ready@[0].task as int == w,
        post.ready@ == pre.ready@.remove(0),
        pre.ready_distinct(),
        pre.timers_distinct(),
        pre.busy_distinct(),
        pre.queue_distinct(),
        post.timers@ == pre.timers@ || (post.timers@.len() == pre.timers@.len() + 1
            && post.timers@.subrange(0, pre.timers@.len() as int) == pre.timers@
            && post.timers@[pre.timers@.len() as int].task as int == w && !pre.has_timer(w)),
        post.pool.busy@ == pre.pool.busy@ || (post.pool.busy@.len() == pre.pool.busy@.len() + 1
            && post.pool.busy@.subrange(0, pre.pool.busy@.len() as int) == pre.pool.busy@
            && post.pool.busy@[pre.pool.busy@.len() as int].task as int == w && !pre.in_busy(w)),
        post.pool.queue@ == pre.pool.queue@ || (post.pool.queue@.len() == pre.pool.queue@.len()
            + 1 && post.pool.queue@.subrange(0, pre.pool.queue@.len() as int) == pre.pool.queue@
            && post.pool.queue@[pre.pool.queue@.len() as int].task as int == w && !pre.in_queue(
            w,
        )),
    ensures
        !post.has_ready(w),
        forall|i: int| i != w ==> (post.has_ready(i) <==> pre.has_ready(i)),
        post.ready_distinct(),
        post.timers_distinct(),
        post.busy_distinct(),
        post.queue_distinct(),
        forall|i: int| i != w ==> (post.has_timer(i) <==> pre.has_timer(i)),
        forall|i: int, dl: u64| i != w && pre.timer_at(i, dl) ==> post.timer_at(i, dl),
        forall|i: int| i != w ==> (post.in_busy(i) <==> pre.in_busy(i)),
        forall|i: int, jb: Job| i != w && pre.busy_at(i, jb) ==> post.busy_at(i, jb),
        forall|i: int| i != w ==> (post.in_queue(i) <==> pre.in_queue(i)),
        forall|i: int, jb: Job| i != w && pre.queue_at(i, jb) ==> post.queue_at(i, jb),
{
    assert(post.ready@.len() == pre.ready@.len() - 1);
    assert(forall|j: int|
        0 <= j < post.ready@.len() ==> post.ready@[j] == pre.ready@[j + 1]);
    assert(!post.has_ready(w)) by {
        if post.has_ready(w) {
            let j = choose|j: int| 0 <= j < post.ready@.len() && post.ready@[j].task == w;
            assert(pre.ready@[j + 1].task == w);
            assert(pre.ready@[0].task == pre.ready@[j + 1].task);
        }
    }
    assert forall|i: int| i != w && pre.has_ready(i) implies post.has_ready(i) by {
        let j = choose|j: int| 0 <= j < pre.ready@.len() && pre.ready@[j].task == i;
        assert(j != 0);
        assert(post.ready@[j - 1].task == i);
    }
    assert forall|i: int| i != w && post.has_ready(i) implies pre.has_ready(i) by {
        let j = choose|j: int| 0 <= j < post.ready@.len() && post.ready@[j].task == i;
        assert(pre.ready@[j + 1].task == i);
    }
    if post.timers@ != pre.timers@ {
        assert forall|i: int| i != w && post.has_timer(i) implies pre.has_timer(i) by {
            let j = choose|j: int| 0 <= j < post.timers@.len() && post.timers@[j].task == i;
            assert(j < pre.timers@.len());
            assert(pre.timers@[j].task == i);
        }
        assert forall|i: int| i != w && pre.has_timer(i) implies post.has_timer(i) by {
            let j = choose|j: int| 0 <= j < pre.timers@.len() && pre.timers@[j].task == i;
            assert(post.timers@[j].task == i);
        }
        assert forall|i: int, dl: u64| i != w && pre.timer_at(i, dl) implies post.timer_at(
            i,
            dl,
        ) by {
            assert forall|j: int|
                0 <= j < post.timers@.len() && post.timers@[j].task == i implies post.timers@[j].deadline
                == dl by {
                assert(j < pre.timers@.len());
                assert(pre.timers@[j] == post.timers@[j]);
            }
        }
        assert forall|j: int, k: int| 0 <= j < k < post.timers@.len() implies post.timers@[j].task
            != post.timers@[k].task by {
            if k < pre.timers@.len() {
                assert(pre.timers@[j].task != pre.timers@[k].task);
            } else {
                assert(post.timers@[k].task as int == w);
                if post.timers@[j].task as int == w {
                    assert(pre.timers@[j].task as int == w);
                    assert(pre.has_timer(w));
                }
            }
        }
    }
    if post.pool.busy@ != pre.pool.busy@ {
        assert forall|i: int| i != w && post.in_busy(i) implies pre.in_busy(i) by {
            let j = choose|j: int|
                0 <= j < post.pool.busy@.len() && post.pool.busy@[j].task == i;
            assert(j < pre.pool.busy@.len());
            assert(pre.pool.busy@[j].task == i);
        }
        assert forall|i: int| i != w && pre.in_busy(i) implies post.in_busy(i) by {
            let j = choose|j: int| 0 <= j < pre.pool.busy@.len() && pre.pool.busy@[j].task == i;
            assert(post.pool.busy@[j].task == i);
        }
        assert forall|i: int, jb: Job| i != w && pre.busy_at(i, jb) implies post.busy_at(
            i,
            jb,
        ) by {
            assert forall|j: int|
                0 <= j < post.pool.busy@.len() && post.pool.busy@[j].task == i implies post.pool.busy@[j].job
                == jb by {
                assert(j < pre.pool.busy@.len());
                assert(pre.pool.busy@[j] == post.pool.busy@[j]);
            }
        }
        assert forall|j: int, k: int|
            0 <= j < k < post.pool.busy@.len() implies post.pool.busy@[j].task
            != post.pool.busy@[k].task by {
            if k < pre.pool.busy@.len() {
                assert(pre.pool.busy@[j].task != pre.pool.busy@[k].task);
            } else {
                assert(post.pool.busy@[k].task as int == w);
                if post.pool.busy@[j].task as int == w {
                    assert(pre.pool.busy@[j].task as int == w);
                    assert(pre.in_busy(w));
                }
            }
        }
    }
    if post.pool.queue@ != pre.pool.queue@ {
        assert forall|i: int| i != w && post.in_queue(i) implies pre.in_queue(i) by {
            let j = choose|j: int|
                0 <= j < post.pool.queue@.len() && post.pool.queue@[j].task == i;
            assert(j < pre.pool.queue@.len());
            assert(pre.pool.queue@[j].task == i);
        }
        assert forall|i: int| i != w && pre.in_queue(i) implies post.in_queue(i) by {
            let j = choose|j: int|
                0 <= j < pre.pool.queue@.len() && pre.pool.queue@[j].task == i;
            assert(post.pool.queue@[j].task == i);
        }
        assert forall|i: int, jb: Job| i != w && pre.queue_at(i, jb) implies post.queue_at(
            i,
            jb,
        ) by {
            assert forall|j: int|
                0 <= j < post.pool.queue@.len() && post.pool.queue@[j].task == i implies post.pool.queue@[j].job
                == jb by {
                assert(j < pre.pool.queue@.len());
                assert(pre.pool.queue@[j] == post.pool.queue@[j]);
            }
        }
        assert forall|j: int, k: int|
            0 <= j < k < post.pool.queue@.len() implies post.pool.queue@[j].task
            != post.pool.queue@[k].task by {
            if k < pre.pool.queue@.len() {
                assert(pre.pool.queue@[j].task != pre.pool.queue@[k].task);
            } else {
                assert(post.pool.queue@[k].task as int == w);
                if post.pool.queue@[j].task as int == w {
                    assert(pre.pool.queue@[j].task as int == w);
                    assert(pre.in_queue(w));
                }
            }
        }
    }
}

} // verus!
