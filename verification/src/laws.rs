//! Library-wide laws, stated and proved over the executor's model.

use vstd::prelude::*;

use crate::clock::sat_add_spec;
use crate::exec::{join_results, race_post, run_post, Executor};
use crate::jobs::job_outcome;
use crate::task::{
    is_terminal, state_result, work_finish_time, work_outcome, Task, TaskHandle, TaskResult,
    TaskState, Work,
};

verus! {

/// The handle list with the entries at `a` and `b` exchanged.
pub open spec fn swap_handles(hs: Seq<TaskHandle>, a: int, b: int) -> Seq<TaskHandle> {
    hs.update(a, hs[b]).update(b, hs[a])
}

/// Law: joining sleeping tasks is concurrent, not serial. After the
/// scheduler has drained an executor that held only sleeping tasks, all
/// spawned at instant zero, every task completed with its own value at
/// exactly its own duration, and the clock stands at the maximum of the
/// durations — not at their sum.
pub proof fn lemma_join_all_wall_time(pre: Executor, post: Executor)
    requires
        pre.now == 0,
        pre.tasks@.len() >= 1,
        forall|i: int|
            0 <= i < pre.tasks@.len() ==> pre.tasks@[i].work is Sleep
                && pre.tasks@[i].spawned_at == 0 && !is_terminal(pre.tasks@[i].state),
        post.wf(),
        run_post(pre, post),
    ensures
        forall|i: int|
            0 <= i < post.tasks@.len() ==> post.tasks@[i].state == work_outcome(
                pre.tasks@[i].work,
            ),
        forall|i: int|
            0 <= i < post.tasks@.len() ==> post.tasks@[i].finished_at
                == pre.tasks@[i].work->Sleep_0,
        forall|i: int| 0 <= i < post.tasks@.len() ==> post.tasks@[i].finished_at <= post.now,
        exists|i: int|
            0 <= i < post.tasks@.len() && post.tasks@[i].finished_at == post.now,
{
    assert forall|i: int| 0 <= i < post.tasks@.len() implies post.tasks@[i].state
        == work_outcome(pre.tasks@[i].work) && post.tasks@[i].finished_at
        == pre.tasks@[i].work->Sleep_0 && post.tasks@[i].finished_at <= post.now by {
        assert(post.task_ok(i));
        assert(!(post.tasks@[i].state is Cancelled));
        assert(is_terminal(post.tasks@[i].state));
        assert(post.tasks@[i].work == pre.tasks@[i].work);
        assert(post.tasks@[i].spawned_at == 0);
        let d = pre.tasks@[i].work->Sleep_0;
        assert(sat_add_spec(0, d) == d);
    }
    if post.now == pre.now {
        assert(post.tasks@[0].finished_at <= post.now);
        assert(post.tasks@[0].finished_at >= post.tasks@[0].spawned_at) by {
            assert(post.task_ok(0));
        }
        assert(post.tasks@[0].finished_at == post.now);
    } else {
        assert(post.advance_marked());
        assert(!(exists|i: int|
            0 <= i < post.tasks@.len() && post.tasks@[i].state is Cancelled));
    }
}

/// Law: `join_all` preserves input order. Swapping two handles in the input
/// exchanges only the positions of their two results; each task's own
/// result is unchanged, because a task's terminal result is a function of
/// the task alone, never of its place in the list.
pub proof fn lemma_join_order_swap(tasks: Seq<Task>, hs: Seq<TaskHandle>, a: int, b: int)
    requires
        0 <= a < hs.len(),
        0 <= b < hs.len(),
    ensures
        join_results(tasks, swap_handles(hs, a, b)).len() == join_results(tasks, hs).len(),
        join_results(tasks, swap_handles(hs, a, b))[a] == join_results(tasks, hs)[b],
        join_results(tasks, swap_handles(hs, a, b))[b] == join_results(tasks, hs)[a],
        forall|k: int|
            0 <= k < hs.len() && k != a && k != b ==> join_results(tasks, swap_handles(hs, a, b))[k]
                == join_results(tasks, hs)[k],
{
}

/// Law: a race between a sleeper completing at one instant and a timer
/// firing strictly later reports the sleeper's result, never the timer's,
/// and leaves the timer cancelled.
pub proof fn lemma_race_earlier_sleeper_wins(
    pre: Executor,
    post: Executor,
    hs: Seq<TaskHandle>,
    winner: int,
    result: TaskResult,
)
    requires
        post.wf(),
        race_post(pre, post, hs, winner, result),
        hs.len() == 2,
        hs[0].id != hs[1].id,
        0 <= hs[0].id < pre.tasks@.len(),
        0 <= hs[1].id < pre.tasks@.len(),
        !is_terminal(pre.tasks@[hs[0].id as int].state),
        !is_terminal(pre.tasks@[hs[1].id as int].state),
        pre.tasks@[hs[0].id as int].work is Sleep,
        pre.tasks@[hs[1].id as int].work is Sleep,
        work_finish_time(pre.tasks@[hs[0].id as int].work, pre.tasks@[hs[0].id as int].spawned_at)
            < work_finish_time(
            pre.tasks@[hs[1].id as int].work,
            pre.tasks@[hs[1].id as int].spawned_at,
        ),
    ensures
        winner == 0,
        result == state_result(work_outcome(pre.tasks@[hs[0].id as int].work)),
        post.tasks@[hs[1].id as int].state is Cancelled,
{
    if winner == 1 {
        let wi = hs[1].id as int;
        assert(post.task_ok(wi));
        assert(post.tasks@[wi].state == work_outcome(pre.tasks@[wi].work));
        assert(post.tasks@[wi].state is Completed);
        assert(post.tasks@[wi].finished_at == sat_add_spec(
            post.tasks@[wi].spawned_at,
            post.tasks@[wi].work->Sleep_0,
        ));
        assert(post.tasks@[wi].finished_at == work_finish_time(
            pre.tasks@[wi].work,
            pre.tasks@[wi].spawned_at,
        ));
        assert(work_finish_time(
            pre.tasks@[hs[0].id as int].work,
            pre.tasks@[hs[0].id as int].spawned_at,
        ) >= post.tasks@[wi].finished_at);
        assert(false);
    }
}

/// Law: a cancelled task leaves nothing behind. The losing branch of a race
/// holds no readiness entry, no pending timer and no queued job, so no
/// spurious later wake can reach it.
pub proof fn lemma_cancelled_quiescent(ex: Executor, i: int)
    requires
        ex.wf(),
        0 <= i < ex.tasks@.len(),
        ex.tasks@[i].state is Cancelled,
    ensures
        !ex.has_ready(i),
        !ex.has_timer(i),
        !ex.in_queue(i),
{
    assert(ex.task_ok(i));
}

/// Law: a failing offloaded job is delivered as exactly that task's failure
/// and is contained there: every other uncancelled task still reaches the
/// outcome of its own work, so neither the pool nor the scheduler is harmed
/// and later offloads still succeed.
pub proof fn lemma_offload_failure_isolated(pre: Executor, post: Executor, i: int, j: int)
    requires
        post.wf(),
        run_post(pre, post),
        0 <= i < pre.tasks@.len(),
        0 <= j < pre.tasks@.len(),
        pre.tasks@[i].work is Offload,
        job_outcome(pre.tasks@[i].work->Offload_0) is Failed,
        !is_terminal(pre.tasks@[i].state),
        !is_terminal(pre.tasks@[j].state),
    ensures
        post.tasks@[i].state == job_outcome(pre.tasks@[i].work->Offload_0),
        post.tasks@[j].state == work_outcome(pre.tasks@[j].work),
{
    assert(post.task_ok(i));
    assert(post.task_ok(j));
    assert(!(post.tasks@[i].state is Cancelled));
    assert(!(post.tasks@[j].state is Cancelled));
    assert(post.tasks@[i].work == pre.tasks@[i].work);
    assert(post.tasks@[j].work == pre.tasks@[j].work);
}

/// Law: every task the scheduler drains without a cancellation signal ends
/// in the outcome of its own work — the general completion guarantee behind
/// `join_all` and `await_result`.
pub proof fn lemma_run_outcomes(pre: Executor, post: Executor, i: int)
    requires
        post.wf(),
        run_post(pre, post),
        0 <= i < pre.tasks@.len(),
        !is_terminal(pre.tasks@[i].state),
    ensures
        is_terminal(post.tasks@[i].state),
        post.tasks@[i].state == work_outcome(pre.tasks@[i].work),
{
    assert(post.task_ok(i));
    assert(!(post.tasks@[i].state is Cancelled));
}

} // verus!
