//! Blocking, CPU-bound jobs for the offload pool.
//!
//! The pool executes a job's computation on a worker; which computation runs
//! is picked by the job's kind, and `cost` is the virtual time the worker
//! spends on it. A job that raises is captured as a failed result and never
//! brings down a worker or the scheduler.

use vstd::prelude::*;

use crate::task::{state_result, TaskResult, TaskState};

verus! {

/// Cause code reported when a job's arithmetic would overflow its result.
pub const ERR_JOB_OVERFLOW: u64 = 1;

/// The computation a worker performs for a job.
#[derive(Clone, Copy, PartialEq, Eq, Structural, Debug)]
pub enum JobKind {
    /// Produce the value as-is.
    Produce(u64),
    /// Square the operand.
    Square(u64),
    /// The naive recursive Fibonacci number of the operand.
    Fib(u64),
    /// Raise an error with the given cause code.
    Raise(u64),
}

/// A blocking work item for the offload pool.
#[derive(Clone, Copy, PartialEq, Eq, Structural, Debug)]
pub struct Job {
    pub kind: JobKind,
    /// Virtual time a worker spends executing the job.
    pub cost: u64,
}

/// The Fibonacci sequence.
pub open spec fn fib_spec(n: nat) -> nat
    decreases n,
{
    if n == 0 {
        0
    } else if n == 1 {
        1
    } else {
        fib_spec((n - 1) as nat) + fib_spec((n - 2) as nat)
    }
}

/// The result a worker delivers for a job: a function of the job alone.
/// Arithmetic that would overflow a `u64` is reported as a failure rather
/// than computed wrongly or panicking.
pub open spec fn job_outcome(j: Job) -> TaskState {
    match j.kind {
        JobKind::Produce(v) => TaskState::Completed(v),
        JobKind::Square(n) => if n <= 0xffff_ffffu64 {
            TaskState::Completed((n * n) as u64)
        } else {
            TaskState::Failed(ERR_JOB_OVERFLOW)
        },
        JobKind::Fib(n) => if n <= 93 {
            TaskState::Completed(fib_spec(n as nat) as u64)
        } else {
            TaskState::Failed(ERR_JOB_OVERFLOW)
        },
        JobKind::Raise(c) => TaskState::Failed(c),
    }
}

/// A worker always delivers a completed or a failed result, never a
/// cancellation: cancellation is the scheduler's transition, not a job's.
pub proof fn lemma_job_outcome_terminal(j: Job)
    ensures
        job_outcome(j) is Completed || job_outcome(j) is Failed,
{
}

/// The Fibonacci sequence is monotone.
pub proof fn lemma_fib_mono(i: nat, j: nat)
    requires
        i <= j,
    ensures
        fib_spec(i) <= fib_spec(j),
    decreases j - i,
{
    if i < j {
        lemma_fib_mono(i, (j - 1) as nat);
        if j >= 2 {
            assert(fib_spec(j) == fib_spec((j - 1) as nat) + fib_spec((j - 2) as nat));
        } else {
            assert(fib_spec(0) == 0);
            assert(fib_spec(1) == 1);
        }
    }
}

/// The largest Fibonacci number that fits in a `u64` is the 93rd, pinned
/// here by unfolding the recurrence value by value.
pub proof fn lemma_fib_93()
    ensures
        fib_spec(93) == 12200160415121876738,
{
    assert(fib_spec(0) == 0);
    assert(fib_spec(1) == 1);
        assert(fib_spec(2) == 1);
        assert(fib_spec(3) == 2);
        assert(fib_spec(4) == 3);
        assert(fib_spec(5) == 5);
        assert(fib_spec(6) == 8);
        assert(fib_spec(7) == 13);
        assert(fib_spec(8) == 21);
        assert(fib_spec(9) == 34);
        assert(fib_spec(10) == 55);
        assert(fib_spec(11) == 89);
        assert(fib_spec(12) == 144);
        assert(fib_spec(13) == 233);
        assert(fib_spec(14) == 377);
        assert(fib_spec(15) == 610);
        assert(fib_spec(16) == 987);
        assert(fib_spec(17) == 1597);
        assert(fib_spec(18) == 2584);
        assert(fib_spec(19) == 4181);
        assert(fib_spec(20) == 6765);
        assert(fib_spec(21) == 10946);
        assert(fib_spec(22) == 17711);
        assert(fib_spec(23) == 28657);
        assert(fib_spec(24) == 46368);
        assert(fib_spec(25) == 75025);
        assert(fib_spec(26) == 121393);
        assert(fib_spec(27) == 196418);
        assert(fib_spec(28) == 317811);
        assert(fib_spec(29) == 514229);
        assert(fib_spec(30) == 832040);
        assert(fib_spec(31) == 1346269);
        assert(fib_spec(32) == 2178309);
        assert(fib_spec(33) == 3524578);
        assert(fib_spec(34) == 5702887);
        assert(fib_spec(35) == 9227465);
        assert(fib_spec(36) == 14930352);
        assert(fib_spec(37) == 24157817);
        assert(fib_spec(38) == 39088169);
        assert(fib_spec(39) == 63245986);
        assert(fib_spec(40) == 102334155);
        assert(fib_spec(41) == 165580141);
        assert(fib_spec(42) == 267914296);
        assert(fib_spec(43) == 433494437);
        assert(fib_spec(44) == 701408733);
        assert(fib_spec(45) == 1134903170);
        assert(fib_spec(46) == 1836311903);
        assert(fib_spec(47) == 2971215073);
        assert(fib_spec(48) == 4807526976);
        assert(fib_spec(49) == 7778742049);
        assert(fib_spec(50) == 12586269025);
        assert(fib_spec(51) == 20365011074);
        assert(fib_spec(52) == 32951280099);
        assert(fib_spec(53) == 53316291173);
        assert(fib_spec(54) == 86267571272);
        assert(fib_spec(55) == 139583862445);
        assert(fib_spec(56) == 225851433717);
        assert(fib_spec(57) == 365435296162);
        assert(fib_spec(58) == 591286729879);
        assert(fib_spec(59) == 956722026041);
        assert(fib_spec(60) == 1548008755920);
        assert(fib_spec(61) == 2504730781961);
        assert(fib_spec(62) == 4052739537881);
        assert(fib_spec(63) == 6557470319842);
        assert(fib_spec(64) == 10610209857723);
        assert(fib_spec(65) == 17167680177565);
        assert(fib_spec(66) == 27777890035288);
        assert(fib_spec(67) == 44945570212853);
        assert(fib_spec(68) == 72723460248141);
        assert(fib_spec(69) == 117669030460994);
        assert(fib_spec(70) == 190392490709135);
        assert(fib_spec(71) == 308061521170129);
        assert(fib_spec(72) == 498454011879264);
        assert(fib_spec(73) == 806515533049393);
        assert(fib_spec(74) == 1304969544928657);
        assert(fib_spec(75) == 2111485077978050);
        assert(fib_spec(76) == 3416454622906707);
        assert(fib_spec(77) == 5527939700884757);
        assert(fib_spec(78) == 8944394323791464);
        assert(fib_spec(79) == 14472334024676221);
        assert(fib_spec(80) == 23416728348467685);
        assert(fib_spec(81) == 37889062373143906);
        assert(fib_spec(82) == 61305790721611591);
        assert(fib_spec(83) == 99194853094755497);
        assert(fib_spec(84) == 160500643816367088);
        assert(fib_spec(85) == 259695496911122585);
        assert(fib_spec(86) == 420196140727489673);
        assert(fib_spec(87) == 679891637638612258);
        assert(fib_spec(88) == 1100087778366101931);
        assert(fib_spec(89) == 1779979416004714189);
        assert(fib_spec(90) == 2880067194370816120);
        assert(fib_spec(91) == 4660046610375530309);
        assert(fib_spec(92) == 7540113804746346429);
        assert(fib_spec(93) == 12200160415121876738);
}

/// The naive doubly-recursive Fibonacci function. Inputs past 93 would
/// overflow a `u64` and are excluded.
pub fn fibonacci(n: u64) -> (r: u64)
    requires
        n <= 93,
    ensures
        r == fib_spec(n as nat),
    decreases n,
{
    if n <= 1 {
        n
    } else {
        let a = fibonacci(n - 1);
        let b = fibonacci(n - 2);
        proof {
            lemma_fib_93();
            lemma_fib_mono(n as nat, 93);
            assert(fib_spec(n as nat) == fib_spec((n - 1) as nat) + fib_spec((n - 2) as nat));
        }
        a + b
    }
}

/// Executes one job to completion on the calling worker, capturing an
/// erroneous job as a failed result instead of panicking.
pub fn run_job(j: Job) -> (r: TaskResult)
    ensures
        r == state_result(job_outcome(j)),
{
    match j.kind {
        JobKind::Produce(v) => TaskResult::Value(v),
        JobKind::Square(n) => {
            if n <= 0xffff_ffffu64 {
                proof {
                    assert(n * n <= 0xffff_ffffu64 * 0xffff_ffffu64) by (nonlinear_arith)
                        requires
                            n <= 0xffff_ffffu64,
                    ;
                }
                TaskResult::Value(n * n)
            } else {
                TaskResult::TaskFailed(ERR_JOB_OVERFLOW)
            }
        },
        JobKind::Fib(n) => {
            if n <= 93 {
                TaskResult::Value(fibonacci(n))
            } else {
                TaskResult::TaskFailed(ERR_JOB_OVERFLOW)
            }
        },
        JobKind::Raise(c) => TaskResult::TaskFailed(c),
    }
}

} // verus!
