//! A minimal cooperative task executor with verified scheduling logic.
//!
//! The executor owns a task table, a FIFO readiness queue, a set of pending
//! timers and a bounded offload pool for blocking work, all driven over a
//! deterministic virtual clock. Tasks are explicit resumable state machines;
//! combinators (`join_all`, `race`, `select_with_timeout`) are built on the
//! scheduler loop and carry contracts that pin down every task's terminal
//! result and, for timed work, the exact virtual completion time.

pub mod clock;
pub mod exec;
pub mod jobs;
pub mod laws;
pub mod task;
