//! A verified model of the process-management core of a small RISC-V
//! teaching kernel: the trap context of a user task, the stride scheduler's
//! ready queue, the task table with its parent/child relation, and the
//! process-management system calls built on them.
use vstd::prelude::*;

pub mod config;
pub mod kernel;
pub mod laws;
pub mod manager;
pub mod mm;
pub mod process;
pub mod task;
pub mod trap_context;
