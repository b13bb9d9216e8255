//! The ready queue of a small kernel and its stride scheduler, with the
//! register encoding of the system calls that user programs make.

pub mod schedule;
pub mod task;
pub mod manager;
pub mod order;
pub mod fairness;
pub mod syscall;
