//! Tasks: resource limits per process and the information kept per task.
use vstd::prelude::*;

pub mod info;
pub mod memory;
pub mod process;

verus! {

/// Number of distinct resources (mutexes and semaphores share one id space)
/// that the deadlock detector tracks per process.
pub const MAX_NUM_RES: usize = 16;

/// Number of threads per process that the deadlock detector tracks.
pub const MAX_NUM_THREAD: usize = 16;

/// What one thread holds or waits for, per resource id.
pub type ResVector = [usize; MAX_NUM_RES];

/// One `ResVector` per thread id.
pub type ResMatrix = [[usize; MAX_NUM_RES]; MAX_NUM_THREAD];

/// Lifecycle state of a task.
#[derive(Copy, Clone, Debug, PartialEq, Eq)]
pub enum TaskStatus {
    UnInit,
    Ready,
    Running,
    Exited,
}

/// What the scheduler is to do with the task that made a system call.
#[derive(Copy, Clone, Debug, PartialEq, Eq)]
pub enum TaskAction {
    /// End the task with this exit code and run another.
    Exit(i32),
    /// Put the task back among the ready ones and run another.
    Suspend,
    /// Block the task until the clock reaches this many milliseconds, and run
    /// another.
    BlockUntil(usize),
}

} // verus!
