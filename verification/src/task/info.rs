//! Per-task information: status, how often each system call was made, and
//! the time between the task's first system call and its latest one.
use vstd::prelude::*;
use crate::config::MAX_SYSCALL_NUM;
use super::TaskStatus;

verus! {

/// The task info of a task.
#[derive(Copy, Clone)]
pub struct TaskInfo {
    /// The task status in its lifecycle.
    pub status: TaskStatus,
    /// How many times each system call was made, indexed by system-call id.
    pub syscall_times: [u32; MAX_SYSCALL_NUM],
    /// Milliseconds between the first recorded system call and the latest.
    pub time: usize,
    /// Time, in milliseconds, of the first recorded system call.
    pub first_time: Option<usize>,
}

impl TaskInfo {
    /// Info of a task that is running and has made no system call yet.
    pub fn init() -> (info: Self)
        ensures
            info.status == TaskStatus::Running,
            forall|i: int| 0 <= i < MAX_SYSCALL_NUM ==> #[trigger] info.syscall_times[i] == 0,
            info.time == 0,
            info.first_time is None,
    {
        Self {
            status: TaskStatus::Running,
            syscall_times: [0; MAX_SYSCALL_NUM],
            time: 0,
            first_time: None,
        }
    }

    /// Records a call of system call `syscall_id` made at `now_ms`
    /// milliseconds: its count goes up by one; the first recorded call sets
    /// the start time, and `time` becomes the time elapsed since then.
    pub fn syscalled(&mut self, syscall_id: usize, now_ms: usize)
        requires
            syscall_id < MAX_SYSCALL_NUM,
            old(self).syscall_times[syscall_id as int] < u32::MAX,
            old(self).first_time matches Some(first) ==> first <= now_ms,
        ensures
            final(self).status == old(self).status,
            final(self).syscall_times@ == old(self).syscall_times@.update(
                syscall_id as int,
                (old(self).syscall_times[syscall_id as int] + 1) as u32,
            ),
            final(self).first_time == Some(
                match old(self).first_time {
                    Some(first) => first,
                    None => now_ms,
                },
            ),
            final(self).time == now_ms - final(self).first_time->0,
    {
        self.syscall_times[syscall_id] += 1;
        let now = now_ms;
        if let Some(first_time) = self.first_time {
            self.time = now - first_time;
        } else {
            self.first_time = Some(now);
            self.time = 0;
        }
    }
}

/// The task info as handed to a user program.
pub struct TaskInfoToReturn {
    /// Task status.
    pub status: TaskStatus,
    /// System-call counts.
    pub syscall_times: [u32; MAX_SYSCALL_NUM],
    /// Time between the first recorded system call and the latest.
    pub time: usize,
}

} // verus!
