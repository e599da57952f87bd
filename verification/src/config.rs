//! Kernel-wide limits.
use vstd::prelude::*;

verus! {

/// Number of distinct system-call ids that are counted per task.
pub const MAX_SYSCALL_NUM: usize = 500;

/// Size of a virtual-memory page in bytes.
pub const PAGE_SIZE: usize = 4096;

} // verus!
