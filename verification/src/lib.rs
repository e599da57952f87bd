//! Resource bookkeeping, deadlock detection and per-task accounting of a
//! small teaching kernel, with the system-call entry points that drive them.
use vstd::prelude::*;

pub mod config;
pub mod deadlock;
pub mod syscall;
pub mod task;

verus! {

} // verus!
