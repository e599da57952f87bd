//! System-call handlers.
use vstd::prelude::*;

pub mod process;
pub mod sync;

verus! {

} // verus!
