//! The part of a process's state that its synchronisation system calls read
//! and write: the tables of mutexes, semaphores and condition variables, and
//! per resource id what is available, what each thread holds and what each
//! thread waits for.
use vstd::prelude::*;
use vstd::array::spec_array_update;
use crate::deadlock::{all_sel, lemma_held_by_zero, totals_fit, work_after};
use super::{MAX_NUM_RES, MAX_NUM_THREAD, ResMatrix, ResVector};

verus! {

/// How a mutex waits: by spinning (yielding) or by blocking the thread.
#[derive(Clone, Copy, Debug, PartialEq, Eq)]
pub enum MutexKind {
    Spin,
    Blocking,
}

/// A semaphore, with the number of units it was created with.
#[derive(Clone, Copy, Debug, PartialEq, Eq)]
pub struct SemaphoreSlot {
    pub res_count: usize,
}

/// A condition variable.
#[derive(Clone, Copy, Debug, PartialEq, Eq)]
pub struct CondvarSlot {}

/// Synchronisation state of one process.  Mutex ids and semaphore ids both
/// index `available`, `allocation` and `needed`.
pub struct ProcessSync {
    pub mutex_list: Vec<Option<MutexKind>>,
    pub semaphore_list: Vec<Option<SemaphoreSlot>>,
    pub condvar_list: Vec<Option<CondvarSlot>>,
    /// Units of each resource not held by any thread.
    pub available: ResVector,
    /// `allocation[t][r]`: units of resource `r` that thread `t` holds.
    pub allocation: ResMatrix,
    /// `needed[t][r]`: units of resource `r` that thread `t` waits for.
    pub needed: ResMatrix,
    /// Whether requests that would leave the process unsafe are refused.
    pub if_dead_detect: bool,
}

/// Lowest index at or after `k` whose slot is free, or `s.len()` if none is.
pub open spec fn first_free_from<T>(s: Seq<Option<T>>, k: int) -> int
    decreases s.len() - k,
{
    if k >= s.len() {
        s.len() as int
    } else if s[k] is None {
        k
    } else {
        first_free_from(s, k + 1)
    }
}

/// Lowest free index of a table, or its length if every slot is taken.
pub open spec fn first_free_slot<T>(s: Seq<Option<T>>) -> int {
    first_free_from(s, 0)
}

/// The table after putting `v` into slot `id`, which is either a free slot
/// or one past the end.
pub open spec fn place_in_slot<T>(s: Seq<Option<T>>, id: int, v: T) -> Seq<Option<T>> {
    if id < s.len() {
        s.update(id, Some(v))
    } else {
        s.push(Some(v))
    }
}

/// `slot` names a live object of `list`.
pub open spec fn live_slot<T>(list: Seq<Option<T>>, slot: int) -> bool {
    0 <= slot < list.len() && list[slot] is Some
}

/// The matrix with entry `(t, r)` moved by `d`.
pub open spec fn cell_add(m: ResMatrix, t: int, r: int, d: int) -> ResMatrix {
    spec_array_update(m, t, spec_array_update(m[t], r, (m[t][r] + d) as usize))
}

/// Entries of `cell_add`: only `(t, r)` moves.
pub proof fn lemma_cell_add(m: ResMatrix, t: int, r: int, d: int)
    requires
        ids_in_range(t, r),
    ensures
        forall|a: int, b: int|
            ids_in_range(a, b) ==> #[trigger] cell_add(m, t, r, d)[a][b] == if a == t && b == r {
                (m[t][r] + d) as usize
            } else {
                m[a][b]
            },
{
    assert forall|a: int, b: int| ids_in_range(a, b) implies #[trigger] cell_add(m, t, r, d)[a][b]
        == if a == t && b == r {
        (m[t][r] + d) as usize
    } else {
        m[a][b]
    } by {
        let row = spec_array_update(m[t], r, (m[t][r] + d) as usize);
        assert(cell_add(m, t, r, d)@ == m@.update(t, row));
        assert(row@ == m[t]@.update(r, (m[t][r] + d) as usize));
    }
}

/// The vector with entry `r` moved by `d`.
pub open spec fn entry_add(v: ResVector, r: int, d: int) -> ResVector {
    spec_array_update(v, r, (v[r] + d) as usize)
}

/// `s` with entry `r` of `available` set to `units`.
pub open spec fn with_available(s: ProcessSync, r: int, units: usize) -> ProcessSync {
    ProcessSync { available: spec_array_update(s.available, r, units), ..s }
}

/// Creating resource `r` with `units` units sets its available count to
/// exactly `units`, whatever it was before, and changes nothing else.
pub proof fn lemma_with_available(s: ProcessSync, r: int, units: usize)
    requires
        0 <= r < MAX_NUM_RES,
    ensures
        with_available(s, r, units).available[r] == units,
        forall|q: int|
            0 <= q < MAX_NUM_RES && q != r ==> #[trigger] with_available(s, r, units).available[q]
                == s.available[q],
        with_available(s, r, units).allocation == s.allocation,
        with_available(s, r, units).needed == s.needed,
        with_available(s, r, units).mutex_list == s.mutex_list,
        with_available(s, r, units).semaphore_list == s.semaphore_list,
        with_available(s, r, units).condvar_list == s.condvar_list,
        with_available(s, r, units).if_dead_detect == s.if_dead_detect,
{
}

/// Thread `t` starts waiting for one unit of resource `r`.
pub open spec fn requested(s: ProcessSync, t: int, r: int) -> ProcessSync {
    ProcessSync { needed: cell_add(s.needed, t, r, 1), ..s }
}

/// Thread `t`, which waited for a unit of resource `r`, now holds it.
pub open spec fn acquired(s: ProcessSync, t: int, r: int) -> ProcessSync {
    ProcessSync {
        needed: cell_add(s.needed, t, r, -1),
        available: entry_add(s.available, r, -1),
        allocation: cell_add(s.allocation, t, r, 1),
        ..s
    }
}

/// Thread `t` gives back one unit of resource `r`.
pub open spec fn released(s: ProcessSync, t: int, r: int) -> ProcessSync {
    ProcessSync {
        available: entry_add(s.available, r, 1),
        allocation: cell_add(s.allocation, t, r, -1),
        ..s
    }
}

/// Only entry `(t, r)` of `m2` may differ from `m1`.
pub open spec fn same_except(m1: ResMatrix, m2: ResMatrix, t: int, r: int) -> bool {
    forall|a: int, b: int|
        0 <= a < MAX_NUM_THREAD && 0 <= b < MAX_NUM_RES && (a != t || b != r) ==> #[trigger] m2[a][b]
            == m1[a][b]
}

/// Only entry `r` of `v2` may differ from `v1`.
pub open spec fn same_except_entry(v1: ResVector, v2: ResVector, r: int) -> bool {
    forall|b: int| 0 <= b < MAX_NUM_RES && b != r ==> #[trigger] v2[b] == v1[b]
}

/// A request by thread `t` for resource `r` raises what `t` waits for of
/// `r` by one and changes nothing else.
pub proof fn lemma_requested(s: ProcessSync, t: int, r: int)
    requires
        0 <= t < MAX_NUM_THREAD,
        0 <= r < MAX_NUM_RES,
        s.needed[t][r] < usize::MAX,
    ensures
        requested(s, t, r).needed[t][r] == s.needed[t][r] + 1,
        same_except(s.needed, requested(s, t, r).needed, t, r),
        requested(s, t, r).allocation == s.allocation,
        requested(s, t, r).available == s.available,
        requested(s, t, r).mutex_list == s.mutex_list,
        requested(s, t, r).semaphore_list == s.semaphore_list,
        requested(s, t, r).condvar_list == s.condvar_list,
        requested(s, t, r).if_dead_detect == s.if_dead_detect,
{
    lemma_cell_add(s.needed, t, r, 1);
    assert(ids_in_range(t, r));
    assert forall|a: int, b: int|
        0 <= a < MAX_NUM_THREAD && 0 <= b < MAX_NUM_RES && (a != t || b != r) implies #[trigger] requested(
        s,
        t,
        r,
    ).needed[a][b] == s.needed[a][b] by {
        assert(ids_in_range(a, b));
    }
}

/// Thread `t` taking a unit of resource `r` that it waited for: it waits for
/// one unit less, holds one more, one unit less is available, and nothing
/// else changes.
pub proof fn lemma_acquired(s: ProcessSync, t: int, r: int)
    requires
        0 <= t < MAX_NUM_THREAD,
        0 <= r < MAX_NUM_RES,
        s.needed[t][r] > 0,
        s.available[r] > 0,
        s.allocation[t][r] < usize::MAX,
    ensures
        acquired(s, t, r).needed[t][r] == s.needed[t][r] - 1,
        acquired(s, t, r).allocation[t][r] == s.allocation[t][r] + 1,
        acquired(s, t, r).available[r] == s.available[r] - 1,
        same_except(s.needed, acquired(s, t, r).needed, t, r),
        same_except(s.allocation, acquired(s, t, r).allocation, t, r),
        same_except_entry(s.available, acquired(s, t, r).available, r),
        acquired(s, t, r).mutex_list == s.mutex_list,
        acquired(s, t, r).semaphore_list == s.semaphore_list,
        acquired(s, t, r).condvar_list == s.condvar_list,
        acquired(s, t, r).if_dead_detect == s.if_dead_detect,
{
    lemma_cell_add(s.needed, t, r, -1);
    lemma_cell_add(s.allocation, t, r, 1);
    assert(ids_in_range(t, r));
    assert forall|a: int, b: int|
        0 <= a < MAX_NUM_THREAD && 0 <= b < MAX_NUM_RES && (a != t || b != r) implies #[trigger] acquired(
        s,
        t,
        r,
    ).needed[a][b] == s.needed[a][b] && acquired(s, t, r).allocation[a][b] == s.allocation[a][b] by {
        assert(ids_in_range(a, b));
    }
}

/// Thread `t` giving back a unit of resource `r`: it holds one unit less,
/// one unit more is available, and nothing else changes.
pub proof fn lemma_released(s: ProcessSync, t: int, r: int)
    requires
        0 <= t < MAX_NUM_THREAD,
        0 <= r < MAX_NUM_RES,
        s.available[r] < usize::MAX,
        s.allocation[t][r] > 0,
    ensures
        released(s, t, r).allocation[t][r] == s.allocation[t][r] - 1,
        released(s, t, r).available[r] == s.available[r] + 1,
        same_except(s.allocation, released(s, t, r).allocation, t, r),
        same_except_entry(s.available, released(s, t, r).available, r),
        released(s, t, r).needed == s.needed,
        released(s, t, r).mutex_list == s.mutex_list,
        released(s, t, r).semaphore_list == s.semaphore_list,
        released(s, t, r).condvar_list == s.condvar_list,
        released(s, t, r).if_dead_detect == s.if_dead_detect,
{
    lemma_cell_add(s.allocation, t, r, -1);
    assert(ids_in_range(t, r));
    assert forall|a: int, b: int|
        0 <= a < MAX_NUM_THREAD && 0 <= b < MAX_NUM_RES && (a != t || b != r) implies #[trigger] released(
        s,
        t,
        r,
    ).allocation[a][b] == s.allocation[a][b] by {
        assert(ids_in_range(a, b));
    }
}

/// Thread ids and resource ids in range.
pub open spec fn ids_in_range(t: int, r: int) -> bool {
    0 <= t < MAX_NUM_THREAD && 0 <= r < MAX_NUM_RES
}

impl ProcessSync {
    /// A process with no synchronisation objects, nothing available, held or
    /// awaited, and deadlock detection off.
    pub fn new() -> (s: Self)
        ensures
            s.mutex_list@.len() == 0,
            s.semaphore_list@.len() == 0,
            s.condvar_list@.len() == 0,
            forall|r: int| 0 <= r < MAX_NUM_RES ==> #[trigger] s.available[r] == 0,
            forall|t: int, r: int| ids_in_range(t, r) ==> #[trigger] s.allocation[t][r] == 0,
            forall|t: int, r: int| ids_in_range(t, r) ==> #[trigger] s.needed[t][r] == 0,
            !s.if_dead_detect,
            totals_fit(s.allocation, s.available),
    {
        let s = ProcessSync {
            mutex_list: Vec::new(),
            semaphore_list: Vec::new(),
            condvar_list: Vec::new(),
            available: [0; MAX_NUM_RES],
            allocation: [[0; MAX_NUM_RES]; MAX_NUM_THREAD],
            needed: [[0; MAX_NUM_RES]; MAX_NUM_THREAD],
            if_dead_detect: false,
        };
        proof {
            assert forall|j: int| 0 <= j < MAX_NUM_RES implies #[trigger] work_after(
                s.available,
                s.allocation,
                all_sel(),
                j,
            ) <= usize::MAX by {
                assert forall|t: int| 0 <= t < MAX_NUM_THREAD implies #[trigger] s.allocation[t][j]
                    == 0 by {
                    assert(ids_in_range(t, j));
                }
                lemma_held_by_zero(s.allocation, all_sel(), j, MAX_NUM_THREAD as int);
            }
        }
        s
    }
}

} // verus!
