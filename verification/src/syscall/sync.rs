//! Synchronisation system calls: creation of mutexes, semaphores and
//! condition variables, and the bookkeeping of what each thread holds and
//! waits for, which deadlock detection reads.
use vstd::prelude::*;
use crate::deadlock::{
    all_sel, can_finish, column_sum, lemma_need_beyond_total_is_unsafe,
    lemma_needs_within_available_is_safe, lemma_id_order_is_safe, held_by, is_safe_sequence, is_safe_state, lemma_held_by_add, lemma_held_by_ext,
    lemma_held_by_mono, lemma_held_by_none, lemma_stuck_is_unsafe, marked_sel, member_sel, step_ok,
    totals_fit, work_after,
};
use crate::task::{MAX_NUM_RES, MAX_NUM_THREAD, ResMatrix, ResVector, TaskAction};
use crate::task::process::{
    acquired, cell_add, lemma_acquired, lemma_released, lemma_requested, lemma_cell_add, entry_add, first_free_from, first_free_slot, ids_in_range, live_slot,
    place_in_slot, released, requested, with_available, CondvarSlot, MutexKind, ProcessSync,
    SemaphoreSlot,
};
use vstd::array::spec_array_update;

verus! {

/// The thread sleeps for `ms` milliseconds from `now_ms`: the scheduler is
/// to block it until the clock reads `now_ms + ms` and run another; the call
/// then returns 0.
pub fn sys_sleep(now_ms: usize, ms: usize) -> (r: (TaskAction, isize))
    requires
        now_ms + ms <= usize::MAX,
    ensures
        r == (TaskAction::BlockUntil((now_ms + ms) as usize), 0isize),
{
    let expire_ms = now_ms + ms;
    (TaskAction::BlockUntil(expire_ms), 0)
}

/// Number of threads in `fin` (below `n`) not yet marked finished.
spec fn unfinished(fin: Seq<bool>, n: int) -> nat
    decreases n,
{
    if n <= 0 {
        0
    } else {
        unfinished(fin, n - 1) + if fin[n - 1] {
            0nat
        } else {
            1nat
        }
    }
}

proof fn lemma_unfinished_mark(fin: Seq<bool>, u: int, n: int)
    requires
        0 <= u < n <= fin.len(),
        !fin[u],
    ensures
        unfinished(fin.update(u, true), n) + 1 == unfinished(fin, n),
    decreases n,
{
    if n - 1 != u {
        lemma_unfinished_mark(fin, u, n - 1);
    } else {
        lemma_unfinished_same(fin, fin.update(u, true), n - 1);
    }
}

proof fn lemma_unfinished_same(a: Seq<bool>, b: Seq<bool>, n: int)
    requires
        n <= a.len(),
        n <= b.len(),
        forall|t: int| 0 <= t < n ==> a[t] == b[t],
    ensures
        unfinished(a, n) == unfinished(b, n),
    decreases n,
{
    if n > 0 {
        lemma_unfinished_same(a, b, n - 1);
    }
}

/// What the search in `is_res_safe` keeps true: `working` is what is at
/// hand once the marked threads have finished, and `order` lists the marked
/// threads in an order in which each could finish.
spec fn search_inv(
    allocation: ResMatrix,
    available: ResVector,
    needed: ResMatrix,
    working: ResVector,
    fin: Seq<bool>,
    order: Seq<int>,
) -> bool {
    &&& fin.len() == MAX_NUM_THREAD
    &&& totals_fit(allocation, available)
    &&& forall|j: int|
        0 <= j < MAX_NUM_RES ==> #[trigger] working[j] == work_after(
            available,
            allocation,
            marked_sel(fin),
            j,
        )
    &&& order.no_duplicates()
    &&& forall|k: int| 0 <= k < order.len() ==> 0 <= #[trigger] order[k] < MAX_NUM_THREAD
    &&& forall|t: int|
        #![trigger order.contains(t)]
        #![trigger fin[t]]
        0 <= t < MAX_NUM_THREAD ==> (order.contains(t) <==> fin[t])
    &&& forall|k: int|
        0 <= k < order.len() ==> #[trigger] step_ok(allocation, available, needed, order, k)
}

/// Every thread below `n` is finished or blocked given what the finished
/// threads release.
spec fn stuck_below(
    allocation: ResMatrix,
    available: ResVector,
    needed: ResMatrix,
    fin: Seq<bool>,
    n: int,
) -> bool {
    forall|t: int|
        0 <= t < n && !fin[t] ==> !#[trigger] can_finish(
            allocation,
            available,
            needed,
            t,
            marked_sel(fin),
        )
}

/// Deadlock detection: whether the threads of a process can all finish in
/// some order, each being granted what it waits for (`needed`) from what is
/// `available` plus what the threads before it hold (`allocation`) and give
/// back when they finish.
pub fn is_res_safe(allocation: &ResMatrix, available: &ResVector, needed: &ResMatrix) -> (safe: bool)
    requires
        totals_fit(*allocation, *available),
    ensures
        safe == is_safe_state(*allocation, *available, *needed),
        safe ==> forall|t: int, j: int|
            0 <= t < MAX_NUM_THREAD && 0 <= j < MAX_NUM_RES ==> #[trigger] needed[t][j]
                <= available[j] + column_sum(*allocation, j, MAX_NUM_THREAD as int),
        (forall|t: int, j: int|
            0 <= t < MAX_NUM_THREAD && 0 <= j < MAX_NUM_RES ==> #[trigger] needed[t][j]
                <= available[j]) ==> safe,
        (forall|t: int, j: int|
            0 <= t < MAX_NUM_THREAD && 0 <= j < MAX_NUM_RES ==> #[trigger] needed[t][j]
                <= available[j] + column_sum(*allocation, j, t)) ==> safe,
{
    let mut working = *available;
    let mut is_finish = [false; MAX_NUM_THREAD];
    let ghost mut order: Seq<int> = Seq::empty();
    let mut is_progressed = true;
    proof {
        assert forall|j: int| 0 <= j < MAX_NUM_RES implies #[trigger] working[j] == work_after(
            *available,
            *allocation,
            marked_sel(is_finish@),
            j,
        ) by {
            lemma_held_by_ext(
                *allocation,
                marked_sel(is_finish@),
                |t: int| false,
                j,
                MAX_NUM_THREAD as int,
            );
            lemma_held_by_none(*allocation, j, MAX_NUM_THREAD as int);
        }
    }
    loop
        invariant
            search_inv(*allocation, *available, *needed, working, is_finish@, order),
        ensures
            search_inv(*allocation, *available, *needed, working, is_finish@, order),
            stuck_below(
                *allocation,
                *available,
                *needed,
                is_finish@,
                MAX_NUM_THREAD as int,
            ),
        decreases 2 * unfinished(is_finish@, MAX_NUM_THREAD as int) + if is_progressed {
            1int
        } else {
            0int
        },
    {
        let ghost p0 = is_progressed;
        let ghost u0 = unfinished(is_finish@, MAX_NUM_THREAD as int);
        let mut i: usize = 0;
        while i < MAX_NUM_THREAD
            invariant_except_break
                0 <= i <= MAX_NUM_THREAD,
                search_inv(*allocation, *available, *needed, working, is_finish@, order),
                is_progressed == p0,
                unfinished(is_finish@, MAX_NUM_THREAD as int) == u0,
                !is_progressed ==> stuck_below(
                    *allocation,
                    *available,
                    *needed,
                    is_finish@,
                    i as int,
                ),
            ensures
                search_inv(*allocation, *available, *needed, working, is_finish@, order),
                (is_progressed && unfinished(is_finish@, MAX_NUM_THREAD as int) + 1 == u0) || (
                is_progressed == p0 && unfinished(is_finish@, MAX_NUM_THREAD as int) == u0 && (
                !is_progressed ==> stuck_below(
                    *allocation,
                    *available,
                    *needed,
                    is_finish@,
                    MAX_NUM_THREAD as int,
                ))),
            decreases MAX_NUM_THREAD - i,
        {
            if !is_finish[i] {
                let mut can_allocate = true;
                let mut j: usize = 0;
                while j < MAX_NUM_RES
                    invariant_except_break
                        0 <= j <= MAX_NUM_RES,
                        i < MAX_NUM_THREAD,
                        can_allocate,
                        forall|jj: int| 0 <= jj < j ==> needed[i as int][jj] <= working[jj],
                    ensures
                        can_allocate <==> forall|jj: int|
                            0 <= jj < MAX_NUM_RES ==> needed[i as int][jj] <= working[jj],
                    decreases MAX_NUM_RES - j,
                {
                    if needed[i][j] > working[j] {
                        can_allocate = false;
                        break;
                    }
                    j += 1;
                }
                if can_allocate {
                    let ghost old_w = working;
                    let ghost old_fin = is_finish@;
                    let ghost new_fin = is_finish@.update(i as int, true);
                    proof {
                        assert forall|jj: int| 0 <= jj < MAX_NUM_RES implies #[trigger] old_w[jj]
                            + allocation[i as int][jj] == work_after(
                            *available,
                            *allocation,
                            marked_sel(new_fin),
                            jj,
                        ) && old_w[jj] + allocation[i as int][jj] <= usize::MAX
                            && needed[i as int][jj] <= old_w[jj] by {
                            assert(working[jj] == work_after(
                                *available,
                                *allocation,
                                marked_sel(old_fin),
                                jj,
                            ));
                            lemma_held_by_add(
                                *allocation,
                                marked_sel(old_fin),
                                marked_sel(new_fin),
                                i as int,
                                jj,
                                MAX_NUM_THREAD as int,
                            );
                            lemma_held_by_mono(
                                *allocation,
                                marked_sel(new_fin),
                                all_sel(),
                                jj,
                                MAX_NUM_THREAD as int,
                            );
                            assert(work_after(*available, *allocation, all_sel(), jj) <= usize::MAX);
                        }
                    }
                    let mut j: usize = 0;
                    while j < MAX_NUM_RES
                        invariant
                            0 <= j <= MAX_NUM_RES,
                            i < MAX_NUM_THREAD,
                            forall|jj: int|
                                0 <= jj < MAX_NUM_RES ==> old_w[jj] + allocation[i as int][jj]
                                    <= usize::MAX,
                            forall|jj: int|
                                0 <= jj < j ==> working[jj] == old_w[jj] + allocation[i as int][jj],
                            forall|jj: int| j <= jj < MAX_NUM_RES ==> working[jj] == old_w[jj],
                        decreases MAX_NUM_RES - j,
                    {
                        working[j] += allocation[i][j];
                        j += 1;
                    }
                    is_finish[i] = true;
                    proof {
                        assert(is_finish@ =~= new_fin);
                        lemma_unfinished_mark(old_fin, i as int, MAX_NUM_THREAD as int);
                        let old_order = order;
                        let k0 = old_order.len() as int;
                        assert(!old_order.contains(i as int));
                        order = old_order.push(i as int);
                        assert(order.take(k0) =~= old_order);
                        assert forall|k: int| 0 <= k < k0 implies order.take(k) =~= old_order.take(
                            k,
                        ) by {}
                        assert forall|k: int| 0 <= k < order.len() implies #[trigger] step_ok(
                            *allocation,
                            *available,
                            *needed,
                            order,
                            k,
                        ) by {
                            if k < k0 {
                                assert(order.take(k) =~= old_order.take(k));
                                assert(step_ok(*allocation, *available, *needed, old_order, k));
                            } else {
                                assert forall|jj: int| 0 <= jj < MAX_NUM_RES implies needed[i as int][jj]
                                    <= #[trigger] work_after(
                                    *available,
                                    *allocation,
                                    member_sel(order.take(k)),
                                    jj,
                                ) by {
                                    assert(order.take(k) =~= old_order);
                                    assert forall|t: int| 0 <= t < MAX_NUM_THREAD implies #[trigger] member_sel(
                                        order.take(k),
                                    )(t) == marked_sel(old_fin)(t) by {
                                        assert(old_order.contains(t) == old_fin[t]);
                                    }
                                    assert(needed[i as int][jj] <= old_w[jj]);
                                    assert(old_w[jj] == work_after(
                                        *available,
                                        *allocation,
                                        marked_sel(old_fin),
                                        jj,
                                    ));
                                    lemma_held_by_ext(
                                        *allocation,
                                        member_sel(order.take(k)),
                                        marked_sel(old_fin),
                                        jj,
                                        MAX_NUM_THREAD as int,
                                    );
                                }
                            }
                        }
                        assert forall|a: int, b: int|
                            0 <= a < order.len() && 0 <= b < order.len() && a != b implies order[a]
                            != order[b] by {
                            if a < k0 && b < k0 {
                                assert(old_order[a] != old_order[b]);
                            } else if a < k0 {
                                assert(old_order.contains(old_order[a]));
                            } else {
                                assert(old_order.contains(old_order[b]));
                            }
                        }
                        assert forall|t: int| 0 <= t < MAX_NUM_THREAD implies (order.contains(t)
                            <==> is_finish@[t]) by {
                            if order.contains(t) && t != i {
                                let m = choose|m: int| 0 <= m < order.len() && order[m] == t;
                                assert(old_order[m] == t);
                            }
                            if old_order.contains(t) {
                                let m = choose|m: int| 0 <= m < old_order.len() && old_order[m] == t;
                                assert(order[m] == t);
                            }
                            if t == i {
                                assert(order[k0] == t);
                            }
                        }
                    }
                    is_progressed = true;
                    break;
                }
            }
            i += 1;
        }
        if !is_progressed {
            break;
        }
        is_progressed = false;
    }
    let mut k: usize = 0;
    while k < MAX_NUM_THREAD
        invariant
            0 <= k <= MAX_NUM_THREAD,
            search_inv(*allocation, *available, *needed, working, is_finish@, order),
            stuck_below(*allocation, *available, *needed, is_finish@, MAX_NUM_THREAD as int),
            forall|t: int| 0 <= t < k ==> is_finish@[t],
        decreases MAX_NUM_THREAD - k,
    {
        if !is_finish[k] {
            proof {
                lemma_stuck_is_unsafe(*allocation, *available, *needed, is_finish@, k as int);
                if forall|t: int, j: int|
                    0 <= t < MAX_NUM_THREAD && 0 <= j < MAX_NUM_RES ==> #[trigger] needed[t][j]
                        <= available[j] {
                    lemma_needs_within_available_is_safe(*allocation, *available, *needed);
                }
                if forall|t: int, j: int|
                    0 <= t < MAX_NUM_THREAD && 0 <= j < MAX_NUM_RES ==> #[trigger] needed[t][j]
                        <= available[j] + column_sum(*allocation, j, t) {
                    lemma_id_order_is_safe(*allocation, *available, *needed);
                }
            }
            return false;
        }
        k += 1;
    }
    proof {
        assert(is_safe_sequence(*allocation, *available, *needed, order));
        assert forall|t: int, j: int|
            0 <= t < MAX_NUM_THREAD && 0 <= j < MAX_NUM_RES implies #[trigger] needed[t][j]
            <= available[j] + column_sum(*allocation, j, MAX_NUM_THREAD as int) by {
            if needed[t][j] > available[j] + column_sum(*allocation, j, MAX_NUM_THREAD as int) {
                lemma_need_beyond_total_is_unsafe(*allocation, *available, *needed, t, j);
            }
        }
    }
    true
}

/// What a refused lock or semaphore request returns.
pub const DEADLOCK_REFUSED: isize = -0xDEAD;

/// Lowest free slot of a table, or its length if every slot is taken.
fn find_free_slot<T>(list: &Vec<Option<T>>) -> (id: usize)
    ensures
        id == first_free_slot(list@),
        id <= list@.len(),
        forall|k: int| 0 <= k < id ==> list@[k] is Some,
        id < list@.len() ==> list@[id as int] is None,
{
    let mut i: usize = 0;
    while i < list.len()
        invariant_except_break
            0 <= i <= list@.len(),
            first_free_from(list@, i as int) == first_free_from(list@, 0),
            forall|k: int| 0 <= k < i ==> list@[k] is Some,
        ensures
            i <= list@.len(),
            first_free_from(list@, 0) == i,
            forall|k: int| 0 <= k < i ==> list@[k] is Some,
            i < list@.len() ==> list@[i as int] is None,
        decreases list@.len() - i,
    {
        if list[i].is_none() {
            break;
        }
        i += 1;
    }
    i
}

/// Puts `v` into slot `id` of `list`: a free slot, or one past the end.
fn place<T>(list: &mut Vec<Option<T>>, id: usize, v: T)
    requires
        id <= old(list)@.len(),
    ensures
        final(list)@ == place_in_slot(old(list)@, id as int, v),
{
    if id < list.len() {
        list.set(id, Some(v));
    } else {
        list.push(Some(v));
    }
}

/// Moves entry `(t, r)` of `m` by one, up or down.
fn step_cell(m: &mut ResMatrix, t: usize, r: usize, up: bool)
    requires
        t < MAX_NUM_THREAD,
        r < MAX_NUM_RES,
        up ==> old(m)[t as int][r as int] < usize::MAX,
        !up ==> old(m)[t as int][r as int] > 0,
    ensures
        *final(m) == cell_add(*old(m), t as int, r as int, if up { 1 } else { -1 }),
{
    let mut row = m[t];
    if up {
        row[r] = row[r] + 1;
    } else {
        row[r] = row[r] - 1;
    }
    m[t] = row;
    proof {
        let d: int = if up { 1 } else { -1 };
        assert(row =~= spec_array_update(old(m)[t as int], r as int, (old(m)[t as int][r as int] + d) as usize));
        assert(*m =~= cell_add(*old(m), t as int, r as int, d));
    }
}

/// Moves entry `r` of `v` by one, up or down.
fn step_entry(v: &mut ResVector, r: usize, up: bool)
    requires
        r < MAX_NUM_RES,
        up ==> old(v)[r as int] < usize::MAX,
        !up ==> old(v)[r as int] > 0,
    ensures
        *final(v) == entry_add(*old(v), r as int, if up { 1 } else { -1 }),
{
    if up {
        v[r] = v[r] + 1;
    } else {
        v[r] = v[r] - 1;
    }
    proof {
        let d: int = if up { 1 } else { -1 };
        assert(*v =~= entry_add(*old(v), r as int, d));
    }
}

/// Creates a mutex, spinning or blocking, in the lowest free slot of the
/// mutex table (or a new slot at its end), marks its one unit available, and
/// returns its id.
pub fn sys_mutex_create(process: &mut ProcessSync, blocking: bool) -> (id: isize)
    requires
        first_free_slot(old(process).mutex_list@) < MAX_NUM_RES,
    ensures
        id == first_free_slot(old(process).mutex_list@),
        forall|k: int| 0 <= k < id ==> old(process).mutex_list@[k] is Some,
        id < old(process).mutex_list@.len() ==> old(process).mutex_list@[id as int] is None,
        live_slot(final(process).mutex_list@, id as int),
        final(process).mutex_list@[id as int] == Some(if blocking { MutexKind::Blocking } else { MutexKind::Spin }),
        final(process).mutex_list@.len() == if id < old(process).mutex_list@.len() {
            old(process).mutex_list@.len() as int
        } else {
            id + 1
        },
        forall|k: int|
            0 <= k < old(process).mutex_list@.len() && k != id ==> #[trigger] final(process).mutex_list@[k]
                == old(process).mutex_list@[k],
        final(process).mutex_list@ == place_in_slot(
            old(process).mutex_list@,
            id as int,
            if blocking { MutexKind::Blocking } else { MutexKind::Spin },
        ),
        *final(process) == (ProcessSync {
            mutex_list: final(process).mutex_list,
            ..with_available(*old(process), id as int, 1)
        }),
        final(process).available[id as int] == 1,
        forall|r: int|
            0 <= r < MAX_NUM_RES && r != id ==> #[trigger] final(process).available[r] == old(
                process,
            ).available[r],
        final(process).allocation == old(process).allocation,
        final(process).needed == old(process).needed,
        final(process).semaphore_list == old(process).semaphore_list,
        final(process).condvar_list == old(process).condvar_list,
        final(process).if_dead_detect == old(process).if_dead_detect,
{
    let mutex = if !blocking {
        MutexKind::Spin
    } else {
        MutexKind::Blocking
    };
    let id = find_free_slot(&process.mutex_list);
    place(&mut process.mutex_list, id, mutex);
    process.available[id] = 1;
    proof {
        assert(process.available =~= spec_array_update(old(process).available, id as int, 1usize));
    }
    id as isize
}

/// Creates a semaphore with `res_count` units in the lowest free slot of
/// the semaphore table (or a new slot at its end), marks those units
/// available, and returns its id.
pub fn sys_semaphore_create(process: &mut ProcessSync, res_count: usize) -> (id: isize)
    requires
        first_free_slot(old(process).semaphore_list@) < MAX_NUM_RES,
    ensures
        id == first_free_slot(old(process).semaphore_list@),
        forall|k: int| 0 <= k < id ==> old(process).semaphore_list@[k] is Some,
        id < old(process).semaphore_list@.len() ==> old(process).semaphore_list@[id as int] is None,
        live_slot(final(process).semaphore_list@, id as int),
        final(process).semaphore_list@[id as int] == Some(SemaphoreSlot { res_count }),
        final(process).semaphore_list@.len() == if id < old(process).semaphore_list@.len() {
            old(process).semaphore_list@.len() as int
        } else {
            id + 1
        },
        forall|k: int|
            0 <= k < old(process).semaphore_list@.len() && k != id ==> #[trigger] final(process).semaphore_list@[k]
                == old(process).semaphore_list@[k],
        final(process).semaphore_list@ == place_in_slot(
            old(process).semaphore_list@,
            id as int,
            SemaphoreSlot { res_count },
        ),
        *final(process) == (ProcessSync {
            semaphore_list: final(process).semaphore_list,
            ..with_available(*old(process), id as int, res_count)
        }),
        final(process).available[id as int] == res_count,
        forall|r: int|
            0 <= r < MAX_NUM_RES && r != id ==> #[trigger] final(process).available[r] == old(
                process,
            ).available[r],
        final(process).allocation == old(process).allocation,
        final(process).needed == old(process).needed,
        final(process).mutex_list == old(process).mutex_list,
        final(process).condvar_list == old(process).condvar_list,
        final(process).if_dead_detect == old(process).if_dead_detect,
{
    let id = find_free_slot(&process.semaphore_list);
    place(&mut process.semaphore_list, id, SemaphoreSlot { res_count });
    process.available[id] = res_count;
    proof {
        assert(process.available =~= spec_array_update(old(process).available, id as int, res_count));
    }
    id as isize
}

/// Creates a condition variable in the lowest free slot of the condition
/// variable table (or a new slot at its end) and returns its id.
pub fn sys_condvar_create(process: &mut ProcessSync) -> (id: isize)
    requires
        first_free_slot(old(process).condvar_list@) < isize::MAX,
    ensures
        id == first_free_slot(old(process).condvar_list@),
        forall|k: int| 0 <= k < id ==> old(process).condvar_list@[k] is Some,
        id < old(process).condvar_list@.len() ==> old(process).condvar_list@[id as int] is None,
        live_slot(final(process).condvar_list@, id as int),
        final(process).condvar_list@[id as int] == Some(CondvarSlot {}),
        final(process).condvar_list@.len() == if id < old(process).condvar_list@.len() {
            old(process).condvar_list@.len() as int
        } else {
            id + 1
        },
        forall|k: int|
            0 <= k < old(process).condvar_list@.len() && k != id ==> #[trigger] final(process).condvar_list@[k]
                == old(process).condvar_list@[k],
        final(process).condvar_list@ == place_in_slot(
            old(process).condvar_list@,
            id as int,
            CondvarSlot {},
        ),
        *final(process) == (ProcessSync { condvar_list: final(process).condvar_list, ..*old(process) }),
        final(process).available == old(process).available,
        final(process).allocation == old(process).allocation,
        final(process).needed == old(process).needed,
        final(process).mutex_list == old(process).mutex_list,
        final(process).semaphore_list == old(process).semaphore_list,
        final(process).if_dead_detect == old(process).if_dead_detect,
{
    let id = find_free_slot(&process.condvar_list);
    place(&mut process.condvar_list, id, CondvarSlot {});
    id as isize
}

/// First half of a lock or semaphore-down request by thread `tid` for
/// resource `res_id`: the thread starts waiting for one unit.  With deadlock
/// detection on, a request after which the process would be unsafe is
/// withdrawn and refused.
fn request(process: &mut ProcessSync, tid: usize, res_id: usize) -> (refused: bool)
    requires
        ids_in_range(tid as int, res_id as int),
        old(process).needed[tid as int][res_id as int] < usize::MAX,
        totals_fit(old(process).allocation, old(process).available),
    ensures
        refused == (old(process).if_dead_detect && !is_safe_state(
            old(process).allocation,
            old(process).available,
            requested(*old(process), tid as int, res_id as int).needed,
        )),
        refused ==> *final(process) == *old(process),
        !refused ==> *final(process) == requested(*old(process), tid as int, res_id as int),
{
    step_cell(&mut process.needed, tid, res_id, true);
    if !is_res_safe(&process.allocation, &process.available, &process.needed)
        && process.if_dead_detect {
        step_cell(&mut process.needed, tid, res_id, false);
        proof {
            let mid = cell_add(old(process).needed, tid as int, res_id as int, 1);
            lemma_cell_add(old(process).needed, tid as int, res_id as int, 1);
            lemma_cell_add(mid, tid as int, res_id as int, -1);
            assert forall|a: int| 0 <= a < MAX_NUM_THREAD implies process.needed[a] =~= old(
                process,
            ).needed[a] by {
                assert forall|b: int| 0 <= b < MAX_NUM_RES implies process.needed[a][b] == old(
                    process,
                ).needed[a][b] by {
                    assert(ids_in_range(a, b));
                }
            }
            assert(process.needed =~= old(process).needed);
        }
        return true;
    }
    false
}

/// Lock request by thread `tid` for mutex `mutex_id`.  Returns
/// `DEADLOCK_REFUSED`, with nothing changed, when deadlock detection is on
/// and the process would be unsafe with the thread waiting for the mutex;
/// otherwise records that the thread waits for it and returns 0: the thread
/// then takes the mutex and `finish_acquire` records that it holds it.
pub fn sys_mutex_lock(process: &mut ProcessSync, tid: usize, mutex_id: usize) -> (r: isize)
    requires
        ids_in_range(tid as int, mutex_id as int),
        old(process).needed[tid as int][mutex_id as int] < usize::MAX,
        totals_fit(old(process).allocation, old(process).available),
        live_slot(old(process).mutex_list@, mutex_id as int) || (old(process).if_dead_detect
            && !is_safe_state(
            old(process).allocation,
            old(process).available,
            requested(*old(process), tid as int, mutex_id as int).needed,
        )),
    ensures
        r == DEADLOCK_REFUSED || r == 0,
        (r == DEADLOCK_REFUSED) == (old(process).if_dead_detect && !is_safe_state(
            old(process).allocation,
            old(process).available,
            requested(*old(process), tid as int, mutex_id as int).needed,
        )),
        r == DEADLOCK_REFUSED ==> *final(process) == *old(process),
        r == 0 ==> *final(process) == requested(*old(process), tid as int, mutex_id as int),
        r == 0 ==> final(process).needed[tid as int][mutex_id as int] == old(process).needed[tid as int][mutex_id as int] + 1,
        r == 0 ==> forall|a: int, b: int|
            0 <= a < MAX_NUM_THREAD && 0 <= b < MAX_NUM_RES && (a != tid || b != mutex_id)
                ==> #[trigger] final(process).needed[a][b] == old(process).needed[a][b],
        final(process).allocation == old(process).allocation,
        final(process).available == old(process).available,
        final(process).mutex_list == old(process).mutex_list,
        final(process).semaphore_list == old(process).semaphore_list,
        final(process).condvar_list == old(process).condvar_list,
        final(process).if_dead_detect == old(process).if_dead_detect,
        r == 0 && old(process).if_dead_detect ==> is_safe_state(
            final(process).allocation,
            final(process).available,
            final(process).needed,
        ),
{
    proof {
        lemma_requested(*old(process), tid as int, mutex_id as int);
    }
    if request(process, tid, mutex_id) {
        return DEADLOCK_REFUSED;
    }
    0
}

/// Semaphore-down request by thread `tid` for semaphore `sem_id`.  Returns
/// `DEADLOCK_REFUSED`, with nothing changed, when deadlock detection is on
/// and the process would be unsafe with the thread waiting for a unit;
/// otherwise records that the thread waits for one and returns 0: the
/// thread then takes a unit and `finish_acquire` records that it holds it.
pub fn sys_semaphore_down(process: &mut ProcessSync, tid: usize, sem_id: usize) -> (r: isize)
    requires
        ids_in_range(tid as int, sem_id as int),
        live_slot(old(process).semaphore_list@, sem_id as int),
        old(process).needed[tid as int][sem_id as int] < usize::MAX,
        totals_fit(old(process).allocation, old(process).available),
    ensures
        r == DEADLOCK_REFUSED || r == 0,
        (r == DEADLOCK_REFUSED) == (old(process).if_dead_detect && !is_safe_state(
            old(process).allocation,
            old(process).available,
            requested(*old(process), tid as int, sem_id as int).needed,
        )),
        r == DEADLOCK_REFUSED ==> *final(process) == *old(process),
        r == 0 ==> *final(process) == requested(*old(process), tid as int, sem_id as int),
        r == 0 ==> final(process).needed[tid as int][sem_id as int] == old(process).needed[tid as int][sem_id as int] + 1,
        r == 0 ==> forall|a: int, b: int|
            0 <= a < MAX_NUM_THREAD && 0 <= b < MAX_NUM_RES && (a != tid || b != sem_id)
                ==> #[trigger] final(process).needed[a][b] == old(process).needed[a][b],
        final(process).allocation == old(process).allocation,
        final(process).available == old(process).available,
        final(process).mutex_list == old(process).mutex_list,
        final(process).semaphore_list == old(process).semaphore_list,
        final(process).condvar_list == old(process).condvar_list,
        final(process).if_dead_detect == old(process).if_dead_detect,
        r == 0 && old(process).if_dead_detect ==> is_safe_state(
            final(process).allocation,
            final(process).available,
            final(process).needed,
        ),
{
    proof {
        lemma_requested(*old(process), tid as int, sem_id as int);
    }
    if request(process, tid, sem_id) {
        return DEADLOCK_REFUSED;
    }
    0
}

/// Second half of a granted lock or semaphore-down request: thread `tid`
/// has taken one unit of resource `res_id`, which it waited for, and now
/// holds it.  Returns 0, what the system call returns.
pub fn finish_acquire(process: &mut ProcessSync, tid: usize, res_id: usize) -> (r: isize)
    requires
        ids_in_range(tid as int, res_id as int),
        old(process).needed[tid as int][res_id as int] > 0,
        old(process).available[res_id as int] > 0,
        old(process).allocation[tid as int][res_id as int] < usize::MAX,
    ensures
        r == 0,
        *final(process) == acquired(*old(process), tid as int, res_id as int),
        final(process).needed[tid as int][res_id as int] == old(process).needed[tid as int][res_id as int] - 1,
        final(process).allocation[tid as int][res_id as int] == old(process).allocation[tid as int][res_id as int] + 1,
        final(process).available[res_id as int] == old(process).available[res_id as int] - 1,
        forall|a: int, b: int|
            0 <= a < MAX_NUM_THREAD && 0 <= b < MAX_NUM_RES && (a != tid || b != res_id)
                ==> #[trigger] final(process).needed[a][b] == old(process).needed[a][b],
        forall|a: int, b: int|
            0 <= a < MAX_NUM_THREAD && 0 <= b < MAX_NUM_RES && (a != tid || b != res_id)
                ==> #[trigger] final(process).allocation[a][b] == old(process).allocation[a][b],
        forall|b: int|
            0 <= b < MAX_NUM_RES && b != res_id ==> #[trigger] final(process).available[b] == old(
                process,
            ).available[b],
        final(process).mutex_list == old(process).mutex_list,
        final(process).semaphore_list == old(process).semaphore_list,
        final(process).condvar_list == old(process).condvar_list,
        final(process).if_dead_detect == old(process).if_dead_detect,
{
    proof {
        lemma_acquired(*old(process), tid as int, res_id as int);
    }
    step_cell(&mut process.needed, tid, res_id, false);
    step_entry(&mut process.available, res_id, false);
    step_cell(&mut process.allocation, tid, res_id, true);
    0
}

/// Thread `tid` gives back one unit of resource `res_id`.
fn release(process: &mut ProcessSync, tid: usize, res_id: usize)
    requires
        ids_in_range(tid as int, res_id as int),
        old(process).available[res_id as int] < usize::MAX,
        old(process).allocation[tid as int][res_id as int] > 0,
    ensures
        *final(process) == released(*old(process), tid as int, res_id as int),
{
    step_entry(&mut process.available, res_id, true);
    step_cell(&mut process.allocation, tid, res_id, false);
}

/// Unlock of mutex `mutex_id` by thread `tid`, which holds it: the unit goes
/// back to `available`.  Returns 0; the mutex itself is then unlocked.
pub fn sys_mutex_unlock(process: &mut ProcessSync, tid: usize, mutex_id: usize) -> (r: isize)
    requires
        ids_in_range(tid as int, mutex_id as int),
        live_slot(old(process).mutex_list@, mutex_id as int),
        old(process).available[mutex_id as int] < usize::MAX,
        old(process).allocation[tid as int][mutex_id as int] > 0,
    ensures
        r == 0,
        *final(process) == released(*old(process), tid as int, mutex_id as int),
        final(process).allocation[tid as int][mutex_id as int] == old(process).allocation[tid as int][mutex_id as int] - 1,
        final(process).available[mutex_id as int] == old(process).available[mutex_id as int] + 1,
        final(process).needed == old(process).needed,
        forall|a: int, b: int|
            0 <= a < MAX_NUM_THREAD && 0 <= b < MAX_NUM_RES && (a != tid || b != mutex_id)
                ==> #[trigger] final(process).allocation[a][b] == old(process).allocation[a][b],
        forall|b: int|
            0 <= b < MAX_NUM_RES && b != mutex_id ==> #[trigger] final(process).available[b] == old(
                process,
            ).available[b],
        final(process).mutex_list == old(process).mutex_list,
        final(process).semaphore_list == old(process).semaphore_list,
        final(process).condvar_list == old(process).condvar_list,
        final(process).if_dead_detect == old(process).if_dead_detect,
{
    proof {
        lemma_released(*old(process), tid as int, mutex_id as int);
    }
    release(process, tid, mutex_id);
    0
}

/// Semaphore-up of `sem_id` by thread `tid`, which holds a unit of it: the
/// unit goes back to `available`.  Returns 0; the semaphore itself is then
/// raised.
pub fn sys_semaphore_up(process: &mut ProcessSync, tid: usize, sem_id: usize) -> (r: isize)
    requires
        ids_in_range(tid as int, sem_id as int),
        live_slot(old(process).semaphore_list@, sem_id as int),
        old(process).available[sem_id as int] < usize::MAX,
        old(process).allocation[tid as int][sem_id as int] > 0,
    ensures
        r == 0,
        *final(process) == released(*old(process), tid as int, sem_id as int),
        final(process).allocation[tid as int][sem_id as int] == old(process).allocation[tid as int][sem_id as int] - 1,
        final(process).available[sem_id as int] == old(process).available[sem_id as int] + 1,
        final(process).needed == old(process).needed,
        forall|a: int, b: int|
            0 <= a < MAX_NUM_THREAD && 0 <= b < MAX_NUM_RES && (a != tid || b != sem_id)
                ==> #[trigger] final(process).allocation[a][b] == old(process).allocation[a][b],
        forall|b: int|
            0 <= b < MAX_NUM_RES && b != sem_id ==> #[trigger] final(process).available[b] == old(
                process,
            ).available[b],
        final(process).mutex_list == old(process).mutex_list,
        final(process).semaphore_list == old(process).semaphore_list,
        final(process).condvar_list == old(process).condvar_list,
        final(process).if_dead_detect == old(process).if_dead_detect,
{
    proof {
        lemma_released(*old(process), tid as int, sem_id as int);
    }
    release(process, tid, sem_id);
    0
}

/// Signal of condition variable `condvar_id`: the process state is left as
/// it is and 0 is returned; the condition variable itself is then signalled.
pub fn sys_condvar_signal(process: &ProcessSync, condvar_id: usize) -> (r: isize)
    requires
        live_slot(process.condvar_list@, condvar_id as int),
    ensures
        r == 0,
{
    0
}

/// Wait on condition variable `condvar_id` with mutex `mutex_id`: the
/// process state is left as it is and 0 is returned; the thread then waits
/// on the condition variable, giving up and retaking the mutex.
pub fn sys_condvar_wait(process: &ProcessSync, condvar_id: usize, mutex_id: usize) -> (r: isize)
    requires
        live_slot(process.condvar_list@, condvar_id as int),
        live_slot(process.mutex_list@, mutex_id as int),
    ensures
        r == 0,
{
    0
}

/// Turns deadlock detection on when `enabled` is 1 and off otherwise;
/// returns 0.
pub fn sys_enable_deadlock_detect(process: &mut ProcessSync, enabled: usize) -> (r: isize)
    ensures
        r == 0,
        *final(process) == (ProcessSync { if_dead_detect: enabled == 1, ..*old(process) }),
{
    if enabled == 1 {
        process.if_dead_detect = true;
    } else {
        process.if_dead_detect = false;
    }
    0
}

/// Sum over all threads of what they hold of resource `j`, after entry
/// `(t, r)` of the matrix moved by `d`.
proof fn lemma_held_by_cell_add(m: ResMatrix, t: int, r: int, d: int, j: int, n: int)
    requires
        ids_in_range(t, r),
        0 <= j < MAX_NUM_RES,
        0 <= n <= MAX_NUM_THREAD,
        0 <= m[t][r] + d <= usize::MAX,
    ensures
        held_by(cell_add(m, t, r, d), all_sel(), j, n) == held_by(m, all_sel(), j, n) + if j == r
            && t < n {
            d
        } else {
            0
        },
    decreases n,
{
    if n > 0 {
        lemma_cell_add(m, t, r, d);
        assert(ids_in_range(n - 1, j));
        lemma_held_by_cell_add(m, t, r, d, j, n - 1);
    }
}

/// A lock that is granted, taken and then unlocked, leaves the process's
/// bookkeeping as it was before the lock request; the same holds of a
/// semaphore down followed by an up.
pub proof fn lemma_acquire_release_roundtrip(s: ProcessSync, t: int, r: int)
    requires
        ids_in_range(t, r),
        s.needed[t][r] < usize::MAX,
        s.available[r] > 0,
        s.allocation[t][r] < usize::MAX,
    ensures
        released(acquired(requested(s, t, r), t, r), t, r) == s,
{
    let s1 = requested(s, t, r);
    let s2 = acquired(s1, t, r);
    let s3 = released(s2, t, r);
    lemma_cell_add(s.needed, t, r, 1);
    lemma_cell_add(s1.needed, t, r, -1);
    lemma_cell_add(s.allocation, t, r, 1);
    lemma_cell_add(s2.allocation, t, r, -1);
    assert forall|a: int| 0 <= a < MAX_NUM_THREAD implies s3.needed[a] =~= s.needed[a]
        && s3.allocation[a] =~= s.allocation[a] by {
        assert forall|b: int| 0 <= b < MAX_NUM_RES implies s3.needed[a][b] == s.needed[a][b]
            && s3.allocation[a][b] == s.allocation[a][b] by {
            assert(ids_in_range(a, b));
        }
    }
    assert(s3.needed =~= s.needed);
    assert(s3.allocation =~= s.allocation);
    assert(s3.available =~= s.available);
}

/// Taking a unit that was waited for, and giving one back, each keep, for
/// every resource, what is available plus what all threads hold; a request
/// changes neither.
pub proof fn lemma_units_conserved(s: ProcessSync, t: int, r: int)
    requires
        ids_in_range(t, r),
    ensures
        forall|j: int|
            0 <= j < MAX_NUM_RES ==> #[trigger] work_after(
                requested(s, t, r).available,
                requested(s, t, r).allocation,
                all_sel(),
                j,
            ) == work_after(s.available, s.allocation, all_sel(), j),
        s.needed[t][r] > 0 && s.available[r] > 0 && s.allocation[t][r] < usize::MAX ==> forall|
            j: int,
        |
            0 <= j < MAX_NUM_RES ==> #[trigger] work_after(
                acquired(s, t, r).available,
                acquired(s, t, r).allocation,
                all_sel(),
                j,
            ) == work_after(s.available, s.allocation, all_sel(), j),
        s.available[r] < usize::MAX && s.allocation[t][r] > 0 ==> forall|j: int|
            0 <= j < MAX_NUM_RES ==> #[trigger] work_after(
                released(s, t, r).available,
                released(s, t, r).allocation,
                all_sel(),
                j,
            ) == work_after(s.available, s.allocation, all_sel(), j),
{
    if s.needed[t][r] > 0 && s.available[r] > 0 && s.allocation[t][r] < usize::MAX {
        assert forall|j: int| 0 <= j < MAX_NUM_RES implies #[trigger] work_after(
            acquired(s, t, r).available,
            acquired(s, t, r).allocation,
            all_sel(),
            j,
        ) == work_after(s.available, s.allocation, all_sel(), j) by {
            lemma_held_by_cell_add(s.allocation, t, r, 1, j, MAX_NUM_THREAD as int);
        }
    }
    if s.available[r] < usize::MAX && s.allocation[t][r] > 0 {
        assert forall|j: int| 0 <= j < MAX_NUM_RES implies #[trigger] work_after(
            released(s, t, r).available,
            released(s, t, r).allocation,
            all_sel(),
            j,
        ) == work_after(s.available, s.allocation, all_sel(), j) by {
            lemma_held_by_cell_add(s.allocation, t, r, -1, j, MAX_NUM_THREAD as int);
        }
    }
}

} // verus!
