//! The safety notion behind deadlock detection: a process is in a safe
//! state when its threads can be ordered so that each one's outstanding
//! requests can be met from what is available plus what every thread
//! before it in the order holds (and gives back once it finishes).
use vstd::prelude::*;
use crate::task::{MAX_NUM_RES, MAX_NUM_THREAD, ResMatrix, ResVector};

verus! {

/// Sum, over the threads `t < n` picked by `sel`, of what thread `t` holds
/// of resource `j`.
pub open spec fn held_by(allocation: ResMatrix, sel: spec_fn(int) -> bool, j: int, n: int) -> int
    decreases n,
{
    if n <= 0 {
        0
    } else {
        held_by(allocation, sel, j, n - 1) + if sel(n - 1) {
            allocation[n - 1][j] as int
        } else {
            0int
        }
    }
}

/// Units of resource `j` at hand once the threads picked by `sel` have
/// finished and released what they hold.
pub open spec fn work_after(
    available: ResVector,
    allocation: ResMatrix,
    sel: spec_fn(int) -> bool,
    j: int,
) -> int {
    available[j] + held_by(allocation, sel, j, MAX_NUM_THREAD as int)
}

/// Every request of thread `t` fits into what is at hand once the threads
/// picked by `sel` have finished.
pub open spec fn can_finish(
    allocation: ResMatrix,
    available: ResVector,
    needed: ResMatrix,
    t: int,
    sel: spec_fn(int) -> bool,
) -> bool {
    forall|j: int|
        0 <= j < MAX_NUM_RES ==> needed[t][j] <= #[trigger] work_after(available, allocation, sel, j)
}

/// The `k`-th thread of `order` can finish once all threads before it have.
pub open spec fn step_ok(
    allocation: ResMatrix,
    available: ResVector,
    needed: ResMatrix,
    order: Seq<int>,
    k: int,
) -> bool {
    can_finish(allocation, available, needed, order[k], member_sel(order.take(k)))
}

/// Picks the threads that occur in `s`.
pub open spec fn member_sel(s: Seq<int>) -> spec_fn(int) -> bool {
    |t: int| s.contains(t)
}

/// Picks the threads marked in `fin`.
pub open spec fn marked_sel(fin: Seq<bool>) -> spec_fn(int) -> bool {
    |t: int| fin[t]
}

/// Picks every thread.
pub open spec fn all_sel() -> spec_fn(int) -> bool {
    |t: int| true
}

/// `order` lists every thread exactly once, and each thread in it can
/// finish once all threads before it have.
pub open spec fn is_safe_sequence(
    allocation: ResMatrix,
    available: ResVector,
    needed: ResMatrix,
    order: Seq<int>,
) -> bool {
    &&& order.no_duplicates()
    &&& forall|k: int| 0 <= k < order.len() ==> 0 <= #[trigger] order[k] < MAX_NUM_THREAD
    &&& forall|t: int| 0 <= t < MAX_NUM_THREAD ==> #[trigger] order.contains(t)
    &&& forall|k: int|
        0 <= k < order.len() ==> #[trigger] step_ok(allocation, available, needed, order, k)
}

/// Some order of all threads lets each of them finish in turn.
pub open spec fn is_safe_state(allocation: ResMatrix, available: ResVector, needed: ResMatrix) -> bool {
    exists|order: Seq<int>| is_safe_sequence(allocation, available, needed, order)
}

/// For each resource, what is available plus all that every thread holds
/// fits in a `usize`.
pub open spec fn totals_fit(allocation: ResMatrix, available: ResVector) -> bool {
    forall|j: int|
        0 <= j < MAX_NUM_RES ==> #[trigger] work_after(available, allocation, all_sel(), j)
            <= usize::MAX
}

/// Two selections that agree on the threads below `n` pick the same total.
pub proof fn lemma_held_by_ext(
    allocation: ResMatrix,
    s1: spec_fn(int) -> bool,
    s2: spec_fn(int) -> bool,
    j: int,
    n: int,
)
    requires
        forall|t: int| #![trigger s1(t)] #![trigger s2(t)] 0 <= t < n ==> s1(t) == s2(t),
    ensures
        held_by(allocation, s1, j, n) == held_by(allocation, s2, j, n),
    decreases n,
{
    if n > 0 {
        lemma_held_by_ext(allocation, s1, s2, j, n - 1);
    }
}

/// Picking no thread gives nothing.
pub proof fn lemma_held_by_none(allocation: ResMatrix, j: int, n: int)
    ensures
        held_by(allocation, |t: int| false, j, n) == 0,
    decreases n,
{
    if n > 0 {
        lemma_held_by_none(allocation, j, n - 1);
    }
}

/// Nobody holds anything of resource `j`: every selection totals 0.
pub proof fn lemma_held_by_zero(allocation: ResMatrix, sel: spec_fn(int) -> bool, j: int, n: int)
    requires
        n <= MAX_NUM_THREAD,
        forall|t: int| 0 <= t < n ==> #[trigger] allocation[t][j] == 0,
    ensures
        held_by(allocation, sel, j, n) == 0,
    decreases n,
{
    if n > 0 {
        lemma_held_by_zero(allocation, sel, j, n - 1);
    }
}

/// Picking more threads never lowers the total.
pub proof fn lemma_held_by_mono(
    allocation: ResMatrix,
    s1: spec_fn(int) -> bool,
    s2: spec_fn(int) -> bool,
    j: int,
    n: int,
)
    requires
        forall|t: int| 0 <= t < n && #[trigger] s1(t) ==> s2(t),
    ensures
        0 <= held_by(allocation, s1, j, n) <= held_by(allocation, s2, j, n),
    decreases n,
{
    if n > 0 {
        lemma_held_by_mono(allocation, s1, s2, j, n - 1);
    }
}

/// Adding one thread `u` to the selection adds exactly what `u` holds.
pub proof fn lemma_held_by_add(
    allocation: ResMatrix,
    s1: spec_fn(int) -> bool,
    s2: spec_fn(int) -> bool,
    u: int,
    j: int,
    n: int,
)
    requires
        0 <= u < n,
        !s1(u),
        forall|t: int| 0 <= t < n ==> #[trigger] s2(t) == (s1(t) || t == u),
    ensures
        held_by(allocation, s2, j, n) == held_by(allocation, s1, j, n) + allocation[u][j],
    decreases n,
{
    if n - 1 == u {
        lemma_held_by_ext(allocation, s1, s2, j, n - 1);
    } else {
        lemma_held_by_add(allocation, s1, s2, u, j, n - 1);
    }
}

/// Every thread in `order` is marked in `fin`, as long as every unmarked
/// thread is blocked given what the marked ones release.
proof fn lemma_order_all_marked(
    allocation: ResMatrix,
    available: ResVector,
    needed: ResMatrix,
    fin: Seq<bool>,
    order: Seq<int>,
    k: int,
)
    requires
        fin.len() == MAX_NUM_THREAD,
        forall|t: int|
            0 <= t < MAX_NUM_THREAD && !fin[t] ==> !#[trigger] can_finish(
                allocation,
                available,
                needed,
                t,
                marked_sel(fin),
            ),
        is_safe_sequence(allocation, available, needed, order),
        0 <= k <= order.len(),
    ensures
        forall|m: int| 0 <= m < k ==> fin[#[trigger] order[m]],
    decreases k,
{
    if k > 0 {
        let p = k - 1;
        lemma_order_all_marked(allocation, available, needed, fin, order, p);
        let u = order[p];
        assert(step_ok(allocation, available, needed, order, p));
        assert forall|t: int| 0 <= t < MAX_NUM_THREAD && #[trigger] member_sel(order.take(p))(t) implies marked_sel(
            fin,
        )(t) by {
            let m = choose|m: int| 0 <= m < p && order.take(p)[m] == t;
            assert(order[m] == t);
        }
        assert forall|j: int| 0 <= j < MAX_NUM_RES implies needed[u][j] <= #[trigger] work_after(
            available,
            allocation,
            marked_sel(fin),
            j,
        ) by {
            lemma_held_by_mono(allocation, member_sel(order.take(p)), marked_sel(fin), j, MAX_NUM_THREAD as int);
            assert(needed[u][j] <= work_after(available, allocation, member_sel(order.take(p)), j));
        }
        assert(can_finish(allocation, available, needed, u, marked_sel(fin)));
    }
}

/// When some thread is unmarked in `fin` and every unmarked thread is
/// blocked given what the marked ones release, no safe sequence exists.
pub proof fn lemma_stuck_is_unsafe(
    allocation: ResMatrix,
    available: ResVector,
    needed: ResMatrix,
    fin: Seq<bool>,
    u: int,
)
    requires
        fin.len() == MAX_NUM_THREAD,
        forall|t: int|
            0 <= t < MAX_NUM_THREAD && !fin[t] ==> !#[trigger] can_finish(
                allocation,
                available,
                needed,
                t,
                marked_sel(fin),
            ),
        0 <= u < MAX_NUM_THREAD,
        !fin[u],
    ensures
        !is_safe_state(allocation, available, needed),
{
    if is_safe_state(allocation, available, needed) {
        let order = choose|order: Seq<int>| is_safe_sequence(allocation, available, needed, order);
        lemma_order_all_marked(allocation, available, needed, fin, order, order.len() as int);
        assert(order.contains(u));
        let m = choose|m: int| 0 <= m < order.len() && order[m] == u;
        assert(fin[order[m]]);
    }
}

/// What all threads below `n` together hold of resource `j`.
pub open spec fn column_sum(allocation: ResMatrix, j: int, n: int) -> int
    decreases n,
{
    if n <= 0 {
        0
    } else {
        column_sum(allocation, j, n - 1) + allocation[n - 1][j]
    }
}

proof fn lemma_held_by_all(allocation: ResMatrix, j: int, n: int)
    ensures
        held_by(allocation, all_sel(), j, n) == column_sum(allocation, j, n),
    decreases n,
{
    if n > 0 {
        lemma_held_by_all(allocation, j, n - 1);
    }
}

/// A thread that waits for more units of some resource than the process has
/// at all (what is available plus what every thread holds) can never be
/// served, so the process is not in a safe state.
pub proof fn lemma_need_beyond_total_is_unsafe(
    allocation: ResMatrix,
    available: ResVector,
    needed: ResMatrix,
    t: int,
    j: int,
)
    requires
        0 <= t < MAX_NUM_THREAD,
        0 <= j < MAX_NUM_RES,
        needed[t][j] > available[j] + column_sum(allocation, j, MAX_NUM_THREAD as int),
    ensures
        !is_safe_state(allocation, available, needed),
{
    if is_safe_state(allocation, available, needed) {
        let order = choose|order: Seq<int>| is_safe_sequence(allocation, available, needed, order);
        assert(order.contains(t));
        let k = choose|k: int| 0 <= k < order.len() && order[k] == t;
        assert(step_ok(allocation, available, needed, order, k));
        assert(needed[t][j] <= work_after(available, allocation, member_sel(order.take(k)), j));
        lemma_held_by_mono(
            allocation,
            member_sel(order.take(k)),
            all_sel(),
            j,
            MAX_NUM_THREAD as int,
        );
        lemma_held_by_all(allocation, j, MAX_NUM_THREAD as int);
    }
}

/// When what is available alone covers every request of every thread, the
/// process is in a safe state (the threads can finish in any order).
pub proof fn lemma_needs_within_available_is_safe(
    allocation: ResMatrix,
    available: ResVector,
    needed: ResMatrix,
)
    requires
        forall|t: int, j: int|
            0 <= t < MAX_NUM_THREAD && 0 <= j < MAX_NUM_RES ==> #[trigger] needed[t][j]
                <= available[j],
    ensures
        is_safe_state(allocation, available, needed),
{
    let order = Seq::new(MAX_NUM_THREAD as nat, |i: int| i);
    assert forall|k: int| 0 <= k < order.len() implies #[trigger] step_ok(
        allocation,
        available,
        needed,
        order,
        k,
    ) by {
        assert forall|j: int| 0 <= j < MAX_NUM_RES implies needed[order[k]][j] <= #[trigger] work_after(
            available,
            allocation,
            member_sel(order.take(k)),
            j,
        ) by {
            lemma_held_by_mono(
                allocation,
                member_sel(order.take(k)),
                member_sel(order.take(k)),
                j,
                MAX_NUM_THREAD as int,
            );
            assert(needed[k][j] <= available[j]);
        }
    }
    assert forall|t: int| 0 <= t < MAX_NUM_THREAD implies #[trigger] order.contains(t) by {
        assert(order[t] == t);
    }
    assert(is_safe_sequence(allocation, available, needed, order));
}

proof fn lemma_held_by_below(allocation: ResMatrix, sel: spec_fn(int) -> bool, j: int, k: int, n: int)
    requires
        0 <= k,
        forall|s: int| 0 <= s < n ==> #[trigger] sel(s) == (s < k),
    ensures
        held_by(allocation, sel, j, n) == column_sum(allocation, j, if n < k { n } else { k }),
    decreases n,
{
    if n > 0 {
        lemma_held_by_below(allocation, sel, j, k, n - 1);
    }
}

/// When each thread's requests fit into what is available plus what the
/// threads with lower ids hold, the process is in a safe state: the threads
/// can finish in the order of their ids, each giving back what it holds.
pub proof fn lemma_id_order_is_safe(allocation: ResMatrix, available: ResVector, needed: ResMatrix)
    requires
        forall|t: int, j: int|
            0 <= t < MAX_NUM_THREAD && 0 <= j < MAX_NUM_RES ==> #[trigger] needed[t][j]
                <= available[j] + column_sum(allocation, j, t),
    ensures
        is_safe_state(allocation, available, needed),
{
    let order = Seq::new(MAX_NUM_THREAD as nat, |i: int| i);
    assert forall|k: int| 0 <= k < order.len() implies #[trigger] step_ok(
        allocation,
        available,
        needed,
        order,
        k,
    ) by {
        assert forall|s: int| 0 <= s < MAX_NUM_THREAD implies #[trigger] member_sel(order.take(k))(s)
            == (s < k) by {
            if s < k {
                assert(order.take(k)[s] == s);
            }
        }
        assert forall|j: int| 0 <= j < MAX_NUM_RES implies needed[order[k]][j] <= #[trigger] work_after(
            available,
            allocation,
            member_sel(order.take(k)),
            j,
        ) by {
            lemma_held_by_below(allocation, member_sel(order.take(k)), j, k, MAX_NUM_THREAD as int);
            assert(needed[k][j] <= available[j] + column_sum(allocation, j, k));
        }
    }
    assert forall|t: int| 0 <= t < MAX_NUM_THREAD implies #[trigger] order.contains(t) by {
        assert(order[t] == t);
    }
    assert(is_safe_sequence(allocation, available, needed, order));
}

} // verus!
