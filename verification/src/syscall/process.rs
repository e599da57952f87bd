//! Process-management system calls: exit, yield, the program break, memory
//! mapping, the clock and task info.
use vstd::prelude::*;
use crate::config::PAGE_SIZE;
use crate::task::TaskAction;
use crate::task::info::TaskInfo;
use crate::task::memory::{
    end_vpn, first_vpn, map_range, moved_brk, range_free, range_mapped, unmap_range, vpn_range,
    AddressSpace, TaskHeap,
};

verus! {

/// A point in time, in seconds and microseconds.
#[derive(Debug)]
pub struct TimeVal {
    pub sec: usize,
    pub usec: usize,
}

/// The task exits with `exit_code`: the scheduler is to end it and run
/// another task.
pub fn sys_exit(exit_code: i32) -> (action: TaskAction)
    ensures
        action == TaskAction::Exit(exit_code),
{
    TaskAction::Exit(exit_code)
}

/// The task gives up the processor: the scheduler is to suspend it and run
/// another task; the call then returns 0.
pub fn sys_yield() -> (r: (TaskAction, isize))
    ensures
        r == (TaskAction::Suspend, 0isize),
{
    (TaskAction::Suspend, 0)
}

/// Moves the program break by `size` bytes and returns the old break, or
/// -1, with nothing changed, when the new break would lie below the bottom
/// of the heap.
pub fn sys_sbrk(heap: &mut TaskHeap, size: i32) -> (r: isize)
    requires
        old(heap).heap_bottom <= isize::MAX,
        old(heap).program_brk <= isize::MAX,
        old(heap).program_brk + size <= isize::MAX,
    ensures
        old(heap).program_brk + size < old(heap).heap_bottom ==> r == -1 && *final(heap) == *old(
            heap,
        ),
        old(heap).program_brk + size >= old(heap).heap_bottom ==> r == old(heap).program_brk
            && *final(heap) == moved_brk(*old(heap), size as int),
        old(heap).program_brk + size >= old(heap).heap_bottom ==> final(heap).program_brk == old(
            heap,
        ).program_brk + size,
        final(heap).heap_bottom == old(heap).heap_bottom,
        r == -1 || r == old(heap).program_brk,
{
    if let Some(old_brk) = heap.change_program_brk(size) {
        old_brk as isize
    } else {
        -1
    }
}

/// Moving the break by `size` and then by `-size` gives back the heap one
/// started with, as long as the first move succeeds.
pub proof fn lemma_sbrk_roundtrip(heap: TaskHeap, size: int)
    requires
        heap.heap_bottom <= heap.program_brk,
        heap.program_brk + size >= heap.heap_bottom,
        heap.program_brk + size <= usize::MAX,
    ensures
        moved_brk(heap, size).program_brk - size >= moved_brk(heap, size).heap_bottom,
        moved_brk(moved_brk(heap, size), -size) == heap,
{
}

/// A mapping request that `sys_mmap` grants: `start` is page-aligned,
/// `port` has some of its read, write and execute bits and no other bit,
/// and no page of `[start, start + len)` is mapped yet.
pub open spec fn mmap_accepts(space: Map<usize, u8>, start: usize, len: usize, port: usize) -> bool {
    &&& start % PAGE_SIZE == 0
    &&& port & !0x7usize == 0
    &&& port & 0x7usize != 0
    &&& range_free(space, first_vpn(start), end_vpn(start, len))
}

/// An unmapping request that `sys_munmap` grants: `start` is page-aligned
/// and every page of `[start, start + len)` is mapped.
pub open spec fn munmap_accepts(space: Map<usize, u8>, start: usize, len: usize) -> bool {
    &&& start % PAGE_SIZE == 0
    &&& range_mapped(space, first_vpn(start), end_vpn(start, len))
}

/// The ports that `sys_mmap` takes are exactly 1 to 7: some of the read,
/// write and execute bits and no other bit.
pub proof fn lemma_valid_port(port: usize)
    ensures
        (port & !0x7usize == 0 && port & 0x7usize != 0) <==> (1 <= port <= 7),
{
    assert((port & !0x7usize == 0 && port & 0x7usize != 0) <==> (1 <= port <= 7)) by (bit_vector);
}

/// `sys_mmap` grants a request exactly when `start` is page-aligned, `port`
/// is one of 1 to 7, and no page that `[start, start + len)` touches is
/// mapped; what else is mapped plays no part.
pub proof fn lemma_mmap_accepts(space: Map<usize, u8>, start: usize, len: usize, port: usize)
    ensures
        mmap_accepts(space, start, len, port) <==> (start % 4096 == 0 && 1 <= port <= 7 && forall|
            v: usize,
        | start / 4096 <= v < (start + len + 4095) / 4096 ==> !(#[trigger] space.contains_key(v))),
{
    lemma_valid_port(port);
}

/// A granted mapping maps exactly the pages that `[start, start + len)`
/// touches, each with the permission bits `port`, and leaves every other
/// page as it was.
pub proof fn lemma_map_range(space: Map<usize, u8>, start: usize, len: usize, perm: u8)
    ensures
        forall|v: usize|
            #![trigger map_range(space, first_vpn(start), end_vpn(start, len), perm).contains_key(v)]
            start / 4096 <= v < (start + len + 4095) / 4096 ==> map_range(
                space,
                first_vpn(start),
                end_vpn(start, len),
                perm,
            ).contains_key(v) && map_range(space, first_vpn(start), end_vpn(start, len), perm)[v]
                == perm,
        forall|v: usize|
            #![trigger map_range(space, first_vpn(start), end_vpn(start, len), perm).contains_key(v)]
            !(start / 4096 <= v < (start + len + 4095) / 4096) ==> map_range(
                space,
                first_vpn(start),
                end_vpn(start, len),
                perm,
            ).contains_key(v) == space.contains_key(v) && (space.contains_key(v) ==> map_range(
                space,
                first_vpn(start),
                end_vpn(start, len),
                perm,
            )[v] == space[v]),
{
}

/// `sys_munmap` grants a request exactly when `start` is page-aligned and
/// every page that `[start, start + len)` touches is mapped.
pub proof fn lemma_munmap_accepts(space: Map<usize, u8>, start: usize, len: usize)
    ensures
        munmap_accepts(space, start, len) <==> (start % 4096 == 0 && forall|v: usize|
            start / 4096 <= v < (start + len + 4095) / 4096 ==> #[trigger] space.contains_key(v)),
{
}

/// A granted unmapping removes exactly the pages that `[start, start + len)`
/// touches and leaves every other page as it was.
pub proof fn lemma_unmap_range(space: Map<usize, u8>, start: usize, len: usize)
    ensures
        forall|v: usize|
            #![trigger unmap_range(space, first_vpn(start), end_vpn(start, len)).contains_key(v)]
            unmap_range(space, first_vpn(start), end_vpn(start, len)).contains_key(v) == (
            space.contains_key(v) && !(start / 4096 <= v < (start + len + 4095) / 4096)),
        forall|v: usize|
            #![trigger unmap_range(space, first_vpn(start), end_vpn(start, len)).contains_key(v)]
            unmap_range(space, first_vpn(start), end_vpn(start, len)).contains_key(v) ==> unmap_range(
                space,
                first_vpn(start),
                end_vpn(start, len),
            )[v] == space[v],
{
}

/// Maps the pages of `[start, start + len)` with the permission bits of
/// `port` (read 1, write 2, execute 4) and returns 0; returns -1, with
/// nothing mapped, when `mmap_accepts` does not hold.
pub fn sys_mmap(space: &mut AddressSpace, start: usize, len: usize, port: usize) -> (r: isize)
    requires
        start + len <= usize::MAX,
    ensures
        mmap_accepts(old(space).view(), start, len, port) ==> r == 0 && final(space).view()
            == map_range(old(space).view(), first_vpn(start), end_vpn(start, len), port as u8),
        !mmap_accepts(old(space).view(), start, len, port) ==> r == -1 && final(space).view()
            == old(space).view(),
        r == 0 || r == -1,
        r == 0 <==> (start % PAGE_SIZE == 0 && 1 <= port <= 7 && forall|v: usize|
            start / PAGE_SIZE <= v < (start + len + PAGE_SIZE - 1) / (PAGE_SIZE as int) ==> !(#[trigger] old(space).view().contains_key(v))),
        r == 0 ==> forall|v: usize|
            start / PAGE_SIZE <= v < (start + len + PAGE_SIZE - 1) / (PAGE_SIZE as int) ==> #[trigger] final(space).view().contains_key(v) && final(space).view()[v] == port,
        forall|v: usize|
            !(r == 0 && start / PAGE_SIZE <= v < (start + len + PAGE_SIZE - 1) / (PAGE_SIZE as int)) ==> (
            #[trigger] final(space).view().contains_key(v) == old(space).view().contains_key(v) && (
            old(space).view().contains_key(v) ==> final(space).view()[v] == old(space).view()[v])),
{
    proof {
        lemma_valid_port(port);
    }
    if start % PAGE_SIZE != 0 {
        return -1;
    }
    if port & !0x7 != 0 {
        return -1;
    }
    if port & 0x7 == 0 {
        return -1;
    }
    proof {
        lemma_valid_port(port);
    }
    let (lo, hi) = vpn_range(start, len);
    if space.any_mapped(lo, hi) {
        return -1;
    }
    assert(port < 256) by (bit_vector)
        requires
            port & !0x7usize == 0,
    ;
    space.map_pages(lo, hi, port as u8);
    0
}

/// Unmaps the pages of `[start, start + len)` and returns 0; returns -1,
/// with nothing unmapped, when `munmap_accepts` does not hold.
pub fn sys_munmap(space: &mut AddressSpace, start: usize, len: usize) -> (r: isize)
    requires
        start + len <= usize::MAX,
    ensures
        munmap_accepts(old(space).view(), start, len) ==> r == 0 && final(space).view()
            == unmap_range(old(space).view(), first_vpn(start), end_vpn(start, len)),
        !munmap_accepts(old(space).view(), start, len) ==> r == -1 && final(space).view() == old(
            space,
        ).view(),
        r == 0 || r == -1,
        r == 0 <==> (start % PAGE_SIZE == 0 && forall|v: usize|
            start / PAGE_SIZE <= v < (start + len + PAGE_SIZE - 1) / (PAGE_SIZE as int) ==> #[trigger] old(space).view().contains_key(v)),
        r == 0 ==> forall|v: usize|
            start / PAGE_SIZE <= v < (start + len + PAGE_SIZE - 1) / (PAGE_SIZE as int) ==> !(#[trigger] final(space).view().contains_key(v)),
        forall|v: usize|
            !(r == 0 && start / PAGE_SIZE <= v < (start + len + PAGE_SIZE - 1) / (PAGE_SIZE as int)) ==> (
            #[trigger] final(space).view().contains_key(v) == old(space).view().contains_key(v) && (
            old(space).view().contains_key(v) ==> final(space).view()[v] == old(space).view()[v])),
{
    if start % PAGE_SIZE != 0 {
        return -1;
    }
    let (lo, hi) = vpn_range(start, len);
    if !space.all_mapped(lo, hi) {
        return -1;
    }
    space.unmap_pages(lo, hi);
    0
}

/// After a granted mapping, unmapping the same range is granted too and
/// gives back the address space one started with.
pub proof fn lemma_mmap_munmap_roundtrip(space: Map<usize, u8>, start: usize, len: usize, port: usize)
    requires
        mmap_accepts(space, start, len, port),
    ensures
        munmap_accepts(
            map_range(space, first_vpn(start), end_vpn(start, len), port as u8),
            start,
            len,
        ),
        unmap_range(
            map_range(space, first_vpn(start), end_vpn(start, len), port as u8),
            first_vpn(start),
            end_vpn(start, len),
        ) == space,
{
    let lo = first_vpn(start);
    let hi = end_vpn(start, len);
    let mapped = map_range(space, lo, hi, port as u8);
    assert(unmap_range(mapped, lo, hi) =~= space);
}

/// Writes the time `us` microseconds into `ts` as seconds and
/// microseconds, and returns 0.
pub fn sys_get_time(ts: &mut TimeVal, _tz: usize, us: usize) -> (r: isize)
    ensures
        r == 0,
        final(ts).sec == us / 1_000_000,
        final(ts).usec == us % 1_000_000,
        final(ts).sec * 1_000_000 + final(ts).usec == us,
        final(ts).usec < 1_000_000,
{
    *ts = TimeVal { sec: us / 1_000_000, usec: us % 1_000_000 };
    0
}

/// Writes the info of the current task, `current`, into `ti` and returns 0.
pub fn sys_task_info(ti: &mut TaskInfo, current: &TaskInfo) -> (r: isize)
    ensures
        r == 0,
        *final(ti) == *current,
{
    *ti = *current;
    0
}

} // verus!
