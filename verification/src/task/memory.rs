//! The memory of a task as its memory system calls see it: the program
//! break of its heap, and which virtual pages are mapped with which
//! permission bits (read 1, write 2, execute 4).
use vstd::prelude::*;
use vstd::hash_map::HashMapWithView;
use crate::config::PAGE_SIZE;

verus! {

/// The heap of a task: it starts at `heap_bottom` and ends at the program
/// break `program_brk`.
pub struct TaskHeap {
    pub heap_bottom: usize,
    pub program_brk: usize,
}

/// The heap `h` with its program break moved by `size` bytes.
pub open spec fn moved_brk(h: TaskHeap, size: int) -> TaskHeap {
    TaskHeap { program_brk: (h.program_brk + size) as usize, ..h }
}

impl TaskHeap {
    /// Moves the program break by `size` bytes.  Returns the old break, or
    /// `None`, with nothing changed, when the new break would lie below the
    /// bottom of the heap.
    pub fn change_program_brk(&mut self, size: i32) -> (old_brk: Option<usize>)
        requires
            old(self).heap_bottom <= isize::MAX,
            old(self).program_brk <= isize::MAX,
            old(self).program_brk + size <= isize::MAX,
        ensures
            old(self).program_brk + size < old(self).heap_bottom ==> old_brk is None && *final(self)
                == *old(self),
            old(self).program_brk + size >= old(self).heap_bottom ==> old_brk == Some(
                old(self).program_brk,
            ) && *final(self) == moved_brk(*old(self), size as int),
    {
        let old_break = self.program_brk;
        let new_brk: isize = self.program_brk as isize + size as isize;
        if new_brk < self.heap_bottom as isize {
            return None;
        }
        self.program_brk = new_brk as usize;
        Some(old_break)
    }
}

/// The mapped virtual pages of a task, by page number, with their
/// permission bits.
pub struct AddressSpace {
    pages: HashMapWithView<usize, u8>,
}

/// First page number of the range `[start, start + len)`.
pub open spec fn first_vpn(start: usize) -> int {
    start as int / PAGE_SIZE as int
}

/// One past the last page number that the range `[start, start + len)`
/// touches.
pub open spec fn end_vpn(start: usize, len: usize) -> int {
    (start + len + PAGE_SIZE - 1) / PAGE_SIZE as int
}

/// No page in `[lo, hi)` is mapped.
pub open spec fn range_free(m: Map<usize, u8>, lo: int, hi: int) -> bool {
    forall|v: usize| lo <= v < hi ==> !#[trigger] m.contains_key(v)
}

/// Every page in `[lo, hi)` is mapped.
pub open spec fn range_mapped(m: Map<usize, u8>, lo: int, hi: int) -> bool {
    forall|v: usize| lo <= v < hi ==> #[trigger] m.contains_key(v)
}

/// `m` with the pages in `[lo, hi)` mapped with permission `perm`.
pub open spec fn map_range(m: Map<usize, u8>, lo: int, hi: int, perm: u8) -> Map<usize, u8> {
    Map::new(
        |v: usize| m.contains_key(v) || (lo <= v < hi),
        |v: usize|
            if lo <= v < hi {
                perm
            } else {
                m[v]
            },
    )
}

/// `m` without the pages in `[lo, hi)`.
pub open spec fn unmap_range(m: Map<usize, u8>, lo: int, hi: int) -> Map<usize, u8> {
    Map::new(|v: usize| m.contains_key(v) && !(lo <= v < hi), |v: usize| m[v])
}

impl AddressSpace {
    /// Page number to permission bits, for every mapped page.
    pub closed spec fn view(&self) -> Map<usize, u8> {
        self.pages@
    }

    /// An address space with no page mapped.
    pub fn new() -> (space: Self)
        ensures
            space.view() == Map::<usize, u8>::empty(),
    {
        proof {
            broadcast use vstd::std_specs::hash::axiom_usize_obeys_hash_table_key_model;
        }
        AddressSpace { pages: HashMapWithView::new() }
    }

    /// Permission bits of page `vpn`, if it is mapped.
    pub fn translate(&self, vpn: usize) -> (perm: Option<u8>)
        ensures
            perm == if self.view().contains_key(vpn) {
                Some(self.view()[vpn])
            } else {
                None
            },
    {
        match self.pages.get(&vpn) {
            Some(p) => Some(*p),
            None => None,
        }
    }

    /// Whether some page in `[lo, hi)` is mapped.
    pub(crate) fn any_mapped(&self, lo: usize, hi: usize) -> (found: bool)
        ensures
            found == !range_free(self.view(), lo as int, hi as int),
    {
        let mut vpn = lo;
        while vpn < hi
            invariant
                lo <= vpn,
                range_free(self.view(), lo as int, vpn as int),
            decreases hi - vpn,
        {
            if self.pages.contains_key(&vpn) {
                return true;
            }
            vpn += 1;
        }
        false
    }

    /// Whether every page in `[lo, hi)` is mapped.
    pub(crate) fn all_mapped(&self, lo: usize, hi: usize) -> (found: bool)
        ensures
            found == range_mapped(self.view(), lo as int, hi as int),
    {
        let mut vpn = lo;
        while vpn < hi
            invariant
                lo <= vpn,
                range_mapped(self.view(), lo as int, vpn as int),
            decreases hi - vpn,
        {
            if !self.pages.contains_key(&vpn) {
                return false;
            }
            vpn += 1;
        }
        true
    }

    /// Maps every page in `[lo, hi)` with permission `perm`.
    pub(crate) fn map_pages(&mut self, lo: usize, hi: usize, perm: u8)
        ensures
            final(self).view() == map_range(old(self).view(), lo as int, hi as int, perm),
    {
        let mut vpn = lo;
        while vpn < hi
            invariant
                lo <= vpn,
                lo < hi ==> vpn <= hi,
                lo >= hi ==> vpn == lo,
                self.view() == map_range(old(self).view(), lo as int, vpn as int, perm),
            decreases hi - vpn,
        {
            self.pages.insert(vpn, perm);
            vpn += 1;
        }
        proof {
            if lo >= hi {
                assert(map_range(old(self).view(), lo as int, vpn as int, perm) =~= map_range(
                    old(self).view(),
                    lo as int,
                    hi as int,
                    perm,
                ));
            }
        }
    }

    /// Unmaps every page in `[lo, hi)`.
    pub(crate) fn unmap_pages(&mut self, lo: usize, hi: usize)
        ensures
            final(self).view() == unmap_range(old(self).view(), lo as int, hi as int),
    {
        let mut vpn = lo;
        while vpn < hi
            invariant
                lo <= vpn,
                lo < hi ==> vpn <= hi,
                lo >= hi ==> vpn == lo,
                self.view() == unmap_range(old(self).view(), lo as int, vpn as int),
            decreases hi - vpn,
        {
            self.pages.remove(&vpn);
            vpn += 1;
        }
        proof {
            if lo >= hi {
                assert(unmap_range(old(self).view(), lo as int, vpn as int) =~= unmap_range(
                    old(self).view(),
                    lo as int,
                    hi as int,
                ));
            }
        }
    }
}

/// Page numbers `[first_vpn(start), end_vpn(start, len))` of the range
/// `[start, start + len)`.
pub fn vpn_range(start: usize, len: usize) -> (r: (usize, usize))
    requires
        start + len <= usize::MAX,
    ensures
        r.0 == first_vpn(start),
        r.1 == end_vpn(start, len),
{
    let end = start + len;
    let hi = end / PAGE_SIZE + if end % PAGE_SIZE == 0 {
        0
    } else {
        1
    };
    (start / PAGE_SIZE, hi)
}

} // verus!
