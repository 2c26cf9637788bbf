//! Handing out ranges of kernel virtual address space, each followed by an
//! unmapped guard page.
use vstd::prelude::*;
use crate::memory_layout::PAGE_FRAME_SIZE;

verus! {

/// Where the kernel's allocatable virtual address range starts.
pub const VIRTUAL_RANGE_BASE: u64 = 0xFFFF_C000_0000_0000;

/// `v` rounded up to a multiple of the page size.
pub open spec fn page_align_up(v: int) -> int {
    (v + PAGE_FRAME_SIZE - 1) - (v + PAGE_FRAME_SIZE - 1) % (PAGE_FRAME_SIZE as int)
}

fn align_up(v: usize, a: usize) -> (r: usize)
    requires
        a == PAGE_FRAME_SIZE,
        v + a - 1 <= usize::MAX,
    ensures
        r == page_align_up(v as int),
{
    let mask = !(a - 1);
    let r = (v + (a - 1)) & mask;
    proof {
        let x = (v + (a - 1)) as usize;
        assert(x & !0xFFFusize == x - x % 4096) by (bit_vector);
    }
    r
}

pub struct VirtualAddressAllocator {
    next_range_start: usize,
}

impl VirtualAddressAllocator {
    /// Start of the next range handed out.
    pub closed spec fn next(&self) -> usize {
        self.next_range_start
    }

    /// An allocator whose first range starts at `VIRTUAL_RANGE_BASE`.
    pub fn init() -> (r: Self)
        ensures
            r.next() == VIRTUAL_RANGE_BASE as usize,
    {
        #[verifier::truncate]
        let start = VIRTUAL_RANGE_BASE as usize;
        VirtualAddressAllocator { next_range_start: start }
    }

    /// Hands out a range of `size` bytes rounded up to whole pages; the next
    /// range starts one page after it ends.
    pub fn alloc_range(&mut self, size: usize) -> (r: usize)
        requires
            size + PAGE_FRAME_SIZE - 1 <= usize::MAX,
            old(self).next() + page_align_up(size as int) + PAGE_FRAME_SIZE <= usize::MAX,
        ensures
            r == old(self).next(),
            final(self).next() == old(self).next() + page_align_up(size as int) + PAGE_FRAME_SIZE,
    {
        let size = align_up(size, PAGE_FRAME_SIZE);
        let ret = self.next_range_start;
        self.next_range_start = self.next_range_start + (size + PAGE_FRAME_SIZE);
        ret
    }
}

/// Two ranges handed out one after the other are separated by at least one
/// page that belongs to neither.
pub proof fn lemma_ranges_separated(next: int, size1: int)
    requires
        0 <= size1,
    ensures
        next + size1 + PAGE_FRAME_SIZE <= next + page_align_up(size1) + PAGE_FRAME_SIZE,
        page_align_up(size1) % (PAGE_FRAME_SIZE as int) == 0,
{
    let m = size1 + 4095;
    assert(m - m % 4096 >= size1 && (m - m % 4096) % 4096 == 0) by (nonlinear_arith)
        requires
            m == size1 + 4095,
            size1 >= 0,
    ;
}

} // verus!
