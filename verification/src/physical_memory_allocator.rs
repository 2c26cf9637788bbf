//! The physical memory allocator's free lists of huge and large page frames.
use vstd::prelude::*;
use crate::memory_regions::{MemoryPage, HUGE_PAGE_SIZE, LARGE_PAGE_SIZE};

verus! {

/// Free page frames, kept as stacks: the frame freed last is on top.
pub struct PhysicalMemoryAllocator {
    hhdm_offset: usize,
    huge_pages: Vec<usize>,
    large_pages: Vec<usize>,
}

impl PhysicalMemoryAllocator {
    /// Offset of the higher-half direct map; 0 until the allocator is initialized.
    pub closed spec fn spec_hhdm_offset(&self) -> usize {
        self.hhdm_offset
    }

    /// The free huge frames by physical address, oldest first.
    pub closed spec fn free_huge(&self) -> Seq<usize> {
        self.huge_pages@
    }

    /// The free large frames by physical address, oldest first.
    pub closed spec fn free_large(&self) -> Seq<usize> {
        self.large_pages@
    }

    /// An allocator not yet initialized, with no free frames.
    pub fn new() -> (r: Self)
        ensures
            r.spec_hhdm_offset() == 0,
            r.free_huge() == Seq::<usize>::empty(),
            r.free_large() == Seq::<usize>::empty(),
    {
        PhysicalMemoryAllocator { hhdm_offset: 0, huge_pages: Vec::new(), large_pages: Vec::new() }
    }

    /// Initializes the allocator with the direct map's offset; it may be
    /// initialized only once.
    pub fn init(&mut self, hhdm_offset: usize)
        requires
            old(self).spec_hhdm_offset() == 0,
        ensures
            final(self).spec_hhdm_offset() == hhdm_offset,
            final(self).free_huge() == old(self).free_huge(),
            final(self).free_large() == old(self).free_large(),
    {
        self.hhdm_offset = hhdm_offset;
    }

    /// The address, in the direct map, of the free-list node kept in the frame at `phys_addr`.
    pub fn frame_block_address(&self, phys_addr: usize) -> (r: usize)
        requires
            self.spec_hhdm_offset() + phys_addr <= usize::MAX,
        ensures
            r == self.spec_hhdm_offset() + phys_addr,
    {
        self.hhdm_offset + phys_addr
    }

    /// Puts a huge page on top of the free huge frames; the allocator must be initialized.
    pub fn free_huge_page(&mut self, page: MemoryPage<HUGE_PAGE_SIZE>)
        requires
            old(self).spec_hhdm_offset() != 0,
            old(self).spec_hhdm_offset() + page.base_address <= usize::MAX,
        ensures
            final(self).free_huge() == old(self).free_huge().push(page.base_address),
            final(self).free_large() == old(self).free_large(),
            final(self).spec_hhdm_offset() == old(self).spec_hhdm_offset(),
    {
        self.huge_pages.push(page.base_address);
    }

    /// Puts a large page on top of the free large frames; the allocator must be initialized.
    pub fn free_large_page(&mut self, page: MemoryPage<LARGE_PAGE_SIZE>)
        requires
            old(self).spec_hhdm_offset() != 0,
            old(self).spec_hhdm_offset() + page.base_address <= usize::MAX,
        ensures
            final(self).free_large() == old(self).free_large().push(page.base_address),
            final(self).free_huge() == old(self).free_huge(),
            final(self).spec_hhdm_offset() == old(self).spec_hhdm_offset(),
    {
        self.large_pages.push(page.base_address);
    }

    /// Each free list holds no more frames than a `usize` can count.
    pub proof fn lemma_free_lists_bounded(&self)
        ensures
            self.free_huge().len() <= usize::MAX,
            self.free_large().len() <= usize::MAX,
    {
        assert(self.huge_pages@.len() == self.huge_pages.len());
        assert(self.large_pages@.len() == self.large_pages.len());
    }

    /// The most recently freed huge frame, if any.
    pub fn last_huge_page(&self) -> (r: Option<usize>)
        ensures
            r == (if self.free_huge().len() == 0 {
                None
            } else {
                Some(self.free_huge().last())
            }),
    {
        if self.huge_pages.len() == 0 {
            None
        } else {
            Some(self.huge_pages[self.huge_pages.len() - 1])
        }
    }

    /// The most recently freed large frame, if any.
    pub fn last_large_page(&self) -> (r: Option<usize>)
        ensures
            r == (if self.free_large().len() == 0 {
                None
            } else {
                Some(self.free_large().last())
            }),
    {
        if self.large_pages.len() == 0 {
            None
        } else {
            Some(self.large_pages[self.large_pages.len() - 1])
        }
    }
}

} // verus!
