//! Selecting the kernel's active heap: the global and proxy allocators store
//! the active allocator's address with its kind in the four low bits.
use vstd::prelude::*;

verus! {

/// The low bits of the stored word that hold the allocator's kind.
pub const ALLOCATOR_KIND_MASK: usize = 0xF;

pub const EARLY_HEAP_KIND: usize = 1;

pub const PAGED_ALLOCATOR_KIND: usize = 2;

/// The allocator that serves requests.
#[derive(Debug, Clone, Copy, PartialEq, Eq, Structural)]
pub enum ActiveAllocator {
    /// The early heap at this address.
    EarlyHeap(usize),
    /// The paged allocator at this address.
    Paged(usize),
    /// No allocator has been selected.
    Unselected,
}

/// The kind stored in the low bits of `word`.
pub open spec fn word_kind(word: usize) -> usize {
    word & ALLOCATOR_KIND_MASK
}

/// The address stored above the kind bits of `word`.
pub open spec fn word_addr(word: usize) -> usize {
    word & !ALLOCATOR_KIND_MASK
}

pub open spec fn spec_decode(word: usize) -> ActiveAllocator {
    if word_kind(word) == EARLY_HEAP_KIND {
        ActiveAllocator::EarlyHeap(word_addr(word))
    } else if word_kind(word) == PAGED_ALLOCATOR_KIND {
        ActiveAllocator::Paged(word_addr(word))
    } else {
        ActiveAllocator::Unselected
    }
}

/// Storing a 16-byte-aligned address with a kind and reading it back gives
/// both back unchanged.
pub proof fn lemma_encode_decode(addr: usize, kind: usize)
    requires
        addr % 16 == 0,
        kind <= ALLOCATOR_KIND_MASK,
    ensures
        word_kind(addr | kind) == kind,
        word_addr(addr | kind) == addr,
{
    assert(addr % 16 == 0 && kind <= 0xF ==> (addr | kind) & 0xF == kind) by (bit_vector);
    assert(addr % 16 == 0 && kind <= 0xF ==> (addr | kind) & !0xFusize == addr) by (bit_vector);
}

/// The kernel's global allocator: forwards to the early heap or to the paged allocator.
pub struct GlobalAllocator {
    active_allocator: usize,
}

impl GlobalAllocator {
    pub closed spec fn word(&self) -> usize {
        self.active_allocator
    }

    /// A global allocator with no allocator selected yet.
    pub fn new() -> (r: Self)
        ensures
            r.word() == 0,
    {
        GlobalAllocator { active_allocator: 0 }
    }

    /// The allocator that serves requests, read from the stored word.
    pub fn active(&self) -> (r: ActiveAllocator)
        ensures
            r == spec_decode(self.word()),
    {
        let addr = self.active_allocator & !ALLOCATOR_KIND_MASK;
        let kind = self.active_allocator & ALLOCATOR_KIND_MASK;
        if kind == EARLY_HEAP_KIND {
            ActiveAllocator::EarlyHeap(addr)
        } else if kind == PAGED_ALLOCATOR_KIND {
            ActiveAllocator::Paged(addr)
        } else {
            ActiveAllocator::Unselected
        }
    }
}

/// Selects the early heap at `early_heap_addr`, which must be 16-byte aligned.
pub fn switch_to_early_heap(global: &mut GlobalAllocator, early_heap_addr: usize)
    requires
        early_heap_addr % 16 == 0,
    ensures
        final(global).word() == early_heap_addr | EARLY_HEAP_KIND,
        spec_decode(final(global).word()) == ActiveAllocator::EarlyHeap(early_heap_addr),
{
    proof {
        lemma_encode_decode(early_heap_addr, EARLY_HEAP_KIND);
    }
    global.active_allocator = early_heap_addr | EARLY_HEAP_KIND;
}

/// Selects the paged allocator at `paged_allocator_addr`, which must be 16-byte aligned.
pub fn switch_to_paged_allocator(global: &mut GlobalAllocator, paged_allocator_addr: usize)
    requires
        paged_allocator_addr % 16 == 0,
    ensures
        final(global).word() == paged_allocator_addr | PAGED_ALLOCATOR_KIND,
        spec_decode(final(global).word()) == ActiveAllocator::Paged(paged_allocator_addr),
{
    proof {
        lemma_encode_decode(paged_allocator_addr, PAGED_ALLOCATOR_KIND);
    }
    global.active_allocator = paged_allocator_addr | PAGED_ALLOCATOR_KIND;
}

/// An allocator that forwards to the paged allocator once one is selected.
pub struct ProxyAllocator(usize);

impl ProxyAllocator {
    pub closed spec fn word(&self) -> usize {
        self.0
    }

    /// A proxy with no allocator selected.
    pub fn init() -> (r: Self)
        ensures
            r.word() == 0,
    {
        ProxyAllocator(0)
    }

    /// Selects the paged allocator at `allocator_addr`, which must be 16-byte aligned.
    pub fn switch_to_paged_allocator(&mut self, allocator_addr: usize)
        requires
            allocator_addr % 16 == 0,
        ensures
            final(self).word() == allocator_addr | PAGED_ALLOCATOR_KIND,
            final(self).target() == (if allocator_addr != 0 {
                Some(allocator_addr)
            } else {
                None
            }),
    {
        proof {
            lemma_encode_decode(allocator_addr, PAGED_ALLOCATOR_KIND);
        }
        self.0 = allocator_addr | PAGED_ALLOCATOR_KIND;
    }

    pub open spec fn target(&self) -> Option<usize> {
        if word_kind(self.word()) == PAGED_ALLOCATOR_KIND && word_addr(self.word()) != 0 {
            Some(word_addr(self.word()))
        } else {
            None
        }
    }

    /// The paged allocator that serves requests, if a non-null one is
    /// selected; without one, requests get no memory.
    pub fn paged_allocator(&self) -> (r: Option<usize>)
        ensures
            r == self.target(),
    {
        let addr = self.0 & !ALLOCATOR_KIND_MASK;
        let kind = self.0 & ALLOCATOR_KIND_MASK;
        if kind == PAGED_ALLOCATOR_KIND && addr != 0 {
            Some(addr)
        } else {
            None
        }
    }
}

} // verus!
