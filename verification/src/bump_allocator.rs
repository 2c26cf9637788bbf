//! The kernel's bump allocators: the static heap of the paged allocator and
//! the early heap, which hand out consecutive aligned blocks and never free.
use vstd::prelude::*;

verus! {

/// Size of the paged allocator's static heap: 512 KiB.
pub const STATIC_HEAP_SIZE: usize = 0x8_0000;

/// `align` has a single bit set.
pub open spec fn is_power_of_two(align: usize) -> bool {
    align != 0 && align & ((align - 1) as usize) == 0
}

/// `x` has none of the low bits below the power of two `a` set.
pub open spec fn aligned_to(x: usize, a: usize) -> bool {
    x & ((a - 1) as usize) == 0
}

/// `v` rounded up with the mask of `a`: for a power of two, the first multiple of `a` from `v` on.
pub open spec fn spec_align_up(v: usize, a: usize) -> int {
    if a == 0 {
        v as int
    } else {
        (((v + a - 1) as usize) & !((a - 1) as usize)) as int
    }
}

/// Rounding up lands on a multiple of a power-of-two alignment, less than one alignment away.
pub proof fn lemma_align_up(v: usize, a: usize)
    requires
        is_power_of_two(a),
        v + a - 1 <= usize::MAX,
    ensures
        v <= spec_align_up(v, a) < v + a,
        aligned_to(spec_align_up(v, a) as usize, a),
{
    let m = (a - 1) as usize;
    let x = (v + m) as usize;
    assert((x & !m) == x - (x & m)) by (bit_vector);
    assert((x & m) <= m) by (bit_vector);
    assert(((x & !m) & m) == 0) by (bit_vector);
}

/// Rounds `v` up to `a`; an alignment of 0 leaves `v` as it is.
fn align_up(v: usize, a: usize) -> (r: usize)
    requires
        a == 0 || v + a - 1 <= usize::MAX,
    ensures
        r == spec_align_up(v, a),
{
    if a == 0 {
        return v;
    }
    let mask = a - 1;
    (v + mask) & !mask
}

/// The block a bump allocator at `next` hands out for `size` bytes aligned to
/// `align` when the heap ends at `limit`: the aligned start and the new next
/// position, or nothing when the block would reach the limit.
pub open spec fn spec_bump(next: usize, size: usize, align: usize, limit: usize) -> Option<(usize, usize)> {
    let start = spec_align_up(next, align);
    if start + size >= limit {
        None
    } else {
        Some((start as usize, (start + size) as usize))
    }
}

/// Bumping overflows nothing.
pub open spec fn bump_defined(next: usize, size: usize, align: usize) -> bool {
    &&& align == 0 || next + align - 1 <= usize::MAX
    &&& spec_align_up(next, align) + size <= usize::MAX
}

/// Two blocks handed out one after the other do not overlap: the second starts
/// where the first ends or later, and both lie below the limit and are aligned.
pub proof fn lemma_bump_blocks_disjoint(
    next: usize,
    size1: usize,
    align1: usize,
    size2: usize,
    align2: usize,
    limit: usize,
)
    requires
        is_power_of_two(align1),
        is_power_of_two(align2),
        bump_defined(next, size1, align1),
        spec_bump(next, size1, align1, limit) is Some,
        bump_defined(spec_bump(next, size1, align1, limit).unwrap().1, size2, align2),
        spec_bump(spec_bump(next, size1, align1, limit).unwrap().1, size2, align2, limit) is Some,
    ensures
        ({
            let (s1, n1) = spec_bump(next, size1, align1, limit).unwrap();
            let (s2, n2) = spec_bump(n1, size2, align2, limit).unwrap();
            &&& next <= s1
            &&& s1 + size1 == n1 <= s2
            &&& s2 + size2 == n2 < limit
            &&& aligned_to(s1, align1)
            &&& aligned_to(s2, align2)
        }),
{
    lemma_align_up(next, align1);
    let n1 = spec_bump(next, size1, align1, limit).unwrap().1;
    lemma_align_up(n1, align2);
}

/// The blocks, as (start, size, alignment), that a bump allocator at `next`
/// with the limit `limit` hands out for the requests `reqs` of (size,
/// alignment), in order; a refused request changes nothing and hands out nothing.
pub open spec fn bump_history(next: usize, reqs: Seq<(usize, usize)>, limit: usize) -> Seq<
    (usize, usize, usize),
>
    decreases reqs.len(),
{
    if reqs.len() == 0 {
        Seq::empty()
    } else {
        match spec_bump(next, reqs[0].0, reqs[0].1, limit) {
            Some((s, n)) => seq![(s, reqs[0].0, reqs[0].1)] + bump_history(n, reqs.drop_first(), limit),
            None => bump_history(next, reqs.drop_first(), limit),
        }
    }
}

/// Every request of `reqs`, served in order from `next`, has a power-of-two
/// alignment and overflows nothing.
pub open spec fn bump_history_defined(next: usize, reqs: Seq<(usize, usize)>, limit: usize) -> bool
    decreases reqs.len(),
{
    if reqs.len() == 0 {
        true
    } else {
        &&& is_power_of_two(reqs[0].1)
        &&& bump_defined(next, reqs[0].0, reqs[0].1)
        &&& match spec_bump(next, reqs[0].0, reqs[0].1, limit) {
            Some((s, n)) => bump_history_defined(n, reqs.drop_first(), limit),
            None => bump_history_defined(next, reqs.drop_first(), limit),
        }
    }
}

/// Whatever sequence of requests a bump allocator serves, the blocks it hands
/// out lie between its starting position and its limit, each is aligned as
/// requested, and each ends at or before the start of every later one, so no
/// two of them overlap: nothing is ever handed out twice.
pub proof fn lemma_bump_history_disjoint(next: usize, reqs: Seq<(usize, usize)>, limit: usize)
    requires
        bump_history_defined(next, reqs, limit),
    ensures
        ({
            let h = bump_history(next, reqs, limit);
            &&& forall|i: int|
                0 <= i < h.len() ==> next <= (#[trigger] h[i]).0 && h[i].0 + h[i].1 < limit
                    && aligned_to(h[i].0, h[i].2)
            &&& forall|i: int, j: int|
                0 <= i < j < h.len() ==> (#[trigger] h[i]).0 + h[i].1 <= (#[trigger] h[j]).0
        }),
    decreases reqs.len(),
{
    if reqs.len() > 0 {
        let (size, align) = reqs[0];
        lemma_align_up(next, align);
        let rest_reqs = reqs.drop_first();
        match spec_bump(next, size, align, limit) {
            Some((s, n)) => {
                lemma_bump_history_disjoint(n, rest_reqs, limit);
                let h = bump_history(next, reqs, limit);
                let rest = bump_history(n, rest_reqs, limit);
                assert(h == seq![(s, size, align)] + rest);
                assert forall|i: int| 0 <= i < h.len() implies next <= (#[trigger] h[i]).0 && h[i].0
                    + h[i].1 < limit && aligned_to(h[i].0, h[i].2) by {
                    if i > 0 {
                        assert(h[i] == rest[i - 1]);
                    }
                }
                assert forall|i: int, j: int| 0 <= i < j < h.len() implies (#[trigger] h[i]).0
                    + h[i].1 <= (#[trigger] h[j]).0 by {
                    assert(h[j] == rest[j - 1]);
                    if i > 0 {
                        assert(h[i] == rest[i - 1]);
                    }
                }
            },
            None => {
                lemma_bump_history_disjoint(next, rest_reqs, limit);
                assert(bump_history(next, reqs, limit) == bump_history(next, rest_reqs, limit));
            },
        }
    }
}

/// An offset handed out by the static heap, added to the heap's address
/// `heap_base`, gives a block that lies inside the heap's memory; where that
/// address is aligned to the requested power of two, so is the block's address.
pub proof fn lemma_static_heap_block_address(heap_base: usize, next: usize, size: usize, align: usize)
    requires
        is_power_of_two(align),
        bump_defined(next, size, align),
        spec_bump(next, size, align, STATIC_HEAP_SIZE) is Some,
        heap_base + STATIC_HEAP_SIZE <= usize::MAX,
    ensures
        ({
            let s = spec_bump(next, size, align, STATIC_HEAP_SIZE).unwrap().0;
            &&& heap_base <= heap_base + s
            &&& heap_base + s + size < heap_base + STATIC_HEAP_SIZE
            &&& aligned_to(heap_base, align) ==> aligned_to((heap_base + s) as usize, align)
        }),
{
    lemma_align_up(next, align);
    let s = spec_bump(next, size, align, STATIC_HEAP_SIZE).unwrap().0;
    let m = (align - 1) as usize;
    if aligned_to(heap_base, align) {
        assert(align & m == 0);
        assert(heap_base & m == 0);
        assert(s & m == 0);
        assert((heap_base + s) as usize & m == 0) by (bit_vector)
            requires
                align != 0,
                m == (align - 1) as usize,
                align & m == 0,
                heap_base & m == 0,
                s & m == 0,
        ;
    }
}

/// The paged allocator's static heap: blocks are offsets into a heap of
/// `STATIC_HEAP_SIZE` bytes, handed out in increasing order.
pub struct Allocator {
    static_heap_next_available_idx: usize,
}

impl Allocator {
    /// The offset of the first byte not yet handed out.
    pub closed spec fn next_idx(&self) -> usize {
        self.static_heap_next_available_idx
    }

    pub fn init() -> (r: Self)
        ensures
            r.next_idx() == 0,
    {
        Allocator { static_heap_next_available_idx: 0 }
    }

    /// Hands out `size` bytes aligned to `align` as an offset into the static
    /// heap, or nothing once the heap is used up.
    pub fn allocate(&mut self, size: usize, align: usize) -> (r: Option<usize>)
        requires
            bump_defined(old(self).next_idx(), size, align),
        ensures
            match spec_bump(old(self).next_idx(), size, align, STATIC_HEAP_SIZE) {
                Some((start, next)) => r == Some(start) && final(self).next_idx() == next,
                None => r is None && final(self).next_idx() == old(self).next_idx(),
            },
    {
        let next_available_idx = self.static_heap_next_available_idx;
        let static_start = align_up(next_available_idx, align);
        let static_end = static_start + size;
        if static_end >= STATIC_HEAP_SIZE {
            return None;
        }
        self.static_heap_next_available_idx = static_end;
        Some(static_start)
    }

    /// Hands out `size` bytes aligned to `align` from the static heap whose
    /// memory starts at address `heap_base`: the block's address, or nothing
    /// once the heap is used up. The heap's address must itself be aligned to
    /// `align`, or the block's address would not be.
    pub fn allocate_at(&mut self, heap_base: usize, size: usize, align: usize) -> (r: Option<usize>)
        requires
            is_power_of_two(align),
            bump_defined(old(self).next_idx(), size, align),
            heap_base + STATIC_HEAP_SIZE <= usize::MAX,
            aligned_to(heap_base, align),
        ensures
            match spec_bump(old(self).next_idx(), size, align, STATIC_HEAP_SIZE) {
                Some((start, next)) => r == Some((heap_base + start) as usize)
                    && final(self).next_idx() == next,
                None => r is None && final(self).next_idx() == old(self).next_idx(),
            },
            r matches Some(addr) ==> {
                &&& heap_base <= addr
                &&& addr + size < heap_base + STATIC_HEAP_SIZE
                &&& aligned_to(addr, align)
            },
    {
        proof {
            if spec_bump(self.next_idx(), size, align, STATIC_HEAP_SIZE) is Some {
                lemma_static_heap_block_address(heap_base, self.next_idx(), size, align);
            }
        }
        match self.allocate(size, align) {
            Some(offset) => Some(heap_base + offset),
            None => None,
        }
    }
}

/// The early heap: blocks are addresses below `memory_end`, handed out in increasing order.
pub struct EarlyHeapAllocator {
    next_available_addr: usize,
    memory_end: usize,
}

impl EarlyHeapAllocator {
    pub closed spec fn next_addr(&self) -> usize {
        self.next_available_addr
    }

    pub closed spec fn end_addr(&self) -> usize {
        self.memory_end
    }

    /// An early heap that hands out addresses from `next_available_addr` up to `memory_end`.
    pub fn init(next_available_addr: usize, memory_end: usize) -> (r: Self)
        ensures
            r.next_addr() == next_available_addr,
            r.end_addr() == memory_end,
    {
        EarlyHeapAllocator { next_available_addr, memory_end }
    }

    /// Hands out the address of `size` bytes aligned to `align`, or nothing
    /// once the block would reach the end of the memory.
    pub fn allocate(&mut self, size: usize, align: usize) -> (r: Option<usize>)
        requires
            bump_defined(old(self).next_addr(), size, align),
        ensures
            final(self).end_addr() == old(self).end_addr(),
            match spec_bump(old(self).next_addr(), size, align, old(self).end_addr()) {
                Some((start, next)) => r == Some(start) && final(self).next_addr() == next,
                None => r is None && final(self).next_addr() == old(self).next_addr(),
            },
    {
        let available_addr = self.next_available_addr;
        let possible_addr = align_up(available_addr, align);
        let next_available_addr = possible_addr + size;
        if next_available_addr >= self.memory_end {
            return None;
        }
        self.next_available_addr = next_available_addr;
        Some(possible_addr)
    }
}

} // verus!
