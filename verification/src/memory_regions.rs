//! Cutting the usable physical memory regions reported at boot into huge
//! (1 GiB) and large (2 MiB) pages for the physical memory allocator.
use vstd::prelude::*;

verus! {

/// Huge page size in bytes: 1 GiB.
pub const HUGE_PAGE_SIZE: usize = 512 * 512 * 4096;

/// Large page size in bytes: 2 MiB.
pub const LARGE_PAGE_SIZE: usize = 512 * 4096;

#[derive(Debug, Clone)]
pub struct MemoryRegion {
    pub base_address: usize,
    pub length: usize,
    pub kind: MemoryRegionKind,
}

#[derive(Debug, Clone, Copy, PartialEq, Eq, Structural)]
pub enum MemoryRegionKind {
    /// Usable with no strings or requirements attached
    Usable,
    /// Can be used—reclaimed, but anything to be kept should be filtered-out first
    Reclaimable,
    /// Parts can theoretically be reclaimed, contains the kernel and modules (e.g., initrd)
    ExecutableAndModules,
    /// Should not be used
    Reserved,
    /// Should not be used, the memory is not reliable
    BadMemory,
}

#[derive(Debug)]
pub struct MemoryPage<const SIZE: usize> {
    pub base_address: usize,
}

#[derive(Debug)]
pub enum MemoryRegionPage {
    Huge(MemoryPage<HUGE_PAGE_SIZE>),
    Large(MemoryPage<LARGE_PAGE_SIZE>),
}

/// `n` rounded up to a multiple of the large page size.
pub open spec fn align_up_large(n: int) -> int {
    (n + LARGE_PAGE_SIZE - 1) - (n + LARGE_PAGE_SIZE - 1) % (LARGE_PAGE_SIZE as int)
}

/// Rounds `n` up with the mask of `align`; for a power of two, to the next multiple of it.
fn align_up(n: usize, align: usize) -> (r: usize)
    requires
        align > 0,
        n + align <= usize::MAX,
    ensures
        r == (n + align - 1) as usize & !((align - 1) as usize),
        align == LARGE_PAGE_SIZE ==> r == align_up_large(n as int),
{
    let r = (n + align - 1) & !(align - 1);
    proof {
        if align == LARGE_PAGE_SIZE {
            let m = (n + align - 1) as usize;
            assert(m & !0x1FFFFFusize == m - m % 0x200000) by (bit_vector);
        }
    }
    r
}

/// Whether `n` has none of the bits of `align - 1`; for a power of two, whether it is a multiple of it.
fn is_aligned(n: usize, align: usize) -> (r: bool)
    requires
        align > 0,
    ensures
        r == (n & ((align - 1) as usize) == 0),
        align == LARGE_PAGE_SIZE ==> (r <==> n % LARGE_PAGE_SIZE == 0),
        align == HUGE_PAGE_SIZE ==> (r <==> n % HUGE_PAGE_SIZE == 0),
{
    let r = n & (align - 1) == 0;
    proof {
        if align == LARGE_PAGE_SIZE {
            assert(n & 0x1FFFFFusize == 0 <==> n % 0x200000 == 0) by (bit_vector);
        }
        if align == HUGE_PAGE_SIZE {
            assert(n & 0x3FFFFFFFusize == 0 <==> n % 0x40000000 == 0) by (bit_vector);
        }
    }
    r
}

pub open spec fn huge_page(start: int) -> MemoryRegionPage {
    MemoryRegionPage::Huge(MemoryPage { base_address: start as usize })
}

pub open spec fn large_page(start: int) -> MemoryRegionPage {
    MemoryRegionPage::Large(MemoryPage { base_address: start as usize })
}

/// One call of the paging iterator over `regs`, from the state (`pos`: next
/// region, `end`: end of the current run of touching regions, `start`: next page
/// start) to the page it yields and the state after it.
///
/// A region that starts at or before the current end extends the run (its end
/// becomes the run's end); once the pages of a run are used up, the next region
/// starts a new run at its base rounded up to a large page. Pages are taken
/// from the run's start: a huge page where the start is huge-aligned and one
/// fits, otherwise a large page where one fits.
pub open spec fn paging_next(regs: Seq<MemoryRegion>, pos: int, end: int, start: int) -> (
    Option<MemoryRegionPage>,
    int,
    int,
    int,
)
    decreases regs.len() - pos,
{
    if pos < 0 {
        (None, pos, end, start)
    } else if pos < regs.len() && (regs[pos].base_address <= end || start >= end) {
        let r = regs[pos];
        let start2 = if start >= end {
            align_up_large(r.base_address as int)
        } else {
            start
        };
        paging_next(regs, pos + 1, r.base_address + r.length, start2)
    } else if start % (HUGE_PAGE_SIZE as int) == 0 && start + HUGE_PAGE_SIZE <= end {
        (Some(huge_page(start)), pos, end, start + HUGE_PAGE_SIZE)
    } else if start + LARGE_PAGE_SIZE <= end {
        (Some(large_page(start)), pos, end, start + LARGE_PAGE_SIZE)
    } else if pos >= regs.len() {
        (None, pos, end, start)
    } else {
        let r = regs[pos];
        paging_next(regs, pos + 1, r.base_address + r.length, align_up_large(r.base_address as int))
    }
}

/// Starting a run at region `r` overflows nothing.
pub open spec fn region_start_defined(r: MemoryRegion) -> bool {
    &&& r.base_address + LARGE_PAGE_SIZE <= usize::MAX
    &&& r.base_address + r.length <= usize::MAX
}

/// The call `paging_next(regs, pos, end, start)` completes without a failed
/// check: it never takes a page from address 0, and its arithmetic does not overflow.
pub open spec fn paging_next_defined(regs: Seq<MemoryRegion>, pos: int, end: int, start: int) -> bool
    decreases regs.len() - pos,
{
    if pos < 0 {
        true
    } else if pos < regs.len() && (regs[pos].base_address <= end || start >= end) {
        let r = regs[pos];
        let start2 = if start >= end {
            align_up_large(r.base_address as int)
        } else {
            start
        };
        &&& (start >= end ==> r.base_address + LARGE_PAGE_SIZE <= usize::MAX)
        &&& r.base_address + r.length <= usize::MAX
        &&& paging_next_defined(regs, pos + 1, r.base_address + r.length, start2)
    } else {
        &&& start != 0
        &&& (start % (HUGE_PAGE_SIZE as int) == 0 ==> start + HUGE_PAGE_SIZE <= usize::MAX)
        &&& (start % (HUGE_PAGE_SIZE as int) == 0 && start + HUGE_PAGE_SIZE <= end || {
            &&& start + LARGE_PAGE_SIZE <= usize::MAX
            &&& (start + LARGE_PAGE_SIZE <= end || pos >= regs.len() || {
                let r = regs[pos];
                &&& region_start_defined(r)
                &&& paging_next_defined(
                    regs,
                    pos + 1,
                    r.base_address + r.length,
                    align_up_large(r.base_address as int),
                )
            })
        })
    }
}

/// Rounding up to a large page gives a large-page multiple no smaller than the input.
proof fn lemma_align_up_large(n: int)
    requires
        n >= 0,
    ensures
        align_up_large(n) % (LARGE_PAGE_SIZE as int) == 0,
        n <= align_up_large(n),
{
    let m = n + 0x1FFFFF;
    assert((m - m % 0x200000) % 0x200000 == 0) by (nonlinear_arith)
        requires
            m >= 0,
    ;
    assert(m % 0x200000 <= 0x1FFFFF) by (nonlinear_arith)
        requires
            m >= 0,
    ;
}

/// Adding a whole number of large pages keeps large-page alignment.
proof fn lemma_large_aligned_add(x: int, d: int)
    requires
        x % (LARGE_PAGE_SIZE as int) == 0,
        d == LARGE_PAGE_SIZE || d == HUGE_PAGE_SIZE,
    ensures
        (x + d) % (LARGE_PAGE_SIZE as int) == 0,
{
    assert((x + 0x200000) % 0x200000 == 0 && (x + 0x40000000) % 0x200000 == 0) by (nonlinear_arith)
        requires
            x % 0x200000 == 0,
    ;
}

/// Address `a` lies in one of the first `pos` regions.
pub open spec fn covered(regs: Seq<MemoryRegion>, pos: int, a: int) -> bool {
    exists|k: int|
        0 <= k < pos && #[trigger] regs[k].base_address <= a < regs[k].base_address + regs[k].length
}

/// What holds of every iteration state: the next page start is large-page
/// aligned and every address from it to the end of the run lies in a region
/// already visited.
pub open spec fn paging_inv(regs: Seq<MemoryRegion>, pos: int, end: int, start: int) -> bool {
    &&& 0 <= pos <= regs.len()
    &&& 0 <= start
    &&& start % (LARGE_PAGE_SIZE as int) == 0
    &&& forall|a: int| start <= a < end ==> #[trigger] covered(regs, pos, a)
}

/// The page's start and size.
pub open spec fn page_span(p: MemoryRegionPage) -> (int, int) {
    match p {
        MemoryRegionPage::Huge(h) => (h.base_address as int, HUGE_PAGE_SIZE as int),
        MemoryRegionPage::Large(l) => (l.base_address as int, LARGE_PAGE_SIZE as int),
    }
}

/// Every page the iterator yields is aligned to its own size and lies wholly
/// inside the given regions; and every call keeps the iteration invariant.
pub proof fn lemma_paging_next_sound(regs: Seq<MemoryRegion>, pos: int, end: int, start: int)
    requires
        paging_inv(regs, pos, end, start),
        paging_next_defined(regs, pos, end, start),
    ensures
        ({
            let (page, pos2, end2, start2) = paging_next(regs, pos, end, start);
            &&& pos <= pos2 <= regs.len()
            &&& paging_inv(regs, pos2, end2, start2)
            &&& page matches Some(p) ==> {
                &&& page_span(p).0 % page_span(p).1 == 0
                &&& forall|a: int|
                    page_span(p).0 <= a < page_span(p).0 + page_span(p).1 ==> #[trigger] covered(
                        regs,
                        pos2,
                        a,
                    )
            }
        }),
    decreases regs.len() - pos,
{
    if pos < regs.len() && (regs[pos].base_address <= end || start >= end) {
        let r = regs[pos];
        let start2 = if start >= end {
            align_up_large(r.base_address as int)
        } else {
            start
        };
        let end2 = r.base_address + r.length;
        lemma_align_up_large(r.base_address as int);
        assert forall|a: int| start2 <= a < end2 implies #[trigger] covered(regs, pos + 1, a) by {
            if a >= r.base_address {
                assert(regs[pos].base_address <= a < regs[pos].base_address + regs[pos].length);
            } else {
                assert(start2 == start && a < end);
                assert(covered(regs, pos, a));
                let k = choose|k: int|
                    0 <= k < pos && #[trigger] regs[k].base_address <= a < regs[k].base_address
                        + regs[k].length;
                assert(0 <= k < pos + 1);
            }
        }
        lemma_paging_next_sound(regs, pos + 1, end2, start2);
    } else if start % (HUGE_PAGE_SIZE as int) == 0 && start + HUGE_PAGE_SIZE <= end {
        lemma_large_aligned_add(start, HUGE_PAGE_SIZE as int);
        assert(start as usize as int == start);
        assert(page_span(huge_page(start)) == (start, HUGE_PAGE_SIZE as int));
    } else if start + LARGE_PAGE_SIZE <= end {
        lemma_large_aligned_add(start, LARGE_PAGE_SIZE as int);
        assert(start as usize as int == start);
        assert(page_span(large_page(start)) == (start, LARGE_PAGE_SIZE as int));
    } else if pos >= regs.len() {
    } else {
        let r = regs[pos];
        let start2 = align_up_large(r.base_address as int);
        let end2 = r.base_address + r.length;
        lemma_align_up_large(r.base_address as int);
        assert forall|a: int| start2 <= a < end2 implies #[trigger] covered(regs, pos + 1, a) by {
            assert(regs[pos].base_address <= a < regs[pos].base_address + regs[pos].length);
        }
        lemma_paging_next_sound(regs, pos + 1, end2, start2);
    }
}

/// A call of the iterator never moves back in the region list, and when it
/// yields a page it either moves on to later regions or takes the page from
/// the front of the current run, which stays within the run.
pub proof fn lemma_paging_next_progress(regs: Seq<MemoryRegion>, pos: int, end: int, start: int)
    requires
        0 <= pos <= regs.len(),
    ensures
        ({
            let (page, pos2, end2, start2) = paging_next(regs, pos, end, start);
            &&& pos <= pos2 <= regs.len()
            &&& page is Some ==> (pos2 > pos || (end2 == end && start < start2 <= end2))
        }),
    decreases regs.len() - pos,
{
    if pos < regs.len() && (regs[pos].base_address <= end || start >= end) {
        let r = regs[pos];
        let start2 = if start >= end {
            align_up_large(r.base_address as int)
        } else {
            start
        };
        lemma_paging_next_progress(regs, pos + 1, r.base_address + r.length, start2);
    } else if start % (HUGE_PAGE_SIZE as int) == 0 && start + HUGE_PAGE_SIZE <= end {
    } else if start + LARGE_PAGE_SIZE <= end {
    } else if pos >= regs.len() {
    } else {
        let r = regs[pos];
        lemma_paging_next_progress(
            regs,
            pos + 1,
            r.base_address + r.length,
            align_up_large(r.base_address as int),
        );
    }
}

/// All the pages the iterator yields from the state (`pos`, `end`, `start`)
/// on, in order, up to the first `None`.
pub open spec fn page_run(regs: Seq<MemoryRegion>, pos: int, end: int, start: int) -> Seq<
    MemoryRegionPage,
>
    decreases regs.len() - pos, end - start,
    when 0 <= pos <= regs.len()
    via page_run_decreases
{
    let (page, pos2, end2, start2) = paging_next(regs, pos, end, start);
    match page {
        Some(p) => seq![p] + page_run(regs, pos2, end2, start2),
        None => Seq::empty(),
    }
}

#[via_fn]
proof fn page_run_decreases(regs: Seq<MemoryRegion>, pos: int, end: int, start: int) {
    lemma_paging_next_progress(regs, pos, end, start);
}

/// Every call of the iterator from the state (`pos`, `end`, `start`) on, up
/// to the first `None`, completes without a failed check.
pub open spec fn page_run_defined(regs: Seq<MemoryRegion>, pos: int, end: int, start: int) -> bool
    decreases regs.len() - pos, end - start,
    when 0 <= pos <= regs.len()
    via page_run_defined_decreases
{
    let (page, pos2, end2, start2) = paging_next(regs, pos, end, start);
    &&& paging_next_defined(regs, pos, end, start)
    &&& page is Some ==> page_run_defined(regs, pos2, end2, start2)
}

#[via_fn]
proof fn page_run_defined_decreases(regs: Seq<MemoryRegion>, pos: int, end: int, start: int) {
    lemma_paging_next_progress(regs, pos, end, start);
}

/// Regions the iterator can page from the start without a failed check:
/// there is at least one, none starts at address 0, and none ends within two
/// huge pages of the top of the address space.
pub open spec fn regions_well_placed(regs: Seq<MemoryRegion>) -> bool {
    &&& regs.len() > 0
    &&& forall|i: int|
        0 <= i < regs.len() ==> {
            &&& #[trigger] regs[i].base_address > 0
            &&& regs[i].base_address + regs[i].length + 2 * HUGE_PAGE_SIZE <= usize::MAX
        }
}

/// The iteration states reachable when paging well-placed regions from the start.
pub open spec fn paging_state_bounded(regs: Seq<MemoryRegion>, pos: int, end: int, start: int) -> bool {
    &&& 0 <= pos <= regs.len()
    &&& 0 <= start <= usize::MAX - HUGE_PAGE_SIZE
    &&& 0 <= end <= usize::MAX - HUGE_PAGE_SIZE
    &&& pos == 0 ==> start == 0 && end == 0
    &&& pos > 0 ==> start > 0
}

/// Rounding up to a large page adds less than a large page.
proof fn lemma_align_up_large_bound(n: int)
    requires
        n >= 0,
    ensures
        align_up_large(n) <= n + LARGE_PAGE_SIZE - 1,
{
    let m = n + 0x1FFFFF;
    assert(m % 0x200000 >= 0) by (nonlinear_arith)
        requires
            m >= 0,
    ;
}

/// On well-placed regions, each call from a bounded state is free of failed
/// checks and leads to a bounded state.
proof fn lemma_well_placed_step(regs: Seq<MemoryRegion>, pos: int, end: int, start: int)
    requires
        regions_well_placed(regs),
        paging_state_bounded(regs, pos, end, start),
    ensures
        paging_next_defined(regs, pos, end, start),
        ({
            let (page, pos2, end2, start2) = paging_next(regs, pos, end, start);
            paging_state_bounded(regs, pos2, end2, start2)
        }),
    decreases regs.len() - pos,
{
    if pos < regs.len() && (regs[pos].base_address <= end || start >= end) {
        let r = regs[pos];
        assert(r.base_address > 0 && r.base_address + r.length + 2 * HUGE_PAGE_SIZE <= usize::MAX);
        let start2 = if start >= end {
            align_up_large(r.base_address as int)
        } else {
            start
        };
        lemma_align_up_large(r.base_address as int);
        lemma_align_up_large_bound(r.base_address as int);
        lemma_well_placed_step(regs, pos + 1, r.base_address + r.length, start2);
    } else if start % (HUGE_PAGE_SIZE as int) == 0 && start + HUGE_PAGE_SIZE <= end {
    } else if start + LARGE_PAGE_SIZE <= end {
    } else if pos >= regs.len() {
    } else {
        let r = regs[pos];
        assert(r.base_address > 0 && r.base_address + r.length + 2 * HUGE_PAGE_SIZE <= usize::MAX);
        lemma_align_up_large(r.base_address as int);
        lemma_align_up_large_bound(r.base_address as int);
        lemma_well_placed_step(
            regs,
            pos + 1,
            r.base_address + r.length,
            align_up_large(r.base_address as int),
        );
    }
}

/// The page is aligned to its own size and each of its addresses lies in one of the regions.
pub open spec fn page_in_regions(regs: Seq<MemoryRegion>, p: MemoryRegionPage) -> bool {
    &&& page_span(p).0 % page_span(p).1 == 0
    &&& forall|a: int|
        page_span(p).0 <= a < page_span(p).0 + page_span(p).1 ==> #[trigger] covered(
            regs,
            regs.len() as int,
            a,
        )
}

/// From any state that keeps the iteration invariant, every page of a run
/// that completes without a failed check is aligned to its size and lies
/// within the regions.
pub proof fn lemma_page_run_sound(regs: Seq<MemoryRegion>, pos: int, end: int, start: int)
    requires
        paging_inv(regs, pos, end, start),
        page_run_defined(regs, pos, end, start),
    ensures
        forall|i: int|
            0 <= i < page_run(regs, pos, end, start).len() ==> page_in_regions(
                regs,
                #[trigger] page_run(regs, pos, end, start)[i],
            ),
    decreases regs.len() - pos, end - start,
{
    lemma_paging_next_sound(regs, pos, end, start);
    lemma_paging_next_progress(regs, pos, end, start);
    let (page, pos2, end2, start2) = paging_next(regs, pos, end, start);
    if let Some(p) = page {
        lemma_page_run_sound(regs, pos2, end2, start2);
        let run = page_run(regs, pos, end, start);
        let rest = page_run(regs, pos2, end2, start2);
        assert(run == seq![p] + rest);
        assert forall|a: int| page_span(p).0 <= a < page_span(p).0 + page_span(p).1 implies #[trigger] covered(
            regs,
            regs.len() as int,
            a,
        ) by {
            assert(covered(regs, pos2, a));
            let k = choose|k: int|
                0 <= k < pos2 && #[trigger] regs[k].base_address <= a < regs[k].base_address
                    + regs[k].length;
            assert(0 <= k < regs.len());
        }
        assert forall|i: int| 0 <= i < run.len() implies page_in_regions(regs, #[trigger] run[i]) by {
            if i > 0 {
                assert(run[i] == rest[i - 1]);
            }
        }
    }
}

/// Every page the iterator yields over `regs` from the start, when the run
/// completes without a failed check, is aligned to its own size and lies
/// wholly within the regions.
pub proof fn lemma_pages_within_regions(regs: Seq<MemoryRegion>)
    requires
        page_run_defined(regs, 0, 0, 0),
    ensures
        forall|i: int|
            0 <= i < page_run(regs, 0, 0, 0).len() ==> page_in_regions(
                regs,
                #[trigger] page_run(regs, 0, 0, 0)[i],
            ),
{
    lemma_page_run_sound(regs, 0, 0, 0);
}

/// Paging well-placed regions from a bounded state completes without a
/// failed check, to the end.
proof fn lemma_well_placed_run(regs: Seq<MemoryRegion>, pos: int, end: int, start: int)
    requires
        regions_well_placed(regs),
        paging_state_bounded(regs, pos, end, start),
    ensures
        page_run_defined(regs, pos, end, start),
    decreases regs.len() - pos, end - start,
{
    lemma_well_placed_step(regs, pos, end, start);
    lemma_paging_next_progress(regs, pos, end, start);
    let (page, pos2, end2, start2) = paging_next(regs, pos, end, start);
    if page is Some {
        lemma_well_placed_run(regs, pos2, end2, start2);
    }
}

/// A memory map of regions away from address 0 and from the top of the
/// address space is paged from the start without a failed check.
pub proof fn lemma_well_placed_regions_page(regs: Seq<MemoryRegion>)
    requires
        regions_well_placed(regs),
    ensures
        page_run_defined(regs, 0, 0, 0),
{
    lemma_well_placed_run(regs, 0, 0, 0);
}

/// The regions are sorted by address and do not overlap: each one ends at or
/// before the start of every later one.
pub open spec fn regions_sorted(regs: Seq<MemoryRegion>) -> bool {
    forall|i: int, j: int|
        #![trigger regs[i], regs[j]]
        0 <= i < j < regs.len() ==> regs[i].base_address + regs[i].length <= regs[j].base_address
}

/// Every region ends inside the address space.
pub open spec fn regions_end_in_range(regs: Seq<MemoryRegion>) -> bool {
    forall|k: int|
        0 <= k < regs.len() ==> #[trigger] regs[k].base_address + regs[k].length <= usize::MAX
}

/// Every address of the huge page at `b` lies in one of the regions, and `b` is huge-aligned.
pub open spec fn huge_page_in_regions(regs: Seq<MemoryRegion>, b: int) -> bool {
    &&& b % (HUGE_PAGE_SIZE as int) == 0
    &&& forall|a: int| b <= a < b + HUGE_PAGE_SIZE ==> #[trigger] covered(regs, regs.len() as int, a)
}

/// A large page taken where a huge page would have fit.
pub open spec fn large_where_huge_fits(regs: Seq<MemoryRegion>, p: MemoryRegionPage) -> bool {
    p matches MemoryRegionPage::Large(l) && huge_page_in_regions(regs, l.base_address as int)
}

/// Every address of the large-page block at `c` lies in one of the regions,
/// and `c` is large-aligned.
pub open spec fn large_block_in_regions(regs: Seq<MemoryRegion>, c: int) -> bool {
    &&& c % (LARGE_PAGE_SIZE as int) == 0
    &&& forall|a: int| c <= a < c + LARGE_PAGE_SIZE ==> #[trigger] covered(regs, regs.len() as int, a)
}

/// The page holds the whole large-page block at `c`.
pub open spec fn page_holds_block(p: MemoryRegionPage, c: int) -> bool {
    page_span(p).0 <= c && c + LARGE_PAGE_SIZE <= page_span(p).0 + page_span(p).1
}

/// One of the pages holds the whole large-page block at `c`.
pub open spec fn pages_hold_block(pages: Seq<MemoryRegionPage>, c: int) -> bool {
    exists|i: int| 0 <= i < pages.len() && page_holds_block(#[trigger] pages[i], c)
}

/// What holds of every iteration state over sorted regions: the regions
/// already visited end by the end of the run, the later ones start at or after
/// it, and the next page start is large-aligned and no later than any later
/// region's base rounded up to a large page.
spec fn ordered_state(regs: Seq<MemoryRegion>, pos: int, end: int, start: int) -> bool {
    &&& 0 <= pos <= regs.len()
    &&& 0 <= start
    &&& start % (LARGE_PAGE_SIZE as int) == 0
    &&& 0 <= end <= usize::MAX
    &&& forall|k: int| 0 <= k < pos ==> #[trigger] regs[k].base_address + regs[k].length <= end
    &&& forall|k: int|
        pos <= k < regs.len() ==> end <= #[trigger] regs[k].base_address && start
            <= align_up_large(regs[k].base_address as int)
}

/// Of two large-page multiples, the greater is at least a large page above the other.
proof fn lemma_large_multiples_gap(x: int, c: int)
    requires
        x % (LARGE_PAGE_SIZE as int) == 0,
        c % (LARGE_PAGE_SIZE as int) == 0,
        c < x,
    ensures
        c + LARGE_PAGE_SIZE <= x,
{
    assert(c + 0x200000 <= x) by (nonlinear_arith)
        requires
            x % 0x200000 == 0,
            c % 0x200000 == 0,
            c < x,
    ;
}

/// Rounding up to a large page stays at or below any large-page multiple at or above the input.
proof fn lemma_align_up_large_below(b: int, c: int)
    requires
        0 <= b <= c,
        c % (LARGE_PAGE_SIZE as int) == 0,
    ensures
        align_up_large(b) <= c,
{
    lemma_align_up_large(b);
    lemma_align_up_large_bound(b);
    if align_up_large(b) > c {
        lemma_large_multiples_gap(align_up_large(b), c);
    }
}

/// Consuming the next region keeps the state ordered, whether the region
/// extends the run (`start2 == start`) or starts a new one.
proof fn lemma_ordered_advance(regs: Seq<MemoryRegion>, pos: int, end: int, start: int, start2: int)
    requires
        regions_sorted(regs),
        regions_end_in_range(regs),
        ordered_state(regs, pos, end, start),
        pos < regs.len(),
        (start2 == start && regs[pos].base_address <= end) || start2 == align_up_large(
            regs[pos].base_address as int,
        ),
    ensures
        ordered_state(regs, pos + 1, regs[pos].base_address + regs[pos].length, start2),
        start <= start2,
{
    let r = regs[pos];
    let end2 = r.base_address + r.length;
    assert(end <= r.base_address);
    lemma_align_up_large(r.base_address as int);
    assert forall|k: int| 0 <= k < pos + 1 implies #[trigger] regs[k].base_address + regs[k].length
        <= end2 by {
        if k < pos {
            assert(regs[k].base_address + regs[k].length <= end);
        }
    }
    assert forall|k: int| pos + 1 <= k < regs.len() implies end2 <= #[trigger] regs[k].base_address
        && start2 <= align_up_large(regs[k].base_address as int) by {
        assert(regs[pos].base_address + regs[pos].length <= regs[k].base_address);
        if start2 != start {
            lemma_align_up_large(regs[k].base_address as int);
            lemma_align_up_large_below(
                r.base_address as int,
                align_up_large(regs[k].base_address as int),
            );
        }
    }
}

/// The address `end` lies in no region when the run stops there: the visited
/// regions end by it and the next one starts after it.
proof fn lemma_run_end_uncovered(regs: Seq<MemoryRegion>, pos: int, end: int, start: int)
    requires
        regions_sorted(regs),
        ordered_state(regs, pos, end, start),
        pos >= regs.len() || regs[pos].base_address > end,
    ensures
        !covered(regs, regs.len() as int, end),
{
    assert forall|k: int| 0 <= k < regs.len() implies !(#[trigger] regs[k].base_address <= end
        < regs[k].base_address + regs[k].length) by {
        if k < pos {
            assert(regs[k].base_address + regs[k].length <= end);
        } else if k > pos {
            assert(regs[pos].base_address + regs[pos].length <= regs[k].base_address);
        }
    }
}

/// One call of the iterator from an ordered state leads to an ordered state;
/// the page it yields starts no earlier than the old page start, ends at the
/// new one, and is not a large page where a huge page would fit.
proof fn lemma_ordered_step(regs: Seq<MemoryRegion>, pos: int, end: int, start: int)
    requires
        regions_sorted(regs),
        regions_end_in_range(regs),
        ordered_state(regs, pos, end, start),
    ensures
        ({
            let (page, pos2, end2, start2) = paging_next(regs, pos, end, start);
            &&& ordered_state(regs, pos2, end2, start2)
            &&& page matches Some(p) ==> {
                &&& start <= page_span(p).0
                &&& page_span(p).0 + page_span(p).1 == start2
                &&& !large_where_huge_fits(regs, p)
            }
        }),
    decreases regs.len() - pos,
{
    if pos < regs.len() && (regs[pos].base_address <= end || start >= end) {
        let r = regs[pos];
        let start2 = if start >= end {
            align_up_large(r.base_address as int)
        } else {
            start
        };
        lemma_ordered_advance(regs, pos, end, start, start2);
        lemma_ordered_step(regs, pos + 1, r.base_address + r.length, start2);
    } else if start % (HUGE_PAGE_SIZE as int) == 0 && start + HUGE_PAGE_SIZE <= end {
        assert(start as usize as int == start);
        assert(page_span(huge_page(start)) == (start, HUGE_PAGE_SIZE as int));
        lemma_large_aligned_add(start, HUGE_PAGE_SIZE as int);
    } else if start + LARGE_PAGE_SIZE <= end {
        assert(start as usize as int == start);
        assert(page_span(large_page(start)) == (start, LARGE_PAGE_SIZE as int));
        lemma_large_aligned_add(start, LARGE_PAGE_SIZE as int);
        if start % (HUGE_PAGE_SIZE as int) == 0 {
            lemma_run_end_uncovered(regs, pos, end, start);
            assert(start <= end < start + HUGE_PAGE_SIZE);
            assert(!huge_page_in_regions(regs, start));
        }
    } else if pos >= regs.len() {
    } else {
        let r = regs[pos];
        lemma_ordered_advance(regs, pos, end, start, align_up_large(r.base_address as int));
        lemma_ordered_step(
            regs,
            pos + 1,
            r.base_address + r.length,
            align_up_large(r.base_address as int),
        );
    }
}

/// Two iteration states whose next calls agree yield the same pages.
proof fn lemma_same_next_same_run(
    regs: Seq<MemoryRegion>,
    pos: int,
    end: int,
    start: int,
    pos_b: int,
    end_b: int,
    start_b: int,
)
    requires
        0 <= pos <= regs.len(),
        0 <= pos_b <= regs.len(),
        paging_next(regs, pos, end, start) == paging_next(regs, pos_b, end_b, start_b),
    ensures
        page_run(regs, pos, end, start) == page_run(regs, pos_b, end_b, start_b),
{
}

/// From an ordered state, the pages of the run come in increasing order of
/// address without overlapping, none starts before the page start, and none
/// is a large page where a huge page would fit.
proof fn lemma_run_ordered(regs: Seq<MemoryRegion>, pos: int, end: int, start: int)
    requires
        regions_sorted(regs),
        regions_end_in_range(regs),
        ordered_state(regs, pos, end, start),
    ensures
        ({
            let run = page_run(regs, pos, end, start);
            &&& forall|i: int|
                0 <= i < run.len() ==> start <= page_span(#[trigger] run[i]).0
                    && !large_where_huge_fits(regs, run[i])
            &&& forall|i: int, j: int|
                0 <= i < j < run.len() ==> page_span(#[trigger] run[i]).0 + page_span(run[i]).1
                    <= page_span(#[trigger] run[j]).0
        }),
    decreases regs.len() - pos, end - start,
{
    lemma_ordered_step(regs, pos, end, start);
    lemma_paging_next_progress(regs, pos, end, start);
    let (page, pos2, end2, start2) = paging_next(regs, pos, end, start);
    if let Some(p) = page {
        lemma_run_ordered(regs, pos2, end2, start2);
        let run = page_run(regs, pos, end, start);
        let rest = page_run(regs, pos2, end2, start2);
        assert(run == seq![p] + rest);
        assert forall|i: int| 0 <= i < run.len() implies start <= page_span(#[trigger] run[i]).0
            && !large_where_huge_fits(regs, run[i]) by {
            if i > 0 {
                assert(run[i] == rest[i - 1]);
            }
        }
        assert forall|i: int, j: int| 0 <= i < j < run.len() implies page_span(#[trigger] run[i]).0
            + page_span(run[i]).1 <= page_span(#[trigger] run[j]).0 by {
            assert(run[j] == rest[j - 1]);
            if i > 0 {
                assert(run[i] == rest[i - 1]);
            }
        }
    }
}

/// From an ordered state, every large-page block inside the regions at or
/// after the page start lies in one of the pages of the run.
proof fn lemma_run_covers(regs: Seq<MemoryRegion>, pos: int, end: int, start: int, c: int)
    requires
        regions_sorted(regs),
        regions_end_in_range(regs),
        ordered_state(regs, pos, end, start),
        large_block_in_regions(regs, c),
        start <= c,
    ensures
        pages_hold_block(page_run(regs, pos, end, start), c),
    decreases regs.len() - pos, end - start,
{
    lemma_ordered_step(regs, pos, end, start);
    lemma_paging_next_progress(regs, pos, end, start);
    let (page, pos2, end2, start2) = paging_next(regs, pos, end, start);
    let run = page_run(regs, pos, end, start);
    assert(covered(regs, regs.len() as int, c));
    if pos < regs.len() && (regs[pos].base_address <= end || start >= end) {
        let r = regs[pos];
        let s2 = if start >= end {
            align_up_large(r.base_address as int)
        } else {
            start
        };
        lemma_ordered_advance(regs, pos, end, start, s2);
        if start >= end {
            let k = choose|k: int|
                0 <= k < regs.len() && #[trigger] regs[k].base_address <= c < regs[k].base_address
                    + regs[k].length;
            if k < pos {
                assert(regs[k].base_address + regs[k].length <= end);
            }
            if k > pos {
                assert(regs[pos].base_address + regs[pos].length <= regs[k].base_address);
            }
            lemma_align_up_large_below(r.base_address as int, c);
        }
        lemma_same_next_same_run(regs, pos, end, start, pos + 1, r.base_address + r.length, s2);
        lemma_run_covers(regs, pos + 1, r.base_address + r.length, s2, c);
    } else if (start % (HUGE_PAGE_SIZE as int) == 0 && start + HUGE_PAGE_SIZE <= end) || start
        + LARGE_PAGE_SIZE <= end {
        let p = page.unwrap();
        let rest = page_run(regs, pos2, end2, start2);
        assert(run == seq![p] + rest);
        assert(pos2 == pos && end2 == end);
        if c < start2 {
            lemma_large_aligned_add(start, page_span(p).1);
            lemma_large_multiples_gap(start2, c);
            assert(run[0] == p);
            assert(page_holds_block(run[0], c));
        } else {
            lemma_run_covers(regs, pos2, end2, start2, c);
            let i = choose|i: int| 0 <= i < rest.len() && page_holds_block(#[trigger] rest[i], c);
            assert(run[i + 1] == rest[i]);
        }
    } else if pos >= regs.len() {
        let a = c + LARGE_PAGE_SIZE - 1;
        assert(covered(regs, regs.len() as int, a));
        let k = choose|k: int|
            0 <= k < regs.len() && #[trigger] regs[k].base_address <= a < regs[k].base_address
                + regs[k].length;
        assert(regs[k].base_address + regs[k].length <= end);
    } else {
        let r = regs[pos];
        lemma_run_end_uncovered(regs, pos, end, start);
        if c < end {
            assert(covered(regs, regs.len() as int, end));
        }
        let k = choose|k: int|
            0 <= k < regs.len() && #[trigger] regs[k].base_address <= c < regs[k].base_address
                + regs[k].length;
        if k < pos {
            assert(regs[k].base_address + regs[k].length <= end);
        }
        if k > pos {
            assert(regs[pos].base_address + regs[pos].length <= regs[k].base_address);
        }
        lemma_align_up_large_below(r.base_address as int, c);
        let s2 = align_up_large(r.base_address as int);
        lemma_ordered_advance(regs, pos, end, start, s2);
        lemma_same_next_same_run(regs, pos, end, start, pos + 1, r.base_address + r.length, s2);
        lemma_run_covers(regs, pos + 1, r.base_address + r.length, s2, c);
    }
}

/// Paging sorted regions that do not overlap: the pages come in increasing
/// order of address, and each ends at or before the start of the next, so no
/// two of them overlap.
pub proof fn lemma_pages_increasing_and_disjoint(regs: Seq<MemoryRegion>)
    requires
        regions_sorted(regs),
        regions_end_in_range(regs),
    ensures
        forall|i: int, j: int|
            0 <= i < j < page_run(regs, 0, 0, 0).len() ==> page_span(
                #[trigger] page_run(regs, 0, 0, 0)[i],
            ).0 + page_span(page_run(regs, 0, 0, 0)[i]).1 <= page_span(
                #[trigger] page_run(regs, 0, 0, 0)[j],
            ).0,
{
    lemma_initial_state_ordered(regs);
    lemma_run_ordered(regs, 0, 0, 0);
}

/// Paging sorted regions that do not overlap: wherever a huge-aligned huge
/// page lies wholly within the regions at the point the iterator reaches, it
/// is taken as a huge page, never as a large one.
pub proof fn lemma_huge_pages_where_they_fit(regs: Seq<MemoryRegion>)
    requires
        regions_sorted(regs),
        regions_end_in_range(regs),
    ensures
        forall|i: int|
            0 <= i < page_run(regs, 0, 0, 0).len() ==> !large_where_huge_fits(
                regs,
                #[trigger] page_run(regs, 0, 0, 0)[i],
            ),
{
    lemma_initial_state_ordered(regs);
    lemma_run_ordered(regs, 0, 0, 0);
}

/// Paging sorted regions that do not overlap: every large-aligned 2 MiB block
/// that lies wholly within the regions, across touching regions too, lies in
/// one of the pages.
pub proof fn lemma_pages_cover_large_blocks(regs: Seq<MemoryRegion>, c: int)
    requires
        regions_sorted(regs),
        regions_end_in_range(regs),
        large_block_in_regions(regs, c),
    ensures
        pages_hold_block(page_run(regs, 0, 0, 0), c),
{
    lemma_initial_state_ordered(regs);
    assert(covered(regs, regs.len() as int, c));
    lemma_run_covers(regs, 0, 0, 0, c);
}

/// Paging starts from an ordered state.
proof fn lemma_initial_state_ordered(regs: Seq<MemoryRegion>)
    ensures
        ordered_state(regs, 0, 0, 0),
{
    assert forall|k: int| 0 <= k < regs.len() implies 0 <= #[trigger] regs[k].base_address && 0
        <= align_up_large(regs[k].base_address as int) by {
        lemma_align_up_large(regs[k].base_address as int);
    }
}

/// An iterator over the pages of a list of memory regions, each page huge or large.
pub struct PagedMemoryRegionIterator {
    regions: Vec<MemoryRegion>,
    next_region: usize,
    current_region_end: usize,
    current_page_start: usize,
}

impl PagedMemoryRegionIterator {
    /// The regions being paged.
    pub closed spec fn regions(&self) -> Seq<MemoryRegion> {
        self.regions@
    }

    /// The iteration state: the next region, the end of the current run, the next page start.
    pub closed spec fn state(&self) -> (int, int, int) {
        (self.next_region as int, self.current_region_end as int, self.current_page_start as int)
    }

    /// The iterator's own invariant: its position is inside the region list
    /// and its next page start is large-page aligned.
    pub closed spec fn wf(&self) -> bool {
        &&& self.next_region <= self.regions@.len()
        &&& self.current_page_start % LARGE_PAGE_SIZE == 0
    }

    /// The next call of `next` completes without a failed check.
    pub open spec fn next_defined(&self) -> bool {
        paging_next_defined(self.regions(), self.state().0, self.state().1, self.state().2)
    }

    /// The iterator's position lies within its region list.
    pub proof fn lemma_position_in_range(&self)
        requires
            self.wf(),
        ensures
            0 <= self.state().0 <= self.regions().len(),
    {
    }

    /// Whether the next call of `next` completes without a failed check.
    pub fn next_defined_check(&self) -> (r: bool)
        requires
            self.wf(),
        ensures
            r == self.next_defined(),
    {
        let ghost regs = self.regions@;
        let ghost target = self.next_defined();
        let mut pos = self.next_region;
        let mut end = self.current_region_end;
        let mut start = self.current_page_start;
        loop
            invariant
                regs == self.regions@,
                pos <= regs.len(),
                target == self.next_defined(),
                paging_next_defined(regs, pos as int, end as int, start as int) == target,
            decreases regs.len() - pos,
        {
            if pos < self.regions.len() && (self.regions[pos].base_address <= end || start >= end) {
                let base = self.regions[pos].base_address;
                let length = self.regions[pos].length;
                if start >= end && base > usize::MAX - LARGE_PAGE_SIZE {
                    return false;
                }
                if length > usize::MAX - base {
                    return false;
                }
                if start >= end {
                    start = align_up(base, LARGE_PAGE_SIZE);
                }
                pos = pos + 1;
                end = base + length;
                continue ;
            }
            if start == 0 {
                return false;
            }
            let huge_aligned = is_aligned(start, HUGE_PAGE_SIZE);
            if huge_aligned && start > usize::MAX - HUGE_PAGE_SIZE {
                return false;
            }
            if huge_aligned && start + HUGE_PAGE_SIZE <= end {
                return true;
            }
            if start > usize::MAX - LARGE_PAGE_SIZE {
                return false;
            }
            if start + LARGE_PAGE_SIZE <= end || pos >= self.regions.len() {
                return true;
            }
            let base = self.regions[pos].base_address;
            let length = self.regions[pos].length;
            if base > usize::MAX - LARGE_PAGE_SIZE || length > usize::MAX - base {
                return false;
            }
            pos = pos + 1;
            end = base + length;
            start = align_up(base, LARGE_PAGE_SIZE);
        }
    }

    /// The next page: huge where the page start is huge-aligned and a huge page
    /// fits the current run, otherwise large; `None` once the regions are used up.
    pub fn next(&mut self) -> (r: Option<MemoryRegionPage>)
        requires
            old(self).wf(),
            old(self).next_defined(),
        ensures
            final(self).wf(),
            final(self).regions() == old(self).regions(),
            ({
                let (page, pos, end, start) = paging_next(
                    old(self).regions(),
                    old(self).state().0,
                    old(self).state().1,
                    old(self).state().2,
                );
                &&& r == page
                &&& final(self).state() == (pos, end, start)
            }),
    {
        let ghost regs = self.regions@;
        let ghost target = paging_next(regs, self.state().0, self.state().1, self.state().2);
        loop
            invariant
                self.wf(),
                self.regions@ == regs,
                old(self).regions@ == regs,
                target == paging_next(
                    regs,
                    old(self).next_region as int,
                    old(self).current_region_end as int,
                    old(self).current_page_start as int,
                ),
                paging_next(regs, self.state().0, self.state().1, self.state().2) == target,
                paging_next_defined(regs, self.state().0, self.state().1, self.state().2),
            decreases regs.len() - self.next_region,
        {
            if self.next_region < self.regions.len() && (
            self.regions[self.next_region].base_address <= self.current_region_end
                || self.current_page_start >= self.current_region_end) {
                let base = self.regions[self.next_region].base_address;
                let length = self.regions[self.next_region].length;
                self.next_region = self.next_region + 1;
                if self.current_page_start >= self.current_region_end {
                    self.current_page_start = align_up(base, LARGE_PAGE_SIZE);
                }
                self.current_region_end = base + length;
                continue ;
            }
            if is_aligned(self.current_page_start, HUGE_PAGE_SIZE) && self.current_page_start
                + HUGE_PAGE_SIZE <= self.current_region_end {
                let current_page = self.current_page_start;
                proof {
                    lemma_large_aligned_add(current_page as int, HUGE_PAGE_SIZE as int);
                }
                self.current_page_start = self.current_page_start + HUGE_PAGE_SIZE;
                return Some(MemoryRegionPage::Huge(MemoryPage { base_address: current_page }));
            }
            if self.current_page_start + LARGE_PAGE_SIZE <= self.current_region_end {
                let current_page = self.current_page_start;
                proof {
                    lemma_large_aligned_add(current_page as int, LARGE_PAGE_SIZE as int);
                }
                self.current_page_start = self.current_page_start + LARGE_PAGE_SIZE;
                return Some(MemoryRegionPage::Large(MemoryPage { base_address: current_page }));
            }
            if self.next_region >= self.regions.len() {
                return None;
            }
            let base = self.regions[self.next_region].base_address;
            let length = self.regions[self.next_region].length;
            self.next_region = self.next_region + 1;
            self.current_page_start = align_up(base, LARGE_PAGE_SIZE);
            self.current_region_end = base + length;
        }
    }
}

pub trait IntoPagedMemoryRegionIterator: Sized {
    fn into_paged_iter(self) -> PagedMemoryRegionIterator;
}

impl IntoPagedMemoryRegionIterator for Vec<MemoryRegion> {
    /// Pages these regions, starting before the first one.
    fn into_paged_iter(self) -> (r: PagedMemoryRegionIterator)
        ensures
            r.wf(),
            r.regions() == self@,
            r.state() == (0int, 0int, 0int),
    {
        PagedMemoryRegionIterator {
            regions: self,
            next_region: 0,
            current_region_end: 0,
            current_page_start: 0,
        }
    }
}

} // verus!
