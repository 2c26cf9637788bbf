//! The bootstrap core's hand-over of the usable physical memory to the
//! physical memory allocator: the usable regions are cut into huge and large
//! pages and each page is freed into the allocator.
use vstd::prelude::*;
use crate::memory_regions::{
    lemma_paging_next_progress, page_run, page_run_defined, page_span, paging_next,
    IntoPagedMemoryRegionIterator, MemoryRegion, MemoryRegionKind, MemoryRegionPage,
};
use crate::physical_memory_allocator::PhysicalMemoryAllocator;

verus! {

/// The regions the bootloader reports as usable, in their order.
pub open spec fn usable_regions(regs: Seq<MemoryRegion>) -> Seq<MemoryRegion> {
    regs.filter(|r: MemoryRegion| r.kind == MemoryRegionKind::Usable)
}

/// The usable regions are the regions of kind `Usable`: each one kept is
/// usable and was among the regions, and every usable region is kept.
pub proof fn lemma_usable_regions_exact(regs: Seq<MemoryRegion>)
    ensures
        forall|i: int|
            0 <= i < usable_regions(regs).len() ==> (#[trigger] usable_regions(regs)[i]).kind
                == MemoryRegionKind::Usable && regs.contains(usable_regions(regs)[i]),
        forall|i: int|
            0 <= i < regs.len() && (#[trigger] regs[i]).kind == MemoryRegionKind::Usable
                ==> usable_regions(regs).contains(regs[i]),
        usable_regions(regs).len() <= regs.len(),
{
    let pred = |r: MemoryRegion| r.kind == MemoryRegionKind::Usable;
    assert forall|i: int| 0 <= i < usable_regions(regs).len() implies (#[trigger] usable_regions(
        regs,
    )[i]).kind == MemoryRegionKind::Usable && regs.contains(usable_regions(regs)[i]) by {
        regs.lemma_filter_pred(pred, i);
        assert(regs.filter(pred).contains(regs.filter(pred)[i]));
        regs.lemma_filter_contains_rev(pred, regs.filter(pred)[i]);
    }
    assert forall|i: int| 0 <= i < regs.len() && (#[trigger] regs[i]).kind
        == MemoryRegionKind::Usable implies usable_regions(regs).contains(regs[i]) by {
        regs.lemma_filter_contains(pred, i);
    }
    regs.lemma_filter_len(pred);
}

/// Keeps the usable regions, in their order.
pub fn filter_usable(regions: &Vec<MemoryRegion>) -> (r: Vec<MemoryRegion>)
    ensures
        r@ == usable_regions(regions@),
{
    let mut usable: Vec<MemoryRegion> = Vec::new();
    let mut i: usize = 0;
    while i < regions.len()
        invariant
            i <= regions@.len(),
            usable@ == usable_regions(regions@.subrange(0, i as int)),
        decreases regions@.len() - i,
    {
        let region = &regions[i];
        proof {
            reveal(Seq::filter);
            assert(regions@.subrange(0, i + 1).drop_last() =~= regions@.subrange(0, i as int));
            assert(regions@.subrange(0, i + 1).last() == regions@[i as int]);
        }
        if region.kind == MemoryRegionKind::Usable {
            usable.push(
                MemoryRegion {
                    base_address: region.base_address,
                    length: region.length,
                    kind: region.kind,
                },
            );
        }
        i = i + 1;
    }
    assert(regions@.subrange(0, regions@.len() as int) =~= regions@);
    usable
}

/// The start addresses of the huge pages among `pages`, in order.
pub open spec fn huge_bases(pages: Seq<MemoryRegionPage>) -> Seq<usize>
    decreases pages.len(),
{
    if pages.len() == 0 {
        Seq::empty()
    } else {
        let rest = huge_bases(pages.drop_last());
        match pages.last() {
            MemoryRegionPage::Huge(h) => rest.push(h.base_address),
            MemoryRegionPage::Large(_) => rest,
        }
    }
}

/// The start addresses of the large pages among `pages`, in order.
pub open spec fn large_bases(pages: Seq<MemoryRegionPage>) -> Seq<usize>
    decreases pages.len(),
{
    if pages.len() == 0 {
        Seq::empty()
    } else {
        let rest = large_bases(pages.drop_last());
        match pages.last() {
            MemoryRegionPage::Large(l) => rest.push(l.base_address),
            MemoryRegionPage::Huge(_) => rest,
        }
    }
}

/// Freeing `page` into an allocator whose direct map starts at `hhdm_offset`
/// completes without a failed check: the allocator is initialized and the
/// page's address in the direct map stays within the address space.
pub open spec fn page_freeable(hhdm_offset: usize, page: MemoryRegionPage) -> bool {
    &&& hhdm_offset != 0
    &&& hhdm_offset + page_span(page).0 <= usize::MAX
}

/// Handing the usable memory among `regions` to an allocator whose direct map
/// starts at `hhdm_offset` completes without a failed check: paging the usable
/// regions does, and so does freeing each of their pages.
pub open spec fn usable_memory_ready(hhdm_offset: usize, regions: Seq<MemoryRegion>) -> bool {
    let usable = usable_regions(regions);
    &&& page_run_defined(usable, 0, 0, 0)
    &&& forall|i: int|
        0 <= i < page_run(usable, 0, 0, 0).len() ==> page_freeable(
            hhdm_offset,
            #[trigger] page_run(usable, 0, 0, 0)[i],
        )
}

/// Whether the usable memory among `regions` can be handed to an allocator
/// whose direct map starts at `hhdm_offset`.
pub fn usable_memory_ready_check(hhdm_offset: usize, regions: &Vec<MemoryRegion>) -> (r: bool)
    ensures
        r == usable_memory_ready(hhdm_offset, regions@),
{
    let usable = filter_usable(regions);
    let ghost regs = usable@;
    let ghost full = page_run(regs, 0, 0, 0);
    let mut iter = usable.into_paged_iter();
    let ghost mut emitted: Seq<MemoryRegionPage> = Seq::empty();
    assert(emitted + page_run(regs, 0, 0, 0) =~= full);
    loop
        invariant
            iter.wf(),
            iter.regions() == regs,
            regs == usable_regions(regions@),
            full == page_run(regs, 0, 0, 0),
            emitted + page_run(regs, iter.state().0, iter.state().1, iter.state().2) == full,
            page_run_defined(regs, 0, 0, 0) == page_run_defined(
                regs,
                iter.state().0,
                iter.state().1,
                iter.state().2,
            ),
            forall|i: int| 0 <= i < emitted.len() ==> page_freeable(hhdm_offset, #[trigger] emitted[i]),
        decreases regs.len() - iter.state().0, iter.state().1 - iter.state().2,
    {
        let ghost st = iter.state();
        proof {
            iter.lemma_position_in_range();
        }
        if !iter.next_defined_check() {
            return false;
        }
        proof {
            lemma_paging_next_progress(regs, st.0, st.1, st.2);
        }
        let ghost step = paging_next(regs, st.0, st.1, st.2);
        match iter.next() {
            None => {
                assert(emitted =~= full);
                return true;
            },
            Some(page) => {
                let ghost gp = page;
                let base = match &page {
                    MemoryRegionPage::Huge(p) => p.base_address,
                    MemoryRegionPage::Large(p) => p.base_address,
                };
                assert(emitted.push(gp) + page_run(regs, step.1, step.2, step.3) =~= emitted
                    + page_run(regs, st.0, st.1, st.2));
                if hhdm_offset == 0 || base > usize::MAX - hhdm_offset {
                    proof {
                        let k = emitted.len() as int;
                        assert(full[k] == gp);
                        assert(!page_freeable(hhdm_offset, full[k]));
                    }
                    return false;
                }
                proof {
                    emitted = emitted.push(gp);
                }
            },
        }
    }
}

/// Frees every page of the usable memory into the allocator: the usable
/// regions are paged as `PagedMemoryRegionIterator` pages them, each huge
/// page goes on the huge free list and each large page on the large one, in
/// the order they come. Returns how many huge and how many large pages were freed.
pub fn free_usable_memory(pmm: &mut PhysicalMemoryAllocator, regions: &Vec<MemoryRegion>) -> (r: (
    usize,
    usize,
))
    requires
        usable_memory_ready(old(pmm).spec_hhdm_offset(), regions@),
    ensures
        final(pmm).spec_hhdm_offset() == old(pmm).spec_hhdm_offset(),
        final(pmm).free_huge() == old(pmm).free_huge() + huge_bases(
            page_run(usable_regions(regions@), 0, 0, 0),
        ),
        final(pmm).free_large() == old(pmm).free_large() + large_bases(
            page_run(usable_regions(regions@), 0, 0, 0),
        ),
        r.0 == huge_bases(page_run(usable_regions(regions@), 0, 0, 0)).len(),
        r.1 == large_bases(page_run(usable_regions(regions@), 0, 0, 0)).len(),
{
    let ghost hhdm = pmm.spec_hhdm_offset();
    let usable = filter_usable(regions);
    let ghost regs = usable@;
    let ghost full = page_run(regs, 0, 0, 0);
    let ghost old_huge = pmm.free_huge();
    let ghost old_large = pmm.free_large();
    let mut iter = usable.into_paged_iter();
    let ghost mut emitted: Seq<MemoryRegionPage> = Seq::empty();
    let mut huge_pages: usize = 0;
    let mut large_pages: usize = 0;
    assert(emitted + page_run(regs, 0, 0, 0) =~= full);
    loop
        invariant_except_break
            iter.wf(),
            iter.regions() == regs,
            page_run_defined(regs, iter.state().0, iter.state().1, iter.state().2),
            emitted + page_run(regs, iter.state().0, iter.state().1, iter.state().2) == full,
        invariant
            regs == usable_regions(regions@),
            full == page_run(regs, 0, 0, 0),
            forall|i: int| 0 <= i < full.len() ==> page_freeable(hhdm, #[trigger] full[i]),
            pmm.spec_hhdm_offset() == hhdm,
            pmm.free_huge() == old_huge + huge_bases(emitted),
            pmm.free_large() == old_large + large_bases(emitted),
            huge_pages == huge_bases(emitted).len(),
            large_pages == large_bases(emitted).len(),
        ensures
            emitted == full,
        decreases regs.len() - iter.state().0, iter.state().1 - iter.state().2,
    {
        let ghost st = iter.state();
        proof {
            iter.lemma_position_in_range();
            lemma_paging_next_progress(regs, st.0, st.1, st.2);
        }
        let ghost step = paging_next(regs, st.0, st.1, st.2);
        let next = iter.next();
        match next {
            None => {
                assert(emitted =~= full);
                break ;
            },
            Some(page) => {
                let ghost gp = page;
                proof {
                    assert(emitted.push(gp) + page_run(regs, step.1, step.2, step.3) =~= emitted
                        + page_run(regs, st.0, st.1, st.2));
                    assert(full[emitted.len() as int] == gp);
                    assert(page_freeable(hhdm, full[emitted.len() as int]));
                    assert(emitted.push(gp).drop_last() =~= emitted);
                }
                match page {
                    MemoryRegionPage::Huge(p) => {
                        pmm.free_huge_page(p);
                        proof {
                            pmm.lemma_free_lists_bounded();
                            assert(huge_bases(emitted.push(gp)) == huge_bases(emitted).push(
                                p.base_address,
                            ));
                            assert(large_bases(emitted.push(gp)) == large_bases(emitted));
                            assert(pmm.free_huge() =~= old_huge + huge_bases(emitted.push(gp)));
                        }
                        huge_pages = huge_pages + 1;
                    },
                    MemoryRegionPage::Large(p) => {
                        pmm.free_large_page(p);
                        proof {
                            pmm.lemma_free_lists_bounded();
                            assert(large_bases(emitted.push(gp)) == large_bases(emitted).push(
                                p.base_address,
                            ));
                            assert(huge_bases(emitted.push(gp)) == huge_bases(emitted));
                            assert(pmm.free_large() =~= old_large + large_bases(emitted.push(gp)));
                        }
                        large_pages = large_pages + 1;
                    },
                }
                proof {
                    emitted = emitted.push(gp);
                }
            },
        }
    }
    (huge_pages, large_pages)
}

} // verus!
