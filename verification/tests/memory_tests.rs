use aether::boot_memory::{filter_usable, free_usable_memory, usable_memory_ready_check};
use aether::bump_allocator::{Allocator, EarlyHeapAllocator, STATIC_HEAP_SIZE};
use aether::global_allocator::{
    switch_to_early_heap, switch_to_paged_allocator, ActiveAllocator, GlobalAllocator, ProxyAllocator,
};
use aether::memory_regions::{
    IntoPagedMemoryRegionIterator, MemoryPage, MemoryRegion, MemoryRegionKind, MemoryRegionPage,
    HUGE_PAGE_SIZE, LARGE_PAGE_SIZE,
};
use aether::physical_memory_allocator::PhysicalMemoryAllocator;
use aether::virtual_address_allocator::{VirtualAddressAllocator, VIRTUAL_RANGE_BASE};

const MIB: usize = 1024 * 1024;
const GIB: usize = 1024 * MIB;

fn region(base: usize, length: usize, kind: MemoryRegionKind) -> MemoryRegion {
    MemoryRegion { base_address: base, length, kind }
}

fn page_list(regions: Vec<MemoryRegion>) -> Vec<(bool, usize)> {
    let mut iter = regions.into_paged_iter();
    let mut pages = Vec::new();
    while let Some(page) = iter.next() {
        match page {
            MemoryRegionPage::Huge(p) => pages.push((true, p.base_address)),
            MemoryRegionPage::Large(p) => pages.push((false, p.base_address)),
        }
    }
    pages
}

#[test]
fn pages_are_huge_where_aligned_and_large_elsewhere() {
    // From 1 GiB - 4 MiB to 2 GiB + 2 MiB: two large pages up to 1 GiB, one
    // huge page, then one large page.
    let pages = page_list(vec![region(GIB - 4 * MIB, GIB + 6 * MIB, MemoryRegionKind::Usable)]);
    assert_eq!(
        pages,
        vec![(false, GIB - 4 * MIB), (false, GIB - 2 * MIB), (true, GIB), (false, 2 * GIB)]
    );
}

#[test]
fn region_start_is_rounded_up_to_a_large_page() {
    let pages = page_list(vec![region(0x1000, 5 * MIB, MemoryRegionKind::Usable)]);
    // 0x1000 rounds up to 2 MiB; only one whole large page fits before 5 MiB + 4 KiB.
    assert_eq!(pages, vec![(false, 2 * MIB)]);
}

#[test]
fn touching_regions_form_one_run() {
    let pages = page_list(vec![
        region(2 * MIB, MIB, MemoryRegionKind::Usable),
        region(3 * MIB, 3 * MIB, MemoryRegionKind::Usable),
    ]);
    assert_eq!(pages, vec![(false, 2 * MIB), (false, 4 * MIB)]);
}

#[test]
fn separate_regions_are_paged_one_after_the_other() {
    let pages = page_list(vec![
        region(2 * MIB, 2 * MIB, MemoryRegionKind::Usable),
        region(10 * MIB, 4 * MIB, MemoryRegionKind::Usable),
    ]);
    assert_eq!(pages, vec![(false, 2 * MIB), (false, 10 * MIB), (false, 12 * MIB)]);
}

#[test]
fn a_huge_page_spans_touching_regions() {
    // Two touching halves of the second GiB, then a large block straddling a
    // region boundary: the halves give one huge page, the straddling block a
    // large page, in increasing order.
    let pages = page_list(vec![
        region(GIB, 512 * MIB, MemoryRegionKind::Usable),
        region(GIB + 512 * MIB, 512 * MIB, MemoryRegionKind::Usable),
        region(3 * GIB, MIB, MemoryRegionKind::Usable),
        region(3 * GIB + MIB, MIB, MemoryRegionKind::Usable),
    ]);
    assert_eq!(pages, vec![(true, GIB), (false, 3 * GIB)]);
    for w in pages.windows(2) {
        let size = if w[0].0 { HUGE_PAGE_SIZE } else { LARGE_PAGE_SIZE };
        assert!(w[0].1 + size <= w[1].1);
    }
}

#[test]
fn small_regions_give_no_pages() {
    let pages = page_list(vec![region(2 * MIB, MIB, MemoryRegionKind::Usable)]);
    assert!(pages.is_empty());
}

#[test]
fn paging_checks() {
    let mut iter = vec![region(0x1000, MIB, MemoryRegionKind::Usable)].into_paged_iter();
    assert!(iter.next_defined_check());
    assert!(iter.next().is_none());
    // A run that would start at address 0 fails.
    let iter = vec![region(0, 4 * MIB, MemoryRegionKind::Usable)].into_paged_iter();
    assert!(!iter.next_defined_check());
    // With no regions at all there is no run to start.
    assert!(!Vec::<MemoryRegion>::new().into_paged_iter().next_defined_check());
}

#[test]
fn only_usable_memory_is_freed() {
    let regions = vec![
        region(0x1000, 0x9_F000, MemoryRegionKind::Usable),
        region(2 * MIB, 6 * MIB, MemoryRegionKind::Usable),
        region(8 * MIB, 8 * MIB, MemoryRegionKind::Reserved),
        region(GIB, GIB, MemoryRegionKind::Usable),
        region(3 * GIB, 2 * MIB, MemoryRegionKind::BadMemory),
    ];
    let usable = filter_usable(&regions);
    assert_eq!(usable.len(), 3);
    let hhdm = 0xFFFF_8000_0000_0000usize;
    assert!(usable_memory_ready_check(hhdm, &regions));
    let mut pmm = PhysicalMemoryAllocator::new();
    pmm.init(hhdm);
    let (huge, large) = free_usable_memory(&mut pmm, &regions);
    assert_eq!((huge, large), (1, 3));
    assert_eq!(pmm.last_huge_page(), Some(GIB));
    assert_eq!(pmm.last_large_page(), Some(6 * MIB));
}

#[test]
fn memory_readiness() {
    let regions = vec![region(2 * MIB, 2 * MIB, MemoryRegionKind::Usable)];
    assert!(usable_memory_ready_check(0x1000, &regions));
    // A page to free needs an initialized allocator ...
    assert!(!usable_memory_ready_check(0, &regions));
    // ... whose direct map reaches it.
    assert!(!usable_memory_ready_check(usize::MAX - MIB, &regions));
    // Without a page to free, the allocator is never used.
    let small = vec![region(2 * MIB, MIB, MemoryRegionKind::Usable)];
    assert!(usable_memory_ready_check(0, &small));
    // With no usable memory there is no run to start.
    let no_usable = vec![region(2 * MIB, 2 * MIB, MemoryRegionKind::Reclaimable)];
    assert!(!usable_memory_ready_check(0x1000, &no_usable));
    // Usable memory at address 0 starts a run at 0.
    let at_zero = vec![region(0, 4 * MIB, MemoryRegionKind::Usable)];
    assert!(!usable_memory_ready_check(0x1000, &at_zero));
}

#[test]
fn free_lists_are_stacks() {
    let mut pmm = PhysicalMemoryAllocator::new();
    assert_eq!(pmm.last_huge_page(), None);
    assert_eq!(pmm.last_large_page(), None);
    pmm.init(0x1000_0000);
    assert_eq!(pmm.frame_block_address(0x20_0000), 0x1020_0000);
    pmm.free_large_page(MemoryPage::<LARGE_PAGE_SIZE> { base_address: 0x20_0000 });
    pmm.free_large_page(MemoryPage::<LARGE_PAGE_SIZE> { base_address: 0x40_0000 });
    pmm.free_huge_page(MemoryPage::<HUGE_PAGE_SIZE> { base_address: 0x4000_0000 });
    assert_eq!(pmm.last_large_page(), Some(0x40_0000));
    assert_eq!(pmm.last_huge_page(), Some(0x4000_0000));
}

#[test]
fn static_bump_allocation() {
    let mut a = Allocator::init();
    assert_eq!(a.allocate(10, 1), Some(0));
    // The next block starts at the next multiple of 16.
    assert_eq!(a.allocate(32, 16), Some(16));
    assert_eq!(a.allocate(1, 0), Some(48));
    // A block that would reach the end of the heap is refused, and nothing moves.
    assert_eq!(a.allocate(STATIC_HEAP_SIZE, 1), None);
    assert_eq!(a.allocate(8, 8), Some(56));
}

#[test]
fn static_heap_blocks_are_addresses_inside_the_heap() {
    let heap_base: usize = 0x20_0000;
    let mut a = Allocator::init();
    assert_eq!(a.allocate_at(heap_base, 10, 1), Some(heap_base));
    assert_eq!(a.allocate_at(heap_base, 32, 16), Some(heap_base + 16));
    let block = a.allocate_at(heap_base, 100, 64).unwrap();
    assert_eq!(block, heap_base + 64);
    assert_eq!(block % 64, 0);
    assert_eq!(a.allocate_at(heap_base, STATIC_HEAP_SIZE, 8), None);
    assert_eq!(a.allocate_at(heap_base, 4, 4), Some(heap_base + 164));
}

#[test]
fn early_heap_allocation() {
    let mut heap = EarlyHeapAllocator::init(0x1008, 0x2000);
    assert_eq!(heap.allocate(16, 16), Some(0x1010));
    assert_eq!(heap.allocate(0xFD0, 8), Some(0x1020));
    // 0x1FF0 + 16 reaches the end: refused.
    assert_eq!(heap.allocate(16, 16), None);
    assert_eq!(heap.allocate(8, 8), Some(0x1FF0));
}

#[test]
fn allocator_switching() {
    let mut global = GlobalAllocator::new();
    assert_eq!(global.active(), ActiveAllocator::Unselected);
    switch_to_early_heap(&mut global, 0x8000);
    assert_eq!(global.active(), ActiveAllocator::EarlyHeap(0x8000));
    switch_to_paged_allocator(&mut global, 0x1_0000);
    assert_eq!(global.active(), ActiveAllocator::Paged(0x1_0000));
    let mut proxy = ProxyAllocator::init();
    assert_eq!(proxy.paged_allocator(), None);
    proxy.switch_to_paged_allocator(0x2_0000);
    assert_eq!(proxy.paged_allocator(), Some(0x2_0000));
}

#[test]
fn virtual_ranges_are_separated_by_a_guard_page() {
    let mut vaa = VirtualAddressAllocator::init();
    let first = vaa.alloc_range(100);
    assert_eq!(first as u64, VIRTUAL_RANGE_BASE);
    let second = vaa.alloc_range(0x1000);
    assert_eq!(second, first + 0x2000);
    let third = vaa.alloc_range(1);
    assert_eq!(third, second + 0x2000);
}
