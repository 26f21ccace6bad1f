use codexos::bootinfo::MemoryRegionKind;
use codexos::memory::{PhysicalPageAllocator, RegionCursor};

fn synthetic_allocator(page_count: u64) -> PhysicalPageAllocator {
    let mut allocator = PhysicalPageAllocator::new();
    allocator.initialized = true;
    allocator.usable_region_count = 1;
    allocator.regions[0] = RegionCursor {
        start: 0x10_0000,
        page_count,
        next_page: 0,
        kind: MemoryRegionKind::Conventional,
    };
    allocator.total_usable_pages = page_count;
    allocator
}

#[test]
fn reclaimed_extents_are_coalesced_and_reused() {
    let mut allocator = synthetic_allocator(16);
    let first = allocator.allocate_contiguous_pages(4).unwrap();
    let second = allocator.allocate_contiguous_pages(3).unwrap();
    assert_eq!(allocator.stats().allocated_pages, 7);

    assert!(allocator.deallocate_contiguous_pages(first, 4));
    assert!(allocator.deallocate_contiguous_pages(second, 3));
    assert!(!allocator.deallocate_contiguous_pages(first, 1));
    assert_eq!(allocator.free_extent_count, 1);
    assert_eq!(allocator.free_extents[0].page_count, 7);
    assert_eq!(allocator.stats().allocated_pages, 0);

    assert_eq!(allocator.allocate_contiguous_pages(7), Some(first));
    assert_eq!(allocator.stats().allocated_pages, 7);
    assert_eq!(allocator.free_extent_count, 0);
}
