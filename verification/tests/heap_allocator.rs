use codexos::heap_allocator::{ExpandableHeap, ReclaimingHeap};

const TEST_HEAP_SIZE: usize = 16 * 1024;

const BASE: usize = 0x10_0000;

const EXTERNAL_BASE: usize = 0x20_0000;

#[test]
fn reuses_and_coalesces_released_blocks() {
    let mut heap = ReclaimingHeap::<TEST_HEAP_SIZE>::new(BASE);
    let first = heap.allocate(1024, 16).unwrap();
    let second = heap.allocate(2048, 64).unwrap();
    assert_eq!(second % 64, 0);
    heap.fill(first, 0x5a, 1024);
    heap.fill(second, 0xa5, 2048);
    heap.deallocate(first);
    heap.deallocate(second);

    let stats = heap.stats();
    assert_eq!(stats.used_bytes, 0);
    assert_eq!(stats.live_allocations, 0);
    assert_eq!(stats.free_bytes, TEST_HEAP_SIZE);
    assert_eq!(stats.largest_free_block, TEST_HEAP_SIZE);
    assert_eq!(stats.total_allocations, 2);
    assert_eq!(stats.total_deallocations, 2);
}

#[test]
fn preserves_live_allocations_while_reusing_a_gap() {
    let mut heap = ReclaimingHeap::<TEST_HEAP_SIZE>::new(BASE);
    let first = heap.allocate(512, 32).unwrap();
    let middle = heap.allocate(512, 32).unwrap();
    let last = heap.allocate(512, 32).unwrap();
    heap.fill(first, 0x11, 512);
    heap.fill(last, 0x33, 512);
    heap.deallocate(middle);

    let replacement = heap.allocate(512, 32).unwrap();
    assert_eq!(replacement, middle);
    assert!((0..512).all(|index| heap.byte_at(first + index) == 0x11));
    assert!((0..512).all(|index| heap.byte_at(last + index) == 0x33));
    heap.deallocate(replacement);
    heap.deallocate(first);
    heap.deallocate(last);
    assert_eq!(heap.stats().free_bytes, TEST_HEAP_SIZE);
}

#[test]
fn reports_exhaustion_without_corrupting_state() {
    let mut heap = ReclaimingHeap::<1024>::new(BASE);
    assert!(heap.allocate(2048, 8).is_none());

    let stats = heap.stats();
    assert_eq!(stats.failed_allocations, 1);
    assert_eq!(stats.used_bytes, 0);
    assert_eq!(stats.free_bytes, 1024);
}

#[test]
fn switches_to_external_storage_and_routes_deallocation() {
    let mut heap = ExpandableHeap::<1024>::new(BASE);
    let mut external = [0u8; 8192];
    heap.initialize_external(EXTERNAL_BASE, &mut external).unwrap();
    assert!(heap.using_external());

    let pointer = heap.allocate(&mut external, 2048, 64).unwrap();
    assert!(pointer >= EXTERNAL_BASE);
    assert!(pointer < EXTERNAL_BASE + external.len());
    for index in 0..2048 {
        external[pointer - EXTERNAL_BASE + index] = 0x7c;
    }
    heap.deallocate(&mut external, pointer);

    let stats = heap.stats(&external);
    assert_eq!(stats.capacity_bytes, 9216);
    assert_eq!(stats.used_bytes, 0);
    assert_eq!(stats.live_allocations, 0);
    assert_eq!(stats.total_allocations, 1);
    assert_eq!(stats.total_deallocations, 1);
}
