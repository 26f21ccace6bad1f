use codexos::bootinfo::{
    KernelImageInfo, KernelImageSegment, KERNEL_SEGMENT_FLAG_EXECUTE, KERNEL_SEGMENT_FLAG_READ,
    KERNEL_SEGMENT_FLAG_WRITE, PAGE_SIZE,
};
use codexos::vm::kernel::kernel_image_fits;
use codexos::vm::{kernel_page_mappings, VmError};


fn segment(virtual_address: u64, pages: u64, flags: u32) -> KernelImageSegment {
    KernelImageSegment {
        virtual_address,
        physical_address: virtual_address,
        file_offset: 0,
        file_size: pages * PAGE_SIZE,
        memory_size: pages * PAGE_SIZE,
        flags,
        load_address: 0,
        load_page_count: pages,
    }
}

#[test]
fn builds_distinct_rx_ro_and_rw_kernel_ranges() {
    let mut image = KernelImageInfo {
        load_base: 0x10_0000,
        load_page_count: 4,
        load_segment_count: 3,
        load_segment_total: 3,
        loaded_segment_count: 3,
        ..KernelImageInfo::empty()
    };
    image.segments[0] = segment(
        0x20_0000,
        2,
        KERNEL_SEGMENT_FLAG_READ | KERNEL_SEGMENT_FLAG_EXECUTE,
    );
    image.segments[1] = segment(0x20_2000, 1, KERNEL_SEGMENT_FLAG_READ);
    image.segments[2] = segment(
        0x20_3000,
        1,
        KERNEL_SEGMENT_FLAG_READ | KERNEL_SEGMENT_FLAG_WRITE,
    );

    let mappings = kernel_page_mappings(&image).unwrap();
    assert_eq!(mappings.len(), 3);
    assert_eq!(mappings[0].page_count, 2);
    assert!(mappings[0].executable && !mappings[0].writable);
    assert!(!mappings[1].executable && !mappings[1].writable);
    assert!(!mappings[2].executable && mappings[2].writable);
}

#[test]
fn rejects_overlapping_writable_and_executable_segments() {
    let mut image = KernelImageInfo {
        load_base: 0x10_0000,
        load_page_count: 3,
        load_segment_count: 2,
        load_segment_total: 2,
        loaded_segment_count: 2,
        ..KernelImageInfo::empty()
    };
    image.segments[0] = segment(
        0x20_0000,
        2,
        KERNEL_SEGMENT_FLAG_READ | KERNEL_SEGMENT_FLAG_EXECUTE,
    );
    image.segments[1] = segment(
        0x20_1000,
        2,
        KERNEL_SEGMENT_FLAG_READ | KERNEL_SEGMENT_FLAG_WRITE,
    );

    assert!(matches!(
        kernel_page_mappings(&image),
        Err(VmError::KernelWritableExecutable)
    ));
}

#[test]
fn images_without_physical_addresses_are_noticed() {
    let mut image = KernelImageInfo {
        load_base: u64::MAX - 0x1fff,
        load_page_count: 2,
        load_segment_count: 1,
        load_segment_total: 1,
        loaded_segment_count: 1,
        ..KernelImageInfo::empty()
    };
    image.segments[0] = segment(0x20_0000, 2, KERNEL_SEGMENT_FLAG_READ);
    assert!(kernel_image_fits(&image));
    image.load_base += 0x1000;
    assert!(!kernel_image_fits(&image));
    image.load_base = 0;
    assert!(kernel_image_fits(&image));
}
