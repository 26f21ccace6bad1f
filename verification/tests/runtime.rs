use codexos::boot::BootPhase;
use codexos::bootinfo::{
    BootInfo, FirmwareMode, FrameBufferInfo, KernelImageInfo, MemoryRegion, MemoryRegionKind,
    PixelFormat, ReservedMemoryKind, ReservedMemoryRange, PAGE_SIZE,
};
use codexos::loader::handoff::{collect_reserved_ranges, new_boot_info};
use codexos::runtime::{Runtime, StandaloneInitError};
use codexos::vm::entry::{make_leaf_entry, physical_to_high_half, split_indices};
use codexos::vm::{VirtualMemoryManager, VmError};

fn info(mode: FirmwareMode) -> BootInfo {
    let framebuffer = FrameBufferInfo {
        base: 0x8000_0000,
        size: 0x1000,
        width: 32,
        height: 32,
        stride: 32,
        bytes_per_pixel: 4,
        pixel_format: PixelFormat::Rgb,
    };
    let mut info = new_boot_info(framebuffer, mode, KernelImageInfo::empty());
    info.memory_regions[0] = MemoryRegion {
        start: 0,
        page_count: 4096,
        kind: MemoryRegionKind::Conventional,
        attributes: 0,
    };
    info.memory_regions[1] = MemoryRegion {
        start: 0x100_0000,
        page_count: 4096,
        kind: MemoryRegionKind::BootServicesData,
        attributes: 0,
    };
    info.memory_region_count = 2;
    info.memory_region_total = 2;
    collect_reserved_ranges(&mut info, Some((0x20_0000, 0x1000)), None, None, None);
    info
}

#[test]
fn memory_is_counted() {
    let before = info(FirmwareMode::UefiBootServices);
    assert_eq!(before.total_memory_bytes(), 8192 * PAGE_SIZE);
    assert_eq!(before.usable_memory_bytes(), 4096 * PAGE_SIZE);
    assert_eq!(
        info(FirmwareMode::PostExitBootServices).usable_memory_bytes(),
        8192 * PAGE_SIZE
    );
    assert_eq!(
        before.reserved_range(ReservedMemoryKind::LoaderImage).map(|range| range.end()),
        Some(0x20_1000)
    );
    assert_eq!(FirmwareMode::PostExitBootServices.as_str(), "post-exit-boot-services");
}

#[test]
fn reserved_pages_are_not_handed_out() {
    let mut runtime = Runtime::new();
    runtime.memory.init(&info(FirmwareMode::UefiBootServices));
    let stats = runtime.memory.stats();
    assert_eq!(stats.total_usable_pages, 4096 - 256 - 1);
    assert_eq!(runtime.memory.first_usable_kind(), MemoryRegionKind::Conventional);
    let mut handed: Vec<u64> = (0..400).map(|_| runtime.memory.allocate_page().unwrap()).collect();
    assert_eq!(handed[0], 0x10_0000);
    assert!(handed.iter().all(|page| *page >= 0x10_0000 && *page != 0x20_0000));
    handed.sort_unstable();
    handed.dedup();
    assert_eq!(handed.len(), 400);
    assert!(runtime.memory.deallocate_page(handed[3]));
    assert!(!runtime.memory.deallocate_page(handed[3]));
    assert_eq!(runtime.memory.allocate_page(), Some(handed[3]));
}

#[test]
fn mapped_addresses_translate() {
    let mut runtime = Runtime::new();
    runtime.memory.init(&info(FirmwareMode::PostExitBootServices));
    let mut vm = VirtualMemoryManager::new();
    assert_eq!(vm.map_demo_range(1, &mut runtime.memory).unwrap_err(), VmError::NotInitialized);
    vm.init(&mut runtime.memory).unwrap();
    let mapping = vm.map_range(0x4000_0000_0000, 3, true, false, &mut runtime.memory).unwrap();
    assert_eq!(mapping.page_count, 3);
    assert_eq!(vm.translate(0x4000_0000_0123), Some(mapping.phys_start + 0x123));
    assert_eq!(vm.translate(0x4000_0000_3000), None);
    let walk = vm.walk(0x4000_0000_0123);
    assert_eq!(walk.indices, [128, 0, 0, 0]);
    assert_eq!(walk.phys, Some(mapping.phys_start + 0x123));
    assert_eq!(
        vm.map_range(0x4000_0000_0001, 1, true, false, &mut runtime.memory).unwrap_err(),
        VmError::UnalignedVirtualAddress
    );
}

#[test]
fn addresses_are_split() {
    assert_eq!(split_indices(0xffff_8000_0020_3000), [256, 0, 1, 3]);
    assert_eq!(physical_to_high_half(0x1000), Some(0xffff_8000_0000_1000));
    assert_eq!(make_leaf_entry(0x3000, true, true), 0x3003);
    assert_eq!(make_leaf_entry(0x3000, false, false), 0x8000_0000_0000_3001);
}

#[test]
fn the_runtime_comes_up_in_order() {
    let boot_info = info(FirmwareMode::PostExitBootServices);
    let mut runtime = Runtime::new();
    assert_eq!(runtime.boot.snapshot().phase, BootPhase::FirmwareEntry);
    let started = runtime.init(&boot_info);
    assert!(started.load_tables);
    assert_eq!(runtime.boot.snapshot().phase, BootPhase::VmInitialized);
    runtime.activate_post_ebs_vm(&boot_info, 0x50_0000).unwrap();
    assert_eq!(runtime.vm.translate(0x10_0000), Some(0x10_0000));
    assert_eq!(
        runtime.vm.translate(physical_to_high_half(0x10_0000).unwrap()),
        Some(0x10_0000)
    );
}

#[test]
fn the_standalone_kernel_needs_its_heap() {
    let mut boot_info = info(FirmwareMode::PostExitBootServices);
    let mut runtime = Runtime::new();
    assert_eq!(
        runtime.init_standalone(&boot_info, 0),
        Err(StandaloneInitError::ExceptionPathUnavailable)
    );
    runtime.interrupts.idt_loaded = true;
    runtime.interrupts.breakpoint_hits = 1;
    assert_eq!(
        runtime.init_standalone(&boot_info, 0),
        Err(StandaloneInitError::KernelHeapMissing)
    );
    let count = boot_info.reserved_memory_count;
    boot_info.reserved_memory[count] = ReservedMemoryRange {
        start: 0x60_0000,
        length: 0x1_0000,
        kind: ReservedMemoryKind::KernelHeap,
    };
    boot_info.reserved_memory_count = count + 1;
    assert_eq!(runtime.init_standalone(&boot_info, 0), Ok((0x60_0000, 0x1_0000)));
    assert_eq!(
        runtime.adopt_current_post_ebs_vm(&info(FirmwareMode::UefiBootServices), 0).unwrap_err(),
        VmError::FirmwareServicesActive
    );
}
