//! What is mapped while the kernel starts, and which requests are refused.

use vstd::prelude::*;
use crate::bootinfo::{BootInfo, KernelImageSegment, ReservedMemoryKind, ReservedMemoryRange};
use crate::memory::AllocatorState;
use crate::vm::entry::{window_address, VmError};
use crate::vm::kernel::{image_base, image_mappings, takes_memory, takes_page};
use crate::vm::manager::{
    boot_steps, fixed_mapped, kernel_steps, meets_mapping, pages_between, range_mapped,
    reserved_steps, tallied, BootStep, BootTally, BootVmReport, Mapping, VmState,
};

verus! {

/// The step maps the bytes from `start` to `end` to the addresses that are `shift` higher, with these
/// rights.
pub open spec fn maps_bytes(
    step: BootStep,
    shift: int,
    start: int,
    end: int,
    writable: bool,
    executable: bool,
) -> bool {
    step matches BootStep::MapPages {
        virt,
        phys,
        pages,
        writable: written,
        executable: executed,
        conflict,
        tally,
    } && phys as int % 4096 == 0 && virt == phys + shift && phys <= start < phys + 4096 && end <= phys
        + pages * 4096 < end + 4096 && written == writable && executed == executable
}

/// As many pages are between two addresses as hold every byte from the one to the other.
pub proof fn pages_hold_every_byte(start: u64, end: u64)
    requires
        start < end,
        end <= u64::MAX - 4095,
    ensures
        ({
            let first = start as int / 4096 * 4096;
            end <= first + pages_between(start, end) * 4096 < end + 4096
        }),
{
}

/// The window shows physical memory at one distance throughout.
pub proof fn the_window_has_one_distance(phys: u64)
    ensures
        window_address(phys) is Some <==> phys < 0x8000_0000_0000,
        window_address(phys) matches Some(virt) ==> virt - phys == 0xffff_8000_0000_0000,
{
}

/// Every reserved range is mapped through the window, where it may be written and not executed; and those
/// that the kernel runs from keep their own addresses too, the loader and the low memory to be executed.
pub proof fn every_reserved_range_is_mapped(
    boot_info: BootInfo,
    stack_pointer: u64,
    i: int,
)
    requires
        0 <= i < boot_info.ranges().len(),
        boot_info.ranges()[i].length > 0,
        boot_info.ranges()[i].start + boot_info.ranges()[i].length <= 0x7fff_ffff_f000,
    ensures
        ({
            let range = boot_info.ranges()[i];
            let end = range.start + range.length;
            let steps = boot_steps(boot_info, stack_pointer);
            let executed = range.kind == ReservedMemoryKind::LoaderImage || range.kind
                == ReservedMemoryKind::LowMemory;
            &&& exists|k: int|
                0 <= k < steps.len() && maps_bytes(
                    #[trigger] steps[k],
                    0xffff_8000_0000_0000,
                    range.start as int,
                    end,
                    true,
                    false,
                )
            &&& executed || range.kind == ReservedMemoryKind::RuntimeHeap || range.kind
                == ReservedMemoryKind::KernelHeap || range.kind == ReservedMemoryKind::DescriptorTables
                ==> exists|k: int|
                0 <= k < steps.len() && maps_bytes(
                    #[trigger] steps[k],
                    0,
                    range.start as int,
                    end,
                    true,
                    executed,
                )
        }),
{
    let ranges = boot_info.ranges();
    let range = ranges[i];
    let end = range.start + range.length;
    let steps = boot_steps(boot_info, stack_pointer);
    let reserved = reserved_steps(ranges, ranges.len());
    lemma_range_is_mapped(ranges, ranges.len(), i);
    let executed = range.kind == ReservedMemoryKind::LoaderImage || range.kind
        == ReservedMemoryKind::LowMemory;
    let w = choose|k: int|
        0 <= k < reserved.len() && maps_bytes(
            #[trigger] reserved[k],
            0xffff_8000_0000_0000,
            range.start as int,
            end,
            true,
            false,
        );
    assert(steps[2 + w] == reserved[w]);
    if executed || range.kind == ReservedMemoryKind::RuntimeHeap || range.kind
        == ReservedMemoryKind::KernelHeap || range.kind == ReservedMemoryKind::DescriptorTables {
        let k = choose|k: int|
            0 <= k < reserved.len() && maps_bytes(
                #[trigger] reserved[k],
                0,
                range.start as int,
                end,
                true,
                executed,
            );
        assert(steps[2 + k] == reserved[k]);
    }
}

proof fn lemma_range_is_mapped(ranges: Seq<ReservedMemoryRange>, n: nat, i: int)
    requires
        0 <= i < n <= ranges.len(),
        ranges[i].length > 0,
        ranges[i].start + ranges[i].length <= 0x7fff_ffff_f000,
    ensures
        ({
            let range = ranges[i];
            let end = range.start + range.length;
            let steps = reserved_steps(ranges, n);
            let executed = range.kind == ReservedMemoryKind::LoaderImage || range.kind
                == ReservedMemoryKind::LowMemory;
            &&& exists|k: int|
                0 <= k < steps.len() && maps_bytes(
                    #[trigger] steps[k],
                    0xffff_8000_0000_0000,
                    range.start as int,
                    end,
                    true,
                    false,
                )
            &&& executed || range.kind == ReservedMemoryKind::RuntimeHeap || range.kind
                == ReservedMemoryKind::KernelHeap || range.kind == ReservedMemoryKind::DescriptorTables
                ==> exists|k: int|
                0 <= k < steps.len() && maps_bytes(
                    #[trigger] steps[k],
                    0,
                    range.start as int,
                    end,
                    true,
                    executed,
                )
        }),
    decreases n,
{
    let range = ranges[i];
    let end = range.start + range.length;
    let steps = reserved_steps(ranges, n);
    let before = reserved_steps(ranges, (n - 1) as nat);
    let executed = range.kind == ReservedMemoryKind::LoaderImage || range.kind
        == ReservedMemoryKind::LowMemory;
    let kept = executed || range.kind == ReservedMemoryKind::RuntimeHeap || range.kind
        == ReservedMemoryKind::KernelHeap || range.kind == ReservedMemoryKind::DescriptorTables;
    if i < n - 1 {
        lemma_range_is_mapped(ranges, (n - 1) as nat, i);
        let w = choose|k: int|
            0 <= k < before.len() && maps_bytes(
                #[trigger] before[k],
                0xffff_8000_0000_0000,
                range.start as int,
                end,
                true,
                false,
            );
        assert(steps[w] == before[w]);
        if kept {
            let k = choose|k: int|
                0 <= k < before.len() && maps_bytes(
                    #[trigger] before[k],
                    0,
                    range.start as int,
                    end,
                    true,
                    executed,
                );
            assert(steps[k] == before[k]);
        }
    } else {
        pages_hold_every_byte(range.start, end as u64);
        let last = steps.len() - 1;
        assert(maps_bytes(
            steps[last],
            0xffff_8000_0000_0000,
            range.start as int,
            end,
            true,
            false,
        ));
        if kept {
            assert(maps_bytes(steps[last - 1], 0, range.start as int, end, true, executed));
        }
    }
}

/// The stack keeps its addresses, a megabyte to either side of the stack pointer, and is not executed; and
/// the first four megabytes are shown through the window.
pub proof fn the_stack_and_the_low_memory_are_mapped(boot_info: BootInfo, stack_pointer: u64)
    requires
        0x10_0000 <= stack_pointer <= 0xffff_0000_0000,
    ensures
        ({
            let steps = boot_steps(boot_info, stack_pointer);
            &&& steps.len() >= 2
            &&& maps_bytes(
                steps[0],
                0,
                stack_pointer - 0x10_0000,
                stack_pointer + 0x10_0000,
                true,
                false,
            )
            &&& maps_bytes(steps[1], 0xffff_8000_0000_0000, 0, 0x40_0000, true, false)
        }),
{
    pages_hold_every_byte(
        (stack_pointer - 0x10_0000) as u64,
        (stack_pointer + 0x10_0000) as u64,
    );
    pages_hold_every_byte(0, 0x40_0000);
}

/// Every run of the kernel's image is mapped as it is planned.
pub proof fn every_run_of_the_image_is_mapped(
    boot_info: BootInfo,
    stack_pointer: u64,
    i: int,
)
    requires
        image_mappings(boot_info.kernel_image) is Ok,
        0 <= i < image_mappings(boot_info.kernel_image)->Ok_0.len(),
    ensures
        ({
            let run = image_mappings(boot_info.kernel_image)->Ok_0[i];
            let steps = boot_steps(boot_info, stack_pointer);
            exists|k: int|
                0 <= k < steps.len() && (#[trigger] steps[k] matches BootStep::MapPages {
                    virt,
                    phys,
                    pages,
                    writable,
                    executable,
                    conflict,
                    tally,
                } && virt == run.virt_start && phys == run.phys_start && pages == run.page_count as u64
                    && writable == run.writable && executable == run.executable && tally
                    == BootTally::Kernel)
        }),
{
    let steps = boot_steps(boot_info, stack_pointer);
    let runs = image_mappings(boot_info.kernel_image)->Ok_0;
    let last = kernel_steps(image_mappings(boot_info.kernel_image));
    let reserved = reserved_steps(boot_info.ranges(), boot_info.ranges().len());
    assert(steps[2 + reserved.len() + i] == last[i]);
}

/// The image begins with the page of its lowest segment, and a page is a segment's if and only if it is
/// one of the pages that the segment was loaded to.
pub proof fn an_image_begins_with_its_lowest_segment(
    segments: Seq<KernelImageSegment>,
    n: nat,
    i: int,
    page: int,
)
    requires
        n <= segments.len(),
        0 <= i < n,
        segments[i].load_page_count != 0,
        segments[i].memory_size != 0,
    ensures
        image_base(segments, n) matches Some(base) && base as int % 4096 == 0 && base
            <= segments[i].virtual_address && (takes_page(segments[i], base, page) <==> {
            let first = segments[i].virtual_address as int / 4096 * 4096;
            first <= base + page * 4096 < first + segments[i].load_page_count * 4096
        }),
        exists|k: int|
            0 <= k < n && (#[trigger] segments[k]).load_page_count != 0 && segments[k].memory_size != 0
                && image_base(segments, n) == Some(
                (segments[k].virtual_address as int / 4096 * 4096) as u64,
            ),
{
    lemma_image_base(segments, n, i);
}

proof fn lemma_image_base(segments: Seq<KernelImageSegment>, n: nat, i: int)
    requires
        n <= segments.len(),
        0 <= i < n,
        takes_memory(segments[i]),
    ensures
        image_base(segments, n) matches Some(base) && base as int % 4096 == 0 && base
            <= segments[i].virtual_address as int / 4096 * 4096,
        exists|k: int|
            0 <= k < n && (#[trigger] segments[k]).load_page_count != 0 && segments[k].memory_size != 0
                && image_base(segments, n) == Some(
                (segments[k].virtual_address as int / 4096 * 4096) as u64,
            ),
    decreases n,
{
    let m = (n - 1) as nat;
    let start = (segments[n - 1].virtual_address as int / 4096 * 4096) as u64;
    if i < m {
        lemma_image_base(segments, m, i);
        if image_base(segments, n) == image_base(segments, m) {
            let k = choose|k: int|
                0 <= k < m && (#[trigger] segments[k]).load_page_count != 0 && segments[k].memory_size
                    != 0 && image_base(segments, m) == Some(
                    (segments[k].virtual_address as int / 4096 * 4096) as u64,
                );
            assert(segments[k].load_page_count != 0);
        } else {
            assert(segments[n - 1].load_page_count != 0);
        }
    } else {
        if image_base(segments, m) is Some {
            lemma_some_base(segments, m);
            let j = choose|j: int| 0 <= j < m && takes_memory(#[trigger] segments[j]);
            lemma_image_base(segments, m, j);
            if image_base(segments, n) == image_base(segments, m) {
                let k = choose|k: int|
                    0 <= k < m && (#[trigger] segments[k]).load_page_count != 0
                        && segments[k].memory_size != 0 && image_base(segments, m) == Some(
                        (segments[k].virtual_address as int / 4096 * 4096) as u64,
                    );
                assert(segments[k].load_page_count != 0);
            } else {
                assert(segments[n - 1].load_page_count != 0);
            }
        } else {
            assert(segments[n - 1].load_page_count != 0);
        }
    }
}

proof fn lemma_some_base(segments: Seq<KernelImageSegment>, n: nat)
    requires
        n <= segments.len(),
        image_base(segments, n) is Some,
    ensures
        exists|j: int| 0 <= j < n && takes_memory(#[trigger] segments[j]),
    decreases n,
{
    if n > 0 {
        if takes_memory(segments[n - 1]) {
        } else {
            lemma_some_base(segments, (n - 1) as nat);
            let j = choose|j: int| 0 <= j < n - 1 && takes_memory(#[trigger] segments[j]);
            assert(takes_memory(segments[j]));
        }
    }
}

/// A request for fresh pages is refused, and nothing changes, if the address space is not set up, no page
/// is asked for, the address is not that of a page, the range has no end, or it meets one that is there.
pub proof fn a_refused_range_changes_nothing(
    state: VmState,
    memory: AllocatorState,
    virt: u64,
    pages: u64,
    writable: bool,
    executable: bool,
    i: int,
)
    ensures
        ({
            let asked = range_mapped(state, memory, virt, pages, writable, executable);
            let end = virt + pages * 4096;
            let met = 0 <= i < state.mappings.len() && virt < state.mappings[i].virt_start
                + state.mappings[i].page_count * 4096 && state.mappings[i].virt_start < end
                && state.mappings[i].virt_start + state.mappings[i].page_count * 4096 <= u64::MAX;
            let error = if !state.initialized {
                Some(VmError::NotInitialized)
            } else if pages == 0 {
                Some(VmError::InvalidPageCount)
            } else if virt as int % 4096 != 0 {
                Some(VmError::UnalignedVirtualAddress)
            } else if end > u64::MAX {
                Some(VmError::AddressOverflow)
            } else if met {
                Some(VmError::AlreadyMapped)
            } else {
                None
            };
            error is Some ==> asked.state == state && asked.memory == memory && asked.result == Err::<
                Mapping,
                VmError,
            >(error.unwrap())
        }),
{
    let end = virt + pages * 4096;
    if 0 <= i < state.mappings.len() && virt < state.mappings[i].virt_start
        + state.mappings[i].page_count * 4096 && state.mappings[i].virt_start < end
        && state.mappings[i].virt_start + state.mappings[i].page_count * 4096 <= u64::MAX {
        assert(virt < crate::vm::manager::recorded_end(state.mappings[i]));
        assert(meets_mapping(state.mappings, virt as int, end));
    }
}

/// A request to map pages to given ones is refused, and nothing changes, for the same reasons; for no page
/// nothing is done.
pub proof fn a_refused_run_changes_nothing(
    state: VmState,
    memory: AllocatorState,
    virt: u64,
    phys: u64,
    pages: u64,
    writable: bool,
    executable: bool,
)
    ensures
        ({
            let asked = fixed_mapped(state, memory, virt, phys, pages, writable, executable);
            let error = if !state.initialized {
                Some(VmError::NotInitialized)
            } else if pages == 0 {
                None
            } else if virt as int % 4096 != 0 {
                Some(VmError::UnalignedVirtualAddress)
            } else if phys as int % 4096 != 0 {
                Some(VmError::UnalignedPhysicalAddress)
            } else if virt + pages * 4096 > u64::MAX {
                Some(VmError::AddressOverflow)
            } else {
                None
            };
            &&& error is Some ==> asked.state == state && asked.memory == memory && asked.result == Err::<
                u64,
                VmError,
            >(error.unwrap())
            &&& state.initialized && pages == 0 ==> asked.state == state && asked.memory == memory
                && asked.result == Ok::<u64, VmError>(0)
        }),
{
}

/// What was mapped is counted for what it was mapped: pages of the image by their rights, those of the
/// window, and those that keep their addresses.
pub proof fn mapped_pages_are_counted(
    report: BootVmReport,
    virt: u64,
    writable: bool,
    executable: bool,
    count: u64,
)
    requires
        0 < count,
        report.kernel_image_ranges < u64::MAX,
        report.kernel_image_pages + count <= u64::MAX,
        report.kernel_writable_pages + count <= u64::MAX,
        report.kernel_executable_pages + count <= u64::MAX,
        report.kernel_wx_pages + count <= u64::MAX,
        report.higher_half_ranges < u64::MAX,
        report.higher_half_pages + count <= u64::MAX,
        report.identity_ranges < u64::MAX,
        report.identity_pages + count <= u64::MAX,
    ensures
        ({
            let kernel = tallied(report, BootTally::Kernel, virt, writable, executable, count);
            let window = tallied(report, BootTally::Window, virt, writable, executable, count);
            let own = tallied(report, BootTally::Identity, virt, writable, executable, count);
            let stack = tallied(report, BootTally::Stack, virt, writable, executable, count);
            let of = |is: bool|
                if is {
                    count as int
                } else {
                    0
                };
            &&& kernel.kernel_image_ranges == report.kernel_image_ranges + 1
            &&& kernel.kernel_image_pages == report.kernel_image_pages + count
            &&& kernel.kernel_writable_pages == report.kernel_writable_pages + of(writable)
            &&& kernel.kernel_executable_pages == report.kernel_executable_pages + of(executable)
            &&& kernel.kernel_wx_pages == report.kernel_wx_pages + of(writable && executable)
            &&& window == (BootVmReport {
                higher_half_ranges: window.higher_half_ranges,
                higher_half_pages: window.higher_half_pages,
                ..report
            })
            &&& window.higher_half_ranges == report.higher_half_ranges + 1
            &&& window.higher_half_pages == report.higher_half_pages + count
            &&& own.identity_ranges == report.identity_ranges + 1
            &&& own.identity_pages == report.identity_pages + count
            &&& own.stack_window_pages == report.stack_window_pages
            &&& stack.identity_pages == report.identity_pages + count
            &&& stack.stack_window_start == virt && stack.stack_window_pages == count
        }),
{
}

} // verus!
