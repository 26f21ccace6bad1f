//! The kernel's address space: what is mapped in it, and how it is prepared at boot.

use vstd::prelude::*;
use crate::bootinfo::{
    capped, page_bytes, BootInfo, ReservedMemoryKind, ReservedMemoryRange, PAGE_SIZE,
};
use crate::memory::{
    align_down, align_up, allocation, page_ceiling, page_floor, AllocatorState, PhysicalPageAllocator,
};
use crate::vm::entry::{
    leaf_entry, make_leaf_entry, page_number, phys_to_addr, physical_to_high_half, present,
    window_address, VmError, HIGH_HALF_DIRECT_MAP_BASE, PAGE_TABLE_ENTRIES,
};
use crate::vm::gaps::{gaps_between, holes_of, kernel_virtual_holes, window_gaps};
use crate::vm::kernel::{
    image_fits, image_mappings, kernel_page_mappings, run_fits, KernelPageMapping,
};
use crate::vm::tables::{
    empty_space, extends, leaf_mapped, lemma_leaf_extends, translated, Mapped, PageTables, PageWalk, Space,
};

verus! {

pub const DEMO_VIRT_BASE: u64 = 0x0000_4000_0000_0000;

pub const IDENTITY_BOOT_WINDOW_BYTES: u64 = 0x40_0000;

pub const HIGH_HALF_BOOT_WINDOW_BYTES: u64 = 0x40_0000;

pub const STACK_WINDOW_BYTES: u64 = 0x20_0000;

/// What is known of the address space.
#[derive(Debug, Clone, Copy, PartialEq, Eq, Structural)]
pub struct VmStats {
    pub initialized: bool,
    pub committed: bool,
    pub active: bool,
    pub root_table_phys: u64,
    pub high_half_base: u64,
    pub table_pages: u64,
    pub mapped_pages: u64,
}

/// Pages that were mapped by one request.
#[derive(Debug, Clone, Copy, PartialEq, Eq, Structural)]
pub struct Mapping {
    pub virt_start: u64,
    pub phys_start: u64,
    pub page_count: u64,
    pub writable: bool,
    pub executable: bool,
}

/// How the address space was prepared at boot.
#[derive(Debug, Clone, Copy, PartialEq, Eq, Structural)]
pub struct BootVmReport {
    pub identity_ranges: u64,
    pub identity_pages: u64,
    pub kernel_image_ranges: u64,
    pub kernel_image_pages: u64,
    pub kernel_writable_pages: u64,
    pub kernel_executable_pages: u64,
    pub kernel_wx_pages: u64,
    pub stack_window_start: u64,
    pub stack_window_pages: u64,
    pub higher_half_ranges: u64,
    pub higher_half_pages: u64,
    pub higher_half_base: u64,
}

/// What is seen of the root table through the window onto physical memory.
#[derive(Debug, Clone, Copy, PartialEq, Eq, Structural)]
pub struct HhdmProbe {
    pub virt_addr: u64,
    pub root_entry0: u64,
}

/// The kernel's address space.
pub struct VirtualMemoryManager {
    pub tables: PageTables,
    pub initialized: bool,
    pub active: bool,
    pub mappings: Vec<Mapping>,
    pub mapped_pages: u64,
    pub boot_report: Option<BootVmReport>,
}

/// What the address space stands for.
#[verifier::ext_equal]
pub ghost struct VmState {
    pub initialized: bool,
    pub committed: bool,
    pub active: bool,
    pub root: u64,
    pub space: Space,
    pub mappings: Seq<Mapping>,
    pub mapped_pages: u64,
    pub report: Option<BootVmReport>,
}

impl View for VirtualMemoryManager {
    type V = VmState;

    open spec fn view(&self) -> VmState {
        VmState {
            initialized: self.initialized,
            committed: self.tables.committed,
            active: self.active,
            root: self.tables.root.phys_addr,
            space: self.tables.space(),
            mappings: self.mappings@,
            mapped_pages: self.mapped_pages,
            report: self.boot_report,
        }
    }
}

/// Maps `n` pages that follow each other, and counts those that were not mapped before.
pub open spec fn run_mapped(
    space: Space,
    memory: AllocatorState,
    virt: int,
    phys: int,
    writable: bool,
    executable: bool,
    n: nat,
) -> Mapped<nat>
    decreases n,
{
    if n == 0 {
        Mapped { space, memory, result: Ok(0) }
    } else {
        let before = run_mapped(space, memory, virt, phys, writable, executable, (n - 1) as nat);
        match before.result {
            Err(_) => before,
            Ok(count) => {
                let offset = (n - 1) * PAGE_SIZE;
                let page = leaf_mapped(
                    before.space,
                    before.memory,
                    page_number((virt + offset) as u64),
                    leaf_entry((phys + offset) as u64, writable, executable),
                );
                Mapped {
                    space: page.space,
                    memory: page.memory,
                    result: match page.result {
                        Ok(fresh) => Ok(if fresh { count + 1 } else { count }),
                        Err(error) => Err(error),
                    },
                }
            },
        }
    }
}

/// Maps `n` pages that follow each other to pages that are allocated one by one, and counts those
/// that were not mapped before.
pub open spec fn fresh_run_mapped(
    space: Space,
    memory: AllocatorState,
    virt: int,
    writable: bool,
    executable: bool,
    n: nat,
) -> Mapped<nat>
    decreases n,
{
    if n == 0 {
        Mapped { space, memory, result: Ok(0) }
    } else {
        let before = fresh_run_mapped(space, memory, virt, writable, executable, (n - 1) as nat);
        match before.result {
            Err(_) => before,
            Ok(count) => match allocation(before.memory, 1) {
                (_, None) => Mapped { result: Err(VmError::OutOfPhysicalPages), ..before },
                (next, Some(phys)) => {
                    let page = leaf_mapped(
                        before.space,
                        next,
                        page_number((virt + (n - 1) * PAGE_SIZE) as u64),
                        leaf_entry(phys, writable, executable),
                    );
                    Mapped {
                        space: page.space,
                        memory: page.memory,
                        result: match page.result {
                            Ok(fresh) => Ok(if fresh { count + 1 } else { count }),
                            Err(error) => Err(error),
                        },
                    }
                },
            },
        }
    }
}

/// What became of a request to the address space.
#[verifier::ext_equal]
pub ghost struct Outcome<T> {
    pub state: VmState,
    pub memory: AllocatorState,
    pub result: Result<T, VmError>,
}

/// The address space once its tables have become `space`. What was written of them before is out of
/// date if they changed.
pub open spec fn with_space(state: VmState, space: Space) -> VmState {
    VmState { space, committed: state.committed && space == state.space, ..state }
}

/// Maps `pages` pages from `virt` on to those from `phys` on.
pub open spec fn fixed_mapped(
    state: VmState,
    memory: AllocatorState,
    virt: u64,
    phys: u64,
    pages: u64,
    writable: bool,
    executable: bool,
) -> Outcome<u64> {
    if !state.initialized {
        Outcome { state, memory, result: Err(VmError::NotInitialized) }
    } else if pages == 0 {
        Outcome { state, memory, result: Ok(0) }
    } else if virt % PAGE_SIZE != 0 {
        Outcome { state, memory, result: Err(VmError::UnalignedVirtualAddress) }
    } else if phys % PAGE_SIZE != 0 {
        Outcome { state, memory, result: Err(VmError::UnalignedPhysicalAddress) }
    } else if virt + pages * PAGE_SIZE > u64::MAX {
        Outcome { state, memory, result: Err(VmError::AddressOverflow) }
    } else {
        let run = run_mapped(
            state.space,
            memory,
            virt as int,
            phys as int,
            writable,
            executable,
            pages as nat,
        );
        let mapped = with_space(state, run.space);
        match run.result {
            Err(error) => Outcome { state: mapped, memory: run.memory, result: Err(error) },
            Ok(count) => Outcome {
                state: if count == 0 {
                    mapped
                } else {
                    VmState {
                        mapped_pages: capped(mapped.mapped_pages + count),
                        mappings: mapped.mappings.push(
                            Mapping {
                                virt_start: virt,
                                phys_start: phys,
                                page_count: count as u64,
                                writable,
                                executable,
                            },
                        ),
                        ..mapped
                    }
                },
                memory: run.memory,
                result: Ok(count as u64),
            },
        }
    }
}

/// How many whole pages the bytes from `start` to `end` touch.
pub open spec fn pages_between(start: u64, end: u64) -> u64 {
    let from = page_floor(start as int);
    let to = page_ceiling(end as int);
    if to <= from {
        0
    } else {
        ((to - from) / PAGE_SIZE as int) as u64
    }
}

/// Maps the pages that the bytes from `start` to `end` touch to themselves.
pub open spec fn identity_mapped(
    state: VmState,
    memory: AllocatorState,
    start: u64,
    end: u64,
    writable: bool,
    executable: bool,
) -> Outcome<u64> {
    let from = page_floor(start as int) as u64;
    fixed_mapped(state, memory, from, from, pages_between(start, end), writable, executable)
}

/// Maps the pages of the first `n` runs to themselves, and counts those that were not mapped before.
pub open spec fn runs_mapped(
    state: VmState,
    memory: AllocatorState,
    runs: Seq<(u64, u64)>,
    writable: bool,
    executable: bool,
    n: nat,
) -> Outcome<u64>
    decreases n,
{
    if n == 0 {
        Outcome { state, memory, result: Ok(0) }
    } else {
        let before = runs_mapped(state, memory, runs, writable, executable, (n - 1) as nat);
        match before.result {
            Err(_) => before,
            Ok(total) => {
                let run = identity_mapped(
                    before.state,
                    before.memory,
                    runs[n - 1].0,
                    runs[n - 1].1,
                    writable,
                    executable,
                );
                match run.result {
                    Err(_) => run,
                    Ok(count) => Outcome { result: Ok(capped(total + count)), ..run },
                }
            },
        }
    }
}

/// Where a mapping ends, as far as it is recorded.
pub open spec fn recorded_end(mapping: Mapping) -> u64 {
    capped(mapping.virt_start + capped(mapping.page_count * PAGE_SIZE))
}

/// Whether one of the mappings meets the addresses from `start` to `end`.
pub open spec fn meets_mapping(mappings: Seq<Mapping>, start: int, end: int) -> bool {
    exists|i: int|
        0 <= i < mappings.len() && start < recorded_end(#[trigger] mappings[i])
            && mappings[i].virt_start < end
}

/// Maps `pages` pages from `virt` on to pages that are allocated for them. The tables are written
/// afterwards.
pub open spec fn range_mapped(
    state: VmState,
    memory: AllocatorState,
    virt: u64,
    pages: u64,
    writable: bool,
    executable: bool,
) -> Outcome<Mapping> {
    let end = virt + pages * PAGE_SIZE;
    if !state.initialized {
        Outcome { state, memory, result: Err(VmError::NotInitialized) }
    } else if pages == 0 {
        Outcome { state, memory, result: Err(VmError::InvalidPageCount) }
    } else if virt % PAGE_SIZE != 0 {
        Outcome { state, memory, result: Err(VmError::UnalignedVirtualAddress) }
    } else if end > u64::MAX {
        Outcome { state, memory, result: Err(VmError::AddressOverflow) }
    } else if meets_mapping(state.mappings, virt as int, end) {
        Outcome { state, memory, result: Err(VmError::AlreadyMapped) }
    } else {
        let run = fresh_run_mapped(
            state.space,
            memory,
            virt as int,
            writable,
            executable,
            pages as nat,
        );
        let mapped = with_space(state, run.space);
        match run.result {
            Err(error) => Outcome { state: mapped, memory: run.memory, result: Err(error) },
            Ok(count) => {
                let mapping = Mapping {
                    virt_start: virt,
                    phys_start: allocation(memory, 1).1.unwrap(),
                    page_count: count as u64,
                    writable,
                    executable,
                };
                Outcome {
                    state: VmState {
                        mapped_pages: capped(mapped.mapped_pages + count),
                        mappings: if count == 0 {
                            mapped.mappings
                        } else {
                            mapped.mappings.push(mapping)
                        },
                        committed: true,
                        ..mapped
                    },
                    memory: run.memory,
                    result: Ok(mapping),
                }
            },
        }
    }
}

/// What a step of the preparation counts as.
#[derive(Debug, Clone, Copy, PartialEq, Eq, Structural)]
pub enum BootTally {
    Identity,
    Stack,
    Window,
    Kernel,
}

/// A step of the preparation.
#[derive(Debug, Clone, Copy, PartialEq, Eq, Structural)]
pub enum BootStep {
    /// Map these pages.
    MapPages {
        virt: u64,
        phys: u64,
        pages: u64,
        writable: bool,
        executable: bool,
        conflict: VmError,
        tally: BootTally,
    },
    /// The preparation cannot go on.
    Fail(VmError),
}

/// Maps the pages that the bytes from `start` to `end` touch to themselves.
pub open spec fn identity_step(
    start: u64,
    end: u64,
    executable: bool,
    conflict: VmError,
    tally: BootTally,
) -> BootStep {
    BootStep::MapPages {
        virt: page_floor(start as int) as u64,
        phys: page_floor(start as int) as u64,
        pages: pages_between(start, end),
        writable: true,
        executable,
        conflict,
        tally,
    }
}

/// Shows the pages that the bytes from `start` to `end` touch in the window onto physical memory.
pub open spec fn window_step(start: u64, end: u64, conflict: VmError) -> BootStep {
    match window_address(start) {
        None => BootStep::Fail(VmError::AddressOverflow),
        Some(virt) => BootStep::MapPages {
            virt: (virt - start % PAGE_SIZE) as u64,
            phys: page_floor(start as int) as u64,
            pages: pages_between(start, end),
            writable: true,
            executable: false,
            conflict,
            tally: BootTally::Window,
        },
    }
}

/// Whether memory that is taken for this reason stays where it is.
pub open spec fn keeps_identity(kind: ReservedMemoryKind) -> bool {
    ||| kind == ReservedMemoryKind::LoaderImage
    ||| kind == ReservedMemoryKind::LowMemory
    ||| kind == ReservedMemoryKind::RuntimeHeap
    ||| kind == ReservedMemoryKind::KernelHeap
    ||| kind == ReservedMemoryKind::DescriptorTables
}

/// The steps for the first `n` ranges that are taken.
pub open spec fn reserved_steps(ranges: Seq<ReservedMemoryRange>, n: nat) -> Seq<BootStep>
    decreases n,
{
    if n == 0 {
        seq![]
    } else {
        let range = ranges[n - 1];
        let end = capped(range.start + range.length);
        let window = window_step(range.start, end, VmError::ReservedWindowConflict);
        let before = reserved_steps(ranges, (n - 1) as nat);
        if keeps_identity(range.kind) {
            before.push(
                identity_step(
                    range.start,
                    end,
                    range.kind == ReservedMemoryKind::LoaderImage || range.kind
                        == ReservedMemoryKind::LowMemory,
                    VmError::ReservedIdentityConflict,
                    BootTally::Identity,
                ),
            ).push(window)
        } else {
            before.push(window)
        }
    }
}

/// The step for a run of pages of the kernel's image.
pub open spec fn kernel_step(mapping: KernelPageMapping) -> BootStep {
    BootStep::MapPages {
        virt: mapping.virt_start,
        phys: mapping.phys_start,
        pages: mapping.page_count as u64,
        writable: mapping.writable,
        executable: mapping.executable,
        conflict: VmError::KernelImageConflict,
        tally: BootTally::Kernel,
    }
}

/// The steps for the kernel's image.
pub open spec fn kernel_steps(mappings: Result<Seq<KernelPageMapping>, VmError>) -> Seq<BootStep> {
    match mappings {
        Ok(mappings) => mappings.map_values(|mapping: KernelPageMapping| kernel_step(mapping)),
        Err(error) => seq![BootStep::Fail(error)],
    }
}

/// The steps of the preparation behind the low window.
pub open spec fn boot_steps(boot_info: BootInfo, stack_pointer: u64) -> Seq<BootStep> {
    let below = if stack_pointer < STACK_WINDOW_BYTES / 2 {
        0
    } else {
        (stack_pointer - STACK_WINDOW_BYTES / 2) as u64
    };
    let above = capped(stack_pointer + STACK_WINDOW_BYTES / 2);
    seq![
        identity_step(below, above, false, VmError::BootStackConflict, BootTally::Stack),
        window_step(0, HIGH_HALF_BOOT_WINDOW_BYTES, VmError::BootWindowConflict),
    ] + reserved_steps(boot_info.ranges(), boot_info.ranges().len()) + kernel_steps(
        image_mappings(boot_info.kernel_image),
    )
}

/// The report before anything was mapped.
pub open spec fn blank_report() -> BootVmReport {
    BootVmReport {
        identity_ranges: 0,
        identity_pages: 0,
        kernel_image_ranges: 0,
        kernel_image_pages: 0,
        kernel_writable_pages: 0,
        kernel_executable_pages: 0,
        kernel_wx_pages: 0,
        stack_window_start: 0,
        stack_window_pages: 0,
        higher_half_ranges: 0,
        higher_half_pages: 0,
        higher_half_base: HIGH_HALF_DIRECT_MAP_BASE,
    }
}

/// The report once `count` pages were mapped that count as `tally`.
pub open spec fn tallied(
    report: BootVmReport,
    tally: BootTally,
    virt: u64,
    writable: bool,
    executable: bool,
    count: u64,
) -> BootVmReport {
    match tally {
        BootTally::Kernel => BootVmReport {
            kernel_image_ranges: capped(report.kernel_image_ranges + 1),
            kernel_image_pages: capped(report.kernel_image_pages + count),
            kernel_writable_pages: if writable {
                capped(report.kernel_writable_pages + count)
            } else {
                report.kernel_writable_pages
            },
            kernel_executable_pages: if executable {
                capped(report.kernel_executable_pages + count)
            } else {
                report.kernel_executable_pages
            },
            kernel_wx_pages: if writable && executable {
                capped(report.kernel_wx_pages + count)
            } else {
                report.kernel_wx_pages
            },
            ..report
        },
        BootTally::Window => if count == 0 {
            report
        } else {
            BootVmReport {
                higher_half_ranges: capped(report.higher_half_ranges + 1),
                higher_half_pages: capped(report.higher_half_pages + count),
                ..report
            }
        },
        _ => if count == 0 {
            report
        } else {
            BootVmReport {
                identity_ranges: capped(report.identity_ranges + 1),
                identity_pages: capped(report.identity_pages + count),
                stack_window_start: if tally == BootTally::Stack {
                    virt
                } else {
                    report.stack_window_start
                },
                stack_window_pages: if tally == BootTally::Stack {
                    count
                } else {
                    report.stack_window_pages
                },
                ..report
            }
        },
    }
}

/// That a page is mapped already is a conflict of its own wherever it happens.
pub open spec fn remapped(error: VmError, conflict: VmError) -> VmError {
    if error == VmError::AlreadyMapped {
        conflict
    } else {
        error
    }
}

/// One step of the preparation.
pub open spec fn step_done(
    state: VmState,
    memory: AllocatorState,
    report: BootVmReport,
    step: BootStep,
) -> Outcome<BootVmReport> {
    match step {
        BootStep::Fail(error) => Outcome { state, memory, result: Err(error) },
        BootStep::MapPages { virt, phys, pages, writable, executable, conflict, tally } => {
            let mapped = fixed_mapped(state, memory, virt, phys, pages, writable, executable);
            Outcome {
                state: mapped.state,
                memory: mapped.memory,
                result: match mapped.result {
                    Ok(count) => Ok(tallied(report, tally, virt, writable, executable, count)),
                    Err(error) => Err(remapped(error, conflict)),
                },
            }
        },
    }
}

/// The first `n` steps of the preparation.
pub open spec fn steps_done(start: Outcome<BootVmReport>, steps: Seq<BootStep>, n: nat) -> Outcome<
    BootVmReport,
>
    decreases n,
{
    if n == 0 {
        start
    } else {
        let before = steps_done(start, steps, (n - 1) as nat);
        match before.result {
            Err(_) => before,
            Ok(report) => step_done(before.state, before.memory, report, steps[n - 1]),
        }
    }
}

/// The low window, without the addresses of the kernel's image.
pub open spec fn low_window_mapped(state: VmState, memory: AllocatorState, boot_info: BootInfo) -> Outcome<
    BootVmReport,
> {
    let segments = boot_info.kernel_image.listed();
    let left = window_gaps(
        0,
        IDENTITY_BOOT_WINDOW_BYTES,
        holes_of(segments, 0, IDENTITY_BOOT_WINDOW_BYTES, segments.len()),
    );
    let mapped = runs_mapped(state, memory, left, true, true, left.len());
    Outcome {
        state: mapped.state,
        memory: mapped.memory,
        result: match mapped.result {
            Ok(count) => Ok(
                tallied(blank_report(), BootTally::Identity, 0, true, true, count),
            ),
            Err(error) => Err(remapped(error, VmError::BootIdentityConflict)),
        },
    }
}

/// The whole preparation.
pub open spec fn boot_mapped(
    state: VmState,
    memory: AllocatorState,
    boot_info: BootInfo,
    stack_pointer: u64,
) -> Outcome<BootVmReport> {
    if !state.initialized {
        Outcome { state, memory, result: Err(VmError::NotInitialized) }
    } else {
        let steps = boot_steps(boot_info, stack_pointer);
        let done = steps_done(low_window_mapped(state, memory, boot_info), steps, steps.len());
        match done.result {
            Err(_) => done,
            Ok(report) => Outcome {
                state: VmState { committed: true, report: Some(report), ..done.state },
                ..done
            },
        }
    }
}

/// A run never counts more pages than it has.
proof fn lemma_run_count(
    space: Space,
    memory: AllocatorState,
    virt: int,
    phys: int,
    writable: bool,
    executable: bool,
    n: nat,
)
    ensures
        run_mapped(space, memory, virt, phys, writable, executable, n).result matches Ok(count)
            ==> count <= n,
    decreases n,
{
    if n > 0 {
        lemma_run_count(space, memory, virt, phys, writable, executable, (n - 1) as nat);
    }
}

/// A run that fails does so whatever pages follow.
proof fn lemma_run_fails(
    space: Space,
    memory: AllocatorState,
    virt: int,
    phys: int,
    writable: bool,
    executable: bool,
    n: nat,
    m: nat,
)
    requires
        n <= m,
        run_mapped(space, memory, virt, phys, writable, executable, n).result is Err,
    ensures
        run_mapped(space, memory, virt, phys, writable, executable, m) == run_mapped(
            space,
            memory,
            virt,
            phys,
            writable,
            executable,
            n,
        ),
    decreases m,
{
    if n < m {
        lemma_run_fails(space, memory, virt, phys, writable, executable, n, (m - 1) as nat);
    }
}

proof fn lemma_fresh_run_count(
    space: Space,
    memory: AllocatorState,
    virt: int,
    writable: bool,
    executable: bool,
    n: nat,
)
    ensures
        fresh_run_mapped(space, memory, virt, writable, executable, n).result matches Ok(count)
            ==> count <= n && (n > 0 ==> allocation(memory, 1).1 is Some),
    decreases n,
{
    if n > 0 {
        lemma_fresh_run_count(space, memory, virt, writable, executable, (n - 1) as nat);
    }
}

proof fn lemma_fresh_run_fails(
    space: Space,
    memory: AllocatorState,
    virt: int,
    writable: bool,
    executable: bool,
    n: nat,
    m: nat,
)
    requires
        n <= m,
        fresh_run_mapped(space, memory, virt, writable, executable, n).result is Err,
    ensures
        fresh_run_mapped(space, memory, virt, writable, executable, m) == fresh_run_mapped(
            space,
            memory,
            virt,
            writable,
            executable,
            n,
        ),
    decreases m,
{
    if n < m {
        lemma_fresh_run_fails(space, memory, virt, writable, executable, n, (m - 1) as nat);
    }
}

/// Runs that fail do so whatever runs follow.
proof fn lemma_runs_fail(
    state: VmState,
    memory: AllocatorState,
    runs: Seq<(u64, u64)>,
    writable: bool,
    executable: bool,
    n: nat,
    m: nat,
)
    requires
        n <= m,
        runs_mapped(state, memory, runs, writable, executable, n).result is Err,
    ensures
        runs_mapped(state, memory, runs, writable, executable, m) == runs_mapped(
            state,
            memory,
            runs,
            writable,
            executable,
            n,
        ),
    decreases m,
{
    if n < m {
        lemma_runs_fail(state, memory, runs, writable, executable, n, (m - 1) as nat);
    }
}

/// A preparation that fails does so whatever steps follow.
proof fn lemma_steps_fail(start: Outcome<BootVmReport>, steps: Seq<BootStep>, n: nat, m: nat)
    requires
        n <= m,
        steps_done(start, steps, n).result is Err,
    ensures
        steps_done(start, steps, m) == steps_done(start, steps, n),
    decreases m,
{
    if n < m {
        lemma_steps_fail(start, steps, n, (m - 1) as nat);
    }
}

/// The pages of a step have addresses.
pub open spec fn step_fits(step: BootStep) -> bool {
    match step {
        BootStep::MapPages { virt, phys, pages, .. } => virt + pages * PAGE_SIZE <= u64::MAX ==> phys
            + pages * PAGE_SIZE <= 0x1_0000_0000_0000_0000,
        BootStep::Fail(_) => true,
    }
}

/// How many whole pages the bytes from `start` to `end` touch.
fn count_pages(start: u64, end: u64) -> (pages: u64)
    ensures
        pages == pages_between(start, end),
{
    let from: u64 = align_down(start);
    let to: u64 = align_up(end);
    if to <= from {
        0
    } else {
        (to - from) / PAGE_SIZE
    }
}

/// Maps the pages that the bytes from `start` to `end` touch to themselves.
fn make_identity_step(
    start: u64,
    end: u64,
    executable: bool,
    conflict: VmError,
    tally: BootTally,
) -> (step: BootStep)
    ensures
        step == identity_step(start, end, executable, conflict, tally),
        step_fits(step),
{
    let from: u64 = align_down(start);
    BootStep::MapPages {
        virt: from,
        phys: from,
        pages: count_pages(start, end),
        writable: true,
        executable,
        conflict,
        tally,
    }
}

/// Shows the pages that the bytes from `start` to `end` touch in the window onto physical memory.
fn make_window_step(start: u64, end: u64, conflict: VmError) -> (step: BootStep)
    ensures
        step == window_step(start, end, conflict),
        step_fits(step),
{
    match physical_to_high_half(start) {
        None => BootStep::Fail(VmError::AddressOverflow),
        Some(virt) => {
            let phys: u64 = align_down(start);
            BootStep::MapPages {
                virt: virt - (start - phys),
                phys,
                pages: count_pages(start, end),
                writable: true,
                executable: false,
                conflict,
                tally: BootTally::Window,
            }
        },
    }
}

/// Every step has addresses.
pub open spec fn steps_fit(steps: Seq<BootStep>) -> bool {
    forall|i: int| 0 <= i < steps.len() ==> step_fits(#[trigger] steps[i])
}

/// The steps for the ranges that are taken.
fn make_reserved_steps(steps: &mut Vec<BootStep>, ranges: &[ReservedMemoryRange])
    requires
        steps_fit(old(steps)@),
    ensures
        final(steps)@ == old(steps)@ + reserved_steps(ranges@, ranges@.len()),
        steps_fit(final(steps)@),
{
    let mut i: usize = 0;
    assert(steps@ =~= old(steps)@ + reserved_steps(ranges@, 0));
    while i < ranges.len()
        invariant
            i <= ranges@.len(),
            steps@ == old(steps)@ + reserved_steps(ranges@, i as nat),
            steps_fit(steps@),
        decreases ranges.len() - i,
    {
        let range = ranges[i];
        let end: u64 = range.end();
        let ghost before = steps@;
        let executable: bool = matches!(
            range.kind,
            ReservedMemoryKind::LoaderImage | ReservedMemoryKind::LowMemory
        );
        let keep: bool = matches!(
            range.kind,
            ReservedMemoryKind::LoaderImage
                | ReservedMemoryKind::LowMemory
                | ReservedMemoryKind::RuntimeHeap
                | ReservedMemoryKind::KernelHeap
                | ReservedMemoryKind::DescriptorTables
        );
        if keep {
            steps.push(
                make_identity_step(
                    range.start,
                    end,
                    executable,
                    VmError::ReservedIdentityConflict,
                    BootTally::Identity,
                ),
            );
        }
        steps.push(make_window_step(range.start, end, VmError::ReservedWindowConflict));
        assert(steps@ =~= old(steps)@ + reserved_steps(ranges@, (i + 1) as nat));
        i += 1;
    }
}

/// The steps for the kernel's image.
fn make_kernel_steps(steps: &mut Vec<BootStep>, boot_info: &BootInfo)
    requires
        steps_fit(old(steps)@),
        image_fits(boot_info.kernel_image),
    ensures
        final(steps)@ == old(steps)@ + kernel_steps(image_mappings(boot_info.kernel_image)),
        steps_fit(final(steps)@),
{
    let mappings = match kernel_page_mappings(&boot_info.kernel_image) {
        Ok(mappings) => mappings,
        Err(error) => {
            steps.push(BootStep::Fail(error));
            assert(steps@ =~= old(steps)@ + seq![BootStep::Fail(error)]);
            return ;
        },
    };
    let ghost all = kernel_steps(image_mappings(boot_info.kernel_image));
    let mut i: usize = 0;
    assert(steps@ =~= old(steps)@ + all.take(0));
    while i < mappings.len()
        invariant
            i <= mappings.len(),
            all == kernel_steps(image_mappings(boot_info.kernel_image)),
            image_mappings(boot_info.kernel_image) == Ok::<Seq<KernelPageMapping>, VmError>(
                mappings@,
            ),
            all.len() == mappings@.len(),
            image_fits(boot_info.kernel_image),
            steps@ == old(steps)@ + all.take(i as int),
            steps_fit(steps@),
        decreases mappings.len() - i,
    {
        let mapping = mappings[i];
        proof {
            assert(run_fits(mappings@[i as int]));
        }
        let step = BootStep::MapPages {
            virt: mapping.virt_start,
            phys: mapping.phys_start,
            pages: mapping.page_count as u64,
            writable: mapping.writable,
            executable: mapping.executable,
            conflict: VmError::KernelImageConflict,
            tally: BootTally::Kernel,
        };
        steps.push(step);
        assert(all[i as int] == step);
        assert(steps@ =~= old(steps)@ + all.take(i + 1));
        i += 1;
    }
    assert(all.take(i as int) =~= all);
}

/// The steps of the preparation behind the low window.
fn make_boot_steps(boot_info: &BootInfo, stack_pointer: u64) -> (steps: Vec<BootStep>)
    requires
        image_fits(boot_info.kernel_image),
    ensures
        steps@ == boot_steps(*boot_info, stack_pointer),
        steps_fit(steps@),
{
    let below: u64 = stack_pointer.saturating_sub(STACK_WINDOW_BYTES / 2);
    let above: u64 = stack_pointer.saturating_add(STACK_WINDOW_BYTES / 2);
    let mut steps: Vec<BootStep> = Vec::new();
    steps.push(
        make_identity_step(below, above, false, VmError::BootStackConflict, BootTally::Stack),
    );
    steps.push(make_window_step(0, HIGH_HALF_BOOT_WINDOW_BYTES, VmError::BootWindowConflict));
    assert(steps@ =~= seq![steps@[0], steps@[1]]);
    make_reserved_steps(&mut steps, boot_info.reserved_memory());
    make_kernel_steps(&mut steps, boot_info);
    steps
}

/// The report once `count` pages were mapped that count as `tally`.
fn tally_pages(
    report: BootVmReport,
    tally: BootTally,
    virt: u64,
    writable: bool,
    executable: bool,
    count: u64,
) -> (next: BootVmReport)
    ensures
        next == tallied(report, tally, virt, writable, executable, count),
{
    let mut next = report;
    match tally {
        BootTally::Kernel => {
            next.kernel_image_ranges = report.kernel_image_ranges.saturating_add(1);
            next.kernel_image_pages = report.kernel_image_pages.saturating_add(count);
            if writable {
                next.kernel_writable_pages = report.kernel_writable_pages.saturating_add(count);
            }
            if executable {
                next.kernel_executable_pages = report.kernel_executable_pages.saturating_add(count);
            }
            if writable && executable {
                next.kernel_wx_pages = report.kernel_wx_pages.saturating_add(count);
            }
        },
        BootTally::Window => {
            if count != 0 {
                next.higher_half_ranges = report.higher_half_ranges.saturating_add(1);
                next.higher_half_pages = report.higher_half_pages.saturating_add(count);
            }
        },
        _ => {
            if count != 0 {
                next.identity_ranges = report.identity_ranges.saturating_add(1);
                next.identity_pages = report.identity_pages.saturating_add(count);
                if matches!(tally, BootTally::Stack) {
                    next.stack_window_start = virt;
                    next.stack_window_pages = count;
                }
            }
        },
    }
    next
}

/// That a page is mapped already is a conflict of its own wherever it happens.
fn remap_conflict(error: VmError, conflict: VmError) -> (result: VmError)
    ensures
        result == remapped(error, conflict),
{
    if matches!(error, VmError::AlreadyMapped) {
        conflict
    } else {
        error
    }
}

proof fn lemma_submaps(a: Map<int, u64>, b: Map<int, u64>, c: Map<int, u64>)
    requires
        a.submap_of(b),
        b.submap_of(c),
    ensures
        a.submap_of(c),
        c == a ==> b == a,
{
    assert forall|key: int| #[trigger] a.dom().contains(key) implies c.dom().contains(key) && a[key]
        == c[key] by {
        assert(b.dom().contains(key));
        assert(c.dom().contains(key));
    }
    if c == a {
        assert forall|key: int| b.dom().contains(key) == a.dom().contains(key) by {
            if b.dom().contains(key) {
                assert(c.dom().contains(key));
            }
        }
        assert(b =~= a);
    }
}

/// Tables that change twice are not as they were.
proof fn lemma_still_the_same(state: VmState, between: Space, after: Space)
    requires
        extends(state.space, between),
        extends(between, after),
    ensures
        with_space(with_space(state, between), after) == with_space(state, after),
        extends(state.space, after),
{
    lemma_submaps(state.space.l3, between.l3, after.l3);
    lemma_submaps(state.space.l2, between.l2, after.l2);
    lemma_submaps(state.space.l1, between.l1, after.l1);
    lemma_submaps(state.space.leaves, between.leaves, after.leaves);
    assert(with_space(with_space(state, between), after) =~= with_space(state, after));
}

impl VirtualMemoryManager {
    /// The tables are in order.
    pub open spec fn well_formed(&self) -> bool {
        self.tables.well_formed()
    }

    /// An address space that has no tables yet.
    pub fn new() -> (vm: VirtualMemoryManager)
        ensures
            vm.well_formed(),
            vm@ == (VmState {
                initialized: false,
                committed: false,
                active: false,
                root: 0,
                space: empty_space(),
                mappings: seq![],
                mapped_pages: 0,
                report: None,
            }),
            vm.tables.l3_tables@.len() == 0,
            vm.tables.l2_tables@.len() == 0,
            vm.tables.l1_tables@.len() == 0,
    {
        VirtualMemoryManager {
            tables: PageTables::new(0),
            initialized: false,
            active: false,
            mappings: Vec::new(),
            mapped_pages: 0,
            boot_report: None,
        }
    }

    /// Allocates the root table, unless there is one.
    pub fn init(&mut self, memory: &mut PhysicalPageAllocator) -> (root: Option<u64>)
        requires
            old(self).well_formed(),
            old(memory).well_formed(),
            old(self)@.initialized || old(self)@.space == empty_space(),
        ensures
            final(self).well_formed(),
            final(memory).well_formed(),
            if old(self)@.initialized {
                root == Some(old(self)@.root) && final(self)@ == old(self)@ && final(memory)@ == old(
                    memory,
                )@
            } else {
                (final(memory)@, root) == allocation(old(memory)@, 1) && final(self)@ == match root {
                    Some(phys) => VmState {
                        initialized: true,
                        committed: false,
                        active: false,
                        root: phys,
                        report: None,
                        ..old(self)@
                    },
                    None => old(self)@,
                }
            },
    {
        if self.initialized {
            return Some(self.tables.root.phys_addr);
        }
        let root: u64 = match memory.allocate_page() {
            Some(root) => root,
            None => return None,
        };
        self.tables = PageTables::new(root);
        self.initialized = true;
        self.active = false;
        self.boot_report = None;
        Some(root)
    }

    /// What is known of the address space.
    pub fn stats(&self) -> (stats: VmStats)
        ensures
            stats == (VmStats {
                initialized: self@.initialized,
                committed: self@.committed,
                active: self@.active,
                root_table_phys: self@.root,
                high_half_base: HIGH_HALF_DIRECT_MAP_BASE,
                table_pages: if self@.initialized {
                    capped(self.tables.count())
                } else {
                    0
                },
                mapped_pages: self@.mapped_pages,
            }),
    {
        let table_pages: u64 = if self.initialized {
            1u64.saturating_add(self.tables.l3_tables.len() as u64).saturating_add(
                self.tables.l2_tables.len() as u64,
            ).saturating_add(self.tables.l1_tables.len() as u64)
        } else {
            0
        };
        VmStats {
            initialized: self.initialized,
            committed: self.tables.committed,
            active: self.active,
            root_table_phys: self.tables.root.phys_addr,
            high_half_base: HIGH_HALF_DIRECT_MAP_BASE,
            table_pages,
            mapped_pages: self.mapped_pages,
        }
    }

    /// The mappings that were made.
    pub fn mappings(&self) -> (mappings: &[Mapping])
        ensures
            mappings@ == self@.mappings,
    {
        self.mappings.as_slice()
    }

    /// How the address space was prepared at boot.
    pub fn boot_report(&self) -> (report: Option<BootVmReport>)
        ensures
            report == self@.report,
    {
        self.boot_report
    }

    /// Maps one page, and says whether it was not mapped before.
    fn map_page(&mut self, virt: u64, entry: u64, memory: &mut PhysicalPageAllocator) -> (result: Result<
        bool,
        VmError,
    >)
        requires
            old(self).well_formed(),
            old(memory).well_formed(),
            present(entry),
        ensures
            final(self).well_formed(),
            final(memory).well_formed(),
            ({
                let page = leaf_mapped(old(self)@.space, old(memory)@, page_number(virt), entry);
                &&& result == page.result
                &&& final(memory)@ == page.memory
                &&& final(self)@ == with_space(old(self)@, page.space)
            }),
    {
        let result = self.tables.ensure_leaf_mapping(virt, entry, memory);
        assert(self@ =~= with_space(old(self)@, self.tables.space()));
        result
    }

    /// Maps pages that follow each other to pages that do, and counts those that were not mapped
    /// before. The pages have addresses.
    pub fn map_fixed_range(
        &mut self,
        virt_start: u64,
        phys_start: u64,
        page_count: u64,
        writable: bool,
        executable: bool,
        memory: &mut PhysicalPageAllocator,
    ) -> (result: Result<u64, VmError>)
        requires
            old(self).well_formed(),
            old(memory).well_formed(),
            virt_start + page_count * PAGE_SIZE <= u64::MAX ==> phys_start + page_count * PAGE_SIZE
                <= 0x1_0000_0000_0000_0000,
        ensures
            final(self).well_formed(),
            final(memory).well_formed(),
            fixed_mapped(
                old(self)@,
                old(memory)@,
                virt_start,
                phys_start,
                page_count,
                writable,
                executable,
            ) == (Outcome { state: final(self)@, memory: final(memory)@, result }),
    {
        let ghost before = self@;
        let ghost memory_before = memory@;
        if !self.initialized {
            return Err(VmError::NotInitialized);
        }
        if page_count == 0 {
            return Ok(0);
        }
        if virt_start % PAGE_SIZE != 0 {
            return Err(VmError::UnalignedVirtualAddress);
        }
        if phys_start % PAGE_SIZE != 0 {
            return Err(VmError::UnalignedPhysicalAddress);
        }
        let bytes: u64 = match page_count.checked_mul(PAGE_SIZE) {
            Some(bytes) => bytes,
            None => return Err(VmError::AddressOverflow),
        };
        if virt_start.checked_add(bytes).is_none() {
            return Err(VmError::AddressOverflow);
        }
        let mut count: u64 = 0;
        let mut page: u64 = 0;
        assert(with_space(before, before.space) =~= before);
        while page < page_count
            invariant
                page <= page_count,
                count <= page,
                page_count > 0,
                virt_start + page_count * PAGE_SIZE <= u64::MAX,
                phys_start + page_count * PAGE_SIZE <= 0x1_0000_0000_0000_0000,
                virt_start % PAGE_SIZE == 0,
                phys_start % PAGE_SIZE == 0,
                before.initialized,
                before == old(self)@,
                memory_before == old(memory)@,
                self.well_formed(),
                memory.well_formed(),
                run_mapped(
                    before.space,
                    memory_before,
                    virt_start as int,
                    phys_start as int,
                    writable,
                    executable,
                    page as nat,
                ) == (Mapped {
                    space: self@.space,
                    memory: memory@,
                    result: Ok::<nat, VmError>(count as nat),
                }),
                self@ == with_space(before, self@.space),
                extends(before.space, self@.space),
            decreases page_count - page,
        {
            let virt: u64 = virt_start + page * PAGE_SIZE;
            let phys: u64 = phys_start + page * PAGE_SIZE;
            proof {
                crate::vm::entry::a_leaf_entry_says_what_it_maps(phys, writable, executable);
                lemma_leaf_extends(
                    self@.space,
                    memory@,
                    page_number(virt),
                    leaf_entry(phys, writable, executable),
                );
                lemma_still_the_same(
                    before,
                    self@.space,
                    leaf_mapped(
                        self@.space,
                        memory@,
                        page_number(virt),
                        leaf_entry(phys, writable, executable),
                    ).space,
                );
            }
            let entry: u64 = make_leaf_entry(phys, writable, executable);
            let fresh: bool = match self.map_page(virt, entry, memory) {
                Ok(fresh) => fresh,
                Err(error) => {
                    proof {
                        lemma_run_fails(
                            before.space,
                            memory_before,
                            virt_start as int,
                            phys_start as int,
                            writable,
                            executable,
                            (page + 1) as nat,
                            page_count as nat,
                        );
                    }
                    return Err(error);
                },
            };
            if fresh {
                count += 1;
            }
            page += 1;
        }
        if count != 0 {
            self.mapped_pages = self.mapped_pages.saturating_add(count);
            self.mappings.push(
                Mapping { virt_start, phys_start, page_count: count, writable, executable },
            );
        }
        assert(self@ =~= fixed_mapped(
            before,
            memory_before,
            virt_start,
            phys_start,
            page_count,
            writable,
            executable,
        ).state);
        Ok(count)
    }

    /// Maps the pages that the bytes from `start` to `end` touch to themselves.
    pub fn map_identity_range(
        &mut self,
        start: u64,
        end: u64,
        writable: bool,
        executable: bool,
        memory: &mut PhysicalPageAllocator,
    ) -> (result: Result<u64, VmError>)
        requires
            old(self).well_formed(),
            old(memory).well_formed(),
        ensures
            final(self).well_formed(),
            final(memory).well_formed(),
            identity_mapped(old(self)@, old(memory)@, start, end, writable, executable) == (Outcome {
                state: final(self)@,
                memory: final(memory)@,
                result,
            }),
    {
        let from: u64 = align_down(start);
        self.map_fixed_range(from, from, count_pages(start, end), writable, executable, memory)
    }

    /// Maps the pages that the bytes from `start` to `end` touch to themselves, except for those in
    /// the holes.
    pub fn map_identity_range_excluding(
        &mut self,
        start: u64,
        end: u64,
        holes: &[(u64, u64)],
        writable: bool,
        executable: bool,
        memory: &mut PhysicalPageAllocator,
    ) -> (result: Result<u64, VmError>)
        requires
            old(self).well_formed(),
            old(memory).well_formed(),
        ensures
            final(self).well_formed(),
            final(memory).well_formed(),
            runs_mapped(
                old(self)@,
                old(memory)@,
                window_gaps(start, end, holes@),
                writable,
                executable,
                window_gaps(start, end, holes@).len(),
            ) == (Outcome { state: final(self)@, memory: final(memory)@, result }),
    {
        let left = gaps_between(start, end, holes);
        let mut total: u64 = 0;
        let mut i: usize = 0;
        while i < left.len()
            invariant
                i <= left.len(),
                left@ == window_gaps(start, end, holes@),
                self.well_formed(),
                memory.well_formed(),
                runs_mapped(old(self)@, old(memory)@, left@, writable, executable, i as nat) == (
                Outcome { state: self@, memory: memory@, result: Ok::<u64, VmError>(total) }),
            decreases left.len() - i,
        {
            let (from, to) = left[i];
            match self.map_identity_range(from, to, writable, executable, memory) {
                Ok(count) => {
                    total = total.saturating_add(count);
                },
                Err(error) => {
                    proof {
                        lemma_runs_fail(
                            old(self)@,
                            old(memory)@,
                            left@,
                            writable,
                            executable,
                            (i + 1) as nat,
                            left@.len(),
                        );
                    }
                    return Err(error);
                },
            }
            i += 1;
        }
        Ok(total)
    }

    /// Shows the pages that the bytes from `phys_start` to `end` touch at `virt_start`.
    pub fn map_window_range(
        &mut self,
        virt_start: u64,
        phys_start: u64,
        end: u64,
        writable: bool,
        executable: bool,
        memory: &mut PhysicalPageAllocator,
    ) -> (result: Result<u64, VmError>)
        requires
            old(self).well_formed(),
            old(memory).well_formed(),
        ensures
            final(self).well_formed(),
            final(memory).well_formed(),
            ({
                let lead = phys_start % PAGE_SIZE;
                if pages_between(phys_start, end) == 0 {
                    result == Ok::<u64, VmError>(0) && final(self)@ == old(self)@ && final(memory)@
                        == old(memory)@
                } else {
                    fixed_mapped(
                        old(self)@,
                        old(memory)@,
                        if virt_start < lead {
                            0
                        } else {
                            (virt_start - lead) as u64
                        },
                        page_floor(phys_start as int) as u64,
                        pages_between(phys_start, end),
                        writable,
                        executable,
                    ) == (Outcome { state: final(self)@, memory: final(memory)@, result })
                }
            }),
    {
        let phys: u64 = align_down(phys_start);
        let pages: u64 = count_pages(phys_start, end);
        if pages == 0 {
            return Ok(0);
        }
        let virt: u64 = virt_start.saturating_sub(phys_start - phys);
        self.map_fixed_range(virt, phys, pages, writable, executable, memory)
    }

    /// One step of the preparation.
    fn take_step(
        &mut self,
        report: BootVmReport,
        step: BootStep,
        memory: &mut PhysicalPageAllocator,
    ) -> (result: Result<BootVmReport, VmError>)
        requires
            old(self).well_formed(),
            old(memory).well_formed(),
            step_fits(step),
        ensures
            final(self).well_formed(),
            final(memory).well_formed(),
            step_done(old(self)@, old(memory)@, report, step) == (Outcome {
                state: final(self)@,
                memory: final(memory)@,
                result,
            }),
    {
        match step {
            BootStep::Fail(error) => Err(error),
            BootStep::MapPages { virt, phys, pages, writable, executable, conflict, tally } => {
                match self.map_fixed_range(virt, phys, pages, writable, executable, memory) {
                    Ok(count) => Ok(tally_pages(report, tally, virt, writable, executable, count)),
                    Err(error) => Err(remap_conflict(error, conflict)),
                }
            },
        }
    }

    /// The low window, without the addresses of the kernel's image.
    fn map_low_window(&mut self, boot_info: &BootInfo, memory: &mut PhysicalPageAllocator) -> (result:
        Result<BootVmReport, VmError>)
        requires
            old(self).well_formed(),
            old(memory).well_formed(),
        ensures
            final(self).well_formed(),
            final(memory).well_formed(),
            low_window_mapped(old(self)@, old(memory)@, *boot_info) == (Outcome {
                state: final(self)@,
                memory: final(memory)@,
                result,
            }),
    {
        let blank = BootVmReport {
            identity_ranges: 0,
            identity_pages: 0,
            kernel_image_ranges: 0,
            kernel_image_pages: 0,
            kernel_writable_pages: 0,
            kernel_executable_pages: 0,
            kernel_wx_pages: 0,
            stack_window_start: 0,
            stack_window_pages: 0,
            higher_half_ranges: 0,
            higher_half_pages: 0,
            higher_half_base: HIGH_HALF_DIRECT_MAP_BASE,
        };
        let holes = kernel_virtual_holes(
            boot_info.kernel_image.segments(),
            0,
            IDENTITY_BOOT_WINDOW_BYTES,
        );
        match self.map_identity_range_excluding(
            0,
            IDENTITY_BOOT_WINDOW_BYTES,
            holes.as_slice(),
            true,
            true,
            memory,
        ) {
            Ok(count) => Ok(tally_pages(blank, BootTally::Identity, 0, true, true, count)),
            Err(error) => Err(remap_conflict(error, VmError::BootIdentityConflict)),
        }
    }

    /// Prepares the address space for the time when the firmware has let go of the machine: the low
    /// window, the stack, the window onto physical memory, what is taken, and the kernel's image,
    /// whose pages have physical addresses.
    pub fn prepare_boot_identity_map(
        &mut self,
        boot_info: &BootInfo,
        stack_pointer: u64,
        memory: &mut PhysicalPageAllocator,
    ) -> (result: Result<BootVmReport, VmError>)
        requires
            old(self).well_formed(),
            old(memory).well_formed(),
            old(self)@.initialized ==> image_fits(boot_info.kernel_image),
        ensures
            final(self).well_formed(),
            final(memory).well_formed(),
            boot_mapped(old(self)@, old(memory)@, *boot_info, stack_pointer) == (Outcome {
                state: final(self)@,
                memory: final(memory)@,
                result,
            }),
    {
        if !self.initialized {
            return Err(VmError::NotInitialized);
        }
        let steps = make_boot_steps(boot_info, stack_pointer);
        let ghost start = low_window_mapped(self@, memory@, *boot_info);
        let mut report = match self.map_low_window(boot_info, memory) {
            Ok(report) => report,
            Err(error) => {
                proof {
                    lemma_steps_fail(start, steps@, 0, steps@.len());
                }
                return Err(error);
            },
        };
        let mut i: usize = 0;
        while i < steps.len()
            invariant
                i <= steps.len(),
                steps@ == boot_steps(*boot_info, stack_pointer),
                steps_fit(steps@),
                old(self)@.initialized,
                start == low_window_mapped(old(self)@, old(memory)@, *boot_info),
                self.well_formed(),
                memory.well_formed(),
                steps_done(start, steps@, i as nat) == (Outcome {
                    state: self@,
                    memory: memory@,
                    result: Ok::<BootVmReport, VmError>(report),
                }),
            decreases steps.len() - i,
        {
            match self.take_step(report, steps[i], memory) {
                Ok(next) => {
                    report = next;
                },
                Err(error) => {
                    proof {
                        lemma_steps_fail(start, steps@, (i + 1) as nat, steps@.len());
                    }
                    return Err(error);
                },
            }
            i += 1;
        }
        self.tables.committed = true;
        self.boot_report = Some(report);
        assert(self@ =~= boot_mapped(
            old(self)@,
            old(memory)@,
            *boot_info,
            stack_pointer,
        ).state);
        Ok(report)
    }

    /// Whether one of the mappings meets the addresses from `start` to `end`.
    fn meets(&self, start: u64, end: u64) -> (result: bool)
        ensures
            result == meets_mapping(self@.mappings, start as int, end as int),
    {
        let mut i: usize = 0;
        while i < self.mappings.len()
            invariant
                i <= self.mappings@.len(),
                forall|j: int|
                    0 <= j < i ==> !(start < recorded_end(#[trigger] self@.mappings[j])
                        && self@.mappings[j].virt_start < end),
            decreases self.mappings.len() - i,
        {
            let mapping = self.mappings[i];
            assert(self@.mappings[i as int] == mapping);
            let finish: u64 = mapping.virt_start.saturating_add(page_bytes(mapping.page_count));
            if start < finish && mapping.virt_start < end {
                return true;
            }
            i += 1;
        }
        false
    }

    /// Maps pages that follow each other to pages that are allocated for them, and gives the first of
    /// those and how many were not mapped before.
    #[verifier::spinoff_prover]
    #[verifier::rlimit(60)]
    fn map_fresh_pages(
        &mut self,
        virt_start: u64,
        total: u64,
        writable: bool,
        executable: bool,
        memory: &mut PhysicalPageAllocator,
    ) -> (result: Result<(u64, u64), VmError>)
        requires
            old(self).well_formed(),
            old(memory).well_formed(),
            total > 0,
            virt_start + total * PAGE_SIZE <= u64::MAX,
        ensures
            final(self).well_formed(),
            final(memory).well_formed(),
            ({
                let run = fresh_run_mapped(
                    old(self)@.space,
                    old(memory)@,
                    virt_start as int,
                    writable,
                    executable,
                    total as nat,
                );
                &&& final(self)@ == with_space(old(self)@, run.space)
                &&& final(memory)@ == run.memory
                &&& match result {
                    Ok((first, count)) => allocation(old(memory)@, 1).1 == Some(first) && run.result
                        == Ok::<nat, VmError>(count as nat) && count <= total,
                    Err(error) => run.result == Err::<nat, VmError>(error),
                }
            }),
    {
        let ghost before = self@;
        let ghost memory_before = memory@;
        let mut first: u64 = 0;
        let mut count: u64 = 0;
        let mut page: u64 = 0;
        assert(with_space(before, before.space) =~= before);
        while page < total
            invariant
                page <= total,
                count <= page,
                total > 0,
                virt_start + total * PAGE_SIZE <= u64::MAX,
                before == old(self)@,
                memory_before == old(memory)@,
                self.well_formed(),
                memory.well_formed(),
                page > 0 ==> allocation(memory_before, 1).1 == Some(first),
                fresh_run_mapped(
                    before.space,
                    memory_before,
                    virt_start as int,
                    writable,
                    executable,
                    page as nat,
                ) == (Mapped {
                    space: self@.space,
                    memory: memory@,
                    result: Ok::<nat, VmError>(count as nat),
                }),
                self@ == with_space(before, self@.space),
                extends(before.space, self@.space),
            decreases total - page,
        {
            let virt: u64 = virt_start + page * PAGE_SIZE;
            proof {
                if fresh_run_mapped(
                    before.space,
                    memory_before,
                    virt_start as int,
                    writable,
                    executable,
                    (page + 1) as nat,
                ).result is Err {
                    lemma_fresh_run_fails(
                        before.space,
                        memory_before,
                        virt_start as int,
                        writable,
                        executable,
                        (page + 1) as nat,
                        total as nat,
                    );
                }
            }
            let phys: u64 = match memory.allocate_page() {
                Some(phys) => phys,
                None => return Err(VmError::OutOfPhysicalPages),
            };
            if page == 0 {
                first = phys;
            }
            proof {
                crate::vm::entry::a_leaf_entry_says_what_it_maps(phys, writable, executable);
                lemma_leaf_extends(
                    self@.space,
                    memory@,
                    page_number(virt),
                    leaf_entry(phys, writable, executable),
                );
                lemma_still_the_same(
                    before,
                    self@.space,
                    leaf_mapped(
                        self@.space,
                        memory@,
                        page_number(virt),
                        leaf_entry(phys, writable, executable),
                    ).space,
                );
            }
            let entry: u64 = make_leaf_entry(phys, writable, executable);
            let fresh: bool = match self.map_page(virt, entry, memory) {
                Ok(fresh) => fresh,
                Err(error) => return Err(error),
            };
            if fresh {
                count += 1;
            }
            page += 1;
        }
        Ok((first, count))
    }

    /// Maps pages that follow each other to pages that are allocated for them. The tables are to be
    /// written afterwards.
    pub fn map_range(
        &mut self,
        virt_start: u64,
        page_count: usize,
        writable: bool,
        executable: bool,
        memory: &mut PhysicalPageAllocator,
    ) -> (result: Result<Mapping, VmError>)
        requires
            old(self).well_formed(),
            old(memory).well_formed(),
        ensures
            final(self).well_formed(),
            final(memory).well_formed(),
            range_mapped(
                old(self)@,
                old(memory)@,
                virt_start,
                page_count as u64,
                writable,
                executable,
            ) == (Outcome { state: final(self)@, memory: final(memory)@, result }),
    {
        let ghost before = self@;
        let ghost memory_before = memory@;
        if !self.initialized {
            return Err(VmError::NotInitialized);
        }
        if page_count == 0 {
            return Err(VmError::InvalidPageCount);
        }
        if virt_start % PAGE_SIZE != 0 {
            return Err(VmError::UnalignedVirtualAddress);
        }
        let total: u64 = page_count as u64;
        let bytes: u64 = match total.checked_mul(PAGE_SIZE) {
            Some(bytes) => bytes,
            None => return Err(VmError::AddressOverflow),
        };
        let virt_end: u64 = match virt_start.checked_add(bytes) {
            Some(virt_end) => virt_end,
            None => return Err(VmError::AddressOverflow),
        };
        if self.meets(virt_start, virt_end) {
            return Err(VmError::AlreadyMapped);
        }
        let first: u64;
        let count: u64;
        match self.map_fresh_pages(virt_start, total, writable, executable, memory) {
            Ok(mapped) => {
                first = mapped.0;
                count = mapped.1;
            },
            Err(error) => return Err(error),
        }
        let mapping = Mapping {
            virt_start,
            phys_start: first,
            page_count: count,
            writable,
            executable,
        };
        self.mapped_pages = self.mapped_pages.saturating_add(count);
        if count != 0 {
            self.mappings.push(mapping);
        }
        self.tables.committed = true;
        assert(self@ =~= range_mapped(
            before,
            memory_before,
            virt_start,
            page_count as u64,
            writable,
            executable,
        ).state);
        Ok(mapping)
    }

    /// Maps pages to be written, not executed, behind those that were mapped before for
    /// demonstration.
    pub fn map_demo_range(&mut self, page_count: usize, memory: &mut PhysicalPageAllocator) -> (result:
        Result<Mapping, VmError>)
        requires
            old(self).well_formed(),
            old(memory).well_formed(),
            DEMO_VIRT_BASE + old(self)@.mapped_pages * PAGE_SIZE <= u64::MAX,
        ensures
            final(self).well_formed(),
            final(memory).well_formed(),
            range_mapped(
                old(self)@,
                old(memory)@,
                (DEMO_VIRT_BASE + old(self)@.mapped_pages * PAGE_SIZE) as u64,
                page_count as u64,
                true,
                false,
            ) == (Outcome { state: final(self)@, memory: final(memory)@, result }),
    {
        let base: u64 = DEMO_VIRT_BASE + self.mapped_pages * PAGE_SIZE;
        self.map_range(base, page_count, true, false, memory)
    }

    /// Follows the tables to `virt` as the processor does.
    pub fn walk(&self, virt: u64) -> (walk: PageWalk)
        ensures
            walk.virt == virt,
            walk.indices@[0] == page_number(virt) / 0x800_0000,
            walk.indices@[1] == page_number(virt) / 0x4_0000 % 512,
            walk.indices@[2] == page_number(virt) / 512 % 512,
            walk.indices@[3] == page_number(virt) % 512,
            (walk.l4_entry, walk.l3_entry, walk.l2_entry, walk.l1_entry) == self.tables.walked(virt),
            walk.phys == match self.tables.walked(virt).3 {
                Some(entry) => Some(translated(entry, virt)),
                None => None,
            },
    {
        self.tables.walk(virt)
    }

    /// Where `virt` leads.
    pub fn translate(&self, virt: u64) -> (phys: Option<u64>)
        ensures
            phys == match self.tables.walked(virt).3 {
                Some(entry) => Some(translated(entry, virt)),
                None => None,
            },
    {
        self.tables.translate(virt)
    }

    /// Notes that the tables are written, and gives the address of the root.
    pub fn sync(&mut self) -> (result: Result<u64, VmError>)
        requires
            old(self).well_formed(),
        ensures
            final(self).well_formed(),
            if old(self)@.initialized {
                result == Ok::<u64, VmError>(old(self)@.root) && final(self)@ == (VmState {
                    committed: true,
                    ..old(self)@
                })
            } else {
                result == Err::<u64, VmError>(VmError::NotInitialized) && final(self)@ == old(self)@
            },
    {
        if !self.initialized {
            return Err(VmError::NotInitialized);
        }
        self.tables.committed = true;
        Ok(self.tables.root.phys_addr)
    }

    /// Notes that the processor uses the tables, and gives the address of the root. Tables that have
    /// changed since they were written are written first.
    pub fn activate(&mut self) -> (result: Result<u64, VmError>)
        requires
            old(self).well_formed(),
        ensures
            final(self).well_formed(),
            if old(self)@.initialized {
                result == Ok::<u64, VmError>(old(self)@.root) && final(self)@ == (VmState {
                    committed: true,
                    active: true,
                    ..old(self)@
                })
            } else {
                result == Err::<u64, VmError>(VmError::NotInitialized) && final(self)@ == old(self)@
            },
    {
        let root: u64 = match self.sync() {
            Ok(root) => root,
            Err(error) => return Err(error),
        };
        self.active = true;
        Ok(root)
    }

    /// Takes over the tables that the processor uses, of which nothing is known but their root.
    pub fn adopt_active_root(&mut self, root_table_phys: u64) -> (result: Result<u64, VmError>)
        requires
            old(self).well_formed(),
        ensures
            final(self).well_formed(),
            if root_table_phys % PAGE_SIZE != 0 {
                result == Err::<u64, VmError>(VmError::UnalignedPhysicalAddress) && final(self)@ == old(
                    self,
                )@
            } else {
                result == Ok::<u64, VmError>(root_table_phys) && final(self)@ == (VmState {
                    initialized: true,
                    committed: true,
                    active: true,
                    root: root_table_phys,
                    space: empty_space(),
                    mappings: seq![],
                    mapped_pages: 0,
                    report: None,
                })
            },
    {
        if root_table_phys % PAGE_SIZE != 0 {
            return Err(VmError::UnalignedPhysicalAddress);
        }
        let mut tables = PageTables::new(root_table_phys);
        tables.committed = true;
        self.tables = tables;
        self.initialized = true;
        self.active = true;
        self.mappings = Vec::new();
        self.mapped_pages = 0;
        self.boot_report = None;
        assert(self@.space =~= empty_space());
        assert(self@.mappings =~= seq![]);
        Ok(root_table_phys)
    }

    /// Where entry `index` of the table at `table_phys` can be read: in which table, if the tables
    /// have been written and the table has such an entry.
    pub fn read_committed_entry(&self, table_phys: u64, index: usize) -> (table: Option<u64>)
        ensures
            table == if !self@.committed || index >= PAGE_TABLE_ENTRIES {
                None
            } else if self@.active && window_address(table_phys) is Some {
                window_address(table_phys)
            } else {
                Some(table_phys)
            },
    {
        if !self.tables.committed || index >= PAGE_TABLE_ENTRIES {
            return None;
        }
        Some(phys_to_addr(table_phys, self.active))
    }

    /// Where the root table is seen through the window, once the processor uses the tables.
    pub fn probe_higher_half(&self) -> (virt: Option<u64>)
        ensures
            virt == if self@.active {
                window_address(self@.root)
            } else {
                None
            },
    {
        if !self.active {
            return None;
        }
        physical_to_high_half(self.tables.root.phys_addr)
    }
}

} // verus!
