//! What the kernel keeps of memory, address space, interrupts and booting, and in which order it is
//! brought up.

use vstd::prelude::*;
use crate::boot::{alias_of, BootPhase, BootSnapshot, BootState};
use crate::bootinfo::{
    first_range, BootInfo, FirmwareMode, ReservedMemoryKind, PAGE_SIZE,
};
use crate::heap_allocator::heap::HeapInitError;
use crate::interrupts::Interrupts;
use crate::memory::{
    allocation, region_sizes, usable_regions, AllocatorState, PhysicalPageAllocator,
};
use crate::sums::sum;
use crate::vm::entry::{window_address, VmError, HIGH_HALF_DIRECT_MAP_BASE};
use crate::vm::kernel::image_fits;
use crate::vm::manager::{boot_mapped, BootVmReport, HhdmProbe, VirtualMemoryManager, VmState};
use crate::vm::laws::preparing_keeps_the_root;
use crate::vm::tables::empty_space;

verus! {

/// Why the kernel cannot run on its own.
#[derive(Debug, Clone, Copy, PartialEq, Eq, Structural)]
pub enum StandaloneInitError {
    VirtualMemory(VmError),
    KernelHeapMissing,
    KernelHeapAddressOverflow,
    KernelHeapInitialization(HeapInitError),
    ExceptionPathUnavailable,
}

impl vstd::std_specs::convert::FromSpecImpl<VmError> for StandaloneInitError {
    open spec fn obeys_from_spec() -> bool {
        true
    }

    open spec fn from_spec(error: VmError) -> StandaloneInitError {
        StandaloneInitError::VirtualMemory(error)
    }
}

impl From<VmError> for StandaloneInitError {
    fn from(error: VmError) -> (wrapped: StandaloneInitError) {
        StandaloneInitError::VirtualMemory(error)
    }
}

/// Everything that the kernel keeps.
pub struct Runtime {
    pub memory: PhysicalPageAllocator,
    pub vm: VirtualMemoryManager,
    pub interrupts: Interrupts,
    pub boot: BootState,
}

/// What the page allocator starts with: the regions that can be used, and nothing handed out.
pub open spec fn initial_memory(boot_info: BootInfo) -> AllocatorState {
    let regions = usable_regions(
        boot_info.firmware_mode,
        boot_info.regions(),
        boot_info.ranges(),
        boot_info.regions().len(),
    );
    AllocatorState {
        initialized: true,
        regions,
        extents: seq![],
        total: sum(region_sizes(regions)),
        allocated: 0,
    }
}

/// What is known of booting when the kernel was entered.
pub open spec fn entered(root_table_phys: u64) -> BootSnapshot {
    BootSnapshot {
        phase: BootPhase::FirmwareEntry,
        root_table_phys,
        hhdm_base: HIGH_HALF_DIRECT_MAP_BASE,
        boot_report: None,
        hhdm_probe: None,
        framebuffer_alias: None,
        loader_alias: None,
        memory_map_alias: None,
    }
}

/// What there is to report of the first steps.
#[derive(Debug, Clone, Copy, PartialEq, Eq, Structural)]
pub struct Started {
    /// Whether the tables of interrupts are to be loaded now.
    pub load_tables: bool,
    /// The root table, if there was memory for it. It is to be written.
    pub root: Option<u64>,
}

/// How the kernel's own address space came to be.
#[derive(Debug, Clone, Copy, PartialEq, Eq, Structural)]
pub struct Activated {
    pub root: u64,
    pub report: BootVmReport,
}

impl Runtime {
    /// Memory and address space are in order.
    pub open spec fn well_formed(&self) -> bool {
        &&& self.memory.well_formed()
        &&& self.vm.well_formed()
        &&& self.vm@.initialized || self.vm@.space == empty_space()
    }

    /// Nothing has been done.
    pub fn new() -> (runtime: Runtime)
        ensures
            runtime.well_formed(),
            runtime.memory@ == (AllocatorState {
                initialized: false,
                regions: seq![],
                extents: seq![],
                total: 0,
                allocated: 0,
            }),
            runtime.vm@ == (VmState {
                initialized: false,
                committed: false,
                active: false,
                root: 0,
                space: empty_space(),
                mappings: seq![],
                mapped_pages: 0,
                report: None,
            }),
            runtime.interrupts == (Interrupts {
                gdt_loaded: false,
                idt_loaded: false,
                hardware_enabled: false,
                ticks: 0,
                timer_seen: false,
                breakpoint_hits: 0,
                privilege_stack: 0,
            }),
            runtime.boot.known == (BootSnapshot { hhdm_base: 0, ..entered(0) }),
    {
        Runtime {
            memory: PhysicalPageAllocator::new(),
            vm: VirtualMemoryManager::new(),
            interrupts: Interrupts::new(),
            boot: BootState::new(),
        }
    }

    /// The first steps: memory, the tables of interrupts if the firmware has let go of the machine, and
    /// the root table.
    pub fn init(&mut self, boot_info: &BootInfo) -> (started: Started)
        requires
            old(self).well_formed(),
        ensures
            final(self).well_formed(),
            ({
                let loads = boot_info.firmware_mode == FirmwareMode::PostExitBootServices && !old(
                    self).interrupts.idt_loaded;
                &&& started.load_tables == loads
                &&& final(self).interrupts == if loads {
                    Interrupts { gdt_loaded: true, idt_loaded: true, ..old(self).interrupts }
                } else {
                    old(self).interrupts
                }
            }),
            if old(self).vm@.initialized {
                &&& started.root == Some(old(self).vm@.root)
                &&& final(self).memory@ == initial_memory(*boot_info)
                &&& final(self).vm@ == (VmState { committed: true, ..old(self).vm@ })
            } else {
                &&& (final(self).memory@, started.root) == allocation(
                    initial_memory(*boot_info),
                    1,
                )
                &&& final(self).vm@ == match started.root {
                    Some(root) => VmState {
                        initialized: true,
                        committed: true,
                        active: false,
                        root,
                        space: empty_space(),
                        report: None,
                        ..old(self).vm@
                    },
                    None => old(self).vm@,
                }
            },
            final(self).boot.known == match started.root {
                Some(root) => BootSnapshot { phase: BootPhase::VmInitialized, ..entered(root) },
                None => entered(old(self).boot.known.root_table_phys),
            },
    {
        self.memory.init(boot_info);
        let load_tables: bool = match boot_info.firmware_mode {
            FirmwareMode::PostExitBootServices => self.interrupts.init_idt(),
            FirmwareMode::UefiBootServices => false,
        };
        self.boot.record_firmware_entry();
        assert(self.memory@ =~= initial_memory(*boot_info));
        let root: Option<u64> = self.vm.init(&mut self.memory);
        match root {
            Some(root) => match self.vm.sync() {
                Ok(_) => self.boot.record_vm_initialized(root),
                Err(_) => {},
            },
            None => {},
        }
        Started { load_tables, root }
    }

    /// Prepares the kernel's address space and takes it into use, once the firmware has let go of the
    /// machine. Its tables are to be written, and the root to be loaded.
    pub fn activate_post_ebs_vm(&mut self, boot_info: &BootInfo, stack_pointer: u64) -> (result: Result<
        Activated,
        VmError,
    >)
        requires
            old(self).well_formed(),
            boot_info.firmware_mode == FirmwareMode::PostExitBootServices && old(self).vm@.initialized
                ==> image_fits(boot_info.kernel_image),
        ensures
            final(self).well_formed(),
            final(self).interrupts == old(self).interrupts,
            final(self).boot == old(self).boot,
            if boot_info.firmware_mode != FirmwareMode::PostExitBootServices {
                &&& result == Err::<Activated, VmError>(VmError::FirmwareServicesActive)
                &&& final(self).vm@ == old(self).vm@
                &&& final(self).memory@ == old(self).memory@
            } else {
                let mapped = boot_mapped(
                    old(self).vm@,
                    old(self).memory@,
                    *boot_info,
                    stack_pointer,
                );
                &&& final(self).memory@ == mapped.memory
                &&& match mapped.result {
                    Ok(report) => result == Ok::<Activated, VmError>(
                        Activated { root: mapped.state.root, report },
                    ) && final(self).vm@ == (VmState {
                        committed: true,
                        active: true,
                        ..mapped.state
                    }),
                    Err(error) => result == Err::<Activated, VmError>(error) && final(self).vm@
                        == mapped.state,
                }
            },
    {
        match boot_info.firmware_mode {
            FirmwareMode::PostExitBootServices => {},
            FirmwareMode::UefiBootServices => return Err(VmError::FirmwareServicesActive),
        }
        proof {
            preparing_keeps_the_root(
                self.vm@,
                self.memory@,
                *boot_info,
                stack_pointer,
            );
        }
        let report = match self.vm.prepare_boot_identity_map(
            boot_info,
            stack_pointer,
            &mut self.memory,
        ) {
            Ok(report) => report,
            Err(error) => return Err(error),
        };
        match self.vm.activate() {
            Ok(root) => Ok(Activated { root, report }),
            Err(error) => Err(error),
        }
    }

    /// Notes that the kernel's address space is in use, with what was seen of it.
    pub fn record_active(&mut self, boot_info: &BootInfo, root: u64, probe: Option<HhdmProbe>)
        requires
            old(self).well_formed(),
        ensures
            final(self).well_formed(),
            *final(self) == (Runtime { boot: final(self).boot, ..*old(self) }),
            final(self).boot.known == (BootSnapshot {
                phase: BootPhase::PostEbsActive,
                root_table_phys: root,
                hhdm_base: HIGH_HALF_DIRECT_MAP_BASE,
                boot_report: old(self).vm@.report,
                hhdm_probe: probe,
                framebuffer_alias: window_address(boot_info.framebuffer.base),
                loader_alias: alias_of(boot_info.ranges(), ReservedMemoryKind::LoaderImage),
                memory_map_alias: alias_of(boot_info.ranges(), ReservedMemoryKind::MemoryMap),
            }),
    {
        let report = self.vm.boot_report();
        self.boot.record_post_ebs_active(boot_info, root, report, probe);
    }

    /// Takes over the address space that is in use, once the firmware has let go of the machine, and
    /// says whether the tables of interrupts are to be loaded now.
    pub fn adopt_current_post_ebs_vm(&mut self, boot_info: &BootInfo, current_root: u64) -> (result:
        Result<Started, VmError>)
        requires
            old(self).well_formed(),
        ensures
            final(self).well_formed(),
            if boot_info.firmware_mode != FirmwareMode::PostExitBootServices {
                result == Err::<Started, VmError>(VmError::FirmwareServicesActive) && *final(self)
                    == *old(self)
            } else {
                &&& final(self).memory@ == initial_memory(*boot_info)
                &&& final(self).interrupts == if old(self).interrupts.idt_loaded {
                    old(self).interrupts
                } else {
                    Interrupts { gdt_loaded: true, idt_loaded: true, ..old(self).interrupts }
                }
                &&& final(self).boot.known == entered(old(self).boot.known.root_table_phys)
                &&& if current_root % PAGE_SIZE != 0 {
                    result == Err::<Started, VmError>(VmError::UnalignedPhysicalAddress) && final(
                        self).vm@ == old(self).vm@
                } else {
                    result == Ok::<Started, VmError>(
                        Started {
                            load_tables: !old(self).interrupts.idt_loaded,
                            root: Some(current_root),
                        },
                    ) && final(self).vm@ == (VmState {
                        initialized: true,
                        committed: true,
                        active: true,
                        root: current_root,
                        space: empty_space(),
                        mappings: seq![],
                        mapped_pages: 0,
                        report: None,
                    })
                }
            },
    {
        match boot_info.firmware_mode {
            FirmwareMode::PostExitBootServices => {},
            FirmwareMode::UefiBootServices => return Err(VmError::FirmwareServicesActive),
        }
        self.memory.init(boot_info);
        let load_tables: bool = self.interrupts.init_idt();
        self.boot.record_firmware_entry();
        assert(self.memory@ =~= initial_memory(*boot_info));
        match self.vm.adopt_active_root(current_root) {
            Ok(root) => Ok(Started { load_tables, root: Some(root) }),
            Err(error) => Err(error),
        }
    }

    /// Where the kernel's heap is, once it has been shown that exceptions come through.
    pub fn init_standalone(&self, boot_info: &BootInfo, breakpoints_before: u64) -> (result: Result<
        (usize, usize),
        StandaloneInitError,
    >)
        ensures
            result == standalone_heap(
                self.interrupts.idt_loaded && self.interrupts.breakpoint_hits
                    == breakpoints_before.wrapping_add(1),
                *boot_info,
            ),
    {
        if !self.interrupts.verify_exception_path(breakpoints_before) {
            return Err(StandaloneInitError::ExceptionPathUnavailable);
        }
        let heap = match boot_info.reserved_range(ReservedMemoryKind::KernelHeap) {
            Some(heap) => heap,
            None => return Err(StandaloneInitError::KernelHeapMissing),
        };
        if heap.start > usize::MAX as u64 || heap.length > usize::MAX as u64 {
            return Err(StandaloneInitError::KernelHeapAddressOverflow);
        }
        Ok((heap.start as usize, heap.length as usize))
    }
}

/// Where the kernel's heap is, or why the kernel cannot run on its own.
pub open spec fn standalone_heap(exceptions_come: bool, boot_info: BootInfo) -> Result<
    (usize, usize),
    StandaloneInitError,
> {
    if !exceptions_come {
        Err(StandaloneInitError::ExceptionPathUnavailable)
    } else {
        match first_range(boot_info.ranges(), ReservedMemoryKind::KernelHeap, 0) {
            None => Err(StandaloneInitError::KernelHeapMissing),
            Some(heap) => if heap.start > usize::MAX || heap.length > usize::MAX {
                Err(StandaloneInitError::KernelHeapAddressOverflow)
            } else {
                Ok((heap.start as usize, heap.length as usize))
            },
        }
    }
}

/// The kernel's heap is the first range that is reserved for it; without exceptions, or without such a
/// range, there is none.
pub proof fn the_heap_is_what_was_reserved(boot_info: BootInfo, i: int)
    requires
        0 <= i < boot_info.ranges().len(),
        boot_info.ranges()[i].kind == ReservedMemoryKind::KernelHeap,
        forall|j: int|
            0 <= j < i ==> (#[trigger] boot_info.ranges()[j]).kind != ReservedMemoryKind::KernelHeap,
        boot_info.ranges()[i].start <= usize::MAX,
        boot_info.ranges()[i].length <= usize::MAX,
    ensures
        standalone_heap(true, boot_info) == Ok::<(usize, usize), StandaloneInitError>(
            (boot_info.ranges()[i].start as usize, boot_info.ranges()[i].length as usize),
        ),
        standalone_heap(false, boot_info) is Err,
{
    lemma_first_heap(boot_info.ranges(), 0, i);
}

proof fn lemma_first_heap(ranges: Seq<crate::bootinfo::ReservedMemoryRange>, from: int, i: int)
    requires
        0 <= from <= i < ranges.len(),
        ranges[i].kind == ReservedMemoryKind::KernelHeap,
        forall|j: int| from <= j < i ==> (#[trigger] ranges[j]).kind != ReservedMemoryKind::KernelHeap,
    ensures
        first_range(ranges, ReservedMemoryKind::KernelHeap, from) == Some(ranges[i]),
    decreases i - from,
{
    if from < i {
        assert(ranges[from].kind != ReservedMemoryKind::KernelHeap);
        lemma_first_heap(ranges, from + 1, i);
    }
}

} // verus!
