//! How far booting has come, and what was found on the way.

use vstd::prelude::*;
use crate::bootinfo::{
    first_range, the_first_range_of_a_kind_is_found, BootInfo, ReservedMemoryKind, ReservedMemoryRange};
use crate::vm::entry::{high_half_base, physical_to_high_half, window_address, HIGH_HALF_DIRECT_MAP_BASE};
use crate::vm::manager::{BootVmReport, HhdmProbe};

verus! {

/// How far booting has come.
#[derive(Debug, Clone, Copy, PartialEq, Eq, Structural)]
pub enum BootPhase {
    FirmwareEntry,
    VmInitialized,
    PostEbsActive,
}

impl BootPhase {
    pub fn as_str(self) -> (name: &'static str)
        ensures
            name@ == match self {
                BootPhase::FirmwareEntry => "firmware-entry"@,
                BootPhase::VmInitialized => "vm-initialized"@,
                BootPhase::PostEbsActive => "post-ebs-active"@,
            },
    {
        match self {
            BootPhase::FirmwareEntry => "firmware-entry",
            BootPhase::VmInitialized => "vm-initialized",
            BootPhase::PostEbsActive => "post-ebs-active",
        }
    }
}

/// A range that is taken, and where the window onto physical memory shows it.
#[derive(Debug, Clone, Copy, PartialEq, Eq, Structural)]
pub struct ReservedAlias {
    pub range: ReservedMemoryRange,
    pub virt: u64,
}

/// What is known of booting.
#[derive(Debug, Clone, Copy, PartialEq, Eq, Structural)]
pub struct BootSnapshot {
    pub phase: BootPhase,
    pub root_table_phys: u64,
    pub hhdm_base: u64,
    pub boot_report: Option<BootVmReport>,
    pub hhdm_probe: Option<HhdmProbe>,
    pub framebuffer_alias: Option<u64>,
    pub loader_alias: Option<ReservedAlias>,
    pub memory_map_alias: Option<ReservedAlias>,
}

/// Where the window shows the first range that is taken for this reason.
pub open spec fn alias_of(ranges: Seq<ReservedMemoryRange>, kind: ReservedMemoryKind) -> Option<
    ReservedAlias,
> {
    match first_range(ranges, kind, 0) {
        Some(range) => match window_address(range.start) {
            Some(virt) => Some(ReservedAlias { range, virt }),
            None => None,
        },
        None => None,
    }
}

/// Where the window shows the first range that is taken for this reason.
pub fn reserved_alias(boot_info: &BootInfo, kind: ReservedMemoryKind) -> (alias: Option<ReservedAlias>)
    ensures
        alias == alias_of(boot_info.ranges(), kind),
{
    match boot_info.reserved_range(kind) {
        Some(range) => match physical_to_high_half(range.start) {
            Some(virt) => Some(ReservedAlias { range, virt }),
            None => None,
        },
        None => None,
    }
}

/// Keeps what is known of booting.
#[derive(Debug, Clone, Copy, PartialEq, Eq, Structural)]
pub struct BootState {
    pub known: BootSnapshot,
}

impl BootState {
    /// Nothing is known.
    pub fn new() -> (state: BootState)
        ensures
            state.known == (BootSnapshot {
                phase: BootPhase::FirmwareEntry,
                root_table_phys: 0,
                hhdm_base: 0,
                boot_report: None,
                hhdm_probe: None,
                framebuffer_alias: None,
                loader_alias: None,
                memory_map_alias: None,
            }),
    {
        BootState {
            known: BootSnapshot {
                phase: BootPhase::FirmwareEntry,
                root_table_phys: 0,
                hhdm_base: 0,
                boot_report: None,
                hhdm_probe: None,
                framebuffer_alias: None,
                loader_alias: None,
                memory_map_alias: None,
            },
        }
    }

    /// The kernel was entered: what was known before counts no more, but for the root.
    pub fn record_firmware_entry(&mut self)
        ensures
            final(self).known == (BootSnapshot {
                phase: BootPhase::FirmwareEntry,
                root_table_phys: old(self).known.root_table_phys,
                hhdm_base: HIGH_HALF_DIRECT_MAP_BASE,
                boot_report: None,
                hhdm_probe: None,
                framebuffer_alias: None,
                loader_alias: None,
                memory_map_alias: None,
            }),
    {
        self.known = BootSnapshot {
            phase: BootPhase::FirmwareEntry,
            root_table_phys: self.known.root_table_phys,
            hhdm_base: high_half_base(),
            boot_report: None,
            hhdm_probe: None,
            framebuffer_alias: None,
            loader_alias: None,
            memory_map_alias: None,
        };
    }

    /// There is a root table.
    pub fn record_vm_initialized(&mut self, root_table_phys: u64)
        ensures
            final(self).known == (BootSnapshot {
                phase: BootPhase::VmInitialized,
                root_table_phys,
                hhdm_base: HIGH_HALF_DIRECT_MAP_BASE,
                ..old(self).known
            }),
    {
        self.known.phase = BootPhase::VmInitialized;
        self.known.root_table_phys = root_table_phys;
        self.known.hhdm_base = high_half_base();
    }

    /// The kernel's tables are in use.
    pub fn record_post_ebs_active(
        &mut self,
        boot_info: &BootInfo,
        root_table_phys: u64,
        boot_report: Option<BootVmReport>,
        hhdm_probe: Option<HhdmProbe>,
    )
        ensures
            final(self).known == (BootSnapshot {
                phase: BootPhase::PostEbsActive,
                root_table_phys,
                hhdm_base: HIGH_HALF_DIRECT_MAP_BASE,
                boot_report,
                hhdm_probe,
                framebuffer_alias: window_address(boot_info.framebuffer.base),
                loader_alias: alias_of(boot_info.ranges(), ReservedMemoryKind::LoaderImage),
                memory_map_alias: alias_of(boot_info.ranges(), ReservedMemoryKind::MemoryMap),
            }),
    {
        self.known = BootSnapshot {
            phase: BootPhase::PostEbsActive,
            root_table_phys,
            hhdm_base: high_half_base(),
            boot_report,
            hhdm_probe,
            framebuffer_alias: physical_to_high_half(boot_info.framebuffer.base),
            loader_alias: reserved_alias(boot_info, ReservedMemoryKind::LoaderImage),
            memory_map_alias: reserved_alias(boot_info, ReservedMemoryKind::MemoryMap),
        };
    }

    /// What is known of booting.
    pub fn snapshot(&self) -> (snapshot: BootSnapshot)
        ensures
            snapshot == self.known,
    {
        self.known
    }
}

/// A range that is taken for a reason is shown in the window onto physical memory, as far above its start
/// as the window begins; the first such range counts.
pub proof fn a_taken_range_is_shown_in_the_window(
    ranges: Seq<ReservedMemoryRange>,
    kind: ReservedMemoryKind,
    i: int,
)
    requires
        0 <= i < ranges.len(),
        ranges[i].kind == kind,
        forall|j: int| 0 <= j < i ==> (#[trigger] ranges[j]).kind != kind,
    ensures
        alias_of(ranges, kind) is Some <==> ranges[i].start < 0x8000_0000_0000,
        alias_of(ranges, kind) matches Some(alias) ==> alias.range == ranges[i] && alias.virt
            == 0xffff_8000_0000_0000 + ranges[i].start,
{
    the_first_range_of_a_kind_is_found(ranges, kind, 0);
}

} // verus!
