//! What the loader hands to the kernel: the frame buffer, the memory map, the ranges that are taken
//! and the kernel's image.

use vstd::prelude::*;
use crate::bytes::zero_between;
use vstd::array::array_as_slice;
use vstd::slice::slice_subrange;

verus! {

pub const PAGE_SIZE: u64 = 4096;

pub const MAX_MEMORY_REGIONS: usize = 128;

pub const MAX_RESERVED_MEMORY_RANGES: usize = 16;

pub const MAX_KERNEL_IMAGE_SEGMENTS: usize = 8;

pub const KERNEL_SEGMENT_FLAG_READ: u32 = 1;

pub const KERNEL_SEGMENT_FLAG_WRITE: u32 = 2;

pub const KERNEL_SEGMENT_FLAG_EXECUTE: u32 = 4;

/// How the colors of a pixel are ordered.
#[derive(Debug, Clone, Copy, PartialEq, Eq, Structural)]
pub enum PixelFormat {
    Rgb,
    Bgr,
    Unknown,
}

/// Whether the firmware still owns part of the machine.
#[derive(Debug, Clone, Copy, PartialEq, Eq, Structural)]
pub enum FirmwareMode {
    UefiBootServices,
    PostExitBootServices,
}

/// What a region of memory is for.
#[derive(Debug, Clone, Copy, PartialEq, Eq, Structural)]
pub enum MemoryRegionKind {
    Reserved,
    LoaderCode,
    LoaderData,
    BootServicesCode,
    BootServicesData,
    RuntimeServicesCode,
    RuntimeServicesData,
    Conventional,
    Unusable,
    AcpiReclaim,
    AcpiNonVolatile,
    Mmio,
    MmioPortSpace,
    PalCode,
    PersistentMemory,
    Unaccepted,
    Unknown,
}

/// Why a range of memory is taken.
#[derive(Debug, Clone, Copy, PartialEq, Eq, Structural)]
pub enum ReservedMemoryKind {
    LowMemory,
    LoaderImage,
    FrameBuffer,
    MemoryMap,
    KernelImageLoad,
    RuntimeHeap,
    KernelHeap,
    DescriptorTables,
    Unknown,
}

/// Whether the kernel may take a region over once the firmware has let go of the machine.
pub open spec fn reclaimable(kind: MemoryRegionKind) -> bool {
    match kind {
        MemoryRegionKind::Conventional => true,
        MemoryRegionKind::LoaderCode => true,
        MemoryRegionKind::LoaderData => true,
        MemoryRegionKind::BootServicesCode => true,
        MemoryRegionKind::BootServicesData => true,
        MemoryRegionKind::AcpiReclaim => true,
        _ => false,
    }
}

/// Whether a region may be used in this mode.
pub open spec fn usable_in(mode: FirmwareMode, kind: MemoryRegionKind) -> bool {
    match mode {
        FirmwareMode::UefiBootServices => kind == MemoryRegionKind::Conventional || kind
            == MemoryRegionKind::LoaderCode || kind == MemoryRegionKind::LoaderData,
        FirmwareMode::PostExitBootServices => reclaimable(kind),
    }
}

/// What may be used while the firmware still runs may be used afterwards.
pub proof fn usable_memory_stays_usable(kind: MemoryRegionKind)
    ensures
        usable_in(FirmwareMode::UefiBootServices, kind) ==> usable_in(
            FirmwareMode::PostExitBootServices,
            kind,
        ),
{
}

impl FirmwareMode {
    pub fn as_str(self) -> (name: &'static str)
        ensures
            name@ == match self {
                FirmwareMode::UefiBootServices => "uefi-boot-services"@,
                FirmwareMode::PostExitBootServices => "post-exit-boot-services"@,
            },
    {
        match self {
            FirmwareMode::UefiBootServices => "uefi-boot-services",
            FirmwareMode::PostExitBootServices => "post-exit-boot-services",
        }
    }

    /// Whether a region may be used in this mode.
    pub fn region_is_currently_usable(self, kind: MemoryRegionKind) -> (usable: bool)
        ensures
            usable == usable_in(self, kind),
    {
        match self {
            FirmwareMode::UefiBootServices => matches!(
                kind,
                MemoryRegionKind::Conventional
                    | MemoryRegionKind::LoaderCode
                    | MemoryRegionKind::LoaderData
            ),
            FirmwareMode::PostExitBootServices => kind.is_reclaimable_by_kernel(),
        }
    }
}

impl MemoryRegionKind {
    /// Whether the kernel may take the region over once the firmware has let go of the machine.
    pub fn is_reclaimable_by_kernel(self) -> (result: bool)
        ensures
            result == reclaimable(self),
    {
        matches!(
            self,
            MemoryRegionKind::Conventional
                | MemoryRegionKind::LoaderCode
                | MemoryRegionKind::LoaderData
                | MemoryRegionKind::BootServicesCode
                | MemoryRegionKind::BootServicesData
                | MemoryRegionKind::AcpiReclaim
        )
    }

    pub fn as_str(self) -> (name: &'static str)
        ensures
            name@ == match self {
                MemoryRegionKind::Reserved => "reserved"@,
                MemoryRegionKind::LoaderCode => "loader-code"@,
                MemoryRegionKind::LoaderData => "loader-data"@,
                MemoryRegionKind::BootServicesCode => "boot-code"@,
                MemoryRegionKind::BootServicesData => "boot-data"@,
                MemoryRegionKind::RuntimeServicesCode => "runtime-code"@,
                MemoryRegionKind::RuntimeServicesData => "runtime-data"@,
                MemoryRegionKind::Conventional => "conventional"@,
                MemoryRegionKind::Unusable => "unusable"@,
                MemoryRegionKind::AcpiReclaim => "acpi-reclaim"@,
                MemoryRegionKind::AcpiNonVolatile => "acpi-nvs"@,
                MemoryRegionKind::Mmio => "mmio"@,
                MemoryRegionKind::MmioPortSpace => "mmio-port"@,
                MemoryRegionKind::PalCode => "pal"@,
                MemoryRegionKind::PersistentMemory => "persistent"@,
                MemoryRegionKind::Unaccepted => "unaccepted"@,
                MemoryRegionKind::Unknown => "unknown"@,
            },
    {
        match self {
            MemoryRegionKind::Reserved => "reserved",
            MemoryRegionKind::LoaderCode => "loader-code",
            MemoryRegionKind::LoaderData => "loader-data",
            MemoryRegionKind::BootServicesCode => "boot-code",
            MemoryRegionKind::BootServicesData => "boot-data",
            MemoryRegionKind::RuntimeServicesCode => "runtime-code",
            MemoryRegionKind::RuntimeServicesData => "runtime-data",
            MemoryRegionKind::Conventional => "conventional",
            MemoryRegionKind::Unusable => "unusable",
            MemoryRegionKind::AcpiReclaim => "acpi-reclaim",
            MemoryRegionKind::AcpiNonVolatile => "acpi-nvs",
            MemoryRegionKind::Mmio => "mmio",
            MemoryRegionKind::MmioPortSpace => "mmio-port",
            MemoryRegionKind::PalCode => "pal",
            MemoryRegionKind::PersistentMemory => "persistent",
            MemoryRegionKind::Unaccepted => "unaccepted",
            MemoryRegionKind::Unknown => "unknown",
        }
    }
}

impl ReservedMemoryKind {
    pub fn as_str(self) -> (name: &'static str)
        ensures
            name@ == match self {
                ReservedMemoryKind::LowMemory => "low-memory"@,
                ReservedMemoryKind::LoaderImage => "loader-image"@,
                ReservedMemoryKind::FrameBuffer => "framebuffer"@,
                ReservedMemoryKind::MemoryMap => "memory-map"@,
                ReservedMemoryKind::KernelImageLoad => "kernel-image-load"@,
                ReservedMemoryKind::RuntimeHeap => "runtime-heap"@,
                ReservedMemoryKind::KernelHeap => "kernel-heap"@,
                ReservedMemoryKind::DescriptorTables => "descriptor-tables"@,
                ReservedMemoryKind::Unknown => "unknown"@,
            },
    {
        match self {
            ReservedMemoryKind::LowMemory => "low-memory",
            ReservedMemoryKind::LoaderImage => "loader-image",
            ReservedMemoryKind::FrameBuffer => "framebuffer",
            ReservedMemoryKind::MemoryMap => "memory-map",
            ReservedMemoryKind::KernelImageLoad => "kernel-image-load",
            ReservedMemoryKind::RuntimeHeap => "runtime-heap",
            ReservedMemoryKind::KernelHeap => "kernel-heap",
            ReservedMemoryKind::DescriptorTables => "descriptor-tables",
            ReservedMemoryKind::Unknown => "unknown",
        }
    }
}

/// Where the frame buffer is, and how its pixels are laid out.
#[derive(Debug, Clone, Copy, PartialEq, Eq, Structural)]
pub struct FrameBufferInfo {
    pub base: u64,
    pub size: usize,
    pub width: u32,
    pub height: u32,
    pub stride: usize,
    pub bytes_per_pixel: usize,
    pub pixel_format: PixelFormat,
}

/// A region of the memory map.
#[derive(Debug, Clone, Copy, PartialEq, Eq, Structural)]
pub struct MemoryRegion {
    pub start: u64,
    pub page_count: u64,
    pub kind: MemoryRegionKind,
    pub attributes: u64,
}

/// `n`, or the largest 64-bit number if that is less.
pub open spec fn capped(n: int) -> u64 {
    if n > u64::MAX {
        u64::MAX
    } else {
        n as u64
    }
}

/// How many bytes so many pages have.
pub fn page_bytes(page_count: u64) -> (bytes: u64)
    ensures
        bytes == capped(page_count * PAGE_SIZE),
{
    match page_count.checked_mul(PAGE_SIZE) {
        Some(bytes) => bytes,
        None => u64::MAX,
    }
}

impl MemoryRegion {
    /// A region of nothing.
    pub fn empty() -> (region: MemoryRegion)
        ensures
            region == (MemoryRegion {
                start: 0,
                page_count: 0,
                kind: MemoryRegionKind::Reserved,
                attributes: 0,
            }),
    {
        MemoryRegion { start: 0, page_count: 0, kind: MemoryRegionKind::Reserved, attributes: 0 }
    }

    /// How many bytes the region has.
    pub open spec fn bytes(self) -> u64 {
        capped(self.page_count * PAGE_SIZE)
    }

    pub fn size_bytes(self) -> (size: u64)
        ensures
            size == self.bytes(),
    {
        page_bytes(self.page_count)
    }

    pub fn end(self) -> (end: u64)
        ensures
            end == capped(self.start + self.bytes()),
    {
        self.start.saturating_add(self.size_bytes())
    }
}

/// A range of memory that is taken.
#[derive(Debug, Clone, Copy, PartialEq, Eq, Structural)]
pub struct ReservedMemoryRange {
    pub start: u64,
    pub length: u64,
    pub kind: ReservedMemoryKind,
}

impl ReservedMemoryRange {
    /// A range of nothing.
    pub fn empty() -> (range: ReservedMemoryRange)
        ensures
            range == (ReservedMemoryRange {
                start: 0,
                length: 0,
                kind: ReservedMemoryKind::Unknown,
            }),
    {
        ReservedMemoryRange { start: 0, length: 0, kind: ReservedMemoryKind::Unknown }
    }

    pub fn end(self) -> (end: u64)
        ensures
            end == capped(self.start + self.length),
    {
        self.start.saturating_add(self.length)
    }
}

/// A segment of the kernel's image.
#[derive(Debug, Clone, Copy, PartialEq, Eq, Structural)]
pub struct KernelImageSegment {
    pub virtual_address: u64,
    pub physical_address: u64,
    pub file_offset: u64,
    pub file_size: u64,
    pub memory_size: u64,
    pub flags: u32,
    pub load_address: u64,
    pub load_page_count: u64,
}

impl KernelImageSegment {
    /// A segment of nothing.
    pub fn empty() -> (segment: KernelImageSegment)
        ensures
            segment == (KernelImageSegment {
                virtual_address: 0,
                physical_address: 0,
                file_offset: 0,
                file_size: 0,
                memory_size: 0,
                flags: 0,
                load_address: 0,
                load_page_count: 0,
            }),
    {
        KernelImageSegment {
            virtual_address: 0,
            physical_address: 0,
            file_offset: 0,
            file_size: 0,
            memory_size: 0,
            flags: 0,
            load_address: 0,
            load_page_count: 0,
        }
    }
}

/// The kernel's image, and what of it was loaded.
#[derive(Debug, Clone, Copy)]
pub struct KernelImageInfo {
    pub image_size: u64,
    pub release_version: u64,
    pub boot_state_generation: u64,
    pub system_slot: u8,
    pub recovery_fallback: u8,
    pub signature_verified: u8,
    pub verification_key_id: [u8; 16],
    pub kernel_sha256: [u8; 32],
    pub entry_point: u64,
    pub loaded_entry_point: u64,
    pub load_base: u64,
    pub load_page_count: u64,
    pub program_header_count: usize,
    pub load_segment_count: usize,
    pub load_segment_total: usize,
    pub loaded_segment_count: usize,
    pub relocation_count: usize,
    pub segments: [KernelImageSegment; MAX_KERNEL_IMAGE_SEGMENTS],
}

/// The first `count` items of a table, or all of them if there are fewer.
pub open spec fn table<T>(items: Seq<T>, count: usize) -> Seq<T> {
    if count < items.len() {
        items.take(count as int)
    } else {
        items
    }
}

impl KernelImageInfo {
    /// No image.
    pub fn empty() -> (info: KernelImageInfo)
        ensures
            info.image_size == 0,
            info.release_version == 0,
            info.boot_state_generation == 0,
            info.system_slot == 0,
            info.recovery_fallback == 0,
            info.signature_verified == 0,
            zero_between(info.verification_key_id@, 0, 16),
            zero_between(info.kernel_sha256@, 0, 32),
            info.entry_point == 0,
            info.loaded_entry_point == 0,
            info.load_base == 0,
            info.load_page_count == 0,
            info.program_header_count == 0,
            info.load_segment_count == 0,
            info.load_segment_total == 0,
            info.loaded_segment_count == 0,
            info.relocation_count == 0,
            forall|i: int|
                0 <= i < MAX_KERNEL_IMAGE_SEGMENTS ==> #[trigger] info.segments@[i] == (
                KernelImageSegment {
                    virtual_address: 0,
                    physical_address: 0,
                    file_offset: 0,
                    file_size: 0,
                    memory_size: 0,
                    flags: 0,
                    load_address: 0,
                    load_page_count: 0,
                }),
    {
        KernelImageInfo {
            image_size: 0,
            release_version: 0,
            boot_state_generation: 0,
            system_slot: 0,
            recovery_fallback: 0,
            signature_verified: 0,
            verification_key_id: [0u8;16],
            kernel_sha256: [0u8;32],
            entry_point: 0,
            loaded_entry_point: 0,
            load_base: 0,
            load_page_count: 0,
            program_header_count: 0,
            load_segment_count: 0,
            load_segment_total: 0,
            loaded_segment_count: 0,
            relocation_count: 0,
            segments: [KernelImageSegment::empty();MAX_KERNEL_IMAGE_SEGMENTS],
        }
    }

    pub fn is_present(self) -> (present: bool)
        ensures
            present == (self.image_size != 0),
    {
        self.image_size != 0
    }

    pub fn is_loaded(self) -> (loaded: bool)
        ensures
            loaded == (self.loaded_segment_count != 0),
    {
        self.loaded_segment_count != 0
    }

    /// The segments that the image has.
    pub open spec fn listed(&self) -> Seq<KernelImageSegment> {
        table(self.segments@, self.load_segment_count)
    }

    /// The segments that the image has.
    pub fn segments(&self) -> (segments: &[KernelImageSegment])
        ensures
            segments@ == self.listed(),
    {
        if self.load_segment_count < MAX_KERNEL_IMAGE_SEGMENTS {
            slice_subrange(array_as_slice(&self.segments), 0, self.load_segment_count)
        } else {
            array_as_slice(&self.segments)
        }
    }
}

/// What the loader hands to the kernel.
#[derive(Debug, Clone, Copy)]
pub struct BootInfo {
    pub framebuffer: FrameBufferInfo,
    pub firmware_mode: FirmwareMode,
    pub runtime_hhdm_base: u64,
    pub memory_region_count: usize,
    pub memory_region_total: usize,
    pub memory_regions: [MemoryRegion; MAX_MEMORY_REGIONS],
    pub reserved_memory_count: usize,
    pub reserved_memory: [ReservedMemoryRange; MAX_RESERVED_MEMORY_RANGES],
    pub kernel_image: KernelImageInfo,
}

/// How many bytes the first `n` regions have together.
pub open spec fn region_bytes(regions: Seq<MemoryRegion>, n: nat) -> nat
    decreases n,
{
    if n == 0 {
        0
    } else {
        region_bytes(regions, (n - 1) as nat) + regions[n - 1].bytes() as nat
    }
}

/// How many bytes those of the first `n` regions have together that may be used.
pub open spec fn usable_bytes(mode: FirmwareMode, regions: Seq<MemoryRegion>, n: nat) -> nat
    decreases n,
{
    if n == 0 {
        0
    } else {
        usable_bytes(mode, regions, (n - 1) as nat) + if usable_in(mode, regions[n - 1].kind) {
            regions[n - 1].bytes() as nat
        } else {
            0
        }
    }
}

/// How many bytes the first `n` ranges have together.
pub open spec fn range_bytes(ranges: Seq<ReservedMemoryRange>, n: nat) -> nat
    decreases n,
{
    if n == 0 {
        0
    } else {
        range_bytes(ranges, (n - 1) as nat) + ranges[n - 1].length as nat
    }
}

/// The first range from `i` on that is taken for this reason.
pub open spec fn first_range(ranges: Seq<ReservedMemoryRange>, kind: ReservedMemoryKind, i: int) -> Option<
    ReservedMemoryRange,
>
    decreases ranges.len() - i,
{
    if i < 0 || i >= ranges.len() {
        None
    } else if ranges[i].kind == kind {
        Some(ranges[i])
    } else {
        first_range(ranges, kind, i + 1)
    }
}

impl BootInfo {
    /// The regions of the memory map.
    pub open spec fn regions(&self) -> Seq<MemoryRegion> {
        table(self.memory_regions@, self.memory_region_count)
    }

    /// The ranges that are taken.
    pub open spec fn ranges(&self) -> Seq<ReservedMemoryRange> {
        table(self.reserved_memory@, self.reserved_memory_count)
    }

    /// The regions of the memory map.
    pub fn memory_regions(&self) -> (regions: &[MemoryRegion])
        ensures
            regions@ == self.regions(),
            regions.len() <= MAX_MEMORY_REGIONS,
    {
        if self.memory_region_count < MAX_MEMORY_REGIONS {
            slice_subrange(array_as_slice(&self.memory_regions), 0, self.memory_region_count)
        } else {
            array_as_slice(&self.memory_regions)
        }
    }

    /// How much memory there is.
    pub fn total_memory_bytes(&self) -> (total: u64)
        ensures
            total == capped(region_bytes(self.regions(), self.regions().len()) as int),
    {
        let regions = self.memory_regions();
        let mut total: u64 = 0;
        let mut i: usize = 0;
        while i < regions.len()
            invariant
                i <= regions@.len(),
                total == capped(region_bytes(regions@, i as nat) as int),
            decreases regions.len() - i,
        {
            total = total.saturating_add(regions[i].size_bytes());
            i += 1;
        }
        total
    }

    /// The ranges that are taken.
    pub fn reserved_memory(&self) -> (ranges: &[ReservedMemoryRange])
        ensures
            ranges@ == self.ranges(),
            ranges.len() <= MAX_RESERVED_MEMORY_RANGES,
    {
        if self.reserved_memory_count < MAX_RESERVED_MEMORY_RANGES {
            slice_subrange(array_as_slice(&self.reserved_memory), 0, self.reserved_memory_count)
        } else {
            array_as_slice(&self.reserved_memory)
        }
    }

    /// The first range that is taken for this reason.
    pub fn reserved_range(&self, kind: ReservedMemoryKind) -> (range: Option<ReservedMemoryRange>)
        ensures
            range == first_range(self.ranges(), kind, 0),
    {
        let ranges = self.reserved_memory();
        let mut i: usize = 0;
        while i < ranges.len()
            invariant
                i <= ranges@.len(),
                ranges@ == self.ranges(),
                first_range(ranges@, kind, 0) == first_range(ranges@, kind, i as int),
            decreases ranges.len() - i,
        {
            if ranges[i].kind == kind {
                return Some(ranges[i]);
            }
            i += 1;
        }
        None
    }

    /// How much memory is taken.
    pub fn reserved_memory_bytes(&self) -> (total: u64)
        ensures
            total == capped(range_bytes(self.ranges(), self.ranges().len()) as int),
    {
        let ranges = self.reserved_memory();
        let mut total: u64 = 0;
        let mut i: usize = 0;
        while i < ranges.len()
            invariant
                i <= ranges@.len(),
                total == capped(range_bytes(ranges@, i as nat) as int),
            decreases ranges.len() - i,
        {
            total = total.saturating_add(ranges[i].length);
            i += 1;
        }
        total
    }

    /// How much memory may be used now.
    pub fn usable_memory_bytes(&self) -> (total: u64)
        ensures
            total == capped(
                usable_bytes(self.firmware_mode, self.regions(), self.regions().len()) as int,
            ),
    {
        let regions = self.memory_regions();
        let mut total: u64 = 0;
        let mut i: usize = 0;
        while i < regions.len()
            invariant
                i <= regions@.len(),
                total == capped(
                    usable_bytes(self.firmware_mode, regions@, i as nat) as int,
                ),
            decreases regions.len() - i,
        {
            if self.firmware_mode.region_is_currently_usable(regions[i].kind) {
                total = total.saturating_add(regions[i].size_bytes());
            }
            i += 1;
        }
        total
    }
}

/// Which memory may be handed out: with the firmware at work only what is free or the loader's own, and
/// once it has left also what was the firmware's.
pub proof fn usable_memory_is_free_memory(kind: MemoryRegionKind)
    ensures
        usable_in(FirmwareMode::UefiBootServices, kind) <==> kind == MemoryRegionKind::Conventional
            || kind == MemoryRegionKind::LoaderCode || kind == MemoryRegionKind::LoaderData,
        usable_in(FirmwareMode::PostExitBootServices, kind) <==> kind == MemoryRegionKind::Conventional
            || kind == MemoryRegionKind::LoaderCode || kind == MemoryRegionKind::LoaderData || kind
            == MemoryRegionKind::BootServicesCode || kind == MemoryRegionKind::BootServicesData || kind
            == MemoryRegionKind::AcpiReclaim,
{
}

/// Bytes are counted region by region, each with 4096 for a page; those that are usable are the bytes of
/// the usable regions alone.
pub proof fn bytes_are_counted_by_pages(mode: FirmwareMode, regions: Seq<MemoryRegion>)
    ensures
        forall|i: int|
            0 <= i < regions.len() && (#[trigger] regions[i]).page_count <= 0xf_ffff_ffff_ffff
                ==> regions[i].bytes() == regions[i].page_count * 4096,
        region_bytes(regions, regions.len()) == regions.fold_left(
            0nat,
            |sum: nat, region: MemoryRegion| sum + region.bytes() as nat,
        ),
        usable_bytes(mode, regions, regions.len()) == regions.fold_left(
            0nat,
            |sum: nat, region: MemoryRegion|
                if usable_in(mode, region.kind) {
                    sum + region.bytes() as nat
                } else {
                    sum
                },
        ),
    decreases regions.len(),
{
    let all = |sum: nat, region: MemoryRegion| sum + region.bytes() as nat;
    let usable = |sum: nat, region: MemoryRegion|
        if usable_in(mode, region.kind) {
            sum + region.bytes() as nat
        } else {
            sum
        };
    if regions.len() > 0 {
        let before = regions.drop_last();
        bytes_are_counted_by_pages(mode, before);
        lemma_same_bytes(mode, before, regions, before.len());
        assert(regions.fold_left(0nat, all) == all(before.fold_left(0nat, all), regions.last()));
        assert(regions.fold_left(0nat, usable) == usable(
            before.fold_left(0nat, usable),
            regions.last(),
        ));
    }
}

proof fn lemma_same_bytes(mode: FirmwareMode, a: Seq<MemoryRegion>, b: Seq<MemoryRegion>, n: nat)
    requires
        n <= a.len(),
        n <= b.len(),
        forall|i: int| 0 <= i < n ==> a[i] == b[i],
    ensures
        region_bytes(a, n) == region_bytes(b, n),
        usable_bytes(mode, a, n) == usable_bytes(mode, b, n),
    decreases n,
{
    if n > 0 {
        lemma_same_bytes(mode, a, b, (n - 1) as nat);
    }
}

/// The first range of a kind is of that kind, and no range before it is; where there is none, no range is.
pub proof fn the_first_range_of_a_kind_is_found(
    ranges: Seq<ReservedMemoryRange>,
    kind: ReservedMemoryKind,
    from: int,
)
    requires
        0 <= from <= ranges.len(),
    ensures
        match first_range(ranges, kind, from) {
            Some(range) => exists|i: int|
                from <= i < ranges.len() && #[trigger] ranges[i] == range && range.kind == kind
                    && forall|j: int| from <= j < i ==> (#[trigger] ranges[j]).kind != kind,
            None => forall|j: int| from <= j < ranges.len() ==> (#[trigger] ranges[j]).kind != kind,
        },
    decreases ranges.len() - from,
{
    if from < ranges.len() {
        if ranges[from].kind == kind {
            assert(ranges[from] == first_range(ranges, kind, from).unwrap());
        } else {
            the_first_range_of_a_kind_is_found(ranges, kind, from + 1);
            if first_range(ranges, kind, from + 1) is Some {
                let range = first_range(ranges, kind, from + 1).unwrap();
                let i = choose|i: int|
                    from + 1 <= i < ranges.len() && #[trigger] ranges[i] == range && range.kind == kind
                        && forall|j: int| from + 1 <= j < i ==> (#[trigger] ranges[j]).kind != kind;
                assert(ranges[i] == range);
            }
        }
    }
}

proof fn lemma_same_range_bytes(a: Seq<ReservedMemoryRange>, b: Seq<ReservedMemoryRange>, n: nat)
    requires
        n <= a.len(),
        n <= b.len(),
        forall|i: int| 0 <= i < n ==> #[trigger] a[i] == b[i],
    ensures
        range_bytes(a, n) == range_bytes(b, n),
    decreases n,
{
    if n > 0 {
        lemma_same_range_bytes(a, b, (n - 1) as nat);
        assert(a[n - 1] == b[n - 1]);
    }
}

/// Every range counts with its length: one more range is so many bytes more.
pub proof fn every_range_counts_with_its_length(
    ranges: Seq<ReservedMemoryRange>,
    range: ReservedMemoryRange,
)
    ensures
        range_bytes(Seq::<ReservedMemoryRange>::empty(), 0) == 0,
        range_bytes(ranges.push(range), ranges.len() + 1) == range_bytes(ranges, ranges.len())
            + range.length,
{
    let longer = ranges.push(range);
    lemma_same_range_bytes(longer, ranges, ranges.len());
    assert(longer[ranges.len() as int] == range);
}

} // verus!
