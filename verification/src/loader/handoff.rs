//! What the loader tells the kernel of the machine, and the input of the loader's own desktop.

use vstd::prelude::*;
use crate::bootinfo::{
    page_bytes, BootInfo, FirmwareMode, FrameBufferInfo, KernelImageInfo, MemoryRegion,
    MemoryRegionKind, PixelFormat, ReservedMemoryKind, ReservedMemoryRange, MAX_MEMORY_REGIONS,
    MAX_RESERVED_MEMORY_RANGES, PAGE_SIZE,
};
use crate::input::DesktopInput;
use crate::loader::image::LOW_MEMORY_RESERVE_BYTES;
use crate::memory::{align_down, page_floor};

verus! {

/// Where physical memory appears in the upper half of the address space.
pub const RUNTIME_HHDM_BASE: u64 = 0xffff_8000_0000_0000;

pub const RUNTIME_HEAP_BYTES: usize = 67108864;

pub const KERNEL_HEAP_BYTES: usize = 67108864;

/// How many pages a heap of so many bytes takes, and how many bytes they have.
pub fn heap_pages(bytes: usize) -> (pages: Option<(usize, usize)>)
    ensures
        ({
            let count = (bytes + PAGE_SIZE - 1) / PAGE_SIZE as int;
            pages == if count * PAGE_SIZE <= usize::MAX {
                Some((count as usize, (count * PAGE_SIZE) as usize))
            } else {
                None
            }
        }),
{
    let page_size: usize = PAGE_SIZE as usize;
    let mut count: usize = bytes / page_size;
    if bytes % page_size != 0 {
        count += 1;
    }
    assert(count == (bytes + PAGE_SIZE - 1) / PAGE_SIZE as int);
    match count.checked_mul(page_size) {
        Some(capacity) => Some((count, capacity)),
        None => None,
    }
}

/// A format of pixels, by its number in the firmware's mode.
pub fn map_pixel_format(format: u32) -> (mapped: PixelFormat)
    ensures
        mapped == if format == 0 {
            PixelFormat::Rgb
        } else if format == 1 {
            PixelFormat::Bgr
        } else {
            PixelFormat::Unknown
        },
{
    if format == 0 {
        PixelFormat::Rgb
    } else if format == 1 {
        PixelFormat::Bgr
    } else {
        PixelFormat::Unknown
    }
}

/// What the kernel is told before anything is known of the memory.
pub fn new_boot_info(
    framebuffer: FrameBufferInfo,
    firmware_mode: FirmwareMode,
    kernel_image: KernelImageInfo,
) -> (info: BootInfo)
    ensures
        info.framebuffer == framebuffer,
        info.firmware_mode == firmware_mode,
        info.runtime_hhdm_base == RUNTIME_HHDM_BASE,
        info.memory_region_count == 0,
        info.memory_region_total == 0,
        info.reserved_memory_count == 0,
        info.kernel_image == kernel_image,
        forall|i: int|
            0 <= i < MAX_MEMORY_REGIONS ==> #[trigger] info.memory_regions@[i] == (MemoryRegion {
                start: 0,
                page_count: 0,
                kind: MemoryRegionKind::Reserved,
                attributes: 0,
            }),
        forall|i: int|
            0 <= i < MAX_RESERVED_MEMORY_RANGES ==> #[trigger] info.reserved_memory@[i] == (
            ReservedMemoryRange { start: 0, length: 0, kind: ReservedMemoryKind::Unknown }),
{
    BootInfo {
        framebuffer,
        firmware_mode,
        runtime_hhdm_base: RUNTIME_HHDM_BASE,
        memory_region_count: 0,
        memory_region_total: 0,
        memory_regions: [MemoryRegion::empty();MAX_MEMORY_REGIONS],
        reserved_memory_count: 0,
        reserved_memory: [ReservedMemoryRange::empty();MAX_RESERVED_MEMORY_RANGES],
        kernel_image,
    }
}

/// The kind of memory, by its number in the firmware's memory map.
pub open spec fn kind_of(memory_type: u32) -> MemoryRegionKind {
    if memory_type == 0 {
        MemoryRegionKind::Reserved
    } else if memory_type == 1 {
        MemoryRegionKind::LoaderCode
    } else if memory_type == 2 {
        MemoryRegionKind::LoaderData
    } else if memory_type == 3 {
        MemoryRegionKind::BootServicesCode
    } else if memory_type == 4 {
        MemoryRegionKind::BootServicesData
    } else if memory_type == 5 {
        MemoryRegionKind::RuntimeServicesCode
    } else if memory_type == 6 {
        MemoryRegionKind::RuntimeServicesData
    } else if memory_type == 7 {
        MemoryRegionKind::Conventional
    } else if memory_type == 8 {
        MemoryRegionKind::Unusable
    } else if memory_type == 9 {
        MemoryRegionKind::AcpiReclaim
    } else if memory_type == 10 {
        MemoryRegionKind::AcpiNonVolatile
    } else if memory_type == 11 {
        MemoryRegionKind::Mmio
    } else if memory_type == 12 {
        MemoryRegionKind::MmioPortSpace
    } else if memory_type == 13 {
        MemoryRegionKind::PalCode
    } else if memory_type == 14 {
        MemoryRegionKind::PersistentMemory
    } else if memory_type == 15 {
        MemoryRegionKind::Unaccepted
    } else {
        MemoryRegionKind::Unknown
    }
}

/// The kind of memory, by its number in the firmware's memory map.
pub fn map_memory_type(memory_type: u32) -> (kind: MemoryRegionKind)
    ensures
        kind == kind_of(memory_type),
{
    match memory_type {
        0 => MemoryRegionKind::Reserved,
        1 => MemoryRegionKind::LoaderCode,
        2 => MemoryRegionKind::LoaderData,
        3 => MemoryRegionKind::BootServicesCode,
        4 => MemoryRegionKind::BootServicesData,
        5 => MemoryRegionKind::RuntimeServicesCode,
        6 => MemoryRegionKind::RuntimeServicesData,
        7 => MemoryRegionKind::Conventional,
        8 => MemoryRegionKind::Unusable,
        9 => MemoryRegionKind::AcpiReclaim,
        10 => MemoryRegionKind::AcpiNonVolatile,
        11 => MemoryRegionKind::Mmio,
        12 => MemoryRegionKind::MmioPortSpace,
        13 => MemoryRegionKind::PalCode,
        14 => MemoryRegionKind::PersistentMemory,
        15 => MemoryRegionKind::Unaccepted,
        _ => MemoryRegionKind::Unknown,
    }
}

/// An entry of the firmware's memory map.
#[derive(Debug, Clone, Copy, PartialEq, Eq, Structural)]
pub struct MemoryDescriptor {
    pub memory_type: u32,
    pub physical_start: u64,
    pub page_count: u64,
    pub attributes: u64,
}

/// The region that an entry of the memory map speaks of.
pub open spec fn region_of(descriptor: MemoryDescriptor) -> MemoryRegion {
    MemoryRegion {
        start: descriptor.physical_start,
        page_count: descriptor.page_count,
        kind: kind_of(descriptor.memory_type),
        attributes: descriptor.attributes,
    }
}

/// The regions that are listed when the entries of a memory map come after those that are there.
pub open spec fn listed_regions(before: Seq<MemoryRegion>, map: Seq<MemoryDescriptor>) -> Seq<
    MemoryRegion,
> {
    let all = before + map.map_values(|d: MemoryDescriptor| region_of(d));
    if all.len() <= MAX_MEMORY_REGIONS {
        all
    } else {
        all.take(MAX_MEMORY_REGIONS as int)
    }
}

/// Lists the entries of the memory map, as far as there is room, and counts all of them.
pub fn collect_memory_regions(boot_info: &mut BootInfo, map: &[MemoryDescriptor])
    requires
        old(boot_info).memory_region_count <= MAX_MEMORY_REGIONS,
        old(boot_info).memory_region_total + map@.len() <= usize::MAX,
    ensures
        final(boot_info).memory_region_total == old(boot_info).memory_region_total + map@.len(),
        final(boot_info).regions() == listed_regions(old(boot_info).regions(), map@),
        final(boot_info).memory_region_count == listed_regions(
            old(boot_info).regions(),
            map@,
        ).len(),
        *final(boot_info) == (BootInfo {
            memory_region_count: final(boot_info).memory_region_count,
            memory_region_total: final(boot_info).memory_region_total,
            memory_regions: final(boot_info).memory_regions,
            ..*old(boot_info)
        }),
{
    let ghost before = *boot_info;
    let mut i: usize = 0;
    assert(map@.take(0) =~= Seq::empty());
    assert(boot_info.regions() =~= listed_regions(before.regions(), map@.take(0)));
    while i < map.len()
        invariant
            i <= map@.len(),
            before.memory_region_count <= MAX_MEMORY_REGIONS,
            before.memory_region_total + map@.len() <= usize::MAX,
            boot_info.memory_region_total == before.memory_region_total + i,
            boot_info.memory_region_count <= MAX_MEMORY_REGIONS,
            boot_info.memory_region_count == listed_regions(
                before.regions(),
                map@.take(i as int),
            ).len(),
            boot_info.regions() == listed_regions(before.regions(), map@.take(i as int)),
            *boot_info == (BootInfo {
                memory_region_count: boot_info.memory_region_count,
                memory_region_total: boot_info.memory_region_total,
                memory_regions: boot_info.memory_regions,
                ..before
            }),
        decreases map.len() - i,
    {
        let descriptor = map[i];
        let ghost last = boot_info.regions();
        boot_info.memory_region_total = boot_info.memory_region_total + 1;
        if boot_info.memory_region_count < MAX_MEMORY_REGIONS {
            let at: usize = boot_info.memory_region_count;
            boot_info.memory_regions[at] = MemoryRegion {
                start: descriptor.physical_start,
                page_count: descriptor.page_count,
                kind: map_memory_type(descriptor.memory_type),
                attributes: descriptor.attributes,
            };
            boot_info.memory_region_count = at + 1;
            assert(boot_info.regions() =~= last.push(region_of(descriptor)));
        }
        i += 1;
        proof {
            let taken = map@.take(i as int);
            assert(taken =~= map@.take(i - 1).push(descriptor));
            assert(boot_info.regions() =~= listed_regions(before.regions(), taken));
        }
    }
    assert(map@.take(i as int) =~= map@);
}

/// The ranges that are listed when one more is: none without bytes, and none that there is no room
/// for.
pub open spec fn with_range(
    ranges: Seq<ReservedMemoryRange>,
    start: u64,
    length: u64,
    kind: ReservedMemoryKind,
) -> Seq<ReservedMemoryRange> {
    if length == 0 || ranges.len() >= MAX_RESERVED_MEMORY_RANGES {
        ranges
    } else {
        ranges.push(ReservedMemoryRange { start, length, kind })
    }
}

/// Whether only the list of reserved ranges differs.
pub open spec fn same_but_ranges(a: BootInfo, b: BootInfo) -> bool {
    a == (BootInfo {
        reserved_memory_count: a.reserved_memory_count,
        reserved_memory: a.reserved_memory,
        ..b
    })
}

/// Lists a reserved range.
pub fn push_reserved_range(
    boot_info: &mut BootInfo,
    start: u64,
    length: u64,
    kind: ReservedMemoryKind,
)
    requires
        old(boot_info).reserved_memory_count <= MAX_RESERVED_MEMORY_RANGES,
    ensures
        final(boot_info).reserved_memory_count <= MAX_RESERVED_MEMORY_RANGES,
        final(boot_info).ranges() == with_range(old(boot_info).ranges(), start, length, kind),
        same_but_ranges(*final(boot_info), *old(boot_info)),
{
    if length == 0 || boot_info.reserved_memory_count >= MAX_RESERVED_MEMORY_RANGES {
        return;
    }
    let ghost before = boot_info.ranges();
    let at: usize = boot_info.reserved_memory_count;
    boot_info.reserved_memory[at] = ReservedMemoryRange { start, length, kind };
    boot_info.reserved_memory_count = at + 1;
    assert(boot_info.ranges() =~= before.push(ReservedMemoryRange { start, length, kind }));
}

/// The ranges that are listed when one more is, if it is there.
pub open spec fn with_optional_range(
    ranges: Seq<ReservedMemoryRange>,
    range: Option<(u64, u64)>,
    kind: ReservedMemoryKind,
) -> Seq<ReservedMemoryRange> {
    match range {
        Some(range) => with_range(ranges, range.0, range.1, kind),
        None => ranges,
    }
}

/// The ranges that the kernel must leave alone.
pub open spec fn reserved_ranges(
    info: BootInfo,
    loader_image: Option<(u64, u64)>,
    runtime_heap: Option<(u64, u64)>,
    kernel_heap: Option<(u64, u64)>,
    memory_map: Option<(u64, u64)>,
) -> Seq<ReservedMemoryRange> {
    let low = with_range(
        info.ranges(),
        0,
        LOW_MEMORY_RESERVE_BYTES,
        ReservedMemoryKind::LowMemory,
    );
    let image = with_optional_range(low, loader_image, ReservedMemoryKind::LoaderImage);
    let heap = with_optional_range(image, runtime_heap, ReservedMemoryKind::RuntimeHeap);
    let other = with_optional_range(heap, kernel_heap, ReservedMemoryKind::KernelHeap);
    let screen = with_range(
        other,
        info.framebuffer.base,
        info.framebuffer.size as u64,
        ReservedMemoryKind::FrameBuffer,
    );
    let map = with_optional_range(screen, memory_map, ReservedMemoryKind::MemoryMap);
    if info.kernel_image.load_page_count != 0 {
        with_range(
            map,
            page_floor(info.kernel_image.load_base as int) as u64,
            crate::bootinfo::capped(info.kernel_image.load_page_count * PAGE_SIZE),
            ReservedMemoryKind::KernelImageLoad,
        )
    } else {
        map
    }
}

fn push_optional_range(
    boot_info: &mut BootInfo,
    range: Option<(u64, u64)>,
    kind: ReservedMemoryKind,
)
    requires
        old(boot_info).reserved_memory_count <= MAX_RESERVED_MEMORY_RANGES,
    ensures
        final(boot_info).reserved_memory_count <= MAX_RESERVED_MEMORY_RANGES,
        final(boot_info).ranges() == with_optional_range(old(boot_info).ranges(), range, kind),
        same_but_ranges(*final(boot_info), *old(boot_info)),
{
    if let Some((start, length)) = range {
        push_reserved_range(boot_info, start, length, kind);
    }
}

/// Lists the ranges that the kernel must leave alone.
pub fn collect_reserved_ranges(
    boot_info: &mut BootInfo,
    loader_image: Option<(u64, u64)>,
    runtime_heap: Option<(u64, u64)>,
    kernel_heap: Option<(u64, u64)>,
    memory_map: Option<(u64, u64)>,
)
    requires
        old(boot_info).reserved_memory_count <= MAX_RESERVED_MEMORY_RANGES,
    ensures
        final(boot_info).reserved_memory_count <= MAX_RESERVED_MEMORY_RANGES,
        final(boot_info).ranges() == reserved_ranges(
            *old(boot_info),
            loader_image,
            runtime_heap,
            kernel_heap,
            memory_map,
        ),
        same_but_ranges(*final(boot_info), *old(boot_info)),
{
    push_reserved_range(
        boot_info,
        0,
        LOW_MEMORY_RESERVE_BYTES,
        ReservedMemoryKind::LowMemory,
    );
    push_optional_range(boot_info, loader_image, ReservedMemoryKind::LoaderImage);
    push_optional_range(boot_info, runtime_heap, ReservedMemoryKind::RuntimeHeap);
    push_optional_range(boot_info, kernel_heap, ReservedMemoryKind::KernelHeap);
    let base: u64 = boot_info.framebuffer.base;
    let size: u64 = boot_info.framebuffer.size as u64;
    push_reserved_range(boot_info, base, size, ReservedMemoryKind::FrameBuffer);
    push_optional_range(boot_info, memory_map, ReservedMemoryKind::MemoryMap);
    if boot_info.kernel_image.load_page_count != 0 {
        let start: u64 = align_down(boot_info.kernel_image.load_base);
        let length: u64 = page_bytes(boot_info.kernel_image.load_page_count);
        push_reserved_range(boot_info, start, length, ReservedMemoryKind::KernelImageLoad);
    }
}

/// A key of the firmware's console.
#[derive(Debug, Clone, Copy, PartialEq, Eq, Structural)]
pub enum ConsoleKey {
    /// A key without a character, by its scan code.
    Special(u16),
    /// A key with a character, by its number in UCS-2.
    Printable(u16),
}

/// What the number of a character in UCS-2 does.
pub open spec fn printable_input(value: u16) -> Option<DesktopInput> {
    if value == 8 {
        Some(DesktopInput::Backspace)
    } else if value == 9 {
        Some(DesktopInput::CycleFocus)
    } else if value == 13 {
        Some(DesktopInput::Submit)
    } else if 0xd800 <= value <= 0xdfff {
        None
    } else {
        Some(DesktopInput::Character(value as char))
    }
}

/// `char::from_u32`: every number is that of a character, except those of surrogates and those above
/// the last character.
#[verifier::external_body]
fn character(value: u32) -> (found: Option<char>)
    ensures
        found == if value <= 0xd7ff || 0xe000 <= value <= 0x10ffff {
            Some(value as char)
        } else {
            None
        },
{
    char::from_u32(value)
}

/// What the number of a character in UCS-2 does.
pub fn translate_printable(value: u16) -> (input: Option<DesktopInput>)
    ensures
        input == printable_input(value),
{
    match value {
        8 => Some(DesktopInput::Backspace),
        9 => Some(DesktopInput::CycleFocus),
        13 => Some(DesktopInput::Submit),
        _ => match character(value as u32) {
            Some(found) => Some(DesktopInput::Character(found)),
            None => None,
        },
    }
}

/// What a key does.
pub fn translate_key(key: ConsoleKey) -> (input: Option<DesktopInput>)
    ensures
        input == match key {
            ConsoleKey::Special(code) => if code == 1 {
                Some(DesktopInput::MoveUp)
            } else if code == 2 {
                Some(DesktopInput::MoveDown)
            } else if code == 3 {
                Some(DesktopInput::MoveRight)
            } else if code == 4 {
                Some(DesktopInput::MoveLeft)
            } else if code == 0x17 {
                Some(DesktopInput::Exit)
            } else {
                None
            },
            ConsoleKey::Printable(value) => printable_input(value),
        },
{
    match key {
        ConsoleKey::Special(1) => Some(DesktopInput::MoveUp),
        ConsoleKey::Special(2) => Some(DesktopInput::MoveDown),
        ConsoleKey::Special(3) => Some(DesktopInput::MoveRight),
        ConsoleKey::Special(4) => Some(DesktopInput::MoveLeft),
        ConsoleKey::Special(0x17) => Some(DesktopInput::Exit),
        ConsoleKey::Special(_) => None,
        ConsoleKey::Printable(value) => translate_printable(value),
    }
}

/// A movement of the pointer in steps of the screen: at least one step and at most so many.
pub open spec fn scaled(delta: int) -> int {
    let size = if delta < 0 {
        -delta
    } else {
        delta
    } / 250;
    let steps = if size < 1 {
        1int
    } else if size > 24 {
        24
    } else {
        size
    };
    if delta == 0 {
        0
    } else if delta < 0 {
        -steps
    } else {
        steps
    }
}

/// A movement of the pointer in steps of the screen.
pub fn scale_pointer_delta(delta: i32) -> (steps: i32)
    requires
        delta != i32::MIN,
    ensures
        steps == scaled(delta as int),
{
    if delta == 0 {
        return 0;
    }
    let size: i32 = if delta < 0 {
        -delta
    } else {
        delta
    } / 250;
    let magnitude: i32 = if size < 1 {
        1
    } else if size > 24 {
        24
    } else {
        size
    };
    if delta < 0 {
        -magnitude
    } else {
        magnitude
    }
}

/// How many milliseconds the desktop rests.
pub fn idle_delay_ms(had_input: bool, rendered: bool) -> (delay: u64)
    ensures
        delay == if had_input {
            1int
        } else if rendered {
            4
        } else {
            8
        },
{
    if had_input {
        1
    } else if rendered {
        4
    } else {
        8
    }
}

} // verus!
