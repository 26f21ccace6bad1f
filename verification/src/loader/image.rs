//! The kernel's file, and its staging in memory.

use vstd::prelude::*;
use vstd::slice::slice_subrange;
use crate::bootinfo::{
    capped, KernelImageInfo, KernelImageSegment, KERNEL_SEGMENT_FLAG_EXECUTE,
    KERNEL_SEGMENT_FLAG_READ, KERNEL_SEGMENT_FLAG_WRITE, MAX_KERNEL_IMAGE_SEGMENTS, PAGE_SIZE,
};
use crate::bytes::{copy_into, le16_bytes, le32_bytes, le64_bytes, push_le_u64, splice, zero_between};
use crate::elf::{
    has_program, header_in, program_at, program_start, programs_in_reach, read_header,
    read_program, read_relocations, read_section, refused_section, relocations_of, section_present,
    sections_in_reach, sections_in_reach_from, ElfHeader, ProgramHeader, Relocation, Section,
};
use crate::memory::{align_down, align_up, page_ceiling, page_floor};

verus! {

/// The kind of a relocation by the place that the image is at.
pub const R_X86_64_RELATIVE: u32 = 8;

/// The flags of a segment, by the flags of its program header.
pub open spec fn segment_flags(flags: u32) -> u32 {
    ((if flags & 4 == 4 {
        KERNEL_SEGMENT_FLAG_READ as int
    } else {
        0
    }) + (if flags & 2 == 2 {
        KERNEL_SEGMENT_FLAG_WRITE as int
    } else {
        0
    }) + (if flags & 1 == 1 {
        KERNEL_SEGMENT_FLAG_EXECUTE as int
    } else {
        0
    })) as u32
}

/// The flags of a segment, by the flags of its program header.
pub fn encode_segment_flags(flags: u32) -> (encoded: u32)
    ensures
        encoded == segment_flags(flags),
{
    let mut encoded: u32 = 0;
    if flags & 4 == 4 {
        encoded += KERNEL_SEGMENT_FLAG_READ;
    }
    if flags & 2 == 2 {
        encoded += KERNEL_SEGMENT_FLAG_WRITE;
    }
    if flags & 1 == 1 {
        encoded += KERNEL_SEGMENT_FLAG_EXECUTE;
    }
    encoded
}

/// The segment that a program header speaks of.
pub open spec fn segment_of(program: ProgramHeader) -> KernelImageSegment {
    KernelImageSegment {
        virtual_address: program.virtual_addr,
        physical_address: program.physical_addr,
        file_offset: program.offset,
        file_size: program.file_size,
        memory_size: program.mem_size,
        flags: segment_flags(program.flags),
        load_address: 0,
        load_page_count: 0,
    }
}

/// How many program headers can be read from a file.
pub open spec fn program_count(header: ElfHeader) -> int {
    if header.ph_offset > 0 && header.ph_entry_size > 0 {
        header.ph_count as int
    } else {
        0
    }
}

/// The segments that the first `n` program headers ask to load.
pub open spec fn load_segments(bytes: Seq<u8>, header: ElfHeader, n: nat) -> Seq<KernelImageSegment>
    decreases n,
{
    if n == 0 {
        Seq::empty()
    } else {
        let before = load_segments(bytes, header, (n - 1) as nat);
        let program = program_at(bytes, header.wide, program_start(header, (n - 1) as u16));
        if program.loads {
            before.push(segment_of(program))
        } else {
            before
        }
    }
}

/// What `info` says of a file that was read and not staged.
pub open spec fn describes(info: KernelImageInfo, bytes: Seq<u8>, header: ElfHeader) -> bool {
    let all = load_segments(bytes, header, program_count(header) as nat);
    &&& info.image_size == bytes.len()
    &&& info.release_version == 0
    &&& info.boot_state_generation == 0
    &&& info.system_slot == 0
    &&& info.recovery_fallback == 0
    &&& info.signature_verified == 0
    &&& zero_between(info.verification_key_id@, 0, 16)
    &&& zero_between(info.kernel_sha256@, 0, 32)
    &&& info.entry_point == header.entry_point
    &&& info.loaded_entry_point == 0
    &&& info.load_base == 0
    &&& info.load_page_count == 0
    &&& info.program_header_count == header.ph_count
    &&& info.load_segment_total == all.len()
    &&& info.load_segment_count == if all.len() < MAX_KERNEL_IMAGE_SEGMENTS {
        all.len() as int
    } else {
        MAX_KERNEL_IMAGE_SEGMENTS as int
    }
    &&& info.loaded_segment_count == 0
    &&& info.relocation_count == 0
    &&& forall|i: int|
        0 <= i < MAX_KERNEL_IMAGE_SEGMENTS ==> #[trigger] info.segments@[i] == if i < all.len() {
            all[i]
        } else {
            KernelImageSegment {
                virtual_address: 0,
                physical_address: 0,
                file_offset: 0,
                file_size: 0,
                memory_size: 0,
                flags: 0,
                load_address: 0,
                load_page_count: 0,
            }
        }
}

/// Reads a kernel's file.
pub fn parse_kernel_image(bytes: &[u8]) -> (info: Option<KernelImageInfo>)
    requires
        programs_in_reach(bytes@),
    ensures
        match header_in(bytes@) {
            Some(header) => info is Some && describes(info.unwrap(), bytes@, header),
            None => info is None,
        },
{
    let header = match read_header(bytes) {
        Some(header) => header,
        None => return None,
    };
    let mut info = KernelImageInfo::empty();
    info.image_size = bytes.len() as u64;
    info.entry_point = header.entry_point;
    info.program_header_count = header.ph_count as usize;
    let count: u16 = if header.ph_offset > 0 && header.ph_entry_size > 0 {
        header.ph_count
    } else {
        0
    };
    let mut index: u16 = 0;
    let ghost first = info;
    while index < count
        invariant
            programs_in_reach(bytes@),
            header_in(bytes@) == Some(header),
            count == program_count(header),
            index <= count,
            ({
                let all = load_segments(bytes@, header, index as nat);
                &&& all.len() <= index
                &&& info.load_segment_total == all.len()
                &&& info.load_segment_count == if all.len() < MAX_KERNEL_IMAGE_SEGMENTS {
                    all.len() as int
                } else {
                    MAX_KERNEL_IMAGE_SEGMENTS as int
                }
                &&& forall|i: int|
                    0 <= i < MAX_KERNEL_IMAGE_SEGMENTS ==> #[trigger] info.segments@[i] == if i
                        < all.len() {
                        all[i]
                    } else {
                        first.segments@[i]
                    }
            }),
            info == (KernelImageInfo {
                load_segment_total: info.load_segment_total,
                load_segment_count: info.load_segment_count,
                segments: info.segments,
                ..first
            }),
        decreases count - index,
    {
        proof {
            assert(has_program(header_in(bytes@).unwrap(), index));
        }
        if let Some(program) = read_program(bytes, index) {
            if program.loads {
                let segment = KernelImageSegment {
                    virtual_address: program.virtual_addr,
                    physical_address: program.physical_addr,
                    file_offset: program.offset,
                    file_size: program.file_size,
                    memory_size: program.mem_size,
                    flags: encode_segment_flags(program.flags),
                    load_address: 0,
                    load_page_count: 0,
                };
                if info.load_segment_count < MAX_KERNEL_IMAGE_SEGMENTS {
                    let at: usize = info.load_segment_count;
                    info.segments[at] = segment;
                    info.load_segment_count = at + 1;
                }
                info.load_segment_total = info.load_segment_total + 1;
            }
        }
        index += 1;
    }
    Some(info)
}

/// The lowest page that the first `n` segments take.
pub open spec fn lowest_page(segments: Seq<KernelImageSegment>, n: nat) -> u64
    decreases n,
{
    if n == 0 {
        u64::MAX
    } else {
        let before = lowest_page(segments, (n - 1) as nat);
        let page = page_floor(segments[n - 1].virtual_address as int);
        if segments[n - 1].memory_size != 0 && page < before {
            page as u64
        } else {
            before
        }
    }
}

/// Where the pages that the first `n` segments take end.
pub open spec fn highest_end(segments: Seq<KernelImageSegment>, n: nat) -> u64
    decreases n,
{
    if n == 0 {
        0
    } else {
        let before = highest_end(segments, (n - 1) as nat);
        let end = page_ceiling(
            capped(segments[n - 1].virtual_address + segments[n - 1].memory_size) as int,
        );
        if segments[n - 1].memory_size != 0 && end > before {
            end as u64
        } else {
            before
        }
    }
}

/// The pages that an image takes.
#[derive(Debug, Clone, Copy, PartialEq, Eq, Structural)]
pub struct ImageSpan {
    pub base: u64,
    pub page_count: u64,
}

/// The pages that the segments of an image take together.
pub open spec fn span_of(segments: Seq<KernelImageSegment>) -> Option<ImageSpan> {
    let base = lowest_page(segments, segments.len());
    let end = highest_end(segments, segments.len());
    if base == u64::MAX || end <= base {
        None
    } else {
        Some(ImageSpan { base, page_count: ((end - base) / PAGE_SIZE as int) as u64 })
    }
}

/// The pages that the segments of an image take together.
pub fn image_span(segments: &[KernelImageSegment]) -> (span: Option<ImageSpan>)
    ensures
        span == span_of(segments@),
{
    let mut image_base: u64 = u64::MAX;
    let mut image_end: u64 = 0;
    let mut i: usize = 0;
    while i < segments.len()
        invariant
            i <= segments@.len(),
            image_base == lowest_page(segments@, i as nat),
            image_end == highest_end(segments@, i as nat),
        decreases segments.len() - i,
    {
        let segment = segments[i];
        if segment.memory_size != 0 {
            let page: u64 = align_down(segment.virtual_address);
            if page < image_base {
                image_base = page;
            }
            let end: u64 = align_up(segment.virtual_address.saturating_add(segment.memory_size));
            if end > image_end {
                image_end = end;
            }
        }
        i += 1;
    }
    if image_base == u64::MAX || image_end <= image_base {
        return None;
    }
    Some(ImageSpan { base: image_base, page_count: (image_end - image_base) / PAGE_SIZE })
}

/// Pages are looked for at the image's own address unless that is below this one.
pub const LOW_MEMORY_RESERVE_BYTES: u64 = 1048576;

/// Whether the pages of an image are first asked for at the image's own address.
pub fn wants_own_address(span: ImageSpan) -> (wanted: bool)
    ensures
        wanted == (span.base >= LOW_MEMORY_RESERVE_BYTES),
{
    span.base >= LOW_MEMORY_RESERVE_BYTES
}

/// Whether the bytes of a segment are in the file and fit into so many bytes from `base` on.
pub open spec fn copyable(segment: KernelImageSegment, file: nat, base: u64, length: nat) -> bool {
    &&& segment.file_offset + segment.file_size <= file
    &&& segment.virtual_address - base + segment.file_size <= length
}

/// Memory with the bytes of the first `n` segments in it, and zero elsewhere.
pub open spec fn copied(
    bytes: Seq<u8>,
    segments: Seq<KernelImageSegment>,
    base: u64,
    length: nat,
    n: nat,
) -> Seq<u8>
    decreases n,
{
    if n == 0 {
        Seq::new(length, |i: int| 0u8)
    } else {
        let before = copied(bytes, segments, base, length, (n - 1) as nat);
        let segment = segments[n - 1];
        if segment.memory_size == 0 {
            before
        } else {
            splice(
                before,
                segment.virtual_address - base,
                bytes.subrange(
                    segment.file_offset as int,
                    segment.file_offset + segment.file_size,
                ),
            )
        }
    }
}

/// Whether the segments that are not empty can be copied.
pub open spec fn all_copyable(
    segments: Seq<KernelImageSegment>,
    file: nat,
    base: u64,
    length: nat,
) -> bool {
    forall|i: int|
        0 <= i < segments.len() && segments[i].memory_size != 0 ==> copyable(
            #[trigger] segments[i],
            file,
            base,
            length,
        )
}

/// The lowest page is not above any segment that is not empty.
proof fn lemma_lowest(segments: Seq<KernelImageSegment>, n: nat, i: int)
    requires
        0 <= i < n <= segments.len(),
        segments[i].memory_size != 0,
    ensures
        lowest_page(segments, n) <= segments[i].virtual_address,
    decreases n,
{
    if i < n - 1 {
        lemma_lowest(segments, (n - 1) as nat, i);
    }
}

/// Clears memory and copies the segments into it.
pub fn copy_kernel_segments(
    segments: &[KernelImageSegment],
    bytes: &[u8],
    image_base: u64,
    memory: &mut [u8],
) -> (copied_all: bool)
    requires
        image_base == lowest_page(segments@, segments@.len()),
    ensures
        final(memory)@.len() == old(memory)@.len(),
        copied_all == all_copyable(segments@, bytes@.len(), image_base, old(memory)@.len()),
        copied_all ==> final(memory)@ == copied(
            bytes@,
            segments@,
            image_base,
            old(memory)@.len(),
            segments@.len(),
        ),
{
    let ghost length = memory@.len();
    let mut i: usize = 0;
    while i < memory.len()
        invariant
            i <= memory@.len(),
            length == old(memory)@.len(),
            memory@.len() == length,
            zero_between(memory@, 0, i as int),
        decreases memory.len() - i,
    {
        memory[i] = 0;
        i += 1;
    }
    assert(memory@ =~= copied(bytes@, segments@, image_base, length, 0));
    let mut k: usize = 0;
    while k < segments.len()
        invariant
            k <= segments@.len(),
            image_base == lowest_page(segments@, segments@.len()),
            length == old(memory)@.len(),
            memory@.len() == length,
            memory@ == copied(bytes@, segments@, image_base, length, k as nat),
            forall|i: int|
                0 <= i < k && segments@[i].memory_size != 0 ==> copyable(
                    #[trigger] segments@[i],
                    bytes@.len(),
                    image_base,
                    length,
                ),
        decreases segments.len() - k,
    {
        let segment = segments[k];
        if segment.memory_size != 0 {
            proof {
                lemma_lowest(segments@, segments@.len(), k as int);
            }
            let file_length: u64 = bytes.len() as u64;
            let memory_length: u64 = memory.len() as u64;
            let end: u64 = match segment.file_offset.checked_add(segment.file_size) {
                Some(end) => end,
                None => return false,
            };
            if end > file_length {
                return false;
            }
            let destination: u64 = segment.virtual_address - image_base;
            let destination_end: u64 = match destination.checked_add(segment.file_size) {
                Some(end) => end,
                None => return false,
            };
            if destination_end > memory_length {
                return false;
            }
            let part = slice_subrange(bytes, segment.file_offset as usize, end as usize);
            copy_into(memory, destination as usize, part);
        }
        k += 1;
    }
    true
}

/// The relocations of a file from the section with this number on, unless a section keeps it from
/// being loaded.
pub open spec fn relocations_from(bytes: Seq<u8>, header: ElfHeader, index: int) -> Option<
    Seq<Relocation>,
>
    decreases header.sh_count - index,
{
    if index < 0 || index >= header.sh_count || !section_present(
        header,
        index as u16,
        bytes.len(),
    ) {
        Some(Seq::empty())
    } else if refused_section(bytes, header, index as u16) {
        None
    } else {
        match relocations_from(bytes, header, index + 1) {
            Some(rest) => Some(relocations_of(bytes, header, index as u16) + rest),
            None => None,
        }
    }
}

/// The relocations of a file, unless something keeps it from being loaded.
pub open spec fn file_relocations(bytes: Seq<u8>) -> Option<Seq<Relocation>> {
    match header_in(bytes) {
        Some(header) => relocations_from(bytes, header, 0),
        None => None,
    }
}

/// Reads the relocations of a file.
pub fn kernel_relocations(bytes: &[u8]) -> (relocations: Option<Vec<Relocation>>)
    requires
        sections_in_reach(bytes@),
    ensures
        match file_relocations(bytes@) {
            Some(list) => relocations is Some && relocations.unwrap()@ == list,
            None => relocations is None,
        },
{
    let header = match read_header(bytes) {
        Some(header) => header,
        None => return None,
    };
    let mut relocations: Vec<Relocation> = Vec::new();
    let mut index: u16 = 0;
    assert forall|rest: Seq<Relocation>| #[trigger] (relocations@ + rest) == rest by {
        assert(relocations@ + rest =~= rest);
    }
    while index < header.sh_count
        invariant
            header_in(bytes@) == Some(header),
            index <= header.sh_count,
            sections_in_reach_from(bytes@, header, index as int),
            relocations_from(bytes@, header, 0) == match relocations_from(
                bytes@,
                header,
                index as int,
            ) {
                Some(rest) => Some(relocations@ + rest),
                None => None,
            },
        decreases header.sh_count - index,
    {
        let section = read_section(bytes, index);
        let ghost before = relocations@;
        match section {
            Section::Absent => {
                assert(relocations@ + Seq::<Relocation>::empty() =~= relocations@);
                return Some(relocations);
            },
            Section::Invalid => return None,
            Section::Rela32 => return None,
            Section::Rela64 => {
                let entries = read_relocations(bytes, index);
                let mut k: usize = 0;
                while k < entries.len()
                    invariant
                        k <= entries@.len(),
                        relocations@ == before + entries@.take(k as int),
                    decreases entries.len() - k,
                {
                    relocations.push(entries[k]);
                    k += 1;
                    assert(relocations@ =~= before + entries@.take(k as int));
                }
                assert(entries@.take(k as int) =~= entries@);
            },
            Section::Other => {
                assert(relocations@ =~= before + Seq::<Relocation>::empty());
            },
        }
        proof {
            let own = relocations_of(bytes@, header, index);
            assert(relocations@ == before + own);
            assert forall|rest: Seq<Relocation>| #[trigger] (relocations@ + rest) == before + (own
                + rest) by {
                assert(relocations@ + rest =~= before + (own + rest));
            }
        }
        index += 1;
    }
    assert(relocations@ + Seq::<Relocation>::empty() =~= relocations@);
    Some(relocations)
}

/// Whether a relocation can be applied to an image that has so many bytes and is at `allocation`.
pub open spec fn applicable(relocation: Relocation, base: u64, allocation: u64, length: nat) -> bool {
    &&& relocation.kind == R_X86_64_RELATIVE
    &&& relocation.symbol == 0
    &&& base <= relocation.offset
    &&& relocation.offset - base + 8 <= length
    &&& allocation + (relocation.offset - base) <= u64::MAX
}

/// Memory after the first `n` relocations.
pub open spec fn relocated(memory: Seq<u8>, relocations: Seq<Relocation>, base: u64, n: nat) -> Seq<
    u8,
>
    decreases n,
{
    if n == 0 {
        memory
    } else {
        splice(
            relocated(memory, relocations, base, (n - 1) as nat),
            relocations[n - 1].offset - base,
            le64_bytes(relocations[n - 1].addend as int),
        )
    }
}

/// Whether all relocations can be applied.
pub open spec fn all_applicable(
    relocations: Seq<Relocation>,
    base: u64,
    allocation: u64,
    length: nat,
) -> bool {
    forall|i: int|
        0 <= i < relocations.len() ==> applicable(#[trigger] relocations[i], base, allocation, length)
}

/// Applies the relocations of a file to its image and counts them.
pub fn apply_kernel_relocations(
    bytes: &[u8],
    image_base: u64,
    allocation: u64,
    memory: &mut [u8],
) -> (applied: Option<usize>)
    requires
        sections_in_reach(bytes@),
    ensures
        final(memory)@.len() == old(memory)@.len(),
        match file_relocations(bytes@) {
            Some(list) => if all_applicable(list, image_base, allocation, old(memory)@.len()) {
                &&& applied is Some
                &&& applied.unwrap() == list.len()
                &&& final(memory)@ == relocated(old(memory)@, list, image_base, list.len())
            } else {
                applied is None
            },
            None => applied is None && final(memory)@ == old(memory)@,
        },
{
    let relocations = match kernel_relocations(bytes) {
        Some(relocations) => relocations,
        None => return None,
    };
    let ghost before = memory@;
    let mut k: usize = 0;
    while k < relocations.len()
        invariant
            k <= relocations@.len(),
            file_relocations(bytes@) == Some(relocations@),
            before == old(memory)@,
            memory@.len() == before.len(),
            memory@ == relocated(before, relocations@, image_base, k as nat),
            forall|i: int|
                0 <= i < k ==> applicable(
                    #[trigger] relocations@[i],
                    image_base,
                    allocation,
                    before.len(),
                ),
        decreases relocations.len() - k,
    {
        let relocation = relocations[k];
        if relocation.kind != R_X86_64_RELATIVE || relocation.symbol != 0 {
            return None;
        }
        let target: u64 = match relocation.offset.checked_sub(image_base) {
            Some(target) => target,
            None => return None,
        };
        let memory_length: u64 = memory.len() as u64;
        let target_end: u64 = match target.checked_add(8) {
            Some(end) => end,
            None => return None,
        };
        if target_end > memory_length {
            return None;
        }
        match allocation.checked_add(target) {
            Some(_) => {},
            None => return None,
        }
        let mut value: Vec<u8> = Vec::new();
        push_le_u64(&mut value, relocation.addend);
        assert(value@ =~= le64_bytes(relocation.addend as int));
        copy_into(memory, target as usize, value.as_slice());
        k += 1;
    }
    Some(relocations.len())
}

/// Whether an image can be staged at `allocation`.
pub open spec fn stageable(
    segments: Seq<KernelImageSegment>,
    bytes: Seq<u8>,
    allocation: u64,
    length: nat,
) -> bool {
    let base = span_of(segments).unwrap().base;
    &&& span_of(segments) is Some
    &&& all_copyable(segments, bytes.len(), base, length)
    &&& file_relocations(bytes) is Some
    &&& all_applicable(file_relocations(bytes).unwrap(), base, allocation, length)
}

/// Whether the relocations of an image come into play: all of its segments can be copied.
pub open spec fn copies(segments: Seq<KernelImageSegment>, bytes: Seq<u8>, length: nat) -> bool {
    span_of(segments) is Some && all_copyable(
        segments,
        bytes.len(),
        span_of(segments).unwrap().base,
        length,
    )
}

/// Whether all segments of an image can be copied into so many bytes.
pub fn segments_copy(segments: &[KernelImageSegment], bytes: &[u8], length: usize) -> (result: bool)
    ensures
        result == copies(segments@, bytes@, length as nat),
{
    let span = match image_span(segments) {
        Some(span) => span,
        None => return false,
    };
    let mut i: usize = 0;
    while i < segments.len()
        invariant
            i <= segments@.len(),
            span_of(segments@) == Some(span),
            forall|j: int|
                0 <= j < i && segments@[j].memory_size != 0 ==> copyable(
                    #[trigger] segments@[j],
                    bytes@.len(),
                    span.base,
                    length as nat,
                ),
        decreases segments.len() - i,
    {
        let segment = segments[i];
        if segment.memory_size != 0 {
            proof {
                lemma_lowest(segments@, segments@.len(), i as int);
            }
            let file_length: u64 = bytes.len() as u64;
            let room: u64 = length as u64;
            let offset: u64 = segment.virtual_address - span.base;
            if segment.file_offset > file_length || segment.file_size > file_length
                - segment.file_offset || offset > room || segment.file_size > room - offset {
                assert(!copyable(segments@[i as int], bytes@.len(), span.base, length as nat));
                return false;
            }
        }
        i += 1;
    }
    true
}

/// An image that was staged.
pub open spec fn staged_image(
    segments: Seq<KernelImageSegment>,
    bytes: Seq<u8>,
    length: nat,
) -> Seq<u8> {
    let base = span_of(segments).unwrap().base;
    let list = file_relocations(bytes).unwrap();
    relocated(copied(bytes, segments, base, length, segments.len()), list, base, list.len())
}

/// Stages an image in memory that is at `allocation`, and counts its relocations.
pub fn stage_kernel_image_span(
    segments: &[KernelImageSegment],
    bytes: &[u8],
    allocation: u64,
    memory: &mut [u8],
) -> (relocations: Option<usize>)
    requires
        copies(segments@, bytes@, old(memory)@.len()) ==> sections_in_reach(bytes@),
    ensures
        final(memory)@.len() == old(memory)@.len(),
        relocations is Some == stageable(segments@, bytes@, allocation, old(memory)@.len()),
        relocations is Some ==> relocations.unwrap() == file_relocations(bytes@).unwrap().len(),
        relocations is Some ==> final(memory)@ == staged_image(
            segments@,
            bytes@,
            old(memory)@.len(),
        ),
{
    let span = match image_span(segments) {
        Some(span) => span,
        None => return None,
    };
    if !copy_kernel_segments(segments, bytes, span.base, memory) {
        return None;
    }
    apply_kernel_relocations(bytes, span.base, allocation, memory)
}

/// A segment of an image that was staged at `allocation`.
pub open spec fn staged_segment(segment: KernelImageSegment, base: u64, allocation: u64) -> KernelImageSegment {
    let offset = segment.virtual_address - page_floor(segment.virtual_address as int);
    KernelImageSegment {
        load_address: capped(
            allocation + if base <= segment.virtual_address {
                segment.virtual_address - base
            } else {
                0
            },
        ),
        load_page_count: (page_ceiling(capped(offset + segment.memory_size) as int)
            / PAGE_SIZE as int) as u64,
        ..segment
    }
}

/// Whether `after` is `before` with notes of where the image was staged.
pub open spec fn notes_staging(
    before: KernelImageInfo,
    after: KernelImageInfo,
    bytes: Seq<u8>,
    allocation: u64,
) -> bool {
    let span = span_of(before.listed()).unwrap();
    &&& after.load_base == allocation
    &&& after.load_page_count == span.page_count
    &&& after.loaded_entry_point == capped(
        allocation + if span.base <= before.entry_point {
            before.entry_point - span.base
        } else {
            0
        },
    )
    &&& after.relocation_count == file_relocations(bytes).unwrap().len()
    &&& after.loaded_segment_count == before.loaded_segment_count + before.load_segment_count
    &&& forall|i: int|
        0 <= i < MAX_KERNEL_IMAGE_SEGMENTS ==> #[trigger] after.segments@[i] == if i
            < before.load_segment_count {
            staged_segment(before.segments@[i], span.base, allocation)
        } else {
            before.segments@[i]
        }
    &&& after == (KernelImageInfo {
        load_base: after.load_base,
        load_page_count: after.load_page_count,
        loaded_entry_point: after.loaded_entry_point,
        relocation_count: after.relocation_count,
        loaded_segment_count: after.loaded_segment_count,
        segments: after.segments,
        ..before
    })
}

/// Stages an image in memory that is at `allocation`, and notes where it is.
#[verifier::spinoff_prover]
#[verifier::rlimit(20)]
pub fn stage_kernel_segments(
    info: &mut KernelImageInfo,
    bytes: &[u8],
    allocation: u64,
    memory: &mut [u8],
) -> (staged: bool)
    requires
        copies(old(info).listed(), bytes@, old(memory)@.len()) ==> sections_in_reach(bytes@),
        old(info).load_segment_count <= MAX_KERNEL_IMAGE_SEGMENTS,
        old(info).loaded_segment_count + old(info).load_segment_count <= usize::MAX,
    ensures
        final(memory)@.len() == old(memory)@.len(),
        staged == stageable(old(info).listed(), bytes@, allocation, old(memory)@.len()),
        !staged ==> *final(info) == *old(info),
        staged ==> final(memory)@ == staged_image(old(info).listed(), bytes@, old(memory)@.len()),
        staged ==> notes_staging(*old(info), *final(info), bytes@, allocation),
{
    let ghost before = *info;
    let span = match image_span(info.segments()) {
        Some(span) => span,
        None => return false,
    };
    let relocation_count: usize = match stage_kernel_image_span(
        info.segments(),
        bytes,
        allocation,
        memory,
    ) {
        Some(count) => count,
        None => return false,
    };
    info.load_base = allocation;
    info.load_page_count = span.page_count;
    info.loaded_entry_point = allocation.saturating_add(
        info.entry_point.saturating_sub(span.base),
    );
    info.relocation_count = relocation_count;
    let ghost noted = *info;
    let count: usize = info.load_segment_count;
    let mut index: usize = 0;
    while index < count
        invariant
            index <= count,
            count == before.load_segment_count,
            count <= MAX_KERNEL_IMAGE_SEGMENTS,
            before.loaded_segment_count + count <= usize::MAX,
            noted.segments == before.segments,
            noted.loaded_segment_count == before.loaded_segment_count,
            info.loaded_segment_count == before.loaded_segment_count + index,
            forall|i: int|
                0 <= i < MAX_KERNEL_IMAGE_SEGMENTS ==> #[trigger] info.segments@[i] == if i < index {
                    staged_segment(before.segments@[i], span.base, allocation)
                } else {
                    before.segments@[i]
                },
            *info == (KernelImageInfo {
                loaded_segment_count: info.loaded_segment_count,
                segments: info.segments,
                ..noted
            }),
        decreases count - index,
    {
        let segment = info.segments[index];
        let segment_base: u64 = align_down(segment.virtual_address);
        let page_offset: u64 = segment.virtual_address - segment_base;
        let span_bytes: u64 = align_up(page_offset.saturating_add(segment.memory_size));
        info.segments[index] = KernelImageSegment {
            load_address: allocation.saturating_add(
                segment.virtual_address.saturating_sub(span.base),
            ),
            load_page_count: span_bytes / PAGE_SIZE,
            ..segment
        };
        info.loaded_segment_count = info.loaded_segment_count + 1;
        index += 1;
    }
    true
}

/// Bytes of the memory that no later segment covers stay as they are.
proof fn lemma_copy_stays(
    bytes: Seq<u8>,
    segments: Seq<KernelImageSegment>,
    base: u64,
    length: nat,
    n: nat,
    m: nat,
    at: int,
)
    requires
        n <= m <= segments.len(),
        0 <= at < length,
        forall|j: int|
            n <= j < m && segments[j].memory_size != 0 ==> copyable(
                #[trigger] segments[j],
                bytes.len(),
                base,
                length,
            ) && !(segments[j].virtual_address - base <= at < segments[j].virtual_address - base
                + segments[j].file_size),
    ensures
        copied(bytes, segments, base, length, m).len() == length,
        copied(bytes, segments, base, length, m)[at] == copied(bytes, segments, base, length, n)[at],
    decreases m,
{
    lemma_copied_length(bytes, segments, base, length, m);
    if n < m {
        lemma_copied_length(bytes, segments, base, length, (m - 1) as nat);
        lemma_copy_stays(bytes, segments, base, length, n, (m - 1) as nat, at);
        let _ = segments[m - 1];
    }
}

proof fn lemma_copied_length(
    bytes: Seq<u8>,
    segments: Seq<KernelImageSegment>,
    base: u64,
    length: nat,
    n: nat,
)
    ensures
        copied(bytes, segments, base, length, n).len() == length,
    decreases n,
{
    if n > 0 {
        lemma_copied_length(bytes, segments, base, length, (n - 1) as nat);
    }
}

/// Before its relocations, a staged image holds the bytes of a segment where the segment asks to be,
/// unless a later segment covers them.
pub proof fn a_segment_is_where_it_asks(
    bytes: Seq<u8>,
    segments: Seq<KernelImageSegment>,
    base: u64,
    length: nat,
    i: int,
    k: int,
)
    requires
        0 <= i < segments.len(),
        base == lowest_page(segments, segments.len()),
        all_copyable(segments, bytes.len(), base, length),
        segments[i].memory_size != 0,
        0 <= k < segments[i].file_size,
        forall|j: int|
            i < j < segments.len() && #[trigger] segments[j].memory_size != 0 ==> !(
            segments[j].virtual_address <= segments[i].virtual_address + k
                < segments[j].virtual_address + segments[j].file_size),
    ensures
        copied(bytes, segments, base, length, segments.len())[segments[i].virtual_address - base + k]
            == bytes[segments[i].file_offset + k],
{
    let at = segments[i].virtual_address - base + k;
    lemma_lowest(segments, segments.len(), i);
    lemma_copied_length(bytes, segments, base, length, i as nat);
    assert(copyable(segments[i], bytes.len(), base, length));
    assert(copied(bytes, segments, base, length, (i + 1) as nat)[at] == bytes[
        segments[i].file_offset + k]);
    lemma_copy_stays(bytes, segments, base, length, (i + 1) as nat, segments.len(), at);
}

proof fn lemma_relocated_length(memory: Seq<u8>, relocations: Seq<Relocation>, base: u64, n: nat)
    ensures
        relocated(memory, relocations, base, n).len() == memory.len(),
    decreases n,
{
    if n > 0 {
        lemma_relocated_length(memory, relocations, base, (n - 1) as nat);
    }
}

/// A byte that none of the relocations from `n` to `m` targets stays as it was.
proof fn lemma_relocated_elsewhere(
    memory: Seq<u8>,
    relocations: Seq<Relocation>,
    base: u64,
    n: nat,
    m: nat,
    at: int,
)
    requires
        n <= m <= relocations.len(),
        0 <= at < memory.len(),
        forall|j: int|
            n <= j < m ==> !((#[trigger] relocations[j]).offset - base <= at < relocations[j].offset
                - base + 8),
    ensures
        relocated(memory, relocations, base, m)[at] == relocated(memory, relocations, base, n)[at],
    decreases m,
{
    if n < m {
        lemma_relocated_length(memory, relocations, base, (m - 1) as nat);
        lemma_relocated_elsewhere(memory, relocations, base, n, (m - 1) as nat, at);
        let _ = relocations[m - 1];
        assert(le64_bytes(relocations[m - 1].addend as int).len() == 8);
    }
}

/// The two little-endian bytes of a number make up the number.
proof fn lemma_le16_bytes(value: int)
    requires
        0 <= value < 0x1_0000,
    ensures
        le16_bytes(value).len() == 2,
        le16_bytes(value)[0] + 256 * le16_bytes(value)[1] == value,
{
}

/// The four little-endian bytes of a number make up the number.
proof fn lemma_le32_bytes(value: int)
    requires
        0 <= value < 0x1_0000_0000,
    ensures
        ({
            let b = le32_bytes(value);
            &&& b.len() == 4
            &&& b[0] + 256 * (b[1] + 256 * (b[2] + 256 * b[3])) == value
        }),
{
    lemma_le16_bytes(value % 0x1_0000);
    lemma_le16_bytes(value / 0x1_0000);
    let low = le16_bytes(value % 0x1_0000);
    let high = le16_bytes(value / 0x1_0000);
    let b = le32_bytes(value);
    assert(b[0] == low[0] && b[1] == low[1] && b[2] == high[0] && b[3] == high[1]);
}

/// The eight little-endian bytes of a number make up the number.
#[verifier::spinoff_prover]
proof fn lemma_le64_bytes(value: u64)
    ensures
        ({
            let b = le64_bytes(value as int);
            &&& b.len() == 8
            &&& b[0] + 256 * (b[1] + 256 * (b[2] + 256 * (b[3] + 256 * (b[4] + 256 * (b[5] + 256 * (
            b[6] + 256 * b[7])))))) == value
        }),
{
    let whole = value as int;
    lemma_le32_bytes(whole % 0x1_0000_0000);
    lemma_le32_bytes(whole / 0x1_0000_0000);
    let low = le32_bytes(whole % 0x1_0000_0000);
    let high = le32_bytes(whole / 0x1_0000_0000);
    let b = le64_bytes(whole);
    assert(b[0] == low[0] && b[1] == low[1] && b[2] == low[2] && b[3] == low[3]);
    assert(b[4] == high[0] && b[5] == high[1] && b[6] == high[2] && b[7] == high[3]);
}

/// The eight bytes from `at` on are a number, low byte first.
pub open spec fn number_stored(memory: Seq<u8>, at: int, value: u64) -> bool {
    memory[at] + 256 * (memory[at + 1] + 256 * (memory[at + 2] + 256 * (memory[at + 3] + 256 * (
    memory[at + 4] + 256 * (memory[at + 5] + 256 * (memory[at + 6] + 256 * memory[at + 7]))))))
        == value
}

/// Every relocation is applied: where no later one writes to the same place, its addend stands there,
/// low byte first.
pub proof fn every_relocation_is_applied(
    memory: Seq<u8>,
    relocations: Seq<Relocation>,
    base: u64,
    allocation: u64,
    i: int,
)
    requires
        all_applicable(relocations, base, allocation, memory.len()),
        0 <= i < relocations.len(),
        forall|j: int|
            i < j < relocations.len() ==> (#[trigger] relocations[j]).offset + 8
                <= relocations[i].offset || relocations[i].offset + 8 <= relocations[j].offset,
    ensures
        base <= relocations[i].offset,
        relocations[i].offset - base + 8 <= memory.len(),
        number_stored(
            relocated(memory, relocations, base, relocations.len()),
            relocations[i].offset - base,
            relocations[i].addend,
        ),
{
    let at = relocations[i].offset - base;
    assert(applicable(relocations[i], base, allocation, memory.len()));
    lemma_relocated_length(memory, relocations, base, i as nat);
    let own = le64_bytes(relocations[i].addend as int);
    assert(own.len() == 8);
    let after = relocated(memory, relocations, base, relocations.len());
    assert forall|k: int| 0 <= k < 8 implies #[trigger] after[at + k] == own[k] by {
        assert forall|j: int| i + 1 <= j < relocations.len() implies !((#[trigger] relocations[j]).offset
            - base <= at + k < relocations[j].offset - base + 8) by {
            let _ = relocations[j];
        }
        lemma_relocated_elsewhere(
            memory,
            relocations,
            base,
            (i + 1) as nat,
            relocations.len(),
            at + k,
        );
        assert(relocated(memory, relocations, base, (i + 1) as nat)[at + k] == own[k]);
    }
    lemma_number_stored(after, at, own, relocations[i].addend);
}

/// Where the eight bytes of a number stand, the number stands.
proof fn lemma_number_stored(memory: Seq<u8>, at: int, own: Seq<u8>, value: u64)
    requires
        own == le64_bytes(value as int),
        forall|k: int| 0 <= k < 8 ==> #[trigger] memory[at + k] == own[k],
    ensures
        number_stored(memory, at, value),
{
    lemma_le64_bytes(value);
    assert(memory[at + 0] == own[0]);
    assert(memory[at + 1] == own[1]);
    assert(memory[at + 2] == own[2]);
    assert(memory[at + 3] == own[3]);
    assert(memory[at + 4] == own[4]);
    assert(memory[at + 5] == own[5]);
    assert(memory[at + 6] == own[6]);
    assert(memory[at + 7] == own[7]);
}

/// Relocations leave every byte alone that none of them targets.
pub proof fn relocations_change_only_their_targets(
    memory: Seq<u8>,
    relocations: Seq<Relocation>,
    base: u64,
    at: int,
)
    requires
        0 <= at < memory.len(),
        forall|j: int|
            0 <= j < relocations.len() ==> !((#[trigger] relocations[j]).offset <= base + at
                < relocations[j].offset + 8),
    ensures
        relocated(memory, relocations, base, relocations.len()).len() == memory.len(),
        relocated(memory, relocations, base, relocations.len())[at] == memory[at],
{
    lemma_relocated_length(memory, relocations, base, relocations.len());
    assert forall|j: int| 0 <= j < relocations.len() implies !((#[trigger] relocations[j]).offset - base
        <= at < relocations[j].offset - base + 8) by {
        let _ = relocations[j];
    }
    lemma_relocated_elsewhere(memory, relocations, base, 0, relocations.len(), at);
}

/// An image that was staged has a zero byte wherever no segment puts one of the file.
proof fn lemma_copied_elsewhere(
    bytes: Seq<u8>,
    segments: Seq<KernelImageSegment>,
    base: u64,
    length: nat,
    n: nat,
    at: int,
)
    requires
        n <= segments.len(),
        0 <= at < length,
        forall|j: int|
            0 <= j < n && segments[j].memory_size != 0 ==> copyable(
                #[trigger] segments[j],
                bytes.len(),
                base,
                length,
            ) && !(segments[j].virtual_address - base <= at < segments[j].virtual_address - base
                + segments[j].file_size),
    ensures
        copied(bytes, segments, base, length, n)[at] == 0u8,
    decreases n,
{
    lemma_copied_length(bytes, segments, base, length, n);
    if n > 0 {
        lemma_copied_length(bytes, segments, base, length, (n - 1) as nat);
        lemma_copied_elsewhere(bytes, segments, base, length, (n - 1) as nat, at);
        let _ = segments[n - 1];
    }
}

/// An image that was staged holds at each place what belongs there: the addend of the last relocation
/// that targets it, or else the byte of the last segment that covers it, or else zero.
pub proof fn a_staged_image_holds_the_file(
    segments: Seq<KernelImageSegment>,
    bytes: Seq<u8>,
    allocation: u64,
    length: nat,
    at: int,
)
    requires
        stageable(segments, bytes, allocation, length),
        0 <= at < length,
        forall|j: int|
            0 <= j < file_relocations(bytes).unwrap().len() ==> !((#[trigger] file_relocations(
                bytes,
            ).unwrap()[j]).offset <= span_of(segments).unwrap().base + at < file_relocations(
                bytes,
            ).unwrap()[j].offset + 8),
    ensures
        ({
            let base = span_of(segments).unwrap().base;
            let address = base + at;
            let image = staged_image(segments, bytes, length);
            &&& image.len() == length
            &&& (forall|j: int|
                0 <= j < segments.len() && (#[trigger] segments[j]).memory_size != 0 ==> !(
                segments[j].virtual_address <= address < segments[j].virtual_address
                    + segments[j].file_size)) ==> image[at] == 0u8
            &&& forall|i: int|
                0 <= i < segments.len() && (#[trigger] segments[i]).memory_size != 0
                    && segments[i].virtual_address <= address < segments[i].virtual_address
                    + segments[i].file_size && (forall|j: int|
                    i < j < segments.len() && (#[trigger] segments[j]).memory_size != 0 ==> !(
                    segments[j].virtual_address <= address < segments[j].virtual_address
                        + segments[j].file_size)) ==> image[at] == bytes[segments[i].file_offset + (
                address - segments[i].virtual_address)]
        }),
{
    let base = span_of(segments).unwrap().base;
    let address = base + at;
    let list = file_relocations(bytes).unwrap();
    let plain = copied(bytes, segments, base, length, segments.len());
    lemma_copied_length(bytes, segments, base, length, segments.len());
    relocations_change_only_their_targets(plain, list, base, at);
    if forall|j: int|
        0 <= j < segments.len() && (#[trigger] segments[j]).memory_size != 0 ==> !(
        segments[j].virtual_address <= address < segments[j].virtual_address
            + segments[j].file_size) {
        lemma_copied_elsewhere(bytes, segments, base, length, segments.len(), at);
    }
    assert forall|i: int|
        0 <= i < segments.len() && (#[trigger] segments[i]).memory_size != 0
            && segments[i].virtual_address <= address < segments[i].virtual_address
            + segments[i].file_size && (forall|j: int|
            i < j < segments.len() && (#[trigger] segments[j]).memory_size != 0 ==> !(
            segments[j].virtual_address <= address < segments[j].virtual_address
                + segments[j].file_size)) implies plain[at] == bytes[segments[i].file_offset + (address
        - segments[i].virtual_address)] by {
        a_segment_is_where_it_asks(
            bytes,
            segments,
            base,
            length,
            i,
            address - segments[i].virtual_address,
        );
    }
}

/// A relocation can be applied if it is a relative one, names no symbol and its eight bytes are in the
/// image.
pub proof fn only_relative_relocations_are_applied(
    relocation: Relocation,
    base: u64,
    allocation: u64,
    length: nat,
)
    ensures
        applicable(relocation, base, allocation, length) ==> {
            &&& relocation.kind == 8
            &&& relocation.symbol == 0
            &&& base <= relocation.offset
            &&& relocation.offset + 8 <= base + length
        },
        relocation.kind == 8 && relocation.symbol == 0 && base <= relocation.offset && relocation.offset + 8
            <= base + length && allocation + length <= u64::MAX ==> applicable(
            relocation,
            base,
            allocation,
            length,
        ),
{
}

} // verus!
