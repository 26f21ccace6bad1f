//! What an ELF file says of itself, as the `xmas_elf` crate reads it on a little-endian machine.

use vstd::prelude::*;
use xmas_elf::program::Type;
use xmas_elf::sections::SectionData;
use xmas_elf::ElfFile;
use crate::bytes::{get_le_u32, get_le_u64, le16, le32, le64};

verus! {

/// The sections from this number on have numbers that are reserved.
pub const FIRST_RESERVED_SECTION: u16 = 0xff00;

/// What of a file's header the loader reads.
#[derive(Debug, Clone, Copy, PartialEq, Eq, Structural)]
pub struct ElfHeader {
    /// Whether addresses have 64 bits, and not 32.
    pub wide: bool,
    pub entry_point: u64,
    pub ph_offset: u64,
    pub ph_entry_size: u16,
    pub ph_count: u16,
    pub sh_offset: u64,
    pub sh_entry_size: u16,
    pub sh_count: u16,
}

/// What of a program header the loader reads.
#[derive(Debug, Clone, Copy, PartialEq, Eq, Structural)]
pub struct ProgramHeader {
    pub loads: bool,
    pub flags: u32,
    pub offset: u64,
    pub virtual_addr: u64,
    pub physical_addr: u64,
    pub file_size: u64,
    pub mem_size: u64,
}

/// A relocation with an addend.
#[derive(Debug, Clone, Copy, PartialEq, Eq, Structural)]
pub struct Relocation {
    pub offset: u64,
    pub kind: u32,
    pub symbol: u32,
    pub addend: u64,
}

/// What a section is to the loader.
#[derive(Debug, Clone, Copy, PartialEq, Eq, Structural)]
pub enum Section {
    /// There is no such section in the file.
    Absent,
    /// The section is of no known kind.
    Invalid,
    /// Relocations of 64 bits.
    Rela64,
    /// Relocations of 32 bits.
    Rela32,
    Other,
}

/// The header of a file that has one.
pub open spec fn header_in(bytes: Seq<u8>) -> Option<ElfHeader> {
    if bytes.len() < 16 || bytes.subrange(0, 4) != seq![0x7fu8, 0x45u8, 0x4cu8, 0x46u8] {
        None
    } else if bytes[4] == 1 && 52 <= bytes.len() {
        Some(
            ElfHeader {
                wide: false,
                entry_point: le32(bytes, 24) as u64,
                ph_offset: le32(bytes, 28) as u64,
                ph_entry_size: le16(bytes, 42) as u16,
                ph_count: le16(bytes, 44) as u16,
                sh_offset: le32(bytes, 32) as u64,
                sh_entry_size: le16(bytes, 46) as u16,
                sh_count: le16(bytes, 48) as u16,
            },
        )
    } else if bytes[4] == 2 && 64 <= bytes.len() {
        Some(
            ElfHeader {
                wide: true,
                entry_point: le64(bytes, 24) as u64,
                ph_offset: le64(bytes, 32) as u64,
                ph_entry_size: le16(bytes, 54) as u16,
                ph_count: le16(bytes, 56) as u16,
                sh_offset: le64(bytes, 40) as u64,
                sh_entry_size: le16(bytes, 58) as u16,
                sh_count: le16(bytes, 60) as u16,
            },
        )
    } else {
        None
    }
}

/// `xmas_elf::ElfFile::new`, with the fields of the header that it gives. It asks that the bytes start
/// at an aligned address, so it is handed an aligned copy of them.
#[verifier::external_body]
pub(crate) fn read_header(bytes: &[u8]) -> (header: Option<ElfHeader>)
    ensures
        header == header_in(bytes@),
{
    let mut copy = Vec::with_capacity(bytes.len() + 8);
    copy.resize((copy.as_ptr() as usize).wrapping_neg() % 8, 0u8);
    let start = copy.len();
    copy.extend_from_slice(bytes);
    let header = ElfFile::new(&copy[start..]).ok()?.header;
    Some(ElfHeader {
        wide: matches!(header.pt1.class(), xmas_elf::header::Class::SixtyFour),
        entry_point: header.pt2.entry_point(),
        ph_offset: header.pt2.ph_offset(), ph_entry_size: header.pt2.ph_entry_size(),
        ph_count: header.pt2.ph_count(), sh_offset: header.pt2.sh_offset(),
        sh_entry_size: header.pt2.sh_entry_size(), sh_count: header.pt2.sh_count(),
    })
}

/// Where a program header is.
pub open spec fn program_start(header: ElfHeader, index: u16) -> int {
    header.ph_offset + index * header.ph_entry_size
}

/// Whether the file has the program header with this number.
pub open spec fn has_program(header: ElfHeader, index: u16) -> bool {
    index < header.ph_count && header.ph_offset > 0 && header.ph_entry_size > 0
}

/// Whether a program header is inside a file of so many bytes, and at an aligned place.
pub open spec fn program_in_reach(header: ElfHeader, index: u16, length: nat) -> bool {
    let start = program_start(header, index);
    &&& header.ph_entry_size >= if header.wide {
        56int
    } else {
        32
    }
    &&& start + header.ph_entry_size <= length
    &&& start % if header.wide {
        8int
    } else {
        4
    } == 0
}

/// The program header at a place.
pub open spec fn program_at(bytes: Seq<u8>, wide: bool, start: int) -> ProgramHeader {
    if wide {
        ProgramHeader {
            loads: le32(bytes, start) == 1,
            flags: le32(bytes, start + 4) as u32,
            offset: le64(bytes, start + 8) as u64,
            virtual_addr: le64(bytes, start + 16) as u64,
            physical_addr: le64(bytes, start + 24) as u64,
            file_size: le64(bytes, start + 32) as u64,
            mem_size: le64(bytes, start + 40) as u64,
        }
    } else {
        ProgramHeader {
            loads: le32(bytes, start) == 1,
            flags: le32(bytes, start + 24) as u32,
            offset: le32(bytes, start + 4) as u64,
            virtual_addr: le32(bytes, start + 8) as u64,
            physical_addr: le32(bytes, start + 12) as u64,
            file_size: le32(bytes, start + 16) as u64,
            mem_size: le32(bytes, start + 20) as u64,
        }
    }
}

/// `xmas_elf::ElfFile::program_header`, with the fields of the header that it gives, of an aligned copy
/// of the bytes. A header that is not wholly in the file, too small or not aligned would make it panic.
#[verifier::external_body]
pub(crate) fn read_program(bytes: &[u8], index: u16) -> (program: Option<ProgramHeader>)
    requires
        header_in(bytes@) is Some,
        has_program(header_in(bytes@).unwrap(), index) ==> program_in_reach(
            header_in(bytes@).unwrap(),
            index,
            bytes@.len(),
        ),
    ensures
        program == if has_program(header_in(bytes@).unwrap(), index) {
            Some(
                program_at(
                    bytes@,
                    header_in(bytes@).unwrap().wide,
                    program_start(header_in(bytes@).unwrap(), index),
                ),
            )
        } else {
            None
        },
{
    let mut copy = Vec::with_capacity(bytes.len() + 8);
    copy.resize((copy.as_ptr() as usize).wrapping_neg() % 8, 0u8);
    let start = copy.len();
    copy.extend_from_slice(bytes);
    let elf = ElfFile::new(&copy[start..]).ok()?;
    let program = elf.program_header(index).ok()?;
    Some(ProgramHeader {
        loads: matches!(program.get_type(), Ok(Type::Load)),
        flags: program.flags().0, offset: program.offset(),
        virtual_addr: program.virtual_addr(), physical_addr: program.physical_addr(),
        file_size: program.file_size(), mem_size: program.mem_size(),
    })
}

/// Where a section header is.
pub open spec fn section_start(header: ElfHeader, index: u16) -> int {
    header.sh_offset + index * header.sh_entry_size
}

/// Whether the header of a section is inside a file of so many bytes.
pub open spec fn section_present(header: ElfHeader, index: u16, length: nat) -> bool {
    section_start(header, index) + header.sh_entry_size <= length
}

/// Whether sections are of this kind.
pub open spec fn known_kind(kind: int) -> bool {
    0 <= kind <= 11 || 14 <= kind <= 18 || 0x6000_0000 <= kind
}

/// The size and the alignment of what a section of this kind is a table of.
pub open spec fn unit_of(wide: bool, kind: int) -> (int, int) {
    if kind == 2 || kind == 11 {
        if wide {
            (24, 8)
        } else {
            (16, 4)
        }
    } else if kind == 4 {
        if wide {
            (24, 8)
        } else {
            (12, 4)
        }
    } else if kind == 6 || kind == 9 {
        if wide {
            (16, 8)
        } else {
            (8, 4)
        }
    } else if kind == 14 || kind == 15 || kind == 16 {
        if wide {
            (8, 8)
        } else {
            (4, 4)
        }
    } else if kind == 18 || kind == 17 {
        (4, 4)
    } else {
        (1, 1)
    }
}

/// Whether what a section holds is inside a file of so many bytes and has the shape that its kind asks.
pub open spec fn contents_in_reach(wide: bool, kind: int, offset: int, size: int, length: nat) -> bool {
    !known_kind(kind) || kind == 0 || kind == 8 || {
        &&& offset + size <= length
        &&& size % unit_of(wide, kind).0 == 0
        &&& offset % unit_of(wide, kind).1 == 0
        &&& kind == 17 ==> 4 <= size
        &&& (kind == 5 || kind == 7 && wide) ==> 12 <= size && offset % 4 == 0
    }
}

/// Where the section whose header is at a place says that its contents are.
pub open spec fn contents_of(bytes: Seq<u8>, wide: bool, start: int) -> (int, int) {
    if wide {
        (le64(bytes, start + 24), le64(bytes, start + 32))
    } else {
        (le32(bytes, start + 16), le32(bytes, start + 20))
    }
}

/// Whether the section with this number can be read: its header is past the end of the file, or it is
/// aligned and what it speaks of is in the file.
pub open spec fn section_in_reach(bytes: Seq<u8>, header: ElfHeader, index: u16) -> bool {
    let start = section_start(header, index);
    &&& index < FIRST_RESERVED_SECTION
    &&& start + header.sh_entry_size <= usize::MAX
    &&& section_present(header, index, bytes.len()) ==> {
        &&& header.sh_entry_size >= if header.wide {
            64int
        } else {
            40
        }
        &&& start % if header.wide {
            8int
        } else {
            4
        } == 0
        &&& contents_in_reach(
            header.wide,
            le32(bytes, start + 4),
            contents_of(bytes, header.wide, start).0,
            contents_of(bytes, header.wide, start).1,
            bytes.len(),
        )
    }
}

/// The relocation at a place.
pub open spec fn relocation_at(bytes: Seq<u8>, at: int) -> Relocation {
    Relocation {
        offset: le64(bytes, at) as u64,
        kind: le32(bytes, at + 8) as u32,
        symbol: le32(bytes, at + 12) as u32,
        addend: le64(bytes, at + 16) as u64,
    }
}

/// The relocations in so many bytes from a place on.
pub open spec fn relocations_in(bytes: Seq<u8>, offset: int, size: int) -> Seq<Relocation> {
    Seq::new((size / 24) as nat, |k: int| relocation_at(bytes, offset + 24 * k))
}

/// What the section with this number is.
pub open spec fn section_in(bytes: Seq<u8>, header: ElfHeader, index: u16) -> Section {
    let kind = le32(bytes, section_start(header, index) + 4);
    if !section_present(header, index, bytes.len()) {
        Section::Absent
    } else if !known_kind(kind) || kind == 7 && !header.wide {
        Section::Invalid
    } else if kind == 4 {
        if header.wide {
            Section::Rela64
        } else {
            Section::Rela32
        }
    } else {
        Section::Other
    }
}

/// Whether the section with this number keeps a file from being loaded.
pub open spec fn refused_section(bytes: Seq<u8>, header: ElfHeader, index: u16) -> bool {
    let kind = le32(bytes, section_start(header, index) + 4);
    !known_kind(kind) || !header.wide && (kind == 7 || kind == 4)
}

/// The relocations of the section with this number.
pub open spec fn relocations_of(bytes: Seq<u8>, header: ElfHeader, index: u16) -> Seq<Relocation> {
    let start = section_start(header, index);
    let contents = contents_of(bytes, header.wide, start);
    if le32(bytes, start + 4) == 4 {
        relocations_in(bytes, contents.0, contents.1)
    } else {
        Seq::empty()
    }
}

/// `xmas_elf::ElfFile::section_header` and the variant of what
/// `xmas_elf::sections::SectionHeader::get_data` gives, of an aligned copy of the bytes: a section
/// whose kind has no meaning is refused, as are notes in a file of 32 bits. Bytes that are out of
/// reach, misaligned or no whole number of entries would make them panic.
#[verifier::external_body]
pub(crate) fn read_section(bytes: &[u8], index: u16) -> (section: Section)
    requires
        header_in(bytes@) is Some,
        section_in_reach(bytes@, header_in(bytes@).unwrap(), index),
    ensures
        section == section_in(bytes@, header_in(bytes@).unwrap(), index),
{
    let mut copy = Vec::with_capacity(bytes.len() + 8);
    copy.resize((copy.as_ptr() as usize).wrapping_neg() % 8, 0u8);
    let start = copy.len();
    copy.extend_from_slice(bytes);
    let Ok(elf) = ElfFile::new(&copy[start..]) else { return Section::Absent };
    match elf.section_header(index).map(|section| section.get_data(&elf)) {
        Err(_) => Section::Absent,
        Ok(Err(_)) => Section::Invalid,
        Ok(Ok(SectionData::Rela64(_))) => Section::Rela64,
        Ok(Ok(SectionData::Rela32(_))) => Section::Rela32,
        Ok(Ok(_)) => Section::Other,
    }
}

/// The entries that `xmas_elf::sections::SectionHeader::get_data` gives of a section with relocations
/// of 64 bits, of an aligned copy of the bytes.
#[verifier::external_body]
pub(crate) fn read_relocations(bytes: &[u8], index: u16) -> (relocations: Vec<Relocation>)
    requires
        header_in(bytes@) is Some,
        section_in_reach(bytes@, header_in(bytes@).unwrap(), index),
        section_in(bytes@, header_in(bytes@).unwrap(), index) == Section::Rela64,
    ensures
        relocations@ == relocations_of(bytes@, header_in(bytes@).unwrap(), index),
{
    let mut copy = Vec::with_capacity(bytes.len() + 8);
    copy.resize((copy.as_ptr() as usize).wrapping_neg() % 8, 0u8);
    let start = copy.len();
    copy.extend_from_slice(bytes);
    let Ok(elf) = ElfFile::new(&copy[start..]) else { return Vec::new() };
    match elf.section_header(index).and_then(|section| section.get_data(&elf)) {
        Ok(SectionData::Rela64(entries)) => entries.iter().map(|entry| Relocation {
            offset: entry.get_offset(), kind: entry.get_type(),
            symbol: entry.get_symbol_table_index(), addend: entry.get_addend(),
        }).collect(),
        _ => Vec::new(),
    }
}

/// Whether every program header that the file says it has can be read.
pub open spec fn programs_in_reach(bytes: Seq<u8>) -> bool {
    header_in(bytes) is Some ==> forall|index: u16|
        #[trigger] has_program(header_in(bytes).unwrap(), index) ==> program_in_reach(
            header_in(bytes).unwrap(),
            index,
            bytes.len(),
        )
}

/// Whether every program header that the file says it has can be read.
pub fn programs_readable(bytes: &[u8]) -> (readable: bool)
    ensures
        readable == programs_in_reach(bytes@),
{
    let header = match read_header(bytes) {
        Some(header) => header,
        None => return true,
    };
    let length: u128 = bytes.len() as u128;
    if header.ph_offset == 0 || header.ph_entry_size == 0 {
        return true;
    }
    let unit: u128 = if header.wide {
        8
    } else {
        4
    };
    let least: u16 = if header.wide {
        56
    } else {
        32
    };
    let mut index: u16 = 0;
    while index < header.ph_count
        invariant
            header_in(bytes@) == Some(header),
            length == bytes@.len(),
            header.ph_offset > 0,
            header.ph_entry_size > 0,
            unit == if header.wide {
                8int
            } else {
                4
            },
            least == if header.wide {
                56int
            } else {
                32
            },
            index <= header.ph_count,
            forall|i: u16| i < index ==> #[trigger] program_in_reach(header, i, bytes@.len()),
        decreases header.ph_count - index,
    {
        assert(index * header.ph_entry_size <= 0xffff * 0xffff) by (nonlinear_arith)
            requires
                index <= 0xffff,
                header.ph_entry_size <= 0xffff,
        ;
        let start: u128 = header.ph_offset as u128 + (index as u128) * (header.ph_entry_size as u128);
        assert(start == program_start(header, index));
        if header.ph_entry_size < least || start + header.ph_entry_size as u128 > length || start
            % unit != 0 {
            proof {
                let found = header_in(bytes@).unwrap();
                assert(has_program(found, index));
                assert(!program_in_reach(found, index, bytes@.len()));
            }
            return false;
        }
        index += 1;
    }
    true
}

/// Whether the sections from this number on can be read, up to the first that is absent.
pub open spec fn sections_in_reach_from(bytes: Seq<u8>, header: ElfHeader, index: int) -> bool
    decreases header.sh_count - index,
{
    index < 0 || index >= header.sh_count || {
        &&& section_in_reach(bytes, header, index as u16)
        &&& section_present(header, index as u16, bytes.len()) ==> sections_in_reach_from(
            bytes,
            header,
            index + 1,
        )
    }
}

/// Whether every section of the file can be read.
pub open spec fn sections_in_reach(bytes: Seq<u8>) -> bool {
    header_in(bytes) is Some ==> sections_in_reach_from(bytes, header_in(bytes).unwrap(), 0)
}

/// Whether what a section holds is inside the file and has the shape that its kind asks.
fn contents_readable(wide: bool, kind: u32, offset: u64, size: u64, length: usize) -> (readable: bool)
    ensures
        readable == contents_in_reach(wide, kind as int, offset as int, size as int, length as nat),
{
    if !(kind <= 11 || 14 <= kind && kind <= 18 || 0x6000_0000 <= kind) || kind == 0 || kind == 8 {
        return true;
    }
    let (unit, alignment): (u64, u64) = if kind == 2 || kind == 11 {
        if wide {
            (24, 8)
        } else {
            (16, 4)
        }
    } else if kind == 4 {
        if wide {
            (24, 8)
        } else {
            (12, 4)
        }
    } else if kind == 6 || kind == 9 {
        if wide {
            (16, 8)
        } else {
            (8, 4)
        }
    } else if kind == 14 || kind == 15 || kind == 16 {
        if wide {
            (8, 8)
        } else {
            (4, 4)
        }
    } else if kind == 18 || kind == 17 {
        (4, 4)
    } else {
        (1, 1)
    };
    if offset as u128 + size as u128 > length as u128 || size % unit != 0 || offset % alignment != 0 {
        return false;
    }
    if kind == 17 && size < 4 {
        return false;
    }
    !((kind == 5 || kind == 7 && wide) && (size < 12 || offset % 4 != 0))
}

/// Whether every section of the file can be read.
pub fn sections_readable(bytes: &[u8]) -> (readable: bool)
    ensures
        readable == sections_in_reach(bytes@),
{
    let header = match read_header(bytes) {
        Some(header) => header,
        None => return true,
    };
    let length: usize = bytes.len();
    let unit: u128 = if header.wide {
        8
    } else {
        4
    };
    let least: u16 = if header.wide {
        64
    } else {
        40
    };
    let mut index: u16 = 0;
    while index < header.sh_count
        invariant
            header_in(bytes@) == Some(header),
            length == bytes@.len(),
            unit == if header.wide {
                8int
            } else {
                4
            },
            least == if header.wide {
                64int
            } else {
                40
            },
            index <= header.sh_count,
            sections_in_reach(bytes@) == sections_in_reach_from(bytes@, header, index as int),
        decreases header.sh_count - index,
    {
        assert(index * header.sh_entry_size <= 0xffff * 0xffff) by (nonlinear_arith)
            requires
                index <= 0xffff,
                header.sh_entry_size <= 0xffff,
        ;
        let start: u128 = header.sh_offset as u128 + (index as u128) * (header.sh_entry_size as u128);
        assert(start == section_start(header, index));
        let end: u128 = start + header.sh_entry_size as u128;
        if index >= FIRST_RESERVED_SECTION || end > usize::MAX as u128 {
            return false;
        }
        if end > length as u128 {
            return true;
        }
        if header.sh_entry_size < least || start % unit != 0 {
            return false;
        }
        let at: usize = start as usize;
        let (offset, size): (u64, u64) = if header.wide {
            (get_le_u64(bytes, at + 24), get_le_u64(bytes, at + 32))
        } else {
            (get_le_u32(bytes, at + 16) as u64, get_le_u32(bytes, at + 20) as u64)
        };
        if !contents_readable(header.wide, get_le_u32(bytes, at + 4), offset, size, length) {
            return false;
        }
        index += 1;
    }
    true
}

} // verus!
