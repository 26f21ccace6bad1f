//! Executables of user programs: 64-bit ELF images with a fixed load address.

use vstd::prelude::*;
use crate::fs::format::{low_first_2, low_first_4, low_first_8};
use crate::bytes::{
    bytes_equal, copy_into, get_le_u16, get_le_u32, get_le_u64, le16, le32, le64, put_le_u16,
    put_le_u32, put_le_u64, same_outside, zero_between, zeroed,
};

verus! {

pub const ELF_MAGIC: [u8; 4] = [0x7f, 0x45, 0x4c, 0x46];

pub const ELF_CLASS_64: u8 = 2;

pub const ELF_DATA_LE: u8 = 1;

pub const ELF_VERSION_CURRENT_U8: u8 = 1;

pub const ELF_VERSION_CURRENT_U32: u32 = 1;

pub const ET_EXEC: u16 = 2;

pub const EM_X86_64: u16 = 62;

pub const PT_LOAD: u32 = 1;

pub const PF_X: u32 = 1;

pub const PF_W: u32 = 2;

pub const PF_R: u32 = 4;

pub const ELF64_HEADER_BYTES: usize = 64;

pub const ELF64_PROGRAM_HEADER_BYTES: usize = 56;

pub const MAX_LOAD_SEGMENTS: usize = 16;

pub const DEFAULT_LOAD_OFFSET: usize = 0x1000;

/// Why an image cannot be loaded.
#[derive(Debug, Clone, Copy, PartialEq, Eq, Structural)]
pub enum UserElfError {
    ImageTooSmall,
    BadMagic,
    UnsupportedClass,
    UnsupportedEndian,
    UnsupportedVersion,
    UnsupportedType,
    UnsupportedMachine,
    ProgramHeaderTableOutOfBounds,
    UnsupportedProgramHeaderSize,
    TooManyLoadSegments,
    MissingLoadSegment,
    InvalidLoadSegment,
    WritableExecutableSegment,
    EntryNotExecutable,
    AddressOverflow,
}

/// A part of an image, and where in memory it belongs.
#[derive(Debug, Clone, Copy, PartialEq, Eq)]
pub struct UserElfSegment<'a> {
    pub virtual_address: u64,
    pub data: &'a [u8],
    pub memory_size: u64,
    pub writable: bool,
    pub executable: bool,
}

/// What is loaded of an image, and where it starts.
#[derive(Debug, PartialEq, Eq)]
pub struct UserElfImage<'a> {
    pub entry: u64,
    pub segments: Vec<UserElfSegment<'a>>,
}

/// What a segment stands for.
#[verifier::ext_equal]
pub ghost struct LoadSegment {
    pub virtual_address: u64,
    pub data: Seq<u8>,
    pub memory_size: u64,
    pub writable: bool,
    pub executable: bool,
}

impl View for UserElfSegment<'_> {
    type V = LoadSegment;

    open spec fn view(&self) -> LoadSegment {
        LoadSegment {
            virtual_address: self.virtual_address,
            data: self.data@,
            memory_size: self.memory_size,
            writable: self.writable,
            executable: self.executable,
        }
    }
}

/// What a list of segments stands for.
pub open spec fn load_segments(segments: Seq<UserElfSegment>) -> Seq<LoadSegment> {
    Seq::new(segments.len(), |i: int| segments[i]@)
}

/// Whether `n` is a power of two.
pub open spec fn power_of_two(n: int) -> bool
    decreases n,
{
    n == 1 || (n > 1 && n % 2 == 0 && power_of_two(n / 2))
}

/// Whether `n` is a power of two.
pub fn is_power_of_two(n: u64) -> (result: bool)
    ensures
        result == power_of_two(n as int),
{
    let mut left: u64 = n;
    while left > 1 && left % 2 == 0
        invariant
            power_of_two(n as int) == power_of_two(left as int),
        decreases left,
    {
        left = left / 2;
    }
    left == 1
}

/// Whether file offset and address agree as far as the alignment asks.
pub open spec fn aligned_alike(file_offset: u64, virtual_address: u64, alignment: u64) -> bool {
    alignment <= 1 || (power_of_two(alignment as int) && file_offset % alignment == virtual_address
        % alignment)
}

/// Whether file offset and address agree as far as the alignment asks.
pub fn valid_alignment(file_offset: u64, virtual_address: u64, alignment: u64) -> (result: bool)
    ensures
        result == aligned_alike(file_offset, virtual_address, alignment),
{
    if alignment <= 1 {
        return true;
    }
    is_power_of_two(alignment) && file_offset % alignment == virtual_address % alignment
}

/// Why the header of an image is refused.
pub open spec fn header_fault(bytes: Seq<u8>) -> Option<UserElfError> {
    if bytes.len() < ELF64_HEADER_BYTES {
        Some(UserElfError::ImageTooSmall)
    } else if bytes.take(4) != ELF_MAGIC@ {
        Some(UserElfError::BadMagic)
    } else if bytes[4] != ELF_CLASS_64 {
        Some(UserElfError::UnsupportedClass)
    } else if bytes[5] != ELF_DATA_LE {
        Some(UserElfError::UnsupportedEndian)
    } else if bytes[6] != ELF_VERSION_CURRENT_U8 || le32(bytes, 20) != ELF_VERSION_CURRENT_U32 {
        Some(UserElfError::UnsupportedVersion)
    } else if le16(bytes, 16) != ET_EXEC {
        Some(UserElfError::UnsupportedType)
    } else if le16(bytes, 18) != EM_X86_64 {
        Some(UserElfError::UnsupportedMachine)
    } else if le16(bytes, 52) != ELF64_HEADER_BYTES {
        Some(UserElfError::ImageTooSmall)
    } else if le16(bytes, 54) != ELF64_PROGRAM_HEADER_BYTES {
        Some(UserElfError::UnsupportedProgramHeaderSize)
    } else if le16(bytes, 56) == 0 || le64(bytes, 32) + le16(bytes, 56) * ELF64_PROGRAM_HEADER_BYTES
        > bytes.len() {
        Some(UserElfError::ProgramHeaderTableOutOfBounds)
    } else {
        None
    }
}

/// Where program header `index` stands.
pub open spec fn program_header(bytes: Seq<u8>, index: int) -> int {
    le64(bytes, 32) + index * ELF64_PROGRAM_HEADER_BYTES
}

/// The flags of the program header at `at`.
pub open spec fn flags_at(bytes: Seq<u8>, at: int) -> u32 {
    le32(bytes, at + 4) as u32
}

/// Why the loadable segment whose program header stands at `at` is refused.
pub open spec fn segment_fault(bytes: Seq<u8>, at: int) -> Option<UserElfError> {
    let file_offset = le64(bytes, at + 8);
    let virtual_address = le64(bytes, at + 16);
    let file_size = le64(bytes, at + 32);
    let memory_size = le64(bytes, at + 40);
    let alignment = le64(bytes, at + 48);
    if flags_at(bytes, at) & 3 == 3 {
        Some(UserElfError::WritableExecutableSegment)
    } else if memory_size == 0 || file_size > memory_size || !aligned_alike(
        file_offset as u64,
        virtual_address as u64,
        alignment as u64,
    ) || file_offset + file_size > bytes.len() {
        Some(UserElfError::InvalidLoadSegment)
    } else if virtual_address + memory_size > u64::MAX {
        Some(UserElfError::AddressOverflow)
    } else {
        None
    }
}

/// The loadable segment whose program header stands at `at`.
pub open spec fn segment_at(bytes: Seq<u8>, at: int) -> LoadSegment {
    let file_offset = le64(bytes, at + 8) as int;
    LoadSegment {
        virtual_address: le64(bytes, at + 16) as u64,
        data: bytes.subrange(file_offset, file_offset + le64(bytes, at + 32)),
        memory_size: le64(bytes, at + 40) as u64,
        writable: flags_at(bytes, at) & PF_W != 0,
        executable: flags_at(bytes, at) & PF_X != 0,
    }
}

/// The loadable segments of the first `n` program headers.
pub open spec fn segments_of(bytes: Seq<u8>, n: nat) -> Result<Seq<LoadSegment>, UserElfError>
    decreases n,
{
    if n == 0 {
        Ok(seq![])
    } else {
        let at = program_header(bytes, n - 1);
        match segments_of(bytes, (n - 1) as nat) {
            Err(error) => Err(error),
            Ok(found) => if le32(bytes, at) != PT_LOAD {
                Ok(found)
            } else if found.len() >= MAX_LOAD_SEGMENTS {
                Err(UserElfError::TooManyLoadSegments)
            } else {
                match segment_fault(bytes, at) {
                    Some(error) => Err(error),
                    None => Ok(found.push(segment_at(bytes, at))),
                }
            },
        }
    }
}

/// Whether the bytes that a segment brings along hold executable code at `entry`.
pub open spec fn holds_entry(segment: LoadSegment, entry: u64) -> bool {
    segment.executable && segment.virtual_address <= entry < segment.virtual_address
        + segment.data.len()
}

/// What is loaded of an image and where it starts, or why it is refused.
pub open spec fn parsed(bytes: Seq<u8>) -> Result<(u64, Seq<LoadSegment>), UserElfError> {
    match header_fault(bytes) {
        Some(error) => Err(error),
        None => match segments_of(bytes, le16(bytes, 56) as nat) {
            Err(error) => Err(error),
            Ok(segments) => {
                let entry = le64(bytes, 24) as u64;
                if segments.len() == 0 {
                    Err(UserElfError::MissingLoadSegment)
                } else if !(exists|i: int|
                    0 <= i < segments.len() && holds_entry(#[trigger] segments[i], entry)) {
                    Err(UserElfError::EntryNotExecutable)
                } else {
                    Ok((entry, segments))
                }
            },
        },
    }
}

/// A refusal stands whatever program headers follow.
proof fn lemma_refused(bytes: Seq<u8>, n: nat, m: nat)
    requires
        n <= m,
        segments_of(bytes, n) is Err,
    ensures
        segments_of(bytes, m) == segments_of(bytes, n),
    decreases m,
{
    if n < m {
        lemma_refused(bytes, n, (m - 1) as nat);
    }
}

/// Why the header of an image is refused.
fn check_header(bytes: &[u8]) -> (fault: Option<UserElfError>)
    ensures
        fault == header_fault(bytes@),
        fault is None ==> le64(bytes@, 32) + le16(bytes@, 56) * ELF64_PROGRAM_HEADER_BYTES
            <= bytes.len(),
{
    if bytes.len() < ELF64_HEADER_BYTES {
        return Some(UserElfError::ImageTooSmall);
    }
    assert(bytes@.take(4) =~= bytes@.subrange(0, 4));
    if !bytes_equal(&bytes[0..4], &ELF_MAGIC) {
        return Some(UserElfError::BadMagic);
    }
    if bytes[4] != ELF_CLASS_64 {
        return Some(UserElfError::UnsupportedClass);
    }
    if bytes[5] != ELF_DATA_LE {
        return Some(UserElfError::UnsupportedEndian);
    }
    if bytes[6] != ELF_VERSION_CURRENT_U8 || get_le_u32(bytes, 20) != ELF_VERSION_CURRENT_U32 {
        return Some(UserElfError::UnsupportedVersion);
    }
    if get_le_u16(bytes, 16) != ET_EXEC {
        return Some(UserElfError::UnsupportedType);
    }
    if get_le_u16(bytes, 18) != EM_X86_64 {
        return Some(UserElfError::UnsupportedMachine);
    }
    if get_le_u16(bytes, 52) as usize != ELF64_HEADER_BYTES {
        return Some(UserElfError::ImageTooSmall);
    }
    if get_le_u16(bytes, 54) as usize != ELF64_PROGRAM_HEADER_BYTES {
        return Some(UserElfError::UnsupportedProgramHeaderSize);
    }
    let count: u64 = get_le_u16(bytes, 56) as u64;
    let table: u64 = get_le_u64(bytes, 32);
    let length: u64 = bytes.len() as u64;
    if count == 0 || count * ELF64_PROGRAM_HEADER_BYTES as u64 > length || table > length - count
        * ELF64_PROGRAM_HEADER_BYTES as u64 {
        return Some(UserElfError::ProgramHeaderTableOutOfBounds);
    }
    None
}

/// The loadable segment whose program header stands at `at`.
fn parse_segment(bytes: &[u8], at: usize) -> (result: Result<UserElfSegment<'_>, UserElfError>)
    requires
        at + ELF64_PROGRAM_HEADER_BYTES <= bytes.len(),
    ensures
        match segment_fault(bytes@, at as int) {
            Some(error) => result == Err::<UserElfSegment, UserElfError>(error),
            None => result matches Ok(segment) && segment@ == segment_at(bytes@, at as int),
        },
{
    let flags: u32 = get_le_u32(bytes, at + 4);
    let file_offset: u64 = get_le_u64(bytes, at + 8);
    let virtual_address: u64 = get_le_u64(bytes, at + 16);
    let file_size: u64 = get_le_u64(bytes, at + 32);
    let memory_size: u64 = get_le_u64(bytes, at + 40);
    let alignment: u64 = get_le_u64(bytes, at + 48);
    if flags & 3 == 3 {
        return Err(UserElfError::WritableExecutableSegment);
    }
    if memory_size == 0 || file_size > memory_size || !valid_alignment(
        file_offset,
        virtual_address,
        alignment,
    ) {
        return Err(UserElfError::InvalidLoadSegment);
    }
    let length: u64 = bytes.len() as u64;
    if file_size > length || file_offset > length - file_size {
        return Err(UserElfError::InvalidLoadSegment);
    }
    if virtual_address.checked_add(memory_size).is_none() {
        return Err(UserElfError::AddressOverflow);
    }
    let start: usize = file_offset as usize;
    let end: usize = (file_offset + file_size) as usize;
    Ok(
        UserElfSegment {
            virtual_address,
            data: &bytes[start..end],
            memory_size,
            writable: flags & PF_W != 0,
            executable: flags & PF_X != 0,
        },
    )
}

/// Reads an image.
pub fn parse(bytes: &[u8]) -> (result: Result<UserElfImage<'_>, UserElfError>)
    ensures
        match parsed(bytes@) {
            Ok((entry, segments)) => result matches Ok(image) && image.entry == entry
                && load_segments(image.segments@) == segments,
            Err(error) => result matches Err(found) && found == error,
        },
{
    match check_header(bytes) {
        Some(error) => return Err(error),
        None => {},
    }
    let entry: u64 = get_le_u64(bytes, 24);
    let table: usize = get_le_u64(bytes, 32) as usize;
    let count: usize = get_le_u16(bytes, 56) as usize;
    let mut segments: Vec<UserElfSegment<'_>> = Vec::new();
    assert(load_segments(segments@) =~= seq![]);
    let mut index: usize = 0;
    while index < count
        invariant
            index <= count,
            count == le16(bytes@, 56),
            table == le64(bytes@, 32),
            table + count * ELF64_PROGRAM_HEADER_BYTES <= bytes.len(),
            header_fault(bytes@) is None,
            segments_of(bytes@, index as nat) == Ok::<Seq<LoadSegment>, UserElfError>(
                load_segments(segments@),
            ),
        decreases count - index,
    {
        proof {
            if segments_of(bytes@, (index + 1) as nat) is Err {
                lemma_refused(bytes@, (index + 1) as nat, count as nat);
            }
        }
        let at: usize = table + index * ELF64_PROGRAM_HEADER_BYTES;
        assert(at == program_header(bytes@, index as int));
        if get_le_u32(bytes, at) == PT_LOAD {
            if segments.len() >= MAX_LOAD_SEGMENTS {
                return Err(UserElfError::TooManyLoadSegments);
            }
            let segment = match parse_segment(bytes, at) {
                Ok(segment) => segment,
                Err(error) => return Err(error),
            };
            let ghost before = segments@;
            segments.push(segment);
            assert(load_segments(segments@) =~= load_segments(before).push(segment@));
        }
        index += 1;
    }
    if segments.len() == 0 {
        return Err(UserElfError::MissingLoadSegment);
    }
    let ghost found = load_segments(segments@);
    let mut at: usize = 0;
    while at < segments.len()
        invariant
            at <= segments.len(),
            found == load_segments(segments@),
            forall|i: int| 0 <= i < at ==> !holds_entry(#[trigger] found[i], entry),
            header_fault(bytes@) is None,
            entry == le64(bytes@, 24),
            segments_of(bytes@, le16(bytes@, 56) as nat) == Ok::<Seq<LoadSegment>, UserElfError>(
                found,
            ),
        decreases segments.len() - at,
    {
        let executable: bool = segments[at].executable;
        let start: u64 = segments[at].virtual_address;
        let length: u64 = segments[at].data.len() as u64;
        assert(found[at as int] == segments@[at as int]@);
        if executable && entry >= start && entry - start < length {
            assert(holds_entry(found[at as int], entry));
            return Ok(UserElfImage { entry, segments });
        }
        at += 1;
    }
    Err(UserElfError::EntryNotExecutable)
}

/// `image` is an executable of one segment, which holds `code` and starts with it.
pub open spec fn flat_executable(image: Seq<u8>, load_base: u64, code: Seq<u8>) -> bool {
    &&& image.len() == DEFAULT_LOAD_OFFSET + code.len()
    &&& image.take(4) == ELF_MAGIC@
    &&& image[4] == ELF_CLASS_64
    &&& image[5] == ELF_DATA_LE
    &&& image[6] == ELF_VERSION_CURRENT_U8
    &&& zero_between(image, 7, 16)
    &&& le16(image, 16) == ET_EXEC
    &&& le16(image, 18) == EM_X86_64
    &&& le32(image, 20) == ELF_VERSION_CURRENT_U32
    &&& le64(image, 24) == load_base
    &&& le64(image, 32) == ELF64_HEADER_BYTES
    &&& zero_between(image, 40, 52)
    &&& le16(image, 52) == ELF64_HEADER_BYTES
    &&& le16(image, 54) == ELF64_PROGRAM_HEADER_BYTES
    &&& le16(image, 56) == 1
    &&& zero_between(image, 58, 64)
    &&& le32(image, 64) == PT_LOAD
    &&& le32(image, 68) == 5
    &&& le64(image, 72) == DEFAULT_LOAD_OFFSET
    &&& le64(image, 80) == load_base
    &&& le64(image, 88) == load_base
    &&& le64(image, 96) == code.len()
    &&& le64(image, 104) == code.len()
    &&& le64(image, 112) == 0x1000
    &&& zero_between(image, 120, DEFAULT_LOAD_OFFSET as int)
    &&& image.skip(DEFAULT_LOAD_OFFSET as int) == code
}

/// Why no flat executable can be built.
pub open spec fn flat_fault(load_base: u64, code: Seq<u8>) -> Option<UserElfError> {
    if code.len() == 0 {
        Some(UserElfError::InvalidLoadSegment)
    } else if load_base + code.len() > u64::MAX || DEFAULT_LOAD_OFFSET + code.len() > usize::MAX {
        Some(UserElfError::AddressOverflow)
    } else {
        None
    }
}

/// Builds an executable of one segment that can be read and executed.
#[verifier::spinoff_prover]
#[verifier::rlimit(40)]
pub fn build_flat_rx_executable(load_base: u64, code: &[u8]) -> (result: Result<Vec<u8>, UserElfError>)
    ensures
        match result {
            Ok(image) => flat_fault(load_base, code@) is None && flat_executable(
                image@,
                load_base,
                code@,
            ),
            Err(error) => flat_fault(load_base, code@) == Some(error),
        },
{
    if code.len() == 0 {
        return Err(UserElfError::InvalidLoadSegment);
    }
    let memory_size: u64 = code.len() as u64;
    if load_base.checked_add(memory_size).is_none() {
        return Err(UserElfError::AddressOverflow);
    }
    let length: usize = match DEFAULT_LOAD_OFFSET.checked_add(code.len()) {
        Some(length) => length,
        None => return Err(UserElfError::AddressOverflow),
    };
    let mut image: Vec<u8> = zeroed(length);
    copy_into(&mut image, 0, &ELF_MAGIC);
    image[4] = ELF_CLASS_64;
    image[5] = ELF_DATA_LE;
    image[6] = ELF_VERSION_CURRENT_U8;
    put_le_u16(&mut image, 16, ET_EXEC);
    put_le_u16(&mut image, 18, EM_X86_64);
    put_le_u32(&mut image, 20, ELF_VERSION_CURRENT_U32);
    put_le_u64(&mut image, 24, load_base);
    put_le_u64(&mut image, 32, ELF64_HEADER_BYTES as u64);
    put_le_u16(&mut image, 52, ELF64_HEADER_BYTES as u16);
    put_le_u16(&mut image, 54, ELF64_PROGRAM_HEADER_BYTES as u16);
    put_le_u16(&mut image, 56, 1);
    let ghost header = image@;
    put_le_u32(&mut image, 64, PT_LOAD);
    put_le_u32(&mut image, 68, 5);
    put_le_u64(&mut image, 72, DEFAULT_LOAD_OFFSET as u64);
    put_le_u64(&mut image, 80, load_base);
    put_le_u64(&mut image, 88, load_base);
    put_le_u64(&mut image, 96, memory_size);
    put_le_u64(&mut image, 104, memory_size);
    put_le_u64(&mut image, 112, 0x1000);
    let ghost headers = image@;
    assert(same_outside(header, headers, 64, 56));
    copy_into(&mut image, DEFAULT_LOAD_OFFSET, code);
    assert(image@.take(4) =~= ELF_MAGIC@);
    assert(image@.skip(DEFAULT_LOAD_OFFSET as int) =~= code@);
    Ok(image)
}

/// What is loaded of a flat executable is its code, at its load address, to be executed and not to
/// be written. The load address is page-aligned, as the program header asks.
pub proof fn a_flat_executable_parses(image: Seq<u8>, load_base: u64, code: Seq<u8>)
    requires
        flat_fault(load_base, code) is None,
        flat_executable(image, load_base, code),
        load_base % 0x1000 == 0,
    ensures
        parsed(image) == Ok::<(u64, Seq<LoadSegment>), UserElfError>(
            (
                load_base,
                seq![
                    LoadSegment {
                        virtual_address: load_base,
                        data: code,
                        memory_size: code.len() as u64,
                        writable: false,
                        executable: true,
                    },
                ],
            ),
        ),
{
    let segment = LoadSegment {
        virtual_address: load_base,
        data: code,
        memory_size: code.len() as u64,
        writable: false,
        executable: true,
    };
    reveal_with_fuel(segments_of, 2);
    reveal_with_fuel(power_of_two, 14);
    assert(5u32 & 3 == 1 && 5u32 & 2 == 0 && 5u32 & 1 == 1) by (bit_vector);
    assert(program_header(image, 0) == 64);
    assert(image.subrange(0x1000, 0x1000 + code.len() as int) =~= code);
    assert(segment_fault(image, 64) is None);
    assert(segment_at(image, 64) =~= segment);
    assert(segments_of(image, 1) == Ok::<Seq<LoadSegment>, UserElfError>(
        Seq::<LoadSegment>::empty().push(segment),
    ));
    assert(Seq::<LoadSegment>::empty().push(segment) =~= seq![segment]);
    assert(holds_entry(seq![segment][0], load_base));
}

/// What the segments of an image that is accepted have in common: none can be both written and
/// executed, each brings no more bytes than it has memory for, and its memory has addresses.
pub open spec fn loadable(segment: LoadSegment) -> bool {
    &&& !(segment.writable && segment.executable)
    &&& segment.memory_size > 0
    &&& segment.data.len() <= segment.memory_size
    &&& segment.virtual_address + segment.memory_size <= u64::MAX
}

/// Every segment that is found can be loaded, and there are not too many of them.
proof fn lemma_segments_are_loadable(bytes: Seq<u8>, n: nat)
    requires
        header_fault(bytes) is None,
        n <= le16(bytes, 56),
    ensures
        segments_of(bytes, n) matches Ok(segments) ==> segments.len() <= MAX_LOAD_SEGMENTS && (
        forall|i: int| 0 <= i < segments.len() ==> loadable(#[trigger] segments[i])),
    decreases n,
{
    if n > 0 {
        lemma_segments_are_loadable(bytes, (n - 1) as nat);
        let at = program_header(bytes, n - 1);
        let flags = flags_at(bytes, at);
        assert(flags & 2 != 0 && flags & 1 != 0 ==> flags & 3 == 3) by (bit_vector);
    }
}

/// An image that is accepted starts in code that its segments hold, and every segment can be
/// loaded: never is one writable and executable.
pub proof fn an_accepted_image_is_loadable(bytes: Seq<u8>)
    ensures
        parsed(bytes) matches Ok((entry, segments)) ==> {
            &&& 0 < segments.len() <= MAX_LOAD_SEGMENTS
            &&& forall|i: int| 0 <= i < segments.len() ==> loadable(#[trigger] segments[i])
            &&& exists|i: int| 0 <= i < segments.len() && holds_entry(#[trigger] segments[i], entry)
        },
{
    if header_fault(bytes) is None {
        lemma_segments_are_loadable(bytes, le16(bytes, 56) as nat);
    }
}

/// The header of an image is sound if and only if it is that of an executable for this machine, with 64
/// bits and the low byte first, and its table of program headers is in the image.
pub proof fn a_sound_header_is_taken(bytes: Seq<u8>)
    ensures
        header_fault(bytes) is None <==> {
            &&& bytes.len() >= 64
            &&& bytes.subrange(0, 7) == seq![0x7fu8, 0x45, 0x4c, 0x46, 2, 1, 1]
            &&& low_first_2(bytes, 16) == 2
            &&& low_first_2(bytes, 18) == 62
            &&& low_first_4(bytes, 20) == 1
            &&& low_first_2(bytes, 52) == 64
            &&& low_first_2(bytes, 54) == 56
            &&& low_first_2(bytes, 56) > 0
            &&& low_first_8(bytes, 32) + low_first_2(bytes, 56) * 56 <= bytes.len()
        },
{
    if bytes.len() >= 64 {
        let magic = seq![0x7fu8, 0x45, 0x4c, 0x46];
        let head = seq![0x7fu8, 0x45, 0x4c, 0x46, 2, 1, 1];
        assert(ELF_MAGIC@ =~= magic);
        let start = bytes.take(4);
        let part = bytes.subrange(0, 7);
        assert(forall|i: int| 0 <= i < 7 ==> part[i] == bytes[i]);
        assert(forall|i: int| 0 <= i < 4 ==> start[i] == bytes[i]);
        if start == magic && bytes[4] == 2 && bytes[5] == 1 && bytes[6] == 1 {
            assert(start[0] == magic[0] && start[1] == magic[1] && start[2] == magic[2] && start[3]
                == magic[3]);
            assert(part =~= head);
        }
        if part == head {
            assert(part[0] == head[0] && part[1] == head[1] && part[2] == head[2] && part[3] == head[3]
                && part[4] == head[4] && part[5] == head[5] && part[6] == head[6]);
            assert(start =~= magic);
        }
    }
}

/// A program header can be loaded if and only if it is not both writable and executable, brings some
/// memory and no more bytes than that, its bytes are in the image, its place in the file and in memory
/// agree on the alignment, and its memory has addresses.
pub proof fn a_sound_segment_is_taken(bytes: Seq<u8>, at: int)
    requires
        0 <= at,
        at + 56 <= bytes.len(),
    ensures
        ({
            let flags = low_first_4(bytes, at + 4) as u32;
            let offset = low_first_8(bytes, at + 8);
            let address = low_first_8(bytes, at + 16);
            let size = low_first_8(bytes, at + 32);
            let memory = low_first_8(bytes, at + 40);
            let alignment = low_first_8(bytes, at + 48);
            &&& segment_fault(bytes, at) is None <==> {
                &&& !(flags & 1 != 0 && flags & 2 != 0)
                &&& 0 < memory && size <= memory
                &&& offset + size <= bytes.len()
                &&& alignment > 1 ==> power_of_two(alignment) && offset % alignment == address
                    % alignment
                &&& address + memory <= u64::MAX
            }
            &&& segment_fault(bytes, at) is None ==> segment_at(bytes, at) == (LoadSegment {
                virtual_address: address as u64,
                data: bytes.subrange(offset, offset + size),
                memory_size: memory as u64,
                writable: flags & 2 != 0,
                executable: flags & 1 != 0,
            })
        }),
{
    let flags = flags_at(bytes, at);
    assert(flags & 3 == 3 <==> flags & 1 != 0 && flags & 2 != 0) by (bit_vector);
}

/// A power of two is one, or the double of one.
pub proof fn powers_of_two_double(n: int)
    ensures
        power_of_two(1),
        n > 0 ==> (power_of_two(2 * n) <==> power_of_two(n)),
        n > 0 ==> !power_of_two(2 * n + 1),
        n <= 0 ==> !power_of_two(n),
{
    assert((2 * n) / 2 == n);
}

/// Every program header that asks to be loaded is among the segments, in order and as it says, and the
/// image starts where its header says.
pub proof fn every_load_segment_is_found(bytes: Seq<u8>, index: int)
    requires
        parsed(bytes) is Ok,
        0 <= index < low_first_2(bytes, 56),
        low_first_4(bytes, low_first_8(bytes, 32) + index * 56) == 1,
    ensures
        parsed(bytes).unwrap().0 == low_first_8(bytes, 24),
        parsed(bytes).unwrap().1.contains(segment_at(bytes, low_first_8(bytes, 32) + index * 56)),
        segment_fault(bytes, low_first_8(bytes, 32) + index * 56) is None,
{
    lemma_segment_is_found(bytes, le16(bytes, 56) as nat, index);
}

proof fn lemma_segment_is_found(bytes: Seq<u8>, n: nat, index: int)
    requires
        segments_of(bytes, n) is Ok,
        0 <= index < n,
        le32(bytes, program_header(bytes, index)) == 1,
    ensures
        segments_of(bytes, n).unwrap().contains(segment_at(bytes, program_header(bytes, index))),
        segment_fault(bytes, program_header(bytes, index)) is None,
    decreases n,
{
    let before = segments_of(bytes, (n - 1) as nat).unwrap();
    let found = segments_of(bytes, n).unwrap();
    let wanted = segment_at(bytes, program_header(bytes, index));
    if index < n - 1 {
        lemma_segment_is_found(bytes, (n - 1) as nat, index);
        let k = choose|k: int| 0 <= k < before.len() && before[k] == wanted;
        assert(found[k] == wanted);
    } else {
        assert(found.last() == wanted);
    }
}

/// An image with a sound header and no more than sixteen program headers, of which every one that asks to
/// be loaded is sound and one that may be executed holds the start, is accepted.
pub proof fn a_sound_image_is_accepted(bytes: Seq<u8>, start: int)
    requires
        header_fault(bytes) is None,
        low_first_2(bytes, 56) <= 16,
        forall|i: int|
            0 <= i < low_first_2(bytes, 56) && le32(bytes, #[trigger] program_header(bytes, i)) == 1
                ==> segment_fault(bytes, program_header(bytes, i)) is None,
        0 <= start < low_first_2(bytes, 56),
        le32(bytes, program_header(bytes, start)) == 1,
        ({
            let segment = segment_at(bytes, program_header(bytes, start));
            segment.executable && segment.virtual_address <= low_first_8(bytes, 24)
                < segment.virtual_address + segment.data.len()
        }),
    ensures
        parsed(bytes) is Ok,
{
    let n = le16(bytes, 56) as nat;
    lemma_sound_segments(bytes, n);
    lemma_segment_is_found(bytes, n, start);
    let segments = segments_of(bytes, n).unwrap();
    let wanted = segment_at(bytes, program_header(bytes, start));
    let k = choose|k: int| 0 <= k < segments.len() && segments[k] == wanted;
    assert(holds_entry(segments[k], le64(bytes, 24) as u64));
}

proof fn lemma_sound_segments(bytes: Seq<u8>, n: nat)
    requires
        n <= 16,
        forall|i: int|
            0 <= i < n && le32(bytes, #[trigger] program_header(bytes, i)) == 1 ==> segment_fault(
                bytes,
                program_header(bytes, i),
            ) is None,
    ensures
        segments_of(bytes, n) is Ok,
        segments_of(bytes, n).unwrap().len() <= n,
    decreases n,
{
    if n > 0 {
        lemma_sound_segments(bytes, (n - 1) as nat);
        let _ = program_header(bytes, n - 1);
    }
}

} // verus!
