//! The record: one snapshot of the tree in bytes.

use vstd::prelude::*;
use vstd::utf8::{encode_utf8, valid_utf8};
use crate::block::SECTOR_SIZE;
use crate::bytes::{
    append, bytes_equal, copy_into, copy_range, get_le_u16, get_le_u32, get_le_u64, le16, le16_bytes,
    le32, le32_bytes, le64, lemma_numbers_agree, push_le_u16, push_le_u32, put_le_u32, put_le_u64,
    zero_between,
};
use crate::checksum::{
    checksum_without, crc32, crc32_detects_a_changed_byte, crc32_of, lemma_checksum_notices,
    without_checksum,
};
use crate::fs::entry::{
    distinct_names, find, lemma_position, position_of, tree, Entry, EntryKind, FileEntry, FsError,
    DEFAULT_FILE_PERMISSIONS, MAX_FILES,
};
use crate::fs::path::{is_valid_path, valid_path};
use crate::fs::tree::{
    entry_fault, lemma_push_keeps, lemma_strict_is_stricter, lemma_tree_fault, tree_fault, valid_names, valid_permissions,
    validate_tree,
};

verus! {

/// `"CDXREC1\0"`.
pub const RECORD_MAGIC: [u8; 8] = [0x43, 0x44, 0x58, 0x52, 0x45, 0x43, 0x31, 0x00];

pub const FORMAT_VERSION: u32 = 3;

pub const MIN_FORMAT_VERSION: u32 = 1;

/// The sectors of the smallest record.
pub const RECORD_SECTORS: u32 = 64;

pub const RECORD_BYTES: usize = 32768;

/// The sectors of the largest record.
pub const MAX_RECORD_SECTORS: u32 = 8192;

pub const MAX_RECORD_BYTES: usize = 4194304;

pub const RECORD_HEADER_BYTES: usize = 64;

pub const LEGACY_RECORD_ENTRY_BYTES: usize = 8;

pub const RECORD_ENTRY_BYTES: usize = 12;

pub const RECORD_HEADER_CRC_OFFSET: usize = 36;

pub const ENTRY_KIND_FILE: u16 = 1;

pub const ENTRY_KIND_DIRECTORY: u16 = 2;

/// The number that stands for a kind.
pub open spec fn kind_code(kind: EntryKind) -> u16 {
    match kind {
        EntryKind::File => ENTRY_KIND_FILE,
        EntryKind::Directory => ENTRY_KIND_DIRECTORY,
    }
}

/// The bytes of one entry.
pub open spec fn entry_bytes(e: Entry) -> Seq<u8> {
    le16_bytes(e.name.len() as int) + le16_bytes(kind_code(e.kind) as int) + le32_bytes(
        e.data.len() as int,
    ) + le16_bytes(e.permissions as int) + le16_bytes(0) + e.name + e.data
}

/// The bytes of the entries, one behind the other.
pub open spec fn payload_of(t: Seq<Entry>) -> Seq<u8>
    decreases t.len(),
{
    if t.len() == 0 {
        Seq::empty()
    } else {
        entry_bytes(t[0]) + payload_of(t.skip(1))
    }
}

/// How many bytes the entries take.
pub open spec fn payload_length(t: Seq<Entry>) -> nat
    decreases t.len(),
{
    if t.len() == 0 {
        0
    } else {
        payload_length(t.drop_last()) + RECORD_ENTRY_BYTES as nat + t.last().name.len()
            + t.last().data.len()
    }
}

/// The bytes of the record that holds `t`: whole sectors, and never fewer than the smallest record.
pub open spec fn record_size(t: Seq<Entry>) -> int {
    let needed = (RECORD_HEADER_BYTES + payload_length(t) + 511) / 512 * 512;
    if needed < RECORD_BYTES {
        RECORD_BYTES as int
    } else {
        needed
    }
}

/// Why `t` has no record.
pub open spec fn record_fault(t: Seq<Entry>) -> Option<FsError> {
    if t.len() > MAX_FILES {
        Some(FsError::TooManyFiles)
    } else if tree_fault(t, true) is Some {
        tree_fault(t, true)
    } else if RECORD_HEADER_BYTES + payload_length(t) + 511 > usize::MAX {
        Some(FsError::ArithmeticOverflow)
    } else if record_size(t) > MAX_RECORD_BYTES {
        Some(FsError::SnapshotTooLarge)
    } else {
        None
    }
}

/// `header` announces `payload`.
pub open spec fn header_of(header: Seq<u8>, generation: u64, count: int, payload: Seq<u8>) -> bool {
    &&& header.len() == RECORD_HEADER_BYTES
    &&& header.subrange(0, 8) == RECORD_MAGIC@
    &&& le32(header, 8) == FORMAT_VERSION
    &&& le32(header, 12) == RECORD_HEADER_BYTES
    &&& le64(header, 16) == generation
    &&& le32(header, 24) == count
    &&& le32(header, 28) == payload.len()
    &&& le32(header, 32) == crc32_of(payload)
    &&& le32(header, 36) == crc32_of(without_checksum(header, 36))
    &&& zero_between(header, 40, 64)
}

/// `record` is the record of `t` in this generation.
pub open spec fn record_of(record: Seq<u8>, generation: u64, t: Seq<Entry>) -> bool {
    let end = RECORD_HEADER_BYTES + payload_of(t).len();
    &&& record.len() == record_size(t)
    &&& end <= record.len()
    &&& header_of(record.take(64), generation, t.len() as int, payload_of(t))
    &&& record.subrange(64, end) == payload_of(t)
    &&& zero_between(record, end, record.len() as int)
}

/// The header of one entry, in bytes.
pub open spec fn entry_header_length(version: int) -> int {
    if version == 1 {
        LEGACY_RECORD_ENTRY_BYTES as int
    } else {
        RECORD_ENTRY_BYTES as int
    }
}

/// The kind that a number stands for.
pub open spec fn kind_of(code: int) -> Option<EntryKind> {
    if code == ENTRY_KIND_FILE {
        Some(EntryKind::File)
    } else if code == ENTRY_KIND_DIRECTORY {
        Some(EntryKind::Directory)
    } else {
        None
    }
}

/// The entry at `cursor`, and where the next one starts; `seen` are the entries before it.
pub open spec fn read_entry(
    record: Seq<u8>,
    version: int,
    cursor: int,
    end: int,
    seen: Seq<Entry>,
) -> Result<(Entry, int), FsError> {
    let name_start = cursor + entry_header_length(version);
    let name_end = name_start + le16(record, cursor);
    let data_end = name_end + le32(record, cursor + 4);
    let kind = if version == 1 {
        EntryKind::File
    } else {
        kind_of(le16(record, cursor + 2)).unwrap()
    };
    let permissions = if version == 1 {
        DEFAULT_FILE_PERMISSIONS
    } else {
        le16(record, cursor + 8) as u16
    };
    let name = record.subrange(name_start, name_end);
    if name_start > end {
        Err(FsError::CorruptRecord)
    } else if version == 1 && le16(record, cursor + 2) != 0 {
        Err(FsError::CorruptRecord)
    } else if version != 1 && (kind_of(le16(record, cursor + 2)) is None || le16(
        record,
        cursor + 10,
    ) != 0) {
        Err(FsError::CorruptRecord)
    } else if !valid_permissions(permissions) {
        Err(FsError::InvalidPermissions)
    } else if data_end > end {
        Err(FsError::CorruptRecord)
    } else if !valid_utf8(name) {
        Err(FsError::InvalidUtf8)
    } else if !valid_path(name) {
        Err(FsError::InvalidPath)
    } else if kind == EntryKind::Directory && data_end != name_end {
        Err(FsError::CorruptRecord)
    } else if position_of(seen, name) is Some {
        Err(FsError::CorruptRecord)
    } else {
        Ok((Entry { name, data: record.subrange(name_end, data_end), kind, permissions }, data_end))
    }
}

/// `seen` and the `count` entries from `cursor` on, which must end exactly at `end`.
pub open spec fn read_entries(
    record: Seq<u8>,
    version: int,
    cursor: int,
    end: int,
    count: nat,
    seen: Seq<Entry>,
) -> Result<Seq<Entry>, FsError>
    decreases count,
{
    if count == 0 {
        if cursor != end {
            Err(FsError::CorruptRecord)
        } else {
            Ok(seen)
        }
    } else {
        match read_entry(record, version, cursor, end, seen) {
            Err(error) => Err(error),
            Ok((entry, next)) => read_entries(
                record,
                version,
                next,
                end,
                (count - 1) as nat,
                seen.push(entry),
            ),
        }
    }
}

/// Whether the header of `record` is sound and its payload is what the header announces.
pub open spec fn sound_header(record: Seq<u8>, generation: u64) -> bool {
    &&& record.len() >= RECORD_HEADER_BYTES
    &&& record.subrange(0, 8) == RECORD_MAGIC@
    &&& MIN_FORMAT_VERSION <= le32(record, 8) <= FORMAT_VERSION
    &&& le32(record, 12) == RECORD_HEADER_BYTES
    &&& le64(record, 16) == generation
    &&& le32(record, 36) == crc32_of(without_checksum(record.take(64), 36))
    &&& le32(record, 24) <= MAX_FILES
    &&& RECORD_HEADER_BYTES + le32(record, 28) <= record.len()
    &&& le32(record, 32) == crc32_of(record.subrange(64, 64 + le32(record, 28)))
}

/// The tree that `record` holds, or why it holds none.
#[verifier::opaque]
pub open spec fn decoded(record: Seq<u8>, generation: u64) -> Result<Seq<Entry>, FsError> {
    if !sound_header(record, generation) {
        Err(FsError::CorruptRecord)
    } else {
        match read_entries(
            record,
            le32(record, 8),
            64,
            64 + le32(record, 28),
            le32(record, 24) as nat,
            Seq::empty(),
        ) {
            Err(error) => Err(error),
            Ok(t) => match tree_fault(t, le32(record, 8) != 1) {
                Some(error) => Err(error),
                None => Ok(t),
            },
        }
    }
}

/// The text that `bytes` hold, by `core::str::from_utf8`: there is one exactly where the bytes are
/// valid UTF-8, and its bytes are the ones given.
#[verifier::external_body]
pub(crate) fn text_of(bytes: &[u8]) -> (text: Option<&str>)
    ensures
        text is Some <==> valid_utf8(bytes@),
        text is Some ==> encode_utf8(text.unwrap()@) == bytes@,
{
    match core::str::from_utf8(bytes) {
        Ok(text) => Some(text),
        Err(_) => None,
    }
}

pub proof fn lemma_payload_length(t: Seq<Entry>)
    ensures
        payload_of(t).len() == payload_length(t),
    decreases t.len(),
{
    if t.len() != 0 {
        lemma_payload_append(t.drop_last(), t.last());
        assert(t =~= t.drop_last().push(t.last()));
        lemma_payload_length(t.drop_last());
    }
}

proof fn lemma_payload_append(t: Seq<Entry>, e: Entry)
    ensures
        payload_of(t.push(e)) == payload_of(t) + entry_bytes(e),
    decreases t.len(),
{
    if t.len() == 0 {
        assert(t.push(e).skip(1) =~= t);
        assert(payload_of(t) =~= Seq::<u8>::empty());
        assert(payload_of(t.push(e)) =~= payload_of(t) + entry_bytes(e));
    } else {
        assert(t.push(e).skip(1) =~= t.skip(1).push(e));
        lemma_payload_append(t.skip(1), e);
        assert(payload_of(t.push(e)) =~= payload_of(t) + entry_bytes(e));
    }
}

proof fn lemma_payload_length_monotone(t: Seq<Entry>, i: int)
    requires
        0 <= i <= t.len(),
    ensures
        payload_length(t.take(i)) <= payload_length(t),
    decreases t.len() - i,
{
    if i < t.len() {
        assert(t.take(i + 1).drop_last() =~= t.take(i));
        lemma_payload_length_monotone(t, i + 1);
    } else {
        assert(t.take(i) =~= t);
    }
}

/// How many bytes the header and the entries take, if that fits a `usize`.
pub fn required_record_bytes(files: &[FileEntry]) -> (result: Result<usize, FsError>)
    ensures
        match result {
            Ok(bytes) => bytes == RECORD_HEADER_BYTES + payload_length(tree(files@)),
            Err(error) => error == FsError::ArithmeticOverflow && RECORD_HEADER_BYTES
                + payload_length(tree(files@)) > usize::MAX,
        },
{
    let ghost t = tree(files@);
    let mut bytes: usize = RECORD_HEADER_BYTES;
    let mut i: usize = 0;
    assert(t.take(0) =~= Seq::<Entry>::empty());
    while i < files.len()
        invariant
            i <= files@.len(),
            t == tree(files@),
            bytes == RECORD_HEADER_BYTES + payload_length(t.take(i as int)),
        decreases files@.len() - i,
    {
        let name_length: usize = files[i].path_bytes().len();
        let data_length: usize = files[i].data.len();
        proof {
            assert(t.take(i + 1).drop_last() =~= t.take(i as int));
            assert(t.take(i + 1).last() == files@[i as int]@);
            lemma_payload_length_monotone(t, i + 1);
        }
        let with_header: usize = match bytes.checked_add(RECORD_ENTRY_BYTES) {
            Some(sum) => sum,
            None => return Err(FsError::ArithmeticOverflow),
        };
        let with_name: usize = match with_header.checked_add(name_length) {
            Some(sum) => sum,
            None => return Err(FsError::ArithmeticOverflow),
        };
        bytes = match with_name.checked_add(data_length) {
            Some(sum) => sum,
            None => return Err(FsError::ArithmeticOverflow),
        };
        i += 1;
    }
    assert(t.take(i as int) =~= t);
    Ok(bytes)
}

/// `value` rounded up to a multiple of `alignment`, if that fits a `usize`.
pub fn align_up_usize(value: usize, alignment: usize) -> (result: Result<usize, FsError>)
    requires
        alignment > 0,
    ensures
        match result {
            Ok(aligned) => value + alignment - 1 <= usize::MAX && aligned == (value + alignment - 1)
                / (alignment as int) * alignment,
            Err(error) => error == FsError::ArithmeticOverflow && value + alignment - 1
                > usize::MAX,
        },
{
    match value.checked_add(alignment - 1) {
        Some(sum) => {
            let remainder: usize = sum % alignment;
            proof {
                vstd::arithmetic::div_mod::lemma_fundamental_div_mod(sum as int, alignment as int);
                vstd::arithmetic::mul::lemma_mul_is_commutative(
                    alignment as int,
                    sum as int / alignment as int,
                );
            }
            Ok(sum - remainder)
        },
        None => Err(FsError::ArithmeticOverflow),
    }
}

/// Appends the bytes of one entry.
fn append_entry(payload: &mut Vec<u8>, file: &FileEntry)
    requires
        file@.name.len() <= u16::MAX,
        file@.data.len() <= u32::MAX,
    ensures
        final(payload)@ == old(payload)@ + entry_bytes(file@),
{
    let ghost start = payload@;
    let name = file.path_bytes();
    push_le_u16(payload, name.len() as u16);
    push_le_u16(payload, encode_kind(file.kind));
    push_le_u32(payload, file.data.len() as u32);
    push_le_u16(payload, file.permissions);
    push_le_u16(payload, 0);
    append(payload, name);
    append(payload, &file.data);
    assert(payload@ =~= start + entry_bytes(file@));
}

/// The number that stands for a kind.
pub fn encode_kind(kind: EntryKind) -> (code: u16)
    ensures
        code == kind_code(kind),
{
    match kind {
        EntryKind::File => ENTRY_KIND_FILE,
        EntryKind::Directory => ENTRY_KIND_DIRECTORY,
    }
}

/// The kind that a number stands for.
pub fn decode_kind(raw: u16) -> (kind: Result<EntryKind, FsError>)
    ensures
        match kind {
            Ok(kind) => kind_of(raw as int) == Some(kind),
            Err(error) => kind_of(raw as int) is None && error == FsError::CorruptRecord,
        },
{
    match raw {
        ENTRY_KIND_FILE => Ok(EntryKind::File),
        ENTRY_KIND_DIRECTORY => Ok(EntryKind::Directory),
        _ => Err(FsError::CorruptRecord),
    }
}

/// The header that announces `payload`.
fn build_header(generation: u64, count: u32, payload: &[u8]) -> (header: [u8; RECORD_HEADER_BYTES])
    requires
        payload@.len() <= u32::MAX,
    ensures
        header_of(header@, generation, count as int, payload@),
{
    let mut header: [u8; RECORD_HEADER_BYTES] = [0u8; RECORD_HEADER_BYTES];
    copy_into(&mut header, 0, &RECORD_MAGIC);
    put_le_u32(&mut header, 8, FORMAT_VERSION);
    put_le_u32(&mut header, 12, RECORD_HEADER_BYTES as u32);
    put_le_u64(&mut header, 16, generation);
    put_le_u32(&mut header, 24, count);
    put_le_u32(&mut header, 28, payload.len() as u32);
    put_le_u32(&mut header, 32, crc32(payload));
    let ghost plain = header@;
    let checksum: u32 = crc32(&header);
    put_le_u32(&mut header, RECORD_HEADER_CRC_OFFSET, checksum);
    assert(without_checksum(header@, 36) =~= plain);
    assert(header@.subrange(0, 8) =~= RECORD_MAGIC@);
    header
}

/// The record of the tree `files` in this generation.
pub fn encode_record(generation: u64, files: &[FileEntry]) -> (result: Result<Vec<u8>, FsError>)
    ensures
        match result {
            Ok(record) => record_fault(tree(files@)) is None && record_of(
                record@,
                generation,
                tree(files@),
            ),
            Err(error) => record_fault(tree(files@)) == Some(error),
        },
{
    let ghost t = tree(files@);
    if files.len() > MAX_FILES {
        return Err(FsError::TooManyFiles);
    }
    match validate_tree(files, true) {
        Ok(_) => {},
        Err(error) => return Err(error),
    }
    let required: usize = match required_record_bytes(files) {
        Ok(bytes) => bytes,
        Err(error) => return Err(error),
    };
    let aligned: usize = match align_up_usize(required, SECTOR_SIZE) {
        Ok(bytes) => bytes,
        Err(error) => return Err(error),
    };
    let record_bytes: usize = if aligned < RECORD_BYTES {
        RECORD_BYTES
    } else {
        aligned
    };
    if record_bytes > MAX_RECORD_BYTES {
        return Err(FsError::SnapshotTooLarge);
    }
    proof {
        lemma_tree_fault(t, true, 0);
    }
    let mut payload: Vec<u8> = Vec::new();
    let mut i: usize = 0;
    assert(t.take(0) =~= Seq::<Entry>::empty());
    assert(payload@ =~= payload_of(t.take(0)));
    while i < files.len()
        invariant
            i <= files@.len(),
            t == tree(files@),
            64 + payload_length(t) <= MAX_RECORD_BYTES,
            forall|j: int| 0 <= j < t.len() ==> entry_fault(t, #[trigger] t[j], true) is None,
            payload@ == payload_of(t.take(i as int)),
        decreases files@.len() - i,
    {
        proof {
            assert(t[i as int] == files@[i as int]@);
            assert(t.take(i + 1) =~= t.take(i as int).push(t[i as int]));
            assert(t.take(i + 1).drop_last() =~= t.take(i as int));
            lemma_payload_append(t.take(i as int), t[i as int]);
            lemma_payload_length_monotone(t, i + 1);
        }
        append_entry(&mut payload, &files[i]);
        i += 1;
    }
    proof {
        assert(t.take(i as int) =~= t);
        lemma_payload_length(t);
    }
    let header = build_header(generation, files.len() as u32, &payload);
    let mut record: Vec<u8> = Vec::new();
    append(&mut record, &header);
    append(&mut record, &payload);
    let ghost filled = record@;
    let zeros: Vec<u8> = crate::bytes::zeroed(record_bytes - record.len());
    append(&mut record, &zeros);
    proof {
        assert(record@.take(64) =~= header@);
        assert(record@.subrange(64, 64int + payload@.len()) =~= payload@);
    }
    Ok(record)
}

/// Reads the entry at `cursor`; `seen` are the entries before it.
fn decode_entry(record: &[u8], version: u32, cursor: usize, end: usize, seen: &[FileEntry]) -> (result:
    Result<(FileEntry, usize), FsError>)
    requires
        cursor <= end <= record.len(),
    ensures
        match result {
            Ok((entry, next)) => read_entry(
                record@,
                version as int,
                cursor as int,
                end as int,
                tree(seen@),
            ) == Ok::<(Entry, int), FsError>((entry@, next as int)) && cursor <= next <= end,
            Err(error) => read_entry(
                record@,
                version as int,
                cursor as int,
                end as int,
                tree(seen@),
            ) == Err::<(Entry, int), FsError>(error),
        },
{
    let header_length: usize = if version == 1 {
        LEGACY_RECORD_ENTRY_BYTES
    } else {
        RECORD_ENTRY_BYTES
    };
    if end - cursor < header_length {
        return Err(FsError::CorruptRecord);
    }
    let name_length: usize = get_le_u16(record, cursor) as usize;
    let flags: u16 = get_le_u16(record, cursor + 2);
    let data_length: usize = get_le_u32(record, cursor + 4) as usize;
    let kind: EntryKind;
    let permissions: u16;
    if version == 1 {
        if flags != 0 {
            return Err(FsError::CorruptRecord);
        }
        kind = EntryKind::File;
        permissions = DEFAULT_FILE_PERMISSIONS;
    } else {
        kind = match decode_kind(flags) {
            Ok(kind) => kind,
            Err(error) => return Err(error),
        };
        permissions = get_le_u16(record, cursor + 8);
        if get_le_u16(record, cursor + 10) != 0 {
            return Err(FsError::CorruptRecord);
        }
        if permissions > 0o777 {
            return Err(FsError::InvalidPermissions);
        }
    }
    let name_start: usize = cursor + header_length;
    if end - name_start < name_length {
        return Err(FsError::CorruptRecord);
    }
    let name_end: usize = name_start + name_length;
    if end - name_end < data_length {
        return Err(FsError::CorruptRecord);
    }
    let data_end: usize = name_end + data_length;
    let name_bytes = &record[name_start..name_end];
    let name = match text_of(name_bytes) {
        Some(name) => name,
        None => return Err(FsError::InvalidUtf8),
    };
    if !is_valid_path(name_bytes) {
        return Err(FsError::InvalidPath);
    }
    if kind == EntryKind::Directory && data_length != 0 {
        return Err(FsError::CorruptRecord);
    }
    if find(seen, name_bytes).is_some() {
        return Err(FsError::CorruptRecord);
    }
    let entry = FileEntry {
        name: name.to_owned(),
        data: copy_range(record, name_end, data_end),
        kind,
        permissions,
    };
    Ok((entry, data_end))
}

/// The tree that `record` holds.
pub fn decode_record(record: &[u8], expected_generation: u64) -> (result: Result<
    Vec<FileEntry>,
    FsError,
>)
    ensures
        match result {
            Ok(files) => decoded(record@, expected_generation) == Ok::<Seq<Entry>, FsError>(
                tree(files@),
            ),
            Err(error) => decoded(record@, expected_generation) == Err::<Seq<Entry>, FsError>(
                error,
            ),
        },
{
    reveal(decoded);
    if record.len() < RECORD_HEADER_BYTES {
        return Err(FsError::CorruptRecord);
    }
    let version: u32 = get_le_u32(record, 8);
    if !bytes_equal(&record[0..8], &RECORD_MAGIC) || version < MIN_FORMAT_VERSION || version
        > FORMAT_VERSION || get_le_u32(record, 12) as usize != RECORD_HEADER_BYTES || get_le_u64(
        record,
        16,
    ) != expected_generation {
        return Err(FsError::CorruptRecord);
    }
    let header = &record[0..RECORD_HEADER_BYTES];
    assert(header@ =~= record@.take(64));
    if checksum_without(header, RECORD_HEADER_CRC_OFFSET) != get_le_u32(
        record,
        RECORD_HEADER_CRC_OFFSET,
    ) {
        return Err(FsError::CorruptRecord);
    }
    let entry_count: usize = get_le_u32(record, 24) as usize;
    let payload_bytes: usize = get_le_u32(record, 28) as usize;
    if entry_count > MAX_FILES {
        return Err(FsError::CorruptRecord);
    }
    if record.len() - RECORD_HEADER_BYTES < payload_bytes {
        return Err(FsError::CorruptRecord);
    }
    let payload_end: usize = RECORD_HEADER_BYTES + payload_bytes;
    if crc32(&record[RECORD_HEADER_BYTES..payload_end]) != get_le_u32(record, 32) {
        return Err(FsError::CorruptRecord);
    }
    let mut files: Vec<FileEntry> = Vec::new();
    let mut cursor: usize = RECORD_HEADER_BYTES;
    let mut index: usize = 0;
    assert(tree(files@) =~= Seq::<Entry>::empty());
    let ghost whole = read_entries(
        record@,
        version as int,
        64,
        payload_end as int,
        entry_count as nat,
        Seq::empty(),
    );
    assert(sound_header(record@, expected_generation));
    while index < entry_count
        invariant
            index <= entry_count,
            cursor <= payload_end <= record.len(),
            sound_header(record@, expected_generation),
            version == le32(record@, 8),
            entry_count == le32(record@, 24),
            payload_end == 64 + le32(record@, 28),
            whole == read_entries(
                record@,
                version as int,
                64,
                payload_end as int,
                entry_count as nat,
                Seq::empty(),
            ),
            whole == read_entries(
                record@,
                version as int,
                cursor as int,
                payload_end as int,
                (entry_count - index) as nat,
                tree(files@),
            ),
        decreases entry_count - index,
    {
        reveal(decoded);
        match decode_entry(record, version, cursor, payload_end, &files) {
            Err(error) => return Err(error),
            Ok((entry, next)) => {
                assert(tree(files@.push(entry)) =~= tree(files@).push(entry@));
                files.push(entry);
                cursor = next;
            },
        }
        index += 1;
    }
    if cursor != payload_end {
        return Err(FsError::CorruptRecord);
    }
    match validate_tree(&files, version != 1) {
        Ok(_) => Ok(files),
        Err(error) => Err(error),
    }
}

proof fn lemma_le_bytes(value: int)
    ensures
        0 <= value < 0x1_0000 ==> le16(le16_bytes(value), 0) == value,
        0 <= value < 0x1_0000_0000 ==> le32(le32_bytes(value), 0) == value,
{
    if 0 <= value < 0x1_0000_0000 {
        let low = le16_bytes(value % 0x1_0000);
        let high = le16_bytes(value / 0x1_0000);
        let both = le32_bytes(value);
        assert(both[0] == low[0] && both[1] == low[1] && both[2] == high[0] && both[3] == high[1]);
    }
}

/// A freshly written entry is read back as it was.
proof fn lemma_entry_read_back(record: Seq<u8>, cursor: int, end: int, e: Entry, t: Seq<Entry>, seen: Seq<Entry>)
    requires
        0 <= cursor,
        cursor + entry_bytes(e).len() <= end <= record.len(),
        record.subrange(cursor, cursor + entry_bytes(e).len()) == entry_bytes(e),
        valid_utf8(e.name),
        e.data.len() <= u32::MAX,
        entry_fault(t, e, true) is None,
        position_of(seen, e.name) is None,
    ensures
        read_entry(record, FORMAT_VERSION as int, cursor, end, seen) == Ok::<(Entry, int), FsError>(
            (e, cursor + entry_bytes(e).len()),
        ),
{
    let bytes = entry_bytes(e);
    let n = e.name.len() as int;
    let d = e.data.len() as int;
    assert(bytes.len() == 12 + n + d);
    assert forall|i: int| 0 <= i < bytes.len() implies record[cursor + i] == bytes[i] by {
        assert(record.subrange(cursor, cursor + bytes.len())[i] == record[cursor + i]);
    }
    lemma_le_bytes(n);
    lemma_le_bytes(kind_code(e.kind) as int);
    lemma_le_bytes(d);
    lemma_le_bytes(e.permissions as int);
    lemma_le_bytes(0);
    let b0 = le16_bytes(n);
    let b2 = le16_bytes(kind_code(e.kind) as int);
    let b4 = le32_bytes(d);
    let b8 = le16_bytes(e.permissions as int);
    let b10 = le16_bytes(0);
    assert(bytes[0] == b0[0] && bytes[1] == b0[1]);
    assert(bytes[2] == b2[0] && bytes[3] == b2[1]);
    assert(bytes[4] == b4[0] && bytes[5] == b4[1] && bytes[6] == b4[2] && bytes[7] == b4[3]);
    assert(bytes[8] == b8[0] && bytes[9] == b8[1]);
    assert(bytes[10] == b10[0] && bytes[11] == b10[1]);
    assert(record[cursor] == bytes[0] && record[cursor + 1] == bytes[1]);
    assert(record[cursor + 2] == bytes[2] && record[cursor + 3] == bytes[3]);
    assert(record[cursor + 4] == bytes[4] && record[cursor + 5] == bytes[5]);
    assert(record[cursor + 6] == bytes[6] && record[cursor + 7] == bytes[7]);
    assert(record[cursor + 8] == bytes[8] && record[cursor + 9] == bytes[9]);
    assert(record[cursor + 10] == bytes[10] && record[cursor + 11] == bytes[11]);
    assert(le16(record, cursor) == n);
    assert(le16(record, cursor + 2) == kind_code(e.kind));
    assert(le32(record, cursor + 4) == d);
    assert(le16(record, cursor + 8) == e.permissions);
    assert(le16(record, cursor + 10) == 0);
    assert(record.subrange(cursor + 12, cursor + 12 + n) =~= e.name) by {
        assert forall|i: int| 0 <= i < n implies record[cursor + 12 + i] == e.name[i] by {
            assert(record[cursor + (12 + i)] == bytes[12 + i]);
        }
    }
    assert(record.subrange(cursor + 12 + n, cursor + 12 + n + d) =~= e.data) by {
        assert forall|i: int| 0 <= i < d implies record[cursor + 12 + n + i] == e.data[i] by {
            assert(record[cursor + (12 + n + i)] == bytes[12 + n + i]);
        }
    }
}

/// Entries that were written one behind the other are read back one after the other.
proof fn lemma_entries_read_back(
    record: Seq<u8>,
    cursor: int,
    end: int,
    rest: Seq<Entry>,
    t: Seq<Entry>,
    seen: Seq<Entry>,
)
    requires
        0 <= cursor <= end <= record.len(),
        record.subrange(cursor, end) == payload_of(rest),
        end - cursor <= u32::MAX,
        seen + rest == t,
        distinct_names(t),
        forall|i: int|
            0 <= i < t.len() ==> valid_utf8((#[trigger] t[i]).name) && entry_fault(t, t[i], true) is None,
    ensures
        read_entries(record, FORMAT_VERSION as int, cursor, end, rest.len(), seen) == Ok::<
            Seq<Entry>,
            FsError,
        >(t),
    decreases rest.len(),
{
    if rest.len() == 0 {
        assert(payload_of(rest) =~= Seq::<u8>::empty());
        assert(seen =~= t);
    } else {
        let e = rest[0];
        let bytes = entry_bytes(e);
        let tail = rest.skip(1);
        let next = cursor + bytes.len();
        assert(payload_of(rest) == bytes + payload_of(tail));
        assert(end - cursor == bytes.len() + payload_of(tail).len());
        assert(record.subrange(cursor, next) =~= bytes) by {
            assert forall|i: int| 0 <= i < bytes.len() implies record.subrange(cursor, next)[i]
                == bytes[i] by {
                assert(record.subrange(cursor, end)[i] == (bytes + payload_of(tail))[i]);
            }
        }
        assert(record.subrange(next, end) =~= payload_of(tail)) by {
            assert forall|i: int| 0 <= i < payload_of(tail).len() implies record.subrange(
                next,
                end,
            )[i] == payload_of(tail)[i] by {
                assert(record.subrange(cursor, end)[bytes.len() + i] == (bytes + payload_of(
                    tail,
                ))[bytes.len() + i]);
            }
        }
        assert(t[seen.len() as int] == e);
        lemma_position(seen, e.name, 0);
        if position_of(seen, e.name) is Some {
            let k = position_of(seen, e.name).unwrap();
            assert(t[k] == seen[k]);
            assert(t[k].name != t[seen.len() as int].name);
        }
        lemma_entry_read_back(record, cursor, end, e, t, seen);
        assert(seen.push(e) + tail =~= t);
        lemma_entries_read_back(record, next, end, tail, t, seen.push(e));
        assert((rest.len() - 1) as nat == tail.len());
    }
}

/// Whatever tree a record was written for is the tree that is read from it.
pub proof fn record_round_trip(record: Seq<u8>, generation: u64, t: Seq<Entry>)
    requires
        record_fault(t) is None,
        record_of(record, generation, t),
        distinct_names(t),
        forall|i: int| 0 <= i < t.len() ==> valid_utf8((#[trigger] t[i]).name),
    ensures
        decoded(record, generation) == Ok::<Seq<Entry>, FsError>(t),
{
    reveal(decoded);
    let header = record.take(64);
    let end = 64int + payload_of(t).len();
    lemma_payload_length(t);
    lemma_tree_fault(t, true, 0);
    assert(header.subrange(0, 8) =~= record.subrange(0, 8));
    lemma_numbers_agree(header, record, 8, 4);
    lemma_numbers_agree(header, record, 12, 4);
    lemma_numbers_agree(header, record, 16, 8);
    lemma_numbers_agree(header, record, 24, 4);
    lemma_numbers_agree(header, record, 28, 4);
    lemma_numbers_agree(header, record, 32, 4);
    lemma_numbers_agree(header, record, 36, 4);
    assert(sound_header(record, generation));
    assert(Seq::<Entry>::empty() + t =~= t);
    lemma_entries_read_back(record, 64, end, t, t, Seq::empty());
}

/// Damage to any one byte of a record's header or payload is noticed.
pub proof fn record_damage_is_noticed(record: Seq<u8>, generation: u64, at: int, byte: u8)
    requires
        decoded(record, generation) is Ok,
        0 <= at < 64 + le32(record, 28),
        byte != record[at],
    ensures
        decoded(record.update(at, byte), generation) == Err::<Seq<Entry>, FsError>(
            FsError::CorruptRecord,
        ),
{
    reveal(decoded);
    let changed = record.update(at, byte);
    if at < 64 {
        let header = record.take(64);
        lemma_numbers_agree(header, record, 36, 4);
        lemma_checksum_notices(header, 36, at, byte);
        assert(changed.take(64) =~= header.update(at, byte));
        lemma_numbers_agree(changed.take(64), changed, 36, 4);
    } else {
        let end = 64 + le32(record, 28);
        lemma_numbers_agree(record, changed, 28, 4);
        lemma_numbers_agree(record, changed, 32, 4);
        let payload = record.subrange(64, end);
        crc32_detects_a_changed_byte(payload, at - 64, byte);
        assert(changed.subrange(64, end) =~= payload.update(at - 64, byte));
    }
}

proof fn lemma_read_names(
    record: Seq<u8>,
    version: int,
    cursor: int,
    end: int,
    count: nat,
    seen: Seq<Entry>,
)
    requires
        valid_names(seen),
        distinct_names(seen),
        read_entries(record, version, cursor, end, count, seen) is Ok,
    ensures
        valid_names(read_entries(record, version, cursor, end, count, seen).unwrap()),
        distinct_names(read_entries(record, version, cursor, end, count, seen).unwrap()),
        read_entries(record, version, cursor, end, count, seen).unwrap().len() == seen.len() + count,
    decreases count,
{
    if count != 0 {
        let (entry, next) = read_entry(record, version, cursor, end, seen).unwrap();
        lemma_push_keeps(seen, entry);
        lemma_read_names(record, version, next, end, (count - 1) as nat, seen.push(entry));
    }
}

/// What is read from a record has valid and distinct names, valid permissions, and is not too many.
pub proof fn lemma_decoded_names(record: Seq<u8>, generation: u64)
    requires
        decoded(record, generation) is Ok,
    ensures
        valid_names(decoded(record, generation).unwrap()),
        distinct_names(decoded(record, generation).unwrap()),
        tree_fault(decoded(record, generation).unwrap(), false) is None,
        decoded(record, generation).unwrap().len() <= MAX_FILES,
{
    reveal(decoded);
    lemma_read_names(
        record,
        le32(record, 8),
        64,
        64 + le32(record, 28),
        le32(record, 24) as nat,
        Seq::empty(),
    );
    if le32(record, 8) != 1 {
        lemma_strict_is_stricter(decoded(record, generation).unwrap(), 0);
    }
}

} // verus!
