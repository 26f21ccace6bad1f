//! The superblock: where the newest record is, and what it must look like.

use vstd::prelude::*;
use crate::block::SECTOR_SIZE;
use crate::bytes::{
    bytes_equal, copy_into, get_le_u32, get_le_u64, le32, le64, put_le_u32, put_le_u64, zero_between,
};
use crate::checksum::{checksum_without, crc32, crc32_of, lemma_checksum_notices, without_checksum};
use crate::fs::entry::FsError;
use crate::fs::record::{
    FORMAT_VERSION, MAX_RECORD_BYTES, MAX_RECORD_SECTORS, MIN_FORMAT_VERSION, RECORD_BYTES,
    RECORD_HEADER_BYTES, RECORD_SECTORS,
};

verus! {

/// `"CDXFS1\0\0"`.
pub const SUPERBLOCK_MAGIC: [u8; 8] = [0x43, 0x44, 0x58, 0x46, 0x53, 0x31, 0x00, 0x00];

pub const SUPERBLOCK_A_SECTOR: u64 = 0;

pub const SUPERBLOCK_B_SECTOR: u64 = 1;

/// The first sector that records may take.
pub const RECORD_AREA_START: u64 = 8;

pub const SUPER_CRC_OFFSET: usize = 44;

/// What a superblock says.
#[derive(Debug, Clone, Copy, PartialEq, Eq, Structural)]
pub struct Superblock {
    pub generation: u64,
    pub record_start: u64,
    pub record_sectors: u32,
    pub record_bytes: usize,
    pub record_crc: u32,
    pub capacity_sectors: u64,
}

/// Whether a record of this size can be: whole sectors, and before version 3 a fixed number.
pub open spec fn sound_layout(version: int, record_sectors: int, record_bytes: int) -> bool {
    &&& 0 < record_sectors <= MAX_RECORD_SECTORS
    &&& RECORD_HEADER_BYTES <= record_bytes <= MAX_RECORD_BYTES
    &&& record_bytes == record_sectors * SECTOR_SIZE
    &&& version >= 3 || (record_sectors == RECORD_SECTORS && record_bytes == RECORD_BYTES)
}

/// `sector` is the superblock that says `superblock`.
pub open spec fn superblock_of(sector: Seq<u8>, superblock: Superblock) -> bool {
    &&& sector.len() == SECTOR_SIZE
    &&& sector.subrange(0, 8) == SUPERBLOCK_MAGIC@
    &&& le32(sector, 8) == FORMAT_VERSION
    &&& le32(sector, 12) == 64
    &&& le64(sector, 16) == superblock.generation
    &&& le64(sector, 24) == superblock.record_start
    &&& le32(sector, 32) == superblock.record_sectors
    &&& le32(sector, 36) == superblock.record_bytes as int % 0x1_0000_0000
    &&& le32(sector, 40) == superblock.record_crc
    &&& le32(sector, 44) == crc32_of(without_checksum(sector, 44))
    &&& le64(sector, 48) == superblock.capacity_sectors
    &&& zero_between(sector, 56, 512)
}

/// What `sector` says as a superblock of a device of `capacity` sectors, or why it says nothing.
#[verifier::opaque]
pub open spec fn decoded_superblock(sector: Seq<u8>, capacity: int) -> Result<Superblock, FsError> {
    let version = le32(sector, 8);
    let record_start = le64(sector, 24);
    let record_sectors = le32(sector, 32);
    if sector.subrange(0, 8) != SUPERBLOCK_MAGIC@ || !(MIN_FORMAT_VERSION <= version
        <= FORMAT_VERSION) || le32(sector, 12) != 64 {
        Err(FsError::CorruptSuperblocks)
    } else if !sound_layout(version, record_sectors, le32(sector, 36)) {
        Err(FsError::CorruptSuperblocks)
    } else if le32(sector, 44) != crc32_of(without_checksum(sector, 44)) {
        Err(FsError::CorruptSuperblocks)
    } else if record_start + record_sectors > u64::MAX {
        Err(FsError::ArithmeticOverflow)
    } else if le64(sector, 16) == 0 || record_start < RECORD_AREA_START || record_start
        + record_sectors > capacity {
        Err(FsError::CorruptSuperblocks)
    } else if version < 3 && (record_start - RECORD_AREA_START) % RECORD_SECTORS as int != 0 {
        Err(FsError::CorruptSuperblocks)
    } else if le64(sector, 48) > capacity {
        Err(FsError::CorruptSuperblocks)
    } else {
        Ok(
            Superblock {
                generation: le64(sector, 16) as u64,
                record_start: record_start as u64,
                record_sectors: record_sectors as u32,
                record_bytes: le32(sector, 36) as usize,
                record_crc: le32(sector, 40) as u32,
                capacity_sectors: le64(sector, 48) as u64,
            },
        )
    }
}

/// A superblock that a device of `capacity` sectors can have.
pub open spec fn sound_superblock(superblock: Superblock, capacity: int) -> bool {
    &&& superblock.generation != 0
    &&& superblock.record_start >= RECORD_AREA_START
    &&& superblock.record_start + superblock.record_sectors <= capacity
    &&& superblock.capacity_sectors <= capacity
    &&& sound_layout(3, superblock.record_sectors as int, superblock.record_bytes as int)
}

/// Whether a record of this size can be.
pub fn valid_record_layout(version: u32, record_sectors: u32, record_bytes: usize) -> (valid: bool)
    ensures
        valid == sound_layout(version as int, record_sectors as int, record_bytes as int),
{
    if record_sectors == 0 || record_sectors > MAX_RECORD_SECTORS {
        return false;
    }
    if record_bytes < RECORD_HEADER_BYTES || record_bytes > MAX_RECORD_BYTES {
        return false;
    }
    if record_bytes != record_sectors as usize * SECTOR_SIZE {
        return false;
    }
    version >= 3 || (record_sectors == RECORD_SECTORS && record_bytes == RECORD_BYTES)
}

/// The sector that says `superblock`.
pub fn encode_superblock(superblock: Superblock) -> (sector: [u8; SECTOR_SIZE])
    ensures
        superblock_of(sector@, superblock),
{
    let mut sector: [u8; SECTOR_SIZE] = [0u8; SECTOR_SIZE];
    copy_into(&mut sector, 0, &SUPERBLOCK_MAGIC);
    put_le_u32(&mut sector, 8, FORMAT_VERSION);
    put_le_u32(&mut sector, 12, 64);
    put_le_u64(&mut sector, 16, superblock.generation);
    put_le_u64(&mut sector, 24, superblock.record_start);
    put_le_u32(&mut sector, 32, superblock.record_sectors);
    put_le_u32(&mut sector, 36, (superblock.record_bytes as u64 % 0x1_0000_0000) as u32);
    put_le_u32(&mut sector, 40, superblock.record_crc);
    put_le_u64(&mut sector, 48, superblock.capacity_sectors);
    let ghost plain = sector@;
    let checksum: u32 = crc32(&sector);
    put_le_u32(&mut sector, SUPER_CRC_OFFSET, checksum);
    assert(without_checksum(sector@, 44) =~= plain);
    assert(sector@.subrange(0, 8) =~= SUPERBLOCK_MAGIC@);
    sector
}

/// What a sector says as a superblock.
pub fn decode_superblock(sector: &[u8; SECTOR_SIZE], actual_capacity: u64) -> (result: Result<
    Superblock,
    FsError,
>)
    ensures
        result == decoded_superblock(sector@, actual_capacity as int),
{
    reveal(decoded_superblock);
    let version: u32 = get_le_u32(sector, 8);
    if !bytes_equal(&sector[0..8], &SUPERBLOCK_MAGIC) || version < MIN_FORMAT_VERSION || version
        > FORMAT_VERSION || get_le_u32(sector, 12) != 64 {
        return Err(FsError::CorruptSuperblocks);
    }
    let record_sectors: u32 = get_le_u32(sector, 32);
    let record_bytes: usize = get_le_u32(sector, 36) as usize;
    if !valid_record_layout(version, record_sectors, record_bytes) {
        return Err(FsError::CorruptSuperblocks);
    }
    if checksum_without(sector, SUPER_CRC_OFFSET) != get_le_u32(sector, SUPER_CRC_OFFSET) {
        return Err(FsError::CorruptSuperblocks);
    }
    let generation: u64 = get_le_u64(sector, 16);
    let record_start: u64 = get_le_u64(sector, 24);
    let capacity_sectors: u64 = get_le_u64(sector, 48);
    let record_end: u64 = match record_start.checked_add(record_sectors as u64) {
        Some(end) => end,
        None => return Err(FsError::ArithmeticOverflow),
    };
    if generation == 0 || record_start < RECORD_AREA_START || record_end > actual_capacity {
        return Err(FsError::CorruptSuperblocks);
    }
    if version < 3 && (record_start - RECORD_AREA_START) % (RECORD_SECTORS as u64) != 0 {
        return Err(FsError::CorruptSuperblocks);
    }
    if capacity_sectors > actual_capacity {
        return Err(FsError::CorruptSuperblocks);
    }
    Ok(
        Superblock {
            generation,
            record_start,
            record_sectors,
            record_bytes,
            record_crc: get_le_u32(sector, 40),
            capacity_sectors,
        },
    )
}

/// A sound superblock says, once written, what it said before.
pub proof fn superblock_round_trip(sector: Seq<u8>, superblock: Superblock, capacity: int)
    requires
        superblock_of(sector, superblock),
        sound_superblock(superblock, capacity),
        capacity <= u64::MAX,
    ensures
        decoded_superblock(sector, capacity) == Ok::<Superblock, FsError>(superblock),
{
    reveal(decoded_superblock);
}

/// Damage to any one byte of a superblock is noticed.
pub proof fn superblock_damage_is_noticed(sector: Seq<u8>, capacity: int, at: int, byte: u8)
    requires
        sector.len() == SECTOR_SIZE,
        decoded_superblock(sector, capacity) is Ok,
        0 <= at < sector.len(),
        byte != sector[at],
    ensures
        decoded_superblock(sector.update(at, byte), capacity) is Err,
{
    reveal(decoded_superblock);
    lemma_checksum_notices(sector, 44, at, byte);
}

/// How many sectors one record slot of a device takes.
pub open spec fn slot_span(sector_count: int) -> int {
    let half = (sector_count - RECORD_AREA_START) / 2;
    if half < MAX_RECORD_SECTORS {
        half
    } else {
        MAX_RECORD_SECTORS as int
    }
}

/// Whether the device has room for two of the smallest records.
pub open spec fn large_enough(sector_count: int) -> bool {
    sector_count >= RECORD_AREA_START + 2 * RECORD_SECTORS
}

/// How many sectors one record slot takes, if the device is large enough for two.
pub fn record_slot_span(sector_count: u64) -> (result: Result<u32, FsError>)
    ensures
        match result {
            Ok(span) => large_enough(sector_count as int) && span == slot_span(sector_count as int),
            Err(error) => !large_enough(sector_count as int) && error == FsError::DeviceTooSmall,
        },
{
    let available: u64 = match sector_count.checked_sub(RECORD_AREA_START) {
        Some(available) => available,
        None => return Err(FsError::DeviceTooSmall),
    };
    let half: u64 = available / 2;
    if half < RECORD_SECTORS as u64 {
        return Err(FsError::DeviceTooSmall);
    }
    if half < MAX_RECORD_SECTORS as u64 {
        Ok(half as u32)
    } else {
        Ok(MAX_RECORD_SECTORS)
    }
}

/// How many record slots of this span the device has, if that is at least two.
pub fn record_slot_count(sector_count: u64, slot_span_sectors: u32) -> (result: Result<u64, FsError>)
    requires
        slot_span_sectors > 0,
    ensures
        match result {
            Ok(slots) => sector_count >= RECORD_AREA_START && slots == (sector_count
                - RECORD_AREA_START) / (slot_span_sectors as int) && slots >= 2,
            Err(error) => error == FsError::DeviceTooSmall && (sector_count < RECORD_AREA_START || (
            sector_count - RECORD_AREA_START) / (slot_span_sectors as int) < 2),
        },
{
    let available: u64 = match sector_count.checked_sub(RECORD_AREA_START) {
        Some(available) => available,
        None => return Err(FsError::DeviceTooSmall),
    };
    let slots: u64 = available / slot_span_sectors as u64;
    if slots < 2 {
        return Err(FsError::DeviceTooSmall);
    }
    Ok(slots)
}

/// Whether two runs of sectors share one.
pub fn ranges_overlap(
    left_start: u64,
    left_sectors: u32,
    right_start: u64,
    right_sectors: u32,
) -> (result: Result<bool, FsError>)
    ensures
        match result {
            Ok(overlap) => left_start + left_sectors <= u64::MAX && right_start + right_sectors
                <= u64::MAX && overlap == (left_start < right_start + right_sectors && right_start
                < left_start + left_sectors),
            Err(error) => error == FsError::ArithmeticOverflow && (left_start + left_sectors
                > u64::MAX || right_start + right_sectors > u64::MAX),
        },
{
    let left_end: u64 = match left_start.checked_add(left_sectors as u64) {
        Some(end) => end,
        None => return Err(FsError::ArithmeticOverflow),
    };
    let right_end: u64 = match right_start.checked_add(right_sectors as u64) {
        Some(end) => end,
        None => return Err(FsError::ArithmeticOverflow),
    };
    Ok(left_start < right_end && right_start < left_end)
}

} // verus!
