//! The partition table of a disk that the firmware boots from.

use vstd::prelude::*;
use crate::fs::format::{low_first_4, low_first_8};
use crate::bytes::{
    bytes_equal, copy_into, get_le_u32, get_le_u64, le32, le64, put_le_u32, put_le_u64, splice,
    zero_between, zeroed,
};
use crate::checksum::{checksum_without, crc32, crc32_of, without_checksum};
use crate::text::characters;

verus! {

pub const IMAGE_SIZE_BYTES: u64 = 268435456;

pub const DATA_IMAGE_SIZE_BYTES: u64 = 67108864;

pub const DISK_SECTOR_BYTES: u64 = 512;

pub const GPT_ENTRY_COUNT: u32 = 128;

pub const GPT_ENTRY_BYTES: u32 = 128;

/// How many bytes all entries take.
pub const GPT_ENTRIES_BYTES: usize = 16384;

pub const GPT_PRIMARY_HEADER_LBA: u64 = 1;

pub const GPT_PRIMARY_ENTRIES_LBA: u64 = 2;

pub const GPT_ESP_FIRST_LBA: u64 = 2048;

/// The part of a header that its checksum covers.
pub const GPT_HEADER_BYTES: usize = 92;

/// `"EFI PART"`.
pub const GPT_SIGNATURE: [u8; 8] = [0x45, 0x46, 0x49, 0x20, 0x50, 0x41, 0x52, 0x54];

pub const EFI_SYSTEM_PARTITION_GUID: [u8; 16] = [
    0x28, 0x73, 0x2a, 0xc1, 0x1f, 0xf8, 0xd2, 0x11, 0xba, 0x4b, 0x00, 0xa0, 0xc9, 0x3e, 0xc9, 0x3b,
];

pub const CODEXOS_DISK_GUID: [u8; 16] = [
    0x40, 0x58, 0x44, 0x43, 0x65, 0x34, 0x4f, 0x53, 0x95, 0x20, 0x26, 0x06, 0x27, 0x00, 0x00, 0x01,
];

pub const CODEXOS_ESP_GUID: [u8; 16] = [
    0x40, 0x58, 0x44, 0x43, 0x65, 0x34, 0x4f, 0x53, 0x95, 0x20, 0x26, 0x06, 0x27, 0x00, 0x00, 0x02,
];

pub const ESP_NAME: &'static str = "codexOS EFI System";

/// Why a disk is not laid out as it should be.
#[derive(Debug, Clone, Copy, PartialEq, Eq, Structural)]
pub enum DiskError {
    NotSectorAligned,
    TooSmall,
    NameTooLong,
    ImageSize(u64),
    ProtectiveMbr,
    Entries,
    HeaderFields,
    HeaderChecksum,
    BackupEntries,
}

/// The sectors of the partition that the firmware boots from.
#[derive(Debug, Clone, Copy, PartialEq, Eq, Structural)]
pub struct EspLayout {
    pub first_lba: u64,
    pub last_lba: u64,
    pub sector_count: u64,
}

/// How many sectors the entries take.
pub fn gpt_entry_array_sectors() -> (sectors: u64)
    ensures
        sectors * DISK_SECTOR_BYTES == GPT_ENTRY_COUNT * GPT_ENTRY_BYTES,
        sectors == 32,
{
    (GPT_ENTRY_COUNT * GPT_ENTRY_BYTES) as u64 / DISK_SECTOR_BYTES
}

/// The partition that an image of so many bytes has.
pub open spec fn layout_of(image_bytes: u64) -> Result<EspLayout, DiskError> {
    let last = image_bytes as int / DISK_SECTOR_BYTES as int - 34;
    if image_bytes % DISK_SECTOR_BYTES != 0 {
        Err(DiskError::NotSectorAligned)
    } else if last < GPT_ESP_FIRST_LBA {
        Err(DiskError::TooSmall)
    } else {
        Ok(
            EspLayout {
                first_lba: GPT_ESP_FIRST_LBA,
                last_lba: last as u64,
                sector_count: (last - GPT_ESP_FIRST_LBA + 1) as u64,
            },
        )
    }
}

/// The partition that an image of so many bytes has: what is left between the entries and their backup.
pub fn esp_layout_of(image_bytes: u64) -> (layout: Result<EspLayout, DiskError>)
    ensures
        layout == layout_of(image_bytes),
{
    if image_bytes % DISK_SECTOR_BYTES != 0 {
        return Err(DiskError::NotSectorAligned);
    }
    let total_lbas: u64 = image_bytes / DISK_SECTOR_BYTES;
    let backup_entries_lba: u64 = match total_lbas.checked_sub(1 + gpt_entry_array_sectors()) {
        Some(lba) => lba,
        None => return Err(DiskError::TooSmall),
    };
    let last_lba: u64 = match backup_entries_lba.checked_sub(1) {
        Some(lba) => lba,
        None => return Err(DiskError::TooSmall),
    };
    if GPT_ESP_FIRST_LBA > last_lba {
        return Err(DiskError::TooSmall);
    }
    Ok(
        EspLayout {
            first_lba: GPT_ESP_FIRST_LBA,
            last_lba,
            sector_count: last_lba - GPT_ESP_FIRST_LBA + 1,
        },
    )
}

/// The partition of a system image.
pub fn esp_layout() -> (layout: EspLayout)
    ensures
        layout_of(IMAGE_SIZE_BYTES) == Ok::<EspLayout, DiskError>(layout),
        layout == (EspLayout { first_lba: 2048, last_lba: 524254, sector_count: 522207 }),
{
    EspLayout { first_lba: 2048, last_lba: 524254, sector_count: 522207 }
}

/// Where the backups of the header and of the entries are on an image of so many bytes.
pub fn backup_lbas(image_bytes: u64) -> (lbas: (u64, u64))
    requires
        34 * DISK_SECTOR_BYTES <= image_bytes,
    ensures
        lbas.0 == image_bytes as int / DISK_SECTOR_BYTES as int - 1,
        lbas.1 == lbas.0 - 32,
{
    let last_lba: u64 = image_bytes / DISK_SECTOR_BYTES - 1;
    (last_lba, last_lba - gpt_entry_array_sectors())
}

/// The sector that keeps other systems off a disk of so many sectors.
pub open spec fn is_protective_mbr(sector: Seq<u8>, total_lbas: u64) -> bool {
    &&& sector.len() == 512
    &&& zero_between(sector, 0, 450)
    &&& sector[450] == 0xee
    &&& zero_between(sector, 451, 454)
    &&& le32(sector, 454) == 1
    &&& le32(sector, 458) == if total_lbas == 0 {
        0int
    } else if total_lbas - 1 > u32::MAX {
        u32::MAX as int
    } else {
        total_lbas - 1
    }
    &&& zero_between(sector, 462, 510)
    &&& sector[510] == 0x55
    &&& sector[511] == 0xaa
}

/// The sector that keeps other systems off a disk of so many sectors.
pub fn write_protective_mbr(total_lbas: u64) -> (sector: [u8; 512])
    ensures
        is_protective_mbr(sector@, total_lbas),
{
    let mut sector: [u8; 512] = [0u8; 512];
    let mut protected_lbas: u64 = total_lbas.saturating_sub(1);
    if protected_lbas > u32::MAX as u64 {
        protected_lbas = u32::MAX as u64;
    }
    sector[450] = 0xee;
    put_le_u32(&mut sector, 454, 1);
    let ghost first = sector@;
    put_le_u32(&mut sector, 458, protected_lbas as u32);
    proof {
        crate::bytes::lemma_numbers_agree(first, sector@, 454, 4);
    }
    let ghost second = sector@;
    sector[510] = 0x55;
    sector[511] = 0xaa;
    proof {
        crate::bytes::lemma_numbers_agree(second, sector@, 454, 4);
        crate::bytes::lemma_numbers_agree(second, sector@, 458, 4);
    }
    sector
}

/// A character in UTF-16.
pub open spec fn units_of(c: char) -> Seq<u16> {
    let n = c as u32 as int;
    if n < 0x1_0000 {
        seq![n as u16]
    } else {
        seq![(0xd800 + (n - 0x1_0000) / 0x400) as u16, (0xdc00 + (n - 0x1_0000) % 0x400) as u16]
    }
}

/// The first `n` characters of a text in UTF-16.
pub open spec fn utf16(text: Seq<char>, n: nat) -> Seq<u16>
    decreases n,
{
    if n == 0 {
        Seq::empty()
    } else {
        utf16(text, (n - 1) as nat) + units_of(text[n - 1])
    }
}

/// The little-endian bytes of numbers.
pub open spec fn unit_bytes(units: Seq<u16>) -> Seq<u8> {
    Seq::new(
        2 * units.len(),
        |i: int|
            if i % 2 == 0 {
                (units[i / 2] % 0x100) as u8
            } else {
                (units[i / 2] / 0x100) as u8
            },
    )
}

/// A text in UTF-16.
fn encode_utf16(text: &str) -> (units: Vec<u16>)
    ensures
        units@ == utf16(text@, text@.len()),
{
    let all = characters(text);
    let mut units: Vec<u16> = Vec::new();
    let mut i: usize = 0;
    while i < all.len()
        invariant
            i <= all@.len(),
            all@ == text@,
            units@ == utf16(all@, i as nat),
        decreases all.len() - i,
    {
        let n: u32 = all[i] as u32;
        let ghost before = units@;
        if n < 0x1_0000 {
            units.push(n as u16);
        } else {
            units.push((0xd800 + (n - 0x1_0000) / 0x400) as u16);
            units.push((0xdc00 + (n - 0x1_0000) % 0x400) as u16);
        }
        assert(units@ =~= before + units_of(all@[i as int]));
        i += 1;
    }
    units
}

/// How much of a name fits.
pub open spec fn fitting(units: Seq<u16>, length: nat) -> Seq<u16> {
    if 2 * units.len() <= length {
        units
    } else {
        units.take(length as int / 2)
    }
}

/// Writes a partition's name, as far as it fits.
pub fn write_utf16_partition_name(output: &mut [u8], name: &str) -> (result: Result<(), DiskError>)
    ensures
        ({
            let units = utf16(name@, name@.len());
            &&& result == if 2 * units.len() <= old(output)@.len() {
                Ok::<(), DiskError>(())
            } else {
                Err(DiskError::NameTooLong)
            }
            &&& final(output)@ == splice(
                old(output)@,
                0,
                unit_bytes(fitting(units, old(output)@.len())),
            )
        }),
{
    let units = encode_utf16(name);
    let ghost before = output@;
    let mut i: usize = 0;
    assert(output@ =~= splice(before, 0, unit_bytes(units@.take(0))));
    while i < units.len()
        invariant
            i <= units@.len(),
            units@ == utf16(name@, name@.len()),
            before == old(output)@,
            before.len() == output@.len(),
            2 * i <= output@.len(),
            output@ == splice(before, 0, unit_bytes(units@.take(i as int))),
        decreases units.len() - i,
    {
        let length: usize = output.len();
        if length - 2 * i < 2 {
            assert(i == length as int / 2);
            return Err(DiskError::NameTooLong);
        }
        output[2 * i] = (units[i] % 0x100) as u8;
        output[2 * i + 1] = (units[i] / 0x100) as u8;
        i += 1;
        proof {
            let shorter = unit_bytes(units@.take(i - 1));
            let longer = unit_bytes(units@.take(i as int));
            assert forall|j: int| 0 <= j < longer.len() implies output@[j] == longer[j] by {
                if j < shorter.len() {
                    assert(units@.take(i as int)[j / 2] == units@.take(i - 1)[j / 2]);
                    assert(splice(before, 0, shorter)[j] == shorter[j]);
                }
            }
            assert(output@ =~= splice(before, 0, longer));
        }
    }
    assert(units@.take(i as int) =~= units@);
    Ok(())
}

/// The entries of a partition table with one partition.
pub open spec fn is_gpt_entries(entries: Seq<u8>, esp: EspLayout) -> bool {
    &&& entries.len() == GPT_ENTRIES_BYTES
    &&& entries.subrange(0, 16) == EFI_SYSTEM_PARTITION_GUID@
    &&& entries.subrange(16, 32) == CODEXOS_ESP_GUID@
    &&& le64(entries, 32) == esp.first_lba
    &&& le64(entries, 40) == esp.last_lba
    &&& zero_between(entries, 48, 56)
    &&& entries.subrange(56, 128) == splice(
        Seq::new(72, |i: int| 0u8),
        0,
        unit_bytes(fitting(utf16(ESP_NAME@, ESP_NAME@.len()), 72)),
    )
    &&& zero_between(entries, 128, GPT_ENTRIES_BYTES as int)
}

/// The entries of a partition table with one partition.
pub fn build_gpt_entries(esp: EspLayout) -> (entries: Vec<u8>)
    ensures
        is_gpt_entries(entries@, esp),
{
    let mut entries = zeroed(GPT_ENTRIES_BYTES);
    let mut name: [u8; 72] = [0u8; 72];
    assert(name@ =~= Seq::new(72, |i: int| 0u8));
    let _ = write_utf16_partition_name(&mut name, ESP_NAME);
    copy_into(&mut entries, 0, &EFI_SYSTEM_PARTITION_GUID);
    copy_into(&mut entries, 16, &CODEXOS_ESP_GUID);
    copy_into(&mut entries, 56, &name);
    let ghost plain = entries@;
    put_le_u64(&mut entries, 32, esp.first_lba);
    let ghost first = entries@;
    put_le_u64(&mut entries, 40, esp.last_lba);
    proof {
        crate::bytes::lemma_numbers_agree(first, entries@, 32, 8);
    }
    assert(entries@.subrange(0, 16) =~= EFI_SYSTEM_PARTITION_GUID@);
    assert(entries@.subrange(16, 32) =~= CODEXOS_ESP_GUID@);
    assert(entries@.subrange(56, 128) =~= name@);
    assert forall|i: int| 48 <= i < 56 || 128 <= i < GPT_ENTRIES_BYTES implies entries@[i] == 0u8 by {
        assert(plain[i] == 0u8);
    }
    entries
}

/// The header of a partition table.
pub open spec fn is_gpt_header(
    header: Seq<u8>,
    current_lba: u64,
    alternate_lba: u64,
    entries_lba: u64,
    entries_crc: u32,
) -> bool {
    &&& header.len() == 512
    &&& header.subrange(0, 8) == GPT_SIGNATURE@
    &&& le32(header, 8) == 0x1_0000
    &&& le32(header, 12) == GPT_HEADER_BYTES
    &&& le32(header, 16) == crc32_of(without_checksum(header.take(GPT_HEADER_BYTES as int), 16))
    &&& zero_between(header, 20, 24)
    &&& le64(header, 24) == current_lba
    &&& le64(header, 32) == alternate_lba
    &&& le64(header, 40) == 2048
    &&& le64(header, 48) == 524254
    &&& header.subrange(56, 72) == CODEXOS_DISK_GUID@
    &&& le64(header, 72) == entries_lba
    &&& le32(header, 80) == GPT_ENTRY_COUNT
    &&& le32(header, 84) == GPT_ENTRY_BYTES
    &&& le32(header, 88) == entries_crc
    &&& zero_between(header, 92, 512)
}

/// The header of a partition table.
#[verifier::spinoff_prover]
#[verifier::rlimit(60)]
pub fn build_gpt_header(
    current_lba: u64,
    alternate_lba: u64,
    entries_lba: u64,
    entries_crc: u32,
) -> (header: [u8; 512])
    ensures
        is_gpt_header(header@, current_lba, alternate_lba, entries_lba, entries_crc),
{
    let esp = esp_layout();
    let mut header: [u8; 512] = [0u8; 512];
    copy_into(&mut header, 0, &GPT_SIGNATURE);
    copy_into(&mut header, 56, &CODEXOS_DISK_GUID);
    put_le_u32(&mut header, 8, 0x1_0000);
    put_le_u32(&mut header, 12, GPT_HEADER_BYTES as u32);
    put_le_u64(&mut header, 24, current_lba);
    put_le_u64(&mut header, 32, alternate_lba);
    put_le_u64(&mut header, 40, esp.first_lba);
    put_le_u64(&mut header, 48, esp.last_lba);
    put_le_u64(&mut header, 72, entries_lba);
    put_le_u32(&mut header, 80, GPT_ENTRY_COUNT);
    put_le_u32(&mut header, 84, GPT_ENTRY_BYTES);
    put_le_u32(&mut header, 88, entries_crc);
    let ghost plain = header@;
    let covered = vstd::slice::slice_subrange(header.as_slice(), 0, GPT_HEADER_BYTES);
    let checksum: u32 = crc32(covered);
    put_le_u32(&mut header, 16, checksum);
    proof {
        assert(without_checksum(header@.take(GPT_HEADER_BYTES as int), 16) =~= plain.take(
            GPT_HEADER_BYTES as int,
        ));
        assert(covered@ =~= plain.take(GPT_HEADER_BYTES as int));
        assert(header@.subrange(0, 8) =~= GPT_SIGNATURE@);
        assert(header@.subrange(56, 72) =~= CODEXOS_DISK_GUID@);
    }
    header
}

/// A partition table and its backup, with the sector that protects them.
#[derive(Debug)]
pub struct GptLayout {
    pub protective_mbr: [u8; 512],
    pub entries: Vec<u8>,
    pub primary_header: [u8; 512],
    pub backup_header: [u8; 512],
}

/// The partition table of a system image.
pub fn write_gpt_disk_layout() -> (layout: GptLayout)
    ensures
        is_protective_mbr(layout.protective_mbr@, 524288),
        is_gpt_entries(
            layout.entries@,
            EspLayout { first_lba: 2048, last_lba: 524254, sector_count: 522207 },
        ),
        is_gpt_header(layout.primary_header@, 1, 524287, 2, crc32_of(layout.entries@)),
        is_gpt_header(layout.backup_header@, 524287, 1, 524255, crc32_of(layout.entries@)),
{
    let (last_lba, backup_entries_lba): (u64, u64) = backup_lbas(IMAGE_SIZE_BYTES);
    let entries = build_gpt_entries(esp_layout());
    let entries_crc: u32 = crc32(entries.as_slice());
    GptLayout {
        protective_mbr: write_protective_mbr(IMAGE_SIZE_BYTES / DISK_SECTOR_BYTES),
        primary_header: build_gpt_header(
            GPT_PRIMARY_HEADER_LBA,
            last_lba,
            GPT_PRIMARY_ENTRIES_LBA,
            entries_crc,
        ),
        backup_header: build_gpt_header(
            last_lba,
            GPT_PRIMARY_HEADER_LBA,
            backup_entries_lba,
            entries_crc,
        ),
        entries,
    }
}

/// Whether a sector protects the disk.
pub open spec fn protects(sector: Seq<u8>) -> bool {
    sector[510] == 0x55 && sector[511] == 0xaa && sector[450] == 0xee
}

/// Checks the sector that protects the disk.
pub fn validate_protective_mbr(sector: &[u8]) -> (result: Result<(), DiskError>)
    requires
        512 <= sector@.len(),
    ensures
        result == if protects(sector@) {
            Ok::<(), DiskError>(())
        } else {
            Err(DiskError::ProtectiveMbr)
        },
{
    if sector[510] != 0x55 || sector[511] != 0xaa || sector[450] != 0xee {
        return Err(DiskError::ProtectiveMbr);
    }
    Ok(())
}

/// Whether the first entry is the partition.
pub open spec fn lists_esp(entries: Seq<u8>, esp: EspLayout) -> bool {
    &&& 48 <= entries.len()
    &&& entries.subrange(0, 16) == EFI_SYSTEM_PARTITION_GUID@
    &&& entries.subrange(16, 32) == CODEXOS_ESP_GUID@
    &&& le64(entries, 32) == esp.first_lba
    &&& le64(entries, 40) == esp.last_lba
}

/// Checks that the first entry is the partition.
pub fn validate_gpt_entries(entries: &[u8], esp: EspLayout) -> (result: Result<(), DiskError>)
    ensures
        result == if lists_esp(entries@, esp) {
            Ok::<(), DiskError>(())
        } else {
            Err(DiskError::Entries)
        },
{
    if entries.len() < 48 || !bytes_equal(&entries[0..16], &EFI_SYSTEM_PARTITION_GUID)
        || !bytes_equal(&entries[16..32], &CODEXOS_ESP_GUID) || get_le_u64(entries, 32)
        != esp.first_lba || get_le_u64(entries, 40) != esp.last_lba {
        return Err(DiskError::Entries);
    }
    Ok(())
}

/// Why a header is not the one of a partition table.
pub open spec fn header_fault(
    header: Seq<u8>,
    current_lba: u64,
    alternate_lba: u64,
    entries_lba: u64,
    entries_crc: u32,
) -> Option<DiskError> {
    if header.len() != 512 || header.subrange(0, 8) != GPT_SIGNATURE@ || le32(header, 8) != 0x1_0000
        || le32(header, 12) != GPT_HEADER_BYTES || le64(header, 24) != current_lba || le64(
        header,
        32,
    ) != alternate_lba || le64(header, 72) != entries_lba || le32(header, 80) != GPT_ENTRY_COUNT
        || le32(header, 84) != GPT_ENTRY_BYTES || le32(header, 88) != entries_crc {
        Some(DiskError::HeaderFields)
    } else if le32(header, 16) != crc32_of(
        without_checksum(header.take(GPT_HEADER_BYTES as int), 16),
    ) {
        Some(DiskError::HeaderChecksum)
    } else {
        None
    }
}

/// Checks a header.
pub fn validate_gpt_header(
    header: &[u8],
    current_lba: u64,
    alternate_lba: u64,
    entries_lba: u64,
    entries_crc: u32,
) -> (result: Result<(), DiskError>)
    ensures
        result == match header_fault(
            header@,
            current_lba,
            alternate_lba,
            entries_lba,
            entries_crc,
        ) {
            Some(error) => Err::<(), DiskError>(error),
            None => Ok(()),
        },
{
    if header.len() != 512 || !bytes_equal(&header[0..8], &GPT_SIGNATURE) || get_le_u32(header, 8)
        != 0x1_0000 || get_le_u32(header, 12) as usize != GPT_HEADER_BYTES || get_le_u64(header, 24)
        != current_lba || get_le_u64(header, 32) != alternate_lba || get_le_u64(header, 72)
        != entries_lba || get_le_u32(header, 80) != GPT_ENTRY_COUNT || get_le_u32(header, 84)
        != GPT_ENTRY_BYTES || get_le_u32(header, 88) != entries_crc {
        return Err(DiskError::HeaderFields);
    }
    let covered = vstd::slice::slice_subrange(header, 0, GPT_HEADER_BYTES);
    assert(covered@ =~= header@.take(GPT_HEADER_BYTES as int));
    if checksum_without(covered, 16) != get_le_u32(header, 16) {
        return Err(DiskError::HeaderChecksum);
    }
    Ok(())
}

/// What was read of a disk.
#[derive(Debug)]
pub struct GptSectors {
    pub image_bytes: u64,
    pub mbr: Vec<u8>,
    pub entries: Vec<u8>,
    pub primary_header: Vec<u8>,
    pub backup_header: Vec<u8>,
    pub backup_entries: Vec<u8>,
}

/// Whether an image of so many bytes can hold the system.
pub open spec fn image_fits(image_bytes: u64) -> bool {
    IMAGE_SIZE_BYTES <= image_bytes && image_bytes % DISK_SECTOR_BYTES == 0
}

/// Whether an image of so many bytes can hold the system.
pub fn check_image_size(image_bytes: u64) -> (result: Result<(), DiskError>)
    ensures
        result == if image_fits(image_bytes) {
            Ok::<(), DiskError>(())
        } else {
            Err(DiskError::ImageSize(image_bytes))
        },
{
    if image_bytes < IMAGE_SIZE_BYTES || image_bytes % DISK_SECTOR_BYTES != 0 {
        return Err(DiskError::ImageSize(image_bytes));
    }
    Ok(())
}

/// Why a disk does not have the partition.
pub open spec fn disk_fault(sectors: GptSectors) -> Option<DiskError> {
    let last_lba = (sectors.image_bytes as int / DISK_SECTOR_BYTES as int - 1) as u64;
    let crc = crc32_of(sectors.entries@);
    let esp = layout_of(IMAGE_SIZE_BYTES).unwrap();
    if !image_fits(sectors.image_bytes) {
        Some(DiskError::ImageSize(sectors.image_bytes))
    } else if !protects(sectors.mbr@) {
        Some(DiskError::ProtectiveMbr)
    } else if !lists_esp(sectors.entries@, esp) {
        Some(DiskError::Entries)
    } else if header_fault(sectors.primary_header@, 1, last_lba, 2, crc) is Some {
        header_fault(sectors.primary_header@, 1, last_lba, 2, crc)
    } else if header_fault(
        sectors.backup_header@,
        last_lba,
        1,
        (last_lba - 32) as u64,
        crc,
    ) is Some {
        header_fault(sectors.backup_header@, last_lba, 1, (last_lba - 32) as u64, crc)
    } else if sectors.backup_entries@ != sectors.entries@ {
        Some(DiskError::BackupEntries)
    } else {
        None
    }
}

/// Checks that a disk has the partition.
pub fn validate_gpt_esp_layout(sectors: &GptSectors) -> (layout: Result<EspLayout, DiskError>)
    requires
        512 <= sectors.mbr@.len(),
    ensures
        layout == match disk_fault(*sectors) {
            Some(error) => Err::<EspLayout, DiskError>(error),
            None => layout_of(IMAGE_SIZE_BYTES),
        },
{
    let esp = esp_layout();
    match check_image_size(sectors.image_bytes) {
        Ok(_) => {},
        Err(error) => return Err(error),
    }
    match validate_protective_mbr(sectors.mbr.as_slice()) {
        Ok(_) => {},
        Err(error) => return Err(error),
    }
    let entries_crc: u32 = crc32(sectors.entries.as_slice());
    match validate_gpt_entries(sectors.entries.as_slice(), esp) {
        Ok(_) => {},
        Err(error) => return Err(error),
    }
    let (last_lba, backup_entries_lba): (u64, u64) = backup_lbas(sectors.image_bytes);
    match validate_gpt_header(
        sectors.primary_header.as_slice(),
        GPT_PRIMARY_HEADER_LBA,
        last_lba,
        GPT_PRIMARY_ENTRIES_LBA,
        entries_crc,
    ) {
        Ok(_) => {},
        Err(error) => return Err(error),
    }
    match validate_gpt_header(
        sectors.backup_header.as_slice(),
        last_lba,
        GPT_PRIMARY_HEADER_LBA,
        backup_entries_lba,
        entries_crc,
    ) {
        Ok(_) => {},
        Err(error) => return Err(error),
    }
    if !bytes_equal(sectors.backup_entries.as_slice(), sectors.entries.as_slice()) {
        return Err(DiskError::BackupEntries);
    }
    Ok(esp)
}

/// A system image that was laid out has the partition.
pub proof fn a_laid_out_disk_has_the_partition(layout: GptLayout, sectors: GptSectors)
    requires
        is_protective_mbr(layout.protective_mbr@, 524288),
        is_gpt_entries(layout.entries@, layout_of(IMAGE_SIZE_BYTES).unwrap()),
        is_gpt_header(layout.primary_header@, 1, 524287, 2, crc32_of(layout.entries@)),
        is_gpt_header(layout.backup_header@, 524287, 1, 524255, crc32_of(layout.entries@)),
        sectors.image_bytes == IMAGE_SIZE_BYTES,
        sectors.mbr@ == layout.protective_mbr@,
        sectors.entries@ == layout.entries@,
        sectors.primary_header@ == layout.primary_header@,
        sectors.backup_header@ == layout.backup_header@,
        sectors.backup_entries@ == layout.entries@,
    ensures
        disk_fault(sectors) is None,
{
}

/// A part of a file, with a position in it.
#[derive(Debug, Clone, Copy, PartialEq, Eq, Structural)]
pub struct OffsetWindow {
    pub start: u64,
    pub length: u64,
    pub position: u64,
}

/// Why there is no such part.
#[derive(Debug, Clone, Copy, PartialEq, Eq, Structural)]
pub enum WindowError {
    Overflow,
    ExceedsFile,
}

/// Where to go in a part of a file.
#[derive(Debug, Clone, Copy, PartialEq, Eq, Structural)]
pub enum SeekTarget {
    Start(u64),
    End(i64),
    Current(i64),
}

impl OffsetWindow {
    /// The part is in the address range, and the position in the part.
    pub open spec fn well_formed(self) -> bool {
        self.start + self.length <= u64::MAX && self.position <= self.length
    }

    /// A part of a file that has so many bytes.
    pub fn new(start: u64, length: u64, file_length: u64) -> (window: Result<Self, WindowError>)
        ensures
            if start + length > u64::MAX {
                window == Err::<OffsetWindow, WindowError>(WindowError::Overflow)
            } else if start + length > file_length {
                window == Err::<OffsetWindow, WindowError>(WindowError::ExceedsFile)
            } else {
                window == Ok::<OffsetWindow, WindowError>(
                    OffsetWindow { start, length, position: 0 },
                )
            },
            window is Ok ==> window->Ok_0.well_formed(),
    {
        let end: u64 = match start.checked_add(length) {
            Some(end) => end,
            None => return Err(WindowError::Overflow),
        };
        if end > file_length {
            return Err(WindowError::ExceedsFile);
        }
        Ok(OffsetWindow { start, length, position: 0 })
    }

    /// Where in the file to read, and how many of `wanted` bytes.
    pub fn read_span(&self, wanted: usize) -> (span: (u64, usize))
        requires
            self.well_formed(),
        ensures
            span.0 == self.start + self.position,
            span.1 == if wanted <= self.length - self.position {
                wanted as int
            } else {
                self.length - self.position
            },
    {
        let remaining: u64 = self.length - self.position;
        let count: usize = if wanted as u64 <= remaining {
            wanted
        } else {
            remaining as usize
        };
        (self.start + self.position, count)
    }

    /// Where in the file to write so many bytes, which must all fit.
    pub fn write_at(&self, count: usize) -> (at: Option<u64>)
        requires
            self.well_formed(),
        ensures
            at == if count <= self.length - self.position {
                Some((self.start + self.position) as u64)
            } else {
                None
            },
    {
        if count as u64 > self.length - self.position {
            return None;
        }
        Some(self.start + self.position)
    }

    /// Goes on past bytes that were read or written.
    pub fn advance(&mut self, count: usize)
        requires
            old(self).well_formed(),
            count <= old(self).length - old(self).position,
        ensures
            final(self).well_formed(),
            *final(self) == (OffsetWindow {
                position: (old(self).position + count) as u64,
                ..*old(self)
            }),
    {
        self.position = self.position + count as u64;
    }

    /// Where a target is, from the start of the part.
    pub open spec fn target(self, target: SeekTarget) -> int {
        match target {
            SeekTarget::Start(offset) => offset as int,
            SeekTarget::End(offset) => self.length + offset,
            SeekTarget::Current(offset) => self.position + offset,
        }
    }

    /// Goes to a target that is in the part.
    pub fn seek(&mut self, target: SeekTarget) -> (position: Option<u64>)
        requires
            old(self).well_formed(),
        ensures
            final(self).well_formed(),
            if 0 <= old(self).target(target) <= old(self).length {
                &&& position == Some(old(self).target(target) as u64)
                &&& *final(self) == (OffsetWindow {
                    position: old(self).target(target) as u64,
                    ..*old(self)
                })
            } else {
                position is None && *final(self) == *old(self)
            },
    {
        let next: i128 = match target {
            SeekTarget::Start(offset) => offset as i128,
            SeekTarget::End(offset) => self.length as i128 + offset as i128,
            SeekTarget::Current(offset) => self.position as i128 + offset as i128,
        };
        if next < 0 || next > self.length as i128 {
            return None;
        }
        self.position = next as u64;
        Some(self.position)
    }
}

/// The partition begins a megabyte into the disk and ends before what the backup takes, if the disk is a
/// whole number of sectors and large enough.
pub proof fn the_partition_is_laid_out(image_bytes: u64)
    ensures
        layout_of(image_bytes) is Ok <==> image_bytes as int % 512 == 0 && image_bytes as int / 512
            >= 2048 + 34,
        layout_of(image_bytes) matches Ok(esp) ==> {
            &&& esp.first_lba == 2048
            &&& esp.last_lba == image_bytes as int / 512 - 34
            &&& esp.first_lba + esp.sector_count == esp.last_lba + 1
        },
        image_bytes as int % 512 != 0 ==> layout_of(image_bytes) == Err::<EspLayout, DiskError>(
            DiskError::NotSectorAligned,
        ),
{
}

/// A character is one number, or two that together make it: the first from the upper and the second from
/// the lower half of the numbers that are set apart for that.
pub proof fn a_character_is_one_or_two_units(c: char)
    ensures
        ({
            let n = c as u32 as int;
            let units = units_of(c);
            &&& n < 0x1_0000 ==> units.len() == 1 && units[0] == n
            &&& n >= 0x1_0000 ==> units.len() == 2 && 0xd800 <= units[0] < 0xdc00 && 0xdc00 <= units[1]
                < 0xe000 && 0x1_0000 + (units[0] - 0xd800) * 0x400 + (units[1] - 0xdc00) == n
        }),
{
}

/// The units of a text are those of its characters in order, each with its low byte first.
pub proof fn a_text_is_the_units_of_its_characters(text: Seq<char>, units: Seq<u16>, i: int)
    requires
        0 <= i < units.len(),
    ensures
        utf16(Seq::<char>::empty(), 0).len() == 0,
        text.len() > 0 ==> utf16(text, text.len()) == utf16(
            text.drop_last(),
            (text.len() - 1) as nat,
        ) + units_of(text.last()),
        unit_bytes(units).len() == 2 * units.len(),
        unit_bytes(units)[2 * i] + 0x100 * unit_bytes(units)[2 * i + 1] == units[i],
{
    if text.len() > 0 {
        lemma_same_units(text, text.drop_last(), (text.len() - 1) as nat);
    }
}

proof fn lemma_same_units(a: Seq<char>, b: Seq<char>, n: nat)
    requires
        n <= a.len(),
        n <= b.len(),
        forall|i: int| 0 <= i < n ==> a[i] == b[i],
    ensures
        utf16(a, n) == utf16(b, n),
    decreases n,
{
    if n > 0 {
        lemma_same_units(a, b, (n - 1) as nat);
    }
}

/// The header of the partition table says where it is, where the other one is and where the entries are,
/// and has the checksums of the entries and of itself.
pub proof fn a_table_header_on_the_disk(
    header: Seq<u8>,
    current_lba: u64,
    alternate_lba: u64,
    entries_lba: u64,
    entries_crc: u32,
)
    requires
        is_gpt_header(header, current_lba, alternate_lba, entries_lba, entries_crc),
    ensures
        header.subrange(0, 8) == seq![0x45u8, 0x46, 0x49, 0x20, 0x50, 0x41, 0x52, 0x54],
        low_first_4(header, 8) == 0x1_0000,
        low_first_4(header, 12) == 92,
        low_first_4(header, 16) == crc32_of(without_checksum(header.take(92), 16)),
        low_first_8(header, 24) == current_lba,
        low_first_8(header, 32) == alternate_lba,
        low_first_8(header, 40) == 2048,
        low_first_8(header, 48) == 524254,
        low_first_8(header, 72) == entries_lba,
        low_first_4(header, 80) == 128,
        low_first_4(header, 84) == 128,
        low_first_4(header, 88) == entries_crc,
        header_fault(header, current_lba, alternate_lba, entries_lba, entries_crc) is None,
{
    assert(GPT_SIGNATURE@ =~= seq![0x45u8, 0x46, 0x49, 0x20, 0x50, 0x41, 0x52, 0x54]);
}

/// A header is taken only if it says where it is, where the other one and the entries are, has the number
/// and the size of the entries and their checksum, and its own checksum holds.
pub proof fn a_table_header_is_taken_for_every_reason(
    header: Seq<u8>,
    current_lba: u64,
    alternate_lba: u64,
    entries_lba: u64,
    entries_crc: u32,
)
    ensures
        header_fault(header, current_lba, alternate_lba, entries_lba, entries_crc) is None <==> {
            &&& header.len() == 512
            &&& header.subrange(0, 8) == seq![0x45u8, 0x46, 0x49, 0x20, 0x50, 0x41, 0x52, 0x54]
            &&& low_first_4(header, 8) == 0x1_0000
            &&& low_first_4(header, 12) == 92
            &&& low_first_8(header, 24) == current_lba
            &&& low_first_8(header, 32) == alternate_lba
            &&& low_first_8(header, 72) == entries_lba
            &&& low_first_4(header, 80) == 128
            &&& low_first_4(header, 84) == 128
            &&& low_first_4(header, 88) == entries_crc
            &&& low_first_4(header, 16) == crc32_of(without_checksum(header.take(92), 16))
        },
{
    assert(GPT_SIGNATURE@ =~= seq![0x45u8, 0x46, 0x49, 0x20, 0x50, 0x41, 0x52, 0x54]);
}

/// The first sector keeps others off the disk: one partition of the kind that is set apart for that, from
/// the second sector to the last one that can be said.
pub proof fn the_first_sector_keeps_others_off(sector: Seq<u8>, total_lbas: u64)
    requires
        is_protective_mbr(sector, total_lbas),
        0 < total_lbas <= 0x1_0000_0000,
    ensures
        sector.len() == 512,
        sector[450] == 0xee,
        low_first_4(sector, 454) == 1,
        low_first_4(sector, 458) == total_lbas - 1,
        sector[510] == 0x55 && sector[511] == 0xaa,
        protects(sector),
{
}

/// A disk is taken for one of the system if and only if it is large enough, its first sector keeps others
/// off, the partition is listed, both headers are right, and both lists of entries are the same.
pub proof fn a_disk_is_taken_for_every_reason(sectors: GptSectors)
    ensures
        ({
            let last = (sectors.image_bytes as int / 512 - 1) as u64;
            let crc = crc32_of(sectors.entries@);
            disk_fault(sectors) is None <==> {
                &&& sectors.image_bytes >= 268435456 && sectors.image_bytes as int % 512 == 0
                &&& sectors.mbr@[510] == 0x55 && sectors.mbr@[511] == 0xaa && sectors.mbr@[450] == 0xee
                &&& sectors.entries@.len() >= 48
                &&& sectors.entries@.subrange(0, 16) == EFI_SYSTEM_PARTITION_GUID@
                &&& sectors.entries@.subrange(16, 32) == CODEXOS_ESP_GUID@
                &&& low_first_8(sectors.entries@, 32) == 2048
                &&& low_first_8(sectors.entries@, 40) == 524254
                &&& header_fault(sectors.primary_header@, 1, last, 2, crc) is None
                &&& header_fault(sectors.backup_header@, last, 1, (last - 32) as u64, crc) is None
                &&& sectors.backup_entries@ == sectors.entries@
            }
        }),
{
}

} // verus!
