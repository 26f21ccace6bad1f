use codexos::block::{BlockDevice, BlockError, MemoryDisk, SECTOR_SIZE};
use codexos::bytes::{put_le_u16, put_le_u32, put_le_u64};
use codexos::checksum::crc32;
use codexos::fs::record::{
    LEGACY_RECORD_ENTRY_BYTES, RECORD_BYTES, RECORD_HEADER_BYTES, RECORD_HEADER_CRC_OFFSET,
    RECORD_MAGIC, RECORD_SECTORS,
};
use codexos::fs::superblock::SUPERBLOCK_B_SECTOR;
use codexos::fs::{
    decode_record, decode_superblock, encode_record, encode_superblock,
    materialize_missing_parent_directories, validate_path, CodexFs, EntryKind, FileEntry, FsError,
    MountError, MountState, Superblock, DEFAULT_DIRECTORY_PERMISSIONS, DEFAULT_FILE_PERMISSIONS,
};

#[derive(Debug)]
struct TestDisk {
    sectors: Vec<[u8; SECTOR_SIZE]>,
    flush_count: usize,
}

impl TestDisk {
    fn new(sector_count: usize) -> Self {
        Self {
            sectors: vec![[0_u8; SECTOR_SIZE]; sector_count],
            flush_count: 0,
        }
    }
}

impl BlockDevice for TestDisk {
    fn sector_count(&self) -> u64 {
        self.sectors.len() as u64
    }

    fn supports_flush(&self) -> bool {
        true
    }

    fn read_sector(
        &mut self,
        sector: u64,
        output: &mut [u8; SECTOR_SIZE],
    ) -> Result<(), BlockError> {
        *output = *self
            .sectors
            .get(sector as usize)
            .ok_or(BlockError::SectorOutOfRange)?;
        Ok(())
    }

    fn write_sector(
        &mut self,
        sector: u64,
        input: &[u8; SECTOR_SIZE],
    ) -> Result<(), BlockError> {
        *self
            .sectors
            .get_mut(sector as usize)
            .ok_or(BlockError::SectorOutOfRange)? = *input;
        Ok(())
    }

    fn flush(&mut self) -> Result<(), BlockError> {
        self.flush_count += 1;
        Ok(())
    }
}

#[test]
fn crc_matches_the_standard_check_vector() {
    assert_eq!(crc32(b"123456789"), 0xcbf4_3926);
}

#[test]
fn path_validation_rejects_ambiguous_or_relative_names() {
    assert!(validate_path("/system/boot-count").is_ok());
    assert!(validate_path("relative").is_err());
    assert!(validate_path("/system//count").is_err());
    assert!(validate_path("/system/../count").is_err());
    assert!(validate_path("/system/count/").is_err());
}

#[test]
fn record_round_trip_preserves_sorted_file_data() {
    let files = vec![
        FileEntry {
            name: String::from("/config"),
            data: Vec::new(),
            kind: EntryKind::Directory,
            permissions: DEFAULT_DIRECTORY_PERMISSIONS,
        },
        FileEntry {
            name: String::from("/config/network"),
            data: b"dhcp=true".to_vec(),
            kind: EntryKind::File,
            permissions: DEFAULT_FILE_PERMISSIONS,
        },
        FileEntry {
            name: String::from("/system"),
            data: Vec::new(),
            kind: EntryKind::Directory,
            permissions: DEFAULT_DIRECTORY_PERMISSIONS,
        },
        FileEntry {
            name: String::from("/system/boot-count"),
            data: b"42".to_vec(),
            kind: EntryKind::File,
            permissions: DEFAULT_FILE_PERMISSIONS,
        },
    ];
    let record = encode_record(9, &files).unwrap();
    assert_eq!(decode_record(&record, 9).unwrap(), files);
}

#[test]
fn legacy_records_load_as_regular_files_with_default_permissions() {
    let mut record = vec![0_u8; RECORD_BYTES];
    record[0..8].copy_from_slice(&RECORD_MAGIC);
    put_le_u32(&mut record, 8, 1);
    put_le_u32(&mut record, 12, RECORD_HEADER_BYTES as u32);
    put_le_u64(&mut record, 16, 7);
    put_le_u32(&mut record, 24, 1);

    let mut cursor = RECORD_HEADER_BYTES;
    let name = b"/system/boot-count";
    let data = b"9";
    put_le_u16(&mut record, cursor, name.len() as u16);
    put_le_u16(&mut record, cursor + 2, 0);
    put_le_u32(&mut record, cursor + 4, data.len() as u32);
    cursor += LEGACY_RECORD_ENTRY_BYTES;
    record[cursor..cursor + name.len()].copy_from_slice(name);
    cursor += name.len();
    record[cursor..cursor + data.len()].copy_from_slice(data);
    cursor += data.len();

    let payload_bytes = cursor - RECORD_HEADER_BYTES;
    put_le_u32(&mut record, 28, payload_bytes as u32);
    let payload_checksum = crc32(&record[RECORD_HEADER_BYTES..cursor]);
    put_le_u32(&mut record, 32, payload_checksum);
    put_le_u32(&mut record, RECORD_HEADER_CRC_OFFSET, 0);
    let header_checksum = crc32(&record[..RECORD_HEADER_BYTES]);
    put_le_u32(&mut record, RECORD_HEADER_CRC_OFFSET, header_checksum);

    let files = decode_record(&record, 7).unwrap();
    assert_eq!(files.len(), 1);
    assert_eq!(files[0].name, "/system/boot-count");
    assert_eq!(files[0].data, b"9");
    assert_eq!(files[0].kind, EntryKind::File);
    assert_eq!(files[0].permissions, DEFAULT_FILE_PERMISSIONS);
}

#[test]
fn record_checksum_detects_payload_corruption() {
    let files = vec![
        FileEntry {
            name: String::from("/system"),
            data: Vec::new(),
            kind: EntryKind::Directory,
            permissions: DEFAULT_DIRECTORY_PERMISSIONS,
        },
        FileEntry {
            name: String::from("/system/value"),
            data: b"durable".to_vec(),
            kind: EntryKind::File,
            permissions: DEFAULT_FILE_PERMISSIONS,
        },
    ];
    let mut record = encode_record(4, &files).unwrap();
    record[RECORD_HEADER_BYTES + 10] ^= 0x80;
    assert_eq!(decode_record(&record, 4), Err(FsError::CorruptRecord));
}

#[test]
fn committed_file_survives_unmount_and_remount() {
    let mut filesystem = CodexFs::mount_or_format(TestDisk::new(300)).unwrap();
    assert_eq!(filesystem.info().mount_state, MountState::Formatted);
    filesystem.create_dir_all("/system", 0o755).unwrap();
    filesystem
        .write_file_with_permissions("/system/boot-count", b"17", 0o600)
        .unwrap();
    filesystem.verify_committed_state().unwrap();
    let disk = filesystem.unmount().unwrap();
    assert!(disk.flush_count >= 5);

    let filesystem = CodexFs::mount_or_format(disk).unwrap();
    assert_eq!(filesystem.info().mount_state, MountState::Existing);
    assert_eq!(filesystem.read_file("/system/boot-count"), Some(&b"17"[..]));
    assert_eq!(
        filesystem.metadata("/system").unwrap().kind,
        EntryKind::Directory
    );
    assert_eq!(
        filesystem
            .metadata("/system/boot-count")
            .unwrap()
            .permissions,
        0o600
    );
}

#[test]
fn large_file_survives_dynamic_multisector_snapshot() {
    let mut filesystem = CodexFs::mount_or_format(TestDisk::new(1024)).unwrap();
    filesystem
        .create_dir_all("/system/packages", 0o755)
        .unwrap();
    let mut package = vec![0_u8; RECORD_BYTES + 17_000];
    for (index, byte) in package.iter_mut().enumerate() {
        *byte = (index.wrapping_mul(31).wrapping_add(index / 251) & 0xff) as u8;
    }

    filesystem
        .write_file_with_permissions("/system/packages/app.pkg", &package, 0o640)
        .unwrap();
    let info = filesystem.info();
    assert!(info.active_record_sectors > RECORD_SECTORS);
    assert!(info.max_record_bytes > RECORD_BYTES);
    assert_eq!(
        filesystem
            .metadata("/system/packages/app.pkg")
            .unwrap()
            .length,
        package.len()
    );
    filesystem.verify_committed_state().unwrap();
    let disk = filesystem.unmount().unwrap();

    let filesystem = CodexFs::mount_or_format(disk).unwrap();
    assert_eq!(
        filesystem.read_file("/system/packages/app.pkg"),
        Some(package.as_slice())
    );
    assert!(filesystem.info().active_record_sectors > RECORD_SECTORS);
}

#[test]
fn dynamic_superblock_round_trip_preserves_record_span() {
    let superblock = Superblock {
        generation: 33,
        record_start: 4096,
        record_sectors: RECORD_SECTORS + 9,
        record_bytes: (RECORD_SECTORS as usize + 9) * SECTOR_SIZE,
        record_crc: 0x1234_5678,
        capacity_sectors: 131_072,
    };
    let encoded = encode_superblock(superblock);
    let decoded = decode_superblock(&encoded, 131_072).unwrap();
    assert_eq!(decoded.generation, superblock.generation);
    assert_eq!(decoded.record_start, superblock.record_start);
    assert_eq!(decoded.record_sectors, superblock.record_sectors);
    assert_eq!(decoded.record_bytes, superblock.record_bytes);
    assert_eq!(decoded.record_crc, superblock.record_crc);
}

#[test]
fn damaged_newest_record_falls_back_to_previous_generation() {
    let mut filesystem = CodexFs::mount_or_format(TestDisk::new(300)).unwrap();
    filesystem.create_dir_all("/system", 0o755).unwrap();
    filesystem.write_file("/system/value", b"stable").unwrap();
    let newest_record_start = filesystem.info().active_record_start;
    let mut disk = filesystem.unmount().unwrap();
    disk.sectors[newest_record_start as usize][RECORD_HEADER_BYTES] ^= 0x80;

    let filesystem = CodexFs::mount_or_format(disk).unwrap();
    assert_eq!(filesystem.info().generation, 2);
    assert_eq!(filesystem.read_file("/system/value"), None);
}

#[test]
fn damaged_superblocks_are_never_silently_reformatted() {
    let filesystem = CodexFs::mount_or_format(TestDisk::new(160)).unwrap();
    let mut disk = filesystem.unmount().unwrap();
    disk.sectors[SUPERBLOCK_B_SECTOR as usize][0] ^= 0x80;
    assert!(matches!(
        CodexFs::mount_or_format(disk),
        Err(MountError { error: FsError::CorruptSuperblocks, .. })
    ));
}

#[test]
fn directories_permissions_listing_and_removal_are_enforced() {
    let mut filesystem = CodexFs::mount_or_format(TestDisk::new(160)).unwrap();
    filesystem.create_dir_all("/system/bin", 0o755).unwrap();
    filesystem
        .write_file_with_permissions("/system/bin/app", b"run", 0o555)
        .unwrap();

    let listing = filesystem.list_dir("/system").unwrap();
    assert_eq!(listing.len(), 1);
    assert_eq!(listing[0].name, "bin");
    assert_eq!(listing[0].kind, EntryKind::Directory);
    let metadata = filesystem.metadata("/system/bin/app").unwrap();
    assert_eq!(metadata.kind, EntryKind::File);
    assert_eq!(metadata.permissions, 0o555);
    assert_eq!(
        filesystem.write_file("/system/bin/app", b"new"),
        Err(FsError::PermissionDenied)
    );
    assert_eq!(
        filesystem.remove_dir("/system/bin"),
        Err(FsError::DirectoryNotEmpty)
    );
    filesystem
        .set_permissions("/system/bin/app", 0o755)
        .unwrap();
    filesystem.remove_file("/system/bin/app").unwrap();
    filesystem.remove_dir("/system/bin").unwrap();
}

#[test]
fn file_writes_require_existing_parent_directory() {
    let mut filesystem = CodexFs::mount_or_format(TestDisk::new(160)).unwrap();
    assert_eq!(
        filesystem.write_file("/system/missing", b"value"),
        Err(FsError::ParentMissing)
    );
    filesystem.create_dir_all("/system", 0o755).unwrap();
    filesystem.write_file("/system/missing", b"value").unwrap();
}

#[test]
fn migration_materializes_missing_parent_directories() {
    let mut entries = vec![
        FileEntry {
            name: String::from("/system/boot-count"),
            data: b"1".to_vec(),
            kind: EntryKind::File,
            permissions: DEFAULT_FILE_PERMISSIONS,
        },
        FileEntry {
            name: String::from("/system/bin/app"),
            data: b"app".to_vec(),
            kind: EntryKind::File,
            permissions: DEFAULT_FILE_PERMISSIONS,
        },
    ];
    materialize_missing_parent_directories(&mut entries).unwrap();
    assert!(
        entries
            .iter()
            .any(|entry| { entry.name == "/system" && entry.kind == EntryKind::Directory })
    );
    assert!(
        entries
            .iter()
            .any(|entry| { entry.name == "/system/bin" && entry.kind == EntryKind::Directory })
    );
    encode_record(11, &entries).unwrap();
}

/// A disk that loses what was not flushed, and fails once it was asked often enough.
#[derive(Debug, Clone)]
struct CachingDisk {
    cached: Vec<[u8; SECTOR_SIZE]>,
    stored: Vec<[u8; SECTOR_SIZE]>,
    requests_left: usize,
    flushes: bool,
}

impl CachingDisk {
    fn new(sectors: Vec<[u8; SECTOR_SIZE]>, requests_left: usize) -> Self {
        Self { cached: sectors.clone(), stored: sectors, requests_left, flushes: true }
    }

    fn request(&mut self) -> Result<(), BlockError> {
        self.requests_left = self.requests_left.checked_sub(1).ok_or(BlockError::RequestTimedOut)?;
        Ok(())
    }
}

impl BlockDevice for CachingDisk {
    fn sector_count(&self) -> u64 {
        self.cached.len() as u64
    }

    fn supports_flush(&self) -> bool {
        self.flushes
    }

    fn read_sector(&mut self, sector: u64, output: &mut [u8; SECTOR_SIZE]) -> Result<(), BlockError> {
        *output = self.cached[sector as usize];
        Ok(())
    }

    fn write_sector(&mut self, sector: u64, input: &[u8; SECTOR_SIZE]) -> Result<(), BlockError> {
        self.request()?;
        self.cached[sector as usize] = *input;
        Ok(())
    }

    fn flush(&mut self) -> Result<(), BlockError> {
        self.request()?;
        self.stored = self.cached.clone();
        Ok(())
    }
}

#[test]
fn a_commit_is_durable_once_it_succeeds() {
    let disk = CachingDisk::new(vec![[0; SECTOR_SIZE]; 300], usize::MAX);
    let mut filesystem = CodexFs::mount_or_format(disk).unwrap();
    filesystem.write_file("/value", b"kept").unwrap();
    let disk = filesystem.unmount().unwrap();
    assert_eq!(disk.stored, disk.cached);
    let filesystem =
        CodexFs::mount_or_format(CachingDisk::new(disk.stored, usize::MAX)).unwrap();
    assert_eq!(filesystem.read_file("/value"), Some(&b"kept"[..]));
}

#[test]
fn power_lost_during_a_commit_leaves_the_old_tree() {
    let disk = CachingDisk::new(vec![[0; SECTOR_SIZE]; 300], usize::MAX);
    let mut filesystem = CodexFs::mount_or_format(disk).unwrap();
    filesystem.write_file("/value", b"old").unwrap();
    let start = filesystem.unmount().unwrap().stored;
    for requests in 0..67 {
        let disk = CachingDisk::new(start.clone(), requests);
        let mut filesystem = CodexFs::mount_or_format(disk).unwrap();
        assert_eq!(
            filesystem.write_file("/value", b"new"),
            Err(FsError::Block(BlockError::RequestTimedOut))
        );
        assert_eq!(filesystem.read_file("/value"), Some(&b"old"[..]));
        assert_eq!(filesystem.info().generation, 2);
    }
    let disk = CachingDisk::new(start, 67);
    let mut filesystem = CodexFs::mount_or_format(disk).unwrap();
    filesystem.write_file("/value", b"new").unwrap();
    assert_eq!(filesystem.info().generation, 3);
}

#[test]
fn devices_that_are_refused_come_back_as_they_were() {
    let mut sectors = vec![[0; SECTOR_SIZE]; 300];
    sectors[0][7] = 1;
    let refused = CodexFs::mount_or_format(CachingDisk::new(sectors.clone(), usize::MAX));
    let refused = refused.err().unwrap();
    assert_eq!(refused.error, FsError::CorruptSuperblocks);
    assert_eq!(refused.device.cached, sectors);
    assert_eq!(refused.device.requests_left, usize::MAX);
    let refused = CodexFs::mount_or_format(CachingDisk::new(vec![[0; SECTOR_SIZE]; 135], 0));
    assert_eq!(refused.err().unwrap().error, FsError::DeviceTooSmall);
    let mut disk = CachingDisk::new(vec![[0; SECTOR_SIZE]; 300], 0);
    disk.flushes = false;
    assert_eq!(CodexFs::mount_or_format(disk).err().unwrap().error, FsError::FlushUnsupported);
}

#[test]
fn volumes_report_sound_bounds() {
    let filesystem = CodexFs::mount_or_format(TestDisk::new(136)).unwrap();
    let info = filesystem.info();
    assert_eq!((info.record_slot_sectors, info.record_slots), (64, 2));
    assert_eq!(info.active_record_start, 72);
    assert_eq!(info.active_record_sectors, 64);
    assert_eq!(info.max_record_bytes, 32768);
}

#[test]
fn written_files_keep_or_get_their_permissions() {
    let mut filesystem = CodexFs::mount_or_format(TestDisk::new(300)).unwrap();
    filesystem.write_file("/b", b"1").unwrap();
    assert_eq!(filesystem.metadata("/b").unwrap().permissions, 0o644);
    filesystem.write_file_with_permissions("/b", b"2", 0o600).unwrap();
    filesystem.write_file("/b", b"3").unwrap();
    assert_eq!(filesystem.metadata("/b").unwrap().permissions, 0o600);
    assert_eq!(
        filesystem.write_file_with_permissions("/b", b"4", 0o1000),
        Err(FsError::InvalidPermissions)
    );
    filesystem.write_file("/a", b"").unwrap();
    filesystem.create_dir_all("/c/d", 0o700).unwrap();
    assert_eq!(filesystem.metadata("/c").unwrap().permissions, 0o755);
    assert_eq!(filesystem.metadata("/c/d").unwrap().permissions, 0o700);
    let generation = filesystem.info().generation;
    filesystem.create_dir_all("/c/d", 0o500).unwrap();
    assert_eq!(filesystem.metadata("/c/d").unwrap().permissions, 0o700);
    assert_eq!(filesystem.info().generation, generation);
    let names: Vec<String> =
        filesystem.list_dir("/").unwrap().into_iter().map(|line| line.name).collect();
    assert_eq!(names, ["a", "b", "c"]);
}

#[test]
fn unmounting_flushes_once_and_writes_nothing() {
    let mut filesystem = CodexFs::mount_or_format(MemoryDisk::new(300)).ok().unwrap();
    filesystem.write_file("/value", b"kept").unwrap();
    filesystem.verify_committed_state().unwrap();
    let disk = filesystem.unmount().ok().unwrap();
    assert_eq!(disk.flush_count, 5);
    let filesystem = CodexFs::mount_or_format(disk).ok().unwrap();
    assert_eq!(filesystem.info().mount_state, MountState::Existing);
    assert_eq!(filesystem.info().generation, 2);
    assert_eq!(filesystem.read_file("/value"), Some(&b"kept"[..]));
    assert_eq!(filesystem.unmount().ok().unwrap().flush_count, 6);

    let disk = CachingDisk::new(vec![[0; SECTOR_SIZE]; 300], 67);
    let mut filesystem = CodexFs::mount_or_format(disk).unwrap();
    assert!(filesystem.create_dir_all("/a", 0o755).is_err());
    let disk = CachingDisk::new(vec![[0; SECTOR_SIZE]; 300], 68);
    let disk = CodexFs::mount_or_format(disk).unwrap().unmount().unwrap();
    assert_eq!(disk.requests_left, 0);
}
