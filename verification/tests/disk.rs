use codexos::disk::{
    backup_lbas, check_image_size, esp_layout, esp_layout_of, gpt_entry_array_sectors,
    validate_gpt_esp_layout, validate_gpt_header, validate_protective_mbr, write_gpt_disk_layout,
    write_protective_mbr, write_utf16_partition_name, DiskError, EspLayout, GptSectors,
    OffsetWindow, SeekTarget, WindowError, IMAGE_SIZE_BYTES,
};

fn sectors() -> GptSectors {
    let layout = write_gpt_disk_layout();
    GptSectors {
        image_bytes: IMAGE_SIZE_BYTES,
        mbr: layout.protective_mbr.to_vec(),
        entries: layout.entries.clone(),
        primary_header: layout.primary_header.to_vec(),
        backup_header: layout.backup_header.to_vec(),
        backup_entries: layout.entries,
    }
}

#[test]
fn the_partition_lies_between_the_tables() {
    assert_eq!(gpt_entry_array_sectors(), 32);
    assert_eq!(
        esp_layout(),
        EspLayout { first_lba: 2048, last_lba: 524254, sector_count: 522207 }
    );
    assert_eq!(esp_layout_of(IMAGE_SIZE_BYTES), Ok(esp_layout()));
    assert_eq!(esp_layout_of(513), Err(DiskError::NotSectorAligned));
    assert_eq!(esp_layout_of(512), Err(DiskError::TooSmall));
    assert_eq!(esp_layout_of(2081 * 512), Err(DiskError::TooSmall));
    assert_eq!(
        esp_layout_of(2082 * 512),
        Ok(EspLayout { first_lba: 2048, last_lba: 2048, sector_count: 1 })
    );
    assert_eq!(backup_lbas(IMAGE_SIZE_BYTES), (524287, 524255));
}

#[test]
fn a_laid_out_disk_has_the_partition() {
    assert_eq!(validate_gpt_esp_layout(&sectors()), Ok(esp_layout()));
}

#[test]
fn damaged_tables_are_noticed() {
    let fault = |change: &dyn Fn(&mut GptSectors)| {
        let mut changed = sectors();
        change(&mut changed);
        validate_gpt_esp_layout(&changed).unwrap_err()
    };
    assert_eq!(fault(&|s| s.image_bytes = 512), DiskError::ImageSize(512));
    assert_eq!(fault(&|s| s.mbr[450] = 0), DiskError::ProtectiveMbr);
    assert_eq!(fault(&|s| s.entries[0] ^= 1), DiskError::Entries);
    assert_eq!(fault(&|s| s.entries[100] ^= 1), DiskError::HeaderFields);
    assert_eq!(fault(&|s| s.primary_header[0] ^= 1), DiskError::HeaderFields);
    assert_eq!(fault(&|s| s.primary_header[60] ^= 1), DiskError::HeaderChecksum);
    assert_eq!(fault(&|s| s.backup_header[24] ^= 1), DiskError::HeaderFields);
    assert_eq!(fault(&|s| s.backup_entries[9000] ^= 1), DiskError::BackupEntries);
}

#[test]
fn the_boot_sector_protects_the_disk() {
    let sector = write_protective_mbr(524288);
    assert_eq!(&sector[446..462], &[0, 0, 0, 0, 0xee, 0, 0, 0, 1, 0, 0, 0, 0xff, 0xff, 7, 0]);
    assert_eq!(validate_protective_mbr(&sector), Ok(()));
    assert_eq!(validate_protective_mbr(&[0; 512]), Err(DiskError::ProtectiveMbr));
    let large = write_protective_mbr(u64::MAX);
    assert_eq!(&large[458..462], &[0xff; 4]);
    assert_eq!(check_image_size(IMAGE_SIZE_BYTES), Ok(()));
}

#[test]
fn headers_are_of_their_place() {
    let layout = write_gpt_disk_layout();
    assert_eq!(&layout.primary_header[..8], b"EFI PART");
    assert_eq!(&layout.entries[56..60], &[b'c', 0, b'o', 0]);
    assert_eq!(
        validate_gpt_header(&layout.primary_header, 2, 524287, 2, 0),
        Err(DiskError::HeaderFields)
    );
}

#[test]
fn names_are_written_as_far_as_they_fit() {
    let mut output = [9u8; 6];
    assert_eq!(write_utf16_partition_name(&mut output, "ab"), Ok(()));
    assert_eq!(output, [b'a', 0, b'b', 0, 9, 9]);
    let mut output = [9u8; 5];
    assert_eq!(
        write_utf16_partition_name(&mut output, "abc"),
        Err(DiskError::NameTooLong)
    );
    assert_eq!(output, [b'a', 0, b'b', 0, 9]);
    let mut output = [9u8; 4];
    assert_eq!(write_utf16_partition_name(&mut output, "\u{1f600}"), Ok(()));
    assert_eq!(output, [0x3d, 0xd8, 0x00, 0xde]);
}

#[test]
fn windows_stay_in_the_file() {
    assert_eq!(OffsetWindow::new(u64::MAX, 1, 0), Err(WindowError::Overflow));
    assert_eq!(OffsetWindow::new(10, 11, 20), Err(WindowError::ExceedsFile));
    let mut window = OffsetWindow::new(10, 10, 20).unwrap();
    assert_eq!(window.read_span(4), (10, 4));
    window.advance(4);
    assert_eq!(window.read_span(9), (14, 6));
    assert_eq!(window.write_at(6), Some(14));
    assert_eq!(window.write_at(7), None);
    assert_eq!(window.seek(SeekTarget::Current(-4)), Some(0));
    assert_eq!(window.seek(SeekTarget::Current(-1)), None);
    assert_eq!(window.seek(SeekTarget::End(-3)), Some(7));
    assert_eq!(window.seek(SeekTarget::Start(10)), Some(10));
    assert_eq!(window.seek(SeekTarget::Start(11)), None);
    assert_eq!(window.read_span(1), (20, 0));
}
