use codexos::block::MemoryDisk;
use codexos::fs::CodexFs;
use codexos::hardware::{HardwareSummary, PciAddress, PciInventory};
use codexos::kernel_image::{
    advance_boot_counter, binding_matches, build_large_file_proof, check_inventory, checksum32,
    descriptor, encode_decimal_u64, ensure_large_file, parse_decimal_u64, prepare_namespace,
    reports_pointer_event, start_filesystem, BootCounter, InventoryFault, StartupFault,
    BOOT_COUNT_PATH, LARGE_FILE_PROOF_PATH,
};
use codexos::scheduler::persistent::install_persistent_executable;
use codexos::user_elf::build_flat_rx_executable;

fn volume(sectors: usize) -> CodexFs<MemoryDisk> {
    match CodexFs::mount_or_format(MemoryDisk::new(sectors)) {
        Ok(volume) => volume,
        Err(refused) => panic!("{:?}", refused.error),
    }
}

fn remounted(volume: CodexFs<MemoryDisk>) -> CodexFs<MemoryDisk> {
    match volume.unmount() {
        Ok(disk) => match CodexFs::mount_or_format(disk) {
            Ok(volume) => volume,
            Err(refused) => panic!("{:?}", refused.error),
        },
        Err(error) => panic!("{error:?}"),
    }
}

#[test]
fn the_kernel_describes_itself() {
    let descriptor = descriptor();
    assert_eq!(&descriptor.magic, b"CDXKERN\0");
    assert_eq!(descriptor.abi_version, 2);
}

#[test]
fn decimal_numbers_round_trip() {
    for value in [0, 7, 10, 98304, u64::MAX] {
        let digits = encode_decimal_u64(value);
        assert_eq!(digits, value.to_string().as_bytes());
        assert_eq!(parse_decimal_u64(&digits), Some(value));
    }
    assert_eq!(parse_decimal_u64(b""), None);
    assert_eq!(parse_decimal_u64(b"+1"), None);
    assert_eq!(parse_decimal_u64(b"18446744073709551616"), None);
    assert_eq!(parse_decimal_u64(b"007"), Some(7));
}

#[test]
fn the_large_file_has_its_bytes() {
    let bytes = build_large_file_proof();
    assert_eq!(bytes.len(), 98304);
    assert_eq!(bytes[0], 0);
    assert_eq!(bytes[1], 31);
    assert_eq!(bytes[251], ((251 * 31 + 1) & 0xff) as u8);
    assert_eq!(checksum32(&[]), 0);
    assert_eq!(checksum32(&[1, 2]), (1 << 5) ^ 2);
    let mut expected = 0u32;
    for byte in &bytes {
        expected = expected.rotate_left(5) ^ u32::from(*byte);
    }
    assert_eq!(checksum32(&bytes), expected);
}

#[test]
fn the_inventory_needs_a_disk_and_a_network() {
    let empty = PciInventory::empty().summary();
    assert_eq!(
        check_inventory(&empty),
        Err(InventoryFault::NoBlockDevice { network: false })
    );
    let block = PciAddress::new(0, 2, 0);
    let network = PciAddress::new(0, 3, 0);
    let half = HardwareSummary { virtio_block: Some(block), ..empty };
    assert_eq!(check_inventory(&half), Err(InventoryFault::NoNetworkDevice));
    let full = HardwareSummary { virtio_net: Some(network), ..half };
    assert_eq!(check_inventory(&full), Ok((block, network)));
    assert!(binding_matches(full.virtio_block, 0, 2, 0));
    assert!(!binding_matches(full.virtio_block, 0, 3, 0));
    assert!(!binding_matches(None, 0, 0, 0));
}

#[test]
fn four_pointer_events_are_reported() {
    let mut reported = 0;
    let reports: Vec<bool> = (0..6).map(|_| reports_pointer_event(&mut reported)).collect();
    assert_eq!(reports, [true, true, true, true, false, false]);
}

#[test]
fn boots_are_counted_over_reboots() {
    let mut first = volume(2048);
    let report = start_filesystem(&mut first).unwrap();
    assert_eq!(report.counter, BootCounter { previous: 0, current: 1 });
    assert!(report.large_file_written);
    let mut second = remounted(first);
    let report = start_filesystem(&mut second).unwrap();
    assert_eq!(report.counter, BootCounter { previous: 1, current: 2 });
    assert!(!report.large_file_written);
    assert_eq!(second.read_file(BOOT_COUNT_PATH), Some(&b"2"[..]));
    assert_eq!(
        second.read_file(LARGE_FILE_PROOF_PATH),
        Some(build_large_file_proof().as_slice())
    );
}

#[test]
fn counters_that_cannot_go_on_are_faults() {
    let mut volume = volume(2048);
    prepare_namespace(&mut volume).unwrap();
    volume.write_file(BOOT_COUNT_PATH, b"many").unwrap();
    assert_eq!(advance_boot_counter(&mut volume), Err(StartupFault::CounterInvalid));
    volume
        .write_file(BOOT_COUNT_PATH, &encode_decimal_u64(u64::MAX))
        .unwrap();
    assert_eq!(advance_boot_counter(&mut volume), Err(StartupFault::CounterExhausted));
}

#[test]
fn a_small_disk_has_no_room_for_the_large_file() {
    let mut volume = volume(160);
    prepare_namespace(&mut volume).unwrap();
    assert!(matches!(
        ensure_large_file(&mut volume),
        Err(StartupFault::LargeFileCommit(_))
    ));
}

#[test]
fn the_persistent_executable_is_installed_once() {
    let mut volume = volume(2048);
    prepare_namespace(&mut volume).unwrap();
    let executable = build_flat_rx_executable(0x2000_0000_0000, &[0xcc, 0xc3]).unwrap();
    let installed = install_persistent_executable(&mut volume, &executable).unwrap();
    assert!(installed.installed);
    assert_eq!(installed.bytes, executable.len());
    assert_eq!(installed.entry, 0x2000_0000_0000);
    assert_eq!(installed.load_segments, 1);
    let mut volume = remounted(volume);
    let again = install_persistent_executable(&mut volume, &executable).unwrap();
    assert!(!again.installed);
    assert_eq!(again.sha256, installed.sha256);
}
