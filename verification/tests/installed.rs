use codexos::disk::{esp_layout, write_gpt_disk_layout, GptSectors, IMAGE_SIZE_BYTES};
use codexos::installed::{
    check_data_image, detect_installed_layout, validate_signed_system_slot, BootPartition,
    InstalledLayout, PartitionFault, SlotFault, SlotFiles,
};
use codexos::release::{sign_kernel_release_with_identity, ReleaseError};
use codexos::update::{identity_of, initial_states};
use codexos::update_format::SystemSlot;

const SECRET: [u8; 32] = [7; 32];

const KERNEL: &[u8] = b"kernel";

fn files<'a>(kernel: &'a [u8], manifest: &'a [u8]) -> SlotFiles<'a> {
    SlotFiles { kernel: Some(kernel), manifest: Some(manifest) }
}

#[test]
fn slots_hold_the_release_that_is_expected() {
    let key = identity_of(SECRET).public_key;
    let manifest = sign_kernel_release_with_identity(KERNEL, 5, &SECRET, None);
    assert_eq!(validate_signed_system_slot(&files(KERNEL, &manifest), 5, &key), Ok(()));
    assert_eq!(
        validate_signed_system_slot(&files(KERNEL, &manifest), 6, &key),
        Err(SlotFault::OtherRelease { found: 5, expected: 6 })
    );
    assert_eq!(
        validate_signed_system_slot(&files(b"kernal", &manifest), 5, &key),
        Err(SlotFault::Release(ReleaseError::KernelHashMismatch))
    );
    let missing = SlotFiles { kernel: None, manifest: Some(&manifest) };
    assert_eq!(validate_signed_system_slot(&missing, 5, &key), Err(SlotFault::Unreadable));
}

#[test]
fn boot_partitions_need_all_their_files() {
    let key = identity_of(SECRET).public_key;
    let manifest = sign_kernel_release_with_identity(KERNEL, 5, &SECRET, None);
    let (first, second) = initial_states(5);
    let (first_record, second_record) = (first.encode(), second.encode());
    let whole = BootPartition {
        loader: Some(b"loader"),
        first_record: Some(&first_record),
        second_record: Some(&second_record),
        a: files(KERNEL, &manifest),
        b: files(KERNEL, &manifest),
    };
    assert_eq!(whole.validate(&key), Ok(second));
    let changed = BootPartition { second_record: None, ..whole };
    assert_eq!(changed.validate(&key), Ok(first));
    let changed = BootPartition { loader: None, ..whole };
    assert_eq!(changed.validate(&key), Err(PartitionFault::NoLoader));
    let changed = BootPartition { loader: Some(b""), ..whole };
    assert_eq!(changed.validate(&key), Err(PartitionFault::EmptyLoader));
    let changed = BootPartition { first_record: None, second_record: None, ..whole };
    assert_eq!(changed.validate(&key), Err(PartitionFault::NoBootState));
    let changed = BootPartition { b: files(b"other", &manifest), ..whole };
    assert_eq!(
        changed.validate(&key),
        Err(PartitionFault::Slot {
            slot: SystemSlot::B,
            fault: SlotFault::Release(ReleaseError::KernelSizeMismatch)
        })
    );
    let changed = BootPartition { a: files(b"other", &manifest), b: files(b"x", b"y"), ..whole };
    assert_eq!(
        changed.validate(&key),
        Err(PartitionFault::Slot {
            slot: SystemSlot::A,
            fault: SlotFault::Release(ReleaseError::KernelSizeMismatch)
        })
    );
}

#[test]
fn layouts_are_told_apart() {
    let layout = write_gpt_disk_layout();
    let mut sectors = GptSectors {
        image_bytes: IMAGE_SIZE_BYTES,
        mbr: layout.protective_mbr.to_vec(),
        entries: layout.entries.clone(),
        primary_header: layout.primary_header.to_vec(),
        backup_header: layout.backup_header.to_vec(),
        backup_entries: layout.entries,
    };
    let found = detect_installed_layout(Some(&sectors));
    assert_eq!(found, InstalledLayout::GptEsp(esp_layout()));
    assert_eq!(found.as_str(), "gpt-esp");
    sectors.primary_header[0] ^= 1;
    assert_eq!(detect_installed_layout(Some(&sectors)), InstalledLayout::WholeDiskFat);
    assert_eq!(detect_installed_layout(None), InstalledLayout::WholeDiskFat);
    assert_eq!(InstalledLayout::WholeDiskFat.as_str(), "whole-disk-fat");
}

#[test]
fn data_disks_are_never_resized() {
    assert_eq!(check_data_image(None), Ok(true));
    assert_eq!(check_data_image(Some(64 * 1024 * 1024)), Ok(false));
    assert_eq!(check_data_image(Some(512)), Err(512));
}
