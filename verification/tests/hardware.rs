use codexos::hardware::{
    classify_pci_device, PciAddress, PciDevice, PciDeviceRole, PciInventory, MAX_PCI_DEVICES,
    PCI_BAR_COUNT, PCI_CLASS_BRIDGE, PCI_CLASS_DISPLAY, PCI_CLASS_NETWORK,
    PCI_SUBCLASS_BRIDGE_HOST, VIRTIO_BLOCK_LEGACY_DEVICE_ID, VIRTIO_NET_LEGACY_DEVICE_ID,
    VIRTIO_VENDOR_ID,
};

fn device(
    vendor_id: u16,
    device_id: u16,
    class_code: u8,
    subclass: u8,
    bars: [u32; PCI_BAR_COUNT],
) -> PciDevice {
    PciDevice {
        address: PciAddress::new(0, (device_id & 0x1f) as u8, 0),
        vendor_id,
        device_id,
        class_code,
        subclass,
        prog_if: 0,
        revision: 0,
        header_type: 0,
        bars,
    }
}

#[test]
fn classifies_legacy_virtio_devices_before_generic_classes() {
    assert_eq!(
        classify_pci_device(VIRTIO_VENDOR_ID, VIRTIO_NET_LEGACY_DEVICE_ID, 0xff, 0, 0),
        PciDeviceRole::VirtioNet
    );
    assert_eq!(
        classify_pci_device(VIRTIO_VENDOR_ID, VIRTIO_BLOCK_LEGACY_DEVICE_ID, 0xff, 0, 0),
        PciDeviceRole::VirtioBlock
    );
    assert_eq!(
        classify_pci_device(0x8086, 0x100e, PCI_CLASS_NETWORK, 0, 0),
        PciDeviceRole::NetworkController
    );
}

#[test]
fn inventory_summary_counts_required_boot_devices() {
    let mut inventory = PciInventory::empty();
    inventory.push(device(
        0x8086,
        0x29c0,
        PCI_CLASS_BRIDGE,
        PCI_SUBCLASS_BRIDGE_HOST,
        [0; PCI_BAR_COUNT],
    ));
    inventory.push(device(
        VIRTIO_VENDOR_ID,
        VIRTIO_BLOCK_LEGACY_DEVICE_ID,
        0xff,
        0,
        [0xc001, 0, 0, 0, 0, 0],
    ));
    inventory.push(device(
        VIRTIO_VENDOR_ID,
        VIRTIO_NET_LEGACY_DEVICE_ID,
        0xff,
        0,
        [0xc101, 0, 0, 0, 0, 0],
    ));

    let summary = inventory.summary();
    assert!(summary.has_boot_storage_and_network());
    assert_eq!(summary.pci_devices, 3);
    assert_eq!(summary.bridge_devices, 1);
    assert_eq!(summary.storage_controllers, 1);
    assert_eq!(summary.network_controllers, 1);
    assert_eq!(summary.io_bar_devices, 2);
    assert_eq!(summary.virtio_legacy_devices, 2);
    assert_eq!(summary.virtio_block, Some(PciAddress::new(0, 1, 0)));
    assert_eq!(summary.virtio_net, Some(PciAddress::new(0, 0, 0)));
}

#[test]
fn inventory_records_overflow_without_overwriting_entries() {
    let mut inventory = PciInventory::empty();
    let sample = device(
        0x8086,
        0x1237,
        PCI_CLASS_BRIDGE,
        PCI_SUBCLASS_BRIDGE_HOST,
        [0; 6],
    );
    for _ in 0..MAX_PCI_DEVICES {
        inventory.push(sample);
    }
    inventory.push(device(0x1234, 0x5678, PCI_CLASS_DISPLAY, 0, [0; 6]));

    assert_eq!(inventory.count(), MAX_PCI_DEVICES);
    assert!(inventory.overflowed());
    assert_eq!(inventory.get(MAX_PCI_DEVICES), None);
}
