use codexos::block::{
    BlockError, BlockInfo, BlockProbe, BlockProbeAction, BlockProbeReply, VirtioBlock,
    REQUEST_TIMEOUT_SPINS, VIRTIO_BLK_T_IN, VIRTIO_BLK_T_OUT,
};
use codexos::virtio::WaitStep;
use codexos::fs::CodexFs;
use codexos::block::{BlockDevice, MemoryDisk, SECTOR_SIZE};
use codexos::hardware::{
    enable_io_bus_master, pci_config_address, PciAddress, PciInventory, PciScan, RawFunction,
};
use codexos::input::{
    PointerAction, PointerReply, PointerSetup, Ps2Event, Ps2InputDevices, Ps2PointerStatus,
};
use codexos::network::route::{default_dns_server, route_next_hop, same_subnet};

#[test]
fn a_disk_is_found_step_by_step() {
    let (probe, action) = BlockProbe::Bar
        .step(BlockProbeReply::Value(0xc001), 0, 2, 0)
        .unwrap();
    assert_eq!(action, BlockProbeAction::Announce { io_base: 0xc000, status: 3 });
    let (probe, action) = probe.step(BlockProbeReply::Value(0xffff_ffff), 0, 2, 0).unwrap();
    assert_eq!(action, BlockProbeAction::Negotiate { features: 0x200 });
    let (probe, action) = probe.step(BlockProbeReply::Value(128), 0, 2, 0).unwrap();
    assert_eq!(action, BlockProbeAction::AllocateQueue { pages: 2 });
    let (probe, action) =
        probe.step(BlockProbeReply::Memory(Some(0x10_0000)), 0, 2, 0).unwrap();
    assert_eq!(action, BlockProbeAction::PlaceQueue { frame: 0x100 });
    let (probe, _) = probe.step(BlockProbeReply::Memory(Some(0x20_0000)), 0, 2, 0).unwrap();
    let (probe, action) = probe.step(BlockProbeReply::Value(2048), 0, 2, 0).unwrap();
    assert_eq!(action, BlockProbeAction::Start { status: 7 });
    assert_eq!(
        probe.step(BlockProbeReply::Value(0x80), 0, 2, 0),
        Err(BlockError::DeviceRejected)
    );
    let (probe, _) = probe.step(BlockProbeReply::Value(7), 0, 2, 0).unwrap();
    let mut disk = probe.device().unwrap();
    assert_eq!(disk.info().capacity_sectors, 2048);
    assert!(disk.info().flush_supported);

    let plan = disk.begin_request(VIRTIO_BLK_T_OUT, 5, true).unwrap();
    assert!(plan.copies_sector);
    assert_eq!(plan.descriptors.len(), 3);
    assert_eq!(plan.descriptors[1].address, 0x20_0200);
    assert_eq!(disk.poll_request(0, 0), Ok(false));
    assert_eq!(disk.poll_request(1, 0), Ok(true));
    assert_eq!(disk.poll_request(3, 0), Err(BlockError::DeviceRejected));
    assert_eq!(VirtioBlock::finish_request(VIRTIO_BLK_T_OUT, true, 0), Ok(()));
    assert_eq!(
        VirtioBlock::finish_request(VIRTIO_BLK_T_IN, true, 2),
        Err(BlockError::RequestFailed(2))
    );
}

#[test]
fn disks_that_do_not_fit_are_refused() {
    assert_eq!(
        BlockProbe::Bar.step(BlockProbeReply::Value(0xc000), 0, 0, 0),
        Err(BlockError::InvalidIoBar)
    );
    let size = BlockProbe::QueueSize { io_base: 0xc000, features: 0 };
    assert_eq!(
        size.step(BlockProbeReply::Value(0), 0, 0, 0),
        Err(BlockError::QueueUnavailable)
    );
    assert_eq!(
        size.step(BlockProbeReply::Value(2), 0, 0, 0),
        Err(BlockError::QueueTooSmall)
    );
    let memory = BlockProbe::QueueMemory { io_base: 0xc000, features: 0, queue_size: 8 };
    assert_eq!(
        memory.step(BlockProbeReply::Memory(Some(1 << 60)), 0, 0, 0),
        Err(BlockError::QueueAddressTooHigh)
    );
    assert_eq!(
        memory.step(BlockProbeReply::Memory(None), 0, 0, 0),
        Err(BlockError::DmaAddressUnavailable)
    );
}

#[test]
fn memory_disks_keep_their_sectors() {
    let mut disk = MemoryDisk::new(2);
    assert_eq!(disk.sector_count(), 2);
    assert!(disk.supports_flush());
    disk.write_sector(1, &[7; SECTOR_SIZE]).unwrap();
    let mut sector = [0; SECTOR_SIZE];
    disk.read_sector(1, &mut sector).unwrap();
    assert_eq!(sector, [7; SECTOR_SIZE]);
    assert_eq!(disk.read_sector(2, &mut sector), Err(BlockError::SectorOutOfRange));
    assert_eq!(
        disk.write_sector(2, &[0; SECTOR_SIZE]),
        Err(BlockError::SectorOutOfRange)
    );
    disk.flush().unwrap();
    assert_eq!(disk.flush_count, 1);
}

#[test]
fn every_function_of_a_device_is_scanned() {
    let absent = RawFunction { id: 0xffff_ffff, revision_class: 0, header: 0, bars: [0; 6] };
    let several = RawFunction {
        id: 0x1001_1af4,
        revision_class: 0x0100_0000,
        header: 0x0080_0000,
        bars: [0xc001, 0, 0, 0, 0, 0],
    };
    let mut scan = PciScan::new();
    let mut inventory = PciInventory::empty();
    let mut visited = 0;
    while let Some(address) = scan.wanted() {
        visited += 1;
        let raw = if address.bus == 0 && address.device == 2 && address.function < 2 {
            several
        } else {
            absent
        };
        scan.scan_pci(&mut inventory, &raw);
    }
    assert_eq!(visited, 256 * 32 + 7);
    assert_eq!(inventory.count(), 2);
    assert_eq!(
        inventory.get(1).unwrap().address,
        PciAddress::new(0, 2, 1)
    );
    assert_eq!(inventory.get(0).unwrap().io_bar(0), Some(0xc000));
    assert_eq!(pci_config_address(PciAddress::new(1, 2, 3), 0x10), 0x8001_1310);
    assert_eq!(enable_io_bus_master(0x0100), 0x0105);
}

#[test]
fn a_mouse_is_enabled_by_its_word() {
    let mut setup = PointerSetup::new();
    let mut sent = Vec::new();
    for _ in 0..40 {
        let reply = match setup.action() {
            PointerAction::WriteCommand(byte) | PointerAction::WriteData(byte) => {
                sent.push(byte);
                PointerReply::Written(true)
            }
            PointerAction::ReadAny => PointerReply::Byte(Some(0x67)),
            PointerAction::ReadMouse => PointerReply::Byte(Some(0xfa)),
            PointerAction::Finish => break,
        };
        setup.step(reply);
    }
    assert!(setup.status.enabled);
    assert_eq!(setup.status.acknowledgements, 3);
    assert_eq!(
        sent,
        [0xa8, 0x20, 0x60, 0x47, 0xd4, 0xf6, 0xd4, 0xf2, 0xd4, 0xf4]
    );
    let mut silent = PointerSetup::new();
    silent.step(PointerReply::Written(false));
    assert_eq!(silent.action(), PointerAction::Finish);
    assert!(!silent.status.enabled);
}

#[test]
fn bytes_go_to_the_device_they_come_from() {
    let status = Ps2PointerStatus { enabled: true, device_id: Some(0), acknowledgements: 2 };
    let mut devices = Ps2InputDevices::initialize(status);
    assert_eq!(devices.pointer_status(), status);
    assert_eq!(devices.poll_event(0x21, 0x08), None);
    assert_eq!(devices.poll_event(0x21, 5), None);
    match devices.poll_event(0x21, 1) {
        Some(Ps2Event::Pointer(sample)) => assert_eq!((sample.delta_x, sample.delta_y), (5, -1)),
        _ => panic!("no pointer event"),
    }
    assert!(matches!(devices.poll_event(0x01, 0x1e), Some(Ps2Event::Keyboard(_))));
}

#[test]
fn frames_go_to_the_next_hop() {
    let mask = [255, 255, 255, 0];
    assert!(same_subnet([10, 0, 2, 15], [10, 0, 2, 3], mask));
    assert!(!same_subnet([10, 0, 2, 15], [10, 0, 3, 3], mask));
    assert_eq!(
        route_next_hop([10, 0, 2, 15], mask, [10, 0, 2, 2], [93, 184, 216, 34]),
        [10, 0, 2, 2]
    );
    assert_eq!(
        route_next_hop([10, 0, 2, 15], mask, [10, 0, 2, 2], [10, 0, 2, 3]),
        [10, 0, 2, 3]
    );
    let _ = default_dns_server([10, 0, 2, 15], [10, 0, 2, 2]);
}

#[test]
fn small_disks_are_not_formatted() {
    assert!(CodexFs::mount_or_format(MemoryDisk::new(16)).is_err());
}

fn driver(flush_supported: bool) -> VirtioBlock {
    let info = BlockInfo {
        pci_bus: 0,
        pci_device: 2,
        pci_function: 0,
        io_base: 0xc000,
        queue_size: 8,
        capacity_sectors: 64,
        flush_supported,
    };
    BlockProbe::Ready { info, request_phys: 0x10_0000 }.device().unwrap()
}

#[test]
fn flushes_are_asked_only_of_devices_that_honour_them() {
    assert_eq!(driver(false).begin_flush().err(), Some(BlockError::DeviceRejected));
    let plan = driver(true).begin_flush().unwrap();
    assert_eq!(plan.header[0], 4);
    assert_eq!(plan.descriptors.len(), 2);
}

#[test]
fn requests_are_waited_for_within_bounds() {
    let mut disk = driver(true);
    assert_eq!(disk.wait_step(0, 0, 0), Ok(WaitStep::Again { spins: 1, read_isr: true }));
    assert_eq!(disk.wait_step(1, 0, 0), Ok(WaitStep::Again { spins: 2, read_isr: false }));
    assert_eq!(
        disk.wait_step(0x4000, 0, 0),
        Ok(WaitStep::Again { spins: 0x4001, read_isr: true })
    );
    assert_eq!(
        disk.wait_step(REQUEST_TIMEOUT_SPINS, 1, 0),
        Err(BlockError::RequestTimedOut)
    );
    assert_eq!(disk.wait_step(5, 2, 0), Err(BlockError::DeviceRejected));
    assert_eq!(disk.wait_step(5, 1, 0), Ok(WaitStep::Done));
    assert_eq!(disk.queue().used_index, 1);
}

#[test]
fn the_search_finds_what_the_inventory_has() {
    let read = |address: PciAddress| {
        let id = match (address.bus, address.device) {
            (0, 1) => 0x1000_1af4,
            (0, 3) | (2, 0) => 0x1001_1af4,
            _ => 0xffff_ffff,
        };
        RawFunction { id, revision_class: 0, header: 0, bars: [0; 6] }
    };
    let mut scan = PciScan::new();
    let mut inventory = PciInventory::empty();
    while let Some(address) = scan.wanted() {
        scan.scan_pci(&mut inventory, &read(address));
    }
    let summary = inventory.summary();
    for (device_id, expected) in [(0x1001, summary.virtio_block), (0x1000, summary.virtio_net)] {
        let mut search = PciScan::new();
        let mut found = None;
        while let (None, Some(address)) = (found, search.wanted()) {
            found = search.find_legacy_virtio_device(&read(address), device_id);
        }
        assert_eq!(found.map(|device| device.address), expected);
    }
    assert_eq!(summary.virtio_block, Some(PciAddress::new(0, 3, 0)));
    assert_eq!(summary.virtio_net, Some(PciAddress::new(0, 1, 0)));
}
