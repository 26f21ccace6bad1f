//! The devices on the PCI bus.

use vstd::prelude::*;
use crate::virtio::{io_base, io_port};

verus! {

pub const PCI_VENDOR_NONE: u16 = 0xffff;

pub const PCI_HEADER_MULTIFUNCTION: u8 = 0x80;

pub const PCI_CLASS_MASS_STORAGE: u8 = 0x01;

pub const PCI_CLASS_NETWORK: u8 = 0x02;

pub const PCI_CLASS_DISPLAY: u8 = 0x03;

pub const PCI_CLASS_BRIDGE: u8 = 0x06;

pub const PCI_CLASS_INPUT: u8 = 0x09;

pub const PCI_CLASS_SERIAL_BUS: u8 = 0x0c;

pub const PCI_SUBCLASS_BRIDGE_HOST: u8 = 0x00;

pub const PCI_SUBCLASS_BRIDGE_ISA: u8 = 0x01;

pub const PCI_SUBCLASS_BRIDGE_PCI: u8 = 0x04;

pub const PCI_SUBCLASS_USB: u8 = 0x03;

pub const PCI_BAR0: u8 = 0x10;

pub const PCI_BAR_COUNT: usize = 6;

pub const PCI_COMMAND: u8 = 0x04;

pub const PCI_COMMAND_IO_SPACE: u16 = 0x0001;

pub const PCI_COMMAND_BUS_MASTER: u16 = 0x0004;

pub const MAX_PCI_DEVICES: usize = 64;

pub const VIRTIO_VENDOR_ID: u16 = 0x1af4;

pub const VIRTIO_NET_LEGACY_DEVICE_ID: u16 = 0x1000;

pub const VIRTIO_BLOCK_LEGACY_DEVICE_ID: u16 = 0x1001;

/// Where a function is on the bus.
#[derive(Debug, Clone, Copy, PartialEq, Eq, Structural)]
pub struct PciAddress {
    pub bus: u8,
    pub device: u8,
    pub function: u8,
}

impl PciAddress {
    pub fn new(bus: u8, device: u8, function: u8) -> (address: PciAddress)
        ensures
            address == (PciAddress { bus, device, function }),
    {
        PciAddress { bus, device, function }
    }
}

/// What a function says of itself.
#[derive(Debug, Clone, Copy, PartialEq, Eq)]
pub struct PciDevice {
    pub address: PciAddress,
    pub vendor_id: u16,
    pub device_id: u16,
    pub class_code: u8,
    pub subclass: u8,
    pub prog_if: u8,
    pub revision: u8,
    pub header_type: u8,
    pub bars: [u32; PCI_BAR_COUNT],
}

/// What a device is for.
#[derive(Debug, Clone, Copy, PartialEq, Eq, Structural)]
pub enum PciDeviceRole {
    VirtioNet,
    VirtioBlock,
    VirtioOther,
    StorageController,
    NetworkController,
    DisplayController,
    HostBridge,
    IsaBridge,
    PciBridge,
    UsbController,
    InputController,
    Other,
}

/// What there is on the bus.
#[derive(Debug, Clone, Copy, PartialEq, Eq, Structural)]
pub struct HardwareSummary {
    pub pci_devices: usize,
    pub overflow: bool,
    pub bridge_devices: usize,
    pub storage_controllers: usize,
    pub network_controllers: usize,
    pub display_controllers: usize,
    pub usb_controllers: usize,
    pub input_controllers: usize,
    pub io_bar_devices: usize,
    pub virtio_legacy_devices: usize,
    pub virtio_block: Option<PciAddress>,
    pub virtio_net: Option<PciAddress>,
}

/// What a device is for: of virtio devices by their own numbers, of others by their class.
pub open spec fn role_of(vendor_id: u16, device_id: u16, class_code: u8, subclass: u8) -> PciDeviceRole {
    if vendor_id == VIRTIO_VENDOR_ID {
        if device_id == VIRTIO_NET_LEGACY_DEVICE_ID {
            PciDeviceRole::VirtioNet
        } else if device_id == VIRTIO_BLOCK_LEGACY_DEVICE_ID {
            PciDeviceRole::VirtioBlock
        } else if 0x1002 <= device_id <= 0x103f {
            PciDeviceRole::VirtioOther
        } else {
            PciDeviceRole::Other
        }
    } else if class_code == PCI_CLASS_MASS_STORAGE {
        PciDeviceRole::StorageController
    } else if class_code == PCI_CLASS_NETWORK {
        PciDeviceRole::NetworkController
    } else if class_code == PCI_CLASS_DISPLAY {
        PciDeviceRole::DisplayController
    } else if class_code == PCI_CLASS_BRIDGE && subclass == PCI_SUBCLASS_BRIDGE_HOST {
        PciDeviceRole::HostBridge
    } else if class_code == PCI_CLASS_BRIDGE && subclass == PCI_SUBCLASS_BRIDGE_ISA {
        PciDeviceRole::IsaBridge
    } else if class_code == PCI_CLASS_BRIDGE && subclass == PCI_SUBCLASS_BRIDGE_PCI {
        PciDeviceRole::PciBridge
    } else if class_code == PCI_CLASS_SERIAL_BUS && subclass == PCI_SUBCLASS_USB {
        PciDeviceRole::UsbController
    } else if class_code == PCI_CLASS_INPUT {
        PciDeviceRole::InputController
    } else {
        PciDeviceRole::Other
    }
}

/// What a device is for.
pub fn classify_pci_device(
    vendor_id: u16,
    device_id: u16,
    class_code: u8,
    subclass: u8,
    _prog_if: u8,
) -> (role: PciDeviceRole)
    ensures
        role == role_of(vendor_id, device_id, class_code, subclass),
{
    if vendor_id == VIRTIO_VENDOR_ID {
        if device_id == VIRTIO_NET_LEGACY_DEVICE_ID {
            return PciDeviceRole::VirtioNet;
        }
        if device_id == VIRTIO_BLOCK_LEGACY_DEVICE_ID {
            return PciDeviceRole::VirtioBlock;
        }
        if 0x1002 <= device_id && device_id <= 0x103f {
            return PciDeviceRole::VirtioOther;
        }
        return PciDeviceRole::Other;
    }
    match (class_code, subclass) {
        (PCI_CLASS_MASS_STORAGE, _) => PciDeviceRole::StorageController,
        (PCI_CLASS_NETWORK, _) => PciDeviceRole::NetworkController,
        (PCI_CLASS_DISPLAY, _) => PciDeviceRole::DisplayController,
        (PCI_CLASS_BRIDGE, PCI_SUBCLASS_BRIDGE_HOST) => PciDeviceRole::HostBridge,
        (PCI_CLASS_BRIDGE, PCI_SUBCLASS_BRIDGE_ISA) => PciDeviceRole::IsaBridge,
        (PCI_CLASS_BRIDGE, PCI_SUBCLASS_BRIDGE_PCI) => PciDeviceRole::PciBridge,
        (PCI_CLASS_SERIAL_BUS, PCI_SUBCLASS_USB) => PciDeviceRole::UsbController,
        (PCI_CLASS_INPUT, _) => PciDeviceRole::InputController,
        _ => PciDeviceRole::Other,
    }
}

impl PciDevice {
    /// What the device is for.
    pub open spec fn purpose(&self) -> PciDeviceRole {
        role_of(self.vendor_id, self.device_id, self.class_code, self.subclass)
    }

    pub fn role(&self) -> (role: PciDeviceRole)
        ensures
            role == self.purpose(),
    {
        classify_pci_device(
            self.vendor_id,
            self.device_id,
            self.class_code,
            self.subclass,
            self.prog_if,
        )
    }

    /// The ports that a base address gives, if it gives ports.
    pub fn io_bar(&self, index: usize) -> (port: Option<u16>)
        ensures
            port == if index < PCI_BAR_COUNT {
                io_port(self.bars@[index as int])
            } else {
                None
            },
    {
        if index >= PCI_BAR_COUNT {
            return None;
        }
        io_base(self.bars[index])
    }
}

impl HardwareSummary {
    pub fn has_boot_storage_and_network(&self) -> (result: bool)
        ensures
            result == (self.virtio_block is Some && self.virtio_net is Some),
    {
        self.virtio_block.is_some() && self.virtio_net.is_some()
    }
}

/// The devices that were found, as far as there is room.
#[derive(Debug, Clone, Copy, PartialEq, Eq)]
pub struct PciInventory {
    pub devices: [Option<PciDevice>; MAX_PCI_DEVICES],
    pub count: usize,
    pub overflow: bool,
}

/// How many of the first `n` devices have one of two roles.
pub open spec fn count_roles(devices: Seq<PciDevice>, n: nat, a: PciDeviceRole, b: PciDeviceRole) -> nat
    decreases n,
{
    if n == 0 {
        0
    } else {
        count_roles(devices, (n - 1) as nat, a, b) + if devices[n - 1].purpose() == a || devices[n
            - 1].purpose() == b {
            1nat
        } else {
            0nat
        }
    }
}

/// How many of the first `n` devices have ports at their first base address.
pub open spec fn count_ports(devices: Seq<PciDevice>, n: nat) -> nat
    decreases n,
{
    if n == 0 {
        0
    } else {
        count_ports(devices, (n - 1) as nat) + if io_port(devices[n - 1].bars@[0]) is Some {
            1nat
        } else {
            0nat
        }
    }
}

/// Where the first of the first `n` devices with this role is.
pub open spec fn first_with_role(devices: Seq<PciDevice>, n: nat, role: PciDeviceRole) -> Option<PciAddress>
    decreases n,
{
    if n == 0 {
        None
    } else {
        match first_with_role(devices, (n - 1) as nat, role) {
            Some(address) => Some(address),
            None => if devices[n - 1].purpose() == role {
                Some(devices[n - 1].address)
            } else {
                None
            },
        }
    }
}

/// What there is on the bus.
pub open spec fn summary_of(devices: Seq<PciDevice>, n: nat, overflow: bool) -> HardwareSummary {
    let count = |a: PciDeviceRole, b: PciDeviceRole| count_roles(devices, n, a, b);
    HardwareSummary {
        pci_devices: n as usize,
        overflow,
        bridge_devices: (count(PciDeviceRole::HostBridge, PciDeviceRole::IsaBridge) + count(
            PciDeviceRole::PciBridge,
            PciDeviceRole::PciBridge,
        )) as usize,
        storage_controllers: count(
            PciDeviceRole::VirtioBlock,
            PciDeviceRole::StorageController,
        ) as usize,
        network_controllers: count(
            PciDeviceRole::VirtioNet,
            PciDeviceRole::NetworkController,
        ) as usize,
        display_controllers: count(
            PciDeviceRole::DisplayController,
            PciDeviceRole::DisplayController,
        ) as usize,
        usb_controllers: count(
            PciDeviceRole::UsbController,
            PciDeviceRole::UsbController,
        ) as usize,
        input_controllers: count(
            PciDeviceRole::InputController,
            PciDeviceRole::InputController,
        ) as usize,
        io_bar_devices: count_ports(devices, n) as usize,
        virtio_legacy_devices: (count(PciDeviceRole::VirtioBlock, PciDeviceRole::VirtioNet) + count(
            PciDeviceRole::VirtioOther,
            PciDeviceRole::VirtioOther,
        )) as usize,
        virtio_block: first_with_role(devices, n, PciDeviceRole::VirtioBlock),
        virtio_net: first_with_role(devices, n, PciDeviceRole::VirtioNet),
    }
}

/// The first device from `i` on at this address.
pub open spec fn device_at(devices: Seq<PciDevice>, address: PciAddress, i: int) -> Option<PciDevice>
    decreases devices.len() - i,
{
    if i < 0 || i >= devices.len() {
        None
    } else if devices[i].address == address {
        Some(devices[i])
    } else {
        device_at(devices, address, i + 1)
    }
}

/// There are no more devices of some roles than devices.
proof fn lemma_counts(devices: Seq<PciDevice>, n: nat, a: PciDeviceRole, b: PciDeviceRole)
    ensures
        count_roles(devices, n, a, b) <= n,
        count_ports(devices, n) <= n,
    decreases n,
{
    if n > 0 {
        lemma_counts(devices, (n - 1) as nat, a, b);
    }
}

impl PciInventory {
    /// The devices.
    pub open spec fn found(&self) -> Seq<PciDevice> {
        Seq::new(self.count as nat, |i: int| self.devices@[i].unwrap())
    }

    /// There is a device at every place up to the count.
    pub open spec fn well_formed(&self) -> bool {
        &&& self.count <= MAX_PCI_DEVICES
        &&& forall|i: int| 0 <= i < self.count ==> (#[trigger] self.devices@[i]) is Some
    }

    pub fn empty() -> (inventory: PciInventory)
        ensures
            inventory.well_formed(),
            inventory.found() == Seq::<PciDevice>::empty(),
            !inventory.overflow,
    {
        let inventory = PciInventory { devices: [None;MAX_PCI_DEVICES], count: 0, overflow: false };
        assert(inventory.found() =~= Seq::<PciDevice>::empty());
        inventory
    }

    pub fn count(&self) -> (count: usize)
        ensures
            count == self.found().len(),
    {
        self.count
    }

    pub fn overflowed(&self) -> (overflow: bool)
        ensures
            overflow == self.overflow,
    {
        self.overflow
    }

    pub fn get(&self, index: usize) -> (device: Option<PciDevice>)
        requires
            self.well_formed(),
        ensures
            device == if index < self.found().len() {
                Some(self.found()[index as int])
            } else {
                None
            },
    {
        if index >= self.count {
            return None;
        }
        assert(self.devices@[index as int] is Some);
        self.devices[index]
    }

    pub fn find_by_address(&self, address: PciAddress) -> (device: Option<PciDevice>)
        requires
            self.well_formed(),
        ensures
            device == device_at(self.found(), address, 0),
    {
        let mut index: usize = 0;
        while index < self.count
            invariant
                index <= self.count,
                self.well_formed(),
                device_at(self.found(), address, 0) == device_at(
                    self.found(),
                    address,
                    index as int,
                ),
            decreases self.count - index,
        {
            assert(self.devices@[index as int] is Some);
            assert(self.found()[index as int] == self.devices@[index as int].unwrap());
            match self.devices[index] {
                Some(device) => {
                    if device.address == address {
                        return Some(device);
                    }
                },
                None => {},
            }
            index += 1;
        }
        None
    }

    /// What there is on the bus.
    pub fn summary(&self) -> (summary: HardwareSummary)
        requires
            self.well_formed(),
        ensures
            summary == summary_of(self.found(), self.found().len(), self.overflow),
    {
        let ghost devices = self.found();
        let mut summary = HardwareSummary {
            pci_devices: 0,
            overflow: self.overflow,
            bridge_devices: 0,
            storage_controllers: 0,
            network_controllers: 0,
            display_controllers: 0,
            usb_controllers: 0,
            input_controllers: 0,
            io_bar_devices: 0,
            virtio_legacy_devices: 0,
            virtio_block: None,
            virtio_net: None,
        };
        let mut index: usize = 0;
        while index < self.count
            invariant
                index <= self.count,
                self.well_formed(),
                devices == self.found(),
                summary == summary_of(devices, index as nat, self.overflow),
            decreases self.count - index,
        {
            proof {
                lemma_counts(devices, index as nat, PciDeviceRole::HostBridge, PciDeviceRole::IsaBridge);
                lemma_counts(devices, index as nat, PciDeviceRole::PciBridge, PciDeviceRole::PciBridge);
                lemma_counts(
                    devices,
                    index as nat,
                    PciDeviceRole::VirtioBlock,
                    PciDeviceRole::StorageController,
                );
                lemma_counts(
                    devices,
                    index as nat,
                    PciDeviceRole::VirtioNet,
                    PciDeviceRole::NetworkController,
                );
                lemma_counts(
                    devices,
                    index as nat,
                    PciDeviceRole::DisplayController,
                    PciDeviceRole::DisplayController,
                );
                lemma_counts(
                    devices,
                    index as nat,
                    PciDeviceRole::UsbController,
                    PciDeviceRole::UsbController,
                );
                lemma_counts(
                    devices,
                    index as nat,
                    PciDeviceRole::InputController,
                    PciDeviceRole::InputController,
                );
                lemma_counts(devices, index as nat, PciDeviceRole::VirtioBlock, PciDeviceRole::VirtioNet);
                lemma_counts(
                    devices,
                    index as nat,
                    PciDeviceRole::VirtioOther,
                    PciDeviceRole::VirtioOther,
                );
                assert(self.devices@[index as int] is Some);
                assert(devices[index as int] == self.devices@[index as int].unwrap());
            }
            summary.pci_devices = index + 1;
            match self.devices[index] {
                Some(device) => {
                    if device.io_bar(0).is_some() {
                        summary.io_bar_devices += 1;
                    }
                    match device.role() {
                        PciDeviceRole::VirtioBlock => {
                            summary.storage_controllers += 1;
                            summary.virtio_legacy_devices += 1;
                            if summary.virtio_block.is_none() {
                                summary.virtio_block = Some(device.address);
                            }
                        },
                        PciDeviceRole::VirtioNet => {
                            summary.network_controllers += 1;
                            summary.virtio_legacy_devices += 1;
                            if summary.virtio_net.is_none() {
                                summary.virtio_net = Some(device.address);
                            }
                        },
                        PciDeviceRole::VirtioOther => {
                            summary.virtio_legacy_devices += 1;
                        },
                        PciDeviceRole::StorageController => {
                            summary.storage_controllers += 1;
                        },
                        PciDeviceRole::NetworkController => {
                            summary.network_controllers += 1;
                        },
                        PciDeviceRole::DisplayController => {
                            summary.display_controllers += 1;
                        },
                        PciDeviceRole::HostBridge
                        | PciDeviceRole::IsaBridge
                        | PciDeviceRole::PciBridge => {
                            summary.bridge_devices += 1;
                        },
                        PciDeviceRole::UsbController => {
                            summary.usb_controllers += 1;
                        },
                        PciDeviceRole::InputController => {
                            summary.input_controllers += 1;
                        },
                        PciDeviceRole::Other => {},
                    }
                },
                None => {},
            }
            index += 1;
        }
        summary
    }

    /// Adds a device, while there is room; that there was none is noted.
    pub fn push(&mut self, device: PciDevice)
        requires
            old(self).well_formed(),
        ensures
            final(self).well_formed(),
            if old(self).found().len() < MAX_PCI_DEVICES {
                final(self).found() == old(self).found().push(device) && final(self).overflow == old(
                    self,
                ).overflow
            } else {
                final(self).found() == old(self).found() && final(self).overflow
            },
    {
        if self.count == MAX_PCI_DEVICES {
            self.overflow = true;
            assert(self.found() =~= old(self).found());
            return;
        }
        self.devices[self.count] = Some(device);
        self.count += 1;
        assert(self.found() =~= old(self).found().push(device));
    }
}

/// The registers of a function, as they are read.
#[derive(Debug, Clone, Copy)]
pub struct RawFunction {
    pub id: u32,
    pub revision_class: u32,
    pub header: u32,
    pub bars: [u32; PCI_BAR_COUNT],
}

/// Byte `n` of a register.
pub open spec fn register_byte(register: u32, n: int) -> u8 {
    if n == 0 {
        (register % 0x100) as u8
    } else if n == 1 {
        (register / 0x100 % 0x100) as u8
    } else if n == 2 {
        (register / 0x1_0000 % 0x100) as u8
    } else {
        (register / 0x100_0000) as u8
    }
}

/// Whether there is a function at all.
pub open spec fn answers(raw: RawFunction) -> bool {
    raw.id % 0x1_0000 != PCI_VENDOR_NONE
}

/// What the registers of a function say.
pub open spec fn described(device: PciDevice, address: PciAddress, raw: RawFunction) -> bool {
    &&& device.address == address
    &&& device.vendor_id == raw.id % 0x1_0000
    &&& device.device_id == raw.id / 0x1_0000
    &&& device.class_code == register_byte(raw.revision_class, 3)
    &&& device.subclass == register_byte(raw.revision_class, 2)
    &&& device.prog_if == register_byte(raw.revision_class, 1)
    &&& device.revision == register_byte(raw.revision_class, 0)
    &&& device.header_type == register_byte(raw.header, 2)
    &&& device.bars == raw.bars
}

/// What the registers of a function say, if there is one.
pub fn read_pci_device(address: PciAddress, raw: &RawFunction) -> (device: Option<PciDevice>)
    ensures
        match device {
            Some(device) => answers(*raw) && described(device, address, *raw),
            None => !answers(*raw),
        },
{
    let vendor_id: u16 = (raw.id % 0x1_0000) as u16;
    if vendor_id == PCI_VENDOR_NONE {
        return None;
    }
    Some(
        PciDevice {
            address,
            vendor_id,
            device_id: (raw.id / 0x1_0000) as u16,
            class_code: (raw.revision_class / 0x100_0000) as u8,
            subclass: (raw.revision_class / 0x1_0000 % 0x100) as u8,
            prog_if: (raw.revision_class / 0x100 % 0x100) as u8,
            revision: (raw.revision_class % 0x100) as u8,
            header_type: (raw.header / 0x1_0000 % 0x100) as u8,
            bars: raw.bars,
        },
    )
}

/// Looking at every function on every bus, in order.
#[derive(Debug, Clone, Copy)]
pub struct PciScan {
    pub address: PciAddress,
    pub multifunction: bool,
    pub done: bool,
}

/// The address behind `address`: the next function of a device that has several, else the next device.
pub open spec fn next_address(address: PciAddress, more: bool) -> Option<PciAddress> {
    if more && address.function < 7 {
        Some(PciAddress { function: (address.function + 1) as u8, ..address })
    } else if address.device < 31 {
        Some(PciAddress { bus: address.bus, device: (address.device + 1) as u8, function: 0 })
    } else if address.bus < 255 {
        Some(PciAddress { bus: (address.bus + 1) as u8, device: 0, function: 0 })
    } else {
        None
    }
}

/// Whether the device of a function has others: its first function says so for all.
pub open spec fn has_others(scan: PciScan, raw: RawFunction) -> bool {
    if scan.address.function == 0 {
        answers(raw) && register_byte(raw.header, 2) & PCI_HEADER_MULTIFUNCTION != 0
    } else {
        scan.multifunction
    }
}

/// The scan behind a function that was read.
pub open spec fn scan_step(scan: PciScan, raw: RawFunction) -> PciScan {
    let more = has_others(scan, raw);
    match next_address(scan.address, more) {
        Some(address) => PciScan { address, multifunction: more, done: scan.done },
        None => PciScan { address: scan.address, multifunction: more, done: true },
    }
}

/// Whether a function is the legacy virtio device with this number.
pub open spec fn wanted(raw: RawFunction, device_id: u16) -> bool {
    raw.id % 0x1_0000 == VIRTIO_VENDOR_ID && raw.id / 0x1_0000 == device_id
}

impl PciScan {
    /// At the first function of all.
    pub fn new() -> (scan: PciScan)
        ensures
            scan.address == (PciAddress { bus: 0, device: 0, function: 0 }),
            !scan.multifunction,
            !scan.done,
    {
        PciScan { address: PciAddress::new(0, 0, 0), multifunction: false, done: false }
    }

    /// Which function is to be read, until all have been.
    pub fn wanted(&self) -> (address: Option<PciAddress>)
        ensures
            address == if self.done {
                None
            } else {
                Some(self.address)
            },
    {
        if self.done {
            None
        } else {
            Some(self.address)
        }
    }

    /// Goes on behind a function that was read.
    fn advance(&mut self, raw: &RawFunction)
        ensures
            *final(self) == scan_step(*old(self), *raw),
    {
        if self.address.function == 0 {
            let header_type: u8 = (raw.header / 0x1_0000 % 0x100) as u8;
            self.multifunction = (raw.id % 0x1_0000) as u16 != PCI_VENDOR_NONE && header_type
                & PCI_HEADER_MULTIFUNCTION != 0;
        }
        let at = self.address;
        if self.multifunction && at.function < 7 {
            self.address = PciAddress::new(at.bus, at.device, at.function + 1);
        } else if at.device < 31 {
            self.address = PciAddress::new(at.bus, at.device + 1, 0);
        } else if at.bus < 255 {
            self.address = PciAddress::new(at.bus + 1, 0, 0);
        } else {
            self.done = true;
        }
    }

    /// Takes a function that was read into the inventory, and goes on behind it.
    pub fn scan_pci(&mut self, inventory: &mut PciInventory, raw: &RawFunction)
        requires
            old(inventory).well_formed(),
        ensures
            final(inventory).well_formed(),
            if !answers(*raw) {
                *final(inventory) == *old(inventory)
            } else if old(inventory).found().len() < MAX_PCI_DEVICES {
                &&& final(inventory).found().len() == old(inventory).found().len() + 1
                &&& final(inventory).found().drop_last() == old(inventory).found()
                &&& described(final(inventory).found().last(), old(self).address, *raw)
                &&& final(inventory).overflow == old(inventory).overflow
            } else {
                final(inventory).found() == old(inventory).found() && final(inventory).overflow
            },
            *final(self) == scan_step(*old(self), *raw),
    {
        match read_pci_device(self.address, raw) {
            Some(device) => {
                inventory.push(device);
                proof {
                    if old(inventory).found().len() < MAX_PCI_DEVICES {
                        assert(inventory.found().drop_last() =~= old(inventory).found());
                    }
                }
            },
            None => {},
        }
        self.advance(raw);
    }

    /// Whether a function that was read is the legacy virtio device that is looked for; if it is not,
    /// goes on behind it.
    pub fn find_legacy_virtio_device(&mut self, raw: &RawFunction, device_id: u16) -> (device: Option<
        PciDevice,
    >)
        ensures
            ({
                if wanted(*raw, device_id) {
                    device matches Some(device) && described(device, old(self).address, *raw)
                        && *final(self) == *old(self)
                } else {
                    device is None && *final(self) == scan_step(*old(self), *raw)
                }
            }),
    {
        if (raw.id % 0x1_0000) as u16 == VIRTIO_VENDOR_ID && (raw.id / 0x1_0000) as u16 == device_id {
            return read_pci_device(self.address, raw);
        }
        self.advance(raw);
        None
    }
}

/// The place of an address in the order of the scan.
pub open spec fn scan_place(address: PciAddress) -> int {
    (address.bus * 32 + address.device) * 8 + address.function
}

/// The scan only goes forward, so that it ends.
pub proof fn the_scan_goes_forward(address: PciAddress, more: bool)
    requires
        address.device < 32,
        address.function < 8,
    ensures
        next_address(address, more) matches Some(next) ==> scan_place(next) > scan_place(address)
            && next.device < 32 && next.function < 8,
{
}

/// The scan after `n` functions of a bus were read.
pub open spec fn scan_after(bus: spec_fn(PciAddress) -> RawFunction, n: nat) -> PciScan
    decreases n,
{
    if n == 0 {
        PciScan {
            address: PciAddress { bus: 0, device: 0, function: 0 },
            multifunction: false,
            done: false,
        }
    } else {
        let scan = scan_after(bus, (n - 1) as nat);
        if scan.done {
            scan
        } else {
            scan_step(scan, bus(scan.address))
        }
    }
}

/// The device that a function is.
pub open spec fn device_of(address: PciAddress, raw: RawFunction) -> PciDevice {
    PciDevice {
        address,
        vendor_id: (raw.id % 0x1_0000) as u16,
        device_id: (raw.id / 0x1_0000) as u16,
        class_code: register_byte(raw.revision_class, 3),
        subclass: register_byte(raw.revision_class, 2),
        prog_if: register_byte(raw.revision_class, 1),
        revision: register_byte(raw.revision_class, 0),
        header_type: register_byte(raw.header, 2),
        bars: raw.bars,
    }
}

/// The devices among the first `n` functions of a bus that are read, as an inventory with room for them
/// takes them.
pub open spec fn devices_on(bus: spec_fn(PciAddress) -> RawFunction, n: nat) -> Seq<PciDevice>
    decreases n,
{
    if n == 0 {
        seq![]
    } else {
        let scan = scan_after(bus, (n - 1) as nat);
        let before = devices_on(bus, (n - 1) as nat);
        if !scan.done && answers(bus(scan.address)) {
            before.push(device_of(scan.address, bus(scan.address)))
        } else {
            before
        }
    }
}

/// What a search for a legacy virtio device finds within the first `n` functions of a bus.
pub open spec fn search_on(bus: spec_fn(PciAddress) -> RawFunction, device_id: u16, n: nat) -> Option<
    PciDevice,
>
    decreases n,
{
    if n == 0 {
        None
    } else {
        let scan = scan_after(bus, (n - 1) as nat);
        match search_on(bus, device_id, (n - 1) as nat) {
            Some(device) => Some(device),
            None => if !scan.done && wanted(bus(scan.address), device_id) {
                Some(device_of(scan.address, bus(scan.address)))
            } else {
                None
            },
        }
    }
}

/// The role that is looked for by a number.
pub open spec fn role_for(device_id: u16) -> PciDeviceRole {
    role_of(VIRTIO_VENDOR_ID, device_id, 0, 0)
}

proof fn lemma_first_role_stays(devices: Seq<PciDevice>, device: PciDevice, n: nat, role: PciDeviceRole)
    requires
        n <= devices.len(),
    ensures
        first_with_role(devices.push(device), n, role) == first_with_role(devices, n, role),
    decreases n,
{
    if n > 0 {
        lemma_first_role_stays(devices, device, (n - 1) as nat, role);
    }
}

/// The inventory and the search agree: what the inventory has as the disk or the network is what a
/// search for it finds, as long as the inventory has room.
pub proof fn the_search_finds_what_the_inventory_has(
    bus: spec_fn(PciAddress) -> RawFunction,
    device_id: u16,
    n: nat,
)
    requires
        device_id == VIRTIO_BLOCK_LEGACY_DEVICE_ID || device_id == VIRTIO_NET_LEGACY_DEVICE_ID,
    ensures
        first_with_role(devices_on(bus, n), devices_on(bus, n).len(), role_for(device_id)) == match search_on(
            bus,
            device_id,
            n,
        ) {
            Some(device) => Some(device.address),
            None => None,
        },
    decreases n,
{
    if n > 0 {
        let m = (n - 1) as nat;
        the_search_finds_what_the_inventory_has(bus, device_id, m);
        let scan = scan_after(bus, m);
        let before = devices_on(bus, m);
        let raw = bus(scan.address);
        if !scan.done && answers(raw) {
            let device = device_of(scan.address, raw);
            lemma_first_role_stays(before, device, before.len(), role_for(device_id));
            assert((device.purpose() == role_for(device_id)) == wanted(raw, device_id));
        }
    }
}

/// The command register with ports and bus mastering enabled.
pub fn enable_io_bus_master(command: u16) -> (enabled: u16)
    ensures
        enabled == command | PCI_COMMAND_IO_SPACE | PCI_COMMAND_BUS_MASTER,
{
    command | PCI_COMMAND_IO_SPACE | PCI_COMMAND_BUS_MASTER
}

/// What is written to reach a register of a function.
pub open spec fn config_address(address: PciAddress, offset: u8) -> u32 {
    0x8000_0000 | ((address.bus as u32) << 16) | ((address.device as u32) << 11) | ((
    address.function as u32) << 8) | ((offset & 0xfc) as u32)
}

/// What is written to reach a register of a function.
pub fn pci_config_address(address: PciAddress, offset: u8) -> (value: u32)
    ensures
        value == config_address(address, offset),
{
    0x8000_0000 | ((address.bus as u32) << 16) | ((address.device as u32) << 11) | ((
    address.function as u32) << 8) | ((offset & 0xfc) as u32)
}

/// Different registers are reached differently.
pub proof fn registers_are_told_apart(a: PciAddress, a_offset: u8, b: PciAddress, b_offset: u8)
    requires
        a.device < 32,
        a.function < 8,
        b.device < 32,
        b.function < 8,
        config_address(a, a_offset) == config_address(b, b_offset),
    ensures
        a == b,
        a_offset / 4 == b_offset / 4,
{
    let (ab, ad, af, ao) = (a.bus, a.device, a.function, a_offset);
    let (bb, bd, bf, bo) = (b.bus, b.device, b.function, b_offset);
    assert(ab == bb && ad == bd && af == bf && ao / 4 == bo / 4) by (bit_vector)
        requires
            ad < 32,
            af < 8,
            bd < 32,
            bf < 8,
            0x8000_0000u32 | ((ab as u32) << 16) | ((ad as u32) << 11) | ((af as u32) << 8) | ((ao
                & 0xfc) as u32) == 0x8000_0000u32 | ((bb as u32) << 16) | ((bd as u32) << 11) | ((
            bf as u32) << 8) | ((bo & 0xfc) as u32),
    ;
}

/// What a function of the bus is for: by its device number where the vendor is the one of virtual devices,
/// and else by its class.
pub proof fn a_function_is_for_what_its_class_says(
    vendor_id: u16,
    device_id: u16,
    class_code: u8,
    subclass: u8,
)
    ensures
        ({
            let role = role_of(vendor_id, device_id, class_code, subclass);
            &&& role == PciDeviceRole::VirtioNet <==> vendor_id == 0x1af4 && device_id == 0x1000
            &&& role == PciDeviceRole::VirtioBlock <==> vendor_id == 0x1af4 && device_id == 0x1001
            &&& role == PciDeviceRole::VirtioOther <==> vendor_id == 0x1af4 && 0x1002 <= device_id
                <= 0x103f
            &&& role == PciDeviceRole::StorageController <==> vendor_id != 0x1af4 && class_code == 1
            &&& role == PciDeviceRole::NetworkController <==> vendor_id != 0x1af4 && class_code == 2
            &&& role == PciDeviceRole::DisplayController <==> vendor_id != 0x1af4 && class_code == 3
            &&& role == PciDeviceRole::HostBridge <==> vendor_id != 0x1af4 && class_code == 6 && subclass
                == 0
            &&& role == PciDeviceRole::IsaBridge <==> vendor_id != 0x1af4 && class_code == 6 && subclass
                == 1
            &&& role == PciDeviceRole::PciBridge <==> vendor_id != 0x1af4 && class_code == 6 && subclass
                == 4
            &&& role == PciDeviceRole::InputController <==> vendor_id != 0x1af4 && class_code == 9
            &&& role == PciDeviceRole::UsbController <==> vendor_id != 0x1af4 && class_code == 12
                && subclass == 3
        }),
{
}

/// Functions are counted by what they are for: as many as there are.
pub proof fn functions_are_counted(devices: Seq<PciDevice>, a: PciDeviceRole, b: PciDeviceRole)
    ensures
        count_roles(devices, devices.len(), a, b) == devices.filter(
            |device: PciDevice| device.purpose() == a || device.purpose() == b,
        ).len(),
        count_ports(devices, devices.len()) == devices.filter(
            |device: PciDevice| io_port(device.bars@[0]) is Some,
        ).len(),
    decreases devices.len(),
{
    reveal(Seq::filter);
    if devices.len() > 0 {
        let before = devices.drop_last();
        functions_are_counted(before, a, b);
        lemma_same_counts(before, devices, before.len(), a, b);
    }
}

proof fn lemma_same_counts(
    x: Seq<PciDevice>,
    y: Seq<PciDevice>,
    n: nat,
    a: PciDeviceRole,
    b: PciDeviceRole,
)
    requires
        n <= x.len(),
        n <= y.len(),
        forall|i: int| 0 <= i < n ==> x[i] == y[i],
    ensures
        count_roles(x, n, a, b) == count_roles(y, n, a, b),
        count_ports(x, n) == count_ports(y, n),
    decreases n,
{
    if n > 0 {
        lemma_same_counts(x, y, (n - 1) as nat, a, b);
    }
}

/// The summary counts each kind of function once: bridges of three kinds, storage and network virtual or
/// not, and the virtual ones together.
pub proof fn the_summary_counts_every_kind(devices: Seq<PciDevice>, overflow: bool)
    requires
        devices.len() <= 64,
    ensures
        ({
            let n = devices.len();
            let summary = summary_of(devices, n, overflow);
            let one = |role: PciDeviceRole| count_roles(devices, n, role, role);
            &&& summary.pci_devices == n
            &&& summary.overflow == overflow
            &&& summary.bridge_devices == one(PciDeviceRole::HostBridge) + one(PciDeviceRole::IsaBridge)
                + one(PciDeviceRole::PciBridge)
            &&& summary.storage_controllers == one(PciDeviceRole::VirtioBlock) + one(
                PciDeviceRole::StorageController,
            )
            &&& summary.network_controllers == one(PciDeviceRole::VirtioNet) + one(
                PciDeviceRole::NetworkController,
            )
            &&& summary.display_controllers == one(PciDeviceRole::DisplayController)
            &&& summary.usb_controllers == one(PciDeviceRole::UsbController)
            &&& summary.input_controllers == one(PciDeviceRole::InputController)
            &&& summary.io_bar_devices == count_ports(devices, n)
            &&& summary.virtio_legacy_devices == one(PciDeviceRole::VirtioBlock) + one(
                PciDeviceRole::VirtioNet,
            ) + one(PciDeviceRole::VirtioOther)
        }),
{
    let n = devices.len();
    lemma_two_roles(devices, n, PciDeviceRole::HostBridge, PciDeviceRole::IsaBridge);
    lemma_two_roles(devices, n, PciDeviceRole::PciBridge, PciDeviceRole::HostBridge);
    lemma_two_roles(devices, n, PciDeviceRole::VirtioBlock, PciDeviceRole::StorageController);
    lemma_two_roles(devices, n, PciDeviceRole::VirtioNet, PciDeviceRole::NetworkController);
    lemma_two_roles(devices, n, PciDeviceRole::VirtioBlock, PciDeviceRole::VirtioNet);
    lemma_two_roles(devices, n, PciDeviceRole::DisplayController, PciDeviceRole::UsbController);
    lemma_two_roles(devices, n, PciDeviceRole::InputController, PciDeviceRole::VirtioOther);
}

proof fn lemma_two_roles(devices: Seq<PciDevice>, n: nat, a: PciDeviceRole, b: PciDeviceRole)
    requires
        a != b,
    ensures
        count_roles(devices, n, a, b) == count_roles(devices, n, a, a) + count_roles(devices, n, b, b),
        count_roles(devices, n, a, b) <= n,
        count_ports(devices, n) <= n,
    decreases n,
{
    if n > 0 {
        lemma_two_roles(devices, (n - 1) as nat, a, b);
    }
}

/// The first function for a purpose is the one before which there is none for it.
#[verifier::spinoff_prover]
pub proof fn the_first_function_for_a_purpose_is_found(
    devices: Seq<PciDevice>,
    n: nat,
    role: PciDeviceRole,
    i: int,
)
    requires
        0 <= i <= n <= devices.len(),
        forall|j: int| 0 <= j < i ==> (#[trigger] devices[j]).purpose() != role,
        i < n ==> devices[i].purpose() == role,
    ensures
        first_with_role(devices, n, role) == if i < n {
            Some(devices[i].address)
        } else {
            None
        },
    decreases n,
{
    if n > 0 {
        let m = (n - 1) as nat;
        if i <= m {
            the_first_function_for_a_purpose_is_found(devices, m, role, i);
        } else {
            the_first_function_for_a_purpose_is_found(devices, m, role, m as int);
            assert(devices[m as int].purpose() != role);
        }
    }
}

/// The scan goes through every place of the bus in order: to the next function of a device that has
/// several, and else to the first function of the next device, up to the last.
pub proof fn the_scan_leaves_no_device_out(address: PciAddress, more: bool)
    requires
        address.device < 32,
        address.function < 8,
    ensures
        ({
            let place = (address.bus * 32 + address.device) * 8 + address.function;
            let next = next_address(address, more);
            &&& more && address.function < 7 ==> (next matches Some(n) && (n.bus * 32 + n.device) * 8
                + n.function == place + 1)
            &&& (!more || address.function == 7) && (address.bus < 255 || address.device < 31) ==> (
            next matches Some(n) && (n.bus * 32 + n.device) * 8 + n.function == (place / 8 + 1) * 8)
            &&& (!more || address.function == 7) && address.bus == 255 && address.device == 31
                ==> next is None
        }),
{
}

/// What a function says of itself, register by register.
pub proof fn a_function_is_what_its_registers_say(
    device: PciDevice,
    address: PciAddress,
    raw: RawFunction,
)
    requires
        described(device, address, raw),
    ensures
        device.address == address,
        device.vendor_id + 0x1_0000 * device.device_id == raw.id,
        device.revision + 0x100 * device.prog_if + 0x1_0000 * device.subclass + 0x100_0000
            * device.class_code == raw.revision_class,
        device.header_type == raw.header as int / 0x1_0000 % 0x100,
        device.bars == raw.bars,
        answers(raw) <==> raw.id as int % 0x1_0000 != 0xffff,
{
}

/// A device has several functions if its first one is there and says so; the scan then looks at them.
pub proof fn a_device_says_that_it_has_several_functions(scan: PciScan, raw: RawFunction)
    requires
        scan.address.function == 0,
        raw.id as int % 0x1_0000 != 0xffff,
    ensures
        has_others(scan, raw) <==> ((raw.header as int / 0x1_0000 % 0x100) as u8) & 0x80 != 0,
{
}

/// The address of a register has a one in front, then bus, device, function and register.
pub proof fn a_register_address_has_its_parts(address: PciAddress, offset: u8)
    requires
        address.device < 32,
        address.function < 8,
    ensures
        config_address(address, offset) == 0x8000_0000 + 0x1_0000 * address.bus + 0x800 * address.device
            + 0x100 * address.function + offset as int / 4 * 4,
{
    let bus = address.bus as u32;
    let device = address.device as u32;
    let function = address.function as u32;
    assert(0x8000_0000u32 | (bus << 16) | (device << 11) | (function << 8) | ((offset & 0xfc) as u32)
        == 0x8000_0000u32 + 0x1_0000u32 * bus + 0x800u32 * device + 0x100u32 * function + (offset / 4)
        * 4) by (bit_vector)
        requires
            bus < 256,
            device < 32,
            function < 8,
    ;
}

/// A base register is a port if and only if its lowest bit says so and the port is one; its two lowest
/// bits are no part of it.
pub proof fn a_base_register_may_be_a_port(bar: u32)
    ensures
        io_port(bar) is Some <==> bar as int % 2 == 1 && bar < 0x1_0000,
        io_port(bar) matches Some(port) ==> port == bar - bar as int % 4,
{
}

/// A device is found by its address: the first one there.
pub proof fn a_device_is_found_by_its_address(
    devices: Seq<PciDevice>,
    address: PciAddress,
    from: int,
    i: int,
)
    requires
        0 <= from <= i <= devices.len(),
        forall|j: int| from <= j < i ==> (#[trigger] devices[j]).address != address,
        i < devices.len() ==> devices[i].address == address,
    ensures
        i < devices.len() ==> device_at(devices, address, from) == Some(devices[i]),
        i == devices.len() ==> device_at(devices, address, from) is None,
    decreases i - from,
{
    if from < i {
        assert(devices[from].address != address);
        a_device_is_found_by_its_address(devices, address, from + 1, i);
    }
}

} // verus!
