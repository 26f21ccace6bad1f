//! The virtio network device: how it is found, and how frames go in and out.

use vstd::prelude::*;
use crate::bytes::{all_zero, zero_between};
use crate::network::frame::{NetworkError, MAX_ETHERNET_FRAME};
use crate::virtio::{
    accepts_driver, another_look, device_runs, io_base, io_port, pages_for, queue_bytes, queue_frame,
    queue_frame_number, queue_pages, used_ring_offset, Completion, Submission, VirtqDescriptor,
    Virtqueue, WaitStep, VIRTIO_STATUS_ACKNOWLEDGE, VIRTIO_STATUS_DRIVER, VIRTIO_STATUS_DRIVER_OK,
    VIRTQ_DESC_F_WRITE,
};

verus! {

pub const VIRTIO_NET_F_MAC: u32 = 0x20;

pub const RX_QUEUE_INDEX: u16 = 0;

pub const TX_QUEUE_INDEX: u16 = 1;

/// What stands before every frame in a buffer.
pub const VIRTIO_NET_HEADER_BYTES: usize = 10;

pub const DMA_BUFFER_BYTES: usize = 4096;

pub const DEVICE_TIMEOUT_SPINS: usize = 20_000_000;

pub const PROTOCOL_TIMEOUT_SPINS: usize = 100_000_000;

/// Whether a device may have this hardware address: one station's, and not that of all.
pub open spec fn usable_mac(mac: Seq<u8>) -> bool {
    &&& !zero_between(mac, 0, 6)
    &&& !(forall|i: int| 0 <= i < 6 ==> #[trigger] mac[i] == 0xff)
    &&& mac[0] % 2 == 0
}

/// Whether a device may have this hardware address.
pub fn is_usable_mac(mac: &[u8; 6]) -> (usable: bool)
    ensures
        usable == usable_mac(mac@),
{
    if all_zero(mac) || mac[0] % 2 != 0 {
        return false;
    }
    assert(mac@[0] != 0xff);
    true
}

/// A virtio network device: what the driver knows of it, its two queues, their buffers, and how many
/// frames went through.
#[derive(Clone, Copy)]
pub struct VirtioNet {
    pub pci_bus: u8,
    pub pci_device: u8,
    pub pci_function: u8,
    pub io_base: u16,
    pub mac: [u8; 6],
    pub rx: Virtqueue,
    pub tx: Virtqueue,
    pub rx_buffer_phys: u64,
    pub tx_buffer_phys: u64,
    pub transmitted_frames: u64,
    pub received_frames: u64,
}

/// A saturating count of one more.
pub open spec fn counted(count: u64) -> u64 {
    if count == u64::MAX {
        count
    } else {
        (count + 1) as u64
    }
}

impl VirtioNet {
    /// Both queues can take a request.
    pub open spec fn well_formed(&self) -> bool {
        &&& self.rx.size > 0
        &&& self.tx.size > 0
        &&& usable_mac(self.mac@)
    }

    /// Hands the receive buffer to the device.
    pub fn post_receive_buffer(&mut self) -> (post: (VirtqDescriptor, Submission))
        requires
            old(self).well_formed(),
        ensures
            post.0 == (VirtqDescriptor {
                address: old(self).rx_buffer_phys,
                length: DMA_BUFFER_BYTES as u32,
                flags: VIRTQ_DESC_F_WRITE,
                next: 0,
            }),
            post.1.available_index == old(self).rx.available_index.wrapping_add(1),
            post.1.ring_offset == 16 * old(self).rx.size + 4 + old(self).rx.available_index as int
                % old(self).rx.size as int * 2,
            post.1.index_offset == 16 * old(self).rx.size + 2,
            *final(self) == (VirtioNet {
                rx: Virtqueue { available_index: post.1.available_index, ..old(self).rx },
                ..*old(self)
            }),
    {
        let submission = self.rx.submit();
        (
            VirtqDescriptor {
                address: self.rx_buffer_phys,
                length: DMA_BUFFER_BYTES as u32,
                flags: VIRTQ_DESC_F_WRITE,
                next: 0,
            },
            submission,
        )
    }

    /// Begins to send a frame of this length, which stands in the buffer behind a cleared header.
    pub fn transmit(&mut self, frame_length: usize) -> (result: Result<
        (VirtqDescriptor, Submission),
        NetworkError,
    >)
        requires
            old(self).well_formed(),
        ensures
            match result {
                Ok((descriptor, submission)) => {
                    &&& frame_length <= MAX_ETHERNET_FRAME
                    &&& descriptor == (VirtqDescriptor {
                        address: old(self).tx_buffer_phys,
                        length: (VIRTIO_NET_HEADER_BYTES + frame_length) as u32,
                        flags: 0,
                        next: 0,
                    })
                    &&& submission.available_index == old(self).tx.available_index.wrapping_add(1)
                    &&& submission.ring_offset == 16 * old(self).tx.size + 4 + old(
                        self).tx.available_index as int % old(self).tx.size as int * 2
                    &&& submission.index_offset == 16 * old(self).tx.size + 2
                    &&& *final(self) == (VirtioNet {
                        tx: Virtqueue {
                            available_index: submission.available_index,
                            ..old(self).tx
                        },
                        ..*old(self)
                    })
                },
                Err(error) => frame_length > MAX_ETHERNET_FRAME && error
                    == NetworkError::FrameTooLarge && *final(self) == *old(self),
            },
    {
        if frame_length > MAX_ETHERNET_FRAME {
            return Err(NetworkError::FrameTooLarge);
        }
        let submission = self.tx.submit();
        Ok(
            (
                VirtqDescriptor {
                    address: self.tx_buffer_phys,
                    length: (VIRTIO_NET_HEADER_BYTES + frame_length) as u32,
                    flags: 0,
                    next: 0,
                },
                submission,
            ),
        )
    }

    /// Whether the frame that is being sent has been; one that has is counted.
    pub fn transmitted(&mut self, device_index: u16, descriptor: u32) -> (result: Result<
        bool,
        NetworkError,
    >)
        ensures
            match result {
                Ok(done) => {
                    &&& done == (device_index != old(self).tx.used_index)
                    &&& done ==> device_index == old(self).tx.used_index.wrapping_add(1)
                        && descriptor == 0 && *final(self) == (VirtioNet {
                        tx: Virtqueue { used_index: device_index, ..old(self).tx },
                        transmitted_frames: counted(old(self).transmitted_frames),
                        ..*old(self)
                    })
                    &&& !done ==> *final(self) == *old(self)
                },
                Err(error) => {
                    &&& error == NetworkError::DeviceRejected
                    &&& device_index != old(self).tx.used_index
                    &&& device_index != old(self).tx.used_index.wrapping_add(1) || descriptor != 0
                    &&& *final(self) == *old(self)
                },
            },
    {
        match self.tx.completion(device_index, descriptor, 0) {
            Completion::Pending => Ok(false),
            Completion::Rejected => Err(NetworkError::DeviceRejected),
            Completion::Done(_) => {
                self.transmitted_frames = self.transmitted_frames.saturating_add(1);
                Ok(true)
            },
        }
    }

    /// Looks whether the frame that is being sent has been, after `spins` looks before. One that is not
    /// sent in time is given up.
    pub fn wait_step(&mut self, spins: usize, device_index: u16, descriptor: u32) -> (step: Result<
        WaitStep,
        NetworkError,
    >)
        ensures
            ({
                let pending = device_index == old(self).tx.used_index;
                let done = device_index == old(self).tx.used_index.wrapping_add(1) && descriptor
                    == 0;
                &&& step == if spins >= DEVICE_TIMEOUT_SPINS {
                    Err::<WaitStep, NetworkError>(NetworkError::RequestTimedOut)
                } else if pending {
                    Ok(another_look(spins))
                } else if done {
                    Ok(WaitStep::Done)
                } else {
                    Err(NetworkError::DeviceRejected)
                }
                &&& *final(self) == if spins < DEVICE_TIMEOUT_SPINS && !pending && done {
                    VirtioNet {
                        tx: Virtqueue { used_index: device_index, ..old(self).tx },
                        transmitted_frames: counted(old(self).transmitted_frames),
                        ..*old(self)
                    }
                } else {
                    *old(self)
                }
            }),
    {
        if spins >= DEVICE_TIMEOUT_SPINS {
            return Err(NetworkError::RequestTimedOut);
        }
        match self.transmitted(device_index, descriptor) {
            Ok(true) => Ok(WaitStep::Done),
            Ok(false) => Ok(WaitStep::Again { spins: spins + 1, read_isr: spins % 0x4000 == 0 }),
            Err(error) => Err(error),
        }
    }

    /// How long the frame is that has come in, if one has; one that has is counted. It stands in the
    /// buffer behind its header.
    pub fn try_receive(&mut self, device_index: u16, descriptor: u32, length: u32) -> (result: Result<
        Option<usize>,
        NetworkError,
    >)
        ensures
            match result {
                Ok(None) => device_index == old(self).rx.used_index && *final(self) == *old(self),
                Ok(Some(frame_length)) => {
                    &&& device_index != old(self).rx.used_index
                    &&& device_index == old(self).rx.used_index.wrapping_add(1) && descriptor == 0
                    &&& frame_length == length - VIRTIO_NET_HEADER_BYTES
                    &&& frame_length <= MAX_ETHERNET_FRAME
                    &&& *final(self) == (VirtioNet {
                        rx: Virtqueue { used_index: device_index, ..old(self).rx },
                        received_frames: counted(old(self).received_frames),
                        ..*old(self)
                    })
                },
                Err(error) => {
                    let done = device_index == old(self).rx.used_index.wrapping_add(1)
                        && descriptor == 0;
                    &&& device_index != old(self).rx.used_index
                    &&& error == if !done {
                        NetworkError::DeviceRejected
                    } else if length < VIRTIO_NET_HEADER_BYTES || length > DMA_BUFFER_BYTES {
                        NetworkError::PacketMalformed
                    } else {
                        NetworkError::FrameTooLarge
                    }
                    &&& done ==> length < VIRTIO_NET_HEADER_BYTES || length
                        > VIRTIO_NET_HEADER_BYTES + MAX_ETHERNET_FRAME
                    &&& *final(self) == if done {
                        VirtioNet {
                            rx: Virtqueue { used_index: device_index, ..old(self).rx },
                            ..*old(self)
                        }
                    } else {
                        *old(self)
                    }
                },
            },
    {
        match self.rx.completion(device_index, descriptor, length) {
            Completion::Pending => Ok(None),
            Completion::Rejected => Err(NetworkError::DeviceRejected),
            Completion::Done(length) => {
                let bytes: usize = length as usize;
                if bytes < VIRTIO_NET_HEADER_BYTES || bytes > DMA_BUFFER_BYTES {
                    return Err(NetworkError::PacketMalformed);
                }
                let frame_length: usize = bytes - VIRTIO_NET_HEADER_BYTES;
                if frame_length > MAX_ETHERNET_FRAME {
                    return Err(NetworkError::FrameTooLarge);
                }
                self.received_frames = self.received_frames.saturating_add(1);
                Ok(Some(frame_length))
            },
        }
    }
}

/// How far the search for the device has come.
#[derive(Debug, Clone, Copy, PartialEq, Eq, Structural)]
pub enum NetProbe {
    Bar,
    HostFeatures { io_base: u16 },
    RxSize { io_base: u16 },
    RxMemory { io_base: u16, rx: u16 },
    TxSize { io_base: u16, rx: u16 },
    TxMemory { io_base: u16, rx: u16, tx: u16 },
    RxBuffer { io_base: u16, rx: u16, tx: u16 },
    TxBuffer { io_base: u16, rx: u16, tx: u16, rx_buffer: u64 },
    Mac { io_base: u16, rx: u16, tx: u16, rx_buffer: u64, tx_buffer: u64 },
    Status { io_base: u16, rx: u16, tx: u16, rx_buffer: u64, tx_buffer: u64, mac: u64 },
    Ready { io_base: u16, rx: u16, tx: u16, rx_buffer: u64, tx_buffer: u64, mac: u64 },
}

/// What is asked of the hardware next.
#[derive(Debug, Clone, Copy, PartialEq, Eq, Structural)]
pub enum NetProbeAction {
    /// Enable the device, reset it, announce the driver, then read the host features.
    Announce { io_base: u16, status: u8 },
    /// Write the guest features, select the receive queue, then read its size.
    Negotiate { features: u32, queue: u16 },
    /// Allocate a queue's pages.
    AllocateQueue { pages: u64 },
    /// Clear a queue, tell the device its page frame number, select the next queue, then read its
    /// size.
    PlaceQueue { frame: u32, next_queue: u16 },
    /// Clear the last queue, tell the device its page frame number, then allocate a buffer.
    PlaceLastQueue { frame: u32 },
    /// Clear the buffer, then allocate another.
    AllocateBuffer,
    /// Clear the buffer, then read the hardware address, first byte lowest.
    ReadMac,
    /// Write the final status, then read it back.
    Start { status: u8 },
    /// Nothing more.
    Done,
}

/// What the hardware answered: a register, or where memory was allocated.
#[derive(Debug, Clone, Copy, PartialEq, Eq, Structural)]
pub enum NetProbeReply {
    Value(u64),
    Memory(Option<u64>),
}

/// The bytes of a hardware address that was read into a number, first byte lowest.
pub open spec fn mac_bytes(mac: u64) -> Seq<u8> {
    seq![
        (mac % 0x100) as u8,
        (mac / 0x100 % 0x100) as u8,
        (mac / 0x1_0000 % 0x100) as u8,
        (mac / 0x100_0000 % 0x100) as u8,
        (mac / 0x1_0000_0000 % 0x100) as u8,
        (mac / 0x100_0000_0000 % 0x100) as u8,
    ]
}

/// The bytes of a hardware address that was read into a number, first byte lowest.
fn mac_array(mac: u64) -> (bytes: [u8; 6])
    ensures
        bytes@ == mac_bytes(mac),
{
    let bytes: [u8; 6] = [
        (mac % 0x100) as u8,
        (mac / 0x100 % 0x100) as u8,
        (mac / 0x1_0000 % 0x100) as u8,
        (mac / 0x100_0000 % 0x100) as u8,
        (mac / 0x1_0000_0000 % 0x100) as u8,
        (mac / 0x100_0000_0000 % 0x100) as u8,
    ];
    assert(bytes@ =~= mac_bytes(mac));
    bytes
}

/// The next state and action, or why the search ends.
pub open spec fn net_probe_step(state: NetProbe, reply: NetProbeReply) -> Result<
    (NetProbe, NetProbeAction),
    NetworkError,
> {
    match (state, reply) {
        (NetProbe::Bar, NetProbeReply::Value(bar)) => match io_port(bar as u32) {
            None => Err(NetworkError::InvalidIoBar),
            Some(io_base) => Ok(
                (
                    NetProbe::HostFeatures { io_base },
                    NetProbeAction::Announce {
                        io_base,
                        status: VIRTIO_STATUS_ACKNOWLEDGE | VIRTIO_STATUS_DRIVER,
                    },
                ),
            ),
        },
        (NetProbe::HostFeatures { io_base }, NetProbeReply::Value(host)) => if host as u32
            & VIRTIO_NET_F_MAC == 0 {
            Err(NetworkError::DeviceRejected)
        } else {
            Ok(
                (
                    NetProbe::RxSize { io_base },
                    NetProbeAction::Negotiate {
                        features: VIRTIO_NET_F_MAC,
                        queue: RX_QUEUE_INDEX,
                    },
                ),
            )
        },
        (NetProbe::RxSize { io_base }, NetProbeReply::Value(size)) => if size as u16 == 0 {
            Err(NetworkError::QueueUnavailable(RX_QUEUE_INDEX))
        } else {
            Ok(
                (
                    NetProbe::RxMemory { io_base, rx: size as u16 },
                    NetProbeAction::AllocateQueue {
                        pages: pages_for(queue_bytes(size as u16 as int)) as u64,
                    },
                ),
            )
        },
        (NetProbe::RxMemory { io_base, rx }, NetProbeReply::Memory(Some(physical))) => {
            match queue_frame_number(physical) {
                None => Err(NetworkError::QueueAddressTooHigh),
                Some(frame) => Ok(
                    (
                        NetProbe::TxSize { io_base, rx },
                        NetProbeAction::PlaceQueue { frame, next_queue: TX_QUEUE_INDEX },
                    ),
                ),
            }
        },
        (NetProbe::TxSize { io_base, rx }, NetProbeReply::Value(size)) => if size as u16 == 0 {
            Err(NetworkError::QueueUnavailable(TX_QUEUE_INDEX))
        } else {
            Ok(
                (
                    NetProbe::TxMemory { io_base, rx, tx: size as u16 },
                    NetProbeAction::AllocateQueue {
                        pages: pages_for(queue_bytes(size as u16 as int)) as u64,
                    },
                ),
            )
        },
        (NetProbe::TxMemory { io_base, rx, tx }, NetProbeReply::Memory(Some(physical))) => {
            match queue_frame_number(physical) {
                None => Err(NetworkError::QueueAddressTooHigh),
                Some(frame) => Ok(
                    (
                        NetProbe::RxBuffer { io_base, rx, tx },
                        NetProbeAction::PlaceLastQueue { frame },
                    ),
                ),
            }
        },
        (NetProbe::RxBuffer { io_base, rx, tx }, NetProbeReply::Memory(Some(rx_buffer))) => Ok(
            (
                NetProbe::TxBuffer { io_base, rx, tx, rx_buffer },
                NetProbeAction::AllocateBuffer,
            ),
        ),
        (
            NetProbe::TxBuffer { io_base, rx, tx, rx_buffer },
            NetProbeReply::Memory(Some(tx_buffer)),
        ) => Ok(
            (
                NetProbe::Mac { io_base, rx, tx, rx_buffer, tx_buffer },
                NetProbeAction::ReadMac,
            ),
        ),
        (NetProbe::Mac { io_base, rx, tx, rx_buffer, tx_buffer }, NetProbeReply::Value(mac)) => {
            if !usable_mac(mac_bytes(mac)) {
                Err(NetworkError::DeviceRejected)
            } else {
                Ok(
                    (
                        NetProbe::Status { io_base, rx, tx, rx_buffer, tx_buffer, mac },
                        NetProbeAction::Start {
                            status: VIRTIO_STATUS_ACKNOWLEDGE | VIRTIO_STATUS_DRIVER
                                | VIRTIO_STATUS_DRIVER_OK,
                        },
                    ),
                )
            }
        },
        (
            NetProbe::Status { io_base, rx, tx, rx_buffer, tx_buffer, mac },
            NetProbeReply::Value(status),
        ) => if !device_runs(status as u8) {
            Err(NetworkError::DeviceRejected)
        } else {
            Ok(
                (
                    NetProbe::Ready { io_base, rx, tx, rx_buffer, tx_buffer, mac },
                    NetProbeAction::Done,
                ),
            )
        },
        (NetProbe::Ready { io_base, rx, tx, rx_buffer, tx_buffer, mac }, _) => Ok(
            (
                NetProbe::Ready { io_base, rx, tx, rx_buffer, tx_buffer, mac },
                NetProbeAction::Done,
            ),
        ),
        _ => Err(NetworkError::DmaAddressUnavailable),
    }
}

impl NetProbe {
    /// Takes the search one step further. Registers that are narrower than 64 bits come in the low
    /// bits of their value.
    pub fn step(self, reply: NetProbeReply) -> (result: Result<
        (NetProbe, NetProbeAction),
        NetworkError,
    >)
        ensures
            result == net_probe_step(self, reply),
    {
        match (self, reply) {
            (NetProbe::Bar, NetProbeReply::Value(bar)) => match io_base(bar as u32) {
                None => Err(NetworkError::InvalidIoBar),
                Some(io_base) => Ok(
                    (
                        NetProbe::HostFeatures { io_base },
                        NetProbeAction::Announce {
                            io_base,
                            status: VIRTIO_STATUS_ACKNOWLEDGE | VIRTIO_STATUS_DRIVER,
                        },
                    ),
                ),
            },
            (NetProbe::HostFeatures { io_base }, NetProbeReply::Value(host)) => if host as u32
                & VIRTIO_NET_F_MAC == 0 {
                Err(NetworkError::DeviceRejected)
            } else {
                Ok(
                    (
                        NetProbe::RxSize { io_base },
                        NetProbeAction::Negotiate {
                            features: VIRTIO_NET_F_MAC,
                            queue: RX_QUEUE_INDEX,
                        },
                    ),
                )
            },
            (NetProbe::RxSize { io_base }, NetProbeReply::Value(size)) => {
                let rx: u16 = size as u16;
                if rx == 0 {
                    Err(NetworkError::QueueUnavailable(RX_QUEUE_INDEX))
                } else {
                    Ok(
                        (
                            NetProbe::RxMemory { io_base, rx },
                            NetProbeAction::AllocateQueue { pages: queue_pages(rx) },
                        ),
                    )
                }
            },
            (NetProbe::RxMemory { io_base, rx }, NetProbeReply::Memory(Some(physical))) => {
                match queue_frame(physical) {
                    None => Err(NetworkError::QueueAddressTooHigh),
                    Some(frame) => Ok(
                        (
                            NetProbe::TxSize { io_base, rx },
                            NetProbeAction::PlaceQueue { frame, next_queue: TX_QUEUE_INDEX },
                        ),
                    ),
                }
            },
            (NetProbe::TxSize { io_base, rx }, NetProbeReply::Value(size)) => {
                let tx: u16 = size as u16;
                if tx == 0 {
                    Err(NetworkError::QueueUnavailable(TX_QUEUE_INDEX))
                } else {
                    Ok(
                        (
                            NetProbe::TxMemory { io_base, rx, tx },
                            NetProbeAction::AllocateQueue { pages: queue_pages(tx) },
                        ),
                    )
                }
            },
            (NetProbe::TxMemory { io_base, rx, tx }, NetProbeReply::Memory(Some(physical))) => {
                match queue_frame(physical) {
                    None => Err(NetworkError::QueueAddressTooHigh),
                    Some(frame) => Ok(
                        (
                            NetProbe::RxBuffer { io_base, rx, tx },
                            NetProbeAction::PlaceLastQueue { frame },
                        ),
                    ),
                }
            },
            (NetProbe::RxBuffer { io_base, rx, tx }, NetProbeReply::Memory(Some(rx_buffer))) => Ok(
                (
                    NetProbe::TxBuffer { io_base, rx, tx, rx_buffer },
                    NetProbeAction::AllocateBuffer,
                ),
            ),
            (
                NetProbe::TxBuffer { io_base, rx, tx, rx_buffer },
                NetProbeReply::Memory(Some(tx_buffer)),
            ) => Ok(
                (
                    NetProbe::Mac { io_base, rx, tx, rx_buffer, tx_buffer },
                    NetProbeAction::ReadMac,
                ),
            ),
            (NetProbe::Mac { io_base, rx, tx, rx_buffer, tx_buffer }, NetProbeReply::Value(mac)) => {
                if !is_usable_mac(&mac_array(mac)) {
                    Err(NetworkError::DeviceRejected)
                } else {
                    Ok(
                        (
                            NetProbe::Status { io_base, rx, tx, rx_buffer, tx_buffer, mac },
                            NetProbeAction::Start {
                                status: VIRTIO_STATUS_ACKNOWLEDGE | VIRTIO_STATUS_DRIVER
                                    | VIRTIO_STATUS_DRIVER_OK,
                            },
                        ),
                    )
                }
            },
            (
                NetProbe::Status { io_base, rx, tx, rx_buffer, tx_buffer, mac },
                NetProbeReply::Value(status),
            ) => if !accepts_driver(status as u8) {
                Err(NetworkError::DeviceRejected)
            } else {
                Ok(
                    (
                        NetProbe::Ready { io_base, rx, tx, rx_buffer, tx_buffer, mac },
                        NetProbeAction::Done,
                    ),
                )
            },
            (NetProbe::Ready { io_base, rx, tx, rx_buffer, tx_buffer, mac }, _) => Ok(
                (
                    NetProbe::Ready { io_base, rx, tx, rx_buffer, tx_buffer, mac },
                    NetProbeAction::Done,
                ),
            ),
            _ => Err(NetworkError::DmaAddressUnavailable),
        }
    }

    /// The device that was found, once the search has come to its end.
    pub fn device(self, pci_bus: u8, pci_device: u8, pci_function: u8) -> (device: Option<VirtioNet>)
        ensures
            match self {
                NetProbe::Ready { io_base, rx, tx, rx_buffer, tx_buffer, mac } => {
                    &&& device matches Some(found)
                    &&& found.pci_bus == pci_bus
                    &&& found.pci_device == pci_device
                    &&& found.pci_function == pci_function
                    &&& found.io_base == io_base
                    &&& found.mac@ == mac_bytes(mac)
                    &&& found.rx.index == RX_QUEUE_INDEX && found.rx.size == rx
                    &&& found.tx.index == TX_QUEUE_INDEX && found.tx.size == tx
                    &&& found.rx.used_offset == used_ring_offset(rx as int)
                    &&& found.tx.used_offset == used_ring_offset(tx as int)
                    &&& found.rx.available_index == 0 && found.rx.used_index == 0
                    &&& found.tx.available_index == 0 && found.tx.used_index == 0
                    &&& found.rx_buffer_phys == rx_buffer
                    &&& found.tx_buffer_phys == tx_buffer
                    &&& found.transmitted_frames == 0 && found.received_frames == 0
                },
                _ => device is None,
            },
    {
        match self {
            NetProbe::Ready { io_base, rx, tx, rx_buffer, tx_buffer, mac } => Some(
                VirtioNet {
                    pci_bus,
                    pci_device,
                    pci_function,
                    io_base,
                    mac: mac_array(mac),
                    rx: Virtqueue::new(RX_QUEUE_INDEX, rx),
                    tx: Virtqueue::new(TX_QUEUE_INDEX, tx),
                    rx_buffer_phys: rx_buffer,
                    tx_buffer_phys: tx_buffer,
                    transmitted_frames: 0,
                    received_frames: 0,
                },
            ),
            _ => None,
        }
    }
}

/// A hardware address is read byte by byte, the first one lowest; a device may have it if it is that of one
/// station.
#[verifier::spinoff_prover]
#[verifier::rlimit(40)]
pub proof fn a_hardware_address_is_six_bytes(mac: u64)
    ensures
        ({
            let b = mac_bytes(mac);
            &&& b.len() == 6
            &&& b[0] + 0x100 * b[1] + 0x1_0000 * b[2] + 0x100_0000 * b[3] + 0x1_0000_0000 * b[4]
                + 0x100_0000_0000 * b[5] == mac as int % 0x1_0000_0000_0000
            &&& usable_mac(b) <==> mac as int % 2 == 0 && mac as int % 0x1_0000_0000_0000 != 0
        }),
{
    let b = mac_bytes(mac);
    let whole = mac as int;
    let q1 = whole / 0x100;
    let q2 = q1 / 0x100;
    let q3 = q2 / 0x100;
    let q4 = q3 / 0x100;
    let q5 = q4 / 0x100;
    let q6 = q5 / 0x100;
    assert(q2 == whole / 0x1_0000);
    assert(q3 == whole / 0x100_0000);
    assert(q4 == whole / 0x1_0000_0000);
    assert(q5 == whole / 0x100_0000_0000);
    assert(b[0] == whole % 0x100 && b[1] == q1 % 0x100 && b[2] == q2 % 0x100);
    assert(b[3] == q3 % 0x100 && b[4] == q4 % 0x100 && b[5] == q5 % 0x100);
    let low = b[0] + 0x100 * b[1] + 0x1_0000 * b[2] + 0x100_0000 * b[3] + 0x1_0000_0000 * b[4]
        + 0x100_0000_0000 * b[5];
    assert(whole == low + 0x1_0000_0000_0000 * q6);
    assert(0 <= low < 0x1_0000_0000_0000);
    assert(low == whole % 0x1_0000_0000_0000);
    if b[0] == 0 && b[1] == 0 && b[2] == 0 && b[3] == 0 && b[4] == 0 && b[5] == 0 {
        assert(zero_between(b, 0, 6));
    }
}

/// A network device that answers every question as it should is found: with its port, both of its queues
/// and buffers, and its hardware address.
pub proof fn a_network_device_is_found_step_by_step(
    port: u16,
    host: u32,
    rx: u16,
    rx_queue: u64,
    tx: u16,
    tx_queue: u64,
    rx_buffer: u64,
    tx_buffer: u64,
    mac: u64,
)
    requires
        port as int % 4 == 0,
        host & 0x20 != 0,
        rx > 0,
        tx > 0,
        rx_queue < 0x1000_0000_0000,
        tx_queue < 0x1000_0000_0000,
        usable_mac(mac_bytes(mac)),
    ensures
        ({
            let step = |state: NetProbe, reply: NetProbeReply| net_probe_step(state, reply)->Ok_0;
            let asked = step(NetProbe::Bar, NetProbeReply::Value((port + 1) as u64));
            let negotiated = step(asked.0, NetProbeReply::Value(host as u64));
            let received = step(negotiated.0, NetProbeReply::Value(rx as u64));
            let placed = step(received.0, NetProbeReply::Memory(Some(rx_queue)));
            let sent = step(placed.0, NetProbeReply::Value(tx as u64));
            let both = step(sent.0, NetProbeReply::Memory(Some(tx_queue)));
            let first = step(both.0, NetProbeReply::Memory(Some(rx_buffer)));
            let second = step(first.0, NetProbeReply::Memory(Some(tx_buffer)));
            let named = step(second.0, NetProbeReply::Value(mac));
            let found = step(named.0, NetProbeReply::Value(7));
            &&& asked.1 == (NetProbeAction::Announce { io_base: port, status: 3 })
            &&& negotiated.1 == (NetProbeAction::Negotiate { features: 0x20, queue: 0 })
            &&& received.1 matches NetProbeAction::AllocateQueue { pages } && queue_bytes(rx as int)
                <= pages * 4096
            &&& placed.1 matches NetProbeAction::PlaceQueue { frame, next_queue } && next_queue == 1
                && frame * 4096 <= rx_queue < frame * 4096 + 4096
            &&& both.1 matches NetProbeAction::PlaceLastQueue { frame } && frame * 4096 <= tx_queue < frame
                * 4096 + 4096
            &&& named.1 == (NetProbeAction::Start { status: 7 })
            &&& found.0 == (NetProbe::Ready { io_base: port, rx, tx, rx_buffer, tx_buffer, mac })
        }),
{
    assert(1u8 | 2u8 == 3u8 && 1u8 | 2u8 | 4u8 == 7u8 && 7u8 & 128 == 0 && 7u8 & 4 != 0) by (bit_vector);
}

/// A network device that has no ports, no hardware address of its own or lacks a queue, or whose queues
/// cannot be reached, is refused, each for its reason.
pub proof fn a_network_device_that_cannot_be_driven_is_refused(
    port: u16,
    rx: u16,
    tx: u16,
    host: u32,
    value: u64,
)
    ensures
        ({
            let fails = |state: NetProbe, reply: NetProbeReply, error: NetworkError|
                net_probe_step(state, reply) == Err::<(NetProbe, NetProbeAction), NetworkError>(error);
            &&& host & 0x20 == 0 ==> fails(
                NetProbe::HostFeatures { io_base: port },
                NetProbeReply::Value(host as u64),
                NetworkError::DeviceRejected,
            )
            &&& fails(
                NetProbe::RxSize { io_base: port },
                NetProbeReply::Value(0),
                NetworkError::QueueUnavailable(0),
            )
            &&& fails(
                NetProbe::TxSize { io_base: port, rx },
                NetProbeReply::Value(0),
                NetworkError::QueueUnavailable(1),
            )
            &&& value >= 0x1000_0000_0000 ==> fails(
                NetProbe::RxMemory { io_base: port, rx },
                NetProbeReply::Memory(Some(value)),
                NetworkError::QueueAddressTooHigh,
            ) && fails(
                NetProbe::TxMemory { io_base: port, rx, tx },
                NetProbeReply::Memory(Some(value)),
                NetworkError::QueueAddressTooHigh,
            )
            &&& fails(
                NetProbe::RxMemory { io_base: port, rx },
                NetProbeReply::Memory(None),
                NetworkError::DmaAddressUnavailable,
            )
            &&& fails(
                NetProbe::RxBuffer { io_base: port, rx, tx },
                NetProbeReply::Memory(None),
                NetworkError::DmaAddressUnavailable,
            )
        }),
{
}

} // verus!
