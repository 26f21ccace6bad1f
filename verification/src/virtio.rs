//! Legacy virtio over port I/O: the layout of a queue, and how one request at a time goes through it.

use vstd::prelude::*;

verus! {

pub const VIRTIO_HOST_FEATURES: u16 = 0x00;

pub const VIRTIO_GUEST_FEATURES: u16 = 0x04;

pub const VIRTIO_QUEUE_PFN: u16 = 0x08;

pub const VIRTIO_QUEUE_SIZE: u16 = 0x0c;

pub const VIRTIO_QUEUE_SELECT: u16 = 0x0e;

pub const VIRTIO_QUEUE_NOTIFY: u16 = 0x10;

pub const VIRTIO_DEVICE_STATUS: u16 = 0x12;

pub const VIRTIO_ISR_STATUS: u16 = 0x13;

pub const VIRTIO_DEVICE_CONFIG: u16 = 0x14;

pub const VIRTIO_STATUS_ACKNOWLEDGE: u8 = 1;

pub const VIRTIO_STATUS_DRIVER: u8 = 2;

pub const VIRTIO_STATUS_DRIVER_OK: u8 = 4;

pub const VIRTIO_STATUS_FAILED: u8 = 128;

pub const VIRTQ_DESC_F_NEXT: u16 = 1;

pub const VIRTQ_DESC_F_WRITE: u16 = 2;

/// One buffer of a request.
#[derive(Debug, Clone, Copy, PartialEq, Eq, Structural)]
pub struct VirtqDescriptor {
    pub address: u64,
    pub length: u32,
    pub flags: u16,
    pub next: u16,
}

/// Where the used ring of a queue starts: behind descriptors and available ring, on a page of its own.
pub open spec fn used_ring_offset(queue_size: int) -> int {
    (16 * queue_size + 6 + 2 * queue_size + 4095) / 4096 * 4096
}

/// How many bytes a queue takes.
pub open spec fn queue_bytes(queue_size: int) -> int {
    used_ring_offset(queue_size) + 6 + 8 * queue_size
}

/// How many pages `bytes` take.
pub open spec fn pages_for(bytes: int) -> int {
    (bytes + 4095) / 4096
}

/// How many bytes a queue takes, and where its used ring starts.
pub fn virtqueue_layout(queue_size: u16) -> (layout: (usize, usize))
    ensures
        layout.0 == queue_bytes(queue_size as int),
        layout.1 == used_ring_offset(queue_size as int),
{
    let size: usize = queue_size as usize;
    let used_offset: usize = (16 * size + 6 + 2 * size + 4095) / 4096 * 4096;
    (used_offset + 6 + 8 * size, used_offset)
}

/// The used ring starts on a page boundary, behind everything else.
pub proof fn used_ring_is_page_aligned(queue_size: int)
    requires
        0 <= queue_size,
    ensures
        used_ring_offset(queue_size) % 4096 == 0,
        used_ring_offset(queue_size) >= 16 * queue_size + 6 + 2 * queue_size,
        queue_bytes(queue_size) <= pages_for(queue_bytes(queue_size)) * 4096,
{
}

/// How many pages a queue takes.
pub fn queue_pages(queue_size: u16) -> (pages: u64)
    ensures
        pages == pages_for(queue_bytes(queue_size as int)),
{
    let (bytes, _) = virtqueue_layout(queue_size);
    ((bytes + 4095) / 4096) as u64
}

/// What the used ring says of the request that is under way.
#[derive(Debug, Clone, Copy, PartialEq, Eq, Structural)]
pub enum Completion {
    Pending,
    Done(u32),
    Rejected,
}

/// The driver's side of a queue.
#[derive(Debug, Clone, Copy, PartialEq, Eq, Structural)]
pub struct Virtqueue {
    pub index: u16,
    pub size: u16,
    pub used_offset: usize,
    pub available_index: u16,
    pub used_index: u16,
}

/// What the driver writes to hand the first descriptor to the device.
#[derive(Debug, Clone, Copy, PartialEq, Eq, Structural)]
pub struct Submission {
    /// Where in the queue the number of the first descriptor goes.
    pub ring_offset: usize,
    /// Where in the queue the available index goes.
    pub index_offset: usize,
    /// The available index.
    pub available_index: u16,
}

/// What is to be done after one look at a request that is under way.
#[derive(Debug, Clone, Copy, PartialEq, Eq, Structural)]
pub enum WaitStep {
    /// The request is done.
    Done,
    /// Look again; now and then the device's interrupt status is read in between.
    Again { spins: usize, read_isr: bool },
}

/// Another look, after this many.
pub open spec fn another_look(spins: usize) -> WaitStep {
    WaitStep::Again { spins: (spins + 1) as usize, read_isr: spins % 0x4000 == 0 }
}

impl Virtqueue {
    /// A queue that nothing went through yet.
    pub fn new(index: u16, size: u16) -> (queue: Self)
        ensures
            queue == (Virtqueue {
                index,
                size,
                used_offset: used_ring_offset(size as int) as usize,
                available_index: 0,
                used_index: 0,
            }),
    {
        let (_, used_offset) = virtqueue_layout(size);
        Self { index, size, used_offset, available_index: 0, used_index: 0 }
    }

    /// Hands the first descriptor to the device.
    pub fn submit(&mut self) -> (submission: Submission)
        requires
            old(self).size > 0,
        ensures
            *final(self) == (Virtqueue {
                available_index: old(self).available_index.wrapping_add(1),
                ..*old(self)
            }),
            submission.ring_offset == 16 * old(self).size + 4 + old(self).available_index as int
                % old(self).size as int * 2,
            submission.index_offset == 16 * old(self).size + 2,
            submission.available_index == old(self).available_index.wrapping_add(1),
    {
        let size: usize = self.size as usize;
        let slot: usize = (self.available_index % self.size) as usize;
        self.available_index = self.available_index.wrapping_add(1);
        Submission {
            ring_offset: 16 * size + 4 + slot * 2,
            index_offset: 16 * size + 2,
            available_index: self.available_index,
        }
    }

    /// Where in the queue the used ring has the device's index.
    pub fn used_index_offset(&self) -> (offset: usize)
        requires
            self.used_offset <= 0x100_0000,
        ensures
            offset == self.used_offset + 2,
    {
        self.used_offset + 2
    }

    /// Where in the queue the used ring has the descriptor of the request that is under way; its
    /// length follows four bytes behind.
    pub fn used_entry_offset(&self) -> (offset: usize)
        requires
            self.size > 0,
            self.used_offset <= 0x100_0000,
        ensures
            offset == self.used_offset + 4 + self.used_index as int % self.size as int * 8,
    {
        self.used_offset + 4 + (self.used_index % self.size) as usize * 8
    }

    /// Whether the device is done, by its index in the used ring and the entry there. A device that
    /// skips ahead, or returns another descriptor than the first, is rejected.
    pub fn completion(&mut self, device_index: u16, descriptor: u32, length: u32) -> (completion:
        Completion)
        ensures
            completion == if device_index == old(self).used_index {
                Completion::Pending
            } else if device_index != old(self).used_index.wrapping_add(1) || descriptor != 0 {
                Completion::Rejected
            } else {
                Completion::Done(length)
            },
            *final(self) == if completion is Done {
                Virtqueue { used_index: device_index, ..*old(self) }
            } else {
                *old(self)
            },
    {
        if device_index == self.used_index {
            return Completion::Pending;
        }
        if device_index != self.used_index.wrapping_add(1) || descriptor != 0 {
            return Completion::Rejected;
        }
        self.used_index = device_index;
        Completion::Done(length)
    }
}

/// The port that an I/O base address register names.
pub open spec fn io_port(bar: u32) -> Option<u16> {
    if bar % 2 == 0 || bar / 4 * 4 > 0xffff {
        None
    } else {
        Some((bar / 4 * 4) as u16)
    }
}

/// The port that an I/O base address register names, if it names one.
pub fn io_base(bar: u32) -> (port: Option<u16>)
    ensures
        port == io_port(bar),
{
    if bar % 2 == 0 {
        return None;
    }
    let base: u32 = bar / 4 * 4;
    if base > 0xffff {
        None
    } else {
        Some(base as u16)
    }
}

/// Whether the device runs, by its status.
pub open spec fn device_runs(status: u8) -> bool {
    status & VIRTIO_STATUS_FAILED == 0 && status & VIRTIO_STATUS_DRIVER_OK != 0
}

/// Whether the device runs, by its status.
pub fn accepts_driver(status: u8) -> (result: bool)
    ensures
        result == device_runs(status),
{
    status & VIRTIO_STATUS_FAILED == 0 && status & VIRTIO_STATUS_DRIVER_OK != 0
}

/// The page frame number of a queue, if the device can be told it.
pub open spec fn queue_frame_number(physical: u64) -> Option<u32> {
    if physical / 4096 > u32::MAX {
        None
    } else {
        Some((physical / 4096) as u32)
    }
}

/// The page frame number of a queue, if the device can be told it.
pub fn queue_frame(physical: u64) -> (frame: Option<u32>)
    ensures
        frame == queue_frame_number(physical),
{
    let frame: u64 = physical / 4096;
    if frame > 0xffff_ffff {
        None
    } else {
        Some(frame as u32)
    }
}

/// A queue has its descriptors and its ring of offers first, then the ring of answers at the next page,
/// and takes as few pages as hold it.
pub proof fn a_queue_takes_as_few_pages_as_hold_it(queue_size: int, bytes: int)
    requires
        0 <= queue_size,
        0 < bytes,
    ensures
        used_ring_offset(queue_size) < 18 * queue_size + 6 + 4096,
        queue_bytes(queue_size) == used_ring_offset(queue_size) + 6 + 8 * queue_size,
        bytes <= pages_for(bytes) * 4096 < bytes + 4096,
{
}

/// The number of a page frame is its address in pages, if it fits.
pub proof fn a_page_frame_has_a_number(physical: u64)
    ensures
        queue_frame_number(physical) is Some <==> physical < 0x1000_0000_0000,
        queue_frame_number(physical) matches Some(frame) ==> frame * 4096 <= physical < frame * 4096
            + 4096,
{
}

/// Looks are counted one by one, and the interrupt register is read at the first look and after every
/// 16384 more.
pub proof fn looks_are_counted(spins: usize)
    requires
        spins < usize::MAX,
    ensures
        another_look(spins) matches WaitStep::Again { spins: next, read_isr } && next == spins + 1
            && read_isr == (spins as int % 16384 == 0),
{
}

} // verus!
