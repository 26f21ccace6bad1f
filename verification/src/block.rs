//! Block devices: what the filesystem asks of one, and the requests a legacy
//! virtio block device is driven with.

use vstd::prelude::*;
use crate::bytes::{le32, le64, put_le_u32, put_le_u64};
use crate::virtio::{
    accepts_driver, another_look, device_runs, io_base, io_port, pages_for, queue_bytes, queue_frame,
    queue_frame_number, queue_pages, used_ring_offset, Completion, Submission, VirtqDescriptor,
    Virtqueue, WaitStep, VIRTIO_STATUS_ACKNOWLEDGE, VIRTIO_STATUS_DRIVER, VIRTIO_STATUS_DRIVER_OK,
    VIRTQ_DESC_F_NEXT, VIRTQ_DESC_F_WRITE,
};
pub use crate::virtio::virtqueue_layout;

verus! {

pub const SECTOR_SIZE: usize = 512;

/// Why a block device refused or failed a request.
#[derive(Debug, Clone, Copy, PartialEq, Eq, Structural)]
pub enum BlockError {
    DeviceNotFound,
    InvalidIoBar,
    QueueUnavailable,
    QueueTooSmall,
    QueueAddressTooHigh,
    DmaAddressUnavailable,
    DeviceRejected,
    SectorOutOfRange,
    RequestTimedOut,
    RequestFailed(u8),
}

/// How many writes and how many flushes were asked of a device.
#[verifier::ext_equal]
pub ghost struct Traffic {
    pub writes: nat,
    pub flushes: nat,
}

impl Traffic {
    /// With so many more writes and flushes.
    pub open spec fn and(self, writes: int, flushes: int) -> Traffic {
        Traffic { writes: (self.writes + writes) as nat, flushes: (self.flushes + flushes) as nat }
    }

    /// At least as much as `before`, and at most so many writes and flushes more.
    pub open spec fn within(self, before: Traffic, writes: int, flushes: int) -> bool {
        &&& before.writes <= self.writes <= before.writes + writes
        &&& before.flushes <= self.flushes <= before.flushes + flushes
    }
}

/// A disk of fixed size, read and written one sector at a time.
///
/// No request is promised to succeed. A request that fails changes nothing but
/// the sector it was about. A flush makes durable what was written before it.
pub trait BlockDevice {
    /// What the sectors hold.
    closed spec fn sectors(&self) -> Seq<Seq<u8>> {
        arbitrary()
    }

    /// What the sectors would hold after a loss of power. A sector that was written may be lost, or
    /// hold anything, until the device is flushed.
    closed spec fn durable(&self) -> Seq<Seq<u8>> {
        arbitrary()
    }

    /// The writes and flushes that were asked of the device so far, whether they succeeded or not.
    closed spec fn traffic(&self) -> Traffic {
        arbitrary()
    }

    /// Whether the device honours flush requests.
    closed spec fn flushes(&self) -> bool {
        arbitrary()
    }

    /// Whether the device claims that no request for a sector it has ever fails.
    /// A device that makes no such claim owes nothing by it.
    closed spec fn reliable(&self) -> bool {
        arbitrary()
    }

    fn sector_count(&self) -> (count: u64)
        ensures
            count == self.sectors().len(),
            count == self.durable().len(),
    ;

    fn supports_flush(&self) -> (supported: bool)
        ensures
            supported == self.flushes(),
    ;

    fn read_sector(&mut self, sector: u64, output: &mut [u8; SECTOR_SIZE]) -> (result: Result<
        (),
        BlockError,
    >)
        ensures
            final(self).sectors() == old(self).sectors(),
            final(self).durable() == old(self).durable(),
            final(self).traffic() == old(self).traffic(),
            final(self).flushes() == old(self).flushes(),
            final(self).reliable() == old(self).reliable(),
            result is Ok ==> sector < old(self).sectors().len() && final(output)@ == old(self).sectors()[sector as int],
            old(self).reliable() && sector < old(self).sectors().len() ==> result is Ok,
    ;

    fn write_sector(&mut self, sector: u64, input: &[u8; SECTOR_SIZE]) -> (result: Result<
        (),
        BlockError,
    >)
        ensures
            final(self).traffic() == old(self).traffic().and(1, 0),
            final(self).sectors().len() == old(self).sectors().len(),
            forall|i: int|
                0 <= i < old(self).sectors().len() && i != sector ==> #[trigger] final(self).sectors()[i] == old(self).sectors()[i],
            final(self).durable().len() == old(self).durable().len(),
            forall|i: int|
                0 <= i < old(self).durable().len() && i != sector ==> #[trigger] final(self).durable()[i] == old(self).durable()[i],
            final(self).flushes() == old(self).flushes(),
            final(self).reliable() == old(self).reliable(),
            result is Ok ==> sector < old(self).sectors().len() && final(self).sectors()[sector as int] == input@,
            old(self).reliable() && sector < old(self).sectors().len() ==> result is Ok,
    ;

    fn flush(&mut self) -> (result: Result<(), BlockError>)
        ensures
            final(self).traffic() == old(self).traffic().and(0, 1),
            final(self).sectors() == old(self).sectors(),
            result is Ok ==> final(self).durable() == final(self).sectors(),
            old(self).durable().len() == old(self).sectors().len() ==> final(self).durable().len()
                == old(self).durable().len(),
            forall|i: int|
                0 <= i < old(self).durable().len() && old(self).durable()[i] == old(self).sectors()[i]
                    ==> #[trigger] final(self).durable()[i] == old(self).durable()[i],
            final(self).flushes() == old(self).flushes(),
            final(self).reliable() == old(self).reliable(),
            old(self).reliable() && old(self).flushes() ==> result is Ok,
    ;
}

/// A disk in memory, which honours flush requests and never fails for a sector it has. What is written
/// to it is durable at once.
pub struct MemoryDisk {
    pub contents: Vec<[u8; SECTOR_SIZE]>,
    pub flush_count: u64,
    /// The writes and flushes so far.
    pub requests: Ghost<Traffic>,
}

impl MemoryDisk {
    /// A disk of so many sectors, all zero.
    pub fn new(sector_count: usize) -> (disk: MemoryDisk)
        ensures
            disk.sectors().len() == sector_count,
            forall|i: int|
                0 <= i < sector_count ==> #[trigger] disk.sectors()[i] == Seq::new(
                    SECTOR_SIZE as nat,
                    |j: int| 0u8,
                ),
            disk.flush_count == 0,
            disk.traffic() == (Traffic { writes: 0, flushes: 0 }),
    {
        let contents: Vec<[u8; SECTOR_SIZE]> = vec![[0u8; SECTOR_SIZE]; sector_count];
        let disk = MemoryDisk {
            contents,
            flush_count: 0,
            requests: Ghost(Traffic { writes: 0, flushes: 0 }),
        };
        assert forall|i: int| 0 <= i < sector_count implies #[trigger] disk.sectors()[i] == Seq::new(
            SECTOR_SIZE as nat,
            |j: int| 0u8,
        ) by {
            assert(disk.contents@[i]@ =~= Seq::new(SECTOR_SIZE as nat, |j: int| 0u8));
        }
        disk
    }
}

impl BlockDevice for MemoryDisk {
    open spec fn sectors(&self) -> Seq<Seq<u8>> {
        Seq::new(self.contents@.len(), |i: int| self.contents@[i]@)
    }

    open spec fn durable(&self) -> Seq<Seq<u8>> {
        self.sectors()
    }

    open spec fn traffic(&self) -> Traffic {
        self.requests@
    }

    open spec fn flushes(&self) -> bool {
        true
    }

    open spec fn reliable(&self) -> bool {
        true
    }

    fn sector_count(&self) -> (count: u64) {
        self.contents.len() as u64
    }

    fn supports_flush(&self) -> (supported: bool) {
        true
    }

    fn read_sector(&mut self, sector: u64, output: &mut [u8; SECTOR_SIZE]) -> (result: Result<
        (),
        BlockError,
    >) {
        if sector >= self.contents.len() as u64 {
            return Err(BlockError::SectorOutOfRange);
        }
        *output = self.contents[sector as usize];
        Ok(())
    }

    fn write_sector(&mut self, sector: u64, input: &[u8; SECTOR_SIZE]) -> (result: Result<
        (),
        BlockError,
    >) {
        self.requests = Ghost(self.requests@.and(1, 0));
        if sector >= self.contents.len() as u64 {
            return Err(BlockError::SectorOutOfRange);
        }
        let ghost before = self.sectors();
        self.contents.set(sector as usize, *input);
        assert(self.sectors() =~= before.update(sector as int, input@));
        Ok(())
    }

    fn flush(&mut self) -> (result: Result<(), BlockError>) {
        self.requests = Ghost(self.requests@.and(0, 1));
        self.flush_count = self.flush_count.saturating_add(1);
        Ok(())
    }
}

pub const VIRTIO_BLK_F_FLUSH: u32 = 0x200;

pub const VIRTIO_BLK_T_IN: u32 = 0;

pub const VIRTIO_BLK_T_OUT: u32 = 1;

pub const VIRTIO_BLK_T_FLUSH: u32 = 4;

/// Where in the request page the header is.
pub const REQUEST_HEADER_OFFSET: u64 = 0;

/// Where in the request page the device leaves its verdict.
pub const REQUEST_STATUS_OFFSET: u64 = 16;

/// Where in the request page the sector is.
pub const REQUEST_DATA_OFFSET: u64 = 512;

/// What the verdict is set to before a request.
pub const REQUEST_STATUS_UNSET: u8 = 0xff;

pub const REQUEST_TIMEOUT_SPINS: usize = 20_000_000;

/// What is known of a block device.
#[derive(Debug, Clone, Copy, PartialEq, Eq, Structural)]
pub struct BlockInfo {
    pub pci_bus: u8,
    pub pci_device: u8,
    pub pci_function: u8,
    pub io_base: u16,
    pub queue_size: u16,
    pub capacity_sectors: u64,
    pub flush_supported: bool,
}

/// A virtio block device: what the driver knows of it, its queue, and where the one page is that
/// requests are made through.
pub struct VirtioBlock {
    info: BlockInfo,
    queue: Virtqueue,
    request_phys: u64,
}

/// What makes up one request.
pub struct RequestPlan {
    /// The header, as it stands in the request page.
    pub header: [u8; 16],
    /// Whether the sector is to be copied into the request page first.
    pub copies_sector: bool,
    /// The descriptors, from the first slot of the table on.
    pub descriptors: Vec<VirtqDescriptor>,
    /// What hands them to the device.
    pub submission: Submission,
}

/// The header of a request: its type, four reserved bytes, its sector.
pub open spec fn request_header(header: Seq<u8>, request_type: u32, sector: u64) -> bool {
    &&& header.len() == 16
    &&& le32(header, 0) == request_type
    &&& le32(header, 4) == 0
    &&& le64(header, 8) == sector
}

/// The descriptors of a request: header, sector unless it is a flush, verdict.
pub open spec fn request_descriptors(request_type: u32, page: u64) -> Seq<VirtqDescriptor> {
    let head = VirtqDescriptor {
        address: page,
        length: 16,
        flags: VIRTQ_DESC_F_NEXT,
        next: 1,
    };
    let verdict = VirtqDescriptor {
        address: (page + REQUEST_STATUS_OFFSET) as u64,
        length: 1,
        flags: VIRTQ_DESC_F_WRITE,
        next: 0,
    };
    if request_type == VIRTIO_BLK_T_FLUSH {
        seq![head, verdict]
    } else {
        let sector = VirtqDescriptor {
            address: (page + REQUEST_DATA_OFFSET) as u64,
            length: SECTOR_SIZE as u32,
            flags: if request_type == VIRTIO_BLK_T_IN {
                VIRTQ_DESC_F_NEXT | VIRTQ_DESC_F_WRITE
            } else {
                VIRTQ_DESC_F_NEXT
            },
            next: 2,
        };
        seq![head, sector, verdict]
    }
}

/// Why a request is refused before it is made.
pub open spec fn request_fault(info: BlockInfo, request_type: u32, sector: u64, has_data: bool) -> Option<
    BlockError,
> {
    if request_type != VIRTIO_BLK_T_FLUSH && sector >= info.capacity_sectors {
        Some(BlockError::SectorOutOfRange)
    } else if request_type == VIRTIO_BLK_T_OUT && !has_data {
        Some(BlockError::DmaAddressUnavailable)
    } else {
        None
    }
}

/// The outcome of a request by the device's verdict.
pub open spec fn verdict_outcome(request_type: u32, has_data: bool, status: u8) -> Result<(), BlockError> {
    if status != 0 {
        Err(BlockError::RequestFailed(status))
    } else if request_type == VIRTIO_BLK_T_IN && !has_data {
        Err(BlockError::DmaAddressUnavailable)
    } else {
        Ok(())
    }
}

impl VirtioBlock {
    /// What is known of the device.
    pub closed spec fn details(&self) -> BlockInfo {
        self.info
    }

    /// The driver's side of the queue.
    pub closed spec fn ring(&self) -> Virtqueue {
        self.queue
    }

    /// Where the request page is.
    pub closed spec fn page(&self) -> u64 {
        self.request_phys
    }

    /// The queue has room for a request, and the request page lies below the end of memory.
    pub open spec fn well_formed(&self) -> bool {
        &&& self.ring().size == self.details().queue_size
        &&& self.ring().size >= 3
        &&& self.ring().used_offset == used_ring_offset(self.ring().size as int)
        &&& self.page() + 4096 <= u64::MAX
    }

    pub fn info(&self) -> (info: BlockInfo)
        ensures
            info == self.details(),
    {
        self.info
    }

    /// The driver's side of the queue.
    pub fn queue(&self) -> (queue: Virtqueue)
        ensures
            queue == self.ring(),
    {
        self.queue
    }

    /// Begins a request: what to write where, and how to hand it to the device.
    pub fn begin_request(&mut self, request_type: u32, sector: u64, has_data: bool) -> (result: Result<
        RequestPlan,
        BlockError,
    >)
        requires
            old(self).well_formed(),
        ensures
            final(self).well_formed(),
            final(self).details() == old(self).details(),
            final(self).page() == old(self).page(),
            match result {
                Ok(plan) => {
                    &&& request_fault(old(self).details(), request_type, sector, has_data) is None
                    &&& request_header(plan.header@, request_type, sector)
                    &&& plan.copies_sector == (request_type == VIRTIO_BLK_T_OUT)
                    &&& plan.descriptors@ == request_descriptors(request_type, old(self).page())
                    &&& plan.submission.available_index
                        == old(self).ring().available_index.wrapping_add(1)
                    &&& plan.submission.ring_offset == 16 * old(self).ring().size + 4 + old(
                        self).ring().available_index as int % old(self).ring().size as int * 2
                    &&& plan.submission.index_offset == 16 * old(self).ring().size + 2
                    &&& final(self).ring() == (Virtqueue {
                        available_index: plan.submission.available_index,
                        ..old(self).ring()
                    })
                },
                Err(error) => request_fault(old(self).details(), request_type, sector, has_data)
                    == Some(error) && final(self).ring() == old(self).ring(),
            },
    {
        if request_type != VIRTIO_BLK_T_FLUSH && sector >= self.info.capacity_sectors {
            return Err(BlockError::SectorOutOfRange);
        }
        if request_type == VIRTIO_BLK_T_OUT && !has_data {
            return Err(BlockError::DmaAddressUnavailable);
        }
        let mut header: [u8; 16] = [0u8; 16];
        put_le_u32(&mut header, 0, request_type);
        put_le_u64(&mut header, 8, sector);
        let mut descriptors: Vec<VirtqDescriptor> = Vec::new();
        descriptors.push(
            VirtqDescriptor {
                address: self.request_phys + REQUEST_HEADER_OFFSET,
                length: 16,
                flags: VIRTQ_DESC_F_NEXT,
                next: 1,
            },
        );
        if request_type != VIRTIO_BLK_T_FLUSH {
            descriptors.push(
                VirtqDescriptor {
                    address: self.request_phys + REQUEST_DATA_OFFSET,
                    length: SECTOR_SIZE as u32,
                    flags: if request_type == VIRTIO_BLK_T_IN {
                        VIRTQ_DESC_F_NEXT | VIRTQ_DESC_F_WRITE
                    } else {
                        VIRTQ_DESC_F_NEXT
                    },
                    next: 2,
                },
            );
        }
        descriptors.push(
            VirtqDescriptor {
                address: self.request_phys + REQUEST_STATUS_OFFSET,
                length: 1,
                flags: VIRTQ_DESC_F_WRITE,
                next: 0,
            },
        );
        assert(descriptors@ =~= request_descriptors(request_type, self.request_phys));
        let submission = self.queue.submit();
        Ok(
            RequestPlan {
                header,
                copies_sector: request_type == VIRTIO_BLK_T_OUT,
                descriptors,
                submission,
            },
        )
    }

    /// Whether the request that is under way is done; a device that does not keep to the protocol is
    /// rejected.
    pub fn poll_request(&mut self, device_index: u16, descriptor: u32) -> (result: Result<
        bool,
        BlockError,
    >)
        requires
            old(self).well_formed(),
        ensures
            final(self).well_formed(),
            final(self).details() == old(self).details(),
            final(self).page() == old(self).page(),
            match result {
                Ok(done) => done == (device_index != old(self).ring().used_index) && (done ==> (
                device_index == old(self).ring().used_index.wrapping_add(1) && descriptor == 0
                    && final(self).ring() == (Virtqueue {
                    used_index: device_index,
                    ..old(self).ring()
                }))) && (!done ==> final(self).ring() == old(self).ring()),
                Err(error) => error == BlockError::DeviceRejected && device_index != old(
                    self).ring().used_index && (device_index != old(
                    self).ring().used_index.wrapping_add(1) || descriptor != 0) && final(
                    self).ring() == old(self).ring(),
            },
    {
        match self.queue.completion(device_index, descriptor, 0) {
            Completion::Pending => Ok(false),
            Completion::Done(_) => Ok(true),
            Completion::Rejected => Err(BlockError::DeviceRejected),
        }
    }

    /// Begins a flush, which only a device that honours it is asked for.
    pub fn begin_flush(&mut self) -> (result: Result<RequestPlan, BlockError>)
        requires
            old(self).well_formed(),
        ensures
            final(self).well_formed(),
            final(self).details() == old(self).details(),
            final(self).page() == old(self).page(),
            match result {
                Ok(plan) => {
                    &&& old(self).details().flush_supported
                    &&& request_header(plan.header@, VIRTIO_BLK_T_FLUSH, 0)
                    &&& !plan.copies_sector
                    &&& plan.descriptors@ == request_descriptors(
                        VIRTIO_BLK_T_FLUSH,
                        old(self).page(),
                    )
                    &&& plan.submission.available_index
                        == old(self).ring().available_index.wrapping_add(1)
                    &&& plan.submission.ring_offset == 16 * old(self).ring().size + 4 + old(
                        self).ring().available_index as int % old(self).ring().size as int * 2
                    &&& plan.submission.index_offset == 16 * old(self).ring().size + 2
                    &&& final(self).ring() == (Virtqueue {
                        available_index: plan.submission.available_index,
                        ..old(self).ring()
                    })
                },
                Err(error) => !old(self).details().flush_supported && error
                    == BlockError::DeviceRejected && final(self).ring() == old(self).ring(),
            },
    {
        if !self.info.flush_supported {
            return Err(BlockError::DeviceRejected);
        }
        self.begin_request(VIRTIO_BLK_T_FLUSH, 0, false)
    }

    /// Looks at the request that is under way, after `spins` looks before. A request that is not done
    /// in time is given up.
    pub fn wait_step(&mut self, spins: usize, used_index: u16, descriptor: u32) -> (step: Result<
        WaitStep,
        BlockError,
    >)
        requires
            old(self).well_formed(),
        ensures
            final(self).well_formed(),
            final(self).details() == old(self).details(),
            final(self).page() == old(self).page(),
            ({
                let pending = used_index == old(self).ring().used_index;
                let done = used_index == old(self).ring().used_index.wrapping_add(1) && descriptor
                    == 0;
                &&& step == if spins >= REQUEST_TIMEOUT_SPINS {
                    Err::<WaitStep, BlockError>(BlockError::RequestTimedOut)
                } else if pending {
                    Ok(another_look(spins))
                } else if done {
                    Ok(WaitStep::Done)
                } else {
                    Err(BlockError::DeviceRejected)
                }
                &&& final(self).ring() == if spins < REQUEST_TIMEOUT_SPINS && !pending && done {
                    Virtqueue { used_index, ..old(self).ring() }
                } else {
                    old(self).ring()
                }
            }),
    {
        if spins >= REQUEST_TIMEOUT_SPINS {
            return Err(BlockError::RequestTimedOut);
        }
        match self.poll_request(used_index, descriptor) {
            Ok(true) => Ok(WaitStep::Done),
            Ok(false) => Ok(WaitStep::Again { spins: spins + 1, read_isr: spins % 0x4000 == 0 }),
            Err(error) => Err(error),
        }
    }

    /// The outcome of a request that is done, by the device's verdict.
    pub fn finish_request(request_type: u32, has_data: bool, status: u8) -> (result: Result<
        (),
        BlockError,
    >)
        ensures
            result == verdict_outcome(request_type, has_data, status),
    {
        if status != 0 {
            return Err(BlockError::RequestFailed(status));
        }
        if request_type == VIRTIO_BLK_T_IN && !has_data {
            return Err(BlockError::DmaAddressUnavailable);
        }
        Ok(())
    }
}

/// Every buffer of a request lies in its page, the chain ends, and the device is never allowed to
/// write the header, nor a sector that is being written to the disk.
pub proof fn a_request_stays_in_its_page(request_type: u32, page: u64, i: int)
    requires
        page + 4096 <= u64::MAX,
        0 <= i < request_descriptors(request_type, page).len(),
    ensures
        ({
            let chain = request_descriptors(request_type, page);
            let d = chain[i];
            &&& page <= d.address
            &&& d.address + d.length <= page + 4096
            &&& (i + 1 < chain.len() ==> d.next == i + 1)
            &&& (i + 1 == chain.len() ==> d.flags == VIRTQ_DESC_F_WRITE)
            &&& (i == 0 ==> d.flags == VIRTQ_DESC_F_NEXT)
            &&& (i == 1 && request_type == VIRTIO_BLK_T_OUT ==> d.flags == VIRTQ_DESC_F_NEXT)
        }),
{
}

/// How far the search for the device has come.
#[derive(Debug, Clone, Copy, PartialEq, Eq, Structural)]
pub enum BlockProbe {
    Bar,
    HostFeatures { io_base: u16 },
    QueueSize { io_base: u16, features: u32 },
    QueueMemory { io_base: u16, features: u32, queue_size: u16 },
    RequestMemory { io_base: u16, features: u32, queue_size: u16 },
    Capacity { io_base: u16, features: u32, queue_size: u16, request_phys: u64 },
    Status { io_base: u16, features: u32, queue_size: u16, request_phys: u64, capacity: u64 },
    Ready { info: BlockInfo, request_phys: u64 },
}

/// What is asked of the hardware next.
#[derive(Debug, Clone, Copy, PartialEq, Eq, Structural)]
pub enum BlockProbeAction {
    /// Enable the device, reset it, announce the driver, then read the host features.
    Announce { io_base: u16, status: u8 },
    /// Write the guest features, select the first queue, then read its size.
    Negotiate { features: u32 },
    /// Allocate the queue's pages.
    AllocateQueue { pages: u64 },
    /// Clear the queue, tell the device its page frame number, then allocate the request page.
    PlaceQueue { frame: u32 },
    /// Clear the request page, then read the capacity.
    ReadCapacity,
    /// Write the final status, then read it back.
    Start { status: u8 },
    /// Nothing more.
    Done,
}

/// What the hardware answered: a register, or where memory was allocated.
#[derive(Debug, Clone, Copy, PartialEq, Eq, Structural)]
pub enum BlockProbeReply {
    Value(u64),
    Memory(Option<u64>),
}

/// The next state and action, or why the search ends.
pub open spec fn probe_step(
    state: BlockProbe,
    reply: BlockProbeReply,
    bus: u8,
    device: u8,
    function: u8,
) -> Result<(BlockProbe, BlockProbeAction), BlockError> {
    match (state, reply) {
        (BlockProbe::Bar, BlockProbeReply::Value(bar)) => match io_port(bar as u32) {
            None => Err(BlockError::InvalidIoBar),
            Some(io_base) => Ok(
                (
                    BlockProbe::HostFeatures { io_base },
                    BlockProbeAction::Announce {
                        io_base,
                        status: VIRTIO_STATUS_ACKNOWLEDGE | VIRTIO_STATUS_DRIVER,
                    },
                ),
            ),
        },
        (BlockProbe::HostFeatures { io_base }, BlockProbeReply::Value(host)) => {
            let features = host as u32 & VIRTIO_BLK_F_FLUSH;
            Ok(
                (
                    BlockProbe::QueueSize { io_base, features },
                    BlockProbeAction::Negotiate { features },
                ),
            )
        },
        (BlockProbe::QueueSize { io_base, features }, BlockProbeReply::Value(size)) => {
            let queue_size = size as u16;
            if queue_size == 0 {
                Err(BlockError::QueueUnavailable)
            } else if queue_size < 3 {
                Err(BlockError::QueueTooSmall)
            } else {
                Ok(
                    (
                        BlockProbe::QueueMemory { io_base, features, queue_size },
                        BlockProbeAction::AllocateQueue {
                            pages: pages_for(queue_bytes(queue_size as int)) as u64,
                        },
                    ),
                )
            }
        },
        (
            BlockProbe::QueueMemory { io_base, features, queue_size },
            BlockProbeReply::Memory(Some(physical)),
        ) => match queue_frame_number(physical) {
            None => Err(BlockError::QueueAddressTooHigh),
            Some(frame) => Ok(
                (
                    BlockProbe::RequestMemory { io_base, features, queue_size },
                    BlockProbeAction::PlaceQueue { frame },
                ),
            ),
        },
        (
            BlockProbe::RequestMemory { io_base, features, queue_size },
            BlockProbeReply::Memory(Some(request_phys)),
        ) => if request_phys + 4096 <= u64::MAX {
            Ok(
                (
                    BlockProbe::Capacity { io_base, features, queue_size, request_phys },
                    BlockProbeAction::ReadCapacity,
                ),
            )
        } else {
            Err(BlockError::DmaAddressUnavailable)
        },
        (
            BlockProbe::Capacity { io_base, features, queue_size, request_phys },
            BlockProbeReply::Value(capacity),
        ) => Ok(
            (
                BlockProbe::Status { io_base, features, queue_size, request_phys, capacity },
                BlockProbeAction::Start {
                    status: VIRTIO_STATUS_ACKNOWLEDGE | VIRTIO_STATUS_DRIVER
                        | VIRTIO_STATUS_DRIVER_OK,
                },
            ),
        ),
        (
            BlockProbe::Status { io_base, features, queue_size, request_phys, capacity },
            BlockProbeReply::Value(status),
        ) => if !device_runs(status as u8) {
            Err(BlockError::DeviceRejected)
        } else {
            Ok(
                (
                    BlockProbe::Ready {
                        info: BlockInfo {
                            pci_bus: bus,
                            pci_device: device,
                            pci_function: function,
                            io_base,
                            queue_size,
                            capacity_sectors: capacity,
                            flush_supported: features & VIRTIO_BLK_F_FLUSH != 0,
                        },
                        request_phys,
                    },
                    BlockProbeAction::Done,
                ),
            )
        },
        (BlockProbe::Ready { info, request_phys }, _) => Ok(
            (BlockProbe::Ready { info, request_phys }, BlockProbeAction::Done),
        ),
        _ => Err(BlockError::DmaAddressUnavailable),
    }
}

impl BlockProbe {
    /// Takes the search one step further. Registers that are narrower than 64 bits come in the low
    /// bits of their value.
    pub fn step(self, reply: BlockProbeReply, bus: u8, device: u8, function: u8) -> (result: Result<
        (BlockProbe, BlockProbeAction),
        BlockError,
    >)
        ensures
            result == probe_step(self, reply, bus, device, function),
    {
        match (self, reply) {
            (BlockProbe::Bar, BlockProbeReply::Value(bar)) => match io_base(bar as u32) {
                None => Err(BlockError::InvalidIoBar),
                Some(io_base) => Ok(
                    (
                        BlockProbe::HostFeatures { io_base },
                        BlockProbeAction::Announce {
                            io_base,
                            status: VIRTIO_STATUS_ACKNOWLEDGE | VIRTIO_STATUS_DRIVER,
                        },
                    ),
                ),
            },
            (BlockProbe::HostFeatures { io_base }, BlockProbeReply::Value(host)) => {
                let features: u32 = host as u32 & VIRTIO_BLK_F_FLUSH;
                Ok(
                    (
                        BlockProbe::QueueSize { io_base, features },
                        BlockProbeAction::Negotiate { features },
                    ),
                )
            },
            (BlockProbe::QueueSize { io_base, features }, BlockProbeReply::Value(size)) => {
                let queue_size: u16 = size as u16;
                if queue_size == 0 {
                    Err(BlockError::QueueUnavailable)
                } else if queue_size < 3 {
                    Err(BlockError::QueueTooSmall)
                } else {
                    Ok(
                        (
                            BlockProbe::QueueMemory { io_base, features, queue_size },
                            BlockProbeAction::AllocateQueue { pages: queue_pages(queue_size) },
                        ),
                    )
                }
            },
            (
                BlockProbe::QueueMemory { io_base, features, queue_size },
                BlockProbeReply::Memory(Some(physical)),
            ) => match queue_frame(physical) {
                None => Err(BlockError::QueueAddressTooHigh),
                Some(frame) => Ok(
                    (
                        BlockProbe::RequestMemory { io_base, features, queue_size },
                        BlockProbeAction::PlaceQueue { frame },
                    ),
                ),
            },
            (
                BlockProbe::RequestMemory { io_base, features, queue_size },
                BlockProbeReply::Memory(Some(request_phys)),
            ) => if request_phys <= 0xffff_ffff_ffff_efff {
                Ok(
                    (
                        BlockProbe::Capacity { io_base, features, queue_size, request_phys },
                        BlockProbeAction::ReadCapacity,
                    ),
                )
            } else {
                Err(BlockError::DmaAddressUnavailable)
            },
            (
                BlockProbe::Capacity { io_base, features, queue_size, request_phys },
                BlockProbeReply::Value(capacity),
            ) => Ok(
                (
                    BlockProbe::Status { io_base, features, queue_size, request_phys, capacity },
                    BlockProbeAction::Start {
                        status: VIRTIO_STATUS_ACKNOWLEDGE | VIRTIO_STATUS_DRIVER
                            | VIRTIO_STATUS_DRIVER_OK,
                    },
                ),
            ),
            (
                BlockProbe::Status { io_base, features, queue_size, request_phys, capacity },
                BlockProbeReply::Value(status),
            ) => if !accepts_driver(status as u8) {
                Err(BlockError::DeviceRejected)
            } else {
                Ok(
                    (
                        BlockProbe::Ready {
                            info: BlockInfo {
                                pci_bus: bus,
                                pci_device: device,
                                pci_function: function,
                                io_base,
                                queue_size,
                                capacity_sectors: capacity,
                                flush_supported: features & VIRTIO_BLK_F_FLUSH != 0,
                            },
                            request_phys,
                        },
                        BlockProbeAction::Done,
                    ),
                )
            },
            (BlockProbe::Ready { info, request_phys }, _) => Ok(
                (BlockProbe::Ready { info, request_phys }, BlockProbeAction::Done),
            ),
            _ => Err(BlockError::DmaAddressUnavailable),
        }
    }

    /// The device that was found, once the search has come to its end.
    pub fn device(self) -> (device: Option<VirtioBlock>)
        ensures
            match self {
                BlockProbe::Ready { info, request_phys } => device matches Some(found)
                    && found.details() == info && found.page() == request_phys && found.ring() == (
                Virtqueue {
                    index: 0,
                    size: info.queue_size,
                    used_offset: used_ring_offset(info.queue_size as int) as usize,
                    available_index: 0,
                    used_index: 0,
                }),
                _ => device is None,
            },
    {
        match self {
            BlockProbe::Ready { info, request_phys } => Some(
                VirtioBlock { info, queue: Virtqueue::new(0, info.queue_size), request_phys },
            ),
            _ => None,
        }
    }
}

/// A device that a search ends with can be driven.
pub proof fn a_found_device_can_be_driven(
    state: BlockProbe,
    reply: BlockProbeReply,
    bus: u8,
    device: u8,
    function: u8,
    found: VirtioBlock,
)
    requires
        state matches BlockProbe::Status { queue_size, request_phys, .. } && queue_size >= 3
            && request_phys + 4096 <= u64::MAX,
        probe_step(state, reply, bus, device, function) matches Ok(
            (BlockProbe::Ready { info, request_phys }, _),
        ) && found.details() == info && found.page() == request_phys && found.ring() == (Virtqueue {
            index: 0,
            size: info.queue_size,
            used_offset: used_ring_offset(info.queue_size as int) as usize,
            available_index: 0,
            used_index: 0,
        }),
    ensures
        found.well_formed(),
{
}

/// A request is a chain: what is asked for, the sector unless only a flush is asked for, and the byte for
/// the verdict. The device writes the sector when it is read, and always the verdict.
pub proof fn a_request_is_a_chain(request_type: u32, page: u64)
    requires
        page + 4096 <= u64::MAX,
    ensures
        ({
            let chain = request_descriptors(request_type, page);
            let last = chain.len() - 1;
            &&& chain.len() == if request_type == 4 {
                2int
            } else {
                3
            }
            &&& chain[0].address == page && chain[0].length == 16
            &&& chain[last].address == page + 16 && chain[last].length == 1 && chain[last].flags == 2
            &&& request_type != 4 ==> chain[1].address == page + 512 && chain[1].length == 512
            &&& request_type == 0 ==> chain[1].flags == 3
            &&& request_type == 1 ==> chain[1].flags == 1
        }),
{
    assert(1u16 | 2u16 == 3u16) by (bit_vector);
}

/// A request is made if and only if its sector is on the disk, where it has one, and there is data where
/// data is written; it succeeds if and only if the device says so, and there is room for what was read.
pub proof fn a_request_is_made_and_answered(
    info: BlockInfo,
    request_type: u32,
    sector: u64,
    has_data: bool,
    status: u8,
)
    ensures
        request_fault(info, request_type, sector, has_data) is None <==> (request_type == 4 || sector
            < info.capacity_sectors) && (request_type == 1 ==> has_data),
        verdict_outcome(request_type, has_data, status) is Ok <==> status == 0 && (request_type == 0
            ==> has_data),
        status != 0 ==> verdict_outcome(request_type, has_data, status) == Err::<(), BlockError>(
            BlockError::RequestFailed(status),
        ),
{
}

/// The bytes of a request: what is asked for, four zeros, and the sector.
pub proof fn a_request_on_the_wire(header: Seq<u8>, request_type: u32, sector: u64)
    requires
        request_header(header, request_type, sector),
    ensures
        header.len() == 16,
        header[0] + header[1] * 0x100 + header[2] * 0x1_0000 + header[3] * 0x100_0000 == request_type,
        header[4] == 0 && header[5] == 0 && header[6] == 0 && header[7] == 0,
        crate::fs::format::low_first_8(header, 8) == sector,
{
}

/// A disk that answers every question as it should is found: with the port, the size of its queue and
/// the capacity that it gave, and with the ability to flush if it has it.
pub proof fn a_disk_is_found_step_by_step(
    port: u16,
    host: u32,
    queue_size: u16,
    queue: u64,
    request: u64,
    capacity: u64,
    bus: u8,
    device: u8,
    function: u8,
)
    requires
        port as int % 4 == 0,
        queue_size >= 3,
        queue < 0x1000_0000_0000,
        request + 4096 <= u64::MAX,
    ensures
        ({
            let step = |state: BlockProbe, reply: BlockProbeReply|
                probe_step(state, reply, bus, device, function)->Ok_0;
            let features = host & 0x200;
            let asked = step(BlockProbe::Bar, BlockProbeReply::Value((port + 1) as u64));
            let negotiated = step(asked.0, BlockProbeReply::Value(host as u64));
            let sized = step(negotiated.0, BlockProbeReply::Value(queue_size as u64));
            let placed = step(sized.0, BlockProbeReply::Memory(Some(queue)));
            let ready = step(placed.0, BlockProbeReply::Memory(Some(request)));
            let measured = step(ready.0, BlockProbeReply::Value(capacity));
            let found = step(measured.0, BlockProbeReply::Value(7));
            &&& asked.1 == (BlockProbeAction::Announce { io_base: port, status: 3 })
            &&& negotiated.1 == (BlockProbeAction::Negotiate { features })
            &&& sized.1 matches BlockProbeAction::AllocateQueue { pages } && crate::virtio::queue_bytes(
                queue_size as int,
            ) <= pages * 4096
            &&& placed.1 matches BlockProbeAction::PlaceQueue { frame } && frame * 4096 <= queue < frame
                * 4096 + 4096
            &&& measured.1 == (BlockProbeAction::Start { status: 7 })
            &&& found.0 == (BlockProbe::Ready {
                info: BlockInfo {
                    pci_bus: bus,
                    pci_device: device,
                    pci_function: function,
                    io_base: port,
                    queue_size,
                    capacity_sectors: capacity,
                    flush_supported: host & 0x200 != 0,
                },
                request_phys: request,
            })
        }),
{
    assert(1u8 | 2u8 == 3u8 && 1u8 | 2u8 | 4u8 == 7u8 && 7u8 & 128 == 0 && 7u8 & 4 != 0 && (host & 0x200)
        & 0x200 == host & 0x200) by (bit_vector);
}

/// A disk that has no ports, no queue or one of fewer than three places, that cannot reach its memory or
/// does not run in the end is refused, each for its reason.
pub proof fn a_disk_that_cannot_be_driven_is_refused(
    port: u16,
    features: u32,
    queue_size: u16,
    value: u64,
    bus: u8,
    device: u8,
    function: u8,
)
    ensures
        ({
            let fails = |state: BlockProbe, reply: BlockProbeReply, error: BlockError|
                probe_step(state, reply, bus, device, function) == Err::<
                    (BlockProbe, BlockProbeAction),
                    BlockError,
                >(error);
            let asked = BlockProbe::QueueSize { io_base: port, features };
            let sized = BlockProbe::QueueMemory { io_base: port, features, queue_size };
            let placed = BlockProbe::RequestMemory { io_base: port, features, queue_size };
            &&& fails(asked, BlockProbeReply::Value(0), BlockError::QueueUnavailable)
            &&& fails(asked, BlockProbeReply::Value(1), BlockError::QueueTooSmall)
            &&& fails(asked, BlockProbeReply::Value(2), BlockError::QueueTooSmall)
            &&& fails(sized, BlockProbeReply::Memory(None), BlockError::DmaAddressUnavailable)
            &&& fails(placed, BlockProbeReply::Memory(None), BlockError::DmaAddressUnavailable)
            &&& value >= 0x1000_0000_0000 ==> fails(
                sized,
                BlockProbeReply::Memory(Some(value)),
                BlockError::QueueAddressTooHigh,
            )
            &&& value + 4096 > u64::MAX ==> fails(
                placed,
                BlockProbeReply::Memory(Some(value)),
                BlockError::DmaAddressUnavailable,
            )
            &&& value as u32 as int % 2 == 0 ==> fails(
                BlockProbe::Bar,
                BlockProbeReply::Value(value),
                BlockError::InvalidIoBar,
            )
        }),
{
    let bar = value as u32;
    assert(bar % 2 == 0 ==> bar & 1 == 0) by (bit_vector);
}

} // verus!
