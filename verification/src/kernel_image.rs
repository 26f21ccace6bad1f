//! The kernel's image, and what it checks and keeps in the filesystem when it starts.

use vstd::prelude::*;
use vstd::utf8::encode_utf8;
use crate::block::BlockDevice;
use crate::bytes::bytes_equal;
use crate::fs::entry::{Entry, FsError, OWNER_READ};
use crate::fs::laws::{
    a_commit_stays_up_to_date, a_written_file_holds_the_data, an_up_to_date_volume_verifies,
    created_directories_keep_the_rest, dependable, lemma_contents_stay, mounting_again_finds_the_tree,
    settled,
};
use crate::fs::tree::{after_create_dir_all, after_write, contents_at};
use crate::fs::snapshot::newest;
use crate::fs::volume::{lemma_names, CodexFs};
use crate::hardware::{HardwareSummary, PciAddress};

verus! {

pub const KERNEL_MAGIC: [u8; 8] = [0x43, 0x44, 0x58, 0x4b, 0x45, 0x52, 0x4e, 0x00];

pub const KERNEL_ABI_VERSION: u32 = 2;

pub const BOOT_COUNT_PATH: &'static str = "/system/boot-count";

pub const LARGE_FILE_PROOF_PATH: &'static str = "/system/large-proof.bin";

pub const LARGE_FILE_PROOF_BYTES: usize = 98304;

/// The permissions of the boot counter.
pub const BOOT_COUNT_PERMISSIONS: u16 = 0o600;

/// The permissions of the large file.
pub const LARGE_FILE_PERMISSIONS: u16 = 0o640;

/// How many events of the mouse are reported.
pub const POINTER_EVENT_REPORTS: u8 = 4;

/// What the loader finds the kernel by.
#[derive(Debug, Clone, Copy, PartialEq, Eq)]
pub struct KernelImageDescriptor {
    pub magic: [u8; 8],
    pub abi_version: u32,
    pub reserved: u32,
    pub entry_hint: u64,
}

/// The descriptor of this kernel.
pub fn descriptor() -> (descriptor: KernelImageDescriptor)
    ensures
        descriptor.magic@ == KERNEL_MAGIC@,
        descriptor.abi_version == KERNEL_ABI_VERSION,
        descriptor.reserved == 0,
        descriptor.entry_hint == 0,
{
    KernelImageDescriptor {
        magic: KERNEL_MAGIC,
        abi_version: KERNEL_ABI_VERSION,
        reserved: 0,
        entry_hint: 0,
    }
}

/// Why the hardware does not suffice.
#[derive(Debug, Clone, Copy, PartialEq, Eq, Structural)]
pub enum InventoryFault {
    NoBlockDevice { network: bool },
    NoNetworkDevice,
}

/// Where the disk and the network are.
pub fn check_inventory(summary: &HardwareSummary) -> (result: Result<
    (PciAddress, PciAddress),
    InventoryFault,
>)
    ensures
        result == match (summary.virtio_block, summary.virtio_net) {
            (None, network) => Err::<(PciAddress, PciAddress), InventoryFault>(
                InventoryFault::NoBlockDevice { network: network is Some },
            ),
            (Some(_), None) => Err(InventoryFault::NoNetworkDevice),
            (Some(block), Some(network)) => Ok((block, network)),
        },
{
    let block = match summary.virtio_block {
        Some(block) => block,
        None => {
            return Err(
                InventoryFault::NoBlockDevice { network: summary.virtio_net.is_some() },
            );
        },
    };
    match summary.virtio_net {
        Some(network) => Ok((block, network)),
        None => Err(InventoryFault::NoNetworkDevice),
    }
}

/// Whether a driver has found the device that the inventory has.
pub fn binding_matches(expected: Option<PciAddress>, bus: u8, device: u8, function: u8) -> (result: bool)
    ensures
        result == (expected == Some(PciAddress { bus, device, function })),
{
    match expected {
        Some(address) => address.bus == bus && address.device == device && address.function
            == function,
        None => false,
    }
}

/// Whether one more event of the mouse is reported.
pub fn reports_pointer_event(reported: &mut u8) -> (report: bool)
    ensures
        report == (*old(reported) < POINTER_EVENT_REPORTS),
        *final(reported) == if report {
            *old(reported) + 1
        } else {
            *old(reported) as int
        },
{
    if *reported < POINTER_EVENT_REPORTS {
        *reported = *reported + 1;
        true
    } else {
        false
    }
}

/// The decimal digits of a number.
pub open spec fn digits(value: nat) -> Seq<u8>
    decreases value,
{
    if value < 10 {
        seq![(0x30 + value) as u8]
    } else {
        digits(value / 10).push((0x30 + value % 10) as u8)
    }
}

/// The number that the first `n` bytes are the digits of, while it fits 64 bits.
pub open spec fn number_of(bytes: Seq<u8>, n: nat) -> Option<u64>
    decreases n,
{
    if n == 0 {
        Some(0)
    } else {
        match number_of(bytes, (n - 1) as nat) {
            None => None,
            Some(value) => {
                let byte = bytes[n - 1];
                if !(0x30 <= byte <= 0x39) || value * 10 + (byte - 0x30) > u64::MAX {
                    None
                } else {
                    Some((value * 10 + (byte - 0x30)) as u64)
                }
            },
        }
    }
}

/// The number that bytes are the digits of.
pub open spec fn decimal(bytes: Seq<u8>) -> Option<u64> {
    if bytes.len() == 0 {
        None
    } else {
        number_of(bytes, bytes.len())
    }
}

proof fn lemma_no_number(bytes: Seq<u8>, n: nat, m: nat)
    requires
        n <= m,
        number_of(bytes, n) is None,
    ensures
        number_of(bytes, m) is None,
    decreases m,
{
    if n < m {
        lemma_no_number(bytes, n, (m - 1) as nat);
    }
}

/// Reads a number.
pub fn parse_decimal_u64(bytes: &[u8]) -> (value: Option<u64>)
    ensures
        value == decimal(bytes@),
{
    if bytes.len() == 0 {
        return None;
    }
    let mut value: u64 = 0;
    let mut i: usize = 0;
    while i < bytes.len()
        invariant
            i <= bytes@.len(),
            bytes@.len() > 0,
            number_of(bytes@, i as nat) == Some(value),
        decreases bytes.len() - i,
    {
        proof {
            if number_of(bytes@, (i + 1) as nat) is None {
                lemma_no_number(bytes@, (i + 1) as nat, bytes@.len());
            }
        }
        let byte: u8 = bytes[i];
        if byte < 0x30 || byte > 0x39 {
            return None;
        }
        let tens: u64 = match value.checked_mul(10) {
            Some(tens) => tens,
            None => return None,
        };
        value = match tens.checked_add((byte - 0x30) as u64) {
            Some(value) => value,
            None => return None,
        };
        i += 1;
    }
    Some(value)
}

/// Writes a number.
pub fn encode_decimal_u64(value: u64) -> (bytes: Vec<u8>)
    ensures
        bytes@ == digits(value as nat),
    decreases value,
{
    if value < 10 {
        let mut bytes: Vec<u8> = Vec::new();
        bytes.push(0x30 + value as u8);
        assert(bytes@ =~= digits(value as nat));
        return bytes;
    }
    let mut bytes = encode_decimal_u64(value / 10);
    bytes.push(0x30 + (value % 10) as u8);
    bytes
}

proof fn lemma_same_number(a: Seq<u8>, b: Seq<u8>, n: nat)
    requires
        n <= a.len(),
        n <= b.len(),
        forall|i: int| 0 <= i < n ==> a[i] == b[i],
    ensures
        number_of(a, n) == number_of(b, n),
    decreases n,
{
    if n > 0 {
        lemma_same_number(a, b, (n - 1) as nat);
    }
}

/// A number that was written is read.
pub proof fn a_written_number_is_read(value: u64)
    ensures
        decimal(digits(value as nat)) == Some(value),
    decreases value,
{
    let all = digits(value as nat);
    if value < 10 {
        reveal_with_fuel(number_of, 2);
        assert(all.len() == 1);
    } else {
        a_written_number_is_read((value / 10) as u64);
        let front = digits(value as nat / 10);
        assert(all == front.push((0x30 + value % 10) as u8));
        lemma_same_number(front, all, front.len());
        assert(number_of(all, all.len()) == Some(value));
    }
}

/// The bytes of the large file.
pub open spec fn proof_bytes() -> Seq<u8> {
    Seq::new(
        LARGE_FILE_PROOF_BYTES as nat,
        |i: int| ((i * 31 + i / 251) % 0x100) as u8,
    )
}

/// The bytes of the large file.
pub fn build_large_file_proof() -> (bytes: Vec<u8>)
    ensures
        bytes@ == proof_bytes(),
{
    let mut bytes: Vec<u8> = Vec::new();
    let mut index: usize = 0;
    while index < LARGE_FILE_PROOF_BYTES
        invariant
            index <= LARGE_FILE_PROOF_BYTES,
            bytes@.len() == index,
            forall|i: int|
                0 <= i < index ==> #[trigger] bytes@[i] == ((i * 31 + i / 251) % 0x100) as u8,
        decreases LARGE_FILE_PROOF_BYTES - index,
    {
        bytes.push(((index * 31 + index / 251) % 0x100) as u8);
        index += 1;
    }
    assert(bytes@ =~= proof_bytes());
    bytes
}

/// A number rotated left by five bits.
pub open spec fn rotated(value: u32) -> u32 {
    (value << 5) | (value >> 27)
}

/// The checksum of the first `n` bytes.
pub open spec fn rolling_checksum(bytes: Seq<u8>, n: nat) -> u32
    decreases n,
{
    if n == 0 {
        0
    } else {
        rotated(rolling_checksum(bytes, (n - 1) as nat)) ^ (bytes[n - 1] as u32)
    }
}

/// A checksum that depends on the order of the bytes.
pub fn checksum32(bytes: &[u8]) -> (checksum: u32)
    ensures
        checksum == rolling_checksum(bytes@, bytes@.len()),
{
    let mut checksum: u32 = 0;
    let mut i: usize = 0;
    while i < bytes.len()
        invariant
            i <= bytes@.len(),
            checksum == rolling_checksum(bytes@, i as nat),
        decreases bytes.len() - i,
    {
        checksum = ((checksum << 5) | (checksum >> 27)) ^ (bytes[i] as u32);
        i += 1;
    }
    checksum
}

/// Why the filesystem is not as the kernel needs it.
#[derive(Debug, Clone, Copy, PartialEq, Eq, Structural)]
pub enum StartupFault {
    Namespace(FsError),
    BinaryDirectory(FsError),
    CounterInvalid,
    CounterExhausted,
    CounterCommit(FsError),
    CounterVerification(FsError),
    CounterMismatch,
    LargeFileCommit(FsError),
    LargeFileVerification(FsError),
    LargeFileMismatch,
}

/// The boot counter before and after a boot.
#[derive(Debug, Clone, Copy, PartialEq, Eq, Structural)]
pub struct BootCounter {
    pub previous: u64,
    pub current: u64,
}

/// What the boot counter says in a tree: nothing counts as zero.
pub open spec fn counter_in(t: Seq<Entry>) -> Option<u64> {
    match contents_at(t, encode_utf8(BOOT_COUNT_PATH@)) {
        None => Some(0),
        Some(data) => decimal(data),
    }
}

/// What the tree becomes when the boot counter is set.
pub open spec fn counter_set(t: Seq<Entry>, value: u64) -> Result<Seq<Entry>, FsError> {
    after_write(
        t,
        encode_utf8(BOOT_COUNT_PATH@),
        digits(value as nat),
        Some(BOOT_COUNT_PERMISSIONS),
    )
}

/// What the tree becomes when the large file is written.
pub open spec fn large_file_set(t: Seq<Entry>) -> Result<Seq<Entry>, FsError> {
    after_write(
        t,
        encode_utf8(LARGE_FILE_PROOF_PATH@),
        proof_bytes(),
        Some(LARGE_FILE_PERMISSIONS),
    )
}

/// Both files can be read by their owner.
proof fn lemma_readable()
    ensures
        BOOT_COUNT_PERMISSIONS & OWNER_READ != 0,
        LARGE_FILE_PERMISSIONS & OWNER_READ != 0,
{
    assert(0o600u16 & 0o400 != 0 && 0o640u16 & 0o400 != 0) by (bit_vector);
}

/// What a written file can be read as.
proof fn lemma_written<D: BlockDevice>(
    fs: CodexFs<D>,
    path: Seq<u8>,
    data: Seq<u8>,
    permissions: u16,
)
    requires
        fs.well_formed(),
        after_write(fs.entries(), path, data, Some(permissions)) is Ok,
        permissions & OWNER_READ != 0,
    ensures
        contents_at(after_write(fs.entries(), path, data, Some(permissions)).unwrap(), path) == Some(
            data,
        ),
{
    lemma_names(fs);
    a_written_file_holds_the_data(fs.entries(), path, data, Some(permissions));
}

/// What becomes of a filesystem when the kernel's directories are made.
pub open spec fn namespace_prepared<D: BlockDevice>(
    before: CodexFs<D>,
    after: CodexFs<D>,
    result: Result<(), StartupFault>,
) -> bool {
    let first = after_create_dir_all(before.entries(), encode_utf8("/system"@), 0o755);
    match result {
        Ok(_) => exists|between: CodexFs<D>| #[trigger]
            between.updated(&before, first, Ok(())) && after.updated(
                &between,
                after_create_dir_all(between.entries(), encode_utf8("/system/bin"@), 0o755),
                Ok(()),
            ),
        Err(StartupFault::Namespace(error)) => after.updated(&before, first, Err(error)),
        Err(StartupFault::BinaryDirectory(error)) => exists|between: CodexFs<D>| #[trigger]
            between.updated(&before, first, Ok(())) && after.updated(
                &between,
                after_create_dir_all(between.entries(), encode_utf8("/system/bin"@), 0o755),
                Err(error),
            ),
        Err(_) => false,
    }
}

/// Makes the directories that the kernel keeps its files in.
pub fn prepare_namespace<D: BlockDevice>(filesystem: &mut CodexFs<D>) -> (result: Result<
    (),
    StartupFault,
>)
    requires
        old(filesystem).well_formed(),
    ensures
        final(filesystem).well_formed(),
        namespace_prepared(*old(filesystem), *final(filesystem), result),
{
    match filesystem.create_dir_all("/system", 0o755) {
        Ok(_) => {},
        Err(error) => return Err(StartupFault::Namespace(error)),
    }
    let ghost between = *filesystem;
    assert(between.updated(
        old(filesystem),
        after_create_dir_all(old(filesystem).entries(), encode_utf8("/system"@), 0o755),
        Ok(()),
    ));
    match filesystem.create_dir_all("/system/bin", 0o755) {
        Ok(_) => Ok(()),
        Err(error) => Err(StartupFault::BinaryDirectory(error)),
    }
}

/// What becomes of a filesystem when a boot is counted.
pub open spec fn counter_advanced<D: BlockDevice>(
    before: CodexFs<D>,
    after: CodexFs<D>,
    result: Result<BootCounter, StartupFault>,
) -> bool {
    match counter_in(before.entries()) {
        None => result == Err::<BootCounter, StartupFault>(StartupFault::CounterInvalid)
            && after.unchanged(&before),
        Some(previous) => if previous == u64::MAX {
            result == Err::<BootCounter, StartupFault>(StartupFault::CounterExhausted)
                && after.unchanged(&before)
        } else {
            let current = (previous + 1) as u64;
            let next = counter_set(before.entries(), current);
            match result {
                Ok(counter) => {
                    &&& counter == (BootCounter { previous, current })
                    &&& next == Ok::<Seq<Entry>, FsError>(after.entries())
                    &&& counter_in(after.entries()) == Some(current)
                    &&& after.commits() == before.commits() + 1
                    &&& after.durable() == after.disk()
                    &&& settled(before) ==> settled(after)
                },
                Err(StartupFault::CounterCommit(error)) => after.replaced(
                    &before,
                    next,
                    Err(error),
                ) && !dependable(before, Some(next)),
                Err(StartupFault::CounterVerification(_)) => next == Ok::<
                    Seq<Entry>,
                    FsError,
                >(after.entries()) && after.commits() == before.commits() + 1 && !dependable(
                    before,
                    Some(next),
                ),
                Err(_) => false,
            }
        },
    }
}

/// Counts this boot: what the counter says is read, counted up and committed, and the device is
/// verified.
#[verifier::spinoff_prover]
#[verifier::rlimit(40)]
pub fn advance_boot_counter<D: BlockDevice>(filesystem: &mut CodexFs<D>) -> (result: Result<
    BootCounter,
    StartupFault,
>)
    requires
        old(filesystem).well_formed(),
    ensures
        final(filesystem).well_formed(),
        final(filesystem).same_volume(old(filesystem)),
        counter_advanced(*old(filesystem), *final(filesystem), result),
{
    let ghost before = *filesystem;
    let previous: u64 = match filesystem.read_file(BOOT_COUNT_PATH) {
        None => 0,
        Some(bytes) => match parse_decimal_u64(bytes) {
            Some(value) => value,
            None => return Err(StartupFault::CounterInvalid),
        },
    };
    let current: u64 = match previous.checked_add(1) {
        Some(current) => current,
        None => return Err(StartupFault::CounterExhausted),
    };
    let encoded = encode_decimal_u64(current);
    let ghost next = counter_set(before.entries(), current);
    proof {
        lemma_readable();
        a_written_number_is_read(current);
        if next is Ok {
            lemma_written(
                before,
                encode_utf8(BOOT_COUNT_PATH@),
                digits(current as nat),
                BOOT_COUNT_PERMISSIONS,
            );
        }
    }
    match filesystem.write_file_with_permissions(
        BOOT_COUNT_PATH,
        encoded.as_slice(),
        BOOT_COUNT_PERMISSIONS,
    ) {
        Ok(_) => {},
        Err(error) => return Err(StartupFault::CounterCommit(error)),
    }
    proof {
        if before.anchored() && before.up_to_date() {
            a_commit_stays_up_to_date(before, *filesystem, next.unwrap());
            an_up_to_date_volume_verifies(*filesystem);
        }
    }
    match filesystem.verify_committed_state() {
        Ok(_) => {},
        Err(error) => return Err(StartupFault::CounterVerification(error)),
    }
    let read_back: Option<u64> = match filesystem.read_file(BOOT_COUNT_PATH) {
        Some(bytes) => parse_decimal_u64(bytes),
        None => None,
    };
    match read_back {
        Some(value) => if value != current {
            return Err(StartupFault::CounterMismatch);
        },
        None => return Err(StartupFault::CounterMismatch),
    }
    Ok(BootCounter { previous, current })
}

/// What becomes of a filesystem when the large file is put there.
pub open spec fn large_file_ensured<D: BlockDevice>(
    before: CodexFs<D>,
    after: CodexFs<D>,
    result: Result<bool, StartupFault>,
) -> bool {
    let t = before.entries();
    let missing = contents_at(t, encode_utf8(LARGE_FILE_PROOF_PATH@)) != Some(proof_bytes());
    let next = if missing {
        Some(large_file_set(t))
    } else {
        None
    };
    let put = if missing {
        large_file_set(t) == Ok::<Seq<Entry>, FsError>(after.entries()) && after.commits()
            == before.commits() + 1 && after.durable() == after.disk()
    } else {
        after.entries() == t && after.commits() == before.commits() && after.disk() == before.disk()
            && after.durable() == before.durable() && after.traffic() == before.traffic()
    };
    match result {
        Ok(written) => {
            &&& written == missing
            &&& put
            &&& contents_at(
                after.entries(),
                encode_utf8(LARGE_FILE_PROOF_PATH@),
            ) == Some(proof_bytes())
            &&& settled(before) ==> settled(after)
        },
        Err(StartupFault::LargeFileCommit(error)) => missing && after.replaced(
            &before,
            large_file_set(t),
            Err(error),
        ) && !dependable(before, next),
        Err(StartupFault::LargeFileVerification(_)) => put && !dependable(before, next),
        Err(_) => false,
    }
}

/// Writes the large file unless it is there as it should be, verifies the device, and says whether it
/// was written.
#[verifier::spinoff_prover]
#[verifier::rlimit(40)]
pub fn ensure_large_file<D: BlockDevice>(filesystem: &mut CodexFs<D>) -> (result: Result<
    bool,
    StartupFault,
>)
    requires
        old(filesystem).well_formed(),
    ensures
        final(filesystem).well_formed(),
        final(filesystem).same_volume(old(filesystem)),
        large_file_ensured(*old(filesystem), *final(filesystem), result),
{
    let ghost before = *filesystem;
    let ghost next = large_file_set(before.entries());
    let expected = build_large_file_proof();
    let present: bool = match filesystem.read_file(LARGE_FILE_PROOF_PATH) {
        Some(bytes) => bytes_equal(bytes, expected.as_slice()),
        None => false,
    };
    proof {
        lemma_readable();
        if next is Ok {
            lemma_written(
                before,
                encode_utf8(LARGE_FILE_PROOF_PATH@),
                proof_bytes(),
                LARGE_FILE_PERMISSIONS,
            );
        }
    }
    if !present {
        match filesystem.write_file_with_permissions(
            LARGE_FILE_PROOF_PATH,
            expected.as_slice(),
            LARGE_FILE_PERMISSIONS,
        ) {
            Ok(_) => {},
            Err(error) => return Err(StartupFault::LargeFileCommit(error)),
        }
    }
    proof {
        if before.anchored() && before.up_to_date() {
            if !present {
                a_commit_stays_up_to_date(before, *filesystem, next.unwrap());
            }
            an_up_to_date_volume_verifies(*filesystem);
        }
    }
    match filesystem.verify_committed_state() {
        Ok(_) => {},
        Err(error) => return Err(StartupFault::LargeFileVerification(error)),
    }
    let intact: bool = match filesystem.read_file(LARGE_FILE_PROOF_PATH) {
        Some(bytes) => bytes_equal(bytes, expected.as_slice()),
        None => false,
    };
    if !intact {
        return Err(StartupFault::LargeFileMismatch);
    }
    Ok(!present)
}

/// What the kernel found in the filesystem when it started.
#[derive(Debug, Clone, Copy, PartialEq, Eq, Structural)]
pub struct StartupReport {
    pub counter: BootCounter,
    pub large_file_written: bool,
}

/// The directories are made, the boot is counted, and the large file is there.
pub open spec fn started_well<D: BlockDevice>(
    before: CodexFs<D>,
    after: CodexFs<D>,
    report: StartupReport,
) -> bool {
    exists|a: CodexFs<D>, b: CodexFs<D>|
        a.well_formed() && b.well_formed() && namespace_prepared(before, a, Ok(()))
            && #[trigger] counter_advanced(a, b, Ok(report.counter)) && large_file_ensured(
            b,
            after,
            Ok(report.large_file_written),
        )
}

/// The directories are made, and the boot cannot be counted.
pub open spec fn not_counted<D: BlockDevice>(
    before: CodexFs<D>,
    after: CodexFs<D>,
    fault: StartupFault,
) -> bool {
    exists|a: CodexFs<D>|
        a.well_formed() && #[trigger] namespace_prepared(before, a, Ok(())) && counter_advanced(
            a,
            after,
            Err(fault),
        )
}

/// The directories are made, the boot is counted, and the large file cannot be put there.
pub open spec fn large_file_refused<D: BlockDevice>(
    before: CodexFs<D>,
    after: CodexFs<D>,
    fault: StartupFault,
) -> bool {
    exists|a: CodexFs<D>, b: CodexFs<D>, counter: BootCounter|
        a.well_formed() && b.well_formed() && namespace_prepared(before, a, Ok(()))
            && #[trigger] counter_advanced(a, b, Ok(counter)) && large_file_ensured(
            b,
            after,
            Err(fault),
        )
}

/// What becomes of a filesystem when the kernel starts: its directories are made, the boot is counted,
/// and the large file is put there. The first of these that fails is the last.
pub open spec fn started<D: BlockDevice>(
    before: CodexFs<D>,
    after: CodexFs<D>,
    result: Result<StartupReport, StartupFault>,
) -> bool {
    match result {
        Ok(report) => started_well(before, after, report),
        Err(fault) => namespace_prepared(before, after, Err(fault)) || not_counted(
            before,
            after,
            fault,
        ) || large_file_refused(before, after, fault),
    }
}

/// Makes the kernel's directories, counts the boot and puts the large file there.
pub fn start_filesystem<D: BlockDevice>(filesystem: &mut CodexFs<D>) -> (result: Result<
    StartupReport,
    StartupFault,
>)
    requires
        old(filesystem).well_formed(),
    ensures
        final(filesystem).well_formed(),
        started(*old(filesystem), *final(filesystem), result),
{
    let ghost before = *filesystem;
    match prepare_namespace(filesystem) {
        Ok(_) => {},
        Err(fault) => return Err(fault),
    }
    let ghost a = *filesystem;
    assert(namespace_prepared(before, a, Ok(())));
    let counter = match advance_boot_counter(filesystem) {
        Ok(counter) => counter,
        Err(fault) => {
            assert(not_counted(before, *filesystem, fault));
            return Err(fault);
        },
    };
    let ghost b = *filesystem;
    assert(counter_advanced(a, b, Ok(counter)));
    match ensure_large_file(filesystem) {
        Ok(large_file_written) => {
            let report = StartupReport { counter, large_file_written };
            assert(large_file_ensured(b, *filesystem, Ok(report.large_file_written)));
            assert(counter_advanced(a, b, Ok(report.counter)));
            assert(started_well(before, *filesystem, report));
            Ok(report)
        },
        Err(fault) => {
            assert(large_file_refused(before, *filesystem, fault));
            Err(fault)
        },
    }
}

/// The two files have different paths.
proof fn lemma_paths_differ()
    ensures
        encode_utf8(BOOT_COUNT_PATH@) != encode_utf8(LARGE_FILE_PROOF_PATH@),
{
    reveal_strlit("/system/boot-count");
    reveal_strlit("/system/large-proof.bin");
    let a = BOOT_COUNT_PATH@;
    let b = LARGE_FILE_PROOF_PATH@;
    assert(a.len() == 18 && b.len() == 23);
    vstd::utf8::encode_utf8_decode_utf8(a);
    vstd::utf8::encode_utf8_decode_utf8(b);
}

/// What can be read of a file stays the same when directories are made.
proof fn lemma_update_keeps_contents<D: BlockDevice>(
    before: CodexFs<D>,
    after: CodexFs<D>,
    path: Seq<u8>,
    permissions: u16,
    file: Seq<u8>,
)
    requires
        before.well_formed(),
        after.updated(
            &before,
            after_create_dir_all(before.entries(), path, permissions),
            Ok(()),
        ),
    ensures
        after.well_formed(),
        contents_at(after.entries(), file) == contents_at(before.entries(), file),
{
    lemma_names(before);
    let next = after_create_dir_all(before.entries(), path, permissions);
    if next != Ok::<Seq<Entry>, FsError>(before.entries()) {
        created_directories_keep_the_rest(before.entries(), path, permissions);
        lemma_contents_stay(before.entries(), after.entries(), file);
    }
}

/// A boot that starts counts one up from what the counter said, and afterwards the counter and the
/// large file are there, and all of it is durable.
pub proof fn a_boot_is_counted<D: BlockDevice>(
    before: CodexFs<D>,
    after: CodexFs<D>,
    report: StartupReport,
)
    requires
        before.well_formed(),
        after.well_formed(),
        started(before, after, Ok(report)),
    ensures
        counter_in(before.entries()) == Some(report.counter.previous),
        report.counter.current == report.counter.previous + 1,
        counter_in(after.entries()) == Some(report.counter.current),
        contents_at(after.entries(), encode_utf8(LARGE_FILE_PROOF_PATH@)) == Some(proof_bytes()),
        after.durable() == after.disk(),
{
    let (a, b) = choose|a: CodexFs<D>, b: CodexFs<D>|
        a.well_formed() && b.well_formed() && namespace_prepared(before, a, Ok(()))
            && #[trigger] counter_advanced(a, b, Ok(report.counter)) && large_file_ensured(
            b,
            after,
            Ok(report.large_file_written),
        );
    let file = encode_utf8(BOOT_COUNT_PATH@);
    let large = encode_utf8(LARGE_FILE_PROOF_PATH@);
    let first = after_create_dir_all(before.entries(), encode_utf8("/system"@), 0o755);
    let between = choose|between: CodexFs<D>| #[trigger]
        between.updated(&before, first, Ok(())) && a.updated(
            &between,
            after_create_dir_all(between.entries(), encode_utf8("/system/bin"@), 0o755),
            Ok(()),
        );
    lemma_update_keeps_contents(before, between, encode_utf8("/system"@), 0o755, file);
    lemma_update_keeps_contents(between, a, encode_utf8("/system/bin"@), 0o755, file);
    lemma_paths_differ();
    if contents_at(b.entries(), large) != Some(proof_bytes()) {
        lemma_names(b);
        lemma_names(after);
        a_written_file_holds_the_data(
            b.entries(),
            large,
            proof_bytes(),
            Some(LARGE_FILE_PERMISSIONS),
        );
        lemma_contents_stay(b.entries(), after.entries(), file);
    }
}

/// A filesystem stays settled when directories are made.
proof fn lemma_update_settles<D: BlockDevice>(
    before: CodexFs<D>,
    after: CodexFs<D>,
    next: Result<Seq<Entry>, FsError>,
)
    requires
        settled(before),
        after.updated(&before, next, Ok(())),
    ensures
        settled(after),
{
    if next != Ok::<Seq<Entry>, FsError>(before.entries()) {
        a_commit_stays_up_to_date(before, after, next.unwrap());
    }
}

/// A boot that starts on a settled filesystem leaves it settled.
pub proof fn a_start_leaves_the_filesystem_settled<D: BlockDevice>(
    before: CodexFs<D>,
    after: CodexFs<D>,
    report: StartupReport,
)
    requires
        settled(before),
        started(before, after, Ok(report)),
    ensures
        settled(after),
{
    let (a, b) = choose|a: CodexFs<D>, b: CodexFs<D>|
        a.well_formed() && b.well_formed() && namespace_prepared(before, a, Ok(()))
            && #[trigger] counter_advanced(a, b, Ok(report.counter)) && large_file_ensured(
            b,
            after,
            Ok(report.large_file_written),
        );
    let first = after_create_dir_all(before.entries(), encode_utf8("/system"@), 0o755);
    let between = choose|between: CodexFs<D>| #[trigger]
        between.updated(&before, first, Ok(())) && a.updated(
            &between,
            after_create_dir_all(between.entries(), encode_utf8("/system/bin"@), 0o755),
            Ok(()),
        );
    lemma_update_settles(before, between, first);
    lemma_update_settles(
        between,
        a,
        after_create_dir_all(between.entries(), encode_utf8("/system/bin"@), 0o755),
    );
}

/// A large file that is there is not written again.
proof fn lemma_large_file_stays<D: BlockDevice>(
    before: CodexFs<D>,
    after: CodexFs<D>,
    report: StartupReport,
)
    requires
        before.well_formed(),
        started(before, after, Ok(report)),
        contents_at(before.entries(), encode_utf8(LARGE_FILE_PROOF_PATH@)) == Some(proof_bytes()),
    ensures
        !report.large_file_written,
{
    let (a, b) = choose|a: CodexFs<D>, b: CodexFs<D>|
        a.well_formed() && b.well_formed() && namespace_prepared(before, a, Ok(()))
            && #[trigger] counter_advanced(a, b, Ok(report.counter)) && large_file_ensured(
            b,
            after,
            Ok(report.large_file_written),
        );
    let file = encode_utf8(BOOT_COUNT_PATH@);
    let large = encode_utf8(LARGE_FILE_PROOF_PATH@);
    let first = after_create_dir_all(before.entries(), encode_utf8("/system"@), 0o755);
    let between = choose|between: CodexFs<D>| #[trigger]
        between.updated(&before, first, Ok(())) && a.updated(
            &between,
            after_create_dir_all(between.entries(), encode_utf8("/system/bin"@), 0o755),
            Ok(()),
        );
    lemma_update_keeps_contents(before, between, encode_utf8("/system"@), 0o755, large);
    lemma_update_keeps_contents(between, a, encode_utf8("/system/bin"@), 0o755, large);
    lemma_paths_differ();
    lemma_names(a);
    lemma_names(b);
    a_written_file_holds_the_data(
        a.entries(),
        file,
        digits(report.counter.current as nat),
        Some(BOOT_COUNT_PERMISSIONS),
    );
    lemma_contents_stay(a.entries(), b.entries(), large);
}

/// The count goes on over a restart: a boot from the disk that an earlier one has left counts one up
/// from the earlier one.
pub proof fn the_next_boot_counts_on<D: BlockDevice>(
    before: CodexFs<D>,
    after: CodexFs<D>,
    first: StartupReport,
    remounted: CodexFs<D>,
    last: CodexFs<D>,
    second: StartupReport,
)
    requires
        before.well_formed(),
        after.well_formed(),
        remounted.well_formed(),
        last.well_formed(),
        settled(before),
        started(before, after, Ok(first)),
        remounted.disk() == after.disk(),
        newest(after.disk()) matches Some(snapshot) ==> remounted.shows(snapshot),
        started(remounted, last, Ok(second)),
    ensures
        second.counter.previous == first.counter.current,
        second.counter.current == first.counter.current + 1,
        !second.large_file_written,
{
    a_start_leaves_the_filesystem_settled(before, after, first);
    mounting_again_finds_the_tree(after, remounted);
    a_boot_is_counted(before, after, first);
    a_boot_is_counted(remounted, last, second);
    lemma_large_file_stays(remounted, last, second);
}

/// A number is written in tens: the last digit is what is left of it, and those before it are its tens.
pub proof fn a_number_is_written_in_tens(value: nat)
    ensures
        value < 10 ==> digits(value).len() == 1 && digits(value)[0] == 0x30 + value,
        value >= 10 ==> digits(value).drop_last() == digits(value / 10) && digits(value).last() == 0x30
            + value as int % 10,
{
    if value >= 10 {
        assert(digits(value).drop_last() =~= digits(value / 10));
    }
}

/// A number is read digit by digit: each one more makes ten times as much and itself, and what is no digit
/// or does not fit makes no number.
pub proof fn a_number_is_read_digit_by_digit(bytes: Seq<u8>, byte: u8)
    ensures
        decimal(Seq::<u8>::empty()) is None,
        decimal(seq![byte]) == if 0x30 <= byte <= 0x39 {
            Some((byte - 0x30) as u64)
        } else {
            None
        },
        bytes.len() > 0 ==> decimal(bytes.push(byte)) == match decimal(bytes) {
            Some(value) => if 0x30 <= byte <= 0x39 && value * 10 + (byte - 0x30) <= u64::MAX {
                Some((value * 10 + (byte - 0x30)) as u64)
            } else {
                None
            },
            None => None,
        },
{
    reveal_with_fuel(number_of, 2);
    let longer = bytes.push(byte);
    lemma_same_number(bytes, longer, bytes.len());
    assert(longer[bytes.len() as int] == byte);
}

/// The rolling checksum turns what it has by five bits and mixes the next byte in.
pub proof fn the_checksum_rolls(bytes: Seq<u8>, byte: u8)
    ensures
        rolling_checksum(Seq::<u8>::empty(), 0) == 0,
        ({
            let before = rolling_checksum(bytes, bytes.len());
            rolling_checksum(bytes.push(byte), bytes.len() + 1) == (((before as int * 32) % 0x1_0000_0000
                + before as int / 0x800_0000) as u32) ^ (byte as u32)
        }),
{
    let longer = bytes.push(byte);
    lemma_same_checksum(bytes, longer, bytes.len());
    assert(longer[bytes.len() as int] == byte);
    let before = rolling_checksum(bytes, bytes.len());
    assert((before << 5) | (before >> 27) == ((before * 32) % 0x1_0000_0000 + before / 0x800_0000) as u32)
        by (bit_vector);
}

proof fn lemma_same_checksum(a: Seq<u8>, b: Seq<u8>, n: nat)
    requires
        n <= a.len(),
        n <= b.len(),
        forall|i: int| 0 <= i < n ==> a[i] == b[i],
    ensures
        rolling_checksum(a, n) == rolling_checksum(b, n),
    decreases n,
{
    if n > 0 {
        lemma_same_checksum(a, b, (n - 1) as nat);
    }
}

} // verus!
