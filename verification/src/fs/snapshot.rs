//! Snapshots on a disk: what a superblock and its record stand for together.

use vstd::prelude::*;
use crate::block::{BlockDevice, BlockError, SECTOR_SIZE};
use crate::bytes::{all_zero, append, zero_between};
use crate::checksum::{crc32, crc32_of};
use crate::fs::entry::{tree, Entry, FileEntry, FsError};
use crate::fs::record::{decode_record, decoded};
use crate::fs::superblock::{
    decode_superblock, decoded_superblock, Superblock, SUPERBLOCK_A_SECTOR, SUPERBLOCK_B_SECTOR,
};

verus! {

/// The bytes of `count` sectors from `start` on.
pub open spec fn record_image(sectors: Seq<Seq<u8>>, start: int, count: int) -> Seq<u8> {
    Seq::new((count * 512) as nat, |i: int| sectors[start + i / 512][i % 512])
}

/// The tree that the record of `superblock` holds, or why it holds none.
pub open spec fn stored_tree(sectors: Seq<Seq<u8>>, superblock: Superblock) -> Result<
    Seq<Entry>,
    FsError,
> {
    let record = record_image(
        sectors,
        superblock.record_start as int,
        superblock.record_sectors as int,
    );
    if crc32_of(record) != superblock.record_crc {
        Err(FsError::CorruptRecord)
    } else {
        decoded(record, superblock.generation)
    }
}

/// One state of the tree, and the superblock that leads to it.
#[verifier::ext_equal]
pub ghost struct Snapshot {
    pub superblock: Superblock,
    pub entries: Seq<Entry>,
}

/// The snapshot that the superblock in sector `which` leads to.
pub open spec fn snapshot_at(sectors: Seq<Seq<u8>>, which: int) -> Option<Snapshot> {
    match decoded_superblock(sectors[which], sectors.len() as int) {
        Err(_) => None,
        Ok(superblock) => match stored_tree(sectors, superblock) {
            Err(_) => None,
            Ok(entries) => Some(Snapshot { superblock, entries }),
        },
    }
}

/// The more recent of two snapshots; the first where neither is.
pub open spec fn latest(first: Option<Snapshot>, second: Option<Snapshot>) -> Option<Snapshot> {
    match (first, second) {
        (None, second) => second,
        (Some(first), None) => Some(first),
        (Some(first), Some(second)) => if second.superblock.generation
            > first.superblock.generation {
            Some(second)
        } else {
            Some(first)
        },
    }
}

/// The most recent sound snapshot of a disk.
pub open spec fn newest(sectors: Seq<Seq<u8>>) -> Option<Snapshot> {
    latest(snapshot_at(sectors, 0), snapshot_at(sectors, 1))
}

/// A sector that was never written.
pub open spec fn blank_sector(sector: Seq<u8>) -> bool {
    sector.len() == SECTOR_SIZE && zero_between(sector, 0, SECTOR_SIZE as int)
}

/// Neither superblock was ever written.
pub open spec fn blank(sectors: Seq<Seq<u8>>) -> bool {
    blank_sector(sectors[0]) && blank_sector(sectors[1])
}

/// What a search for the newest snapshot comes to.
pub open spec fn found(newest: Option<Snapshot>, blank: bool) -> Result<Option<Snapshot>, FsError> {
    if newest is None && !blank {
        Err(FsError::CorruptSuperblocks)
    } else {
        Ok(newest)
    }
}

/// A snapshot that was read.
pub struct LoadedSnapshot {
    pub superblock: Superblock,
    pub files: Vec<FileEntry>,
}

impl View for LoadedSnapshot {
    type V = Snapshot;

    open spec fn view(&self) -> Snapshot {
        Snapshot { superblock: self.superblock, entries: tree(self.files@) }
    }
}

/// What an optional snapshot that was read stands for.
pub open spec fn loaded(snapshot: Option<LoadedSnapshot>) -> Option<Snapshot> {
    match snapshot {
        Some(snapshot) => Some(snapshot@),
        None => None,
    }
}

/// Two disks that agree on a superblock and on its record hold the same snapshot there.
pub proof fn lemma_snapshot_frame(a: Seq<Seq<u8>>, b: Seq<Seq<u8>>, which: int)
    requires
        a.len() == b.len(),
        a[which] == b[which],
        match decoded_superblock(a[which], a.len() as int) {
            Ok(superblock) => forall|i: int|
                superblock.record_start <= i < superblock.record_start + superblock.record_sectors
                    ==> #[trigger] a[i] == b[i],
            Err(_) => true,
        },
    ensures
        snapshot_at(a, which) == snapshot_at(b, which),
{
    match decoded_superblock(a[which], a.len() as int) {
        Ok(superblock) => {
            let start = superblock.record_start as int;
            let count = superblock.record_sectors as int;
            let x = record_image(a, start, count);
            let y = record_image(b, start, count);
            assert(x =~= y) by {
                assert forall|i: int| 0 <= i < x.len() implies x[i] == y[i] by {
                    assert(start <= start + i / 512 < start + count);
                    assert(a[start + i / 512] == b[start + i / 512]);
                }
            }
        },
        Err(_) => {},
    }
}

/// Reads the record of a superblock, and the tree from it.
pub fn read_record<D: BlockDevice>(device: &mut D, superblock: Superblock) -> (result: Result<
    Vec<FileEntry>,
    FsError,
>)
    requires
        superblock.record_start + superblock.record_sectors <= old(device).sectors().len(),
        superblock.record_sectors <= 8192,
    ensures
        final(device).sectors() == old(device).sectors(),
        final(device).durable() == old(device).durable(),
        final(device).traffic() == old(device).traffic(),
        final(device).flushes() == old(device).flushes(),
        final(device).reliable() == old(device).reliable(),
        match result {
            Ok(files) => stored_tree(old(device).sectors(), superblock) == Ok::<Seq<Entry>, FsError>(
                tree(files@),
            ),
            Err(error) => stored_tree(old(device).sectors(), superblock) == Err::<
                Seq<Entry>,
                FsError,
            >(error) || (error is Block && !old(device).reliable()),
        },
{
    let count: u64 = device.sector_count();
    let ghost sectors = device.sectors();
    let ghost start = superblock.record_start as int;
    let mut record: Vec<u8> = Vec::new();
    let mut offset: u32 = 0;
    assert(record@ =~= record_image(sectors, start, 0));
    while offset < superblock.record_sectors
        invariant
            offset <= superblock.record_sectors,
            count == sectors.len(),
            start == superblock.record_start,
            start + superblock.record_sectors <= count,
            device.sectors() == sectors,
            sectors == old(device).sectors(),
            device.durable() == old(device).durable(),
            device.traffic() == old(device).traffic(),
            device.flushes() == old(device).flushes(),
            device.reliable() == old(device).reliable(),
            record@ == record_image(sectors, start, offset as int),
        decreases superblock.record_sectors - offset,
    {
        let mut sector: [u8; SECTOR_SIZE] = [0u8; SECTOR_SIZE];
        match device.read_sector(superblock.record_start + offset as u64, &mut sector) {
            Ok(_) => {},
            Err(error) => return Err(FsError::Block(error)),
        }
        append(&mut record, &sector);
        offset += 1;
        assert(record@ =~= record_image(sectors, start, offset as int));
    }
    if crc32(&record) != superblock.record_crc {
        return Err(FsError::CorruptRecord);
    }
    decode_record(&record, superblock.generation)
}

/// Chooses between what the two superblocks led to.
pub fn choose_snapshot(
    first: Option<LoadedSnapshot>,
    second: Option<LoadedSnapshot>,
    saw_nonzero: bool,
) -> (result: Result<Option<LoadedSnapshot>, FsError>)
    ensures
        match result {
            Ok(best) => found(latest(loaded(first), loaded(second)), !saw_nonzero) == Ok::<
                Option<Snapshot>,
                FsError,
            >(loaded(best)),
            Err(error) => found(latest(loaded(first), loaded(second)), !saw_nonzero) == Err::<
                Option<Snapshot>,
                FsError,
            >(error),
        },
{
    match first {
        None => match second {
            None => if saw_nonzero {
                Err(FsError::CorruptSuperblocks)
            } else {
                Ok(None)
            },
            Some(second) => Ok(Some(second)),
        },
        Some(first) => match second {
            None => Ok(Some(first)),
            Some(second) => if second.superblock.generation > first.superblock.generation {
                Ok(Some(second))
            } else {
                Ok(Some(first))
            },
        },
    }
}

/// Follows the superblock in sector `which`; also says whether that sector holds anything at all.
fn load_candidate<D: BlockDevice>(device: &mut D, which: u64) -> (result: Result<
    (Option<Superblock>, bool),
    BlockError,
>)
    requires
        which < old(device).sectors().len(),
    ensures
        final(device).sectors() == old(device).sectors(),
        final(device).durable() == old(device).durable(),
        final(device).traffic() == old(device).traffic(),
        final(device).flushes() == old(device).flushes(),
        final(device).reliable() == old(device).reliable(),
        match result {
            Ok((candidate, nonzero)) => {
                let sector = old(device).sectors()[which as int];
                &&& nonzero == !blank_sector(sector)
                &&& match candidate {
                    Some(superblock) => decoded_superblock(
                        sector,
                        old(device).sectors().len() as int,
                    ) == Ok::<Superblock, FsError>(superblock),
                    None => decoded_superblock(sector, old(device).sectors().len() as int) is Err,
                }
            },
            Err(_) => !old(device).reliable(),
        },
{
    let mut sector: [u8; SECTOR_SIZE] = [0u8; SECTOR_SIZE];
    match device.read_sector(which, &mut sector) {
        Ok(_) => {},
        Err(error) => return Err(error),
    }
    let nonzero = !all_zero(&sector);
    match decode_superblock(&sector, device.sector_count()) {
        Ok(superblock) => Ok((Some(superblock), nonzero)),
        Err(_) => Ok((None, nonzero)),
    }
}

/// Reads the record of a candidate; one that cannot be read counts for nothing.
fn load_files<D: BlockDevice>(device: &mut D, candidate: Option<Superblock>, Ghost(which): Ghost<int>) -> (snapshot:
    Option<LoadedSnapshot>)
    requires
        match candidate {
            Some(superblock) => decoded_superblock(
                old(device).sectors()[which],
                old(device).sectors().len() as int,
            ) == Ok::<Superblock, FsError>(superblock),
            None => decoded_superblock(
                old(device).sectors()[which],
                old(device).sectors().len() as int,
            ) is Err,
        },
    ensures
        final(device).sectors() == old(device).sectors(),
        final(device).durable() == old(device).durable(),
        final(device).traffic() == old(device).traffic(),
        final(device).flushes() == old(device).flushes(),
        final(device).reliable() == old(device).reliable(),
        snapshot is Some ==> loaded(snapshot) == snapshot_at(old(device).sectors(), which),
        old(device).reliable() ==> loaded(snapshot) == snapshot_at(old(device).sectors(), which),
{
    match candidate {
        None => None,
        Some(superblock) => {
            reveal(decoded_superblock);
            match read_record(device, superblock) {
                Ok(files) => Some(LoadedSnapshot { superblock, files }),
                Err(_) => None,
            }
        },
    }
}

/// Finds the newest snapshot of the device. A device that holds none is either blank, or damaged
/// and then refused.
pub fn load_latest_snapshot<D: BlockDevice>(device: &mut D) -> (result: Result<
    Option<LoadedSnapshot>,
    FsError,
>)
    requires
        old(device).sectors().len() >= 2,
    ensures
        final(device).sectors() == old(device).sectors(),
        final(device).durable() == old(device).durable(),
        final(device).traffic() == old(device).traffic(),
        final(device).flushes() == old(device).flushes(),
        final(device).reliable() == old(device).reliable(),
        match result {
            Ok(Some(snapshot)) => snapshot_at(old(device).sectors(), 0) == Some(snapshot@)
                || snapshot_at(old(device).sectors(), 1) == Some(snapshot@),
            Ok(None) => blank(old(device).sectors()),
            Err(error) => (error == FsError::CorruptSuperblocks && !blank(old(device).sectors()))
                || (error is Block && !old(device).reliable()),
        },
        old(device).reliable() ==> match result {
            Ok(best) => found(newest(old(device).sectors()), blank(old(device).sectors())) == Ok::<
                Option<Snapshot>,
                FsError,
            >(loaded(best)),
            Err(error) => found(newest(old(device).sectors()), blank(old(device).sectors()))
                == Err::<Option<Snapshot>, FsError>(error),
        },
{
    let (candidate_a, nonzero_a) = match load_candidate(device, SUPERBLOCK_A_SECTOR) {
        Ok(candidate) => candidate,
        Err(error) => return Err(FsError::Block(error)),
    };
    let (candidate_b, nonzero_b) = match load_candidate(device, SUPERBLOCK_B_SECTOR) {
        Ok(candidate) => candidate,
        Err(error) => return Err(FsError::Block(error)),
    };
    let first = load_files(device, candidate_a, Ghost(0));
    let second = load_files(device, candidate_b, Ghost(1));
    choose_snapshot(first, second, nonzero_a || nonzero_b)
}

} // verus!
