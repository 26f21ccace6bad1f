//! The mounted filesystem.

use vstd::prelude::*;
use vstd::utf8::{encode_utf8, encode_utf8_valid_utf8, valid_utf8};
use crate::block::{BlockDevice, Traffic, SECTOR_SIZE};
use crate::bytes::{array_at, bytes_equal, copy_range};
use crate::checksum::{crc32, crc32_of};
use crate::fs::entry::{
    distinct_names, duplicate_all, find, ordered, lemma_position, lemma_split_at_slash, position_of,
    same_tree, sort_entries, tree, Entry, EntryKind, FileEntry, FsError,
    DEFAULT_DIRECTORY_PERMISSIONS, DEFAULT_FILE_PERMISSIONS, MAX_FILES, OWNER_READ, OWNER_WRITE,
};
use crate::fs::path::{
    before, directly_below, find_last_slash, is_valid_path, leaf_of, lemma_last_slash, parent_is_a_path, parent_of,
    parent_slice, root, the_parent_is_the_directory_above, valid_path, SLASH,
};
use crate::fs::record::{
    encode_record, payload_length, record_fault, record_of, record_round_trip, record_size,
    MAX_RECORD_BYTES, RECORD_BYTES,
};
use crate::fs::snapshot::{blank, load_latest_snapshot, newest, record_image, snapshot_at, Snapshot};
use crate::fs::superblock::{
    decoded_superblock, encode_superblock, large_enough, ranges_overlap, record_slot_count,
    record_slot_span, slot_span, sound_superblock, superblock_of, superblock_round_trip, Superblock,
    RECORD_AREA_START, SUPERBLOCK_A_SECTOR, SUPERBLOCK_B_SECTOR,
};
use crate::fs::tree::{
    after_create_dir, after_create_dir_all, after_remove_dir, after_remove_file,
    after_set_permissions, after_write, ensure_parent_directory, insert_directory, lemma_push_keeps,
    lemma_remove_keeps, lemma_sorted_keeps, lemma_strict_is_stricter, lemma_update_keeps, lemma_with_directories_keeps,
    lemma_with_directory_keeps, materialize_missing_parent_directories, materialized,
    materializing_roots_the_tree, occupied, readable, request_fault, rooted, tree_fault, valid_names,
    valid_permissions, validate_path, validate_permissions, with_directories,
};

verus! {

/// How the filesystem came to be mounted.
#[derive(Debug, Clone, Copy, PartialEq, Eq, Structural)]
pub enum MountState {
    Formatted,
    Existing,
}

impl MountState {
    pub fn as_str(self) -> (name: &'static str)
        ensures
            self is Formatted ==> name@ == "formatted"@,
            self is Existing ==> name@ == "existing"@,
    {
        match self {
            Self::Formatted => "formatted",
            Self::Existing => "existing",
        }
    }
}

/// Where a record of `sectors` sectors goes: the first slot, from the one that the generation
/// points at on, that lies on the disk and spares the active record.
#[verifier::opaque]
pub open spec fn chosen_start(
    generation: int,
    sectors: int,
    capacity: int,
    span: int,
    slots: int,
    active_start: int,
    active_sectors: int,
    attempt: int,
) -> Result<int, FsError>
    decreases slots - attempt,
{
    let start = RECORD_AREA_START + (generation + attempt) % slots * span;
    if attempt < 0 || attempt >= slots {
        Err(FsError::SnapshotTooLarge)
    } else if generation + attempt > u64::MAX {
        Err(FsError::ArithmeticOverflow)
    } else if start + sectors > capacity || (active_sectors != 0 && start < active_start
        + active_sectors && active_start < start + sectors) {
        chosen_start(
            generation,
            sectors,
            capacity,
            span,
            slots,
            active_start,
            active_sectors,
            attempt + 1,
        )
    } else {
        Ok(start)
    }
}

/// The sector of the superblock of a generation.
pub open spec fn superblock_sector(generation: int) -> int {
    if generation % 2 == 0 {
        SUPERBLOCK_A_SECTOR as int
    } else {
        SUPERBLOCK_B_SECTOR as int
    }
}

/// A mounted filesystem: the tree in memory, and the device that its snapshots are kept on.
pub struct CodexFs<D: BlockDevice> {
    device: D,
    files: Vec<FileEntry>,
    generation: u64,
    record_slots: u64,
    record_slot_sectors: u32,
    active_record_start: u64,
    active_record_sectors: u32,
    mount_state: MountState,
}

impl<D: BlockDevice> CodexFs<D> {
    /// The tree.
    pub closed spec fn entries(&self) -> Seq<Entry> {
        tree(self.files@)
    }

    /// How many commits led to the tree.
    pub closed spec fn commits(&self) -> u64 {
        self.generation
    }

    /// What the disk holds.
    pub closed spec fn disk(&self) -> Seq<Seq<u8>> {
        self.device.sectors()
    }

    /// What the disk would hold after a loss of power.
    pub closed spec fn durable(&self) -> Seq<Seq<u8>> {
        self.device.durable()
    }

    /// The writes and flushes that were asked of the device so far.
    pub closed spec fn traffic(&self) -> Traffic {
        self.device.traffic()
    }

    /// Whether the device claims never to fail.
    pub closed spec fn reliable(&self) -> bool {
        self.device.reliable()
    }

    /// How the filesystem came to be mounted.
    pub closed spec fn mounted_as(&self) -> MountState {
        self.mount_state
    }

    /// The first sector of the active record.
    pub closed spec fn active_start(&self) -> u64 {
        self.active_record_start
    }

    /// The sectors of the active record.
    pub closed spec fn active_sectors(&self) -> u32 {
        self.active_record_sectors
    }

    /// How many record slots there are.
    pub closed spec fn slots(&self) -> u64 {
        self.record_slots
    }

    /// How many sectors a record slot takes.
    pub closed spec fn span(&self) -> u32 {
        self.record_slot_sectors
    }

    /// The device can be committed to.
    closed spec fn sound(&self) -> bool {
        let capacity = self.device.sectors().len();
        &&& self.device.flushes()
        &&& large_enough(capacity as int)
        &&& capacity <= u64::MAX
        &&& self.device.durable().len() == capacity
        &&& self.record_slot_sectors == slot_span(capacity as int)
        &&& self.record_slots == (capacity - RECORD_AREA_START) / (self.record_slot_sectors as int)
        &&& self.record_slots >= 2
        &&& self.active_record_start + self.active_record_sectors <= capacity
    }

    /// What holds of every mounted filesystem: names are valid and distinct, every entry has what its
    /// kind asks, there are not too many, the device can be committed to, and the active record lies
    /// behind the superblocks.
    pub closed spec fn well_formed(&self) -> bool {
        &&& self.sound()
        &&& self.generation != 0
        &&& self.active_record_start >= RECORD_AREA_START
        &&& self.active_record_sectors > 0
        &&& valid_names(self.entries())
        &&& distinct_names(self.entries())
        &&& tree_fault(self.entries(), false) is None
        &&& self.entries().len() <= MAX_FILES
    }

    /// A loss of power would not change the sector.
    pub open spec fn kept(&self, i: int) -> bool {
        self.durable()[i] == self.disk()[i]
    }

    /// Everything but the tree and the active record stays as it was.
    pub open spec fn same_volume(&self, before: &Self) -> bool {
        &&& self.disk().len() == before.disk().len()
        &&& self.durable().len() == before.durable().len()
        &&& self.reliable() == before.reliable()
        &&& self.mounted_as() == before.mounted_as()
        &&& self.slots() == before.slots()
        &&& self.span() == before.span()
    }

    /// Nothing changed.
    pub open spec fn unchanged(&self, before: &Self) -> bool {
        &&& self.same_volume(before)
        &&& self.entries() == before.entries()
        &&& self.commits() == before.commits()
        &&& self.disk() == before.disk()
        &&& self.durable() == before.durable()
        &&& self.traffic() == before.traffic()
        &&& self.active_start() == before.active_start()
        &&& self.active_sectors() == before.active_sectors()
    }

    /// The filesystem shows `snapshot`.
    pub open spec fn shows(&self, snapshot: Snapshot) -> bool {
        &&& self.entries() == snapshot.entries
        &&& self.commits() == snapshot.superblock.generation
        &&& self.active_start() == snapshot.superblock.record_start
        &&& self.active_sectors() == snapshot.superblock.record_sectors
    }

    /// The superblock that belongs to this generation leads to the tree.
    pub open spec fn anchored(&self) -> bool {
        match snapshot_at(self.disk(), superblock_sector(self.commits() as int)) {
            Some(snapshot) => self.shows(snapshot),
            None => false,
        }
    }

    /// The other superblock leads to an older snapshot or to none.
    pub open spec fn up_to_date(&self) -> bool {
        match snapshot_at(self.disk(), superblock_sector(self.commits() + 1)) {
            Some(snapshot) => snapshot.superblock.generation < self.commits(),
            None => true,
        }
    }

    /// Where the record of `t` goes, or why `t` cannot be committed.
    pub open spec fn plan(&self, t: Seq<Entry>) -> Result<int, FsError> {
        if self.commits() == u64::MAX {
            Err(FsError::ArithmeticOverflow)
        } else if record_fault(t) is Some {
            Err(record_fault(t).unwrap())
        } else if record_size(t) / 512 > self.span() {
            Err(FsError::SnapshotTooLarge)
        } else {
            chosen_start(
                self.commits() + 1,
                record_size(t) / 512,
                self.disk().len() as int,
                self.span() as int,
                self.slots() as int,
                self.active_start() as int,
                self.active_sectors() as int,
                0,
            )
        }
    }

    /// At most the record of `t` and the next generation's superblock were written.
    pub open spec fn touched_only(&self, before: &Self, t: Seq<Entry>) -> bool {
        forall|i: int|
            0 <= i < before.disk().len() && i != superblock_sector(before.commits() + 1) && !(
            before.plan(t).unwrap() <= i < before.plan(t).unwrap() + record_size(t) / 512)
                ==> #[trigger] self.disk()[i] == before.disk()[i]
    }

    /// What a loss of power spares while `t` is being committed: all that was durable and is not
    /// written, and of the next generation's superblock, what it was before, unless the whole record
    /// that it leads to is durable.
    pub open spec fn written_in_order(&self, before: &Self, t: Seq<Entry>) -> bool {
        let next = superblock_sector(before.commits() + 1);
        let start = before.plan(t).unwrap();
        let count = record_size(t) / 512;
        &&& forall|i: int|
            0 <= i < before.disk().len() && i != next && !(start <= i < start + count) && before.kept(
                i,
            ) ==> #[trigger] self.kept(i)
        &&& {
            ||| self.disk()[next] == before.disk()[next] && (before.kept(next) ==> self.kept(next))
            ||| {
                &&& record_of(
                    record_image(self.disk(), start, count),
                    (before.commits() + 1) as u64,
                    t,
                )
                &&& forall|i: int| start <= i < start + count ==> #[trigger] self.kept(i)
            }
        }
    }

    /// The tree `t` was committed, and is durable: its record and the superblock were written once, and
    /// the device was flushed before the superblock and after it.
    pub open spec fn committed(&self, before: &Self, t: Seq<Entry>) -> bool {
        &&& self.same_volume(before)
        &&& before.plan(t) is Ok
        &&& self.entries() == t
        &&& ordered(t)
        &&& rooted(t)
        &&& self.durable() == self.disk()
        &&& self.traffic() == before.traffic().and(record_size(t) / 512 + 1, 2)
        &&& self.commits() == before.commits() + 1
        &&& self.active_start() == before.plan(t).unwrap()
        &&& self.active_sectors() == record_size(t) / 512
        &&& self.anchored()
        &&& self.touched_only(before, t)
    }

    /// The outcome of replacing the tree by `next`: it is committed, or nothing but unused sectors
    /// changed.
    pub open spec fn replaced(
        &self,
        before: &Self,
        next: Result<Seq<Entry>, FsError>,
        result: Result<(), FsError>,
    ) -> bool {
        &&& self.well_formed()
        &&& match (next, result) {
            (Ok(t), Ok(_)) => self.committed(before, t),
            (Ok(t), Err(error)) => {
                if before.plan(t) is Err {
                    before.plan(t) == Err::<int, FsError>(error) && self.unchanged(before)
                } else {
                    &&& error is Block
                    &&& !before.reliable()
                    &&& self.same_volume(before)
                    &&& self.entries() == before.entries()
                    &&& self.commits() == before.commits()
                    &&& self.active_start() == before.active_start()
                    &&& self.active_sectors() == before.active_sectors()
                    &&& self.touched_only(before, t)
                    &&& self.written_in_order(before, t)
                    &&& self.traffic().within(before.traffic(), record_size(t) / 512 + 1, 2)
                }
            },
            (Err(fault), Err(error)) => fault == error && self.unchanged(before),
            (Err(_), Ok(_)) => false,
        }
    }

    /// As `replaced`, but a tree that is already there is not committed again.
    pub open spec fn updated(
        &self,
        before: &Self,
        next: Result<Seq<Entry>, FsError>,
        result: Result<(), FsError>,
    ) -> bool {
        if next == Ok::<Seq<Entry>, FsError>(before.entries()) {
            self.well_formed() && result is Ok && self.unchanged(before)
        } else {
            self.replaced(before, next, result)
        }
    }

    fn select_record_start(&self, generation: u64, record_sectors: u32) -> (result: Result<
        u64,
        FsError,
    >)
        requires
            self.sound(),
        ensures
            match result {
                Ok(start) => chosen_start(
                    generation as int,
                    record_sectors as int,
                    self.disk().len() as int,
                    self.span() as int,
                    self.slots() as int,
                    self.active_start() as int,
                    self.active_sectors() as int,
                    0,
                ) == Ok::<int, FsError>(start as int) && RECORD_AREA_START <= start && start
                    + record_sectors <= self.disk().len() && (self.active_sectors() != 0 ==> start
                    + record_sectors <= self.active_start() || self.active_start()
                    + self.active_sectors() <= start),
                Err(error) => chosen_start(
                    generation as int,
                    record_sectors as int,
                    self.disk().len() as int,
                    self.span() as int,
                    self.slots() as int,
                    self.active_start() as int,
                    self.active_sectors() as int,
                    0,
                ) == Err::<int, FsError>(error),
            },
    {
        reveal(chosen_start);
        let span: u64 = self.record_slot_sectors as u64;
        let capacity: u64 = self.device.sector_count();
        let slots: u64 = self.record_slots;
        let mut attempt: u64 = 0;
        while attempt < slots
            invariant
                attempt <= slots,
                self.sound(),
                slots == self.record_slots,
                span == self.record_slot_sectors,
                capacity == self.device.sectors().len(),
                chosen_start(
                    generation as int,
                    record_sectors as int,
                    capacity as int,
                    span as int,
                    slots as int,
                    self.active_record_start as int,
                    self.active_record_sectors as int,
                    0,
                ) == chosen_start(
                    generation as int,
                    record_sectors as int,
                    capacity as int,
                    span as int,
                    slots as int,
                    self.active_record_start as int,
                    self.active_record_sectors as int,
                    attempt as int,
                ),
            decreases slots - attempt,
        {
            reveal(chosen_start);
            let turn: u64 = match generation.checked_add(attempt) {
                Some(turn) => turn,
                None => return Err(FsError::ArithmeticOverflow),
            };
            let slot: u64 = turn % slots;
            proof {
                lemma_slot_fits(slot as int, slots as int, span as int, capacity - RECORD_AREA_START);
            }
            let record_start: u64 = RECORD_AREA_START + slot * span;
            let fits = record_sectors as u64 <= capacity - record_start;
            if fits {
                let mut free = true;
                if self.active_record_sectors != 0 {
                    match ranges_overlap(
                        record_start,
                        record_sectors,
                        self.active_record_start,
                        self.active_record_sectors,
                    ) {
                        Ok(overlap) => {
                            free = !overlap;
                        },
                        Err(error) => return Err(error),
                    }
                }
                if free {
                    return Ok(record_start);
                }
            }
            attempt += 1;
        }
        Err(FsError::SnapshotTooLarge)
    }

    /// Writes the sectors of a record.
    fn write_record(&mut self, record: &Vec<u8>, record_start: u64, record_sectors: u32) -> (result:
        Result<(), FsError>)
        requires
            old(self).sound(),
            record@.len() == record_sectors * 512,
            record_start + record_sectors <= old(self).disk().len(),
        ensures
            final(self).files == old(self).files,
            final(self).generation == old(self).generation,
            final(self).record_slots == old(self).record_slots,
            final(self).record_slot_sectors == old(self).record_slot_sectors,
            final(self).active_record_start == old(self).active_record_start,
            final(self).active_record_sectors == old(self).active_record_sectors,
            final(self).mount_state == old(self).mount_state,
            final(self).device.flushes() == old(self).device.flushes(),
            final(self).device.reliable() == old(self).device.reliable(),
            final(self).disk().len() == old(self).disk().len(),
            forall|i: int|
                0 <= i < old(self).disk().len() && !(record_start <= i < record_start
                    + record_sectors) ==> #[trigger] final(self).disk()[i] == old(self).disk()[i],
            final(self).durable().len() == old(self).durable().len(),
            forall|i: int|
                0 <= i < old(self).durable().len() && !(record_start <= i < record_start
                    + record_sectors) ==> #[trigger] final(self).durable()[i] == old(
                    self,
                ).durable()[i],
            match result {
                Ok(_) => {
                    &&& record_image(
                        final(self).disk(),
                        record_start as int,
                        record_sectors as int,
                    ) == record@
                    &&& final(self).traffic() == old(self).traffic().and(record_sectors as int, 0)
                },
                Err(error) => {
                    &&& error is Block
                    &&& !old(self).reliable()
                    &&& final(self).traffic().within(
                        old(self).traffic(),
                        record_sectors as int,
                        0,
                    )
                },
            },
    {
        let capacity: u64 = self.device.sector_count();
        let ghost start = record_start as int;
        let ghost before = self.device.sectors();
        let mut offset: u32 = 0;
        assert(record_image(self.device.sectors(), start, 0) =~= record@.take(0));
        while offset < record_sectors
            invariant
                offset <= record_sectors,
                record.len() == record_sectors * 512,
                start == record_start,
                start + record_sectors <= capacity,
                capacity == before.len(),
                before == old(self).disk(),
                self.files == old(self).files,
                self.generation == old(self).generation,
                self.record_slots == old(self).record_slots,
                self.record_slot_sectors == old(self).record_slot_sectors,
                self.active_record_start == old(self).active_record_start,
                self.active_record_sectors == old(self).active_record_sectors,
                self.mount_state == old(self).mount_state,
                self.device.flushes() == old(self).device.flushes(),
                self.device.reliable() == old(self).device.reliable(),
                self.device.traffic() == old(self).traffic().and(offset as int, 0),
                self.device.sectors().len() == before.len(),
                forall|i: int|
                    0 <= i < before.len() && !(start <= i < start + record_sectors)
                        ==> #[trigger] self.device.sectors()[i] == before[i],
                self.device.durable().len() == old(self).durable().len(),
                forall|i: int|
                    0 <= i < old(self).durable().len() && !(start <= i < start + record_sectors)
                        ==> #[trigger] self.device.durable()[i] == old(self).durable()[i],
                record_image(self.device.sectors(), start, offset as int) == record@.take(
                    offset * 512,
                ),
            decreases record_sectors - offset,
        {
            let sector: [u8; SECTOR_SIZE] = array_at(record, offset as usize * SECTOR_SIZE);
            let ghost earlier = self.device.sectors();
            match self.device.write_sector(record_start + offset as u64, &sector) {
                Ok(_) => {},
                Err(error) => return Err(FsError::Block(error)),
            }
            proof {
                let image = record_image(self.device.sectors(), start, offset + 1);
                assert forall|i: int| 0 <= i < image.len() implies image[i] == #[trigger] record@[i] by {
                    if i < offset * 512 {
                        assert(record_image(earlier, start, offset as int)[i] == record@.take(
                            offset * 512,
                        )[i]);
                        assert(self.device.sectors()[start + i / 512] == earlier[start + i / 512]);
                    } else {
                        assert(i / 512 == offset && i % 512 == i - offset * 512);
                        assert(sector@[i - offset * 512] == record@[i]);
                    }
                }
                assert(image =~= record@.take((offset + 1) * 512));
            }
            offset += 1;
        }
        assert(record@.take(offset * 512) =~= record@);
        Ok(())
    }

    /// Commits `files` as the next generation. The tree in memory stays as it was.
    fn commit_files(&mut self, files: &[FileEntry]) -> (result: Result<(), FsError>)
        requires
            old(self).sound(),
            distinct_names(tree(files@)),
        ensures
            final(self).sound(),
            result is Ok ==> final(self).durable() == final(self).disk(),
            result is Ok ==> record_fault(tree(files@)) is None,
            result is Ok ==> final(self).active_start() >= RECORD_AREA_START,
            result is Ok ==> final(self).active_sectors() > 0,
            final(self).files == old(self).files,
            final(self).same_volume(old(self)),
            match result {
                Ok(_) => {
                    &&& old(self).plan(tree(files@)) is Ok
                    &&& final(self).commits() == old(self).commits() + 1
                    &&& final(self).active_start() == old(self).plan(tree(files@)).unwrap()
                    &&& final(self).active_sectors() == record_size(tree(files@)) / 512
                    &&& final(self).touched_only(old(self), tree(files@))
                    &&& final(self).traffic() == old(self).traffic().and(
                        record_size(tree(files@)) / 512 + 1,
                        2,
                    )
                    &&& match snapshot_at(
                        final(self).disk(),
                        superblock_sector(final(self).commits() as int),
                    ) {
                        Some(snapshot) => snapshot.entries == tree(files@)
                            && snapshot.superblock.generation == final(self).commits()
                            && snapshot.superblock.record_start == final(self).active_start()
                            && snapshot.superblock.record_sectors == final(self).active_sectors(),
                        None => false,
                    }
                },
                Err(error) => {
                    &&& final(self).commits() == old(self).commits()
                    &&& final(self).active_start() == old(self).active_start()
                    &&& final(self).active_sectors() == old(self).active_sectors()
                    &&& if old(self).plan(tree(files@)) is Err {
                        old(self).plan(tree(files@)) == Err::<int, FsError>(error) && final(
                            self).disk() == old(self).disk() && final(self).durable() == old(
                            self).durable() && final(self).traffic() == old(self).traffic()
                    } else {
                        &&& error is Block
                        &&& !old(self).reliable()
                        &&& final(self).touched_only(old(self), tree(files@))
                        &&& final(self).written_in_order(old(self), tree(files@))
                        &&& final(self).traffic().within(
                            old(self).traffic(),
                            record_size(tree(files@)) / 512 + 1,
                            2,
                        )
                    }
                },
            },
    {
        let ghost t = tree(files@);
        let (record, record_start) = match self.prepare_record(files) {
            Ok(prepared) => prepared,
            Err(error) => return Err(error),
        };
        let generation: u64 = self.generation + 1;
        let record_sectors: u32 = (record.len() / SECTOR_SIZE) as u32;
        match self.write_record(&record, record_start, record_sectors) {
            Ok(_) => {},
            Err(error) => return Err(error),
        }
        let superblock = Superblock {
            generation,
            record_start,
            record_sectors,
            record_bytes: record.len(),
            record_crc: crc32(&record),
            capacity_sectors: self.device.sector_count(),
        };
        let ghost written = self.device.sectors();
        let ghost between = *self;
        match self.write_superblock(superblock) {
            Ok(_) => {},
            Err(error) => {
                proof {
                    lemma_written_in_order(*old(self), between, *self, t, record@);
                }
                return Err(error);
            },
        }
        self.generation = generation;
        self.active_record_start = record_start;
        self.active_record_sectors = record_sectors;
        proof {
            let sectors = self.device.sectors();
            let start = record_start as int;
            let count = record_sectors as int;
            assert(record_image(sectors, start, count) =~= record_image(written, start, count)) by {
                assert forall|i: int| 0 <= i < count * 512 implies #[trigger] record_image(
                    sectors,
                    start,
                    count,
                )[i] == record_image(written, start, count)[i] by {
                    assert(sectors[start + i / 512] == written[start + i / 512]);
                }
            }
            lemma_stored_snapshot(
                sectors,
                superblock_sector(generation as int),
                superblock,
                record@,
                files@,
            );
        }
        Ok(())
    }

    /// The record of the next generation, and where it goes.
    fn prepare_record(&self, files: &[FileEntry]) -> (result: Result<(Vec<u8>, u64), FsError>)
        requires
            self.sound(),
        ensures
            match result {
                Ok((record, start)) => {
                    &&& self.plan(tree(files@)) == Ok::<int, FsError>(start as int)
                    &&& self.commits() < u64::MAX
                    &&& record_fault(tree(files@)) is None
                    &&& record_of(record@, (self.commits() + 1) as u64, tree(files@))
                    &&& RECORD_BYTES <= record@.len() <= MAX_RECORD_BYTES
                    &&& record@.len() % 512 == 0
                    &&& RECORD_AREA_START <= start
                    &&& start + record@.len() / 512 <= self.disk().len()
                },
                Err(error) => self.plan(tree(files@)) == Err::<int, FsError>(error),
            },
    {
        let generation: u64 = match self.generation.checked_add(1) {
            Some(generation) => generation,
            None => return Err(FsError::ArithmeticOverflow),
        };
        let record: Vec<u8> = match encode_record(generation, files) {
            Ok(record) => record,
            Err(error) => return Err(error),
        };
        let record_sectors: u32 = (record.len() / SECTOR_SIZE) as u32;
        if record_sectors > self.record_slot_sectors {
            return Err(FsError::SnapshotTooLarge);
        }
        match self.select_record_start(generation, record_sectors) {
            Ok(start) => Ok((record, start)),
            Err(error) => Err(error),
        }
    }

    /// Writes the superblock that leads to a record, between two flushes.
    fn write_superblock(&mut self, superblock: Superblock) -> (result: Result<(), FsError>)
        requires
            old(self).sound(),
        ensures
            final(self).files == old(self).files,
            final(self).generation == old(self).generation,
            final(self).record_slots == old(self).record_slots,
            final(self).record_slot_sectors == old(self).record_slot_sectors,
            final(self).active_record_start == old(self).active_record_start,
            final(self).active_record_sectors == old(self).active_record_sectors,
            final(self).mount_state == old(self).mount_state,
            final(self).device.flushes() == old(self).device.flushes(),
            final(self).device.reliable() == old(self).device.reliable(),
            final(self).disk().len() == old(self).disk().len(),
            forall|i: int|
                0 <= i < old(self).disk().len() && i != superblock_sector(
                    superblock.generation as int,
                ) ==> #[trigger] final(self).disk()[i] == old(self).disk()[i],
            final(self).durable().len() == old(self).durable().len(),
            forall|i: int|
                0 <= i < old(self).disk().len() && i != superblock_sector(
                    superblock.generation as int,
                ) && old(self).kept(i) ==> #[trigger] final(self).kept(i),
            ({
                let next = superblock_sector(superblock.generation as int);
                ||| final(self).disk()[next] == old(self).disk()[next] && (old(self).kept(next)
                    ==> final(self).kept(next))
                ||| forall|i: int|
                    0 <= i < old(self).disk().len() && i != next ==> #[trigger] final(self).kept(i)
            }),
            match result {
                Ok(_) => superblock_of(
                    final(self).disk()[superblock_sector(superblock.generation as int)],
                    superblock,
                ) && final(self).durable() == final(self).disk() && final(self).traffic() == old(
                    self).traffic().and(1, 2),
                Err(error) => error is Block && !old(self).reliable() && final(
                    self).traffic().within(old(self).traffic(), 1, 2),
            },
    {
        match self.device.flush() {
            Ok(_) => {},
            Err(error) => return Err(FsError::Block(error)),
        }
        let sector = encode_superblock(superblock);
        let super_sector: u64 = if superblock.generation % 2 == 0 {
            SUPERBLOCK_A_SECTOR
        } else {
            SUPERBLOCK_B_SECTOR
        };
        match self.device.write_sector(super_sector, &sector) {
            Ok(_) => {},
            Err(error) => return Err(FsError::Block(error)),
        }
        match self.device.flush() {
            Ok(_) => {},
            Err(error) => return Err(FsError::Block(error)),
        }
        Ok(())
    }
}

/// What the filesystem reports of itself.
#[derive(Debug, Clone, Copy)]
pub struct FilesystemInfo {
    pub generation: u64,
    pub file_count: usize,
    pub directory_count: usize,
    pub capacity_sectors: u64,
    pub record_slots: u64,
    pub record_slot_sectors: u32,
    pub active_record_start: u64,
    pub active_record_sectors: u32,
    pub max_record_bytes: usize,
    pub mount_state: MountState,
}

/// What is known of one entry.
#[derive(Debug, PartialEq, Eq)]
pub struct Metadata {
    pub path: String,
    pub kind: EntryKind,
    pub permissions: u16,
    pub length: usize,
}

/// One line of a directory listing.
#[derive(Debug, PartialEq, Eq)]
pub struct DirectoryEntry {
    pub path: String,
    pub name: String,
    pub kind: EntryKind,
    pub permissions: u16,
    pub length: usize,
}

impl DirectoryEntry {
    /// The line is about `e`.
    pub open spec fn describes(&self, e: Entry) -> bool {
        &&& encode_utf8(self.path@) == e.name
        &&& encode_utf8(self.name@) == leaf_of(e.name)
        &&& self.kind == e.kind
        &&& self.permissions == e.permissions
        &&& self.length == e.data.len()
    }
}

/// How many entries of this kind there are.
pub open spec fn count_of(t: Seq<Entry>, kind: EntryKind) -> nat
    decreases t.len(),
{
    if t.len() == 0 {
        0
    } else {
        count_of(t.drop_last(), kind) + if t.last().kind == kind {
            1nat
        } else {
            0nat
        }
    }
}

/// Every entry is of one kind.
proof fn lemma_counts(t: Seq<Entry>)
    ensures
        count_of(t, EntryKind::File) + count_of(t, EntryKind::Directory) == t.len(),
    decreases t.len(),
{
    if t.len() > 0 {
        lemma_counts(t.drop_last());
    }
}

/// The slots fit in the sectors that records may take.
proof fn lemma_area(slots: int, span: int, available: int)
    requires
        0 < span,
        0 <= available,
        slots == available / span,
    ensures
        slots * span <= available,
{
    vstd::arithmetic::div_mod::lemma_fundamental_div_mod(available, span);
    assert(span * slots == slots * span) by (nonlinear_arith);
}

/// The entries that stand in the directory at `path`, in the order of the tree.
pub open spec fn children(t: Seq<Entry>, path: Seq<u8>) -> Seq<Entry>
    decreases t.len(),
{
    if t.len() == 0 {
        Seq::empty()
    } else if parent_of(t.last().name) == path {
        children(t.drop_last(), path).push(t.last())
    } else {
        children(t.drop_last(), path)
    }
}

/// One of the lines is about `e`.
pub open spec fn has_line(lines: Seq<DirectoryEntry>, e: Entry) -> bool {
    exists|i: int| 0 <= i < lines.len() && (#[trigger] lines[i]).describes(e)
}

/// The line is about an entry of the tree that stands in the directory at `path`.
pub open spec fn line_of(t: Seq<Entry>, path: Seq<u8>, line: DirectoryEntry) -> bool {
    exists|e: Entry| #[trigger]
        t.contains(e) && directly_below(e.name, path) && line.describes(e)
}

/// `lines` are a listing of the directory at `path`: each entry that stands in it has one line, which
/// says what the entry is, and there is no other line.
pub open spec fn lists(t: Seq<Entry>, path: Seq<u8>, lines: Seq<DirectoryEntry>) -> bool {
    &&& forall|e: Entry| #[trigger]
        t.contains(e) && directly_below(e.name, path) ==> has_line(lines, e)
    &&& forall|i: int| 0 <= i < lines.len() ==> line_of(t, path, #[trigger] lines[i])
    &&& forall|i: int, j: int|
        0 <= i < j < lines.len() ==> encode_utf8((#[trigger] lines[i]).path@) != encode_utf8(
            (#[trigger] lines[j]).path@,
        )
}

/// The entries of a directory are those of the tree that stand in it, files and directories alike, each
/// of them once.
pub proof fn a_directory_holds_what_stands_in_it(t: Seq<Entry>, path: Seq<u8>)
    requires
        valid_names(t),
        distinct_names(t),
        path == seq![0x2fu8] || valid_path(path),
    ensures
        forall|e: Entry| #[trigger]
            children(t, path).contains(e) <==> t.contains(e) && directly_below(e.name, path),
        distinct_names(children(t, path)),
    decreases t.len(),
{
    let all = children(t, path);
    if t.len() > 0 {
        let front = t.drop_last();
        assert forall|i: int| 0 <= i < front.len() implies valid_path(#[trigger] front[i].name) by {
            assert(valid_path(t[i].name));
        }
        assert forall|i: int, j: int| 0 <= i < j < front.len() implies #[trigger] front[i].name
            != #[trigger] front[j].name by {
            assert(t[i].name != t[j].name);
        }
        a_directory_holds_what_stands_in_it(front, path);
        let below = children(front, path);
        let last = t[t.len() - 1];
        assert(valid_path(last.name));
        the_parent_is_the_directory_above(last.name, path);
        assert forall|e: Entry| #[trigger] all.contains(e) <==> t.contains(e) && directly_below(
            e.name,
            path,
        ) by {
            if all.contains(e) {
                let i = choose|i: int| 0 <= i < all.len() && all[i] == e;
                if i < below.len() {
                    assert(below[i] == e);
                    assert(below.contains(e));
                    assert(front.contains(e));
                    let k = choose|k: int| 0 <= k < front.len() && front[k] == e;
                    assert(t[k] == e);
                } else {
                    assert(t[t.len() - 1] == e);
                }
            }
            if t.contains(e) && directly_below(e.name, path) {
                let k = choose|k: int| 0 <= k < t.len() && t[k] == e;
                if k < t.len() - 1 {
                    assert(front[k] == e);
                    assert(below.contains(e));
                    let i = choose|i: int| 0 <= i < below.len() && below[i] == e;
                    assert(all[i] == e);
                } else {
                    assert(all[all.len() - 1] == e);
                }
            }
        }
        assert forall|i: int, j: int| 0 <= i < j < all.len() implies #[trigger] all[i].name
            != #[trigger] all[j].name by {
            assert(all[i] == below[i]);
            if j < below.len() {
                assert(all[j] == below[j]);
            } else {
                assert(below.contains(below[i]));
                let k = choose|k: int| 0 <= k < front.len() && front[k] == below[i];
                assert(t[k].name != t[t.len() - 1].name);
            }
        }
    }
}

/// The entries of a directory are entries of the tree, and in its order.
pub proof fn lemma_children_are_ordered(t: Seq<Entry>, path: Seq<u8>)
    requires
        ordered(t),
    ensures
        ordered(children(t, path)),
        forall|e: Entry| #[trigger] children(t, path).contains(e) ==> t.contains(e),
    decreases t.len(),
{
    if t.len() > 0 {
        let front = t.drop_last();
        assert(ordered(front)) by {
            assert forall|i: int, j: int| 0 <= i < j < front.len() implies before(
                #[trigger] front[i].name,
                #[trigger] front[j].name,
            ) by {
                assert(front[i] == t[i] && front[j] == t[j]);
                assert(before(t[i].name, t[j].name));
            }
        }
        lemma_children_are_ordered(front, path);
        let below = children(front, path);
        assert forall|e: Entry| #[trigger] below.contains(e) implies t.contains(e) && before(
            e.name,
            t.last().name,
        ) by {
            assert(front.contains(e));
            let i = choose|i: int| 0 <= i < front.len() && front[i] == e;
            assert(t[i] == e);
            assert(before(t[i].name, t[t.len() - 1].name));
        }
        let all = children(t, path);
        assert forall|i: int, j: int| 0 <= i < j < all.len() implies before(
            #[trigger] all[i].name,
            #[trigger] all[j].name,
        ) by {
            assert(all[i] == below[i]);
            assert(below.contains(below[i]));
            if j < below.len() {
                assert(all[j] == below[j]);
            }
        }
        assert forall|e: Entry| #[trigger] all.contains(e) implies t.contains(e) by {
            let i = choose|i: int| 0 <= i < all.len() && all[i] == e;
            if i < below.len() {
                assert(below[i] == e);
                assert(below.contains(e));
            } else {
                assert(t[t.len() - 1] == e);
            }
        }
    }
}

/// Lines about the entries of a directory are a listing of it.
proof fn lemma_lines_list(t: Seq<Entry>, path: Seq<u8>, lines: Seq<DirectoryEntry>)
    requires
        valid_names(t),
        distinct_names(t),
        path == root() || valid_path(path),
        lines.len() == children(t, path).len(),
        forall|i: int|
            0 <= i < lines.len() ==> (#[trigger] lines[i]).describes(children(t, path)[i]),
    ensures
        lists(t, path, lines),
{
    let all = children(t, path);
    assert(root() =~= seq![0x2fu8]);
    a_directory_holds_what_stands_in_it(t, path);
    assert forall|e: Entry| #[trigger]
        t.contains(e) && directly_below(e.name, path) implies has_line(lines, e) by {
        assert(all.contains(e));
        let i = choose|i: int| 0 <= i < all.len() && all[i] == e;
        assert(lines[i].describes(e));
    }
    assert forall|i: int| 0 <= i < lines.len() implies line_of(t, path, #[trigger] lines[i]) by {
        assert(all.contains(all[i]));
        assert(t.contains(all[i]));
    }
    assert forall|i: int, j: int| 0 <= i < j < lines.len() implies encode_utf8(
        (#[trigger] lines[i]).path@,
    ) != encode_utf8((#[trigger] lines[j]).path@) by {
        assert(lines[i].describes(all[i]) && lines[j].describes(all[j]));
        assert(all[i].name != all[j].name);
    }
}

/// A line says of its entry what it is called, where it stands, whether it is a file or a directory, what
/// may be done with it, and how long it is.
pub proof fn a_line_says_what_the_entry_is(line: DirectoryEntry, e: Entry, dir: Seq<u8>)
    requires
        line.describes(e),
        valid_path(e.name),
        dir == seq![0x2fu8] || valid_path(dir),
        directly_below(e.name, dir),
    ensures
        encode_utf8(line.path@) == e.name,
        e.name == dir + if dir.len() == 1 {
            encode_utf8(line.name@)
        } else {
            seq![0x2fu8] + encode_utf8(line.name@)
        },
        line.kind == e.kind,
        line.permissions == e.permissions,
        line.length == e.data.len(),
{
    the_parent_is_the_directory_above(e.name, dir);
}

/// Why the directory at `path` cannot be listed.
pub open spec fn listing_fault(t: Seq<Entry>, path: Seq<u8>) -> Option<FsError> {
    if path == root() {
        None
    } else if !valid_path(path) {
        Some(FsError::InvalidPath)
    } else {
        match position_of(t, path) {
            None => Some(FsError::NotFound),
            Some(k) => if t[k].kind != EntryKind::Directory {
                Some(FsError::NotDirectory)
            } else {
                None
            },
        }
    }
}

/// How many entries of this kind there are.
fn count_kind(files: &[FileEntry], kind: EntryKind) -> (count: usize)
    ensures
        count == count_of(tree(files@), kind),
{
    let ghost t = tree(files@);
    let mut count: usize = 0;
    let mut i: usize = 0;
    assert(t.take(0) =~= Seq::<Entry>::empty());
    while i < files.len()
        invariant
            count <= i <= files@.len(),
            t == tree(files@),
            count == count_of(t.take(i as int), kind),
        decreases files@.len() - i,
    {
        assert(t.take(i + 1).drop_last() =~= t.take(i as int));
        assert(t.take(i + 1).last() == files@[i as int]@);
        if files[i].kind == kind {
            count += 1;
        }
        i += 1;
    }
    assert(t.take(i as int) =~= t);
    count
}

/// The last component of a path.
pub fn leaf_name(path: &str) -> (leaf: String)
    requires
        valid_path(encode_utf8(path@)),
    ensures
        encode_utf8(leaf@) == leaf_of(encode_utf8(path@)),
{
    let k: usize = find_last_slash(path.as_bytes());
    proof {
        parent_is_a_path(encode_utf8(path@));
        lemma_last_slash(encode_utf8(path@));
        lemma_split_at_slash(path@, k as int);
    }
    let parts = path.split_at(k + 1);
    assert(encode_utf8(parts.1@) =~= leaf_of(encode_utf8(path@)));
    parts.1.to_owned()
}

/// Whether some entry stands in the directory at `path`.
fn is_occupied(files: &[FileEntry], path: &[u8]) -> (result: bool)
    requires
        valid_names(tree(files@)),
    ensures
        result == occupied(tree(files@), path@),
{
    let mut i: usize = 0;
    while i < files.len()
        invariant
            i <= files@.len(),
            valid_names(tree(files@)),
            forall|j: int| 0 <= j < i ==> parent_of(#[trigger] tree(files@)[j].name) != path@,
        decreases files@.len() - i,
    {
        assert(tree(files@)[i as int] == files@[i as int]@);
        if bytes_equal(parent_slice(files[i].path_bytes()), path) {
            assert(parent_of(tree(files@)[i as int].name) == path@);
            return true;
        }
        i += 1;
    }
    false
}

/// Why a device was not mounted, and the device.
#[derive(Debug)]
pub struct MountError<D> {
    pub error: FsError,
    pub device: D,
}

/// What comes of mounting a device: its newest snapshot is shown, or it is formatted if it was never
/// written, or it is refused. Nothing is written or flushed but to format it.
pub open spec fn mounted<D: BlockDevice>(
    device: D,
    result: Result<CodexFs<D>, MountError<D>>,
) -> bool {
    let capacity = device.sectors().len() as int;
    &&& !device.flushes() <==> (result matches Err(refused) && refused.error
        == FsError::FlushUnsupported)
    &&& device.flushes() && !large_enough(capacity) ==> (result matches Err(refused)
        && refused.error == FsError::DeviceTooSmall)
    &&& match result {
        Ok(fs) => {
            &&& fs.well_formed()
            &&& fs.reliable() == device.reliable()
            &&& fs.disk().len() == capacity
            &&& fs.span() == slot_span(capacity)
            &&& fs.slots() == (capacity - RECORD_AREA_START) / slot_span(capacity)
            &&& match fs.mounted_as() {
                MountState::Existing => {
                    &&& fs.disk() == device.sectors()
                    &&& fs.durable() == device.durable()
                    &&& fs.traffic() == device.traffic()
                    &&& {
                        ||| (snapshot_at(device.sectors(), 0) matches Some(snapshot) && fs.shows(
                            snapshot,
                        ))
                        ||| (snapshot_at(device.sectors(), 1) matches Some(snapshot) && fs.shows(
                            snapshot,
                        ))
                    }
                },
                MountState::Formatted => {
                    &&& blank(device.sectors())
                    &&& fs.entries() == Seq::<Entry>::empty()
                    &&& fs.commits() == 1
                    &&& fs.anchored()
                    &&& fs.up_to_date()
                    &&& fs.durable() == fs.disk()
                    &&& fs.traffic() == device.traffic().and(65, 2)
                },
            }
        },
        Err(refused) => {
            &&& {
                ||| refused.error == FsError::FlushUnsupported
                ||| refused.error == FsError::DeviceTooSmall
                ||| refused.error == FsError::CorruptSuperblocks && !blank(device.sectors())
                ||| refused.error is Block && !device.reliable()
            }
            &&& {
                ||| refused.error is Block && blank(device.sectors())
                    && refused.device.traffic().within(device.traffic(), 65, 2)
                ||| {
                    &&& refused.device.sectors() == device.sectors()
                    &&& refused.device.durable() == device.durable()
                    &&& refused.device.traffic() == device.traffic()
                }
            }
            &&& refused.device.flushes() == device.flushes()
            &&& refused.device.reliable() == device.reliable()
            &&& refused.device.sectors().len() == capacity
        },
    }
    &&& device.reliable() && device.flushes() && large_enough(capacity) ==> match newest(
        device.sectors(),
    ) {
        Some(snapshot) => result matches Ok(fs) && fs.mounted_as() is Existing && fs.shows(
            snapshot,
        ),
        None => if blank(device.sectors()) {
            result matches Ok(fs) && fs.mounted_as() is Formatted
        } else {
            result matches Err(refused) && refused.error == FsError::CorruptSuperblocks
        },
    }
}

/// What comes of unmounting: the device is flushed once and not written, and is handed back.
pub open spec fn unmounted<D: BlockDevice>(fs: CodexFs<D>, result: Result<D, FsError>) -> bool {
    match result {
        Ok(device) => {
            &&& device.sectors() == fs.disk()
            &&& device.durable() == device.sectors()
            &&& device.traffic() == fs.traffic().and(0, 1)
            &&& device.flushes()
            &&& device.reliable() == fs.reliable()
        },
        Err(error) => error is Block && !fs.reliable(),
    }
}

impl<D: BlockDevice> CodexFs<D> {
    /// Mounts the newest snapshot of the device, or formats a device that was never written. A
    /// device whose superblocks are both damaged is refused, never formatted. A device that is refused
    /// is handed back; nothing was written to it unless it could not be formatted.
    pub fn mount_or_format(device: D) -> (result: Result<Self, MountError<D>>)
        ensures
            mounted(device, result),
    {
        let ghost sectors = device.sectors();
        let mut device = device;
        if !device.supports_flush() {
            return Err(MountError { error: FsError::FlushUnsupported, device });
        }
        let record_slot_sectors: u32 = match record_slot_span(device.sector_count()) {
            Ok(span) => span,
            Err(error) => return Err(MountError { error, device }),
        };
        let record_slots: u64 = match record_slot_count(device.sector_count(), record_slot_sectors) {
            Ok(slots) => slots,
            Err(error) => {
                proof {
                    lemma_two_slots(device.sectors().len() as int);
                }
                return Err(MountError { error, device });
            },
        };
        match load_latest_snapshot(&mut device) {
            Err(error) => Err(MountError { error, device }),
            Ok(Some(snapshot)) => {
                proof {
                    if snapshot_at(device.sectors(), 0) == Some(snapshot@) {
                        lemma_snapshot_is_sound(device.sectors(), 0);
                    } else {
                        lemma_snapshot_is_sound(device.sectors(), 1);
                    }
                }
                Ok(
                    Self {
                        device,
                        files: snapshot.files,
                        generation: snapshot.superblock.generation,
                        record_slots,
                        record_slot_sectors,
                        active_record_start: snapshot.superblock.record_start,
                        active_record_sectors: snapshot.superblock.record_sectors,
                        mount_state: MountState::Existing,
                    },
                )
            },
            Ok(None) => {
                let mut filesystem = Self {
                    device,
                    files: Vec::new(),
                    generation: 0,
                    record_slots,
                    record_slot_sectors,
                    active_record_start: 0,
                    active_record_sectors: 0,
                    mount_state: MountState::Formatted,
                };
                let empty: Vec<FileEntry> = Vec::new();
                assert(tree(empty@) =~= Seq::<Entry>::empty());
                assert(tree(filesystem.files@) =~= Seq::<Entry>::empty());
                proof {
                    lemma_empty_tree_fits(
                        record_slot_sectors as int,
                        record_slots as int,
                        sectors.len() as int,
                    );
                }
                match filesystem.commit_files(&empty) {
                    Ok(_) => {
                        reveal(decoded_superblock);
                        assert(filesystem.disk()[0] == sectors[0]);
                        assert(filesystem.disk()[0].subrange(0, 8)[0] == 0u8);
                        Ok(filesystem)
                    },
                    Err(error) => Err(MountError { error, device: filesystem.device }),
                }
            },
        }
    }

    /// What the filesystem reports of itself.
    pub fn info(&self) -> (info: FilesystemInfo)
        requires
            self.well_formed(),
        ensures
            info.generation == self.commits(),
            info.file_count == count_of(self.entries(), EntryKind::File),
            info.directory_count == count_of(self.entries(), EntryKind::Directory),
            info.capacity_sectors == self.disk().len(),
            info.record_slots == self.slots(),
            info.record_slot_sectors == self.span(),
            info.active_record_start == self.active_start(),
            info.active_record_sectors == self.active_sectors(),
            info.max_record_bytes == self.span() * 512,
            info.mount_state == self.mounted_as(),
            info.generation >= 1,
            64 <= info.record_slot_sectors <= 8192,
            info.record_slots >= 2,
            RECORD_AREA_START + info.record_slots * info.record_slot_sectors
                <= info.capacity_sectors,
            info.active_record_start >= RECORD_AREA_START,
            info.active_record_start + info.active_record_sectors <= info.capacity_sectors,
            info.file_count + info.directory_count <= MAX_FILES,
    {
        proof {
            lemma_counts(self.entries());
            lemma_area(
                self.record_slots as int,
                self.record_slot_sectors as int,
                self.device.sectors().len() - RECORD_AREA_START,
            );
        }
        FilesystemInfo {
            generation: self.generation,
            file_count: count_kind(&self.files, EntryKind::File),
            directory_count: count_kind(&self.files, EntryKind::Directory),
            capacity_sectors: self.device.sector_count(),
            record_slots: self.record_slots,
            record_slot_sectors: self.record_slot_sectors,
            active_record_start: self.active_record_start,
            active_record_sectors: self.active_record_sectors,
            max_record_bytes: self.record_slot_sectors as usize * SECTOR_SIZE,
            mount_state: self.mount_state,
        }
    }

    /// The contents of the file at `path`, if there is one that its owner may read.
    pub fn read_file(&self, path: &str) -> (contents: Option<&[u8]>)
        requires
            self.well_formed(),
        ensures
            match position_of(self.entries(), encode_utf8(path@)) {
                Some(k) => if self.entries()[k].kind == EntryKind::File && readable(
                    self.entries()[k],
                ) {
                    contents matches Some(bytes) && bytes@ == self.entries()[k].data
                } else {
                    contents is None
                },
                None => contents is None,
            },
    {
        match find(&self.files, path.as_bytes()) {
            Some(k) => {
                assert(self.entries()[k as int] == self.files@[k as int]@);
                if self.files[k].kind == EntryKind::File && self.files[k].permissions & OWNER_READ
                    != 0 {
                    Some(self.files[k].data.as_slice())
                } else {
                    None
                }
            },
            None => None,
        }
    }

    /// Replaces the contents of the file at `path`, which is created where there is none.
    pub fn write_file(&mut self, path: &str, data: &[u8]) -> (result: Result<(), FsError>)
        requires
            old(self).well_formed(),
        ensures
            final(self).replaced(
                old(self),
                after_write(old(self).entries(), encode_utf8(path@), data@, None),
                result,
            ),
    {
        self.write_file_inner(path, data, None)
    }

    /// As `write_file`, and sets the permissions of the file.
    pub fn write_file_with_permissions(&mut self, path: &str, data: &[u8], permissions: u16) -> (result:
        Result<(), FsError>)
        requires
            old(self).well_formed(),
        ensures
            final(self).replaced(
                old(self),
                if valid_permissions(permissions) {
                    after_write(old(self).entries(), encode_utf8(path@), data@, Some(permissions))
                } else {
                    Err(FsError::InvalidPermissions)
                },
                result,
            ),
    {
        match validate_permissions(permissions) {
            Ok(_) => {},
            Err(error) => return Err(error),
        }
        self.write_file_inner(path, data, Some(permissions))
    }

    fn write_file_inner(&mut self, path: &str, data: &[u8], permissions: Option<u16>) -> (result:
        Result<(), FsError>)
        requires
            old(self).well_formed(),
        ensures
            final(self).replaced(
                old(self),
                after_write(old(self).entries(), encode_utf8(path@), data@, permissions),
                result,
            ),
    {
        let ghost t = self.entries();
        let ghost name = encode_utf8(path@);
        match ensure_parent_directory(&self.files, path.as_bytes()) {
            Ok(_) => {},
            Err(error) => return Err(error),
        }
        let mut next: Vec<FileEntry> = duplicate_all(&self.files);
        proof {
            lemma_position(t, name, 0);
        }
        match find(&next, path.as_bytes()) {
            Some(k) => {
                assert(t[k as int] == next@[k as int]@);
                if next[k].kind != EntryKind::File {
                    return Err(FsError::IsDirectory);
                }
                if next[k].permissions & OWNER_WRITE == 0 {
                    return Err(FsError::PermissionDenied);
                }
                let mode: u16 = match permissions {
                    Some(permissions) => permissions,
                    None => next[k].permissions,
                };
                let ghost e = Entry { data: data@, permissions: mode, ..t[k as int] };
                next[k].data = copy_range(data, 0, data.len());
                next[k].permissions = mode;
                proof {
                    assert(data@.subrange(0, data@.len() as int) =~= data@);
                    assert(next@[k as int]@ =~= e);
                    assert(tree(next@) =~= t.update(k as int, e));
                    lemma_update_keeps(t, k as int, e);
                }
            },
            None => {
                if next.len() >= MAX_FILES {
                    return Err(FsError::TooManyFiles);
                }
                let mode: u16 = match permissions {
                    Some(permissions) => permissions,
                    None => DEFAULT_FILE_PERMISSIONS,
                };
                let entry = FileEntry {
                    name: path.to_owned(),
                    data: copy_range(data, 0, data.len()),
                    kind: EntryKind::File,
                    permissions: mode,
                };
                let ghost e = Entry {
                    name,
                    data: data@,
                    kind: EntryKind::File,
                    permissions: mode,
                };
                proof {
                    assert(data@.subrange(0, data@.len() as int) =~= data@);
                    assert(entry@ =~= e);
                    assert(tree(next@.push(entry)) =~= t.push(e));
                    lemma_push_keeps(t, e);
                    lemma_sorted_keeps(t.push(e));
                }
                next.push(entry);
                sort_entries(&mut next);
            },
        }
        self.materialize_and_replace(next)
    }

    /// Materialises a tree and replaces the present one by it.
    fn materialize_and_replace(&mut self, next: Vec<FileEntry>) -> (result: Result<(), FsError>)
        requires
            old(self).well_formed(),
            distinct_names(tree(next@)),
        ensures
            final(self).replaced(old(self), materialized(tree(next@)), result),
    {
        let mut next = next;
        let ghost t = tree(next@);
        match materialize_missing_parent_directories(&mut next) {
            Ok(_) => {},
            Err(error) => return Err(error),
        }
        proof {
            materializing_roots_the_tree(t);
        }
        self.replace(next)
    }

    /// As `materialize_and_replace`, but a tree that is already there is not committed again.
    fn materialize_and_update(&mut self, next: Vec<FileEntry>) -> (result: Result<(), FsError>)
        requires
            old(self).well_formed(),
            distinct_names(tree(next@)),
        ensures
            final(self).updated(old(self), materialized(tree(next@)), result),
    {
        let mut next = next;
        let ghost t = tree(next@);
        match materialize_missing_parent_directories(&mut next) {
            Ok(_) => {},
            Err(error) => return Err(error),
        }
        proof {
            materializing_roots_the_tree(t);
        }
        if same_tree(&next, &self.files) {
            return Ok(());
        }
        self.replace(next)
    }

    /// Commits a tree and shows it.
    fn replace(&mut self, next: Vec<FileEntry>) -> (result: Result<(), FsError>)
        requires
            old(self).well_formed(),
            distinct_names(tree(next@)),
            valid_names(tree(next@)),
            ordered(tree(next@)),
            rooted(tree(next@)),
        ensures
            final(self).replaced(old(self), Ok(tree(next@)), result),
    {
        match self.commit_files(&next) {
            Ok(_) => {},
            Err(error) => return Err(error),
        }
        proof {
            lemma_strict_is_stricter(tree(next@), 0);
        }
        self.files = next;
        Ok(())
    }

    /// Creates the directory at `path`, or gives the one that is there these permissions.
    pub fn create_dir(&mut self, path: &str, permissions: u16) -> (result: Result<(), FsError>)
        requires
            old(self).well_formed(),
        ensures
            final(self).updated(
                old(self),
                after_create_dir(old(self).entries(), encode_utf8(path@), permissions),
                result,
            ),
    {
        match validate_path(path) {
            Ok(_) => {},
            Err(error) => return Err(error),
        }
        match validate_permissions(permissions) {
            Ok(_) => {},
            Err(error) => return Err(error),
        }
        let mut next: Vec<FileEntry> = duplicate_all(&self.files);
        match insert_directory(&mut next, path, permissions) {
            Ok(_) => {},
            Err(error) => return Err(error),
        }
        proof {
            lemma_with_directory_keeps(self.entries(), encode_utf8(path@), permissions);
        }
        self.materialize_and_update(next)
    }

    /// Creates the directory at `path` and every ancestor that is missing.
    pub fn create_dir_all(&mut self, path: &str, permissions: u16) -> (result: Result<(), FsError>)
        requires
            old(self).well_formed(),
        ensures
            final(self).updated(
                old(self),
                after_create_dir_all(old(self).entries(), encode_utf8(path@), permissions),
                result,
            ),
    {
        let ghost t = self.entries();
        let ghost name = encode_utf8(path@);
        match validate_path(path) {
            Ok(_) => {},
            Err(error) => return Err(error),
        }
        match validate_permissions(permissions) {
            Ok(_) => {},
            Err(error) => return Err(error),
        }
        let mut next: Vec<FileEntry> = duplicate_all(&self.files);
        let bytes = path.as_bytes();
        let n: usize = bytes.len();
        let mut k: usize = 1;
        while k <= n
            invariant
                1 <= k <= n + 1,
                n == bytes.len(),
                n <= 128,
                name == encode_utf8(path@),
                bytes@ == name,
                t == self.entries(),
                t == old(self).entries(),
                *self == *old(self),
                old(self).well_formed(),
                request_fault(name, permissions) is None,
                with_directories(t, name, permissions, 1) == with_directories(
                    tree(next@),
                    name,
                    permissions,
                    k as int,
                ),
            decreases n + 1 - k,
        {
            if k == n || bytes[k] == SLASH {
                proof {
                    if k < n {
                        lemma_split_at_slash(path@, k as int);
                    } else {
                        encode_utf8_valid_utf8(path@);
                        vstd::utf8::is_char_boundary_start_end_of_seq(name);
                    }
                }
                let parts = path.split_at(k);
                let current: &str = parts.0;
                assert(encode_utf8(current@) =~= name.take(k as int));
                let mode: u16 = if k == n {
                    permissions
                } else {
                    DEFAULT_DIRECTORY_PERMISSIONS
                };
                match find(&next, current.as_bytes()) {
                    Some(at) => {
                        assert(tree(next@)[at as int] == next@[at as int]@);
                        if next[at].kind != EntryKind::Directory {
                            return Err(FsError::NotDirectory);
                        }
                    },
                    None => match insert_directory(&mut next, current, mode) {
                        Ok(_) => {},
                        Err(error) => return Err(error),
                    },
                }
            }
            k += 1;
        }
        proof {
            lemma_with_directories_keeps(t, name, permissions, 1);
        }
        self.materialize_and_update(next)
    }

    /// What is known of the entry at `path`.
    pub fn metadata(&self, path: &str) -> (result: Result<Metadata, FsError>)
        requires
            self.well_formed(),
        ensures
            ({
                let name = encode_utf8(path@);
                if name == root() {
                    result matches Ok(metadata) && encode_utf8(metadata.path@) == root()
                        && metadata.kind == EntryKind::Directory && metadata.permissions
                        == DEFAULT_DIRECTORY_PERMISSIONS && metadata.length == 0
                } else if !valid_path(name) {
                    result matches Err(error) && error == FsError::InvalidPath
                } else {
                    match position_of(self.entries(), name) {
                        None => result matches Err(error) && error == FsError::NotFound,
                        Some(k) => result matches Ok(metadata) && encode_utf8(metadata.path@) == name
                            && metadata.kind == self.entries()[k].kind && metadata.permissions
                            == self.entries()[k].permissions && metadata.length
                            == self.entries()[k].data.len(),
                    }
                }
            }),
    {
        let bytes = path.as_bytes();
        if bytes.len() == 1 && bytes[0] == SLASH {
            assert(bytes@ =~= root());
            return Ok(
                Metadata {
                    path: path.to_owned(),
                    kind: EntryKind::Directory,
                    permissions: DEFAULT_DIRECTORY_PERMISSIONS,
                    length: 0,
                },
            );
        }
        if !is_valid_path(bytes) {
            return Err(FsError::InvalidPath);
        }
        match find(&self.files, bytes) {
            None => Err(FsError::NotFound),
            Some(k) => {
                proof {
                    lemma_position(self.entries(), bytes@, 0);
                    assert(self.entries()[k as int] == self.files@[k as int]@);
                }
                Ok(
                    Metadata {
                        path: self.files[k].name.clone(),
                        kind: self.files[k].kind,
                        permissions: self.files[k].permissions,
                        length: self.files[k].data.len(),
                    },
                )
            },
        }
    }

    /// The entries that stand in the directory at `path`.
    pub fn list_dir(&self, path: &str) -> (result: Result<Vec<DirectoryEntry>, FsError>)
        requires
            self.well_formed(),
        ensures
            match result {
                Ok(lines) => {
                    let expected = children(self.entries(), encode_utf8(path@));
                    &&& listing_fault(self.entries(), encode_utf8(path@)) is None
                    &&& lines@.len() == expected.len()
                    &&& forall|i: int|
                        0 <= i < lines@.len() ==> (#[trigger] lines@[i]).describes(expected[i])
                    &&& lists(self.entries(), encode_utf8(path@), lines@)
                    &&& ordered(self.entries()) ==> forall|i: int, j: int|
                        0 <= i < j < lines@.len() ==> before(
                            encode_utf8((#[trigger] lines@[i]).path@),
                            encode_utf8((#[trigger] lines@[j]).path@),
                        )
                },
                Err(error) => listing_fault(self.entries(), encode_utf8(path@)) == Some(error),
            },
    {
        let bytes = path.as_bytes();
        let ghost name = encode_utf8(path@);
        let ghost t = self.entries();
        if bytes.len() == 1 && bytes[0] == SLASH {
            assert(bytes@ =~= root());
        } else {
            if !is_valid_path(bytes) {
                return Err(FsError::InvalidPath);
            }
            match find(&self.files, bytes) {
                None => return Err(FsError::NotFound),
                Some(k) => {
                    assert(t[k as int] == self.files@[k as int]@);
                    if self.files[k].kind != EntryKind::Directory {
                        return Err(FsError::NotDirectory);
                    }
                },
            }
        }
        let mut lines: Vec<DirectoryEntry> = Vec::new();
        let mut i: usize = 0;
        assert(t.take(0) =~= Seq::<Entry>::empty());
        while i < self.files.len()
            invariant
                i <= self.files@.len(),
                t == tree(self.files@),
                valid_names(t),
                bytes@ == name,
                lines@.len() == children(t.take(i as int), name).len(),
                forall|j: int|
                    0 <= j < lines@.len() ==> (#[trigger] lines@[j]).describes(
                        children(t.take(i as int), name)[j],
                    ),
            decreases self.files@.len() - i,
        {
            let entry = &self.files[i];
            proof {
                assert(t[i as int] == entry@);
                assert(t.take(i + 1).drop_last() =~= t.take(i as int));
                assert(t.take(i + 1).last() == entry@);
                assert(valid_path(t[i as int].name));
            }
            if bytes_equal(parent_slice(entry.path_bytes()), bytes) {
                lines.push(
                    DirectoryEntry {
                        path: entry.name.clone(),
                        name: leaf_name(entry.name.as_str()),
                        kind: entry.kind,
                        permissions: entry.permissions,
                        length: entry.data.len(),
                    },
                );
            }
            i += 1;
        }
        assert(t.take(i as int) =~= t);
        proof {
            lemma_lines_list(t, name, lines@);
            if ordered(t) {
                lemma_children_are_ordered(t, name);
                assert forall|i: int, j: int| 0 <= i < j < lines@.len() implies before(
                    encode_utf8((#[trigger] lines@[i]).path@),
                    encode_utf8((#[trigger] lines@[j]).path@),
                ) by {
                    assert(lines@[i].describes(children(t, name)[i]));
                    assert(lines@[j].describes(children(t, name)[j]));
                    assert(before(children(t, name)[i].name, children(t, name)[j].name));
                }
            }
        }
        Ok(lines)
    }

    /// Changes the permissions of the entry at `path`.
    pub fn set_permissions(&mut self, path: &str, permissions: u16) -> (result: Result<(), FsError>)
        requires
            old(self).well_formed(),
        ensures
            final(self).updated(
                old(self),
                after_set_permissions(old(self).entries(), encode_utf8(path@), permissions),
                result,
            ),
    {
        let ghost t = self.entries();
        match validate_path(path) {
            Ok(_) => {},
            Err(error) => return Err(error),
        }
        match validate_permissions(permissions) {
            Ok(_) => {},
            Err(error) => return Err(error),
        }
        let mut next: Vec<FileEntry> = duplicate_all(&self.files);
        match find(&next, path.as_bytes()) {
            None => return Err(FsError::NotFound),
            Some(k) => {
                let ghost e = Entry { permissions, ..t[k as int] };
                assert(t[k as int] == next@[k as int]@);
                next[k].permissions = permissions;
                proof {
                    assert(next@[k as int]@ =~= e);
                    assert(tree(next@) =~= t.update(k as int, e));
                    lemma_update_keeps(t, k as int, e);
                }
            },
        }
        self.materialize_and_update(next)
    }

    /// Removes the file at `path`.
    pub fn remove_file(&mut self, path: &str) -> (result: Result<(), FsError>)
        requires
            old(self).well_formed(),
        ensures
            final(self).replaced(
                old(self),
                after_remove_file(old(self).entries(), encode_utf8(path@)),
                result,
            ),
    {
        let ghost t = self.entries();
        match validate_path(path) {
            Ok(_) => {},
            Err(error) => return Err(error),
        }
        let mut next: Vec<FileEntry> = duplicate_all(&self.files);
        match find(&next, path.as_bytes()) {
            None => return Err(FsError::NotFound),
            Some(k) => {
                assert(t[k as int] == next@[k as int]@);
                if next[k].kind != EntryKind::File {
                    return Err(FsError::IsDirectory);
                }
                if next[k].permissions & OWNER_WRITE == 0 {
                    return Err(FsError::PermissionDenied);
                }
                next.remove(k);
                proof {
                    assert(tree(next@) =~= t.remove(k as int));
                    lemma_remove_keeps(t, k as int);
                }
            },
        }
        self.materialize_and_replace(next)
    }

    /// Removes the directory at `path`, which must be empty.
    pub fn remove_dir(&mut self, path: &str) -> (result: Result<(), FsError>)
        requires
            old(self).well_formed(),
        ensures
            final(self).replaced(
                old(self),
                after_remove_dir(old(self).entries(), encode_utf8(path@)),
                result,
            ),
    {
        let ghost t = self.entries();
        match validate_path(path) {
            Ok(_) => {},
            Err(error) => return Err(error),
        }
        let mut next: Vec<FileEntry> = duplicate_all(&self.files);
        match find(&next, path.as_bytes()) {
            None => return Err(FsError::NotFound),
            Some(k) => {
                assert(t[k as int] == next@[k as int]@);
                if next[k].kind != EntryKind::Directory {
                    return Err(FsError::NotDirectory);
                }
                if next[k].permissions & OWNER_WRITE == 0 {
                    return Err(FsError::PermissionDenied);
                }
                if is_occupied(&next, path.as_bytes()) {
                    return Err(FsError::DirectoryNotEmpty);
                }
                next.remove(k);
                proof {
                    assert(tree(next@) =~= t.remove(k as int));
                    lemma_remove_keeps(t, k as int);
                }
            },
        }
        self.materialize_and_replace(next)
    }

    /// Reads the newest snapshot back and compares it with the tree.
    pub fn verify_committed_state(&mut self) -> (result: Result<(), FsError>)
        requires
            old(self).well_formed(),
        ensures
            final(self).well_formed(),
            final(self).same_volume(old(self)),
            final(self).disk() == old(self).disk(),
            final(self).durable() == old(self).durable(),
            final(self).traffic() == old(self).traffic(),
            final(self).entries() == old(self).entries(),
            final(self).commits() == old(self).commits(),
            match result {
                Ok(_) => {
                    ||| (snapshot_at(old(self).disk(), 0) matches Some(snapshot) && final(
                        self).shows(snapshot))
                    ||| (snapshot_at(old(self).disk(), 1) matches Some(snapshot) && final(
                        self).shows(snapshot))
                },
                Err(error) => {
                    &&& final(self).unchanged(old(self))
                    &&& {
                        ||| error == FsError::VerificationFailed
                        ||| error == FsError::CorruptSuperblocks && !blank(old(self).disk())
                        ||| error is Block && !old(self).reliable()
                    }
                },
            },
            old(self).reliable() ==> match newest(old(self).disk()) {
                Some(snapshot) => if snapshot.entries == old(self).entries()
                    && snapshot.superblock.generation == old(self).commits() {
                    result is Ok && final(self).shows(snapshot)
                } else {
                    result matches Err(error) && error == FsError::VerificationFailed
                },
                None => result matches Err(error) && error == if blank(old(self).disk()) {
                    FsError::VerificationFailed
                } else {
                    FsError::CorruptSuperblocks
                },
            },
    {
        match load_latest_snapshot(&mut self.device) {
            Err(error) => Err(error),
            Ok(None) => Err(FsError::VerificationFailed),
            Ok(Some(snapshot)) => {
                proof {
                    if snapshot_at(self.device.sectors(), 0) == Some(snapshot@) {
                        lemma_snapshot_is_sound(self.device.sectors(), 0);
                    } else {
                        lemma_snapshot_is_sound(self.device.sectors(), 1);
                    }
                }
                if snapshot.superblock.generation != self.generation || !same_tree(
                    &snapshot.files,
                    &self.files,
                ) {
                    return Err(FsError::VerificationFailed);
                }
                self.active_record_start = snapshot.superblock.record_start;
                self.active_record_sectors = snapshot.superblock.record_sectors;
                Ok(())
            },
        }
    }

    /// Flushes the device once and hands it back.
    pub fn unmount(self) -> (result: Result<D, FsError>)
        requires
            self.well_formed(),
        ensures
            unmounted(self, result),
    {
        let mut device = self.device;
        match device.flush() {
            Ok(_) => Ok(device),
            Err(error) => Err(FsError::Block(error)),
        }
    }
}

/// A record and the superblock that leads to it make a snapshot of the tree.
proof fn lemma_stored_snapshot(
    sectors: Seq<Seq<u8>>,
    which: int,
    superblock: Superblock,
    record: Seq<u8>,
    files: Seq<FileEntry>,
)
    requires
        sectors.len() <= u64::MAX,
        superblock_of(sectors[which], superblock),
        sound_superblock(superblock, sectors.len() as int),
        superblock.record_crc == crc32_of(record),
        record_image(
            sectors,
            superblock.record_start as int,
            superblock.record_sectors as int,
        ) == record,
        record_fault(tree(files)) is None,
        record_of(record, superblock.generation, tree(files)),
        distinct_names(tree(files)),
    ensures
        snapshot_at(sectors, which) == Some(Snapshot { superblock, entries: tree(files) }),
{
    let t = tree(files);
    superblock_round_trip(sectors[which], superblock, sectors.len() as int);
    assert forall|i: int| 0 <= i < t.len() implies valid_utf8((#[trigger] t[i]).name) by {
        encode_utf8_valid_utf8(files[i].name@);
    }
    record_round_trip(record, superblock.generation, t);
}

proof fn lemma_slot_fits(slot: int, slots: int, span: int, available: int)
    requires
        0 <= slot < slots,
        0 < span,
        0 <= available,
        slots == available / span,
    ensures
        0 <= slot * span <= available,
{
    vstd::arithmetic::div_mod::lemma_fundamental_div_mod(available, span);
    assert(0 <= slot * span <= slots * span) by (nonlinear_arith)
        requires
            0 <= slot < slots,
            0 < span,
    ;
    assert(span * slots == slots * span) by (nonlinear_arith);
    assert(0 <= available % span);
}

/// A device that is large enough has two slots.
proof fn lemma_two_slots(capacity: int)
    requires
        large_enough(capacity),
    ensures
        (capacity - RECORD_AREA_START) / slot_span(capacity) >= 2,
{
    let available = capacity - RECORD_AREA_START;
    let span = slot_span(capacity);
    assert(0 < span && 2 * span <= available);
    assert(available / span >= 2) by (nonlinear_arith)
        requires
            0 < span,
            2 * span <= available,
    ;
}

/// The empty tree can be committed to every blank device.
proof fn lemma_empty_tree_fits(span: int, slots: int, capacity: int)
    requires
        large_enough(capacity),
        span == slot_span(capacity),
        slots == (capacity - RECORD_AREA_START) / span,
        slots >= 2,
        capacity <= u64::MAX,
    ensures
        record_fault(Seq::<Entry>::empty()) is None,
        record_size(Seq::<Entry>::empty()) == 32768,
        64 <= span,
        chosen_start(1, 64, capacity, span, slots, 0, 0, 0) is Ok,
{
    reveal(chosen_start);
    let t = Seq::<Entry>::empty();
    assert(payload_length(t) == 0);
    assert(tree_fault(t, true) is None);
    vstd::arithmetic::div_mod::lemma_small_mod(1nat, slots as nat);
    vstd::arithmetic::div_mod::lemma_fundamental_div_mod(capacity - RECORD_AREA_START, span);
    assert(span * slots >= 2 * span) by (nonlinear_arith)
        requires
            slots >= 2,
            span >= 0,
    ;
    assert(1int % slots == 1);
    assert(1 * span == span);
}

/// A snapshot's record lies on the disk, and its tree has valid and distinct names.
pub proof fn lemma_snapshot_is_sound(sectors: Seq<Seq<u8>>, which: int)
    requires
        snapshot_at(sectors, which) is Some,
    ensures
        ({
            let snapshot = snapshot_at(sectors, which).unwrap();
            &&& snapshot.superblock.generation != 0
            &&& snapshot.superblock.record_start >= RECORD_AREA_START
            &&& snapshot.superblock.record_sectors > 0
            &&& snapshot.superblock.record_start + snapshot.superblock.record_sectors
                <= sectors.len()
            &&& valid_names(snapshot.entries)
            &&& distinct_names(snapshot.entries)
            &&& tree_fault(snapshot.entries, false) is None
            &&& snapshot.entries.len() <= MAX_FILES
        }),
{
    reveal(decoded_superblock);
    let superblock = decoded_superblock(sectors[which], sectors.len() as int).unwrap();
    let record = record_image(
        sectors,
        superblock.record_start as int,
        superblock.record_sectors as int,
    );
    crate::fs::record::lemma_decoded_names(record, superblock.generation);
}

/// Between the writing of a record and the end of a commit that fails, the order is kept.
proof fn lemma_written_in_order<D: BlockDevice>(
    before: CodexFs<D>,
    between: CodexFs<D>,
    after: CodexFs<D>,
    t: Seq<Entry>,
    record: Seq<u8>,
)
    requires
        before.plan(t) is Ok,
        before.plan(t).unwrap() >= RECORD_AREA_START,
        before.plan(t).unwrap() + record_size(t) / 512 <= before.disk().len(),
        record_of(record, (before.commits() + 1) as u64, t),
        record_size(t) % 512 == 0,
        between.disk().len() == before.disk().len(),
        between.durable().len() == before.disk().len(),
        before.durable().len() == before.disk().len(),
        after.disk().len() == before.disk().len(),
        record_image(between.disk(), before.plan(t).unwrap(), record_size(t) / 512) == record,
        forall|i: int|
            0 <= i < before.disk().len() && !(before.plan(t).unwrap() <= i < before.plan(t).unwrap()
                + record_size(t) / 512) ==> #[trigger] between.disk()[i] == before.disk()[i],
        forall|i: int|
            0 <= i < before.disk().len() && !(before.plan(t).unwrap() <= i < before.plan(t).unwrap()
                + record_size(t) / 512) ==> #[trigger] between.durable()[i] == before.durable()[i],
        forall|i: int|
            0 <= i < before.disk().len() && i != superblock_sector(before.commits() + 1)
                ==> #[trigger] after.disk()[i] == between.disk()[i],
        forall|i: int|
            0 <= i < before.disk().len() && i != superblock_sector(before.commits() + 1)
                && between.kept(i) ==> #[trigger] after.kept(i),
        ({
            let next = superblock_sector(before.commits() + 1);
            ||| after.disk()[next] == between.disk()[next] && (between.kept(next) ==> after.kept(
                next,
            ))
            ||| forall|i: int|
                0 <= i < before.disk().len() && i != next ==> #[trigger] after.kept(i)
        }),
    ensures
        after.written_in_order(&before, t),
{
    let next = superblock_sector(before.commits() + 1);
    let start = before.plan(t).unwrap();
    let count = record_size(t) / 512;
    assert(record_image(after.disk(), start, count) =~= record) by {
        assert forall|i: int| 0 <= i < count * 512 implies #[trigger] record_image(
            after.disk(),
            start,
            count,
        )[i] == record_image(between.disk(), start, count)[i] by {
            assert(after.disk()[start + i / 512] == between.disk()[start + i / 512]);
        }
    }
    assert forall|i: int|
        0 <= i < before.disk().len() && i != next && !(start <= i < start + count) && before.kept(
            i,
        ) implies #[trigger] after.kept(i) by {
        assert(between.disk()[i] == before.disk()[i]);
        assert(between.durable()[i] == before.durable()[i]);
        assert(between.kept(i));
    }
    assert(between.disk()[next] == before.disk()[next]);
    assert(between.durable()[next] == before.durable()[next]);
}

/// The names of a mounted filesystem are valid and distinct.
pub proof fn lemma_names<D: BlockDevice>(fs: CodexFs<D>)
    requires
        fs.well_formed(),
    ensures
        valid_names(fs.entries()),
        distinct_names(fs.entries()),
        tree_fault(fs.entries(), false) is None,
        fs.entries().len() <= MAX_FILES,
{
}

/// The sizes of a mounted filesystem: the device is large enough, and the active record lies behind the
/// superblocks.
pub proof fn lemma_sizes<D: BlockDevice>(fs: CodexFs<D>)
    requires
        fs.well_formed(),
    ensures
        fs.durable().len() == fs.disk().len(),
        fs.disk().len() <= u64::MAX,
        large_enough(fs.disk().len() as int),
        fs.span() == slot_span(fs.disk().len() as int),
        fs.slots() == (fs.disk().len() - RECORD_AREA_START) / slot_span(fs.disk().len() as int),
        fs.active_start() >= RECORD_AREA_START,
        fs.active_sectors() > 0,
        fs.active_start() + fs.active_sectors() <= fs.disk().len(),
{
}

} // verus!
