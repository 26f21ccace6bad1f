//! What the filesystem keeps and answers, spelled out: directories, refusals, and the bytes on the disk.

use vstd::prelude::*;
use vstd::utf8::valid_utf8;
use crate::block::BlockDevice;
use crate::bytes::zero_between;
use crate::checksum::crc32_of;
use crate::fs::entry::{
    distinct_names, lemma_position, position_from, position_of, sorted, Entry, EntryKind, FsError,
};
use crate::fs::laws::{
    has_open_parent, lemma_found_by_name, lemma_open_parent, lemma_pushed_is_rooted,
};
use crate::fs::path::{before, directly_below, root, valid_path};
use crate::fs::record::{
    entry_bytes, payload_length, payload_of, read_entry, record_fault, record_of, record_size,
};
use crate::fs::snapshot::{blank_sector, newest, snapshot_at};
use crate::fs::superblock::{slot_span, superblock_of, Superblock};
use crate::fs::tree::{
    after_create_dir, after_remove_dir, after_remove_file, after_set_permissions, after_write,
    contents_at, has_directory, lemma_push_keeps, lemma_rooted_is_materialized, lemma_sorted_contains,
    lemma_sorted_keeps, lemma_update_keeps, occupied, parent_fault, rooted, valid_names, with_directory,
};
use crate::fs::volume::{chosen_start, count_of, listing_fault, superblock_sector, CodexFs};

verus! {

/// The entry of a tree at `path`.
pub open spec fn stands(t: Seq<Entry>, path: Seq<u8>, e: Entry) -> bool {
    t.contains(e) && e.name == path
}

/// Nothing of a tree is at `path`.
pub open spec fn vacant(t: Seq<Entry>, path: Seq<u8>) -> bool {
    forall|e: Entry| #[trigger] t.contains(e) ==> e.name != path
}

proof fn lemma_stands(t: Seq<Entry>, path: Seq<u8>)
    requires
        distinct_names(t),
    ensures
        vacant(t, path) <==> position_of(t, path) is None,
        position_of(t, path) matches Some(k) ==> 0 <= k < t.len() && stands(t, path, t[k])
            && forall|e: Entry| #[trigger] stands(t, path, e) ==> e == t[k],
{
    lemma_position(t, path, 0);
    match position_of(t, path) {
        Some(k) => {
            assert(t.contains(t[k]));
            assert forall|e: Entry| #[trigger] stands(t, path, e) implies e == t[k] by {
                lemma_found_by_name(t, e);
            }
        },
        None => {
            assert forall|e: Entry| #[trigger] t.contains(e) implies e.name != path by {
                let i = choose|i: int| 0 <= i < t.len() && t[i] == e;
                assert(t[i].name != path);
            }
        },
    }
}

/// A directory can be created if and only if path and permissions are proper, it stands in the root or in
/// a directory in which entries may be made, and there is no file at its place and room for one more. It
/// then is there with these permissions, and everything else is as it was.
pub proof fn a_directory_can_be_created_where_it_may(t: Seq<Entry>, path: Seq<u8>, permissions: u16)
    requires
        distinct_names(t),
        valid_names(t),
        rooted(t),
    ensures
        after_create_dir(t, path, permissions) is Ok <==> {
            &&& valid_path(path)
            &&& permissions <= 0o777
            &&& has_open_parent(t, path)
            &&& forall|e: Entry| #[trigger] stands(t, path, e) ==> e.kind == EntryKind::Directory
            &&& vacant(t, path) ==> t.len() < 128
        },
        after_create_dir(t, path, permissions) matches Ok(u) ==> {
            &&& exists|e: Entry| #[trigger]
                stands(u, path, e) && e.kind == EntryKind::Directory && e.permissions == permissions
            &&& forall|e: Entry| #[trigger]
                u.contains(e) && e.name == path ==> e.kind == EntryKind::Directory && e.permissions
                    == permissions
            &&& forall|e: Entry| e.name != path ==> (#[trigger] u.contains(e) <==> t.contains(e))
        },
{
    if valid_path(path) {
        lemma_open_parent(t, path);
        lemma_stands(t, path);
        match position_of(t, path) {
            Some(k) => {
                if t[k].kind == EntryKind::Directory {
                    let e = Entry { permissions, ..t[k] };
                    let next = t.update(k, e);
                    lemma_update_keeps(t, k, e);
                    assert forall|i: int| 0 <= i < next.len() implies crate::fs::path::parent_of(
                        #[trigger] next[i].name,
                    ) == root() || has_directory(next, crate::fs::path::parent_of(next[i].name)) by {
                        assert(next[i].name == t[i].name);
                        let parent = crate::fs::path::parent_of(t[i].name);
                        if parent != root() {
                            assert(has_directory(t, parent));
                            let m = choose|m: int|
                                0 <= m < t.len() && (#[trigger] t[m]).name == parent && t[m].kind
                                    == EntryKind::Directory;
                            assert(next[m].name == parent && next[m].kind == EntryKind::Directory);
                        }
                    }
                    lemma_rooted_is_materialized(next);
                    let u = sorted(next);
                    assert(after_create_dir(t, path, permissions) matches Ok(made) ==> made == u);
                    assert(next[k] == e);
                    lemma_sorted_contains(next, e);
                    assert(stands(u, path, e));
                    assert forall|x: Entry| #[trigger] u.contains(x) && x.name == path implies x == e by {
                        lemma_sorted_contains(next, x);
                        let i = choose|i: int| 0 <= i < next.len() && next[i] == x;
                        if i != k {
                            assert(t[i] == x);
                            assert(stands(t, path, x));
                        }
                    }
                    assert forall|x: Entry| x.name != path implies (#[trigger] u.contains(x)
                        <==> t.contains(x)) by {
                        lemma_sorted_contains(next, x);
                        if next.contains(x) {
                            let i = choose|i: int| 0 <= i < next.len() && next[i] == x;
                            assert(i != k);
                            assert(t[i] == x);
                        }
                        if t.contains(x) {
                            let i = choose|i: int| 0 <= i < t.len() && t[i] == x;
                            assert(i != k);
                            assert(next[i] == x);
                        }
                    }
                }
            },
            None => {
                let e = Entry { permissions, ..crate::fs::entry::default_directory(path) };
                if crate::fs::tree::parent_fault(t, path) is None {
                    let pushed = t.push(e);
                    let next = sorted(pushed);
                    lemma_push_keeps(t, e);
                    lemma_sorted_keeps(pushed);
                    lemma_pushed_is_rooted(t, e);
                    lemma_rooted_is_materialized(next);
                    let u = sorted(next);
                    assert(after_create_dir(t, path, permissions) matches Ok(made) ==> made == u);
                    assert(pushed[t.len() as int] == e);
                    lemma_sorted_contains(pushed, e);
                    lemma_sorted_contains(next, e);
                    assert(stands(u, path, e));
                    assert forall|x: Entry| #[trigger] u.contains(x) && x.name == path implies x == e by {
                        lemma_sorted_contains(next, x);
                        lemma_sorted_contains(pushed, x);
                        let i = choose|i: int| 0 <= i < pushed.len() && pushed[i] == x;
                        if i < t.len() {
                            assert(t[i] == x);
                            assert(t.contains(x));
                        }
                    }
                    assert forall|x: Entry| x.name != path implies (#[trigger] u.contains(x)
                        <==> t.contains(x)) by {
                        lemma_sorted_contains(next, x);
                        lemma_sorted_contains(pushed, x);
                        if pushed.contains(x) {
                            let i = choose|i: int| 0 <= i < pushed.len() && pushed[i] == x;
                            assert(t[i] == x);
                        }
                        if t.contains(x) {
                            let i = choose|i: int| 0 <= i < t.len() && t[i] == x;
                            assert(pushed[i] == x);
                        }
                    }
                }
            },
        }
    }
}

/// Why a file is not written, not removed and not found: what stands in the way names the error.
pub proof fn a_refusal_names_its_reason(
    t: Seq<Entry>,
    path: Seq<u8>,
    data: Seq<u8>,
    permissions: Option<u16>,
    mode: u16,
    e: Entry,
)
    requires
        distinct_names(t),
        valid_names(t),
    ensures
        !valid_path(path) ==> {
            &&& after_write(t, path, data, permissions) == Err::<Seq<Entry>, FsError>(
                FsError::InvalidPath,
            )
            &&& after_remove_file(t, path) == Err::<Seq<Entry>, FsError>(FsError::InvalidPath)
            &&& after_remove_dir(t, path) == Err::<Seq<Entry>, FsError>(FsError::InvalidPath)
            &&& after_create_dir(t, path, mode) == Err::<Seq<Entry>, FsError>(FsError::InvalidPath)
            &&& after_set_permissions(t, path, mode) == Err::<Seq<Entry>, FsError>(FsError::InvalidPath)
        },
        valid_path(path) && mode > 0o777 ==> {
            &&& after_create_dir(t, path, mode) == Err::<Seq<Entry>, FsError>(
                FsError::InvalidPermissions,
            )
            &&& after_set_permissions(t, path, mode) == Err::<Seq<Entry>, FsError>(
                FsError::InvalidPermissions,
            )
        },
        valid_path(path) && vacant(t, path) ==> {
            &&& after_remove_file(t, path) == Err::<Seq<Entry>, FsError>(FsError::NotFound)
            &&& after_remove_dir(t, path) == Err::<Seq<Entry>, FsError>(FsError::NotFound)
            &&& mode <= 0o777 ==> after_set_permissions(t, path, mode) == Err::<Seq<Entry>, FsError>(
                FsError::NotFound,
            )
            &&& has_open_parent(t, path) && t.len() >= 128 ==> {
                &&& after_write(t, path, data, permissions) == Err::<Seq<Entry>, FsError>(
                    FsError::TooManyFiles,
                )
                &&& mode <= 0o777 ==> after_create_dir(t, path, mode) == Err::<Seq<Entry>, FsError>(
                    FsError::TooManyFiles,
                )
            }
        },
        stands(t, path, e) && e.kind == EntryKind::Directory ==> {
            &&& after_remove_file(t, path) == Err::<Seq<Entry>, FsError>(FsError::IsDirectory)
            &&& has_open_parent(t, path) ==> after_write(t, path, data, permissions) == Err::<
                Seq<Entry>,
                FsError,
            >(FsError::IsDirectory)
            &&& e.permissions & 0o200 == 0 ==> after_remove_dir(t, path) == Err::<
                Seq<Entry>,
                FsError,
            >(FsError::PermissionDenied)
        },
        stands(t, path, e) && e.kind == EntryKind::File ==> {
            &&& after_remove_dir(t, path) == Err::<Seq<Entry>, FsError>(FsError::NotDirectory)
            &&& e.permissions & 0o200 == 0 ==> {
                &&& after_remove_file(t, path) == Err::<Seq<Entry>, FsError>(
                    FsError::PermissionDenied,
                )
                &&& has_open_parent(t, path) ==> after_write(t, path, data, permissions) == Err::<
                    Seq<Entry>,
                    FsError,
                >(FsError::PermissionDenied)
            }
            &&& has_open_parent(t, path) && mode <= 0o777 ==> after_create_dir(t, path, mode) == Err::<
                Seq<Entry>,
                FsError,
            >(FsError::NotDirectory)
        },
{
    if valid_path(path) {
        lemma_open_parent(t, path);
        lemma_stands(t, path);
    }
    if stands(t, path, e) {
        let i = choose|i: int| 0 <= i < t.len() && t[i] == e;
        assert(valid_path(t[i].name));
    }
}

/// A directory can be listed if and only if it is the root, or is there as a directory.
pub proof fn a_directory_that_is_there_can_be_listed(t: Seq<Entry>, path: Seq<u8>)
    requires
        distinct_names(t),
        valid_names(t),
    ensures
        listing_fault(t, path) is None <==> path == seq![0x2fu8] || exists|e: Entry| #[trigger]
            stands(t, path, e) && e.kind == EntryKind::Directory,
        path != seq![0x2fu8] && valid_path(path) && vacant(t, path) ==> listing_fault(t, path) == Some(
            FsError::NotFound,
        ),
{
    assert(root() =~= seq![0x2fu8]);
    lemma_stands(t, path);
    if exists|e: Entry| #[trigger] stands(t, path, e) {
        let e = choose|e: Entry| #[trigger] stands(t, path, e);
        let i = choose|i: int| 0 <= i < t.len() && t[i] == e;
        assert(valid_path(t[i].name));
    }
}

/// What can be read is what a readable file at the path holds.
pub proof fn a_readable_file_is_read(t: Seq<Entry>, path: Seq<u8>, e: Entry)
    requires
        distinct_names(t),
        stands(t, path, e),
    ensures
        contents_at(t, path) == if e.kind == EntryKind::File && e.permissions & 0o400 != 0 {
            Some(e.data)
        } else {
            None
        },
{
    lemma_stands(t, path);
}

/// The count of a kind is how many entries of that kind there are.
pub proof fn entries_are_counted(t: Seq<Entry>, kind: EntryKind)
    ensures
        count_of(t, kind) == t.filter(|e: Entry| e.kind == kind).len(),
    decreases t.len(),
{
    reveal(Seq::filter);
    if t.len() > 0 {
        entries_are_counted(t.drop_last(), kind);
    }
}

/// The order of names is that of their bytes: the first difference decides, and a name comes before what
/// only goes on behind it.
pub proof fn names_are_ordered_by_their_bytes(a: Seq<u8>, b: Seq<u8>, k: int)
    requires
        0 <= k <= a.len(),
        k <= b.len(),
        forall|i: int| 0 <= i < k ==> #[trigger] a[i] == b[i],
    ensures
        k < a.len() && k < b.len() && a[k] < b[k] ==> before(a, b),
        k < a.len() && k < b.len() && b[k] < a[k] ==> !before(a, b),
        k == a.len() && k < b.len() ==> before(a, b),
        k == b.len() ==> !before(a, b),
    decreases k,
{
    if k > 0 {
        assert(a[0] == b[0]);
        let x = a.skip(1);
        let y = b.skip(1);
        assert forall|i: int| 0 <= i < k - 1 implies #[trigger] x[i] == y[i] by {
            assert(a[i + 1] == b[i + 1]);
        }
        names_are_ordered_by_their_bytes(x, y, k - 1);
        if k < a.len() && k < b.len() {
            assert(x[k - 1] == a[k] && y[k - 1] == b[k]);
        }
    }
}

/// The number that two bytes make, the low one first.
pub open spec fn low_first_2(s: Seq<u8>, at: int) -> int {
    s[at] + s[at + 1] * 0x100
}

/// The number that four bytes make, the low one first.
pub open spec fn low_first_4(s: Seq<u8>, at: int) -> int {
    s[at] + s[at + 1] * 0x100 + s[at + 2] * 0x1_0000 + s[at + 3] * 0x100_0000
}

/// The number that eight bytes make, the low one first.
pub open spec fn low_first_8(s: Seq<u8>, at: int) -> int {
    low_first_4(s, at) + low_first_4(s, at + 4) * 0x1_0000_0000
}

/// An entry on the disk: the length of its name, its kind, the length of its data and its permissions,
/// then the name and the data.
pub proof fn an_entry_on_the_disk(e: Entry)
    requires
        e.name.len() < 0x1_0000,
        e.data.len() < 0x1_0000_0000,
    ensures
        ({
            let bytes = entry_bytes(e);
            let n = e.name.len() as int;
            &&& bytes.len() == 12 + n + e.data.len()
            &&& low_first_2(bytes, 0) == n
            &&& low_first_2(bytes, 2) == match e.kind {
                EntryKind::File => 1int,
                EntryKind::Directory => 2int,
            }
            &&& low_first_4(bytes, 4) == e.data.len()
            &&& low_first_2(bytes, 8) == e.permissions
            &&& bytes[10] == 0 && bytes[11] == 0
            &&& bytes.subrange(12, 12 + n) == e.name
            &&& bytes.subrange(12 + n, bytes.len() as int) == e.data
        }),
{
    let bytes = entry_bytes(e);
    let n = e.name.len() as int;
    assert(bytes.subrange(12, 12 + n) =~= e.name);
    assert(bytes.subrange(12 + n, bytes.len() as int) =~= e.data);
}

/// A record on the disk: its header with the generation, the number of entries, their length and both
/// checksums, then the entries one behind the other, then zeros up to a whole number of sectors.
pub proof fn a_record_on_the_disk(record: Seq<u8>, generation: u64, t: Seq<Entry>)
    requires
        record_of(record, generation, t),
    ensures
        ({
            let payload = payload_of(t);
            let n = payload.len() as int;
            &&& record.len() % 512 == 0
            &&& record.len() >= 32768
            &&& record.len() > 32768 ==> record.len() < 64 + n + 512
            &&& record.subrange(0, 8) == seq![0x43u8, 0x44, 0x58, 0x52, 0x45, 0x43, 0x31, 0x00]
            &&& low_first_4(record, 8) == 3
            &&& low_first_4(record, 12) == 64
            &&& low_first_8(record, 16) == generation
            &&& low_first_4(record, 24) == t.len()
            &&& low_first_4(record, 28) == n
            &&& low_first_4(record, 32) == crc32_of(payload)
            &&& record.subrange(64, 64 + n) == payload
            &&& zero_between(record, 64 + n, record.len() as int)
        }),
        t.len() > 0 ==> payload_of(t) == entry_bytes(t[0]) + payload_of(t.skip(1)),
        payload_of(Seq::<Entry>::empty()).len() == 0,
{
    crate::fs::record::lemma_payload_length(t);
    let header = record.take(64);
    assert(record.subrange(0, 8) =~= header.subrange(0, 8));
    assert(crate::fs::record::RECORD_MAGIC@ =~= seq![
        0x43u8, 0x44, 0x58, 0x52, 0x45, 0x43, 0x31, 0x00,
    ]);
}

/// A superblock on the disk says which record holds the newest tree, where it is, how long it is and what
/// its checksum is.
pub proof fn a_superblock_on_the_disk(sector: Seq<u8>, superblock: Superblock)
    requires
        superblock_of(sector, superblock),
        superblock.record_bytes < 0x1_0000_0000,
    ensures
        sector.len() == 512,
        sector.subrange(0, 8) == seq![0x43u8, 0x44, 0x58, 0x46, 0x53, 0x31, 0x00, 0x00],
        low_first_4(sector, 8) == 3,
        low_first_4(sector, 12) == 64,
        low_first_8(sector, 16) == superblock.generation,
        low_first_8(sector, 24) == superblock.record_start,
        low_first_4(sector, 32) == superblock.record_sectors,
        low_first_4(sector, 36) == superblock.record_bytes,
        low_first_4(sector, 40) == superblock.record_crc,
        low_first_4(sector, 44) == crc32_of(
            Seq::new(
                512,
                |i: int|
                    if 44 <= i < 48 {
                        0u8
                    } else {
                        sector[i]
                    },
            ),
        ),
        low_first_8(sector, 48) == superblock.capacity_sectors,
        zero_between(sector, 56, 512),
{
    assert(crate::fs::superblock::SUPERBLOCK_MAGIC@ =~= seq![
        0x43u8, 0x44, 0x58, 0x46, 0x53, 0x31, 0x00, 0x00,
    ]);
    assert(crate::checksum::without_checksum(sector, 44) =~= Seq::new(
        512,
        |i: int|
            if 44 <= i < 48 {
                0u8
            } else {
                sector[i]
            },
    ));
}

/// An entry of the oldest format is a file with the usual permissions, whose name stands behind eight
/// bytes.
pub proof fn an_old_entry_is_a_file(record: Seq<u8>, cursor: int, end: int, seen: Seq<Entry>)
    requires
        0 <= cursor,
        end <= record.len(),
        cursor + 8 + low_first_2(record, cursor) + low_first_4(record, cursor + 4) <= end,
        record[cursor + 2] == 0 && record[cursor + 3] == 0,
    ensures
        ({
            let name_end = cursor + 8 + low_first_2(record, cursor);
            let data_end = name_end + low_first_4(record, cursor + 4);
            let name = record.subrange(cursor + 8, name_end);
            valid_utf8(name) && valid_path(name) && position_of(seen, name) is None ==> read_entry(
                record,
                1,
                cursor,
                end,
                seen,
            ) == Ok::<(Entry, int), FsError>(
                (
                    Entry {
                        name,
                        data: record.subrange(name_end, data_end),
                        kind: EntryKind::File,
                        permissions: 0o644,
                    },
                    data_end,
                ),
            )
        }),
{
}

/// The snapshot that a disk shows is the one of its two that has the higher generation; where only one is
/// sound it is that one.
pub proof fn the_higher_generation_is_shown(sectors: Seq<Seq<u8>>)
    ensures
        newest(sectors) is None <==> snapshot_at(sectors, 0) is None && snapshot_at(sectors, 1) is None,
        newest(sectors) matches Some(shown) ==> {
            &&& snapshot_at(sectors, 0) == Some(shown) || snapshot_at(sectors, 1) == Some(shown)
            &&& snapshot_at(sectors, 0) matches Some(other) ==> other.superblock.generation
                <= shown.superblock.generation
            &&& snapshot_at(sectors, 1) matches Some(other) ==> other.superblock.generation
                <= shown.superblock.generation
        },
{
}

/// Two generations in a row have their superblocks in different sectors, of the first two; and every disk
/// that is large enough has room for two records, each as long as a record may be or half the disk.
pub proof fn two_generations_have_places(generation: int, sector_count: int)
    requires
        sector_count >= 136,
    ensures
        superblock_sector(generation) == generation % 2,
        superblock_sector(generation) != superblock_sector(generation + 1),
        64 <= slot_span(sector_count) <= 8192,
        8 + 2 * slot_span(sector_count) <= sector_count,
        slot_span(sector_count) < 8192 ==> sector_count <= 8 + 2 * slot_span(sector_count) + 1,
{
}

proof fn lemma_slots_apart(a: int, b: int, span: int)
    by (nonlinear_arith)
    requires
        a < b,
        span >= 0,
    ensures
        a * span + span <= b * span,
{
}

/// A tree whose record fits into a slot can always be committed: of two slots one is clear of the active
/// record.
pub proof fn a_tree_that_fits_can_be_committed<D: BlockDevice>(fs: CodexFs<D>, t: Seq<Entry>, slot: int)
    requires
        record_fault(t) is None,
        record_size(t) / 512 <= fs.span(),
        fs.slots() >= 2,
        8 + fs.slots() * fs.span() <= fs.disk().len(),
        0 <= slot < fs.slots(),
        fs.active_start() == 8 + slot * fs.span(),
        fs.active_sectors() <= fs.span(),
        fs.commits() + fs.slots() < u64::MAX,
    ensures
        fs.plan(t) is Ok,
{
    let slots = fs.slots() as int;
    let span = fs.span() as int;
    let generation = fs.commits() + 1;
    let first = generation % slots;
    let second = (generation + 1) % slots;
    assert(0 <= first < slots && 0 <= second < slots && first != second) by (nonlinear_arith)
        requires
            slots >= 2,
            first == generation % slots,
            second == (generation + 1) % slots,
    {
        vstd::arithmetic::div_mod::lemma_fundamental_div_mod(generation, slots);
        vstd::arithmetic::div_mod::lemma_fundamental_div_mod(generation + 1, slots);
        vstd::arithmetic::div_mod::lemma_mod_bound(generation, slots);
        vstd::arithmetic::div_mod::lemma_mod_bound(generation + 1, slots);
    }
    lemma_slots_apart(first, slots, span);
    lemma_slots_apart(second, slots, span);
    assert(fs.slots() * fs.span() == slots * span);
    assert(slot * fs.span() == slot * span);
    if first < slot {
        lemma_slots_apart(first, slot, span);
    } else if slot < first {
        lemma_slots_apart(slot, first, span);
    }
    if second < slot {
        lemma_slots_apart(second, slot, span);
    } else if slot < second {
        lemma_slots_apart(slot, second, span);
    }
    reveal_with_fuel(chosen_start, 3);
}

/// A sector is blank if it is whole and every byte of it is zero.
pub proof fn a_blank_sector_is_all_zero(sector: Seq<u8>)
    ensures
        blank_sector(sector) <==> sector.len() == 512 && forall|i: int|
            0 <= i < 512 ==> #[trigger] sector[i] == 0,
{
}

/// A directory is added under an open parent where there is none, while there are fewer than 128 entries;
/// one that is there gets the permissions, and a file in its place is refused.
pub proof fn a_directory_is_added_while_there_is_room(t: Seq<Entry>, path: Seq<u8>, permissions: u16)
    requires
        parent_fault(t, path) is None,
    ensures
        position_of(t, path) is None && t.len() >= 128 ==> with_directory(t, path, permissions)
            == Err::<Seq<Entry>, FsError>(FsError::TooManyFiles),
        position_of(t, path) is None && t.len() < 128 ==> with_directory(t, path, permissions) is Ok,
        position_of(t, path) matches Some(k) ==> match with_directory(t, path, permissions) {
            Ok(next) => t[k].kind == EntryKind::Directory && next.len() == t.len() && next[k].permissions
                == permissions && next[k].name == t[k].name && next[k].kind == t[k].kind,
            Err(error) => t[k].kind != EntryKind::Directory && error == FsError::NotDirectory,
        },
{
    lemma_stands_at(t, path, 0);
}

proof fn lemma_stands_at(t: Seq<Entry>, path: Seq<u8>, i: int)
    requires
        0 <= i <= t.len(),
    ensures
        position_from(t, path, i) matches Some(k) ==> 0 <= k < t.len(),
    decreases t.len() - i,
{
    if i < t.len() && t[i].name != path {
        lemma_stands_at(t, path, i + 1);
    }
}



} // verus!
