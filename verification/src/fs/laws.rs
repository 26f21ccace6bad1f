//! What the filesystem promises across several operations.

use vstd::prelude::*;
use crate::block::BlockDevice;
use vstd::utf8::valid_utf8;
use crate::checksum::crc32_of;
use crate::fs::entry::{
    default_directory, distinct_names, lemma_ordered_is_sorted, lemma_position, ordered, position_of,
    sorted, Entry, EntryKind, FsError, DEFAULT_DIRECTORY_PERMISSIONS, DEFAULT_FILE_PERMISSIONS,
};
use crate::fs::record::{record_fault, record_of, record_round_trip, record_size};
use crate::fs::snapshot::{lemma_snapshot_frame, newest, record_image, snapshot_at};
use crate::fs::superblock::{
    decoded_superblock, superblock_of, superblock_round_trip, Superblock, RECORD_AREA_START,
};
use crate::fs::path::{
    directly_below, ends_at, parent_is_a_path, parent_of, root, the_parent_is_the_directory_above,
    valid_path,
};
use crate::fs::tree::{
    add_ancestors, after_create_dir_all, after_remove_dir, after_remove_file, after_set_permissions,
    after_write,
    contents_at, entry_fault, has_directory, lemma_push_keeps, lemma_remove_keeps,
    lemma_rooted_is_materialized, lemma_sorted_contains, lemma_sorted_keeps, lemma_stays_rooted,
    lemma_tree_fault, lemma_update_keeps, lemma_with_directories_keeps, lemma_with_directory_keeps,
    materialized, materializing_roots_the_tree, occupied, parent_fault, required_from, rooted, tree_fault,
    tree_fault_from, valid_names, valid_permissions, with_directories, with_directory, with_required,
};
use crate::fs::volume::{
    chosen_start, lemma_names, lemma_sizes, lemma_snapshot_is_sound, mounted, superblock_sector,
    unmounted, CodexFs, MountError,
};

verus! {

/// A name that occurs once is found where it is.
pub proof fn lemma_found_by_name(t: Seq<Entry>, e: Entry)
    requires
        distinct_names(t),
        t.contains(e),
    ensures
        position_of(t, e.name) is Some,
        t[position_of(t, e.name).unwrap()] == e,
{
    lemma_position(t, e.name, 0);
    let i = choose|i: int| 0 <= i < t.len() && t[i] == e;
    match position_of(t, e.name) {
        Some(k) => {
            if k < i {
                assert(t[k].name != t[i].name);
            } else if i < k {
                assert(t[i].name != e.name);
            }
        },
        None => {
            assert(t[i].name != e.name);
        },
    }
}

/// The permissions that a written file has.
pub open spec fn written_permissions(t: Seq<Entry>, path: Seq<u8>, permissions: Option<u16>) -> u16 {
    match permissions {
        Some(permissions) => permissions,
        None => match position_of(t, path) {
            Some(k) => t[k].permissions,
            None => DEFAULT_FILE_PERMISSIONS,
        },
    }
}

/// A tree with one more entry, sorted, still has every parent.
pub proof fn lemma_pushed_is_rooted(t: Seq<Entry>, e: Entry)
    requires
        rooted(t),
        parent_fault(t, e.name) is None,
    ensures
        rooted(sorted(t.push(e))),
{
    let pushed = t.push(e);
    let next = sorted(pushed);
    assert forall|d: Entry| #[trigger] t.contains(d) && d.kind
        == EntryKind::Directory implies has_directory(next, d.name) by {
        let i = choose|i: int| 0 <= i < t.len() && t[i] == d;
        assert(pushed[i] == d);
        lemma_sorted_contains(pushed, d);
        let j = choose|j: int| 0 <= j < next.len() && next[j] == d;
        assert(next[j].name == d.name);
    }
    assert forall|i: int| 0 <= i < next.len() implies (#[trigger] next[i]).name == e.name
        || t.contains(next[i]) by {
        assert(next.contains(next[i]));
        lemma_sorted_contains(pushed, next[i]);
        let j = choose|j: int| 0 <= j < pushed.len() && pushed[j] == next[i];
        if j < t.len() {
            assert(t[j] == next[i]);
        }
    }
    lemma_stays_rooted(t, next, e.name);
}

/// A file that was written holds what was written, with the permissions that were asked, or else those
/// that it had, or else the default ones. Every other entry is as before. Nothing but missing parents is
/// added, and where none was missing, nothing.
#[verifier::spinoff_prover]
#[verifier::rlimit(40)]
pub proof fn a_written_file_holds_the_data(
    t: Seq<Entry>,
    path: Seq<u8>,
    data: Seq<u8>,
    permissions: Option<u16>,
)
    requires
        distinct_names(t),
        valid_names(t),
        after_write(t, path, data, permissions) is Ok,
    ensures
        ({
            let u = after_write(t, path, data, permissions).unwrap();
            &&& position_of(u, path) matches Some(k) && u[k].kind == EntryKind::File && u[k].data
                == data && u[k].permissions == written_permissions(t, path, permissions)
            &&& forall|e: Entry| #[trigger] t.contains(e) && e.name != path ==> u.contains(e)
            &&& forall|e: Entry| #[trigger]
                u.contains(e) && e.name != path ==> t.contains(e) || e == default_directory(e.name)
            &&& rooted(t) ==> forall|e: Entry| #[trigger]
                u.contains(e) && e.name != path ==> t.contains(e)
            &&& ordered(u)
            &&& rooted(u)
        }),
{
    lemma_position(t, path, 0);
    let u = after_write(t, path, data, permissions).unwrap();
    match position_of(t, path) {
        Some(k) => {
            let e = Entry {
                data,
                permissions: match permissions {
                    Some(permissions) => permissions,
                    None => t[k].permissions,
                },
                ..t[k]
            };
            let next = t.update(k, e);
            lemma_update_keeps(t, k, e);
            materializing_roots_the_tree(next);
            assert(next[k] == e);
            assert(next.contains(e));
            lemma_found_by_name(u, e);
            if rooted(t) {
                assert forall|d: Entry| #[trigger] t.contains(d) && d.kind
                    == EntryKind::Directory implies has_directory(next, d.name) by {
                    let i = choose|i: int| 0 <= i < t.len() && t[i] == d;
                    assert(i != k);
                    assert(next[i] == d);
                }
                assert forall|i: int| 0 <= i < next.len() implies (#[trigger] next[i]).name == path
                    || t.contains(next[i]) by {
                    if i != k {
                        assert(t[i] == next[i]);
                    }
                }
                lemma_stays_rooted(t, next, path);
                lemma_rooted_is_materialized(next);
                assert forall|other: Entry| #[trigger] u.contains(other) && other.name
                    != path implies t.contains(other) by {
                    lemma_sorted_contains(next, other);
                    let i = choose|i: int| 0 <= i < next.len() && next[i] == other;
                    assert(t[i] == other);
                }
            }
            assert forall|other: Entry| #[trigger] t.contains(other) && other.name
                != path implies u.contains(other) by {
                let i = choose|i: int| 0 <= i < t.len() && t[i] == other;
                assert(next[i] == other);
                assert(next.contains(other));
            }
            assert forall|other: Entry| #[trigger] u.contains(other) && other.name
                != path implies t.contains(other) || other == default_directory(other.name) by {
                if next.contains(other) {
                    let i = choose|i: int| 0 <= i < next.len() && next[i] == other;
                    assert(t[i] == other);
                }
            }
        },
        None => {
            let e = Entry {
                name: path,
                data,
                kind: EntryKind::File,
                permissions: match permissions {
                    Some(permissions) => permissions,
                    None => DEFAULT_FILE_PERMISSIONS,
                },
            };
            let pushed = t.push(e);
            let next = sorted(pushed);
            lemma_push_keeps(t, e);
            lemma_sorted_keeps(pushed);
            materializing_roots_the_tree(next);
            assert(pushed[t.len() as int] == e);
            lemma_sorted_contains(pushed, e);
            assert(next.contains(e));
            lemma_found_by_name(u, e);
            if rooted(t) {
                lemma_pushed_is_rooted(t, e);
                lemma_rooted_is_materialized(next);
                assert forall|other: Entry| #[trigger] u.contains(other) && other.name
                    != path implies t.contains(other) by {
                    lemma_sorted_contains(next, other);
                    lemma_sorted_contains(pushed, other);
                    let i = choose|i: int| 0 <= i < pushed.len() && pushed[i] == other;
                    assert(t[i] == other);
                }
            }
            assert forall|other: Entry| #[trigger] t.contains(other) && other.name
                != path implies u.contains(other) by {
                let i = choose|i: int| 0 <= i < t.len() && t[i] == other;
                assert(pushed[i] == other);
                lemma_sorted_contains(pushed, other);
                assert(next.contains(other));
            }
            assert forall|other: Entry| #[trigger] u.contains(other) && other.name
                != path implies t.contains(other) || other == default_directory(other.name) by {
                if next.contains(other) {
                    lemma_sorted_contains(pushed, other);
                    let i = choose|i: int| 0 <= i < pushed.len() && pushed[i] == other;
                    assert(t[i] == other);
                }
            }
        },
    }
}

/// An entry whose permissions were changed has them, and is otherwise as before.
pub proof fn changed_permissions_are_kept(t: Seq<Entry>, path: Seq<u8>, permissions: u16)
    requires
        distinct_names(t),
        valid_names(t),
        after_set_permissions(t, path, permissions) is Ok,
    ensures
        ({
            let u = after_set_permissions(t, path, permissions).unwrap();
            &&& position_of(t, path) is Some
            &&& position_of(u, path) matches Some(k) && u[k] == (Entry {
                permissions,
                ..t[position_of(t, path).unwrap()]
            })
        }),
{
    lemma_position(t, path, 0);
    let u = after_set_permissions(t, path, permissions).unwrap();
    let k = position_of(t, path).unwrap();
    let e = Entry { permissions, ..t[k] };
    let next = t.update(k, e);
    lemma_update_keeps(t, k, e);
    materializing_roots_the_tree(next);
    assert(next[k] == e);
    assert(next.contains(e));
    lemma_found_by_name(u, e);
}

/// Whether `e` is a directory that is made on the way to `path`: an ancestor with default permissions, or
/// the path itself with those that were asked.
pub open spec fn made_for(e: Entry, path: Seq<u8>, permissions: u16) -> bool {
    exists|k: int|
        #![trigger path.take(k)]
        1 <= k <= path.len() && ends_at(path, k) && e == (Entry {
            permissions: if k == path.len() {
                permissions
            } else {
                DEFAULT_DIRECTORY_PERMISSIONS
            },
            ..default_directory(path.take(k))
        })
}

/// Inserting directories keeps every entry, adds nothing but directories on the way to the path, and
/// leaves one there and at each of its ancestors.
#[verifier::spinoff_prover]
#[verifier::rlimit(40)]
proof fn lemma_with_directories_frame(t: Seq<Entry>, path: Seq<u8>, permissions: u16, k: int)
    requires
        1 <= k,
        distinct_names(t),
        valid_names(t),
        with_directories(t, path, permissions, k) is Ok,
    ensures
        ({
            let u = with_directories(t, path, permissions, k).unwrap();
            &&& forall|e: Entry| #[trigger] t.contains(e) ==> u.contains(e)
            &&& forall|e: Entry| #[trigger]
                u.contains(e) ==> t.contains(e) || made_for(e, path, permissions)
            &&& forall|j: int|
                #![trigger path.take(j)]
                k <= j <= path.len() && ends_at(path, j) ==> has_directory(u, path.take(j))
            &&& rooted(t) ==> rooted(u)
        }),
    decreases path.len() + 1 - k,
{
    if k <= path.len() {
        if !ends_at(path, k) {
            lemma_with_directories_frame(t, path, permissions, k + 1);
        } else {
            lemma_position(t, path.take(k), 0);
            match position_of(t, path.take(k)) {
                Some(i) => {
                    lemma_with_directories_frame(t, path, permissions, k + 1);
                    let u = with_directories(t, path, permissions, k + 1).unwrap();
                    assert(t.contains(t[i]));
                    let j = choose|j: int| 0 <= j < u.len() && u[j] == t[i];
                    assert(u[j].name == path.take(k));
                },
                None => {
                    let mode = if k == path.len() {
                        permissions
                    } else {
                        DEFAULT_DIRECTORY_PERMISSIONS
                    };
                    let e = Entry { permissions: mode, ..default_directory(path.take(k)) };
                    let pushed = t.push(e);
                    let next = with_directory(t, path.take(k), mode).unwrap();
                    lemma_with_directory_keeps(t, path.take(k), mode);
                    if rooted(t) {
                        lemma_pushed_is_rooted(t, e);
                    }
                    lemma_with_directories_frame(next, path, permissions, k + 1);
                    let u = with_directories(next, path, permissions, k + 1).unwrap();
                    assert(pushed[t.len() as int] == e);
                    assert(pushed.contains(e));
                    lemma_sorted_contains(pushed, e);
                    assert(next.contains(e));
                    assert(made_for(e, path, permissions));
                    let at = choose|at: int| 0 <= at < u.len() && u[at] == e;
                    assert(u[at].name == path.take(k));
                    assert forall|other: Entry| #[trigger] t.contains(other) implies u.contains(
                        other,
                    ) by {
                        let i = choose|i: int| 0 <= i < t.len() && t[i] == other;
                        assert(pushed[i] == other);
                        lemma_sorted_contains(pushed, other);
                        assert(next.contains(other));
                    }
                    assert forall|other: Entry| #[trigger] u.contains(other) implies t.contains(
                        other,
                    ) || made_for(other, path, permissions) by {
                        if next.contains(other) {
                            lemma_sorted_contains(pushed, other);
                            let i = choose|i: int| 0 <= i < pushed.len() && pushed[i] == other;
                            if i < t.len() {
                                assert(t[i] == other);
                            }
                        }
                    }
                },
            }
        }
    }
}

/// Directories that were created are there, the path and each of its ancestors. Those that are new have
/// default permissions, or at the path those that were asked. Every other entry stays as it is, and
/// where no parent was missing, nothing else is added.
#[verifier::spinoff_prover]
#[verifier::rlimit(40)]
pub proof fn created_directories_keep_the_rest(t: Seq<Entry>, path: Seq<u8>, permissions: u16)
    requires
        distinct_names(t),
        valid_names(t),
        after_create_dir_all(t, path, permissions) is Ok,
    ensures
        ({
            let u = after_create_dir_all(t, path, permissions).unwrap();
            &&& distinct_names(u)
            &&& ordered(u)
            &&& rooted(u)
            &&& position_of(u, path) matches Some(k) && u[k].kind == EntryKind::Directory
            &&& forall|k: int|
                #![trigger path.take(k)]
                1 <= k <= path.len() && ends_at(path, k) ==> has_directory(u, path.take(k))
            &&& forall|e: Entry| #[trigger] t.contains(e) ==> u.contains(e)
            &&& forall|e: Entry| #[trigger]
                u.contains(e) ==> t.contains(e) || made_for(e, path, permissions) || e
                    == default_directory(e.name)
            &&& forall|e: Entry| #[trigger]
                u.contains(e) ==> t.contains(e) || e.kind == EntryKind::Directory
            &&& rooted(t) ==> forall|e: Entry| #[trigger]
                u.contains(e) ==> t.contains(e) || made_for(e, path, permissions)
        }),
{
    let next = with_directories(t, path, permissions, 1).unwrap();
    let u = after_create_dir_all(t, path, permissions).unwrap();
    lemma_with_directories_keeps(t, path, permissions, 1);
    lemma_with_directories_frame(t, path, permissions, 1);
    materializing_roots_the_tree(next);
    assert forall|k: int|
        #![trigger path.take(k)]
        1 <= k <= path.len() && ends_at(path, k) implies has_directory(u, path.take(k)) by {
        assert(has_directory(next, path.take(k)));
        let j = choose|j: int|
            0 <= j < next.len() && (#[trigger] next[j]).name == path.take(k) && next[j].kind
                == EntryKind::Directory;
        assert(next.contains(next[j]));
        let m = choose|m: int| 0 <= m < u.len() && u[m] == next[j];
        assert(u[m].name == path.take(k));
    }
    let whole = path.take(path.len() as int);
    assert(whole =~= path);
    assert(ends_at(path, path.len() as int));
    assert(has_directory(u, whole));
    let at = choose|at: int|
        0 <= at < u.len() && (#[trigger] u[at]).name == path && u[at].kind == EntryKind::Directory;
    assert(u.contains(u[at]));
    lemma_found_by_name(u, u[at]);
    if rooted(t) {
        lemma_rooted_is_materialized(next);
        assert forall|e: Entry| #[trigger] u.contains(e) implies t.contains(e) || made_for(
            e,
            path,
            permissions,
        ) by {
            lemma_sorted_contains(next, e);
        }
    }
}

/// Where the directories are there, none is inserted.
proof fn lemma_directories_are_there(t: Seq<Entry>, path: Seq<u8>, permissions: u16, k: int)
    requires
        distinct_names(t),
        forall|j: int|
            #![trigger path.take(j)]
            k <= j <= path.len() && ends_at(path, j) ==> has_directory(t, path.take(j)),
    ensures
        with_directories(t, path, permissions, k) == Ok::<Seq<Entry>, FsError>(t),
    decreases path.len() + 1 - k,
{
    if k <= path.len() {
        lemma_directories_are_there(t, path, permissions, k + 1);
        if ends_at(path, k) {
            let name = path.take(k);
            assert(has_directory(t, name));
            let i = choose|i: int|
                0 <= i < t.len() && (#[trigger] t[i]).name == name && t[i].kind
                    == EntryKind::Directory;
            assert(t.contains(t[i]));
            lemma_found_by_name(t, t[i]);
        }
    }
}

/// Creating directories that were created before changes nothing, whatever permissions are asked.
pub proof fn created_directories_stay(
    t: Seq<Entry>,
    path: Seq<u8>,
    permissions: u16,
    again: u16,
)
    requires
        distinct_names(t),
        valid_names(t),
        after_create_dir_all(t, path, permissions) is Ok,
        valid_permissions(again),
    ensures
        ({
            let u = after_create_dir_all(t, path, permissions).unwrap();
            after_create_dir_all(u, path, again) == Ok::<Seq<Entry>, FsError>(u)
        }),
{
    let u = after_create_dir_all(t, path, permissions).unwrap();
    created_directories_keep_the_rest(t, path, permissions);
    lemma_with_directories_keeps(t, path, permissions, 1);
    materializing_roots_the_tree(with_directories(t, path, permissions, 1).unwrap());
    lemma_directories_are_there(u, path, again, 1);
    lemma_rooted_is_materialized(u);
    lemma_ordered_is_sorted(u);
}

/// Every entry has permissions that can be.
pub open spec fn permissions_valid(t: Seq<Entry>) -> bool {
    forall|e: Entry| #[trigger] t.contains(e) ==> valid_permissions(e.permissions)
}

/// The entries of a sound tree have permissions that can be.
proof fn lemma_permissions(t: Seq<Entry>)
    requires
        tree_fault(t, false) is None,
    ensures
        permissions_valid(t),
{
    lemma_tree_fault(t, false, 0);
    assert forall|e: Entry| #[trigger] t.contains(e) implies valid_permissions(e.permissions) by {
        let i = choose|i: int| 0 <= i < t.len() && t[i] == e;
        assert(entry_fault(t, t[i], false) is None);
    }
}

/// Where all permissions can be, no fault is about permissions that cannot.
proof fn lemma_no_permission_fault(t: Seq<Entry>, strict: bool, i: int)
    requires
        0 <= i,
        permissions_valid(t),
    ensures
        tree_fault_from(t, strict, i) != Some(FsError::InvalidPermissions),
    decreases t.len() - i,
{
    if i < t.len() {
        assert(t.contains(t[i]));
        lemma_no_permission_fault(t, strict, i + 1);
    }
}

proof fn lemma_required_errors(t: Seq<Entry>, i: int, required: Seq<Entry>)
    ensures
        required_from(t, i, required) matches Err(error) ==> error == FsError::InvalidPath,
    decreases t.len() - i,
{
    if 0 <= i < t.len() {
        lemma_required_errors(t, i + 1, add_ancestors(required, t[i].name));
    }
}

proof fn lemma_with_required_errors(t: Seq<Entry>, required: Seq<Entry>, i: int)
    ensures
        with_required(t, required, i) matches Err(error) ==> error == FsError::NotDirectory || error
            == FsError::TooManyFiles,
    decreases required.len() - i,
{
    if 0 <= i < required.len() {
        lemma_with_required_errors(t, required, i + 1);
        lemma_with_required_errors(t.push(required[i]), required, i + 1);
    }
}

/// Writing a file with permissions that can be never fails for permissions that cannot, and a write
/// that fails changes nothing that can be seen, nor a sector of the active record.
#[verifier::spinoff_prover]
pub proof fn only_the_permissions_asked_are_refused<D: BlockDevice>(
    before: CodexFs<D>,
    after: CodexFs<D>,
    path: Seq<u8>,
    data: Seq<u8>,
    permissions: u16,
    error: FsError,
)
    requires
        before.well_formed(),
        after.replaced(
            &before,
            if valid_permissions(permissions) {
                after_write(before.entries(), path, data, Some(permissions))
            } else {
                Err(FsError::InvalidPermissions)
            },
            Err(error),
        ),
    ensures
        error == FsError::InvalidPermissions <==> !valid_permissions(permissions),
        after.same_volume(&before),
        after.entries() == before.entries(),
        after.commits() == before.commits(),
        after.active_start() == before.active_start(),
        after.active_sectors() == before.active_sectors(),
        forall|i: int|
            before.active_start() <= i < before.active_start() + before.active_sectors()
                ==> #[trigger] after.disk()[i] == before.disk()[i],
{
    lemma_names(before);
    lemma_sizes(before);
    let t = before.entries();
    lemma_permissions(t);
    if valid_permissions(permissions) {
        match after_write(t, path, data, Some(permissions)) {
            Ok(u) => {
                lemma_plan_errors(before, u);
                a_written_file_holds_the_data(t, path, data, Some(permissions));
                assert(permissions_valid(u)) by {
                    let k = position_of(u, path).unwrap();
                    lemma_position(u, path, 0);
                    assert forall|e: Entry| #[trigger] u.contains(e) implies valid_permissions(
                        e.permissions,
                    ) by {
                        if e.name == path {
                            lemma_written_names(t, path, data, Some(permissions));
                            lemma_found_by_name(u, e);
                        }
                    }
                }
                lemma_no_permission_fault(u, true, 0);
                if before.plan(u) is Ok {
                    lemma_plan(before, u);
                    assert forall|i: int|
                        before.active_start() <= i < before.active_start()
                            + before.active_sectors() implies #[trigger] after.disk()[i]
                        == before.disk()[i] by {
                        assert(i >= RECORD_AREA_START);
                    }
                }
            },
            Err(_) => {
                lemma_write_errors(t, path, data, Some(permissions));
            },
        }
    }
}

/// Why a file cannot be written never has to do with permissions that cannot be.
proof fn lemma_write_errors(t: Seq<Entry>, path: Seq<u8>, data: Seq<u8>, permissions: Option<u16>)
    ensures
        after_write(t, path, data, permissions) != Err::<Seq<Entry>, FsError>(
            FsError::InvalidPermissions,
        ),
{
    if parent_fault(t, path) is None {
        let mode = written_permissions(t, path, permissions);
        match position_of(t, path) {
            Some(k) => {
                lemma_materialized_errors(
                    t.update(k, Entry { data, permissions: mode, ..t[k] }),
                );
            },
            None => {
                lemma_materialized_errors(
                    sorted(
                        t.push(
                            Entry { name: path, data, kind: EntryKind::File, permissions: mode },
                        ),
                    ),
                );
            },
        }
    }
}

proof fn lemma_materialized_errors(t: Seq<Entry>)
    ensures
        materialized(t) != Err::<Seq<Entry>, FsError>(FsError::InvalidPermissions),
{
    let empty = Seq::<Entry>::empty();
    lemma_required_errors(t, 0, empty);
    match required_from(t, 0, empty) {
        Ok(required) => lemma_with_required_errors(t, sorted(required), 0),
        Err(_) => {},
    }
}

/// What was written has distinct names.
proof fn lemma_written_names(t: Seq<Entry>, path: Seq<u8>, data: Seq<u8>, permissions: Option<u16>)
    requires
        distinct_names(t),
        valid_names(t),
        after_write(t, path, data, permissions) is Ok,
    ensures
        distinct_names(after_write(t, path, data, permissions).unwrap()),
{
    lemma_position(t, path, 0);
    let mode = written_permissions(t, path, permissions);
    match position_of(t, path) {
        Some(k) => {
            let e = Entry { data, permissions: mode, ..t[k] };
            lemma_update_keeps(t, k, e);
            materializing_roots_the_tree(t.update(k, e));
        },
        None => {
            let e = Entry { name: path, data, kind: EntryKind::File, permissions: mode };
            lemma_push_keeps(t, e);
            lemma_sorted_keeps(t.push(e));
            materializing_roots_the_tree(sorted(t.push(e)));
        },
    }
}

/// Where every entry stays and nothing but directories is added, what can be read of a file is the
/// same.
pub proof fn lemma_contents_stay(t: Seq<Entry>, u: Seq<Entry>, path: Seq<u8>)
    requires
        distinct_names(t),
        distinct_names(u),
        forall|e: Entry| #[trigger] t.contains(e) && e.name == path ==> u.contains(e),
        forall|e: Entry| #[trigger]
            u.contains(e) && e.name == path ==> t.contains(e) || e.kind == EntryKind::Directory,
    ensures
        contents_at(u, path) == contents_at(t, path),
{
    lemma_position(t, path, 0);
    lemma_position(u, path, 0);
    match position_of(t, path) {
        Some(k) => {
            assert(t.contains(t[k]));
            lemma_found_by_name(u, t[k]);
        },
        None => {
            match position_of(u, path) {
                Some(k) => {
                    assert(u.contains(u[k]));
                    if t.contains(u[k]) {
                        lemma_found_by_name(t, u[k]);
                    }
                },
                None => {},
            }
        },
    }
}

/// A file that was removed is no file any more, and every other entry stays.
pub proof fn a_removed_file_is_gone(t: Seq<Entry>, path: Seq<u8>)
    requires
        distinct_names(t),
        valid_names(t),
        after_remove_file(t, path) is Ok,
    ensures
        ({
            let u = after_remove_file(t, path).unwrap();
            &&& forall|e: Entry| #[trigger] u.contains(e) && e.name == path ==> e.kind != EntryKind::File
            &&& forall|e: Entry| #[trigger] t.contains(e) && e.name != path ==> u.contains(e)
        }),
{
    lemma_position(t, path, 0);
    let k = position_of(t, path).unwrap();
    let next = t.remove(k);
    let u = after_remove_file(t, path).unwrap();
    lemma_remove_keeps(t, k);
    materializing_roots_the_tree(next);
    assert forall|e: Entry| #[trigger] u.contains(e) && e.name == path implies e.kind
        != EntryKind::File by {
        if next.contains(e) {
            let i = choose|i: int| 0 <= i < next.len() && next[i] == e;
            let j = if i < k {
                i
            } else {
                i + 1
            };
            assert(t[j] == e);
            assert(t[j].name == t[k].name);
        }
    }
    assert forall|e: Entry| #[trigger] t.contains(e) && e.name != path implies u.contains(e) by {
        let i = choose|i: int| 0 <= i < t.len() && t[i] == e;
        assert(next[if i < k {
            i
        } else {
            i - 1
        }] == e);
        assert(next.contains(e));
    }
}

/// The slot that is chosen lies behind the superblocks, on the disk, and clear of the active record.
proof fn lemma_chosen_start(
    generation: int,
    sectors: int,
    capacity: int,
    span: int,
    slots: int,
    active_start: int,
    active_sectors: int,
    attempt: int,
)
    requires
        0 <= generation,
        0 <= span,
        0 <= attempt,
        chosen_start(
            generation,
            sectors,
            capacity,
            span,
            slots,
            active_start,
            active_sectors,
            attempt,
        ) is Ok,
    ensures
        ({
            let start = chosen_start(
                generation,
                sectors,
                capacity,
                span,
                slots,
                active_start,
                active_sectors,
                attempt,
            ).unwrap();
            &&& start >= RECORD_AREA_START
            &&& start + sectors <= capacity
            &&& active_sectors == 0 || start + sectors <= active_start || active_start
                + active_sectors <= start
        }),
    decreases slots - attempt,
{
    reveal(chosen_start);
    let slot = (generation + attempt) % slots;
    assert(slots > 0);
    assert(slot * span >= 0) by (nonlinear_arith)
        requires
            slot >= 0,
            span >= 0,
    ;
    let start = RECORD_AREA_START + slot * span;
    if start + sectors > capacity || (active_sectors != 0 && start < active_start + active_sectors
        && active_start < start + sectors) {
        lemma_chosen_start(
            generation,
            sectors,
            capacity,
            span,
            slots,
            active_start,
            active_sectors,
            attempt + 1,
        );
    }
}

/// The record of a commit lies behind the superblocks, on the disk, and clear of the active record.
pub proof fn lemma_plan<D: BlockDevice>(fs: CodexFs<D>, t: Seq<Entry>)
    requires
        fs.plan(t) is Ok,
    ensures
        ({
            let start = fs.plan(t).unwrap();
            let end = start + record_size(t) / 512;
            &&& start >= RECORD_AREA_START
            &&& end <= fs.disk().len()
            &&& fs.active_sectors() == 0 || end <= fs.active_start() || fs.active_start()
                + fs.active_sectors() <= start
        }),
{
    lemma_chosen_start(
        fs.commits() + 1,
        record_size(t) / 512,
        fs.disk().len() as int,
        fs.span() as int,
        fs.slots() as int,
        fs.active_start() as int,
        fs.active_sectors() as int,
        0,
    );
}

/// A commit, whether it succeeds or fails halfway, leaves the snapshot before it readable.
pub proof fn a_commit_spares_the_previous_snapshot<D: BlockDevice>(
    before: CodexFs<D>,
    after: CodexFs<D>,
    t: Seq<Entry>,
)
    requires
        before.anchored(),
        before.plan(t) is Ok,
        after.same_volume(&before),
        after.touched_only(&before, t),
    ensures
        snapshot_at(after.disk(), superblock_sector(before.commits() as int)) == snapshot_at(
            before.disk(),
            superblock_sector(before.commits() as int),
        ),
{
    let which = superblock_sector(before.commits() as int);
    let snapshot = snapshot_at(before.disk(), which).unwrap();
    lemma_plan(before, t);
    lemma_snapshot_is_sound(before.disk(), which);
    let superblock = decoded_superblock(before.disk()[which], before.disk().len() as int).unwrap();
    assert(superblock == snapshot.superblock);
    assert(before.disk()[which] == after.disk()[which]);
    assert forall|i: int|
        superblock.record_start <= i < superblock.record_start
            + superblock.record_sectors implies #[trigger] before.disk()[i] == after.disk()[i] by {
        assert(after.disk()[i] == before.disk()[i]);
    }
    lemma_snapshot_frame(before.disk(), after.disk(), which);
}

/// After a commit the snapshot before it is the older one.
pub proof fn a_commit_stays_up_to_date<D: BlockDevice>(
    before: CodexFs<D>,
    after: CodexFs<D>,
    t: Seq<Entry>,
)
    requires
        before.anchored(),
        after.committed(&before, t),
    ensures
        after.up_to_date(),
        snapshot_at(after.disk(), superblock_sector(after.commits() + 1)) matches Some(previous)
            && before.shows(previous),
{
    a_commit_spares_the_previous_snapshot(before, after, t);
}

/// Where the newest record is damaged after a commit, the disk falls back to the tree before it.
pub proof fn a_damaged_record_falls_back<D: BlockDevice>(
    before: CodexFs<D>,
    after: CodexFs<D>,
    t: Seq<Entry>,
    damaged: Seq<Seq<u8>>,
)
    requires
        before.anchored(),
        after.committed(&before, t),
        damaged.len() == after.disk().len(),
        forall|i: int|
            0 <= i < damaged.len() && !(after.active_start() <= i < after.active_start()
                + after.active_sectors()) ==> #[trigger] damaged[i] == after.disk()[i],
        snapshot_at(damaged, superblock_sector(after.commits() as int)) is None,
    ensures
        newest(damaged) matches Some(previous) && before.shows(previous),
{
    a_commit_spares_the_previous_snapshot(before, after, t);
    lemma_plan(before, t);
    let which = superblock_sector(before.commits() as int);
    let superblock = snapshot_at(before.disk(), which).unwrap().superblock;
    assert(damaged[which] == after.disk()[which]);
    assert forall|i: int|
        superblock.record_start <= i < superblock.record_start
            + superblock.record_sectors implies #[trigger] after.disk()[i] == damaged[i] by {
        lemma_snapshot_is_sound(before.disk(), which);
        assert(damaged[i] == after.disk()[i]);
    }
    lemma_snapshot_frame(after.disk(), damaged, which);
}

/// Mounting the disk of an up-to-date filesystem again finds its tree, and stays up to date.
pub proof fn mounting_again_finds_the_tree<D: BlockDevice>(fs: CodexFs<D>, remounted: CodexFs<D>)
    requires
        fs.anchored(),
        fs.up_to_date(),
        remounted.disk() == fs.disk(),
        newest(fs.disk()) matches Some(snapshot) ==> remounted.shows(snapshot),
    ensures
        newest(fs.disk()) is Some,
        remounted.entries() == fs.entries(),
        remounted.commits() == fs.commits(),
        remounted.anchored(),
        remounted.up_to_date(),
{
}

/// A volume that shows its newest snapshot is found again after it was unmounted: the same tree in the
/// same generation, with all that it reports, and on the way the device was flushed once and not written.
pub proof fn an_unmounted_volume_is_found_again<D: BlockDevice>(
    fs: CodexFs<D>,
    device: D,
    result: Result<CodexFs<D>, MountError<D>>,
)
    requires
        fs.well_formed(),
        fs.reliable(),
        newest(fs.disk()) matches Some(snapshot) && fs.shows(snapshot),
        unmounted(fs, Ok(device)),
        mounted(device, result),
    ensures
        result matches Ok(again) && {
            &&& again.well_formed()
            &&& again.mounted_as() is Existing
            &&& again.entries() == fs.entries()
            &&& again.commits() == fs.commits()
            &&& again.disk() == fs.disk()
            &&& again.durable() == fs.disk()
            &&& again.active_start() == fs.active_start()
            &&& again.active_sectors() == fs.active_sectors()
            &&& again.span() == fs.span()
            &&& again.slots() == fs.slots()
            &&& again.reliable()
            &&& again.traffic() == fs.traffic().and(0, 1)
        },
{
    lemma_sizes(fs);
}

/// A volume on a reliable device shows its newest snapshot when it is mounted, and so it does after every
/// commit if its own superblock leads to it.
pub proof fn a_volume_shows_its_newest_snapshot<D: BlockDevice>(
    device: D,
    fs: CodexFs<D>,
    after: CodexFs<D>,
    t: Seq<Entry>,
)
    requires
        device.reliable(),
        mounted(device, Ok(fs)),
    ensures
        newest(fs.disk()) matches Some(snapshot) && fs.shows(snapshot),
        fs.anchored() && after.committed(&fs, t) ==> after.anchored() && (newest(
            after.disk(),
        ) matches Some(snapshot) && after.shows(snapshot)),
{
    if fs.mounted_as() is Formatted {
        an_up_to_date_volume_verifies(fs);
    }
    if fs.anchored() && after.committed(&fs, t) {
        a_commit_stays_up_to_date(fs, after, t);
        an_up_to_date_volume_verifies(after);
    }
}

/// Why no place is found for a record: the next generation cannot be counted, or it fits nowhere.
proof fn lemma_chosen_start_errors(
    generation: int,
    record_sectors: int,
    capacity: int,
    span: int,
    slots: int,
    active_start: int,
    active_sectors: int,
    attempt: int,
)
    ensures
        chosen_start(
            generation,
            record_sectors,
            capacity,
            span,
            slots,
            active_start,
            active_sectors,
            attempt,
        ) matches Err(error) ==> error == FsError::ArithmeticOverflow || error
            == FsError::SnapshotTooLarge,
    decreases slots - attempt,
{
    reveal(chosen_start);
    if attempt < slots {
        lemma_chosen_start_errors(
            generation,
            record_sectors,
            capacity,
            span,
            slots,
            active_start,
            active_sectors,
            attempt + 1,
        );
    }
}

/// Why a tree cannot be committed.
pub proof fn lemma_plan_errors<D: BlockDevice>(fs: CodexFs<D>, t: Seq<Entry>)
    ensures
        fs.plan(t) matches Err(error) ==> error == FsError::ArithmeticOverflow || error
            == FsError::SnapshotTooLarge || record_fault(t) == Some(error),
{
    lemma_chosen_start_errors(
        fs.commits() + 1,
        record_size(t) / 512,
        fs.disk().len() as int,
        fs.span() as int,
        fs.slots() as int,
        fs.active_start() as int,
        fs.active_sectors() as int,
        0,
    );
}

/// A filesystem that is anchored and up to date finds its own tree when it is verified.
pub proof fn an_up_to_date_volume_verifies<D: BlockDevice>(fs: CodexFs<D>)
    requires
        fs.anchored(),
        fs.up_to_date(),
    ensures
        newest(fs.disk()) matches Some(snapshot) && fs.shows(snapshot),
{
}

/// A filesystem on a reliable device that shows the newest snapshot.
pub open spec fn settled<D: BlockDevice>(fs: CodexFs<D>) -> bool {
    fs.reliable() && fs.anchored() && fs.up_to_date()
}

/// Whether the filesystem is such that a change of the tree to `next`, if there is one, must succeed.
pub open spec fn dependable<D: BlockDevice>(
    fs: CodexFs<D>,
    next: Option<Result<Seq<Entry>, FsError>>,
) -> bool {
    &&& settled(fs)
    &&& next matches Some(next) ==> next is Ok && fs.plan(next.unwrap()) is Ok
}

/// The snapshot that the filesystem shows would outlive a loss of power: its superblock and its record
/// are durable.
pub open spec fn secured<D: BlockDevice>(fs: CodexFs<D>) -> bool {
    &&& fs.anchored()
    &&& fs.kept(superblock_sector(fs.commits() as int))
    &&& forall|i: int|
        fs.active_start() <= i < fs.active_start() + fs.active_sectors() ==> #[trigger] fs.kept(i)
}

/// The durable sectors lead to what the filesystem shows.
proof fn lemma_secured<D: BlockDevice>(fs: CodexFs<D>)
    requires
        secured(fs),
        fs.durable().len() == fs.disk().len(),
    ensures
        snapshot_at(fs.durable(), superblock_sector(fs.commits() as int)) == snapshot_at(
            fs.disk(),
            superblock_sector(fs.commits() as int),
        ),
{
    let which = superblock_sector(fs.commits() as int);
    assert forall|i: int|
        fs.active_start() <= i < fs.active_start() + fs.active_sectors() implies #[trigger] fs.disk()[i]
        == fs.durable()[i] by {
        assert(fs.kept(i));
    }
    lemma_snapshot_frame(fs.disk(), fs.durable(), which);
}

/// A loss of power at any time, in the midst of a commit too, leaves the snapshot that was shown before,
/// and after a commit the new one is the newest.
pub proof fn a_loss_of_power_leaves_a_snapshot<D: BlockDevice>(
    before: CodexFs<D>,
    after: CodexFs<D>,
    t: Seq<Entry>,
    result: Result<(), FsError>,
)
    requires
        before.well_formed(),
        secured(before),
        after.replaced(&before, Ok(t), result),
    ensures
        secured(after),
        result is Ok ==> (newest(after.durable()) matches Some(snapshot) && after.shows(snapshot)),
        snapshot_at(after.durable(), superblock_sector(before.commits() as int)) matches Some(
            snapshot,
        ) && before.shows(snapshot),
{
    let which = superblock_sector(before.commits() as int);
    lemma_sizes(before);
    lemma_secured(before);
    if before.plan(t) is Ok {
        lemma_plan(before, t);
        a_commit_spares_the_previous_snapshot(before, after, t);
        if result is Err {
            assert(after.kept(which));
            assert forall|i: int|
                after.active_start() <= i < after.active_start()
                    + after.active_sectors() implies #[trigger] after.kept(i) by {
                assert(before.kept(i));
            }
            assert(after.anchored());
            lemma_secured(after);
        } else {
            a_commit_stays_up_to_date(before, after, t);
            an_up_to_date_volume_verifies(after);
            assert(secured(after));
        }
    } else {
        assert(after.unchanged(&before));
        assert(after.anchored());
        assert(after.kept(which));
        assert forall|i: int|
            after.active_start() <= i < after.active_start()
                + after.active_sectors() implies #[trigger] after.kept(i) by {
            assert(before.kept(i));
        }
    }
}

/// The superblock of the next generation, which leads to the record of `t` with this checksum.
pub open spec fn next_superblock<D: BlockDevice>(
    before: CodexFs<D>,
    t: Seq<Entry>,
    record_crc: u32,
) -> Superblock {
    Superblock {
        generation: (before.commits() + 1) as u64,
        record_start: before.plan(t).unwrap() as u64,
        record_sectors: (record_size(t) / 512) as u32,
        record_bytes: record_size(t) as usize,
        record_crc,
        capacity_sectors: before.disk().len() as u64,
    }
}

/// Where a commit is cut short by a loss of power, and the device has written the superblock wholly or
/// not at all, the newest snapshot is the one before the commit or the one that was to be committed.
#[verifier::spinoff_prover]
#[verifier::rlimit(40)]
pub proof fn an_interrupted_commit_leaves_the_old_tree_or_the_new<D: BlockDevice>(
    before: CodexFs<D>,
    after: CodexFs<D>,
    t: Seq<Entry>,
    result: Result<(), FsError>,
)
    requires
        before.well_formed(),
        before.anchored(),
        before.durable() == before.disk(),
        decoded_superblock(
            before.disk()[superblock_sector(before.commits() + 1)],
            before.disk().len() as int,
        ) matches Ok(other) ==> other.generation < before.commits(),
        before.plan(t) is Ok,
        distinct_names(t),
        forall|i: int| 0 <= i < t.len() ==> valid_utf8((#[trigger] t[i]).name),
        after.replaced(&before, Ok(t), result),
        ({
            let next = superblock_sector(before.commits() + 1);
            let record = record_image(
                after.disk(),
                before.plan(t).unwrap(),
                record_size(t) / 512,
            );
            ||| after.durable()[next] == before.durable()[next]
            ||| superblock_of(
                after.durable()[next],
                next_superblock(before, t, crc32_of(record)),
            )
        }),
    ensures
        newest(after.durable()) matches Some(snapshot) && (before.shows(snapshot) || snapshot.entries
            == t && snapshot.superblock.generation == before.commits() + 1),
{
    let which = superblock_sector(before.commits() as int);
    let next = superblock_sector(before.commits() + 1);
    lemma_sizes(before);
    assert(secured(before));
    a_loss_of_power_leaves_a_snapshot(before, after, t, result);
    if result is Err {
        let start = before.plan(t).unwrap();
        let count = record_size(t) / 512;
        lemma_plan(before, t);
        let record = record_image(after.disk(), start, count);
        assert(before.kept(next));
        if after.durable()[next] != before.durable()[next] {
            let superblock = next_superblock(before, t, crc32_of(record));
            assert(record_image(after.durable(), start, count) =~= record) by {
                assert forall|i: int| 0 <= i < count * 512 implies #[trigger] record_image(
                    after.durable(),
                    start,
                    count,
                )[i] == record[i] by {
                    assert(after.kept(start + i / 512));
                }
            }
            lemma_record_size(t);
            superblock_round_trip(
                after.durable()[next],
                superblock,
                after.durable().len() as int,
            );
            record_round_trip(record, superblock.generation, t);
        }
    }
}

proof fn lemma_record_size(t: Seq<Entry>)
    requires
        record_fault(t) is None,
    ensures
        record_size(t) % 512 == 0,
        32768 <= record_size(t) <= 4194304,
{
}

/// What can be read of a file that was written is what was written, if its owner may read it: with the
/// permissions that were asked, or else those that it had, or else 0o644.
pub proof fn a_written_file_is_read_back(
    t: Seq<Entry>,
    path: Seq<u8>,
    data: Seq<u8>,
    permissions: Option<u16>,
    other: Seq<u8>,
)
    requires
        distinct_names(t),
        valid_names(t),
        after_write(t, path, data, permissions) is Ok,
        other != path,
    ensures
        ({
            let u = after_write(t, path, data, permissions).unwrap();
            let mode = match permissions {
                Some(mode) => mode,
                None => match position_of(t, path) {
                    Some(k) => t[k].permissions,
                    None => 0o644,
                },
            };
            &&& contents_at(u, path) == if mode & 0o400 != 0 {
                Some(data)
            } else {
                None
            }
            &&& contents_at(u, other) == contents_at(t, other)
        }),
{
    let u = after_write(t, path, data, permissions).unwrap();
    a_written_file_holds_the_data(t, path, data, permissions);
    lemma_written_names(t, path, data, permissions);
    lemma_contents_stay(t, u, other);
}

/// A directory of the tree that a path stands in, and in which its owner may make entries.
pub open spec fn open_parent(t: Seq<Entry>, path: Seq<u8>, dir: Entry) -> bool {
    &&& t.contains(dir)
    &&& dir.kind == EntryKind::Directory
    &&& directly_below(path, dir.name)
    &&& dir.permissions & 0o100 != 0
    &&& dir.permissions & 0o200 != 0
}

/// Whether a path stands in the root, or in a directory in which entries may be made.
pub open spec fn has_open_parent(t: Seq<Entry>, path: Seq<u8>) -> bool {
    directly_below(path, seq![0x2fu8]) || exists|dir: Entry| #[trigger] open_parent(t, path, dir)
}

/// A path has a usable parent if and only if it stands in the root or in an open directory.
pub proof fn lemma_open_parent(t: Seq<Entry>, path: Seq<u8>)
    requires
        distinct_names(t),
        valid_names(t),
        valid_path(path),
    ensures
        parent_fault(t, path) is None <==> has_open_parent(t, path),
{
    let parent = parent_of(path);
    parent_is_a_path(path);
    assert(root() =~= seq![0x2fu8]);
    the_parent_is_the_directory_above(path, root());
    if parent != root() {
        the_parent_is_the_directory_above(path, parent);
        lemma_position(t, parent, 0);
        if parent_fault(t, path) is None {
            let k = position_of(t, parent).unwrap();
            assert(t.contains(t[k]));
            assert(open_parent(t, path, t[k]));
        }
        if exists|dir: Entry| #[trigger] open_parent(t, path, dir) {
            let dir = choose|dir: Entry| #[trigger] open_parent(t, path, dir);
            let k = choose|k: int| 0 <= k < t.len() && t[k] == dir;
            assert(valid_path(t[k].name));
            the_parent_is_the_directory_above(path, dir.name);
            lemma_found_by_name(t, dir);
        }
    }
}

/// A file can be written if and only if its path is one, it stands in the root or in a directory in which
/// entries may be made, and it is a file that may be written, or there is nothing and room for one more.
pub proof fn a_file_can_be_written_where_it_may(
    t: Seq<Entry>,
    path: Seq<u8>,
    data: Seq<u8>,
    permissions: Option<u16>,
)
    requires
        distinct_names(t),
        valid_names(t),
        rooted(t),
    ensures
        after_write(t, path, data, permissions) is Ok <==> {
            &&& valid_path(path)
            &&& has_open_parent(t, path)
            &&& forall|e: Entry| #[trigger]
                t.contains(e) && e.name == path ==> e.kind == EntryKind::File && e.permissions
                    & 0o200 != 0
            &&& (forall|e: Entry| #[trigger] t.contains(e) ==> e.name != path) ==> t.len() < 128
        },
{
    if valid_path(path) {
        lemma_open_parent(t, path);
        lemma_position(t, path, 0);
        let mode = written_permissions(t, path, permissions);
        match position_of(t, path) {
            Some(k) => {
                assert(t.contains(t[k]));
                assert forall|e: Entry| #[trigger] t.contains(e) && e.name == path implies e == t[k] by {
                    lemma_found_by_name(t, e);
                }
                if parent_fault(t, path) is None && t[k].kind == EntryKind::File {
                    let e = Entry { data, permissions: mode, ..t[k] };
                    let next = t.update(k, e);
                    lemma_update_keeps(t, k, e);
                    assert forall|d: Entry| #[trigger] t.contains(d) && d.kind
                        == EntryKind::Directory implies has_directory(next, d.name) by {
                        let i = choose|i: int| 0 <= i < t.len() && t[i] == d;
                        assert(i != k);
                        assert(next[i] == d);
                    }
                    assert forall|i: int| 0 <= i < next.len() implies (#[trigger] next[i]).name == path
                        || t.contains(next[i]) by {
                        if i != k {
                            assert(t[i] == next[i]);
                        }
                    }
                    lemma_stays_rooted(t, next, path);
                    lemma_rooted_is_materialized(next);
                }
            },
            None => {
                assert forall|e: Entry| #[trigger] t.contains(e) implies e.name != path by {
                    let i = choose|i: int| 0 <= i < t.len() && t[i] == e;
                    assert(t[i].name != path);
                }
                if parent_fault(t, path) is None {
                    let e = Entry { name: path, data, kind: EntryKind::File, permissions: mode };
                    lemma_push_keeps(t, e);
                    lemma_sorted_keeps(t.push(e));
                    lemma_pushed_is_rooted(t, e);
                    lemma_rooted_is_materialized(sorted(t.push(e)));
                }
            },
        }
    }
}

/// What is left of a tree without an entry on which no other stands still has every parent.
proof fn lemma_removed_is_rooted(t: Seq<Entry>, k: int)
    requires
        distinct_names(t),
        valid_names(t),
        rooted(t),
        0 <= k < t.len(),
        t[k].kind == EntryKind::File || forall|i: int|
            0 <= i < t.len() ==> parent_of(#[trigger] t[i].name) != t[k].name,
    ensures
        rooted(t.remove(k)),
{
    let next = t.remove(k);
    assert forall|i: int| 0 <= i < next.len() implies parent_of(#[trigger] next[i].name) == root()
        || has_directory(next, parent_of(next[i].name)) by {
        let j = if i < k {
            i
        } else {
            i + 1
        };
        assert(next[i] == t[j]);
        let parent = parent_of(t[j].name);
        if parent != root() {
            assert(has_directory(t, parent));
            let m = choose|m: int|
                0 <= m < t.len() && (#[trigger] t[m]).name == parent && t[m].kind
                    == EntryKind::Directory;
            assert(m != k);
            assert(next[if m < k {
                m
            } else {
                m - 1
            }] == t[m]);
        }
    }
}

/// What is left of a tree without an entry is sorted and otherwise the same.
proof fn lemma_removed(t: Seq<Entry>, k: int)
    requires
        distinct_names(t),
        valid_names(t),
        0 <= k < t.len(),
    ensures
        forall|e: Entry| #[trigger]
            sorted(t.remove(k)).contains(e) <==> t.contains(e) && e.name != t[k].name,
{
    let next = t.remove(k);
    assert forall|e: Entry| #[trigger] sorted(next).contains(e) <==> t.contains(e) && e.name
        != t[k].name by {
        lemma_sorted_contains(next, e);
        if next.contains(e) {
            let i = choose|i: int| 0 <= i < next.len() && next[i] == e;
            let j = if i < k {
                i
            } else {
                i + 1
            };
            assert(t[j] == e);
            if j < k {
                assert(t[j].name != t[k].name);
            } else {
                assert(t[k].name != t[j].name);
            }
        }
        if t.contains(e) && e.name != t[k].name {
            let j = choose|j: int| 0 <= j < t.len() && t[j] == e;
            assert(next[if j < k {
                j
            } else {
                j - 1
            }] == e);
        }
    }
}

/// A file can be removed if and only if it is there and may be written; then it is gone, and nothing else
/// is.
pub proof fn a_file_that_may_be_written_can_be_removed(t: Seq<Entry>, path: Seq<u8>)
    requires
        distinct_names(t),
        valid_names(t),
        rooted(t),
    ensures
        after_remove_file(t, path) is Ok <==> exists|e: Entry| #[trigger]
            t.contains(e) && e.name == path && e.kind == EntryKind::File && e.permissions & 0o200
                != 0,
        after_remove_file(t, path) matches Ok(u) ==> forall|e: Entry| #[trigger]
            u.contains(e) <==> t.contains(e) && e.name != path,
{
    lemma_position(t, path, 0);
    match position_of(t, path) {
        Some(k) => {
            assert(t.contains(t[k]));
            assert(valid_path(t[k].name));
            if t[k].kind == EntryKind::File {
                lemma_remove_keeps(t, k);
                lemma_removed_is_rooted(t, k);
                lemma_rooted_is_materialized(t.remove(k));
                lemma_removed(t, k);
            }
            if exists|e: Entry| #[trigger]
                t.contains(e) && e.name == path && e.kind == EntryKind::File && e.permissions & 0o200
                    != 0 {
                let e = choose|e: Entry| #[trigger]
                    t.contains(e) && e.name == path && e.kind == EntryKind::File && e.permissions
                        & 0o200 != 0;
                lemma_found_by_name(t, e);
            }
        },
        None => {
            assert forall|e: Entry| #[trigger] t.contains(e) implies e.name != path by {
                let i = choose|i: int| 0 <= i < t.len() && t[i] == e;
                assert(t[i].name != path);
            }
        },
    }
}

/// A directory can be removed if and only if it is there, may be written, and nothing stands in it; then
/// it is gone, and nothing else is.
pub proof fn an_empty_directory_can_be_removed(t: Seq<Entry>, path: Seq<u8>)
    requires
        distinct_names(t),
        valid_names(t),
        rooted(t),
    ensures
        after_remove_dir(t, path) is Ok <==> (exists|e: Entry| #[trigger]
            t.contains(e) && e.name == path && e.kind == EntryKind::Directory && e.permissions & 0o200
                != 0) && forall|e: Entry| #[trigger] t.contains(e) ==> !directly_below(e.name, path),
        after_remove_dir(t, path) matches Ok(u) ==> forall|e: Entry| #[trigger]
            u.contains(e) <==> t.contains(e) && e.name != path,
{
    lemma_position(t, path, 0);
    match position_of(t, path) {
        Some(k) => {
            assert(t.contains(t[k]));
            assert(valid_path(t[k].name));
            assert forall|i: int| 0 <= i < t.len() implies (parent_of(#[trigger] t[i].name) == path
                <==> directly_below(t[i].name, path)) by {
                assert(valid_path(t[i].name));
                the_parent_is_the_directory_above(t[i].name, path);
            }
            if occupied(t, path) {
                let i = choose|i: int| 0 <= i < t.len() && parent_of(#[trigger] t[i].name) == path;
                assert(t.contains(t[i]));
            } else {
                assert forall|e: Entry| #[trigger] t.contains(e) implies !directly_below(
                    e.name,
                    path,
                ) by {
                    let i = choose|i: int| 0 <= i < t.len() && t[i] == e;
                    assert(parent_of(t[i].name) != path);
                }
                lemma_remove_keeps(t, k);
                lemma_removed_is_rooted(t, k);
                lemma_rooted_is_materialized(t.remove(k));
                lemma_removed(t, k);
            }
            if exists|e: Entry| #[trigger]
                t.contains(e) && e.name == path && e.kind == EntryKind::Directory && e.permissions
                    & 0o200 != 0 {
                let e = choose|e: Entry| #[trigger]
                    t.contains(e) && e.name == path && e.kind == EntryKind::Directory && e.permissions
                        & 0o200 != 0;
                lemma_found_by_name(t, e);
            }
        },
        None => {
            assert forall|e: Entry| #[trigger] t.contains(e) implies e.name != path by {
                let i = choose|i: int| 0 <= i < t.len() && t[i] == e;
                assert(t[i].name != path);
            }
        },
    }
}

/// The permissions of an entry can be changed if and only if it is there and they can be; then the entry
/// has them, and everything else is as it was.
pub proof fn permissions_can_be_changed_where_an_entry_is(
    t: Seq<Entry>,
    path: Seq<u8>,
    permissions: u16,
)
    requires
        distinct_names(t),
        valid_names(t),
        rooted(t),
    ensures
        after_set_permissions(t, path, permissions) is Ok <==> permissions <= 0o777 && exists|e: Entry|
            #[trigger] t.contains(e) && e.name == path,
        after_set_permissions(t, path, permissions) matches Ok(u) ==> forall|e: Entry| #[trigger]
            u.contains(e) <==> (e.name != path && t.contains(e)) || (e.name == path
                && exists|old: Entry| #[trigger]
                t.contains(old) && old.name == path && e == (Entry { permissions, ..old })),
{
    lemma_position(t, path, 0);
    match position_of(t, path) {
        Some(k) => {
            assert(t.contains(t[k]));
            assert(valid_path(t[k].name));
            let e = Entry { permissions, ..t[k] };
            let next = t.update(k, e);
            lemma_update_keeps(t, k, e);
            assert forall|i: int| 0 <= i < next.len() implies parent_of(#[trigger] next[i].name) == root()
                || has_directory(next, parent_of(next[i].name)) by {
                assert(next[i].name == t[i].name);
                let parent = parent_of(t[i].name);
                if parent != root() {
                    assert(has_directory(t, parent));
                    let m = choose|m: int|
                        0 <= m < t.len() && (#[trigger] t[m]).name == parent && t[m].kind
                            == EntryKind::Directory;
                    assert(next[m].name == parent && next[m].kind == EntryKind::Directory);
                }
            }
            lemma_rooted_is_materialized(next);
            assert forall|x: Entry| #[trigger] sorted(next).contains(x) <==> (x.name != path
                && t.contains(x)) || (x.name == path && exists|old: Entry| #[trigger]
                t.contains(old) && old.name == path && x == (Entry { permissions, ..old })) by {
                lemma_sorted_contains(next, x);
                if next.contains(x) {
                    let i = choose|i: int| 0 <= i < next.len() && next[i] == x;
                    if i != k {
                        assert(t[i] == x);
                        if i < k {
                            assert(t[i].name != t[k].name);
                        } else {
                            assert(t[k].name != t[i].name);
                        }
                    }
                }
                if x.name != path && t.contains(x) {
                    let i = choose|i: int| 0 <= i < t.len() && t[i] == x;
                    assert(next[i] == x);
                }
                if x.name == path && exists|old: Entry| #[trigger]
                    t.contains(old) && old.name == path && x == (Entry { permissions, ..old }) {
                    let old = choose|old: Entry| #[trigger]
                        t.contains(old) && old.name == path && x == (Entry { permissions, ..old });
                    lemma_found_by_name(t, old);
                    assert(next[k] == x);
                }
            }
        },
        None => {
            assert forall|e: Entry| #[trigger] t.contains(e) implies e.name != path by {
                let i = choose|i: int| 0 <= i < t.len() && t[i] == e;
                assert(t[i].name != path);
            }
        },
    }
}

} // verus!
