//! Rules of the tree: which entries may stand in it, and what each change makes of it.

use vstd::prelude::*;
use vstd::utf8::encode_utf8;
use crate::fs::entry::{
    default_directory, distinct_names, find, lemma_position, lemma_split_at_slash, position_of,
    sort_entries, sorted, sorting_keeps_the_entries, ordered, sorting_orders_the_entries, tree,
    Entry, EntryKind, FileEntry, FsError, DEFAULT_DIRECTORY_PERMISSIONS, DEFAULT_FILE_PERMISSIONS,
    MAX_FILES, OWNER_EXECUTE, OWNER_READ, OWNER_WRITE,
};
use crate::fs::path::{
    ends_at, find_last_slash, is_valid_path, last_slash, lemma_before_irreflexive, lemma_last_slash,
    parent_is_a_path, parent_of, parent_slice, root, valid_path,
};

verus! {

/// Success, or the fault that prevents it.
pub open spec fn outcome(fault: Option<FsError>) -> Result<(), FsError> {
    match fault {
        Some(error) => Err(error),
        None => Ok(()),
    }
}

/// Permissions are nine bits.
pub open spec fn valid_permissions(permissions: u16) -> bool {
    permissions <= 0o777
}

/// The owner may write the entry.
pub open spec fn writable(e: Entry) -> bool {
    e.permissions & OWNER_WRITE != 0
}

/// The owner may read the entry.
pub open spec fn readable(e: Entry) -> bool {
    e.permissions & OWNER_READ != 0
}

/// The owner may enter the directory.
pub open spec fn searchable(e: Entry) -> bool {
    e.permissions & OWNER_EXECUTE != 0
}

/// What can be read of the file at `path`.
pub open spec fn contents_at(t: Seq<Entry>, path: Seq<u8>) -> Option<Seq<u8>> {
    match position_of(t, path) {
        Some(k) => if t[k].kind == EntryKind::File && readable(t[k]) {
            Some(t[k].data)
        } else {
            None
        },
        None => None,
    }
}

/// Why `path` cannot get an entry for want of a usable parent directory.
pub open spec fn parent_fault(t: Seq<Entry>, path: Seq<u8>) -> Option<FsError> {
    if !valid_path(path) {
        Some(FsError::InvalidPath)
    } else if parent_of(path) == root() {
        None
    } else {
        match position_of(t, parent_of(path)) {
            None => Some(FsError::ParentMissing),
            Some(k) => if t[k].kind != EntryKind::Directory {
                Some(FsError::NotDirectory)
            } else if !searchable(t[k]) || !writable(t[k]) {
                Some(FsError::PermissionDenied)
            } else {
                None
            },
        }
    }
}

/// Why `e` may not stand in `t`; parents count only where `strict`.
pub open spec fn entry_fault(t: Seq<Entry>, e: Entry, strict: bool) -> Option<FsError> {
    if !valid_path(e.name) {
        Some(FsError::InvalidPath)
    } else if !valid_permissions(e.permissions) {
        Some(FsError::InvalidPermissions)
    } else if e.kind == EntryKind::Directory && e.data.len() != 0 {
        Some(FsError::CorruptRecord)
    } else if e.kind == EntryKind::Directory && !searchable(e) {
        Some(FsError::PermissionDenied)
    } else if strict {
        parent_fault(t, e.name)
    } else {
        None
    }
}

/// The first fault among the entries of `t` from `i` on.
pub open spec fn tree_fault_from(t: Seq<Entry>, strict: bool, i: int) -> Option<FsError>
    decreases t.len() - i,
{
    if i < 0 || i >= t.len() {
        None
    } else if entry_fault(t, t[i], strict) is Some {
        entry_fault(t, t[i], strict)
    } else {
        tree_fault_from(t, strict, i + 1)
    }
}

/// The first fault of the tree.
pub open spec fn tree_fault(t: Seq<Entry>, strict: bool) -> Option<FsError> {
    tree_fault_from(t, strict, 0)
}

/// A faultless tree has no faulty entry.
pub proof fn lemma_tree_fault(t: Seq<Entry>, strict: bool, i: int)
    requires
        0 <= i,
        tree_fault_from(t, strict, i) is None,
    ensures
        forall|j: int| i <= j < t.len() ==> entry_fault(t, #[trigger] t[j], strict) is None,
    decreases t.len() - i,
{
    if i < t.len() {
        lemma_tree_fault(t, strict, i + 1);
    }
}

/// A tree without a faulty entry is faultless.
pub proof fn lemma_no_entry_fault(t: Seq<Entry>, strict: bool, i: int)
    requires
        0 <= i,
        forall|j: int| i <= j < t.len() ==> entry_fault(t, #[trigger] t[j], strict) is None,
    ensures
        tree_fault_from(t, strict, i) is None,
    decreases t.len() - i,
{
    if i < t.len() {
        lemma_no_entry_fault(t, strict, i + 1);
    }
}

/// A tree without a fault has none where parents do not count.
pub proof fn lemma_strict_is_stricter(t: Seq<Entry>, i: int)
    requires
        tree_fault_from(t, true, i) is None,
    ensures
        tree_fault_from(t, false, i) is None,
    decreases t.len() - i,
{
    if 0 <= i < t.len() {
        lemma_strict_is_stricter(t, i + 1);
    }
}

/// `required` with a default directory for each ancestor of `path` that it lacks.
pub open spec fn add_ancestors(required: Seq<Entry>, path: Seq<u8>) -> Seq<Entry>
    decreases path.len(),
{
    let parent = parent_of(path);
    if parent == root() || parent.len() >= path.len() {
        required
    } else if position_of(required, parent) is Some {
        add_ancestors(required, parent)
    } else {
        add_ancestors(required.push(default_directory(parent)), parent)
    }
}

/// `required` with the ancestors of the entries of `t` from `i` on.
pub open spec fn required_from(t: Seq<Entry>, i: int, required: Seq<Entry>) -> Result<
    Seq<Entry>,
    FsError,
>
    decreases t.len() - i,
{
    if i < 0 || i >= t.len() {
        Ok(required)
    } else if !valid_path(t[i].name) {
        Err(FsError::InvalidPath)
    } else {
        required_from(t, i + 1, add_ancestors(required, t[i].name))
    }
}

/// `t` with those directories of `required` from `i` on that it lacks.
pub open spec fn with_required(t: Seq<Entry>, required: Seq<Entry>, i: int) -> Result<
    Seq<Entry>,
    FsError,
>
    decreases required.len() - i,
{
    if i < 0 || i >= required.len() {
        Ok(t)
    } else {
        match position_of(t, required[i].name) {
            Some(k) => if t[k].kind != EntryKind::Directory {
                Err(FsError::NotDirectory)
            } else {
                with_required(t, required, i + 1)
            },
            None => if t.len() >= MAX_FILES {
                Err(FsError::TooManyFiles)
            } else {
                with_required(t.push(required[i]), required, i + 1)
            },
        }
    }
}

/// `t`, sorted, with a default directory for every ancestor that has no entry.
pub open spec fn materialized(t: Seq<Entry>) -> Result<Seq<Entry>, FsError> {
    match required_from(t, 0, Seq::empty()) {
        Err(error) => Err(error),
        Ok(required) => match with_required(t, sorted(required), 0) {
            Err(error) => Err(error),
            Ok(full) => Ok(sorted(full)),
        },
    }
}

/// `t` with a directory at `path` that has these permissions.
pub open spec fn with_directory(t: Seq<Entry>, path: Seq<u8>, permissions: u16) -> Result<
    Seq<Entry>,
    FsError,
> {
    match parent_fault(t, path) {
        Some(error) => Err(error),
        None => match position_of(t, path) {
            Some(k) => if t[k].kind != EntryKind::Directory {
                Err(FsError::NotDirectory)
            } else {
                Ok(t.update(k, Entry { permissions, ..t[k] }))
            },
            None => if t.len() >= MAX_FILES {
                Err(FsError::TooManyFiles)
            } else {
                Ok(sorted(t.push(Entry { permissions, ..default_directory(path) })))
            },
        },
    }
}

/// `t` with a directory at `path` and at each of its ancestors that end at `k` or later.
pub open spec fn with_directories(t: Seq<Entry>, path: Seq<u8>, permissions: u16, k: int) -> Result<
    Seq<Entry>,
    FsError,
>
    decreases path.len() + 1 - k,
{
    if k > path.len() {
        Ok(t)
    } else if !ends_at(path, k) {
        with_directories(t, path, permissions, k + 1)
    } else {
        let mode = if k == path.len() {
            permissions
        } else {
            DEFAULT_DIRECTORY_PERMISSIONS
        };
        match position_of(t, path.take(k)) {
            Some(i) => if t[i].kind != EntryKind::Directory {
                Err(FsError::NotDirectory)
            } else {
                with_directories(t, path, permissions, k + 1)
            },
            None => match with_directory(t, path.take(k), mode) {
                Err(error) => Err(error),
                Ok(next) => with_directories(next, path, permissions, k + 1),
            },
        }
    }
}

/// The tree after one step, materialised.
pub open spec fn then_materialized(step: Result<Seq<Entry>, FsError>) -> Result<Seq<Entry>, FsError> {
    match step {
        Err(error) => Err(error),
        Ok(t) => materialized(t),
    }
}

/// What writing `data` to the file at `path` makes of the tree.
pub open spec fn after_write(
    t: Seq<Entry>,
    path: Seq<u8>,
    data: Seq<u8>,
    permissions: Option<u16>,
) -> Result<Seq<Entry>, FsError> {
    match parent_fault(t, path) {
        Some(error) => Err(error),
        None => match position_of(t, path) {
            Some(k) => if t[k].kind != EntryKind::File {
                Err(FsError::IsDirectory)
            } else if !writable(t[k]) {
                Err(FsError::PermissionDenied)
            } else {
                materialized(
                    t.update(
                        k,
                        Entry {
                            data,
                            permissions: match permissions {
                                Some(permissions) => permissions,
                                None => t[k].permissions,
                            },
                            ..t[k]
                        },
                    ),
                )
            },
            None => if t.len() >= MAX_FILES {
                Err(FsError::TooManyFiles)
            } else {
                materialized(
                    sorted(
                        t.push(
                            Entry {
                                name: path,
                                data,
                                kind: EntryKind::File,
                                permissions: match permissions {
                                    Some(permissions) => permissions,
                                    None => DEFAULT_FILE_PERMISSIONS,
                                },
                            },
                        ),
                    ),
                )
            },
        },
    }
}

/// The fault of a path or of permissions, in that order.
pub open spec fn request_fault(path: Seq<u8>, permissions: u16) -> Option<FsError> {
    if !valid_path(path) {
        Some(FsError::InvalidPath)
    } else if !valid_permissions(permissions) {
        Some(FsError::InvalidPermissions)
    } else {
        None
    }
}

/// What creating the directory at `path` makes of the tree.
pub open spec fn after_create_dir(t: Seq<Entry>, path: Seq<u8>, permissions: u16) -> Result<
    Seq<Entry>,
    FsError,
> {
    match request_fault(path, permissions) {
        Some(error) => Err(error),
        None => then_materialized(with_directory(t, path, permissions)),
    }
}

/// What creating the directory at `path` and its missing ancestors makes of the tree.
pub open spec fn after_create_dir_all(t: Seq<Entry>, path: Seq<u8>, permissions: u16) -> Result<
    Seq<Entry>,
    FsError,
> {
    match request_fault(path, permissions) {
        Some(error) => Err(error),
        None => then_materialized(with_directories(t, path, permissions, 1)),
    }
}

/// What changing the permissions at `path` makes of the tree.
pub open spec fn after_set_permissions(t: Seq<Entry>, path: Seq<u8>, permissions: u16) -> Result<
    Seq<Entry>,
    FsError,
> {
    match request_fault(path, permissions) {
        Some(error) => Err(error),
        None => match position_of(t, path) {
            None => Err(FsError::NotFound),
            Some(k) => materialized(t.update(k, Entry { permissions, ..t[k] })),
        },
    }
}

/// What removing the file at `path` makes of the tree.
pub open spec fn after_remove_file(t: Seq<Entry>, path: Seq<u8>) -> Result<Seq<Entry>, FsError> {
    if !valid_path(path) {
        Err(FsError::InvalidPath)
    } else {
        match position_of(t, path) {
            None => Err(FsError::NotFound),
            Some(k) => if t[k].kind != EntryKind::File {
                Err(FsError::IsDirectory)
            } else if !writable(t[k]) {
                Err(FsError::PermissionDenied)
            } else {
                materialized(t.remove(k))
            },
        }
    }
}

/// Whether some entry of `t` stands in the directory at `path`.
pub open spec fn occupied(t: Seq<Entry>, path: Seq<u8>) -> bool {
    exists|i: int| 0 <= i < t.len() && parent_of(#[trigger] t[i].name) == path
}

/// What removing the directory at `path` makes of the tree.
pub open spec fn after_remove_dir(t: Seq<Entry>, path: Seq<u8>) -> Result<Seq<Entry>, FsError> {
    if !valid_path(path) {
        Err(FsError::InvalidPath)
    } else {
        match position_of(t, path) {
            None => Err(FsError::NotFound),
            Some(k) => if t[k].kind != EntryKind::Directory {
                Err(FsError::NotDirectory)
            } else if !writable(t[k]) {
                Err(FsError::PermissionDenied)
            } else if occupied(t, path) {
                Err(FsError::DirectoryNotEmpty)
            } else {
                materialized(t.remove(k))
            },
        }
    }
}

/// Every path of the tree is valid.
pub open spec fn valid_names(t: Seq<Entry>) -> bool {
    forall|i: int| 0 <= i < t.len() ==> valid_path(#[trigger] t[i].name)
}

/// Refuses what is no absolute, unambiguous path.
pub fn validate_path(path: &str) -> (result: Result<(), FsError>)
    ensures
        valid_path(encode_utf8(path@)) ==> result == Ok::<(), FsError>(()),
        !valid_path(encode_utf8(path@)) ==> result == Err::<(), FsError>(FsError::InvalidPath),
{
    if is_valid_path(path.as_bytes()) {
        Ok(())
    } else {
        Err(FsError::InvalidPath)
    }
}

/// Refuses what is more than nine permission bits.
pub fn validate_permissions(permissions: u16) -> (result: Result<(), FsError>)
    ensures
        valid_permissions(permissions) ==> result == Ok::<(), FsError>(()),
        !valid_permissions(permissions) ==> result == Err::<(), FsError>(FsError::InvalidPermissions),
{
    if permissions > 0o777 {
        return Err(FsError::InvalidPermissions);
    }
    Ok(())
}

/// Refuses a path whose parent is no directory that may be written.
pub fn ensure_parent_directory(entries: &[FileEntry], path: &[u8]) -> (result: Result<(), FsError>)
    ensures
        result == outcome(parent_fault(tree(entries@), path@)),
{
    if !is_valid_path(path) {
        return Err(FsError::InvalidPath);
    }
    let parent = parent_slice(path);
    proof {
        parent_is_a_path(path@);
        assert(root().len() == 1);
    }
    if parent.len() == 1 {
        return Ok(());
    }
    match find(entries, parent) {
        None => Err(FsError::ParentMissing),
        Some(k) => {
            assert(tree(entries@)[k as int] == entries@[k as int]@);
            if entries[k].kind != EntryKind::Directory {
                return Err(FsError::NotDirectory);
            }
            if entries[k].permissions & OWNER_EXECUTE == 0 || entries[k].permissions & OWNER_WRITE
                == 0 {
                return Err(FsError::PermissionDenied);
            }
            Ok(())
        },
    }
}

/// Refuses a tree that holds what may not stand in it.
pub fn validate_tree(files: &[FileEntry], require_directories: bool) -> (result: Result<
    (),
    FsError,
>)
    ensures
        result == outcome(tree_fault(tree(files@), require_directories)),
{
    let mut i: usize = 0;
    while i < files.len()
        invariant
            i <= files@.len(),
            tree_fault(tree(files@), require_directories) == tree_fault_from(
                tree(files@),
                require_directories,
                i as int,
            ),
        decreases files@.len() - i,
    {
        let entry = &files[i];
        assert(tree(files@)[i as int] == entry@);
        if !is_valid_path(entry.path_bytes()) {
            return Err(FsError::InvalidPath);
        }
        if entry.permissions > 0o777 {
            return Err(FsError::InvalidPermissions);
        }
        if entry.kind == EntryKind::Directory && entry.data.len() != 0 {
            return Err(FsError::CorruptRecord);
        }
        if entry.kind == EntryKind::Directory && entry.permissions & OWNER_EXECUTE == 0 {
            return Err(FsError::PermissionDenied);
        }
        if require_directories {
            match ensure_parent_directory(files, entry.path_bytes()) {
                Ok(_) => {},
                Err(error) => return Err(error),
            }
        }
        i += 1;
    }
    Ok(())
}

/// A directory at `path`.
fn directory_entry(path: &str, permissions: u16) -> (entry: FileEntry)
    ensures
        entry@ == (Entry { permissions, ..default_directory(encode_utf8(path@)) }),
{
    let entry = FileEntry {
        name: path.to_owned(),
        data: Vec::new(),
        kind: EntryKind::Directory,
        permissions,
    };
    assert(entry@ =~= (Entry { permissions, ..default_directory(encode_utf8(path@)) }));
    entry
}

proof fn lemma_tree_push(files: Seq<FileEntry>, e: FileEntry)
    ensures
        tree(files.push(e)) == tree(files).push(e@),
{
    assert(tree(files.push(e)) =~= tree(files).push(e@));
}

/// Puts a directory at `path`, or gives the one that is there these permissions.
pub fn insert_directory(entries: &mut Vec<FileEntry>, path: &str, permissions: u16) -> (result:
    Result<(), FsError>)
    ensures
        match with_directory(tree(old(entries)@), encode_utf8(path@), permissions) {
            Ok(t) => result is Ok && tree(final(entries)@) == t,
            Err(error) => result == Err::<(), FsError>(error) && tree(final(entries)@) == tree(
                old(entries)@,
            ),
        },
{
    match ensure_parent_directory(entries, path.as_bytes()) {
        Ok(_) => {},
        Err(error) => return Err(error),
    }
    match find(entries, path.as_bytes()) {
        Some(k) => {
            assert(tree(entries@)[k as int] == entries@[k as int]@);
            if entries[k].kind != EntryKind::Directory {
                return Err(FsError::NotDirectory);
            }
            let ghost t = tree(entries@);
            entries[k].permissions = permissions;
            assert(tree(entries@) =~= t.update(k as int, Entry { permissions, ..t[k as int] }));
            Ok(())
        },
        None => {
            if entries.len() >= MAX_FILES {
                return Err(FsError::TooManyFiles);
            }
            let entry = directory_entry(path, permissions);
            proof {
                lemma_tree_push(entries@, entry);
            }
            entries.push(entry);
            sort_entries(entries);
            Ok(())
        },
    }
}

/// Adds the directories that some entry stands in and that have no entry themselves.
pub fn materialize_missing_parent_directories(entries: &mut Vec<FileEntry>) -> (result: Result<
    (),
    FsError,
>)
    ensures
        match materialized(tree(old(entries)@)) {
            Ok(t) => result is Ok && tree(final(entries)@) == t,
            Err(error) => result == Err::<(), FsError>(error) && tree(old(entries)@).is_prefix_of(
                tree(final(entries)@),
            ),
        },
{
    let ghost t = tree(entries@);
    let mut required: Vec<FileEntry> = Vec::new();
    assert(tree(required@) =~= Seq::<Entry>::empty());
    let mut i: usize = 0;
    while i < entries.len()
        invariant
            i <= entries@.len(),
            t == tree(entries@),
            required_from(t, 0, Seq::empty()) == required_from(t, i as int, tree(required@)),
        decreases entries@.len() - i,
    {
        assert(t[i as int] == entries@[i as int]@);
        let name: &str = entries[i].name.as_str();
        if !is_valid_path(name.as_bytes()) {
            return Err(FsError::InvalidPath);
        }
        collect_ancestors(&mut required, name);
        i += 1;
    }
    sort_entries(&mut required);
    let mut k: usize = 0;
    while k < required.len()
        invariant
            k <= required@.len(),
            t == tree(old(entries)@),
            t.is_prefix_of(tree(entries@)),
            materialized(t) == (match with_required(tree(entries@), tree(required@), k as int) {
                Err(error) => Err::<Seq<Entry>, FsError>(error),
                Ok(full) => Ok(sorted(full)),
            }),
        decreases required@.len() - k,
    {
        assert(tree(required@)[k as int] == required@[k as int]@);
        match find(entries, required[k].path_bytes()) {
            Some(at) => {
                assert(tree(entries@)[at as int] == entries@[at as int]@);
                if entries[at].kind != EntryKind::Directory {
                    return Err(FsError::NotDirectory);
                }
            },
            None => {
                if entries.len() >= MAX_FILES {
                    return Err(FsError::TooManyFiles);
                }
                let entry = required[k].duplicate();
                proof {
                    lemma_tree_push(entries@, entry);
                }
                entries.push(entry);
            },
        }
        k += 1;
    }
    sort_entries(entries);
    Ok(())
}

/// Adds a default directory for each ancestor of `path` that `required` lacks.
fn collect_ancestors(required: &mut Vec<FileEntry>, path: &str)
    requires
        valid_path(encode_utf8(path@)),
    ensures
        tree(final(required)@) == add_ancestors(tree(old(required)@), encode_utf8(path@)),
{
    let ghost goal = add_ancestors(tree(required@), encode_utf8(path@));
    let mut current: &str = path;
    proof {
        parent_is_a_path(encode_utf8(path@));
    }
    let mut k: usize = find_last_slash(current.as_bytes());
    while k != 0
        invariant
            valid_path(encode_utf8(current@)),
            k == last_slash(encode_utf8(current@)),
            goal == add_ancestors(tree(required@), encode_utf8(current@)),
        decreases encode_utf8(current@).len(),
    {
        let ghost bytes = encode_utf8(current@);
        proof {
            parent_is_a_path(bytes);
            lemma_last_slash(bytes);
            lemma_split_at_slash(current@, k as int);
        }
        let parts = current.split_at(k);
        let parent: &str = parts.0;
        assert(encode_utf8(parent@) =~= parent_of(bytes));
        if find(required, parent.as_bytes()).is_none() {
            let entry = directory_entry(parent, DEFAULT_DIRECTORY_PERMISSIONS);
            assert(entry@ =~= default_directory(parent_of(bytes)));
            proof {
                lemma_tree_push(required@, entry);
            }
            required.push(entry);
        }
        current = parent;
        proof {
            parent_is_a_path(encode_utf8(current@));
        }
        k = find_last_slash(current.as_bytes());
    }
    proof {
        parent_is_a_path(encode_utf8(current@));
    }
}

/// Some entry is called `name`.
pub open spec fn named(t: Seq<Entry>, name: Seq<u8>) -> bool {
    exists|i: int| 0 <= i < t.len() && #[trigger] t[i].name == name
}

/// Some directory is called `name`.
pub open spec fn has_directory(t: Seq<Entry>, name: Seq<u8>) -> bool {
    exists|i: int|
        0 <= i < t.len() && (#[trigger] t[i]).name == name && t[i].kind == EntryKind::Directory
}

/// Every entry stands in the root or in a directory of the tree.
pub open spec fn rooted(t: Seq<Entry>) -> bool {
    forall|i: int|
        0 <= i < t.len() ==> parent_of(#[trigger] t[i].name) == root() || has_directory(
            t,
            parent_of(t[i].name),
        )
}

/// Every entry but those called `name` stands in the root or has a parent among the entries.
spec fn closed_but(t: Seq<Entry>, name: Option<Seq<u8>>) -> bool {
    forall|i: int|
        0 <= i < t.len() && Some((#[trigger] t[i]).name) != name ==> parent_of(t[i].name) == root()
            || named(t, parent_of(t[i].name))
}

/// Sorting neither adds nor drops an entry.
pub proof fn lemma_sorted_contains(t: Seq<Entry>, e: Entry)
    ensures
        sorted(t).contains(e) == t.contains(e),
{
    broadcast use vstd::seq_lib::group_to_multiset_ensures;

    sorting_keeps_the_entries(t);
    assert(sorted(t).to_multiset().count(e) == t.to_multiset().count(e));
}

/// Sorting keeps names distinct and valid.
pub proof fn lemma_sorted_keeps(t: Seq<Entry>)
    requires
        distinct_names(t),
        valid_names(t),
    ensures
        distinct_names(sorted(t)),
        valid_names(sorted(t)),
{
    sorting_orders_the_entries(t);
    let s = sorted(t);
    assert forall|i: int, j: int| 0 <= i < j < s.len() implies #[trigger] s[i].name
        != #[trigger] s[j].name by {
        lemma_before_irreflexive(s[i].name);
    }
    assert forall|i: int| 0 <= i < s.len() implies valid_path(#[trigger] s[i].name) by {
        assert(t.contains(s[i]));
        let k = choose|k: int| 0 <= k < t.len() && t[k] == s[i];
        assert(valid_path(t[k].name));
    }
}

/// A further name keeps names distinct and valid.
pub proof fn lemma_push_keeps(t: Seq<Entry>, e: Entry)
    requires
        distinct_names(t),
        valid_names(t),
        valid_path(e.name),
        position_of(t, e.name) is None,
    ensures
        distinct_names(t.push(e)),
        valid_names(t.push(e)),
{
    lemma_position(t, e.name, 0);
    let u = t.push(e);
    assert forall|i: int, j: int| 0 <= i < j < u.len() implies #[trigger] u[i].name
        != #[trigger] u[j].name by {
        assert(u[i] == t[i]);
        if j < t.len() {
            assert(u[j] == t[j]);
        }
    }
    assert forall|i: int| 0 <= i < u.len() implies valid_path(#[trigger] u[i].name) by {
        if i < t.len() {
            assert(u[i] == t[i]);
        }
    }
}

proof fn lemma_add_ancestors(required: Seq<Entry>, path: Seq<u8>)
    requires
        valid_path(path),
        distinct_names(required),
        valid_names(required),
        closed_but(required, Some(path)),
    ensures
        ({
            let result = add_ancestors(required, path);
            &&& distinct_names(result)
            &&& valid_names(result)
            &&& closed_but(result, None)
            &&& required.is_prefix_of(result)
            &&& parent_of(path) == root() || named(result, parent_of(path))
        }),
    decreases path.len(),
{
    let parent = parent_of(path);
    parent_is_a_path(path);
    if parent != root() {
        let next = if position_of(required, parent) is Some {
            required
        } else {
            required.push(default_directory(parent))
        };
        lemma_position(required, parent, 0);
        if position_of(required, parent) is None {
            lemma_push_keeps(required, default_directory(parent));
        }
        assert(named(next, parent)) by {
            if position_of(required, parent) is Some {
                assert(next[position_of(required, parent).unwrap()].name == parent);
            } else {
                assert(next[required.len() as int].name == parent);
            }
        }
        assert forall|i: int| 0 <= i < next.len() && Some((#[trigger] next[i]).name) != Some(
            parent,
        ) implies parent_of(next[i].name) == root() || named(next, parent_of(next[i].name)) by {
            assert(next[i] == required[i]);
            if required[i].name != path && parent_of(required[i].name) != root() {
                let k = choose|k: int|
                    0 <= k < required.len() && #[trigger] required[k].name == parent_of(
                        required[i].name,
                    );
                assert(next[k] == required[k]);
            }
        }
        lemma_add_ancestors(next, parent);
        let result = add_ancestors(next, parent);
        assert(required.is_prefix_of(result)) by {
            assert(required.is_prefix_of(next));
        }
        let k = choose|k: int| 0 <= k < next.len() && #[trigger] next[k].name == parent;
        assert(result[k] == next[k]);
    } else {
        assert forall|i: int| 0 <= i < required.len() implies parent_of(#[trigger] required[i].name)
            == root() || named(required, parent_of(required[i].name)) by {}
    }
}

proof fn lemma_required(t: Seq<Entry>, i: int, required: Seq<Entry>)
    requires
        0 <= i,
        distinct_names(required),
        valid_names(required),
        closed_but(required, None),
        required_from(t, i, required) is Ok,
    ensures
        ({
            let result = required_from(t, i, required).unwrap();
            &&& distinct_names(result)
            &&& valid_names(result)
            &&& closed_but(result, None)
            &&& required.is_prefix_of(result)
            &&& forall|j: int|
                i <= j < t.len() ==> parent_of(#[trigger] t[j].name) == root() || named(
                    result,
                    parent_of(t[j].name),
                )
        }),
    decreases t.len() - i,
{
    if i < t.len() {
        assert(closed_but(required, Some(t[i].name)));
        lemma_add_ancestors(required, t[i].name);
        let next = add_ancestors(required, t[i].name);
        lemma_required(t, i + 1, next);
        let result = required_from(t, i + 1, next).unwrap();
        if parent_of(t[i].name) != root() {
            let k = choose|k: int| 0 <= k < next.len() && #[trigger] next[k].name == parent_of(t[i].name);
            assert(result[k] == next[k]);
        }
    }
}

proof fn lemma_with_required(t: Seq<Entry>, required: Seq<Entry>, i: int)
    requires
        0 <= i,
        distinct_names(t),
        valid_names(t),
        valid_names(required),
        forall|j: int| 0 <= j < required.len() ==> #[trigger] required[j].kind == EntryKind::Directory,
        with_required(t, required, i) is Ok,
    ensures
        ({
            let result = with_required(t, required, i).unwrap();
            &&& distinct_names(result)
            &&& valid_names(result)
            &&& t.is_prefix_of(result)
            &&& forall|j: int|
                t.len() <= j < result.len() ==> required.contains(#[trigger] result[j])
            &&& forall|j: int|
                i <= j < required.len() ==> has_directory(result, #[trigger] required[j].name)
        }),
    decreases required.len() - i,
{
    if i < required.len() {
        lemma_position(t, required[i].name, 0);
        match position_of(t, required[i].name) {
            Some(k) => {
                lemma_with_required(t, required, i + 1);
                let result = with_required(t, required, i + 1).unwrap();
                assert(result[k] == t[k]);
            },
            None => {
                lemma_push_keeps(t, required[i]);
                let next = t.push(required[i]);
                lemma_with_required(next, required, i + 1);
                let result = with_required(next, required, i + 1).unwrap();
                assert(result[t.len() as int] == next[t.len() as int]);
                assert(t.is_prefix_of(next));
            },
        }
    }
}

/// Every entry is an empty directory with default permissions.
spec fn all_default(t: Seq<Entry>) -> bool {
    forall|j: int| 0 <= j < t.len() ==> #[trigger] t[j] == default_directory(t[j].name)
}

proof fn lemma_required_are_directories(required: Seq<Entry>, path: Seq<u8>)
    requires
        all_default(required),
    ensures
        all_default(add_ancestors(required, path)),
    decreases path.len(),
{
    let parent = parent_of(path);
    if parent != root() && parent.len() < path.len() {
        if position_of(required, parent) is Some {
            lemma_required_are_directories(required, parent);
        } else {
            lemma_required_are_directories(required.push(default_directory(parent)), parent);
        }
    }
}

proof fn lemma_all_required_are_directories(t: Seq<Entry>, i: int, required: Seq<Entry>)
    requires
        all_default(required),
        required_from(t, i, required) is Ok,
    ensures
        all_default(required_from(t, i, required).unwrap()),
    decreases t.len() - i,
{
    if 0 <= i < t.len() {
        lemma_required_are_directories(required, t[i].name);
        lemma_all_required_are_directories(t, i + 1, add_ancestors(required, t[i].name));
    }
}

/// Materialising keeps every entry, keeps names distinct, valid and in byte order, and leaves every
/// entry in the root or in a directory of the tree.
pub proof fn materializing_roots_the_tree(t: Seq<Entry>)
    requires
        distinct_names(t),
        materialized(t) is Ok,
    ensures
        ({
            let u = materialized(t).unwrap();
            &&& distinct_names(u)
            &&& valid_names(u)
            &&& ordered(u)
            &&& rooted(u)
            &&& forall|e: Entry| #[trigger] t.contains(e) ==> u.contains(e)
            &&& forall|e: Entry| #[trigger]
                u.contains(e) ==> t.contains(e) || e == default_directory(e.name)
        }),
{
    let empty = Seq::<Entry>::empty();
    lemma_required(t, 0, empty);
    lemma_all_required_are_directories(t, 0, empty);
    lemma_checked_names(t, 0, empty);
    let required = required_from(t, 0, empty).unwrap();
    let s = sorted(required);
    lemma_sorted_keeps(required);
    sorting_orders_the_entries(required);
    assert forall|j: int| 0 <= j < s.len() implies #[trigger] s[j].kind == EntryKind::Directory by {
        assert(required.contains(s[j]));
        let k = choose|k: int| 0 <= k < required.len() && required[k] == s[j];
        assert(required[k] == default_directory(required[k].name));
    }
    lemma_with_required(t, s, 0);
    let full = with_required(t, s, 0).unwrap();
    let u = sorted(full);
    lemma_sorted_keeps(full);
    sorting_orders_the_entries(full);
    assert forall|p: Seq<u8>| named(required, p) implies has_directory(u, p) by {
        let k = choose|k: int| 0 <= k < required.len() && #[trigger] required[k].name == p;
        lemma_sorted_contains(required, required[k]);
        assert(required.contains(required[k]));
        let j = choose|j: int| 0 <= j < s.len() && s[j] == required[k];
        assert(has_directory(full, s[j].name));
        let m = choose|m: int|
            0 <= m < full.len() && (#[trigger] full[m]).name == p && full[m].kind
                == EntryKind::Directory;
        lemma_sorted_contains(full, full[m]);
        assert(full.contains(full[m]));
        let n = choose|n: int| 0 <= n < u.len() && u[n] == full[m];
        assert(u[n].name == p);
    }
    assert forall|i: int| 0 <= i < u.len() implies parent_of(#[trigger] u[i].name) == root()
        || has_directory(u, parent_of(u[i].name)) by {
        assert(full.contains(u[i]));
        let k = choose|k: int| 0 <= k < full.len() && full[k] == u[i];
        if k < t.len() {
            assert(full[k] == t[k]);
        } else {
            assert(s.contains(full[k]));
            lemma_sorted_contains(required, full[k]);
            let m = choose|m: int| 0 <= m < required.len() && required[m] == full[k];
            assert(required[m].name == u[i].name);
        }
    }
    assert forall|e: Entry| #[trigger] t.contains(e) implies u.contains(e) by {
        let k = choose|k: int| 0 <= k < t.len() && t[k] == e;
        assert(full[k] == e);
        lemma_sorted_contains(full, e);
    }
    assert forall|e: Entry| #[trigger] u.contains(e) implies t.contains(e) || e == default_directory(
        e.name,
    ) by {
        lemma_sorted_contains(full, e);
        let k = choose|k: int| 0 <= k < full.len() && full[k] == e;
        if k < t.len() {
            assert(t[k] == e);
        } else {
            assert(s.contains(full[k]));
            lemma_sorted_contains(required, e);
            let m = choose|m: int| 0 <= m < required.len() && required[m] == e;
            assert(required[m] == default_directory(required[m].name));
        }
    }
}

/// Every entry has the name of a directory of `t`.
spec fn all_in(required: Seq<Entry>, t: Seq<Entry>) -> bool {
    forall|j: int| 0 <= j < required.len() ==> has_directory(t, #[trigger] required[j].name)
}

proof fn lemma_ancestors_are_there(t: Seq<Entry>, required: Seq<Entry>, path: Seq<u8>)
    requires
        rooted(t),
        all_in(required, t),
        parent_of(path) == root() || has_directory(t, parent_of(path)),
    ensures
        all_in(add_ancestors(required, path), t),
    decreases path.len(),
{
    let parent = parent_of(path);
    if parent != root() && parent.len() < path.len() {
        let k = choose|k: int|
            0 <= k < t.len() && (#[trigger] t[k]).name == parent && t[k].kind
                == EntryKind::Directory;
        assert(parent_of(t[k].name) == root() || has_directory(t, parent_of(t[k].name)));
        if position_of(required, parent) is Some {
            lemma_ancestors_are_there(t, required, parent);
        } else {
            lemma_ancestors_are_there(t, required.push(default_directory(parent)), parent);
        }
    }
}

proof fn lemma_required_are_there(t: Seq<Entry>, i: int, required: Seq<Entry>)
    requires
        0 <= i,
        rooted(t),
        valid_names(t),
        all_in(required, t),
    ensures
        required_from(t, i, required) is Ok,
        all_in(required_from(t, i, required).unwrap(), t),
    decreases t.len() - i,
{
    if i < t.len() {
        assert(parent_of(t[i].name) == root() || has_directory(t, parent_of(t[i].name)));
        lemma_ancestors_are_there(t, required, t[i].name);
        lemma_required_are_there(t, i + 1, add_ancestors(required, t[i].name));
    }
}

proof fn lemma_nothing_is_required(t: Seq<Entry>, required: Seq<Entry>, i: int)
    requires
        0 <= i,
        distinct_names(t),
        all_in(required, t),
    ensures
        with_required(t, required, i) == Ok::<Seq<Entry>, FsError>(t),
    decreases required.len() - i,
{
    if i < required.len() {
        let name = required[i].name;
        lemma_position(t, name, 0);
        let k = choose|k: int|
            0 <= k < t.len() && (#[trigger] t[k]).name == name && t[k].kind == EntryKind::Directory;
        let at = position_of(t, name).unwrap();
        if at < k {
            assert(t[at].name != t[k].name);
        } else if k < at {
            assert(t[k].name != name);
        }
        lemma_nothing_is_required(t, required, i + 1);
    }
}

/// A tree in which every entry has its parent is only sorted when it is materialised.
pub proof fn lemma_rooted_is_materialized(t: Seq<Entry>)
    requires
        distinct_names(t),
        valid_names(t),
        rooted(t),
    ensures
        materialized(t) == Ok::<Seq<Entry>, FsError>(sorted(t)),
{
    let empty = Seq::<Entry>::empty();
    lemma_required_are_there(t, 0, empty);
    let required = required_from(t, 0, empty).unwrap();
    let s = sorted(required);
    assert forall|j: int| 0 <= j < s.len() implies has_directory(t, #[trigger] s[j].name) by {
        assert(s.contains(s[j]));
        lemma_sorted_contains(required, s[j]);
        let k = choose|k: int| 0 <= k < required.len() && required[k] == s[j];
        assert(has_directory(t, required[k].name));
    }
    lemma_nothing_is_required(t, s, 0);
}

/// An entry at a path whose parent is there leaves every entry with its parent.
pub proof fn lemma_stays_rooted(t: Seq<Entry>, u: Seq<Entry>, path: Seq<u8>)
    requires
        rooted(t),
        parent_fault(t, path) is None,
        forall|e: Entry| #[trigger]
            t.contains(e) && e.kind == EntryKind::Directory ==> has_directory(u, e.name),
        forall|i: int|
            0 <= i < u.len() ==> (#[trigger] u[i]).name == path || t.contains(u[i]),
    ensures
        rooted(u),
{
    assert forall|i: int| 0 <= i < u.len() implies parent_of(#[trigger] u[i].name) == root()
        || has_directory(u, parent_of(u[i].name)) by {
        let parent = parent_of(u[i].name);
        if parent != root() {
            if u[i].name == path {
                lemma_position(t, parent, 0);
                let k = position_of(t, parent).unwrap();
                assert(t.contains(t[k]));
            } else {
                let j = choose|j: int| 0 <= j < t.len() && t[j] == u[i];
                assert(has_directory(t, parent_of(t[j].name)));
                let k = choose|k: int|
                    0 <= k < t.len() && (#[trigger] t[k]).name == parent && t[k].kind
                        == EntryKind::Directory;
                assert(t.contains(t[k]));
            }
        }
    }
}

proof fn lemma_checked_names(t: Seq<Entry>, i: int, required: Seq<Entry>)
    requires
        0 <= i,
        required_from(t, i, required) is Ok,
    ensures
        forall|j: int| i <= j < t.len() ==> valid_path(#[trigger] t[j].name),
    decreases t.len() - i,
{
    if i < t.len() {
        lemma_checked_names(t, i + 1, add_ancestors(required, t[i].name));
    }
}

/// Changing an entry but not its name keeps names distinct and valid.
pub proof fn lemma_update_keeps(t: Seq<Entry>, k: int, e: Entry)
    requires
        distinct_names(t),
        valid_names(t),
        0 <= k < t.len(),
        e.name == t[k].name,
    ensures
        distinct_names(t.update(k, e)),
        valid_names(t.update(k, e)),
{
    let u = t.update(k, e);
    assert forall|i: int| 0 <= i < u.len() implies #[trigger] u[i].name == t[i].name by {}
}

/// Dropping an entry keeps names distinct and valid.
pub proof fn lemma_remove_keeps(t: Seq<Entry>, k: int)
    requires
        distinct_names(t),
        valid_names(t),
        0 <= k < t.len(),
    ensures
        distinct_names(t.remove(k)),
        valid_names(t.remove(k)),
{
    let u = t.remove(k);
    assert forall|i: int| 0 <= i < u.len() implies #[trigger] u[i] == t[if i < k {
        i
    } else {
        i + 1
    }] by {}
}

/// Inserting a directory keeps names distinct and valid.
pub proof fn lemma_with_directory_keeps(t: Seq<Entry>, path: Seq<u8>, permissions: u16)
    requires
        distinct_names(t),
        valid_names(t),
        with_directory(t, path, permissions) is Ok,
    ensures
        distinct_names(with_directory(t, path, permissions).unwrap()),
        valid_names(with_directory(t, path, permissions).unwrap()),
{
    lemma_position(t, path, 0);
    match position_of(t, path) {
        Some(k) => {
            lemma_update_keeps(t, k, Entry { permissions, ..t[k] });
        },
        None => {
            let e = Entry { permissions, ..default_directory(path) };
            lemma_push_keeps(t, e);
            lemma_sorted_keeps(t.push(e));
        },
    }
}

/// Inserting directories keeps names distinct and valid.
pub proof fn lemma_with_directories_keeps(t: Seq<Entry>, path: Seq<u8>, permissions: u16, k: int)
    requires
        distinct_names(t),
        valid_names(t),
        with_directories(t, path, permissions, k) is Ok,
    ensures
        distinct_names(with_directories(t, path, permissions, k).unwrap()),
        valid_names(with_directories(t, path, permissions, k).unwrap()),
    decreases path.len() + 1 - k,
{
    if k <= path.len() {
        if !ends_at(path, k) || position_of(t, path.take(k)) is Some {
            lemma_with_directories_keeps(t, path, permissions, k + 1);
        } else {
            let mode = if k == path.len() {
                permissions
            } else {
                DEFAULT_DIRECTORY_PERMISSIONS
            };
            lemma_with_directory_keeps(t, path.take(k), mode);
            lemma_with_directories_keeps(
                with_directory(t, path.take(k), mode).unwrap(),
                path,
                permissions,
                k + 1,
            );
        }
    }
}

} // verus!
