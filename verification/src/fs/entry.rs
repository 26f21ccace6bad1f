//! Entries of the tree, and how a list of them is searched, copied and sorted.

use vstd::prelude::*;
use vstd::utf8::{
    encode_utf8, encode_utf8_valid_utf8, is_char_boundary,
    is_char_boundary_iff_not_is_continuation_byte, is_char_boundary_start_end_of_seq, valid_utf8,
    valid_utf8_split,
};
use crate::block::BlockError;
use crate::bytes::{bytes_equal, copy_range};
use crate::fs::path::{
    before, comes_before, lemma_before_irreflexive, lemma_before_total, lemma_before_transitive, SLASH,
};

verus! {

/// The most entries a snapshot holds.
pub const MAX_FILES: usize = 128;

pub const DEFAULT_FILE_PERMISSIONS: u16 = 0o644;

pub const DEFAULT_DIRECTORY_PERMISSIONS: u16 = 0o755;

pub const OWNER_READ: u16 = 0o400;

pub const OWNER_WRITE: u16 = 0o200;

pub const OWNER_EXECUTE: u16 = 0o100;

/// What an entry of the tree is.
#[derive(Debug, Clone, Copy, PartialEq, Eq, Structural)]
pub enum EntryKind {
    File,
    Directory,
}

impl EntryKind {
    pub fn as_str(self) -> (name: &'static str)
        ensures
            self is File ==> name@ == "file"@,
            self is Directory ==> name@ == "directory"@,
    {
        match self {
            Self::File => "file",
            Self::Directory => "directory",
        }
    }
}

/// Why the filesystem refused a request.
#[derive(Debug, Clone, Copy, PartialEq, Eq, Structural)]
pub enum FsError {
    Block(BlockError),
    FlushUnsupported,
    DeviceTooSmall,
    CorruptSuperblocks,
    CorruptRecord,
    InvalidPath,
    TooManyFiles,
    SnapshotTooLarge,
    ArithmeticOverflow,
    InvalidUtf8,
    VerificationFailed,
    NotFound,
    ParentMissing,
    NotDirectory,
    IsDirectory,
    PermissionDenied,
    DirectoryNotEmpty,
    InvalidPermissions,
}

impl vstd::std_specs::convert::FromSpecImpl<BlockError> for FsError {
    open spec fn obeys_from_spec() -> bool {
        true
    }

    open spec fn from_spec(error: BlockError) -> FsError {
        FsError::Block(error)
    }
}

impl From<BlockError> for FsError {
    fn from(error: BlockError) -> (wrapped: FsError) {
        FsError::Block(error)
    }
}

/// One file or directory.
#[derive(Debug, PartialEq, Eq)]
pub struct FileEntry {
    pub name: String,
    pub data: Vec<u8>,
    pub kind: EntryKind,
    pub permissions: u16,
}

/// What an entry stands for: its path in UTF-8, its contents, its kind and its permissions.
#[verifier::ext_equal]
pub ghost struct Entry {
    pub name: Seq<u8>,
    pub data: Seq<u8>,
    pub kind: EntryKind,
    pub permissions: u16,
}

impl View for FileEntry {
    type V = Entry;

    open spec fn view(&self) -> Entry {
        Entry {
            name: encode_utf8(self.name@),
            data: self.data@,
            kind: self.kind,
            permissions: self.permissions,
        }
    }
}

/// What a list of entries stands for.
pub open spec fn tree(files: Seq<FileEntry>) -> Seq<Entry> {
    Seq::new(files.len(), |i: int| files[i]@)
}

/// An empty directory with default permissions.
pub open spec fn default_directory(path: Seq<u8>) -> Entry {
    Entry {
        name: path,
        data: Seq::empty(),
        kind: EntryKind::Directory,
        permissions: DEFAULT_DIRECTORY_PERMISSIONS,
    }
}

/// The first entry of `t` from `i` on that is called `name`.
pub open spec fn position_from(t: Seq<Entry>, name: Seq<u8>, i: int) -> Option<int>
    decreases t.len() - i,
{
    if i < 0 || i >= t.len() {
        None
    } else if t[i].name == name {
        Some(i)
    } else {
        position_from(t, name, i + 1)
    }
}

/// The first entry of `t` that is called `name`.
pub open spec fn position_of(t: Seq<Entry>, name: Seq<u8>) -> Option<int> {
    position_from(t, name, 0)
}

/// No name occurs twice.
pub open spec fn distinct_names(t: Seq<Entry>) -> bool {
    forall|i: int, j: int| 0 <= i < j < t.len() ==> #[trigger] t[i].name != #[trigger] t[j].name
}

/// Each name comes after the one before it.
pub open spec fn ordered(t: Seq<Entry>) -> bool {
    forall|i: int, j: int|
        0 <= i < j < t.len() ==> before(#[trigger] t[i].name, #[trigger] t[j].name)
}

/// `t` with `e` put behind every entry that does not come after it.
pub open spec fn insert_sorted(t: Seq<Entry>, e: Entry) -> Seq<Entry>
    decreases t.len(),
{
    if t.len() != 0 && before(e.name, t.last().name) {
        insert_sorted(t.drop_last(), e).push(t.last())
    } else {
        t.push(e)
    }
}

/// `t` sorted by name, entries of one name kept in their order.
pub open spec fn sorted(t: Seq<Entry>) -> Seq<Entry>
    decreases t.len(),
{
    if t.len() == 0 {
        t
    } else {
        insert_sorted(sorted(t.drop_last()), t.last())
    }
}

/// What a search finds.
pub proof fn lemma_position(t: Seq<Entry>, name: Seq<u8>, i: int)
    requires
        0 <= i,
    ensures
        match position_from(t, name, i) {
            Some(k) => i <= k < t.len() && t[k].name == name && forall|j: int|
                i <= j < k ==> #[trigger] t[j].name != name,
            None => forall|j: int| i <= j < t.len() ==> #[trigger] t[j].name != name,
        },
    decreases t.len() - i,
{
    if i < t.len() && t[i].name != name {
        lemma_position(t, name, i + 1);
    }
}

/// Inserting keeps every entry and adds one.
pub proof fn lemma_insert_keeps_entries(t: Seq<Entry>, e: Entry)
    ensures
        insert_sorted(t, e).len() == t.len() + 1,
        insert_sorted(t, e).to_multiset() == t.push(e).to_multiset(),
    decreases t.len(),
{
    broadcast use vstd::seq_lib::group_to_multiset_ensures;

    if t.len() != 0 && before(e.name, t.last().name) {
        let rest = t.drop_last();
        lemma_insert_keeps_entries(rest, e);
        assert(t =~= rest.push(t.last()));
        assert(insert_sorted(t, e).to_multiset() =~= rest.push(e).to_multiset().insert(t.last()));
        assert(t.push(e).to_multiset() =~= rest.to_multiset().insert(t.last()).insert(e));
    }
}

/// Sorting keeps every entry.
pub proof fn sorting_keeps_the_entries(t: Seq<Entry>)
    ensures
        sorted(t).len() == t.len(),
        sorted(t).to_multiset() == t.to_multiset(),
    decreases t.len(),
{
    broadcast use vstd::seq_lib::group_to_multiset_ensures;

    if t.len() != 0 {
        sorting_keeps_the_entries(t.drop_last());
        lemma_insert_keeps_entries(sorted(t.drop_last()), t.last());
        assert(t =~= t.drop_last().push(t.last()));
    }
}

/// A tree that is in order stays as it is when it is sorted.
pub proof fn lemma_ordered_is_sorted(t: Seq<Entry>)
    requires
        ordered(t),
    ensures
        sorted(t) == t,
    decreases t.len(),
{
    if t.len() != 0 {
        let rest = t.drop_last();
        assert forall|i: int, j: int| 0 <= i < j < rest.len() implies before(
            #[trigger] rest[i].name,
            #[trigger] rest[j].name,
        ) by {
            assert(before(t[i].name, t[j].name));
        }
        lemma_ordered_is_sorted(rest);
        if rest.len() != 0 {
            let a = t[t.len() - 2].name;
            let b = t[t.len() - 1].name;
            assert(before(a, b));
            assert(rest.last().name == a);
            if before(b, a) {
                lemma_before_transitive(a, b, a);
                lemma_before_irreflexive(a);
            }
        }
        assert(rest.push(t.last()) =~= t);
    }
}

proof fn lemma_insert_ordered(t: Seq<Entry>, e: Entry)
    requires
        ordered(t),
        forall|i: int| 0 <= i < t.len() ==> #[trigger] t[i].name != e.name,
    ensures
        ordered(insert_sorted(t, e)),
        forall|i: int|
            0 <= i < insert_sorted(t, e).len() ==> #[trigger] insert_sorted(t, e)[i] == e
                || t.contains(insert_sorted(t, e)[i]),
    decreases t.len(),
{
    lemma_insert_keeps_entries(t, e);
    let result = insert_sorted(t, e);
    if t.len() != 0 && before(e.name, t.last().name) {
        let rest = t.drop_last();
        lemma_insert_ordered(rest, e);
        lemma_insert_keeps_entries(rest, e);
        let head = insert_sorted(rest, e);
        assert forall|i: int| 0 <= i < result.len() implies #[trigger] result[i] == e || t.contains(
            result[i],
        ) by {
            if i < head.len() {
                assert(result[i] == head[i]);
                if head[i] != e {
                    let k = choose|k: int| 0 <= k < rest.len() && rest[k] == head[i];
                    assert(t[k] == head[i]);
                }
            } else {
                assert(result[i] == t[t.len() - 1]);
            }
        }
        assert forall|i: int, j: int| 0 <= i < j < result.len() implies before(
            #[trigger] result[i].name,
            #[trigger] result[j].name,
        ) by {
            if j < head.len() {
                assert(result[i] == head[i] && result[j] == head[j]);
            } else {
                assert(result[i] == head[i]);
                if head[i] != e {
                    let k = choose|k: int| 0 <= k < rest.len() && rest[k] == head[i];
                    assert(t[k] == head[i]);
                }
            }
        }
    } else {
        assert forall|i: int, j: int| 0 <= i < j < result.len() implies before(
            #[trigger] result[i].name,
            #[trigger] result[j].name,
        ) by {
            if j == t.len() {
                lemma_before_total(t.last().name, e.name);
                assert(t[t.len() - 1].name != e.name);
                if i < t.len() - 1 {
                    assert(before(t[i].name, t[t.len() - 1].name));
                    lemma_before_transitive(t[i].name, t.last().name, e.name);
                }
            }
        }
        assert forall|i: int| 0 <= i < result.len() implies #[trigger] result[i] == e || t.contains(
            result[i],
        ) by {
            if i < t.len() {
                assert(t[i] == result[i]);
            }
        }
    }
}

/// Sorting entries of distinct names puts them in strict byte order.
pub proof fn sorting_orders_the_entries(t: Seq<Entry>)
    requires
        distinct_names(t),
    ensures
        ordered(sorted(t)),
        forall|i: int| 0 <= i < sorted(t).len() ==> t.contains(#[trigger] sorted(t)[i]),
    decreases t.len(),
{
    if t.len() != 0 {
        let rest = t.drop_last();
        assert forall|i: int, j: int| 0 <= i < j < rest.len() implies #[trigger] rest[i].name
            != #[trigger] rest[j].name by {
            assert(rest[i] == t[i] && rest[j] == t[j]);
        }
        sorting_orders_the_entries(rest);
        let s = sorted(rest);
        assert forall|i: int| 0 <= i < s.len() implies #[trigger] s[i].name != t.last().name by {
            let k = choose|k: int| 0 <= k < rest.len() && rest[k] == s[i];
            assert(t[k] == s[i]);
            assert(t[t.len() - 1] == t.last());
        }
        lemma_insert_ordered(s, t.last());
        let result = sorted(t);
        assert forall|i: int| 0 <= i < result.len() implies t.contains(#[trigger] result[i]) by {
            if result[i] == t.last() {
                assert(t[t.len() - 1] == t.last());
            } else {
                let k = choose|k: int| 0 <= k < s.len() && s[k] == result[i];
                assert(rest.contains(s[k]));
                let m = choose|m: int| 0 <= m < rest.len() && rest[m] == s[k];
                assert(t[m] == result[i]);
            }
        }
    }
}

impl FileEntry {
    /// The bytes of the entry's path.
    pub fn path_bytes(&self) -> (bytes: &[u8])
        ensures
            bytes@ == self@.name,
    {
        self.name.as_str().as_bytes()
    }

    /// A copy of the entry.
    pub fn duplicate(&self) -> (copy: FileEntry)
        ensures
            copy@ == self@,
    {
        FileEntry {
            name: self.name.clone(),
            data: copy_range(&self.data, 0, self.data.len()),
            kind: self.kind,
            permissions: self.permissions,
        }
    }

    /// Whether two entries stand for the same.
    pub fn same_as(&self, other: &FileEntry) -> (same: bool)
        ensures
            same == (self@ == other@),
    {
        let same = bytes_equal(self.path_bytes(), other.path_bytes()) && bytes_equal(
            &self.data,
            &other.data,
        ) && self.kind == other.kind && self.permissions == other.permissions;
        proof {
            if same {
                assert(self@ =~= other@);
            }
        }
        same
    }
}

/// A copy of a list of entries.
pub fn duplicate_all(files: &[FileEntry]) -> (copy: Vec<FileEntry>)
    ensures
        tree(copy@) == tree(files@),
{
    let mut copy: Vec<FileEntry> = Vec::new();
    let mut i: usize = 0;
    while i < files.len()
        invariant
            i <= files@.len(),
            copy@.len() == i,
            forall|j: int| 0 <= j < i ==> #[trigger] copy@[j]@ == files@[j]@,
        decreases files@.len() - i,
    {
        copy.push(files[i].duplicate());
        i += 1;
    }
    assert(tree(copy@) =~= tree(files@));
    copy
}

/// Whether two lists of entries stand for the same tree.
pub fn same_tree(a: &[FileEntry], b: &[FileEntry]) -> (same: bool)
    ensures
        same == (tree(a@) == tree(b@)),
{
    if a.len() != b.len() {
        assert(tree(a@).len() != tree(b@).len());
        return false;
    }
    let mut i: usize = 0;
    while i < a.len()
        invariant
            i <= a@.len(),
            a@.len() == b@.len(),
            forall|j: int| 0 <= j < i ==> #[trigger] a@[j]@ == b@[j]@,
        decreases a@.len() - i,
    {
        if !a[i].same_as(&b[i]) {
            assert(tree(a@)[i as int] != tree(b@)[i as int]);
            return false;
        }
        i += 1;
    }
    assert(tree(a@) =~= tree(b@));
    true
}

/// The first entry that is called `name`.
pub fn find(files: &[FileEntry], name: &[u8]) -> (found: Option<usize>)
    ensures
        match found {
            Some(i) => position_of(tree(files@), name@) == Some(i as int) && i < files@.len(),
            None => position_of(tree(files@), name@) is None,
        },
{
    let mut i: usize = 0;
    while i < files.len()
        invariant
            i <= files@.len(),
            position_of(tree(files@), name@) == position_from(tree(files@), name@, i as int),
        decreases files@.len() - i,
    {
        assert(tree(files@)[i as int] == files@[i as int]@);
        if bytes_equal(files[i].path_bytes(), name) {
            return Some(i);
        }
        i += 1;
    }
    None
}

proof fn lemma_insert_step(t: Seq<Entry>, e: Entry, j: int)
    requires
        0 < j <= t.len(),
        before(e.name, t[j - 1].name),
    ensures
        insert_sorted(t.take(j), e) == insert_sorted(t.take(j - 1), e).push(t[j - 1]),
{
    assert(t.take(j).drop_last() =~= t.take(j - 1));
    assert(t.take(j).last() == t[j - 1]);
}

/// Sorts the entries by name.
pub fn sort_entries(files: &mut Vec<FileEntry>)
    ensures
        tree(final(files)@) == sorted(tree(old(files)@)),
{
    let ghost before_sort = tree(files@);
    let mut i: usize = 0;
    assert(before_sort.take(0) =~= Seq::<Entry>::empty());
    while i < files.len()
        invariant
            i <= files@.len(),
            files@.len() == before_sort.len(),
            tree(files@).take(i as int) == sorted(before_sort.take(i as int)),
            tree(files@).skip(i as int) == before_sort.skip(i as int),
        decreases files@.len() - i,
    {
        let ghost now = tree(files@);
        let ghost head = now.take(i as int);
        let ghost e = now[i as int];
        let mut j: usize = i;
        assert(head.take(i as int) =~= head);
        assert(insert_sorted(head, e) =~= insert_sorted(head.take(j as int), e) + head.subrange(
            j as int,
            i as int,
        ));
        while j > 0 && comes_before(files[i].path_bytes(), files[j - 1].path_bytes())
            invariant
                j <= i < files@.len(),
                head == tree(files@).take(i as int),
                e == tree(files@)[i as int],
                insert_sorted(head, e) == insert_sorted(head.take(j as int), e) + head.subrange(
                    j as int,
                    i as int,
                ),
            decreases j,
        {
            assert(head[j - 1] == files@[j - 1]@);
            proof {
                lemma_insert_step(head, e, j as int);
                assert(insert_sorted(head.take(j as int), e) + head.subrange(j as int, i as int)
                    =~= insert_sorted(head.take(j - 1), e) + head.subrange(j - 1, i as int));
            }
            j -= 1;
        }
        proof {
            if j > 0 {
                assert(head.take(j as int).last() == files@[j - 1]@);
            }
            assert(insert_sorted(head.take(j as int), e) == head.take(j as int).push(e));
        }
        let moved = files.remove(i);
        files.insert(j, moved);
        proof {
            assert(tree(files@).take(i + 1) =~= insert_sorted(head, e));
            assert(before_sort.take(i + 1).drop_last() =~= before_sort.take(i as int));
            assert(before_sort.skip(i as int)[0] == e);
            assert(before_sort.take(i + 1).last() == e);
            assert(tree(files@).skip(i + 1) =~= before_sort.skip(i + 1)) by {
                assert forall|k: int| 0 <= k < before_sort.len() - i - 1 implies #[trigger] tree(
                    files@,
                ).skip(i + 1)[k] == before_sort.skip(i + 1)[k] by {
                    assert(now.skip(i as int)[k + 1] == before_sort.skip(i as int)[k + 1]);
                }
            }
        }
        i += 1;
    }
    assert(tree(files@).take(i as int) =~= tree(files@));
    assert(before_sort.take(i as int) =~= before_sort);
}

/// A slash splits UTF-8 text into UTF-8 text.
pub proof fn lemma_split_at_slash(chars: Seq<char>, at: int)
    requires
        0 <= at < encode_utf8(chars).len(),
        encode_utf8(chars)[at] == SLASH,
    ensures
        is_char_boundary(encode_utf8(chars), at),
        is_char_boundary(encode_utf8(chars), at + 1),
{
    let bytes = encode_utf8(chars);
    encode_utf8_valid_utf8(chars);
    is_char_boundary_iff_not_is_continuation_byte(bytes, at);
    if at + 1 < bytes.len() {
        valid_utf8_split(bytes, at);
        let tail = bytes.subrange(at, bytes.len() as int);
        assert(tail[0] == SLASH);
        let rest = vstd::utf8::pop_first_scalar(tail);
        assert(valid_utf8(rest));
        assert(rest[0] == bytes[at + 1]);
        is_char_boundary_iff_not_is_continuation_byte(rest, 0);
        is_char_boundary_iff_not_is_continuation_byte(bytes, at + 1);
    } else {
        is_char_boundary_start_end_of_seq(bytes);
    }
}

} // verus!
