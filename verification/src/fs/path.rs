//! Paths: their grammar, their parents and their order.

use vstd::prelude::*;

verus! {

/// The longest path, in bytes.
pub const MAX_PATH_BYTES: usize = 128;

/// The byte `/`.
pub const SLASH: u8 = 0x2f;

/// The byte `.`.
pub const DOT: u8 = 0x2e;

/// The path of the root directory.
pub open spec fn root() -> Seq<u8> {
    seq![SLASH]
}

/// Whether a component of `p` ends right before `i`.
pub open spec fn ends_at(p: Seq<u8>, i: int) -> bool {
    i == p.len() || (0 <= i < p.len() && p[i] == SLASH)
}

/// Whether the component of `p` that starts at `i` is a name: neither empty, nor `.`, nor `..`.
pub open spec fn proper_component(p: Seq<u8>, i: int) -> bool {
    &&& !ends_at(p, i)
    &&& !(p[i] == DOT && ends_at(p, i + 1))
    &&& !(p[i] == DOT && i + 1 < p.len() && p[i + 1] == DOT && ends_at(p, i + 2))
}

/// Whether `p` is an absolute path without empty, `.` or `..` components.
pub open spec fn valid_path(p: Seq<u8>) -> bool {
    &&& 2 <= p.len() <= MAX_PATH_BYTES
    &&& p[0] == SLASH
    &&& p.last() != SLASH
    &&& forall|i: int| 0 <= i < p.len() ==> #[trigger] p[i] >= 0x20
    &&& forall|i: int| 0 <= i < p.len() && #[trigger] p[i] == SLASH ==> proper_component(p, i + 1)
}

/// Where the last slash of `p` is, or -1.
pub open spec fn last_slash(p: Seq<u8>) -> int
    decreases p.len(),
{
    if p.len() == 0 {
        -1
    } else if p.last() == SLASH {
        p.len() - 1
    } else {
        last_slash(p.drop_last())
    }
}

/// The directory that holds `p`.
pub open spec fn parent_of(p: Seq<u8>) -> Seq<u8> {
    if last_slash(p) <= 0 {
        root()
    } else {
        p.take(last_slash(p))
    }
}

/// The last component of `p`.
pub open spec fn leaf_of(p: Seq<u8>) -> Seq<u8> {
    p.skip(last_slash(p) + 1)
}

/// Whether `a` comes before `b` in byte order.
pub open spec fn before(a: Seq<u8>, b: Seq<u8>) -> bool
    decreases a.len(),
{
    if b.len() == 0 {
        false
    } else if a.len() == 0 {
        true
    } else if a[0] != b[0] {
        a[0] < b[0]
    } else {
        before(a.skip(1), b.skip(1))
    }
}

/// What a search for the last slash finds.
pub proof fn lemma_last_slash(p: Seq<u8>)
    ensures
        -1 <= last_slash(p) < p.len(),
        last_slash(p) >= 0 ==> p[last_slash(p)] == SLASH,
        forall|i: int| last_slash(p) < i < p.len() ==> #[trigger] p[i] != SLASH,
    decreases p.len(),
{
    if p.len() != 0 && p.last() != SLASH {
        lemma_last_slash(p.drop_last());
        let at = last_slash(p.drop_last());
        assert forall|i: int| at < i < p.len() implies #[trigger] p[i] != SLASH by {
            if i < p.len() - 1 {
                assert(p.drop_last()[i] == p[i]);
            }
        }
    }
}

/// A position with those properties is the last slash.
pub proof fn lemma_last_slash_unique(p: Seq<u8>, at: int)
    requires
        0 <= at < p.len(),
        p[at] == SLASH,
        forall|i: int| at < i < p.len() ==> #[trigger] p[i] != SLASH,
    ensures
        last_slash(p) == at,
{
    lemma_last_slash(p);
    if last_slash(p) < at {
        assert(p[at] != SLASH);
    } else if last_slash(p) > at {
        assert(p[last_slash(p)] != SLASH);
    }
}

/// The parent of a path is the root or a shorter path.
pub proof fn parent_is_a_path(p: Seq<u8>)
    requires
        valid_path(p),
    ensures
        0 <= last_slash(p) < p.len() - 1,
        parent_of(p) == root() || valid_path(parent_of(p)),
        parent_of(p).len() < p.len(),
        last_slash(p) == 0 <==> parent_of(p) == root(),
{
    lemma_last_slash(p);
    assert(p[0] == SLASH);
    let k = last_slash(p);
    assert(k >= 0) by {
        if k < 0 {
            assert(p[0] != SLASH);
        }
    }
    if k > 0 {
        let q = p.take(k);
        assert(proper_component(p, 1));
        assert(q[0] == p[0]);
        if k == 1 {
            assert(ends_at(p, 1));
        }
        assert(q.last() == p[k - 1]);
        if p[k - 1] == SLASH {
            assert(proper_component(p, k));
        }
        assert forall|i: int| 0 <= i < q.len() implies #[trigger] q[i] >= 0x20 by {
            assert(p[i] >= 0x20);
        }
        assert forall|i: int| 0 <= i < q.len() && #[trigger] q[i] == SLASH implies proper_component(
            q,
            i + 1,
        ) by {
            assert(p[i] == SLASH);
            assert(proper_component(p, i + 1));
            assert(i + 1 < k) by {
                if i + 1 >= k {
                    assert(i == k - 1);
                }
            }
            assert(q[i + 1] == p[i + 1]);
            if i + 2 < k {
                assert(q[i + 2] == p[i + 2]);
                if i + 3 < k {
                    assert(q[i + 3] == p[i + 3]);
                }
            }
        }
        assert(root().len() == 1);
        assert(q.len() >= 2);
    }
}

/// Byte order is irreflexive.
pub proof fn lemma_before_irreflexive(a: Seq<u8>)
    ensures
        !before(a, a),
    decreases a.len(),
{
    if a.len() != 0 {
        lemma_before_irreflexive(a.skip(1));
    }
}

/// Byte order is transitive.
pub proof fn lemma_before_transitive(a: Seq<u8>, b: Seq<u8>, c: Seq<u8>)
    requires
        before(a, b),
        before(b, c),
    ensures
        before(a, c),
    decreases a.len(),
{
    if a.len() != 0 && b.len() != 0 && c.len() != 0 && a[0] == b[0] && b[0] == c[0] {
        lemma_before_transitive(a.skip(1), b.skip(1), c.skip(1));
    }
}

/// Of two different names one comes first.
pub proof fn lemma_before_total(a: Seq<u8>, b: Seq<u8>)
    ensures
        before(a, b) || before(b, a) || a == b,
    decreases a.len(),
{
    if a.len() != 0 && b.len() != 0 && a[0] == b[0] {
        lemma_before_total(a.skip(1), b.skip(1));
        if a.skip(1) == b.skip(1) {
            assert(a =~= seq![a[0]] + a.skip(1));
            assert(b =~= seq![b[0]] + b.skip(1));
        }
    } else if a.len() == 0 && b.len() == 0 {
        assert(a =~= b);
    }
}

/// Whether `path` is a valid path.
pub fn is_valid_path(path: &[u8]) -> (valid: bool)
    ensures
        valid == valid_path(path@),
{
    let n: usize = path.len();
    if n < 2 || n > MAX_PATH_BYTES || path[0] != SLASH || path[n - 1] == SLASH {
        return false;
    }
    let mut i: usize = 0;
    while i < n
        invariant
            i <= n,
            n == path.len(),
            2 <= n <= MAX_PATH_BYTES,
            path@[n - 1] != SLASH,
            forall|j: int| 0 <= j < i ==> #[trigger] path@[j] >= 0x20,
            forall|j: int|
                0 <= j < i && #[trigger] path@[j] == SLASH ==> proper_component(path@, j + 1),
        decreases n - i,
    {
        if path[i] < 0x20 {
            return false;
        }
        if path[i] == SLASH {
            let at: usize = i + 1;
            if path[at] == SLASH {
                assert(!proper_component(path@, i + 1));
                return false;
            }
            if path[at] == DOT {
                if at + 1 == n || path[at + 1] == SLASH {
                    assert(!proper_component(path@, i + 1));
                    return false;
                }
                if path[at + 1] == DOT && (at + 2 == n || path[at + 2] == SLASH) {
                    assert(!proper_component(path@, i + 1));
                    return false;
                }
            }
        }
        i += 1;
    }
    true
}

/// The parent of a valid path, as a prefix of it.
pub fn parent_slice(path: &[u8]) -> (parent: &[u8])
    requires
        valid_path(path@),
    ensures
        parent@ == parent_of(path@),
{
    let k: usize = find_last_slash(path);
    proof {
        parent_is_a_path(path@);
    }
    if k == 0 {
        let parent = &path[0..1];
        assert(parent@ =~= root());
        parent
    } else {
        let parent = &path[0..k];
        assert(parent@ =~= path@.take(k as int));
        parent
    }
}

/// Where the last slash of a valid path is.
pub fn find_last_slash(path: &[u8]) -> (at: usize)
    requires
        valid_path(path@),
    ensures
        at == last_slash(path@),
{
    let mut k: usize = path.len() - 1;
    while path[k] != SLASH
        invariant
            k < path.len(),
            path@[0] == SLASH,
            forall|i: int| k < i < path@.len() ==> #[trigger] path@[i] != SLASH,
        decreases k,
    {
        k -= 1;
    }
    proof {
        lemma_last_slash_unique(path@, k as int);
    }
    k
}

/// Whether `a` comes before `b` in byte order.
pub fn comes_before(a: &[u8], b: &[u8]) -> (result: bool)
    ensures
        result == before(a@, b@),
{
    let mut i: usize = 0;
    assert(a@.skip(0) =~= a@ && b@.skip(0) =~= b@);
    while i < a.len() && i < b.len() && a[i] == b[i]
        invariant
            i <= a@.len(),
            i <= b@.len(),
            before(a@, b@) == before(a@.skip(i as int), b@.skip(i as int)),
        decreases a@.len() - i,
    {
        assert(a@.skip(i as int).skip(1) =~= a@.skip(i + 1));
        assert(b@.skip(i as int).skip(1) =~= b@.skip(i + 1));
        i += 1;
    }
    if i >= b.len() {
        false
    } else if i >= a.len() {
        true
    } else {
        a[i] < b[i]
    }
}

/// Whether `name` stands in the directory `dir`: it is the directory's path, a slash unless that is the
/// root's own, and one more component.
pub open spec fn directly_below(name: Seq<u8>, dir: Seq<u8>) -> bool {
    let start = if dir.len() == 1 {
        1
    } else {
        dir.len() + 1
    };
    &&& dir.len() < name.len() && start < name.len()
    &&& name.take(dir.len() as int) == dir
    &&& name[start - 1] == 0x2f
    &&& forall|i: int| start <= i < name.len() ==> #[trigger] name[i] != 0x2f
}

/// The parent of a path is the directory that it stands in, and the last component what follows.
pub proof fn the_parent_is_the_directory_above(name: Seq<u8>, dir: Seq<u8>)
    requires
        valid_path(name),
        dir == seq![0x2fu8] || valid_path(dir),
    ensures
        parent_of(name) == dir <==> directly_below(name, dir),
        parent_of(name) == dir ==> name == dir + if dir.len() == 1 {
            leaf_of(name)
        } else {
            seq![0x2fu8] + leaf_of(name)
        },
        leaf_of(name).len() > 0,
        forall|i: int| 0 <= i < leaf_of(name).len() ==> #[trigger] leaf_of(name)[i] != 0x2f,
{
    parent_is_a_path(name);
    lemma_last_slash(name);
    let k = last_slash(name);
    let start = if dir.len() == 1 {
        1
    } else {
        dir.len() + 1
    };
    assert(root() =~= seq![0x2fu8]);
    assert(root().len() == 1);
    if directly_below(name, dir) {
        lemma_last_slash_unique(name, start - 1);
        if dir.len() == 1 {
            assert(dir == root());
        } else {
            assert(name.take(k) =~= dir);
        }
    }
    if parent_of(name) == dir {
        if k == 0 {
            assert(dir.len() == 1);
            assert(name.take(1) =~= dir);
            assert(name =~= dir + leaf_of(name));
        } else {
            assert(dir == name.take(k));
            assert(dir.len() == k);
            if k == 1 {
                assert(valid_path(dir));
            }
            assert(name.take(dir.len() as int) =~= dir);
            assert(name =~= dir + (seq![0x2fu8] + leaf_of(name)));
        }
    }
}

/// Whether `name` can be a component of a path: not empty, neither `.` nor `..`, without a slash and
/// without a control byte.
pub open spec fn component(name: Seq<u8>) -> bool {
    &&& name.len() > 0
    &&& forall|i: int| 0 <= i < name.len() ==> #[trigger] name[i] != 0x2f && name[i] >= 0x20
    &&& name != seq![0x2eu8]
    &&& name != seq![0x2eu8, 0x2eu8]
}

/// A path is a component behind the root, or a component behind a path, in no more than 128 bytes; and
/// nothing else is a path.
pub proof fn a_path_is_made_of_components(dir: Seq<u8>, name: Seq<u8>)
    requires
        dir == seq![0x2fu8] || valid_path(dir),
        forall|i: int| 0 <= i < name.len() ==> #[trigger] name[i] != 0x2f,
    ensures
        ({
            let path = dir + if dir.len() == 1 {
                name
            } else {
                seq![0x2fu8] + name
            };
            valid_path(path) <==> component(name) && path.len() <= 128
        }),
{
    let start: int = if dir.len() == 1 {
        1
    } else {
        dir.len() as int + 1
    };
    let path = dir + if dir.len() == 1 {
        name
    } else {
        seq![0x2fu8] + name
    };
    assert(path.len() == start + name.len());
    assert(forall|i: int| 0 <= i < name.len() ==> path[start + i] == name[i]);
    assert(forall|i: int| 0 <= i < dir.len() ==> path[i] == dir[i]);
    assert(path[start - 1] == 0x2f);
    if component(name) && path.len() <= 128 {
        assert(path.last() == name.last());
        assert(name.last() == name[name.len() - 1]);
        assert forall|i: int| 0 <= i < path.len() implies #[trigger] path[i] >= 0x20 by {
            if i >= start {
                assert(name[i - start] >= 0x20);
            } else if i < dir.len() {
                assert(path[i] == dir[i]);
            }
        }
        assert forall|i: int| 0 <= i < path.len() && #[trigger] path[i] == SLASH implies proper_component(
            path,
            i + 1,
        ) by {
            if i >= start {
                assert(name[i - start] != 0x2f);
            } else if i == start - 1 {
                assert(path[start] == name[0]);
                if path[start] == DOT && ends_at(path, start + 1) {
                    if name.len() > 1 {
                        assert(name[1] != 0x2f);
                        assert(path[start + 1] == name[1]);
                    }
                    assert(name =~= seq![0x2eu8]);
                }
                if path[start] == DOT && start + 1 < path.len() && path[start + 1] == DOT && ends_at(
                    path,
                    start + 2,
                ) {
                    assert(path[start + 1] == name[1]);
                    if name.len() > 2 {
                        assert(name[2] != 0x2f);
                        assert(path[start + 2] == name[2]);
                    }
                    assert(name =~= seq![0x2eu8, 0x2eu8]);
                }
            } else {
                assert(dir[i] == SLASH);
                assert(proper_component(dir, i + 1));
                lemma_component_stays(dir, path, i + 1);
            }
        }
    }
    if valid_path(path) {
        assert(path[start - 1] == SLASH);
        assert(proper_component(path, start));
        assert forall|i: int| 0 <= i < name.len() implies #[trigger] name[i] != 0x2f && name[i]
            >= 0x20 by {
            assert(path[start + i] >= 0x20);
        }
        if name == seq![0x2eu8] {
            assert(path[start] == name[0]);
            assert(ends_at(path, start + 1));
        }
        if name == seq![0x2eu8, 0x2eu8] {
            assert(path[start] == name[0] && path[start + 1] == name[1]);
            assert(ends_at(path, start + 2));
        }
        if name.len() == 0 {
            assert(ends_at(path, start));
        }
    }
}

/// A proper component of a path is one of every path that goes on behind a slash.
proof fn lemma_component_stays(dir: Seq<u8>, path: Seq<u8>, i: int)
    requires
        proper_component(dir, i),
        0 <= i <= dir.len() < path.len(),
        path[dir.len() as int] == SLASH,
        forall|k: int| 0 <= k < dir.len() ==> path[k] == dir[k],
    ensures
        proper_component(path, i),
{
    assert(i < dir.len());
    assert(path[i] == dir[i]);
    if i + 1 < dir.len() {
        assert(path[i + 1] == dir[i + 1]);
        if i + 2 < dir.len() {
            assert(path[i + 2] == dir[i + 2]);
        }
    }
}

} // verus!
