//! Runs of free bytes, in order of where they start and with others between them.

use vstd::prelude::*;
use crate::sums::{lemma_sum_insert, lemma_sum_remove, lemma_sum_update, sum};

verus! {

/// A run of bytes.
#[verifier::ext_equal]
pub ghost struct Block {
    pub start: int,
    pub size: int,
}

impl Block {
    pub open spec fn end(self) -> int {
        self.start + self.size
    }
}

/// Blocks are in order of where they start, and between two of them there is at least a byte.
pub open spec fn apart(blocks: Seq<Block>) -> bool {
    forall|i: int, j: int|
        0 <= i < j < blocks.len() ==> (#[trigger] blocks[i]).end() < (#[trigger] blocks[j]).start
}

/// Blocks start and end at multiples of eight, have room for the list's fields and lie below
/// `capacity`.
pub open spec fn sound(blocks: Seq<Block>, capacity: int) -> bool {
    forall|i: int|
        0 <= i < blocks.len() ==> {
            &&& 0 <= (#[trigger] blocks[i]).start
            &&& blocks[i].start % 8 == 0
            &&& blocks[i].size % 8 == 0
            &&& 16 <= blocks[i].size
            &&& blocks[i].end() <= capacity
        }
}

/// How long each block is.
pub open spec fn sizes(blocks: Seq<Block>) -> Seq<int> {
    blocks.map_values(|block: Block| block.size)
}

/// How many bytes the blocks have together.
pub open spec fn total(blocks: Seq<Block>) -> int {
    sum(sizes(blocks))
}

/// How long the longest block is.
pub open spec fn longest(blocks: Seq<Block>) -> int
    decreases blocks.len(),
{
    if blocks.len() == 0 {
        0
    } else if blocks.last().size > longest(blocks.drop_last()) {
        blocks.last().size
    } else {
        longest(blocks.drop_last())
    }
}

/// One of the blocks holds the byte.
pub open spec fn holds(blocks: Seq<Block>, byte: int) -> bool {
    exists|i: int| 0 <= i < blocks.len() && (#[trigger] blocks[i]).start <= byte < blocks[i].end()
}

/// The bytes from `start` to `end` are in no block.
pub open spec fn clear(blocks: Seq<Block>, start: int, end: int) -> bool {
    forall|i: int|
        0 <= i < blocks.len() ==> (#[trigger] blocks[i]).end() <= start || end <= blocks[i].start
}

/// The place, from `i` on, of a block that starts at `start`.
pub open spec fn place(blocks: Seq<Block>, start: int, i: int) -> int
    decreases blocks.len() - i,
{
    if i < 0 || i >= blocks.len() || blocks[i].start >= start {
        i
    } else {
        place(blocks, start, i + 1)
    }
}

/// The blocks with one more, joined with those that it touches.
pub open spec fn with_block(blocks: Seq<Block>, start: int, size: int) -> Seq<Block> {
    let at = place(blocks, start, 0);
    let joins_before = at > 0 && blocks[at - 1].end() == start;
    let joins_after = at < blocks.len() && blocks[at].start == start + size;
    if joins_before && joins_after {
        blocks.update(
            at - 1,
            Block {
                start: blocks[at - 1].start,
                size: blocks[at - 1].size + size + blocks[at].size,
            },
        ).remove(at)
    } else if joins_before {
        blocks.update(
            at - 1,
            Block { start: blocks[at - 1].start, size: blocks[at - 1].size + size },
        )
    } else if joins_after {
        blocks.update(at, Block { start, size: size + blocks[at].size })
    } else {
        blocks.insert(at, Block { start, size })
    }
}

pub proof fn lemma_place(blocks: Seq<Block>, start: int, size: int, capacity: int)
    requires
        apart(blocks),
        sound(blocks, capacity),
        clear(blocks, start, start + size),
        size > 0,
    ensures
        0 <= place(blocks, start, 0) <= blocks.len(),
        forall|j: int|
            0 <= j < place(blocks, start, 0) ==> (#[trigger] blocks[j]).end() <= start,
        forall|j: int|
            place(blocks, start, 0) <= j < blocks.len() ==> (#[trigger] blocks[j]).start >= start
                + size,
{
    lemma_place_from(blocks, start, 0);
    let at = place(blocks, start, 0);
    assert forall|j: int| 0 <= j < at implies (#[trigger] blocks[j]).end() <= start by {
        assert(blocks[j].start < start);
    }
    assert forall|j: int| at <= j < blocks.len() implies (#[trigger] blocks[j]).start >= start
        + size by {
        if j > at {
            assert(blocks[at].end() < blocks[j].start);
        }
        assert(blocks[j].start >= start);
    }
}

proof fn lemma_place_from(blocks: Seq<Block>, start: int, i: int)
    requires
        0 <= i <= blocks.len(),
    ensures
        i <= place(blocks, start, i) <= blocks.len(),
        forall|j: int| i <= j < place(blocks, start, i) ==> (#[trigger] blocks[j]).start < start,
        place(blocks, start, i) < blocks.len() ==> blocks[place(blocks, start, i)].start >= start,
    decreases blocks.len() - i,
{
    if i < blocks.len() && blocks[i].start < start {
        lemma_place_from(blocks, start, i + 1);
    }
}

/// Blocks that are apart and lie below `capacity` have no more bytes than that.
pub proof fn lemma_total_fits(blocks: Seq<Block>, capacity: int)
    requires
        apart(blocks),
        sound(blocks, capacity),
        0 <= capacity,
    ensures
        0 <= total(blocks) <= capacity,
    decreases blocks.len(),
{
    if blocks.len() > 0 {
        let rest = blocks.drop_last();
        let last = blocks.last();
        assert forall|i: int| 0 <= i < rest.len() implies rest[i].end() <= last.start by {
            assert(blocks[i].end() < blocks[blocks.len() - 1].start);
        }
        assert(last == blocks[blocks.len() - 1]);
        lemma_total_fits(rest, last.start);
        assert(sizes(blocks).drop_last() =~= sizes(rest));
    }
}

/// What is true of the blocks once one has been added: they are apart and sound, have as many bytes
/// more, and hold a byte if they held it or the new one does.
pub proof fn lemma_with_block(blocks: Seq<Block>, start: int, size: int, capacity: int)
    requires
        apart(blocks),
        sound(blocks, capacity),
        clear(blocks, start, start + size),
        0 <= start,
        start % 8 == 0,
        size % 8 == 0,
        16 <= size,
        start + size <= capacity,
    ensures
        apart(with_block(blocks, start, size)),
        sound(with_block(blocks, start, size), capacity),
        total(with_block(blocks, start, size)) == total(blocks) + size,
        forall|byte: int|
            #[trigger] holds(with_block(blocks, start, size), byte) == (holds(blocks, byte) || start
                <= byte < start + size),
{
    lemma_with_block_apart(blocks, start, size, capacity);
    lemma_with_block_sound(blocks, start, size, capacity);
    lemma_with_block_total(blocks, start, size, capacity);
    assert forall|byte: int|
        #[trigger] holds(with_block(blocks, start, size), byte) == (holds(blocks, byte) || start
            <= byte < start + size) by {
        lemma_with_block_holds(blocks, start, size, capacity, byte);
    }
}

proof fn lemma_with_block_total(blocks: Seq<Block>, start: int, size: int, capacity: int)
    requires
        apart(blocks),
        sound(blocks, capacity),
        clear(blocks, start, start + size),
        16 <= size,
    ensures
        total(with_block(blocks, start, size)) == total(blocks) + size,
{
    lemma_place(blocks, start, size, capacity);
    let at = place(blocks, start, 0);
    let end = start + size;
    let next = with_block(blocks, start, size);
    let joins_before = at > 0 && blocks[at - 1].end() == start;
    let joins_after = at < blocks.len() && blocks[at].start == end;
    let old = sizes(blocks);
    if joins_before && joins_after {
        let joined = blocks[at - 1].size + size + blocks[at].size;
        lemma_sum_update(old, at - 1, joined);
        lemma_sum_remove(old.update(at - 1, joined), at);
        assert(sizes(next) =~= old.update(at - 1, joined).remove(at));
    } else if joins_before {
        let joined = blocks[at - 1].size + size;
        lemma_sum_update(old, at - 1, joined);
        assert(sizes(next) =~= old.update(at - 1, joined));
    } else if joins_after {
        let joined = size + blocks[at].size;
        lemma_sum_update(old, at, joined);
        assert(sizes(next) =~= old.update(at, joined));
    } else {
        lemma_sum_insert(old, at, size);
        assert(sizes(next) =~= old.insert(at, size));
    }
}

proof fn lemma_with_block_sound(blocks: Seq<Block>, start: int, size: int, capacity: int)
    requires
        apart(blocks),
        sound(blocks, capacity),
        clear(blocks, start, start + size),
        0 <= start,
        start % 8 == 0,
        size % 8 == 0,
        16 <= size,
        start + size <= capacity,
    ensures
        sound(with_block(blocks, start, size), capacity),
{
    lemma_place(blocks, start, size, capacity);
    let at = place(blocks, start, 0);
    let end = start + size;
    let next = with_block(blocks, start, size);
    let joins_before = at > 0 && blocks[at - 1].end() == start;
    let joins_after = at < blocks.len() && blocks[at].start == end;
    assert forall|i: int| 0 <= i < next.len() implies {
        &&& 0 <= (#[trigger] next[i]).start
        &&& next[i].start % 8 == 0
        &&& next[i].size % 8 == 0
        &&& 16 <= next[i].size
        &&& next[i].end() <= capacity
    } by {
        if joins_before && joins_after {
            if i < at - 1 {
                assert(next[i] == blocks[i]);
            } else if i > at - 1 {
                assert(next[i] == blocks[i + 1]);
            } else {
                assert(next[i].size == blocks[at - 1].size + size + blocks[at].size);
                assert(next[i].end() == blocks[at].end());
            }
        } else if joins_before || joins_after {
            let joined = if joins_before {
                at - 1
            } else {
                at
            };
            if i != joined {
                assert(next[i] == blocks[i]);
            } else {
                assert(next[i].size == blocks[i].size + size);
            }
        } else if i < at {
            assert(next[i] == blocks[i]);
        } else if i > at {
            assert(next[i] == blocks[i - 1]);
        }
    }
}

proof fn lemma_with_block_apart(blocks: Seq<Block>, start: int, size: int, capacity: int)
    requires
        apart(blocks),
        sound(blocks, capacity),
        clear(blocks, start, start + size),
        16 <= size,
    ensures
        apart(with_block(blocks, start, size)),
{
    lemma_place(blocks, start, size, capacity);
    let at = place(blocks, start, 0);
    let end = start + size;
    let next = with_block(blocks, start, size);
    let joins_before = at > 0 && blocks[at - 1].end() == start;
    let joins_after = at < blocks.len() && blocks[at].start == end;
    assert forall|i: int, j: int| 0 <= i < j < next.len() implies (#[trigger] next[i]).end() < (
    #[trigger] next[j]).start by {
        if joins_before && joins_after {
            let a = if i < at {
                i
            } else {
                i + 1
            };
            let b = if j < at {
                j
            } else {
                j + 1
            };
            assert(blocks[a].end() < blocks[b].start);
            if i == at - 1 {
                assert(next[i].end() == blocks[at].end());
                assert(blocks[at].end() < blocks[b].start);
            } else {
                assert(next[i] == blocks[a]);
            }
            assert(next[j].start == blocks[b].start);
        } else if joins_before {
            assert(blocks[i].end() < blocks[j].start);
            assert(next[j].start == blocks[j].start);
            if i == at - 1 {
                assert(next[i].end() == end);
                if j > at {
                    assert(blocks[at].end() < blocks[j].start);
                }
            }
        } else if joins_after {
            assert(blocks[i].end() < blocks[j].start);
            assert(next[i].end() == blocks[i].end());
            if j == at && i < at - 1 {
                assert(blocks[i].end() < blocks[at - 1].start);
            }
        } else if j == at {
            assert(next[i] == blocks[i]);
            if i < at - 1 {
                assert(blocks[i].end() < blocks[at - 1].start);
            }
        } else if i == at {
            assert(next[j] == blocks[j - 1]);
            if j - 1 > at {
                assert(blocks[at].end() < blocks[j - 1].start);
            }
        } else {
            let a = if i < at {
                i
            } else {
                i - 1
            };
            let b = if j < at {
                j
            } else {
                j - 1
            };
            assert(blocks[a].end() < blocks[b].start);
            assert(next[i] == blocks[a] && next[j] == blocks[b]);
        }
    }
}

/// A byte that was in a block stays in one when a block is added.
#[verifier::spinoff_prover]
#[verifier::rlimit(60)]
proof fn lemma_blocks_stay(blocks: Seq<Block>, start: int, size: int, capacity: int, byte: int)
    requires
        apart(blocks),
        sound(blocks, capacity),
        clear(blocks, start, start + size),
        size > 0,
        holds(blocks, byte),
    ensures
        holds(with_block(blocks, start, size), byte),
{
    lemma_place(blocks, start, size, capacity);
    let at = place(blocks, start, 0);
    let end = start + size;
    let next = with_block(blocks, start, size);
    let joins_before = at > 0 && blocks[at - 1].end() == start;
    let joins_after = at < blocks.len() && blocks[at].start == end;
    if holds(blocks, byte) {
        let j = choose|j: int|
            0 <= j < blocks.len() && (#[trigger] blocks[j]).start <= byte < blocks[j].end();
        let k = if joins_before && joins_after {
            if j >= at {
                j - 1
            } else {
                j
            }
        } else if !joins_before && !joins_after && j >= at {
            j + 1
        } else {
            j
        };
        assert(next[k].start <= byte < next[k].end());
    }
}

/// The bytes of a block that was added are in a block.
#[verifier::spinoff_prover]
#[verifier::rlimit(60)]
proof fn lemma_block_is_there(blocks: Seq<Block>, start: int, size: int, capacity: int, byte: int)
    requires
        apart(blocks),
        sound(blocks, capacity),
        clear(blocks, start, start + size),
        size > 0,
        start <= byte < start + size,
    ensures
        holds(with_block(blocks, start, size), byte),
{
    lemma_place(blocks, start, size, capacity);
    let at = place(blocks, start, 0);
    let end = start + size;
    let next = with_block(blocks, start, size);
    let joins_before = at > 0 && blocks[at - 1].end() == start;
    let joins_after = at < blocks.len() && blocks[at].start == end;
    if start <= byte < end {
        let k = if joins_before {
            at - 1
        } else {
            at
        };
        assert(next[k].start <= byte < next[k].end());
    }
}

/// A byte that is in a block after one was added was in one, or is of that block.
#[verifier::spinoff_prover]
#[verifier::rlimit(60)]
proof fn lemma_only_the_block_is_new(blocks: Seq<Block>, start: int, size: int, capacity: int, byte: int)
    requires
        apart(blocks),
        sound(blocks, capacity),
        clear(blocks, start, start + size),
        size > 0,
        holds(with_block(blocks, start, size), byte),
    ensures
        holds(blocks, byte) || start <= byte < start + size,
{
    lemma_place(blocks, start, size, capacity);
    let at = place(blocks, start, 0);
    let end = start + size;
    let next = with_block(blocks, start, size);
    let joins_before = at > 0 && blocks[at - 1].end() == start;
    let joins_after = at < blocks.len() && blocks[at].start == end;
    if holds(next, byte) {
        let j = choose|j: int|
            0 <= j < next.len() && (#[trigger] next[j]).start <= byte < next[j].end();
        if joins_before && joins_after {
            if j < at - 1 {
                assert(next[j] == blocks[j]);
            } else if j > at - 1 {
                assert(next[j] == blocks[j + 1]);
            } else if byte < start {
                assert(blocks[at - 1].start <= byte < blocks[at - 1].end());
            } else if byte >= end {
                assert(blocks[at].start <= byte < blocks[at].end());
            }
        } else if joins_before {
            if j == at - 1 && byte < start {
                assert(blocks[at - 1].start <= byte < blocks[at - 1].end());
            } else if j != at - 1 {
                assert(next[j] == blocks[j]);
            }
        } else if joins_after {
            if j == at && byte >= end {
                assert(blocks[at].start <= byte < blocks[at].end());
            } else if j != at {
                assert(next[j] == blocks[j]);
            }
        } else {
            if j < at {
                assert(next[j] == blocks[j]);
            } else if j > at {
                assert(next[j] == blocks[j - 1]);
            }
        }
    }
}

/// Which bytes are in a block after one was added.
proof fn lemma_with_block_holds(blocks: Seq<Block>, start: int, size: int, capacity: int, byte: int)
    requires
        apart(blocks),
        sound(blocks, capacity),
        clear(blocks, start, start + size),
        size > 0,
    ensures
        holds(with_block(blocks, start, size), byte) == (holds(blocks, byte) || start <= byte < start
            + size),
{
    if holds(blocks, byte) {
        lemma_blocks_stay(blocks, start, size, capacity, byte);
    }
    if start <= byte < start + size {
        lemma_block_is_there(blocks, start, size, capacity, byte);
    }
    if holds(with_block(blocks, start, size), byte) {
        lemma_only_the_block_is_new(blocks, start, size, capacity, byte);
    }
}

/// The blocks without the first `taken` bytes of block `i`.
pub open spec fn without(blocks: Seq<Block>, i: int, taken: int) -> Seq<Block> {
    if blocks[i].size == taken {
        blocks.remove(i)
    } else {
        blocks.update(i, Block { start: blocks[i].start + taken, size: blocks[i].size - taken })
    }
}

/// What is true of the blocks once bytes have been taken from the front of one.
pub proof fn lemma_without(blocks: Seq<Block>, i: int, taken: int, capacity: int)
    requires
        apart(blocks),
        sound(blocks, capacity),
        0 <= i < blocks.len(),
        0 < taken,
        taken % 8 == 0,
        taken == blocks[i].size || taken + 16 <= blocks[i].size,
    ensures
        apart(without(blocks, i, taken)),
        sound(without(blocks, i, taken), capacity),
        total(without(blocks, i, taken)) == total(blocks) - taken,
        clear(without(blocks, i, taken), blocks[i].start, blocks[i].start + taken),
        forall|byte: int|
            #[trigger] holds(without(blocks, i, taken), byte) || blocks[i].start <= byte
                < blocks[i].start + taken <==> holds(blocks, byte),
{
    let old = sizes(blocks);
    let next = without(blocks, i, taken);
    let block = blocks[i];
    let whole = block.size == taken;
    if whole {
        lemma_sum_remove(old, i);
        assert(sizes(next) =~= old.remove(i));
    } else {
        lemma_sum_update(old, i, block.size - taken);
        assert(sizes(next) =~= old.update(i, block.size - taken));
        assert(next[i].end() == block.end());
    }
    assert forall|j: int| 0 <= j < next.len() implies (#[trigger] next[j]).end() <= block.start
        || block.start + taken <= next[j].start by {
        let k = if whole && j >= i {
            j + 1
        } else {
            j
        };
        if k < i {
            assert(blocks[k].end() < blocks[i].start);
        } else if k > i {
            assert(blocks[i].end() < blocks[k].start);
        }
    }
    assert forall|byte: int| #[trigger] holds(next, byte) || block.start <= byte < block.start
        + taken implies holds(blocks, byte) by {
        if holds(next, byte) {
            let j = choose|j: int|
                0 <= j < next.len() && (#[trigger] next[j]).start <= byte < next[j].end();
            let k = if whole && j >= i {
                j + 1
            } else {
                j
            };
            assert(blocks[k].start <= byte < blocks[k].end());
        } else {
            assert(blocks[i].start <= byte < blocks[i].end());
        }
    }
    assert forall|byte: int| holds(blocks, byte) implies #[trigger] holds(next, byte) || block.start
        <= byte < block.start + taken by {
        let j = choose|j: int|
            0 <= j < blocks.len() && (#[trigger] blocks[j]).start <= byte < blocks[j].end();
        if j == i {
            if byte >= block.start + taken {
                assert(next[i].start <= byte < next[i].end());
            }
        } else {
            let k = if whole && j > i {
                j - 1
            } else {
                j
            };
            assert(next[k] == blocks[j]);
        }
    }
}

} // verus!
