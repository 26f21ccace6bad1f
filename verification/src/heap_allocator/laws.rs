//! What the heap promises as a whole.

use vstd::prelude::*;
use crate::heap_allocator::blocks::{holds, longest, place, Block};
use crate::heap_allocator::heap::{combined, expansion_fault, served, usage};
use crate::heap_allocator::blocks::{lemma_place, lemma_with_block};
use crate::heap_allocator::region::{
    allocated, extent, fits, fitting, in_order, lemma_allocated, lemma_allocations_fit,
    lemma_released, lemma_round_up, released, round_up, separate, set_up, stride, takes, Allocation,
    HeapModel, HeapStats,
};

verus! {

/// A heap with nothing allocated is one free block: whatever was given back has been joined.
pub proof fn an_empty_heap_is_one_block(model: HeapModel, capacity: int)
    requires
        model.well_formed(capacity),
        model.initialized,
        0 < capacity,
        model.live == Map::<int, Allocation>::empty(),
    ensures
        model.blocks == seq![Block { start: 0, size: capacity }],
        model.used == 0,
{
    reveal(in_order);
    let blocks = model.blocks;
    assert(!takes(model.live, 0));
    assert(holds(blocks, 0));
    let first = choose|i: int| 0 <= i < blocks.len() && (#[trigger] blocks[i]).start <= 0 < blocks[i].end();
    assert(first == 0) by {
        if first > 0 {
            assert(blocks[0].end() < blocks[first].start);
        }
    }
    let end = blocks[0].end();
    assert(end == capacity) by {
        if end < capacity {
            assert(!takes(model.live, end));
            assert(holds(blocks, end));
            let next = choose|i: int|
                0 <= i < blocks.len() && (#[trigger] blocks[i]).start <= end < blocks[i].end();
            if next > 0 {
                assert(blocks[0].end() < blocks[next].start);
            }
        }
    }
    assert(blocks.len() == 1) by {
        if blocks.len() > 1 {
            assert(blocks[0].end() < blocks[1].start);
        }
    }
    assert(blocks =~= seq![Block { start: 0, size: capacity }]);
    assert(crate::heap_allocator::blocks::sizes(blocks) =~= seq![capacity]);
    assert(crate::heap_allocator::blocks::sizes(blocks).drop_last() =~= Seq::<int>::empty());
    assert(crate::sums::sum(crate::heap_allocator::blocks::sizes(blocks).drop_last()) == 0);
}

/// The memory of an allocation is as long as was asked for, aligned, and has no byte in common with
/// any other.
pub proof fn an_allocation_is_on_its_own(
    model: HeapModel,
    size: int,
    align: int,
    capacity: int,
    other: int,
)
    requires
        model.well_formed(capacity),
        model.initialized,
        0 <= capacity <= isize::MAX,
        0 <= size,
        0 < align,
    ensures
        allocated(model, size, align) matches (next, Some(user)) ==> {
            &&& next.live.contains_key(user)
            &&& next.live[user].requested == extent(size)
            &&& next.live[user].start + 32 <= user
            &&& user + extent(size) <= next.live[user].end()
            &&& next.live[user].end() <= capacity
            &&& user % stride(align) == 0
            &&& model.live.contains_key(other) ==> next.live.contains_key(other) && next.live[other]
                == model.live[other] && separate(next.live[user], next.live[other])
        },
{
    lemma_allocated(model, size, align, capacity);
    reveal(in_order);
    if allocated(model, size, align).1 is Some {
        let (next, given) = allocated(model, size, align);
        let user = given.unwrap();
        lemma_allocations_fit(next, capacity, user);
        let i = fitting(model.blocks, size, align, 0).unwrap();
        crate::heap_allocator::region::lemma_fitting(model.blocks, size, align, 0);
        lemma_round_up(model.blocks[i].start + 32, stride(align));
        if model.live.contains_key(other) {
            assert(next.live.contains_key(other) && next.live.contains_key(user));
        }
    }
}

/// What was given back can be allocated again, as large and aligned as it was.
pub proof fn what_was_given_back_can_be_allocated(
    model: HeapModel,
    user: int,
    size: int,
    align: int,
    capacity: int,
)
    requires
        model.well_formed(capacity),
        model.initialized,
        0 <= capacity <= isize::MAX,
        0 <= size,
        0 < align,
        model.live.contains_key(user),
        user == round_up(model.live[user].start + 32, stride(align)),
        model.live[user].requested == extent(size),
    ensures
        allocated(released(model, user), size, align).1 is Some,
{
    let allocation = model.live[user];
    lemma_released(model, user, capacity);
    lemma_allocations_fit(model, capacity, user);
    let next = released(model, user);
    reveal(in_order);
    lemma_with_block(model.blocks, allocation.start, allocation.size, capacity);
    lemma_place(model.blocks, allocation.start, allocation.size, capacity);
    let at = place(model.blocks, allocation.start, 0);
    let joins_before = at > 0 && model.blocks[at - 1].end() == allocation.start;
    let k = if joins_before {
        at - 1
    } else {
        at
    };
    let block = next.blocks[k];
    assert(block.start <= allocation.start && allocation.end() <= block.end());
    lemma_round_up_monotone(block.start + 32, allocation.start + 32, stride(align));
    assert(fits(block, size, align));
    crate::heap_allocator::region::lemma_fitting(next.blocks, size, align, 0);
}

/// Rounding up keeps the order.
proof fn lemma_round_up_monotone(a: int, b: int, step: int)
    requires
        0 <= a <= b,
        0 < step,
    ensures
        round_up(a, step) <= round_up(b, step),
{
    reveal(round_up);
    let p = (a + step - 1) / step;
    let q = (b + step - 1) / step;
    vstd::arithmetic::div_mod::lemma_div_is_ordered(a + step - 1, b + step - 1, step);
    assert(p * step <= q * step) by (nonlinear_arith)
        requires
            p <= q,
            0 < step,
    ;
}

/// A request is served if and only if a free block has room for the header of 32 bytes, what aligns the
/// memory behind it, and the memory; a request for nothing takes a byte.
pub proof fn a_request_is_served_while_a_block_has_room(
    model: HeapModel,
    capacity: int,
    size: int,
    align: int,
)
    requires
        model.initialized,
        0 <= size,
        0 < align,
    ensures
        ({
            let step = if align > 8 {
                align
            } else {
                8
            };
            let bytes = if size > 0 {
                size
            } else {
                1
            };
            let (next, given) = served(model, capacity, size, align);
            &&& given is Some <==> exists|i: int|
                0 <= i < model.blocks.len() && round_up(
                    (#[trigger] model.blocks[i]).start + 32,
                    step,
                ) + bytes <= model.blocks[i].start + model.blocks[i].size
            &&& given is None ==> next == (HeapModel {
                failures: if model.failures < usize::MAX {
                    (model.failures + 1) as usize
                } else {
                    usize::MAX
                },
                ..model
            })
            &&& given is Some ==> {
                &&& next.failures == model.failures
                &&& next.allocations == if model.allocations < usize::MAX {
                    model.allocations + 1
                } else {
                    usize::MAX as int
                }
                &&& next.deallocations == model.deallocations
                &&& next.peak >= next.used && next.peak >= model.peak
                &&& next.peak == next.used || next.peak == model.peak
            }
        }),
{
    crate::heap_allocator::region::lemma_fitting(model.blocks, size, align, 0);
}

/// What was given back is counted, and its bytes are free again.
pub proof fn what_was_given_back_is_counted(model: HeapModel, user: int)
    requires
        model.live.contains_key(user),
    ensures
        ({
            let next = released(model, user);
            &&& next.used == model.used - model.live[user].size
            &&& !next.live.contains_key(user)
            &&& next.peak == model.peak
            &&& next.allocations == model.allocations && next.failures == model.failures
            &&& next.deallocations == if model.deallocations < usize::MAX {
                model.deallocations + 1
            } else {
                usize::MAX as int
            }
        }),
{
}

/// The numbers of a heap: what is used and what is free make its capacity, the largest free block is one
/// of them and none is larger, and the counts are those of the requests.
pub proof fn a_heap_is_accounted_for(model: HeapModel, capacity: int)
    requires
        model.well_formed(capacity),
        model.initialized,
        0 <= capacity <= isize::MAX,
    ensures
        ({
            let stats = usage(model, capacity);
            &&& stats.capacity_bytes == capacity
            &&& stats.used_bytes + stats.free_bytes == capacity
            &&& stats.used_bytes == model.used
            &&& stats.peak_used_bytes == model.peak as usize
            &&& stats.total_allocations == model.allocations
            &&& stats.total_deallocations == model.deallocations
            &&& stats.failed_allocations == model.failures
        }),
        forall|i: int|
            0 <= i < model.blocks.len() ==> (#[trigger] model.blocks[i]).size <= longest(model.blocks),
        model.blocks.len() > 0 ==> exists|i: int|
            0 <= i < model.blocks.len() && (#[trigger] model.blocks[i]).size == longest(model.blocks),
{
    reveal(in_order);
    crate::heap_allocator::blocks::lemma_total_fits(model.blocks, capacity);
    lemma_longest(model.blocks);
}

proof fn lemma_longest(blocks: Seq<Block>)
    requires
        forall|i: int| 0 <= i < blocks.len() ==> 0 < (#[trigger] blocks[i]).size,
    ensures
        forall|i: int| 0 <= i < blocks.len() ==> (#[trigger] blocks[i]).size <= longest(blocks),
        blocks.len() > 0 ==> exists|i: int|
            0 <= i < blocks.len() && (#[trigger] blocks[i]).size == longest(blocks),
    decreases blocks.len(),
{
    if blocks.len() > 0 {
        let before = blocks.drop_last();
        assert forall|i: int| 0 <= i < before.len() implies 0 < (#[trigger] before[i]).size by {
            assert(blocks[i] == before[i]);
        }
        lemma_longest(before);
        assert forall|i: int| 0 <= i < blocks.len() implies (#[trigger] blocks[i]).size <= longest(
            blocks,
        ) by {
            if i < before.len() {
                assert(before[i] == blocks[i]);
            }
        }
        if longest(blocks) == blocks.last().size {
            assert(blocks[blocks.len() - 1].size == longest(blocks));
        } else {
            let i = choose|i: int|
                0 <= i < before.len() && (#[trigger] before[i]).size == longest(before);
            assert(blocks[i] == before[i]);
        }
    }
}

/// Memory can be added to a heap if and only if it starts at an address other than zero that is a
/// multiple of eight, has a length that is one and has room for a block, ends within the address space,
/// has no byte in common with the first memory, and none was added before.
pub proof fn memory_is_added_once_and_apart(
    base: usize,
    capacity: int,
    bootstrap: int,
    bootstrap_end: int,
    present: bool,
)
    requires
        bootstrap < bootstrap_end,
    ensures
        expansion_fault(base, capacity, bootstrap, bootstrap_end, present) is None <==> {
            &&& base != 0 && base as int % 8 == 0
            &&& capacity >= 16 && capacity % 8 == 0 && base + capacity <= usize::MAX
            &&& base + capacity <= bootstrap || bootstrap_end <= base
            &&& !present
        },
{
}

/// The numbers of two runs of memory are those of each added up, and the larger of the two blocks.
pub proof fn two_heaps_add_up(a: HeapStats, b: HeapStats)
    requires
        a.capacity_bytes + b.capacity_bytes <= usize::MAX,
        a.used_bytes + b.used_bytes <= usize::MAX,
        a.peak_used_bytes + b.peak_used_bytes <= usize::MAX,
        a.free_bytes + b.free_bytes <= usize::MAX,
        a.live_allocations + b.live_allocations <= usize::MAX,
        a.total_allocations + b.total_allocations <= usize::MAX,
        a.total_deallocations + b.total_deallocations <= usize::MAX,
        a.failed_allocations + b.failed_allocations <= usize::MAX,
    ensures
        ({
            let both = combined(a, b);
            &&& both.capacity_bytes == a.capacity_bytes + b.capacity_bytes
            &&& both.used_bytes == a.used_bytes + b.used_bytes
            &&& both.peak_used_bytes == a.peak_used_bytes + b.peak_used_bytes
            &&& both.free_bytes == a.free_bytes + b.free_bytes
            &&& both.live_allocations == a.live_allocations + b.live_allocations
            &&& both.total_allocations == a.total_allocations + b.total_allocations
            &&& both.total_deallocations == a.total_deallocations + b.total_deallocations
            &&& both.failed_allocations == a.failed_allocations + b.failed_allocations
            &&& a.largest_free_block <= both.largest_free_block && b.largest_free_block
                <= both.largest_free_block
            &&& both.largest_free_block == a.largest_free_block || both.largest_free_block
                == b.largest_free_block
        }),
{
}

/// A heap is set up once: as one free block from its start, of all it has.
pub proof fn a_heap_is_set_up_once(model: HeapModel, capacity: int)
    ensures
        model.initialized ==> set_up(model, capacity) == model,
        !model.initialized ==> {
            let ready = set_up(model, capacity);
            &&& ready.initialized
            &&& ready.blocks.len() == 1
            &&& ready.blocks[0].start == 0
            &&& ready.blocks[0].size == capacity
            &&& ready.live == model.live && ready.used == model.used && ready.peak == model.peak
            &&& ready.allocations == model.allocations && ready.deallocations == model.deallocations
            &&& ready.failures == model.failures
        },
        set_up(set_up(model, capacity), capacity) == set_up(model, capacity),
{
}

} // verus!
