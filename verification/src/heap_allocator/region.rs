//! One run of memory that allocations are served from.

use vstd::prelude::*;
use crate::bytes::{get_le_u64, le64, lemma_numbers_agree, put_le_u64, same_outside};
use crate::heap_allocator::blocks::{
    apart, clear, holds, lemma_place, lemma_total_fits, lemma_with_block, lemma_without, longest,
    place, sizes, sound, total, with_block, without, Block,
};

verus! {

pub const FREE_LIST_END: usize = usize::MAX;

pub const ALLOCATION_MAGIC: u64 = 0x4344_5848_4541_5031;

/// How many bytes the fields of a free block take.
pub const FREE_BLOCK_BYTES: usize = 16;

/// How many bytes the header of an allocation takes.
pub const HEADER_BYTES: usize = 32;

/// How a heap is used.
#[derive(Debug, Clone, Copy, PartialEq, Eq, Structural)]
pub struct HeapStats {
    pub capacity_bytes: usize,
    pub used_bytes: usize,
    pub peak_used_bytes: usize,
    pub free_bytes: usize,
    pub largest_free_block: usize,
    pub live_allocations: usize,
    pub total_allocations: usize,
    pub total_deallocations: usize,
    pub failed_allocations: usize,
}

/// An allocation: the block it takes, and how many bytes were asked for.
#[verifier::ext_equal]
pub ghost struct Allocation {
    pub start: int,
    pub size: int,
    pub requested: int,
}

impl Allocation {
    pub open spec fn end(self) -> int {
        self.start + self.size
    }
}

/// What is known of a run of memory beside what stands in it.
pub struct AllocatorState {
    pub initialized: bool,
    pub free_head: usize,
    pub used_bytes: usize,
    pub peak_used_bytes: usize,
    pub live_allocations: usize,
    pub total_allocations: usize,
    pub total_deallocations: usize,
    pub failed_allocations: usize,
    /// The free blocks.
    pub blocks: Ghost<Seq<Block>>,
    /// The allocations by where their memory starts.
    pub live: Ghost<Map<int, Allocation>>,
}

/// What a run of memory stands for.
#[verifier::ext_equal]
pub ghost struct HeapModel {
    pub initialized: bool,
    pub blocks: Seq<Block>,
    pub live: Map<int, Allocation>,
    pub used: int,
    pub peak: int,
    pub allocations: usize,
    pub deallocations: usize,
    pub failures: usize,
}

impl View for AllocatorState {
    type V = HeapModel;

    open spec fn view(&self) -> HeapModel {
        HeapModel {
            initialized: self.initialized,
            blocks: self.blocks@,
            live: self.live@,
            used: self.used_bytes as int,
            peak: self.peak_used_bytes as int,
            allocations: self.total_allocations,
            deallocations: self.total_deallocations,
            failures: self.failed_allocations,
        }
    }
}

/// Memory of which nothing is known yet.
pub open spec fn empty_model() -> HeapModel {
    HeapModel {
        initialized: false,
        blocks: seq![],
        live: Map::empty(),
        used: 0,
        peak: 0,
        allocations: 0,
        deallocations: 0,
        failures: 0,
    }
}

/// The number that stands at `at`.
#[verifier::opaque]
pub open spec fn field(memory: Seq<u8>, at: int) -> int {
    le64(memory, at)
}

/// The number that stands at `at`.
fn read_field(memory: &[u8], at: usize) -> (value: u64)
    requires
        at + 8 <= memory.len(),
    ensures
        value == field(memory@, at as int),
{
    reveal(field);
    get_le_u64(memory, at)
}

/// Writes a number at `at`.
fn write_field(memory: &mut [u8], at: usize, value: u64)
    requires
        at + 8 <= old(memory).len(),
    ensures
        final(memory)@.len() == old(memory)@.len(),
        same_outside(old(memory)@, final(memory)@, at as int, 8),
        field(final(memory)@, at as int) == value,
{
    reveal(field);
    put_le_u64(memory, at, value);
}

/// Memory that agrees on the bytes of a number agrees on the number.
pub proof fn lemma_fields_agree(a: Seq<u8>, b: Seq<u8>, at: int)
    requires
        0 <= at,
        at + 8 <= a.len(),
        at + 8 <= b.len(),
        forall|i: int| at <= i < at + 8 ==> #[trigger] b[i] == a[i],
    ensures
        field(a, at) == field(b, at),
{
    reveal(field);
    lemma_numbers_agree(a, b, at, 8);
}

/// Where block `i` starts, or the mark of the list's end.
pub open spec fn link(blocks: Seq<Block>, i: int) -> int {
    if 0 <= i < blocks.len() {
        blocks[i].start
    } else {
        FREE_LIST_END as int
    }
}

/// The fields of block `i` are in place.
pub open spec fn block_in_place(memory: Seq<u8>, blocks: Seq<Block>, i: int) -> bool {
    &&& field(memory, blocks[i].start) == blocks[i].size
    &&& field(memory, blocks[i].start + 8) == link(blocks, i + 1)
}

/// The fields of every free block are in place.
pub open spec fn list_in_place(memory: Seq<u8>, blocks: Seq<Block>) -> bool {
    forall|i: int|
        0 <= i < blocks.len() ==> #[trigger] block_in_place(memory, blocks, i)
}

/// The header of the allocation whose memory starts at `user` is in place.
pub open spec fn header_in_place(memory: Seq<u8>, user: int, allocation: Allocation) -> bool {
    &&& field(memory, user - 32) == ALLOCATION_MAGIC
    &&& field(memory, user - 24) == allocation.start
    &&& field(memory, user - 16) == allocation.size
    &&& field(memory, user - 8) == allocation.requested
}

/// The allocation whose memory starts at `user` has room for its header and its memory.
pub open spec fn sound_allocation(user: int, allocation: Allocation, capacity: int) -> bool {
    &&& 0 <= allocation.start
    &&& allocation.start % 8 == 0
    &&& allocation.size % 8 == 0
    &&& allocation.start + HEADER_BYTES <= user
    &&& 1 <= allocation.requested
    &&& user + allocation.requested <= allocation.end()
    &&& allocation.end() <= capacity
}

/// The bytes of two allocations have none in common.
pub open spec fn separate(a: Allocation, b: Allocation) -> bool {
    a.end() <= b.start || b.end() <= a.start
}

/// One of the allocations takes the byte.
pub open spec fn takes(live: Map<int, Allocation>, byte: int) -> bool {
    exists|user: int|
        #[trigger] live.contains_key(user) && live[user].start <= byte < live[user].end()
}

/// Every byte is in a free block or taken by an allocation, and never both.
#[verifier::opaque]
pub open spec fn in_order(blocks: Seq<Block>, live: Map<int, Allocation>, capacity: int) -> bool {
    &&& apart(blocks)
    &&& sound(blocks, capacity)
    &&& forall|user: int| #[trigger]
        live.contains_key(user) ==> sound_allocation(user, live[user], capacity) && clear(
            blocks,
            live[user].start,
            live[user].end(),
        )
    &&& forall|a: int, b: int| #[trigger]
        live.contains_key(a) && #[trigger] live.contains_key(b) && a != b ==> separate(
            live[a],
            live[b],
        )
    &&& forall|byte: int|
        0 <= byte < capacity ==> #[trigger] holds(blocks, byte) || takes(live, byte)
}

impl HeapModel {
    /// The memory is in order, and what is used of it is what is not free.
    pub open spec fn well_formed(self, capacity: int) -> bool {
        &&& 0 <= self.used <= self.peak <= usize::MAX
        &&& if self.initialized {
            &&& in_order(self.blocks, self.live, capacity)
            &&& self.used + total(self.blocks) == capacity
        } else {
            &&& self.blocks == Seq::<Block>::empty()
            &&& self.live == Map::<int, Allocation>::empty()
            &&& self.used == 0
        }
    }
}

/// The least multiple of `step` that is not below `value`.
#[verifier::opaque]
pub open spec fn round_up(value: int, step: int) -> int {
    (value + step - 1) / step * step
}

/// What the alignment of an allocation comes to: its header is aligned too.
pub open spec fn stride(align: int) -> int {
    if align > 8 {
        align
    } else {
        8
    }
}

/// What the size of an allocation comes to: none is empty.
pub open spec fn extent(size: int) -> int {
    if size > 1 {
        size
    } else {
        1
    }
}

/// Where the memory of an allocation would start in a block.
pub open spec fn user_start(block: Block, align: int) -> int {
    round_up(block.start + HEADER_BYTES, stride(align))
}

/// Whether an allocation fits a block.
pub open spec fn fits(block: Block, size: int, align: int) -> bool {
    user_start(block, align) + extent(size) <= block.end()
}

/// The first block from `i` on that an allocation fits.
pub open spec fn fitting(blocks: Seq<Block>, size: int, align: int, i: int) -> Option<int>
    decreases blocks.len() - i,
{
    if i < 0 || i >= blocks.len() {
        None
    } else if fits(blocks[i], size, align) {
        Some(i)
    } else {
        fitting(blocks, size, align, i + 1)
    }
}

/// How many bytes an allocation takes of a block: all of it, unless what is left has room for the
/// fields of a free block.
pub open spec fn bytes_taken(block: Block, size: int, align: int) -> int {
    let end = round_up(user_start(block, align) + extent(size), 8);
    if end <= block.end() && block.end() - end >= FREE_BLOCK_BYTES {
        end - block.start
    } else {
        block.size
    }
}

/// One more, as far as it can be counted.
pub open spec fn counted(count: usize) -> usize {
    if count == usize::MAX {
        count
    } else {
        (count + 1) as usize
    }
}

/// What an allocation gives, and the state after it.
pub open spec fn allocated(model: HeapModel, size: int, align: int) -> (HeapModel, Option<int>) {
    match fitting(model.blocks, size, align, 0) {
        None => (model, None),
        Some(i) => {
            let block = model.blocks[i];
            let taken = bytes_taken(block, size, align);
            let user = user_start(block, align);
            let used = model.used + taken;
            (
                HeapModel {
                    blocks: without(model.blocks, i, taken),
                    live: model.live.insert(
                        user,
                        Allocation { start: block.start, size: taken, requested: extent(size) },
                    ),
                    used,
                    peak: if used > model.peak {
                        used
                    } else {
                        model.peak
                    },
                    allocations: counted(model.allocations),
                    ..model
                },
                Some(user),
            )
        },
    }
}

/// The state after the allocation whose memory starts at `user` was given back.
pub open spec fn released(model: HeapModel, user: int) -> HeapModel {
    let allocation = model.live[user];
    HeapModel {
        blocks: with_block(model.blocks, allocation.start, allocation.size),
        live: model.live.remove(user),
        used: model.used - allocation.size,
        deallocations: counted(model.deallocations),
        ..model
    }
}

/// The state once the memory is set up: all of it is free.
pub open spec fn set_up(model: HeapModel, capacity: int) -> HeapModel {
    if model.initialized {
        model
    } else {
        HeapModel {
            initialized: true,
            blocks: seq![Block { start: 0, size: capacity }],
            ..model
        }
    }
}

/// Whether what stands before `user` looks like the header of an allocation.
pub open spec fn header_looks_valid(memory: Seq<u8>, user: int) -> bool {
    &&& field(memory, user - 32) == ALLOCATION_MAGIC
    &&& field(memory, user - 24) < memory.len()
    &&& field(memory, user - 16) > 0
    &&& field(memory, user - 24) + field(memory, user - 16) <= memory.len()
}

/// `after` has the bytes of every allocation but the one at `user` as `before` has them.
pub open spec fn others_keep_their_bytes(
    live: Map<int, Allocation>,
    user: int,
    before: Seq<u8>,
    after: Seq<u8>,
) -> bool {
    forall|other: int, byte: int|
        #[trigger] live.contains_key(other) && other != user && live[other].start <= byte
            < live[other].end() ==> #[trigger] after[byte] == before[byte]
}

/// The list and the headers stand in the memory, and the state agrees with them.
pub open spec fn region_well_formed(state: AllocatorState, memory: Seq<u8>) -> bool {
    &&& FREE_BLOCK_BYTES <= memory.len() <= isize::MAX
    &&& memory.len() % 8 == 0
    &&& state@.well_formed(memory.len() as int)
    &&& state.live@.dom().finite()
    &&& state.live_allocations == state.live@.dom().len()
    &&& state.initialized ==> {
        &&& state.free_head == link(state.blocks@, 0)
        &&& list_in_place(memory, state.blocks@)
        &&& forall|user: int| #[trigger]
            state.live@.contains_key(user) ==> header_in_place(memory, user, state.live@[user])
    }
}

impl AllocatorState {
    /// Nothing is known of the memory yet.
    pub fn new() -> (state: AllocatorState)
        ensures
            state@ == empty_model(),
            state.live_allocations == 0,
    {
        AllocatorState {
            initialized: false,
            free_head: FREE_LIST_END,
            used_bytes: 0,
            peak_used_bytes: 0,
            live_allocations: 0,
            total_allocations: 0,
            total_deallocations: 0,
            failed_allocations: 0,
            blocks: Ghost(Seq::empty()),
            live: Ghost(Map::empty()),
        }
    }
}

/// Writes the fields of a free block.
fn write_free_block(memory: &mut [u8], offset: usize, size: usize, next: usize)
    requires
        offset + FREE_BLOCK_BYTES <= old(memory).len(),
    ensures
        final(memory)@.len() == old(memory)@.len(),
        same_outside(old(memory)@, final(memory)@, offset as int, 16),
        field(final(memory)@, offset as int) == size,
        field(final(memory)@, offset + 8) == next,
{
    write_field(memory, offset, size as u64);
    let ghost between = memory@;
    write_field(memory, offset + 8, next as u64);
    proof {
        lemma_fields_agree(between, memory@, offset as int);
    }
}

/// Sets the memory up, unless that has been done.
pub fn initialize(state: &mut AllocatorState, memory: &mut [u8])
    requires
        region_well_formed(*old(state), old(memory)@),
    ensures
        final(memory)@.len() == old(memory)@.len(),
        region_well_formed(*final(state), final(memory)@),
        final(state)@ == set_up(old(state)@, old(memory)@.len() as int),
        final(state).live_allocations == old(state).live_allocations,
        old(state)@.initialized ==> final(memory)@ == old(memory)@,
{
    proof {
        reveal(in_order);
    }
    if state.initialized {
        return;
    }
    let capacity: usize = memory.len();
    write_free_block(memory, 0, capacity, FREE_LIST_END);
    state.free_head = 0;
    state.initialized = true;
    let ghost blocks = seq![Block { start: 0, size: capacity as int }];
    state.blocks = Ghost(blocks);
    proof {
        assert(sizes(blocks) =~= seq![capacity as int]);
        assert(sizes(blocks).drop_last() =~= Seq::<int>::empty());
        assert(crate::sums::sum(sizes(blocks).drop_last()) == 0);
        assert(total(blocks) == capacity);
        assert forall|byte: int| 0 <= byte < capacity implies #[trigger] holds(blocks, byte) by {
            assert(blocks[0].start <= byte < blocks[0].end());
        }
        assert(state@ =~= set_up(old(state)@, capacity as int));
    }
}

/// How the memory is used.
pub fn region_stats(state: &AllocatorState, memory: &[u8]) -> (stats: HeapStats)
    requires
        region_well_formed(*state, memory@),
        state.initialized,
    ensures
        stats == (HeapStats {
            capacity_bytes: memory@.len() as usize,
            used_bytes: state@.used as usize,
            peak_used_bytes: state@.peak as usize,
            free_bytes: (memory@.len() - state@.used) as usize,
            largest_free_block: longest(state@.blocks) as usize,
            live_allocations: state@.live.dom().len() as usize,
            total_allocations: state@.allocations,
            total_deallocations: state@.deallocations,
            failed_allocations: state@.failures,
        }),
{
    let ghost blocks = state.blocks@;
    let mut free_bytes: usize = 0;
    let mut largest: usize = 0;
    let mut current: usize = state.free_head;
    let ghost mut i: int = 0;
    proof {
        reveal(in_order);
        lemma_total_fits(blocks, memory@.len() as int);
        assert(blocks.take(0) =~= Seq::<Block>::empty());
        assert(sizes(blocks.take(0)) =~= Seq::<int>::empty());
    }
    while current != FREE_LIST_END
        invariant
            region_well_formed(*state, memory@),
            state.initialized,
            blocks == state.blocks@,
            0 <= i <= blocks.len(),
            current == link(blocks, i),
            free_bytes == total(blocks.take(i)),
            largest == longest(blocks.take(i)),
            0 <= total(blocks) <= memory@.len(),
        decreases blocks.len() - i,
    {
        proof {
            reveal(in_order);
        }
        assert(i < blocks.len());
        assert(block_in_place(memory@, blocks, i));
        let size: usize = read_field(memory, current) as usize;
        let next: usize = read_field(memory, current + 8) as usize;
        proof {
            let more = blocks.take(i + 1);
            assert(more.drop_last() =~= blocks.take(i));
            assert(more.last() == blocks[i]);
            assert(sizes(more).drop_last() =~= sizes(blocks.take(i)));
            lemma_total_fits(more, memory@.len() as int);
            i = i + 1;
        }
        free_bytes = free_bytes.saturating_add(size);
        if size > largest {
            largest = size;
        }
        current = next;
    }
    assert(i == blocks.len()) by {
        reveal(in_order);
        if i < blocks.len() {
            assert(blocks[i].start == FREE_LIST_END);
        }
    }
    assert(blocks.take(i) =~= blocks);
    HeapStats {
        capacity_bytes: memory.len(),
        used_bytes: state.used_bytes,
        peak_used_bytes: state.peak_used_bytes,
        free_bytes,
        largest_free_block: largest,
        live_allocations: state.live_allocations,
        total_allocations: state.total_allocations,
        total_deallocations: state.total_deallocations,
        failed_allocations: state.failed_allocations,
    }
}

/// Rounding up goes no further than the next multiple.
pub proof fn lemma_round_up(value: int, step: int)
    requires
        step > 0,
        value >= 0,
    ensures
        value <= round_up(value, step) < value + step,
        round_up(value, step) % step == 0,
        value > 0 ==> round_up(value, step) >= step,
{
    reveal(round_up);
    let q = (value + step - 1) / step;
    vstd::arithmetic::div_mod::lemma_fundamental_div_mod(value + step - 1, step);
    vstd::arithmetic::div_mod::lemma_mod_multiples_basic(q, step);
    assert(q * step == step * q) by (nonlinear_arith);
    assert(0 <= (value + step - 1) % step < step) by (nonlinear_arith)
        requires
            step > 0,
    ;
    if value > 0 {
        assert(q * step >= step) by (nonlinear_arith)
            requires
                q * step > 0,
                step > 0,
        ;
    }
}

/// The least multiple of `alignment` that is not below `value`, if there is such an address.
fn align_up(value: usize, alignment: usize) -> (aligned: Option<usize>)
    requires
        alignment > 0,
    ensures
        aligned == if value + alignment - 1 > usize::MAX {
            None
        } else {
            Some(round_up(value as int, alignment as int) as usize)
        },
        aligned matches Some(aligned) ==> aligned == round_up(value as int, alignment as int),
{
    proof {
        reveal(round_up);
        lemma_round_up(value as int, alignment as int);
    }
    match value.checked_add(alignment - 1) {
        Some(sum) => Some(sum / alignment * alignment),
        None => None,
    }
}

/// What an allocation takes of a block that it fits.
proof fn lemma_fit(block: Block, size: int, align: int, capacity: int)
    requires
        fits(block, size, align),
        0 <= block.start,
        block.start % 8 == 0,
        block.size % 8 == 0,
        block.end() <= capacity,
        0 <= size,
        0 < align,
    ensures
        block.start + HEADER_BYTES <= user_start(block, align),
        user_start(block, align) + extent(size) <= block.start + bytes_taken(block, size, align),
        bytes_taken(block, size, align) % 8 == 0,
        0 < bytes_taken(block, size, align) <= block.size,
        bytes_taken(block, size, align) == block.size || bytes_taken(block, size, align) + 16
            <= block.size,
        user_start(block, align) % stride(align) == 0,
{
    lemma_round_up(block.start + HEADER_BYTES, stride(align));
    lemma_round_up(user_start(block, align) + extent(size), 8);
}

pub proof fn lemma_fitting(blocks: Seq<Block>, size: int, align: int, i: int)
    requires
        0 <= i <= blocks.len(),
    ensures
        match fitting(blocks, size, align, i) {
            Some(at) => i <= at < blocks.len() && fits(blocks[at], size, align),
            None => forall|j: int| i <= j < blocks.len() ==> !fits(#[trigger] blocks[j], size, align),
        },
    decreases blocks.len() - i,
{
    if i < blocks.len() && !fits(blocks[i], size, align) {
        lemma_fitting(blocks, size, align, i + 1);
    }
}

/// An alignment that leads out of the address space fits no block from there on.
proof fn lemma_nothing_fits(blocks: Seq<Block>, size: int, align: int, i: int, capacity: int)
    requires
        0 <= i < blocks.len(),
        apart(blocks),
        sound(blocks, capacity),
        capacity <= isize::MAX,
        0 <= size,
        0 < align,
        blocks[i].start + HEADER_BYTES + stride(align) - 1 > usize::MAX,
    ensures
        fitting(blocks, size, align, i) is None,
{
    lemma_fitting(blocks, size, align, i);
    assert forall|j: int| i <= j < blocks.len() implies !fits(#[trigger] blocks[j], size, align) by {
        if j > i {
            assert(blocks[i].end() < blocks[j].start);
        }
        lemma_round_up(blocks[j].start + HEADER_BYTES, stride(align));
    }
}

/// What stands in the memory is not touched by a write elsewhere.
proof fn lemma_field_frame(a: Seq<u8>, b: Seq<u8>, at: int, count: int, p: int)
    requires
        same_outside(a, b, at, count),
        0 <= p,
        p + 8 <= a.len(),
        p + 8 <= at || at + count <= p,
    ensures
        field(b, p) == field(a, p),
{
    lemma_fields_agree(a, b, p);
}

/// Allocating keeps the heap well formed, and the new allocation is at a place of its own.
pub proof fn lemma_allocated(model: HeapModel, size: int, align: int, capacity: int)
    requires
        model.well_formed(capacity),
        model.initialized,
        0 <= capacity <= isize::MAX,
        0 <= size,
        0 < align,
    ensures
        allocated(model, size, align).0.well_formed(capacity),
        allocated(model, size, align).1 matches Some(user) ==> !model.live.contains_key(user),
        0 <= model.used <= allocated(model, size, align).0.used <= capacity,
{
    reveal(in_order);
    lemma_total_fits(model.blocks, capacity);
    lemma_fitting(model.blocks, size, align, 0);
    if fitting(model.blocks, size, align, 0) is Some {
        let i = fitting(model.blocks, size, align, 0).unwrap();
        let block = model.blocks[i];
        let taken = bytes_taken(block, size, align);
        let user = user_start(block, align);
        let (next, _) = allocated(model, size, align);
        let fresh = Allocation { start: block.start, size: taken, requested: extent(size) };
        lemma_fit(block, size, align, capacity);
        lemma_without(model.blocks, i, taken, capacity);
        lemma_total_fits(next.blocks, capacity);
        assert forall|other: int| #[trigger] model.live.contains_key(other) implies separate(
            model.live[other],
            fresh,
        ) && clear(next.blocks, model.live[other].start, model.live[other].end()) && other != user by {
            let allocation = model.live[other];
            assert(clear(model.blocks, allocation.start, allocation.end()));
            assert(model.blocks[i].end() <= allocation.start || allocation.end()
                <= model.blocks[i].start);
            assert forall|j: int| 0 <= j < next.blocks.len() implies (#[trigger] next.blocks[j]).end()
                <= allocation.start || allocation.end() <= next.blocks[j].start by {
                let k = if block.size == taken && j >= i {
                    j + 1
                } else {
                    j
                };
                assert(model.blocks[k].end() <= allocation.start || allocation.end()
                    <= model.blocks[k].start);
            }
        }
        assert forall|byte: int| 0 <= byte < capacity implies #[trigger] holds(next.blocks, byte)
            || takes(next.live, byte) by {
            if holds(model.blocks, byte) {
                if !holds(next.blocks, byte) {
                    assert(next.live.contains_key(user));
                }
            } else {
                let other = choose|other: int|
                    #[trigger] model.live.contains_key(other) && model.live[other].start <= byte
                        < model.live[other].end();
                assert(next.live.contains_key(other));
            }
        }
    }
}

/// The free blocks of a heap are apart and sound.
proof fn lemma_free_blocks(model: HeapModel, capacity: int)
    requires
        model.well_formed(capacity),
        model.initialized,
    ensures
        apart(model.blocks),
        sound(model.blocks, capacity),
{
    reveal(in_order);
}

/// There are fewer allocations than bytes.
proof fn lemma_live_fits(model: HeapModel, capacity: int)
    requires
        model.well_formed(capacity),
        model.initialized,
        0 <= capacity,
    ensures
        model.live.dom().finite(),
        model.live.dom().len() <= capacity,
{
    reveal(in_order);
    let places = vstd::set_lib::set_int_range(0, capacity);
    vstd::set_lib::lemma_int_range(0, capacity);
    assert forall|user: int| #[trigger] model.live.dom().contains(user) implies places.contains(
        user,
    ) by {
        assert(model.live.contains_key(user));
    }
    assert(model.live.dom().subset_of(places));
    vstd::set_lib::lemma_len_subset(model.live.dom(), places);
}

/// An allocation has room for its header and lies in the memory.
pub proof fn lemma_allocations_fit(model: HeapModel, capacity: int, user: int)
    requires
        model.well_formed(capacity),
        model.live.contains_key(user),
    ensures
        model.initialized,
        sound_allocation(user, model.live[user], capacity),
{
    reveal(in_order);
}

/// The fields of the free blocks once one of them has been shortened or taken out: those of the
/// others are as they were, but for the link that leads to it.
proof fn lemma_list_shortened(
    before: Seq<u8>,
    after: Seq<u8>,
    blocks: Seq<Block>,
    i: int,
    taken: int,
    capacity: int,
)
    requires
        0 <= i < blocks.len(),
        apart(blocks),
        sound(blocks, capacity),
        before.len() == capacity,
        after.len() == capacity,
        list_in_place(before, blocks),
        taken == blocks[i].size || taken + 16 <= blocks[i].size,
        0 < taken,
        forall|j: int|
            0 <= j < blocks.len() && j != i ==> field(after, (#[trigger] blocks[j]).start) == field(
                before,
                blocks[j].start,
            ),
        forall|j: int|
            0 <= j < blocks.len() && j != i && j != i - 1 ==> field(
                after,
                (#[trigger] blocks[j]).start + 8,
            ) == field(before, blocks[j].start + 8),
        i > 0 ==> field(after, blocks[i - 1].start + 8) == link(without(blocks, i, taken), i),
        taken != blocks[i].size ==> field(after, blocks[i].start + taken) == blocks[i].size - taken
            && field(after, blocks[i].start + taken + 8) == link(blocks, i + 1),
    ensures
        list_in_place(after, without(blocks, i, taken)),
{
    let next = without(blocks, i, taken);
    let whole = taken == blocks[i].size;
    assert forall|j: int| 0 <= j < next.len() implies #[trigger] block_in_place(after, next, j) by {
        if whole {
            let k = if j >= i {
                j + 1
            } else {
                j
            };
            assert(next[j] == blocks[k]);
            assert(block_in_place(before, blocks, k));
        } else if j != i {
            assert(next[j] == blocks[j]);
            assert(block_in_place(before, blocks, j));
        }
    }
}

/// Writes the header of an allocation.
fn write_header(memory: &mut [u8], user: usize, magic: u64, start: usize, size: usize, requested: usize)
    requires
        HEADER_BYTES <= user <= old(memory).len(),
    ensures
        final(memory)@.len() == old(memory)@.len(),
        same_outside(old(memory)@, final(memory)@, user - 32, 32),
        field(final(memory)@, user - 32) == magic,
        field(final(memory)@, user - 24) == start,
        field(final(memory)@, user - 16) == size,
        field(final(memory)@, user - 8) == requested,
{
    write_field(memory, user - 32, magic);
    let ghost h1 = memory@;
    write_field(memory, user - 24, start as u64);
    let ghost h2 = memory@;
    write_field(memory, user - 16, size as u64);
    let ghost h3 = memory@;
    write_field(memory, user - 8, requested as u64);
    proof {
        lemma_field_frame(h1, h2, user - 24, 8, user - 32);
        lemma_field_frame(h2, h3, user - 16, 8, user - 32);
        lemma_field_frame(h3, memory@, user - 8, 8, user - 32);
        lemma_field_frame(h2, h3, user - 16, 8, user - 24);
        lemma_field_frame(h3, memory@, user - 8, 8, user - 24);
        lemma_field_frame(h3, memory@, user - 8, 8, user - 16);
    }
}

/// Allocations keep their bytes and headers where only free memory was written.
proof fn lemma_allocations_kept(
    model: HeapModel,
    gone: int,
    before: Seq<u8>,
    after: Seq<u8>,
    capacity: int,
)
    requires
        model.initialized,
        model.well_formed(capacity),
        before.len() == capacity,
        after.len() == capacity,
        forall|user: int|
            model.live.contains_key(user) ==> #[trigger] header_in_place(
                before,
                user,
                model.live[user],
            ),
        forall|p: int|
            0 <= p < capacity && !holds(model.blocks, p) && !(model.live.contains_key(gone)
                && model.live[gone].start <= p < model.live[gone].end()) ==> #[trigger] after[p]
                == before[p],
    ensures
        others_keep_their_bytes(model.live, gone, before, after),
        forall|user: int|
            model.live.contains_key(user) && user != gone ==> #[trigger] header_in_place(
                after,
                user,
                model.live[user],
            ),
{
    reveal(in_order);
    assert forall|other: int, byte: int|
        #[trigger] model.live.contains_key(other) && other != gone && model.live[other].start <= byte
            < model.live[other].end() implies #[trigger] after[byte] == before[byte] by {
        let allocation = model.live[other];
        assert(clear(model.blocks, allocation.start, allocation.end()));
        assert(!holds(model.blocks, byte)) by {
            if holds(model.blocks, byte) {
                let j = choose|j: int|
                    0 <= j < model.blocks.len() && (#[trigger] model.blocks[j]).start <= byte
                        < model.blocks[j].end();
                assert(model.blocks[j].end() <= allocation.start || allocation.end()
                    <= model.blocks[j].start);
            }
        }
        if model.live.contains_key(gone) {
            assert(separate(model.live[other], model.live[gone]));
        }
        assert(sound_allocation(other, allocation, capacity));
    }
    assert forall|user: int|
        model.live.contains_key(user) && user != gone implies #[trigger] header_in_place(
        after,
        user,
        model.live[user],
    ) by {
        assert(header_in_place(before, user, model.live[user]));
        assert(sound_allocation(user, model.live[user], capacity));
        lemma_fields_agree(before, after, user - 32);
        lemma_fields_agree(before, after, user - 24);
        lemma_fields_agree(before, after, user - 16);
        lemma_fields_agree(before, after, user - 8);
    }
}

/// The list once the front of a block has been taken.
proof fn lemma_list_after_taking(
    m0: Seq<u8>,
    m3: Seq<u8>,
    blocks: Seq<Block>,
    i: int,
    taken: int,
    capacity: int,
)
    requires
        0 <= i < blocks.len(),
        apart(blocks),
        sound(blocks, capacity),
        m0.len() == capacity,
        m3.len() == capacity,
        list_in_place(m0, blocks),
        taken == blocks[i].size || taken + 16 <= blocks[i].size,
        0 < taken,
        forall|p: int|
            0 <= p < capacity && !(blocks[i].start <= p < blocks[i].end()) && !(i > 0 && blocks[i
                - 1].start + 8 <= p < blocks[i - 1].start + 16) ==> #[trigger] m3[p] == m0[p],
        i > 0 ==> field(m3, blocks[i - 1].start + 8) == link(without(blocks, i, taken), i),
        taken != blocks[i].size ==> field(m3, blocks[i].start + taken) == blocks[i].size - taken
            && field(m3, blocks[i].start + taken + 8) == link(blocks, i + 1),
    ensures
        list_in_place(m3, without(blocks, i, taken)),
{
    assert forall|j: int| 0 <= j < blocks.len() && j != i implies field(
        m3,
        (#[trigger] blocks[j]).start,
    ) == field(m0, blocks[j].start) by {
        lemma_other_block(blocks, i, j);
        if i > 0 && j != i - 1 {
            lemma_other_block(blocks, i - 1, j);
        }
        lemma_fields_agree(m0, m3, blocks[j].start);
    }
    assert forall|j: int| 0 <= j < blocks.len() && j != i && j != i - 1 implies field(
        m3,
        (#[trigger] blocks[j]).start + 8,
    ) == field(m0, blocks[j].start + 8) by {
        lemma_other_block(blocks, i, j);
        if i > 0 {
            lemma_other_block(blocks, i - 1, j);
        }
        lemma_fields_agree(m0, m3, blocks[j].start + 8);
    }
    lemma_list_shortened(m0, m3, blocks, i, taken, capacity);
}

/// Takes the front of a free block out of the list, and gives where what was taken ends.
#[verifier::spinoff_prover]
#[verifier::rlimit(40)]
fn unlink_block(
    state: &mut AllocatorState,
    memory: &mut [u8],
    previous: usize,
    current: usize,
    allocation_end: usize,
    Ghost(i): Ghost<int>,
    Ghost(taken): Ghost<int>,
) -> (allocated_end: usize)
    requires
        16 <= old(memory).len() <= isize::MAX,
        0 <= i < old(state).blocks@.len(),
        apart(old(state).blocks@),
        sound(old(state).blocks@, old(memory).len() as int),
        list_in_place(old(memory)@, old(state).blocks@),
        old(state).free_head == link(old(state).blocks@, 0),
        current == old(state).blocks@[i].start,
        previous == link(old(state).blocks@, i - 1),
        current < allocation_end <= old(state).blocks@[i].end(),
        taken == ({
            let block = old(state).blocks@[i];
            let end = round_up(allocation_end as int, 8);
            if end <= block.end() && block.end() - end >= FREE_BLOCK_BYTES {
                end - block.start
            } else {
                block.size
            }
        }),
    ensures
        final(memory)@.len() == old(memory)@.len(),
        ({
            let blocks = old(state).blocks@;
            let m0 = old(memory)@;
            let m2 = final(memory)@;
            &&& allocated_end == blocks[i].start + taken
            &&& *final(state) == (AllocatorState {
                free_head: final(state).free_head,
                ..*old(state)
            })
            &&& final(state).free_head == link(without(blocks, i, taken), 0)
            &&& forall|p: int|
                0 <= p < m0.len() && !(blocks[i].start <= p < blocks[i].end()) && !(i > 0 && blocks[i
                    - 1].start + 8 <= p < blocks[i - 1].start + 16) ==> #[trigger] m2[p] == m0[p]
            &&& i > 0 ==> field(m2, blocks[i - 1].start + 8) == link(without(blocks, i, taken), i)
            &&& taken != blocks[i].size ==> field(m2, blocks[i].start + taken) == blocks[i].size
                - taken && field(m2, blocks[i].start + taken + 8) == link(blocks, i + 1)
        }),
{
    let ghost blocks = state.blocks@;
    let ghost block = blocks[i];
    proof {
        reveal(round_up);
        lemma_round_up(allocation_end as int, 8);
        assert(block_in_place(memory@, blocks, i));
        if i > 0 {
            assert(blocks[i - 1].end() < blocks[i].start);
        }
    }
    let block_size: usize = read_field(memory, current) as usize;
    let next: usize = read_field(memory, current + 8) as usize;
    let block_end: usize = current + block_size;
    let suffix: usize = (allocation_end + 7) / 8 * 8;
    let mut allocated_end: usize = block_end;
    let mut replacement: usize = next;
    if suffix <= block_end && block_end - suffix >= FREE_BLOCK_BYTES {
        write_free_block(memory, suffix, block_end - suffix, next);
        allocated_end = suffix;
        replacement = suffix;
    }
    assert(replacement == link(without(blocks, i, taken), i));
    let ghost m1 = memory@;
    if previous == FREE_LIST_END {
        assert(i == 0);
        state.free_head = replacement;
    } else {
        assert(i > 0);
        write_field(memory, previous + 8, replacement as u64);
        proof {
            if taken != block.size {
                lemma_field_frame(m1, memory@, previous + 8, 8, suffix as int);
                lemma_field_frame(m1, memory@, previous + 8, 8, suffix + 8);
            }
        }
    }
    allocated_end
}

/// The memory once the front of a block has been taken out of the list and its header written.
#[verifier::spinoff_prover]
#[verifier::rlimit(40)]
proof fn lemma_memory_after_taking(
    m0: Seq<u8>,
    m2: Seq<u8>,
    m3: Seq<u8>,
    model: HeapModel,
    size: int,
    align: int,
    capacity: int,
)
    requires
        model.initialized,
        model.well_formed(capacity),
        0 <= size,
        0 < align,
        0 <= capacity <= isize::MAX,
        m0.len() == capacity,
        m2.len() == capacity,
        m3.len() == capacity,
        list_in_place(m0, model.blocks),
        fitting(model.blocks, size, align, 0) is Some,
        forall|other: int|
            #[trigger] model.live.contains_key(other) ==> header_in_place(
                m0,
                other,
                model.live[other],
            ),
        ({
            let blocks = model.blocks;
            let i = fitting(blocks, size, align, 0).unwrap();
            let taken = bytes_taken(blocks[i], size, align);
            let user = user_start(blocks[i], align);
            &&& forall|p: int|
                0 <= p < m0.len() && !(blocks[i].start <= p < blocks[i].end()) && !(i > 0 && blocks[i
                    - 1].start + 8 <= p < blocks[i - 1].start + 16) ==> #[trigger] m2[p] == m0[p]
            &&& i > 0 ==> field(m2, blocks[i - 1].start + 8) == link(without(blocks, i, taken), i)
            &&& taken != blocks[i].size ==> field(m2, blocks[i].start + taken) == blocks[i].size
                - taken && field(m2, blocks[i].start + taken + 8) == link(blocks, i + 1)
            &&& same_outside(m2, m3, user - 32, 32)
            &&& header_in_place(
                m3,
                user,
                Allocation { start: blocks[i].start, size: taken, requested: extent(size) },
            )
        }),
    ensures
        ({
            let (next, given) = allocated(model, size, align);
            &&& list_in_place(m3, next.blocks)
            &&& forall|other: int|
                #[trigger] next.live.contains_key(other) ==> header_in_place(
                    m3,
                    other,
                    next.live[other],
                )
            &&& others_keep_their_bytes(model.live, given.unwrap(), m0, m3)
        }),
{
    reveal(in_order);
    let blocks = model.blocks;
    lemma_fitting(blocks, size, align, 0);
    let i = fitting(blocks, size, align, 0).unwrap();
    let block = blocks[i];
    let taken = bytes_taken(block, size, align);
    let user = user_start(block, align);
    lemma_fit(block, size, align, capacity);
    lemma_allocated(model, size, align, capacity);
    assert forall|p: int|
        0 <= p < capacity && !(block.start <= p < block.end()) && !(i > 0 && blocks[i - 1].start + 8
            <= p < blocks[i - 1].start + 16) implies #[trigger] m3[p] == m0[p] by {
        assert(m2[p] == m0[p]);
    }
    if i > 0 {
        assert(blocks[i - 1].end() < blocks[i].start);
        lemma_field_frame(m2, m3, user - 32, 32, blocks[i - 1].start + 8);
    }
    if taken != block.size {
        lemma_field_frame(m2, m3, user - 32, 32, block.start + taken);
        lemma_field_frame(m2, m3, user - 32, 32, block.start + taken + 8);
    }
    lemma_list_after_taking(m0, m3, blocks, i, taken, capacity);
    assert forall|p: int| 0 <= p < capacity && !holds(blocks, p) implies #[trigger] m3[p] == m0[p] by {
        assert(!(blocks[i].start <= p < blocks[i].end()));
        if i > 0 {
            assert(!(blocks[i - 1].start <= p < blocks[i - 1].end()));
        }
    }
    assert forall|other: int| model.live.contains_key(other) implies #[trigger] header_in_place(
        m0,
        other,
        model.live[other],
    ) by {}
    lemma_allocations_kept(model, user, m0, m3, capacity);
}

/// Takes the front of a free block for an allocation.
#[verifier::spinoff_prover]
#[verifier::rlimit(60)]
fn take_block(
    state: &mut AllocatorState,
    memory: &mut [u8],
    previous: usize,
    current: usize,
    user: usize,
    requested: usize,
    size: usize,
    align: usize,
    Ghost(i): Ghost<int>,
)
    requires
        region_well_formed(*old(state), old(memory)@),
        old(state).initialized,
        0 < align,
        fitting(old(state)@.blocks, size as int, align as int, 0) == Some(i),
        0 <= i < old(state)@.blocks.len(),
        current == old(state)@.blocks[i].start,
        previous == link(old(state)@.blocks, i - 1),
        user == user_start(old(state)@.blocks[i], align as int),
        requested == extent(size as int),
        fits(old(state)@.blocks[i], size as int, align as int),
    ensures
        final(memory)@.len() == old(memory)@.len(),
        region_well_formed(*final(state), final(memory)@),
        final(state)@ == allocated(old(state)@, size as int, align as int).0,
        others_keep_their_bytes(old(state)@.live, user as int, old(memory)@, final(memory)@),
{
    let ghost model = state@;
    let ghost capacity = memory@.len() as int;
    let ghost taken = bytes_taken(model.blocks[i], size as int, align as int);
    let ghost m0 = memory@;
    proof {
        lemma_free_blocks(model, capacity);
        lemma_fit(model.blocks[i], size as int, align as int, capacity);
        lemma_allocated(model, size as int, align as int, capacity);
        lemma_live_fits(allocated(model, size as int, align as int).0, capacity);
    }
    let allocated_end: usize = unlink_block(
        state,
        memory,
        previous,
        current,
        user + requested,
        Ghost(i),
        Ghost(taken),
    );
    let ghost m2 = memory@;
    let size_taken: usize = allocated_end - current;
    write_header(memory, user, ALLOCATION_MAGIC, current, size_taken, requested);
    record_allocation(state, size_taken, Ghost(allocated(model, size as int, align as int).0));
    proof {
        lemma_memory_after_taking(m0, m2, memory@, model, size as int, align as int, capacity);
    }
}

/// Counts an allocation that takes `size` bytes.
fn record_allocation(state: &mut AllocatorState, size: usize, Ghost(next): Ghost<HeapModel>)
    requires
        next.used == old(state).used_bytes + size,
        next.used <= isize::MAX,
        next.peak == if next.used > old(state).peak_used_bytes {
            next.used
        } else {
            old(state).peak_used_bytes as int
        },
        next.allocations == counted(old(state).total_allocations),
        next.initialized == old(state).initialized,
        next.deallocations == old(state).total_deallocations,
        next.failures == old(state).failed_allocations,
    ensures
        final(state)@ == next,
        final(state).live_allocations == counted(old(state).live_allocations),
        final(state).free_head == old(state).free_head,
{
    state.used_bytes = state.used_bytes.saturating_add(size);
    if state.used_bytes > state.peak_used_bytes {
        state.peak_used_bytes = state.used_bytes;
    }
    state.live_allocations = state.live_allocations.saturating_add(1);
    state.total_allocations = state.total_allocations.saturating_add(1);
    let ghost blocks = next.blocks;
    let ghost live = next.live;
    state.blocks = Ghost(blocks);
    state.live = Ghost(live);
    assert(state@ =~= next);
}

/// Two free blocks have room for their fields beside each other.
proof fn lemma_other_block(blocks: Seq<Block>, i: int, j: int)
    requires
        apart(blocks),
        0 <= i < blocks.len(),
        0 <= j < blocks.len(),
        i != j,
    ensures
        blocks[i].end() < blocks[j].start || blocks[j].end() < blocks[i].start,
{
    if i < j {
        assert(blocks[i].end() < blocks[j].start);
    } else {
        assert(blocks[j].end() < blocks[i].start);
    }
}

/// Serves an allocation from the first free block that it fits, and gives where its memory starts.
pub fn allocate_from_free_list(
    state: &mut AllocatorState,
    memory: &mut [u8],
    size: usize,
    align: usize,
) -> (user: Option<usize>)
    requires
        region_well_formed(*old(state), old(memory)@),
        old(state).initialized,
        0 < align,
    ensures
        final(memory)@.len() == old(memory)@.len(),
        region_well_formed(*final(state), final(memory)@),
        match user {
            Some(user) => allocated(old(state)@, size as int, align as int) == (
                final(state)@,
                Some(user as int),
            ) && others_keep_their_bytes(
                old(state)@.live,
                user as int,
                old(memory)@,
                final(memory)@,
            ),
            None => allocated(old(state)@, size as int, align as int) == (
                old(state)@,
                None::<int>,
            ) && *final(state) == *old(state) && final(memory)@ == old(memory)@,
        },
{
    let requested: usize = if size > 1 {
        size
    } else {
        1
    };
    let alignment: usize = if align > 8 {
        align
    } else {
        8
    };
    let ghost blocks = state.blocks@;
    proof {
        lemma_free_blocks(state@, memory@.len() as int);
    }
    let ghost mut i: int = 0;
    let mut previous: usize = FREE_LIST_END;
    let mut current: usize = state.free_head;
    while current != FREE_LIST_END
        invariant
            region_well_formed(*state, memory@),
            *state == *old(state),
            memory@ == old(memory)@,
            state.initialized,
            blocks == state.blocks@,
            apart(blocks),
            sound(blocks, memory@.len() as int),
            0 <= i <= blocks.len(),
            0 < align,
            requested == extent(size as int),
            alignment == stride(align as int),
            current == link(blocks, i),
            previous == link(blocks, i - 1),
            fitting(blocks, size as int, align as int, 0) == fitting(
                blocks,
                size as int,
                align as int,
                i,
            ),
        decreases blocks.len() - i,
    {
        assert(i < blocks.len());
        assert(block_in_place(memory@, blocks, i));
        let block_size: usize = read_field(memory, current) as usize;
        let next: usize = read_field(memory, current + 8) as usize;
        let block_end: usize = current + block_size;
        let user: usize = match align_up(current + HEADER_BYTES, alignment) {
            Some(user) => user,
            None => {
                proof {
                    lemma_nothing_fits(
                        blocks,
                        size as int,
                        align as int,
                        i,
                        memory@.len() as int,
                    );
                }
                return None;
            },
        };
        let room: bool = match user.checked_add(requested) {
            Some(end) => end <= block_end,
            None => false,
        };
        assert(room == fits(blocks[i], size as int, align as int));
        if room {
            take_block(state, memory, previous, current, user, requested, size, align, Ghost(i));
            return Some(user);
        }
        previous = current;
        current = next;
        proof {
            i = i + 1;
        }
    }
    assert(fitting(blocks, size as int, align as int, i) is None) by {
        if i < blocks.len() {
            assert(blocks[i].start == FREE_LIST_END);
        }
    }
    None
}

/// Giving an allocation back keeps the heap well formed.
#[verifier::spinoff_prover]
#[verifier::rlimit(40)]
pub proof fn lemma_released(model: HeapModel, user: int, capacity: int)
    requires
        model.well_formed(capacity),
        model.initialized,
        0 <= capacity,
        model.live.contains_key(user),
    ensures
        released(model, user).well_formed(capacity),
        model.live[user].size <= model.used,
        sound_allocation(user, model.live[user], capacity),
        clear(model.blocks, model.live[user].start, model.live[user].end()),
{
    reveal(in_order);
    let allocation = model.live[user];
    let next = released(model, user);
    lemma_with_block(model.blocks, allocation.start, allocation.size, capacity);
    lemma_total_fits(next.blocks, capacity);
    assert forall|other: int| #[trigger] next.live.contains_key(other) implies sound_allocation(
        other,
        next.live[other],
        capacity,
    ) && clear(next.blocks, next.live[other].start, next.live[other].end()) by {
        assert(model.live.contains_key(other));
        let kept = model.live[other];
        assert(separate(kept, allocation));
        assert forall|i: int| 0 <= i < next.blocks.len() implies (#[trigger] next.blocks[i]).end()
            <= kept.start || kept.end() <= next.blocks[i].start by {
            let block = next.blocks[i];
            if kept.start < block.end() && block.start < kept.end() {
                let byte = if kept.start > block.start {
                    kept.start
                } else {
                    block.start
                };
                assert(block.start <= byte < block.end());
                assert(holds(next.blocks, byte));
                if holds(model.blocks, byte) {
                    let j = choose|j: int|
                        0 <= j < model.blocks.len() && (#[trigger] model.blocks[j]).start <= byte
                            < model.blocks[j].end();
                    assert(model.blocks[j].end() <= kept.start || kept.end()
                        <= model.blocks[j].start);
                }
            }
        }
    }
    assert forall|a: int, b: int|
        #[trigger] next.live.contains_key(a) && #[trigger] next.live.contains_key(b) && a
            != b implies separate(next.live[a], next.live[b]) by {
        assert(model.live.contains_key(a) && model.live.contains_key(b));
    }
    assert forall|byte: int| 0 <= byte < capacity implies #[trigger] holds(next.blocks, byte)
        || takes(next.live, byte) by {
        if !holds(model.blocks, byte) && !(allocation.start <= byte < allocation.end()) {
            let other = choose|other: int|
                #[trigger] model.live.contains_key(other) && model.live[other].start <= byte
                    < model.live[other].end();
            assert(next.live.contains_key(other));
        }
    }
}

/// The list once a block has been added.
proof fn lemma_list_after_adding(
    before: Seq<u8>,
    after: Seq<u8>,
    blocks: Seq<Block>,
    start: int,
    size: int,
    capacity: int,
)
    requires
        apart(blocks),
        sound(blocks, capacity),
        clear(blocks, start, start + size),
        size > 0,
        list_in_place(before, blocks),
        ({
            let at = place(blocks, start, 0);
            let joins_before = at > 0 && blocks[at - 1].end() == start;
            let joins_after = at < blocks.len() && blocks[at].start == start + size;
            let whole = size + if joins_after {
                blocks[at].size
            } else {
                0
            };
            let behind = if joins_after {
                link(blocks, at + 1)
            } else {
                link(blocks, at)
            };
            &&& if joins_before {
                &&& field(after, blocks[at - 1].start) == blocks[at - 1].size + whole
                &&& field(after, blocks[at - 1].start + 8) == behind
            } else {
                &&& field(after, start) == whole
                &&& field(after, start + 8) == behind
                &&& at > 0 ==> field(after, blocks[at - 1].start) == blocks[at - 1].size && field(
                    after,
                    blocks[at - 1].start + 8,
                ) == start
            }
            &&& forall|j: int|
                0 <= j < blocks.len() && j != at - 1 && !(j == at && joins_after) ==> field(
                    after,
                    (#[trigger] blocks[j]).start,
                ) == field(before, blocks[j].start) && field(after, blocks[j].start + 8) == field(
                    before,
                    blocks[j].start + 8,
                )
        }),
    ensures
        list_in_place(after, with_block(blocks, start, size)),
{
    lemma_place(blocks, start, size, capacity);
    let at = place(blocks, start, 0);
    let next = with_block(blocks, start, size);
    let joins_before = at > 0 && blocks[at - 1].end() == start;
    let joins_after = at < blocks.len() && blocks[at].start == start + size;
    assert forall|j: int| 0 <= j < next.len() implies #[trigger] block_in_place(after, next, j) by {
        if joins_before && joins_after {
            if j < at - 1 {
                assert(next[j] == blocks[j]);
                assert(block_in_place(before, blocks, j));
            } else if j > at - 1 {
                assert(next[j] == blocks[j + 1]);
                assert(block_in_place(before, blocks, j + 1));
            } else if j + 1 < next.len() {
                assert(next[j + 1] == blocks[j + 2]);
            }
        } else if joins_before {
            if j != at - 1 {
                assert(next[j] == blocks[j]);
                assert(block_in_place(before, blocks, j));
            }
        } else if joins_after {
            if j < at - 1 {
                assert(next[j] == blocks[j]);
                assert(block_in_place(before, blocks, j));
            } else if j > at {
                assert(next[j] == blocks[j]);
                assert(block_in_place(before, blocks, j));
            } else if j == at - 1 {
                assert(next[j] == blocks[j]);
                assert(next[at].start == start);
            } else if j + 1 < next.len() {
                assert(next[j + 1] == blocks[j + 1]);
            }
        } else {
            if j < at - 1 {
                assert(next[j] == blocks[j]);
                assert(block_in_place(before, blocks, j));
            } else if j == at - 1 {
                assert(next[j] == blocks[j]);
                assert(next[at].start == start);
            } else if j == at {
                if j + 1 < next.len() {
                    assert(next[j + 1] == blocks[j]);
                }
            } else {
                assert(next[j] == blocks[j - 1]);
                assert(block_in_place(before, blocks, j - 1));
                if j + 1 < next.len() {
                    assert(next[j + 1] == blocks[j]);
                }
            }
        }
    }
}

/// Puts a block back into the list, and joins it with those that it touches.
#[verifier::spinoff_prover]
#[verifier::rlimit(60)]
fn insert_free_block(state: &mut AllocatorState, memory: &mut [u8], start: usize, size: usize)
    requires
        16 <= old(memory).len() <= isize::MAX,
        apart(old(state).blocks@),
        sound(old(state).blocks@, old(memory).len() as int),
        clear(old(state).blocks@, start as int, start + size),
        16 <= size,
        start + size <= old(memory).len(),
        list_in_place(old(memory)@, old(state).blocks@),
        old(state).free_head == link(old(state).blocks@, 0),
    ensures
        final(memory)@.len() == old(memory)@.len(),
        *final(state) == (AllocatorState { free_head: final(state).free_head, ..*old(state) }),
        final(state).free_head == link(with_block(old(state).blocks@, start as int, size as int), 0),
        list_in_place(
            final(memory)@,
            with_block(old(state).blocks@, start as int, size as int),
        ),
        forall|p: int|
            0 <= p < old(memory)@.len() && !(start <= p < start + size) && !holds(
                old(state).blocks@,
                p,
            ) ==> #[trigger] final(memory)@[p] == old(memory)@[p],
{
    let ghost blocks = state.blocks@;
    let ghost capacity = memory@.len() as int;
    let ghost m0 = memory@;
    let ghost mut i: int = 0;
    let mut previous: usize = FREE_LIST_END;
    let mut current: usize = state.free_head;
    while current != FREE_LIST_END && current < start
        invariant
            memory@ == m0,
            memory@.len() == capacity,
            capacity <= isize::MAX,
            *state == *old(state),
            blocks == state.blocks@,
            sound(blocks, capacity),
            list_in_place(m0, blocks),
            0 <= i <= blocks.len(),
            current == link(blocks, i),
            previous == link(blocks, i - 1),
            place(blocks, start as int, 0) == place(blocks, start as int, i),
        decreases blocks.len() - i,
    {
        assert(i < blocks.len());
        assert(block_in_place(m0, blocks, i));
        previous = current;
        current = read_field(memory, current + 8) as usize;
        proof {
            i = i + 1;
        }
    }
    let ghost at = place(blocks, start as int, 0);
    proof {
        if i < blocks.len() {
            assert(blocks[i].start == current);
        }
        assert(i == at);
        lemma_place(blocks, start as int, size as int, capacity);
        if at > 0 {
            assert(block_in_place(m0, blocks, at - 1));
        }
        if at < blocks.len() {
            assert(block_in_place(m0, blocks, at));
        }
    }
    let mut whole: usize = size;
    let mut behind: usize = current;
    if current != FREE_LIST_END && start + size == current {
        whole = size + read_field(memory, current) as usize;
        behind = read_field(memory, current + 8) as usize;
    }
    let ghost joins_after = at < blocks.len() && blocks[at].start == start + size;
    let ghost joins_before = at > 0 && blocks[at - 1].end() == start;
    let mut joined: bool = false;
    if previous != FREE_LIST_END {
        let previous_size: usize = read_field(memory, previous) as usize;
        if previous + previous_size == start {
            joined = true;
            write_free_block(memory, previous, previous_size + whole, behind);
        }
    }
    assert(joined == joins_before);
    if !joined {
        write_free_block(memory, start, whole, behind);
        let ghost m1 = memory@;
        if previous == FREE_LIST_END {
            state.free_head = start;
        } else {
            write_field(memory, previous + 8, start as u64);
            proof {
                lemma_field_frame(m1, memory@, previous + 8, 8, start as int);
                lemma_field_frame(m1, memory@, previous + 8, 8, start + 8);
                lemma_field_frame(m0, m1, start as int, 16, previous as int);
                lemma_field_frame(m1, memory@, previous + 8, 8, previous as int);
            }
        }
    }
    proof {
        let m2 = memory@;
        assert forall|p: int|
            0 <= p < capacity && !(start <= p < start + size) && !(at > 0 && blocks[at - 1].start
                <= p < blocks[at - 1].start + 16) implies #[trigger] m2[p] == m0[p] by {}
        assert forall|j: int| 0 <= j < blocks.len() && j != at - 1 implies field(
            m2,
            (#[trigger] blocks[j]).start,
        ) == field(m0, blocks[j].start) && field(m2, blocks[j].start + 8) == field(
            m0,
            blocks[j].start + 8,
        ) by {
            if at > 0 {
                lemma_other_block(blocks, at - 1, j);
            }
            lemma_fields_agree(m0, m2, blocks[j].start);
            lemma_fields_agree(m0, m2, blocks[j].start + 8);
        }
        lemma_list_after_adding(m0, m2, blocks, start as int, size as int, capacity);
        assert forall|p: int|
            0 <= p < capacity && !(start <= p < start + size) && !holds(
                blocks,
                p,
            ) implies #[trigger] m2[p] == m0[p] by {
            if at > 0 {
                assert(!(blocks[at - 1].start <= p < blocks[at - 1].end()));
            }
        }
    }
}

/// Takes back the allocation whose memory starts at `user`. Nothing happens where no header stands
/// before it; a header that does is that of an allocation.
#[verifier::spinoff_prover]
#[verifier::rlimit(40)]
pub fn deallocate_into_region(state: &mut AllocatorState, memory: &mut [u8], user: usize)
    requires
        region_well_formed(*old(state), old(memory)@),
        old(state).initialized && HEADER_BYTES <= user <= old(memory).len() && header_looks_valid(
            old(memory)@,
            user as int,
        ) ==> old(state)@.live.contains_key(user as int),
    ensures
        final(memory)@.len() == old(memory)@.len(),
        region_well_formed(*final(state), final(memory)@),
        if old(state)@.live.contains_key(user as int) {
            final(state)@ == released(old(state)@, user as int) && others_keep_their_bytes(
                old(state)@.live,
                user as int,
                old(memory)@,
                final(memory)@,
            )
        } else {
            *final(state) == *old(state) && final(memory)@ == old(memory)@
        },
{
    let ghost model = state@;
    let ghost m0 = memory@;
    let ghost capacity = memory@.len() as int;
    if !state.initialized {
        proof {
            reveal(in_order);
        }
        return;
    }
    proof {
        if model.live.contains_key(user as int) {
            lemma_released(model, user as int, capacity);
            assert(header_in_place(m0, user as int, model.live[user as int]));
        }
    }
    if user < HEADER_BYTES || user > memory.len() {
        return;
    }
    let magic: u64 = read_field(memory, user - 32);
    let start: u64 = read_field(memory, user - 24);
    let size: u64 = read_field(memory, user - 16);
    let length: u64 = memory.len() as u64;
    if magic != ALLOCATION_MAGIC || start >= length || size == 0 || size > length - start {
        return;
    }
    assert(model.live.contains_key(user as int));
    let ghost allocation = model.live[user as int];
    proof {
        lemma_free_blocks(model, capacity);
        lemma_live_fits(model, capacity);
    }
    write_header(memory, user, 0, 0, 0, 0);
    proof {
        lemma_list_frame(m0, memory@, model.blocks, user - 32, 32, allocation, capacity);
    }
    let ghost m1 = memory@;
    insert_free_block(state, memory, start as usize, size as usize);
    record_release(state, size as usize, Ghost(released(model, user as int)));
    proof {
        let m2 = memory@;
        assert forall|p: int|
            0 <= p < capacity && !holds(model.blocks, p) && !(allocation.start <= p
                < allocation.end()) implies #[trigger] m2[p] == m0[p] by {
            assert(m1[p] == m0[p]);
        }
        assert forall|other: int| model.live.contains_key(other) implies #[trigger] header_in_place(
            m0,
            other,
            model.live[other],
        ) by {}
        lemma_allocations_kept(model, user as int, m0, m2, capacity);
    }
}

/// The list is not touched by a write in an allocation.
pub proof fn lemma_list_frame(
    before: Seq<u8>,
    after: Seq<u8>,
    blocks: Seq<Block>,
    at: int,
    count: int,
    allocation: Allocation,
    capacity: int,
)
    requires
        sound(blocks, capacity),
        before.len() == capacity,
        list_in_place(before, blocks),
        same_outside(before, after, at, count),
        allocation.start <= at,
        at + count <= allocation.end(),
        clear(blocks, allocation.start, allocation.end()),
    ensures
        list_in_place(after, blocks),
{
    assert forall|j: int| 0 <= j < blocks.len() implies #[trigger] block_in_place(after, blocks, j) by {
        assert(block_in_place(before, blocks, j));
        assert(blocks[j].end() <= allocation.start || allocation.end() <= blocks[j].start);
        lemma_field_frame(before, after, at, count, blocks[j].start);
        lemma_field_frame(before, after, at, count, blocks[j].start + 8);
    }
}

/// Counts that an allocation of `size` bytes was given back.
fn record_release(state: &mut AllocatorState, size: usize, Ghost(next): Ghost<HeapModel>)
    requires
        size <= old(state).used_bytes,
        next.used == old(state).used_bytes - size,
        next.peak == old(state).peak_used_bytes,
        next.allocations == old(state).total_allocations,
        next.initialized == old(state).initialized,
        next.deallocations == counted(old(state).total_deallocations),
        next.failures == old(state).failed_allocations,
        old(state).live_allocations > 0,
    ensures
        final(state)@ == next,
        final(state).live_allocations == old(state).live_allocations - 1,
        final(state).free_head == old(state).free_head,
{
    state.used_bytes = state.used_bytes.saturating_sub(size);
    state.live_allocations = state.live_allocations.saturating_sub(1);
    state.total_deallocations = state.total_deallocations.saturating_add(1);
    let ghost blocks = next.blocks;
    let ghost live = next.live;
    state.blocks = Ghost(blocks);
    state.live = Ghost(live);
    assert(state@ =~= next);
}

} // verus!
