//! The heaps: one of fixed size, and one that takes further memory once that is there.

use vstd::prelude::*;
use crate::bytes::same_outside;
use crate::heap_allocator::region::{
    allocate_from_free_list, allocated, counted, deallocate_into_region, empty_model, header_in_place,
    header_looks_valid, in_order, initialize, lemma_fields_agree, lemma_list_frame,
    others_keep_their_bytes, region_stats, region_well_formed, released, separate, set_up,
    sound_allocation, Allocation, AllocatorState, HeapModel, HeapStats, FREE_BLOCK_BYTES,
    HEADER_BYTES,
};
use crate::heap_allocator::blocks::longest;

verus! {

/// Why memory cannot be added to a heap.
#[derive(Debug, Clone, Copy, PartialEq, Eq, Structural)]
pub enum HeapInitError {
    AlreadyInitialized,
    InvalidAddress,
    InvalidCapacity,
    OverlapsBootstrap,
}

/// A heap of `N` bytes from the address `base` on.
pub struct ReclaimingHeap<const N: usize> {
    pub base: usize,
    pub memory: [u8; N],
    pub state: AllocatorState,
}

/// What a request to a heap gives, and the state after it. The memory is set up at the first request,
/// and a request that cannot be served is counted.
pub open spec fn served(model: HeapModel, capacity: int, size: int, align: int) -> (
    HeapModel,
    Option<int>,
) {
    let ready = set_up(model, capacity);
    match allocated(ready, size, align) {
        (next, Some(user)) => (next, Some(user)),
        (_, None) => (HeapModel { failures: counted(ready.failures), ..ready }, None),
    }
}

/// How a heap of `capacity` bytes is used.
pub open spec fn usage(model: HeapModel, capacity: int) -> HeapStats {
    HeapStats {
        capacity_bytes: capacity as usize,
        used_bytes: model.used as usize,
        peak_used_bytes: model.peak as usize,
        free_bytes: (capacity - model.used) as usize,
        largest_free_block: longest(model.blocks) as usize,
        live_allocations: model.live.dom().len() as usize,
        total_allocations: model.allocations,
        total_deallocations: model.deallocations,
        failed_allocations: model.failures,
    }
}

/// The bytes from `from` to `to` belong to the memory of one allocation.
pub open spec fn owned(live: Map<int, Allocation>, from: int, to: int) -> bool {
    exists|user: int|
        #[trigger] live.contains_key(user) && user <= from && to <= user + live[user].requested
}

/// What is written into the memory of an allocation touches neither the list nor a header.
proof fn lemma_user_write(state: AllocatorState, before: Seq<u8>, after: Seq<u8>, from: int, count: int)
    requires
        region_well_formed(state, before),
        state.initialized,
        same_outside(before, after, from, count),
        0 <= count,
        owned(state@.live, from, from + count),
    ensures
        region_well_formed(state, after),
{
    reveal(in_order);
    let capacity = before.len() as int;
    let live = state@.live;
    let user = choose|user: int|
        #[trigger] live.contains_key(user) && user <= from && from + count <= user
            + live[user].requested;
    let allocation = live[user];
    assert(sound_allocation(user, allocation, capacity));
    lemma_list_frame(before, after, state@.blocks, from, count, allocation, capacity);
    assert forall|other: int| #[trigger] live.contains_key(other) implies header_in_place(
        after,
        other,
        live[other],
    ) by {
        assert(header_in_place(before, other, live[other]));
        assert(sound_allocation(other, live[other], capacity));
        if other != user {
            assert(separate(live[user], live[other]));
        }
        lemma_fields_agree(before, after, other - 32);
        lemma_fields_agree(before, after, other - 24);
        lemma_fields_agree(before, after, other - 16);
        lemma_fields_agree(before, after, other - 8);
    }
}

/// One more request that could not be served.
fn count_failure(state: &mut AllocatorState)
    ensures
        final(state)@ == (HeapModel { failures: counted(old(state)@.failures), ..old(state)@ }),
        *final(state) == (AllocatorState {
            failed_allocations: final(state).failed_allocations,
            ..*old(state)
        }),
{
    state.failed_allocations = state.failed_allocations.saturating_add(1);
    assert(state@ =~= (HeapModel { failures: counted(old(state)@.failures), ..old(state)@ }));
}

/// Failures say nothing of the memory.
proof fn lemma_failure_is_only_counted(before: AllocatorState, after: AllocatorState, memory: Seq<u8>)
    requires
        region_well_formed(before, memory),
        after == (AllocatorState { failed_allocations: after.failed_allocations, ..before }),
    ensures
        region_well_formed(after, memory),
{
    reveal(in_order);
}

impl<const N: usize> ReclaimingHeap<N> {
    /// The heap is in order.
    pub open spec fn well_formed(&self) -> bool {
        &&& self.base + N <= usize::MAX
        &&& region_well_formed(self.state, self.memory@)
    }

    /// A heap at `base` with nothing allocated.
    pub fn new(base: usize) -> (heap: Self)
        requires
            FREE_BLOCK_BYTES <= N <= isize::MAX,
            N % 8 == 0,
            base + N <= usize::MAX,
        ensures
            heap.well_formed(),
            heap.base == base,
            heap.state@ == empty_model(),
    {
        proof {
            reveal(in_order);
        }
        let memory: [u8; N] = vstd::array::array_fill_for_copy_types(0u8);
        ReclaimingHeap { base, memory, state: AllocatorState::new() }
    }

    /// How the heap is used.
    pub fn stats(&mut self) -> (stats: HeapStats)
        requires
            old(self).well_formed(),
        ensures
            final(self).well_formed(),
            final(self).base == old(self).base,
            final(self).state@ == set_up(old(self).state@, N as int),
            old(self).state@.initialized ==> final(self).memory@ == old(self).memory@,
            stats == usage(final(self).state@, N as int),
    {
        initialize(&mut self.state, &mut self.memory);
        region_stats(&self.state, &self.memory)
    }

    /// Serves an allocation, and gives the address of its memory.
    pub fn allocate(&mut self, size: usize, align: usize) -> (address: Option<usize>)
        requires
            old(self).well_formed(),
            0 < align,
        ensures
            final(self).well_formed(),
            final(self).base == old(self).base,
            match address {
                Some(address) => served(
                    old(self).state@,
                    N as int,
                    size as int,
                    align as int,
                ) == (final(self).state@, Some(address - old(self).base)) && others_keep_their_bytes(
                    old(self).state@.live,
                    address - old(self).base,
                    old(self).memory@,
                    final(self).memory@,
                ),
                None => served(old(self).state@, N as int, size as int, align as int) == (
                    final(self).state@,
                    None::<int>,
                ) && (old(self).state@.initialized ==> final(self).memory@ == old(self).memory@),
            },
    {
        proof {
            reveal(in_order);
        }
        initialize(&mut self.state, &mut self.memory);
        match allocate_from_free_list(&mut self.state, &mut self.memory, size, align) {
            Some(user) => {
                proof {
                    crate::heap_allocator::region::lemma_allocations_fit(
                        self.state@,
                        N as int,
                        user as int,
                    );
                }
                Some(self.base + user)
            },
            None => {
                let ghost before = self.state;
                count_failure(&mut self.state);
                proof {
                    lemma_failure_is_only_counted(before, self.state, self.memory@);
                }
                None
            },
        }
    }

    /// Takes an allocation back. An address that no header stands before is let pass; a header that
    /// does is that of an allocation.
    pub fn deallocate(&mut self, address: usize)
        requires
            old(self).well_formed(),
            old(self).state@.initialized && HEADER_BYTES <= address - old(self).base <= N
                && header_looks_valid(old(self).memory@, address - old(self).base) ==> old(
                self,
            ).state@.live.contains_key(address - old(self).base),
        ensures
            final(self).well_formed(),
            final(self).base == old(self).base,
            if old(self).state@.live.contains_key(address - old(self).base) {
                final(self).state@ == released(old(self).state@, address - old(self).base)
                    && others_keep_their_bytes(
                    old(self).state@.live,
                    address - old(self).base,
                    old(self).memory@,
                    final(self).memory@,
                )
            } else {
                final(self).state == old(self).state && final(self).memory@ == old(self).memory@
            },
    {
        proof {
            if self.state@.live.contains_key(address - self.base) {
                crate::heap_allocator::region::lemma_allocations_fit(
                    self.state@,
                    N as int,
                    address - self.base,
                );
            }
        }
        if address < self.base {
            return;
        }
        deallocate_into_region(&mut self.state, &mut self.memory, address - self.base);
    }

    /// Fills bytes of an allocation's memory.
    pub fn fill(&mut self, address: usize, value: u8, count: usize)
        requires
            old(self).well_formed(),
            old(self).state@.initialized,
            owned(
                old(self).state@.live,
                address - old(self).base,
                address - old(self).base + count,
            ),
        ensures
            final(self).well_formed(),
            final(self).base == old(self).base,
            final(self).state == old(self).state,
            same_outside(
                old(self).memory@,
                final(self).memory@,
                address - old(self).base,
                count as int,
            ),
            forall|i: int|
                address - old(self).base <= i < address - old(self).base + count
                    ==> #[trigger] final(self).memory@[i] == value,
    {
        let ghost live = self.state@.live;
        let ghost user = choose|user: int|
            #[trigger] live.contains_key(user) && user <= address - self.base && address - self.base
                + count <= user + live[user].requested;
        proof {
            crate::heap_allocator::region::lemma_allocations_fit(self.state@, N as int, user);
        }
        let from: usize = address - self.base;
        let mut i: usize = 0;
        while i < count
            invariant
                i <= count,
                from == address - old(self).base,
                from + count <= N,
                self.base == old(self).base,
                self.state == old(self).state,
                same_outside(old(self).memory@, self.memory@, from as int, i as int),
                forall|j: int|
                    from <= j < from + i ==> #[trigger] self.memory@[j] == value,
            decreases count - i,
        {
            self.memory[from + i] = value;
            i += 1;
        }
        proof {
            lemma_user_write(
                self.state,
                old(self).memory@,
                self.memory@,
                from as int,
                count as int,
            );
        }
    }

    /// A byte of the heap.
    pub fn byte_at(&self, address: usize) -> (value: u8)
        requires
            self.base <= address < self.base + N,
        ensures
            value == self.memory@[address - self.base],
    {
        self.memory[address - self.base]
    }
}

/// A heap that serves allocations from further memory once that is there. The further memory is
/// handed to each request.
pub struct ExpandableHeap<const N: usize> {
    pub bootstrap: ReclaimingHeap<N>,
    pub external_base: usize,
    pub external_capacity: usize,
    pub external_state: AllocatorState,
}

/// Whether the bytes from `a` to `b` meet those from `c` to `d`.
pub open spec fn meet(a: int, b: int, c: int, d: int) -> bool {
    a < d && c < b
}

/// Why memory cannot be added to a heap.
pub open spec fn expansion_fault(
    base: usize,
    capacity: int,
    bootstrap: int,
    bootstrap_end: int,
    present: bool,
) -> Option<HeapInitError> {
    if base == 0 || base % 8 != 0 {
        Some(HeapInitError::InvalidAddress)
    } else if capacity < FREE_BLOCK_BYTES || capacity % 8 != 0 || base + capacity > usize::MAX {
        Some(HeapInitError::InvalidCapacity)
    } else if meet(base as int, base + capacity, bootstrap, bootstrap_end) {
        Some(HeapInitError::OverlapsBootstrap)
    } else if present {
        Some(HeapInitError::AlreadyInitialized)
    } else {
        None
    }
}

/// The sum, as far as it can be counted.
pub open spec fn added(a: usize, b: usize) -> usize {
    if a + b > usize::MAX {
        usize::MAX
    } else {
        (a + b) as usize
    }
}

/// How two runs of memory are used together.
pub open spec fn combined(a: HeapStats, b: HeapStats) -> HeapStats {
    HeapStats {
        capacity_bytes: added(a.capacity_bytes, b.capacity_bytes),
        used_bytes: added(a.used_bytes, b.used_bytes),
        peak_used_bytes: added(a.peak_used_bytes, b.peak_used_bytes),
        free_bytes: added(a.free_bytes, b.free_bytes),
        largest_free_block: if b.largest_free_block > a.largest_free_block {
            b.largest_free_block
        } else {
            a.largest_free_block
        },
        live_allocations: added(a.live_allocations, b.live_allocations),
        total_allocations: added(a.total_allocations, b.total_allocations),
        total_deallocations: added(a.total_deallocations, b.total_deallocations),
        failed_allocations: added(a.failed_allocations, b.failed_allocations),
    }
}

impl<const N: usize> ExpandableHeap<N> {
    /// Further memory has been added.
    pub open spec fn expanded(&self) -> bool {
        self.external_base != 0
    }

    /// The heap is in order, and `external` is its further memory if it has any.
    pub open spec fn well_formed(&self, external: Seq<u8>) -> bool {
        &&& self.bootstrap.well_formed()
        &&& if self.expanded() {
            &&& self.external_base + self.external_capacity <= usize::MAX
            &&& self.external_capacity == external.len()
            &&& self.external_state@.initialized
            &&& region_well_formed(self.external_state, external)
        } else {
            &&& !self.external_state@.initialized
            &&& self.external_state@.well_formed(0)
            &&& self.external_state.live_allocations == 0
        }
    }

    /// The address belongs to the further memory.
    pub open spec fn is_external(&self, address: usize) -> bool {
        self.expanded() && self.external_base <= address < self.external_base
            + self.external_capacity
    }

    /// A heap at `base` without further memory.
    pub fn new(base: usize) -> (heap: Self)
        requires
            FREE_BLOCK_BYTES <= N <= isize::MAX,
            N % 8 == 0,
            base + N <= usize::MAX,
        ensures
            heap.well_formed(seq![]),
            !heap.expanded(),
            heap.bootstrap.base == base,
            heap.bootstrap.state@ == empty_model(),
            heap.external_state@ == empty_model(),
            heap.external_capacity == 0,
    {
        proof {
            reveal(in_order);
        }
        ExpandableHeap {
            bootstrap: ReclaimingHeap::new(base),
            external_base: 0,
            external_capacity: 0,
            external_state: AllocatorState::new(),
        }
    }

    /// Adds further memory, which is at `base`.
    pub fn initialize_external(&mut self, base: usize, external: &mut [u8]) -> (result: Result<
        (),
        HeapInitError,
    >)
        requires
            old(self).bootstrap.well_formed(),
            !old(self).expanded() ==> old(self).well_formed(old(external)@),
            old(external).len() <= isize::MAX,
        ensures
            final(external)@.len() == old(external)@.len(),
            match expansion_fault(
                base,
                old(external)@.len() as int,
                old(self).bootstrap.base as int,
                old(self).bootstrap.base + N,
                old(self).expanded(),
            ) {
                Some(error) => result == Err::<(), HeapInitError>(error) && *final(self) == *old(
                    self,
                ) && final(external)@ == old(external)@,
                None => {
                    &&& result is Ok
                    &&& final(self).well_formed(final(external)@)
                    &&& final(self).external_base == base
                    &&& final(self).bootstrap == old(self).bootstrap
                    &&& final(self).external_state@ == set_up(
                        old(self).external_state@,
                        old(external)@.len() as int,
                    )
                },
            },
    {
        let capacity: usize = external.len();
        if base == 0 || base % 8 != 0 {
            return Err(HeapInitError::InvalidAddress);
        }
        if capacity < FREE_BLOCK_BYTES || capacity % 8 != 0 || base.checked_add(capacity).is_none() {
            return Err(HeapInitError::InvalidCapacity);
        }
        let bootstrap_end: usize = self.bootstrap.base + N;
        if base < bootstrap_end && self.bootstrap.base < base + capacity {
            return Err(HeapInitError::OverlapsBootstrap);
        }
        if self.external_base != 0 {
            return Err(HeapInitError::AlreadyInitialized);
        }
        proof {
            reveal(in_order);
        }
        initialize(&mut self.external_state, external);
        self.external_capacity = capacity;
        self.external_base = base;
        Ok(())
    }

    /// Whether further memory has been added.
    pub fn using_external(&self) -> (expanded: bool)
        ensures
            expanded == self.expanded(),
    {
        self.external_base != 0
    }

    /// How the heap is used, with its further memory.
    pub fn stats(&mut self, external: &[u8]) -> (stats: HeapStats)
        requires
            old(self).well_formed(external@),
        ensures
            final(self).well_formed(external@),
            final(self).bootstrap.state@ == set_up(old(self).bootstrap.state@, N as int),
            final(self).bootstrap.base == old(self).bootstrap.base,
            final(self).external_base == old(self).external_base,
            final(self).external_capacity == old(self).external_capacity,
            final(self).external_state == old(self).external_state,
            stats == if old(self).expanded() {
                combined(
                    usage(final(self).bootstrap.state@, N as int),
                    usage(old(self).external_state@, external@.len() as int),
                )
            } else {
                usage(final(self).bootstrap.state@, N as int)
            },
    {
        let total = self.bootstrap.stats();
        if self.external_base == 0 {
            return total;
        }
        let further = region_stats(&self.external_state, external);
        let largest: usize = if further.largest_free_block > total.largest_free_block {
            further.largest_free_block
        } else {
            total.largest_free_block
        };
        HeapStats {
            capacity_bytes: total.capacity_bytes.saturating_add(further.capacity_bytes),
            used_bytes: total.used_bytes.saturating_add(further.used_bytes),
            peak_used_bytes: total.peak_used_bytes.saturating_add(further.peak_used_bytes),
            free_bytes: total.free_bytes.saturating_add(further.free_bytes),
            largest_free_block: largest,
            live_allocations: total.live_allocations.saturating_add(further.live_allocations),
            total_allocations: total.total_allocations.saturating_add(further.total_allocations),
            total_deallocations: total.total_deallocations.saturating_add(
                further.total_deallocations,
            ),
            failed_allocations: total.failed_allocations.saturating_add(
                further.failed_allocations,
            ),
        }
    }

    /// Serves an allocation from the further memory if that has room, else from the heap's own.
    pub fn allocate(&mut self, external: &mut [u8], size: usize, align: usize) -> (address: Option<usize>)
        requires
            old(self).well_formed(old(external)@),
            0 < align,
        ensures
            final(external)@.len() == old(external)@.len(),
            final(self).well_formed(final(external)@),
            final(self).external_base == old(self).external_base,
            final(self).bootstrap.base == old(self).bootstrap.base,
            ({
                let further = served(
                    old(self).external_state@,
                    old(external)@.len() as int,
                    size as int,
                    align as int,
                );
                let own = served(
                    old(self).bootstrap.state@,
                    N as int,
                    size as int,
                    align as int,
                );
                if old(self).expanded() && further.1 is Some {
                    &&& address == Some((old(self).external_base + further.1.unwrap()) as usize)
                    &&& final(self).external_state@ == further.0
                    &&& final(self).bootstrap == old(self).bootstrap
                    &&& others_keep_their_bytes(
                        old(self).external_state@.live,
                        further.1.unwrap(),
                        old(external)@,
                        final(external)@,
                    )
                } else {
                    &&& address == match own.1 {
                        Some(user) => Some((old(self).bootstrap.base + user) as usize),
                        None => None,
                    }
                    &&& final(self).bootstrap.state@ == own.0
                    &&& final(self).external_state@ == if old(self).expanded() {
                        further.0
                    } else {
                        old(self).external_state@
                    }
                    &&& final(external)@ == old(external)@
                    &&& own.1 is Some ==> others_keep_their_bytes(
                        old(self).bootstrap.state@.live,
                        own.1.unwrap(),
                        old(self).bootstrap.memory@,
                        final(self).bootstrap.memory@,
                    )
                }
            }),
    {
        if self.external_base != 0 {
            match allocate_from_free_list(&mut self.external_state, external, size, align) {
                Some(user) => {
                    proof {
                        crate::heap_allocator::region::lemma_allocations_fit(
                            self.external_state@,
                            external@.len() as int,
                            user as int,
                        );
                    }
                    return Some(self.external_base + user);
                },
                None => {
                    let ghost before = self.external_state;
                    count_failure(&mut self.external_state);
                    proof {
                        lemma_failure_is_only_counted(before, self.external_state, external@);
                    }
                },
            }
        }
        self.bootstrap.allocate(size, align)
    }

    /// Takes an allocation back, from the memory that its address belongs to.
    pub fn deallocate(&mut self, external: &mut [u8], address: usize)
        requires
            old(self).well_formed(old(external)@),
            if old(self).is_external(address) {
                HEADER_BYTES <= address - old(self).external_base && header_looks_valid(
                    old(external)@,
                    address - old(self).external_base,
                ) ==> old(self).external_state@.live.contains_key(
                    address - old(self).external_base,
                )
            } else {
                old(self).bootstrap.state@.initialized && HEADER_BYTES <= address - old(
                    self,
                ).bootstrap.base <= N && header_looks_valid(
                    old(self).bootstrap.memory@,
                    address - old(self).bootstrap.base,
                ) ==> old(self).bootstrap.state@.live.contains_key(
                    address - old(self).bootstrap.base,
                )
            },
        ensures
            final(external)@.len() == old(external)@.len(),
            final(self).well_formed(final(external)@),
            final(self).external_base == old(self).external_base,
            final(self).bootstrap.base == old(self).bootstrap.base,
            if old(self).is_external(address) {
                let user = address - old(self).external_base;
                &&& final(self).bootstrap == old(self).bootstrap
                &&& if old(self).external_state@.live.contains_key(user) {
                    final(self).external_state@ == released(old(self).external_state@, user)
                        && others_keep_their_bytes(
                        old(self).external_state@.live,
                        user,
                        old(external)@,
                        final(external)@,
                    )
                } else {
                    final(self).external_state == old(self).external_state && final(external)@ == old(
                        external,
                    )@
                }
            } else {
                let user = address - old(self).bootstrap.base;
                &&& final(self).external_state == old(self).external_state
                &&& final(external)@ == old(external)@
                &&& if old(self).bootstrap.state@.live.contains_key(user) {
                    final(self).bootstrap.state@ == released(old(self).bootstrap.state@, user)
                        && others_keep_their_bytes(
                        old(self).bootstrap.state@.live,
                        user,
                        old(self).bootstrap.memory@,
                        final(self).bootstrap.memory@,
                    )
                } else {
                    final(self).bootstrap.state == old(self).bootstrap.state && final(self).bootstrap.memory@ == old(self).bootstrap.memory@
                }
            },
    {
        if self.external_base != 0 && address >= self.external_base && address < self.external_base
            + self.external_capacity {
            deallocate_into_region(
                &mut self.external_state,
                external,
                address - self.external_base,
            );
        } else {
            self.bootstrap.deallocate(address);
        }
    }
}

} // verus!
