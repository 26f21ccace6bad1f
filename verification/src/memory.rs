//! Physical memory: which pages may be used, which are handed out, and which have come back.

pub mod laws;

use vstd::prelude::*;
use crate::bootinfo::{
    capped, page_bytes, usable_in, BootInfo, FirmwareMode, MemoryRegion, MemoryRegionKind,
    ReservedMemoryRange, PAGE_SIZE,
};
use crate::sums::{
    lemma_sum_bound, lemma_sum_insert, lemma_sum_monotone, lemma_sum_remove, lemma_sum_update, sum,
};

verus! {

/// As many regions as the memory map and the ranges that are taken can make, and a few more.
pub const MAX_ALLOCATOR_REGIONS: usize = 152;

pub const MAX_FREE_EXTENTS: usize = 1024;

/// A region of pages, of which the first have been handed out at least once.
#[derive(Debug, Clone, Copy, PartialEq, Eq, Structural)]
pub struct RegionCursor {
    pub start: u64,
    pub page_count: u64,
    pub next_page: u64,
    pub kind: MemoryRegionKind,
}

/// A run of pages that have come back.
#[derive(Debug, Clone, Copy, PartialEq, Eq, Structural)]
pub struct FreeExtent {
    pub start: u64,
    pub page_count: u64,
}

/// A run of bytes.
#[derive(Debug, Clone, Copy, PartialEq, Eq, Structural)]
pub struct RegionSpan {
    pub start: u64,
    pub end: u64,
}

/// How much memory there is, and how much of it is handed out.
#[derive(Debug, Clone, Copy, PartialEq, Eq, Structural)]
pub struct MemoryStats {
    pub usable_region_count: usize,
    pub total_usable_pages: u64,
    pub allocated_pages: u64,
    pub remaining_pages: u64,
}

/// The allocator of physical pages.
pub struct PhysicalPageAllocator {
    pub initialized: bool,
    pub usable_region_count: usize,
    pub regions: [RegionCursor; MAX_ALLOCATOR_REGIONS],
    pub total_usable_pages: u64,
    pub allocated_pages: u64,
    pub free_extents: [FreeExtent; MAX_FREE_EXTENTS],
    pub free_extent_count: usize,
}

/// What the allocator stands for.
#[verifier::ext_equal]
pub ghost struct AllocatorState {
    pub initialized: bool,
    pub regions: Seq<RegionCursor>,
    pub extents: Seq<FreeExtent>,
    pub total: int,
    pub allocated: int,
}

impl View for PhysicalPageAllocator {
    type V = AllocatorState;

    open spec fn view(&self) -> AllocatorState {
        AllocatorState {
            initialized: self.initialized,
            regions: self.regions@.take(self.usable_region_count as int),
            extents: self.free_extents@.take(self.free_extent_count as int),
            total: self.total_usable_pages as int,
            allocated: self.allocated_pages as int,
        }
    }
}

impl RegionCursor {
    pub fn empty() -> (region: RegionCursor)
        ensures
            region == (RegionCursor {
                start: 0,
                page_count: 0,
                next_page: 0,
                kind: MemoryRegionKind::Reserved,
            }),
    {
        RegionCursor { start: 0, page_count: 0, next_page: 0, kind: MemoryRegionKind::Reserved }
    }

    /// Where the region ends.
    pub open spec fn end(self) -> int {
        self.start + self.page_count * PAGE_SIZE
    }

    /// Where what was handed out of the region ends.
    pub open spec fn handed_end(self) -> int {
        self.start + self.next_page * PAGE_SIZE
    }

    /// The region is a run of whole pages below the end of the address space.
    pub open spec fn sound(self) -> bool {
        &&& self.start % PAGE_SIZE == 0
        &&& 0 < self.page_count
        &&& self.next_page <= self.page_count
        &&& self.end() <= u64::MAX
    }

    /// How many pages have never been handed out.
    pub fn remaining_pages(self) -> (remaining: u64)
        ensures
            remaining == if self.next_page > self.page_count {
                0
            } else {
                self.page_count - self.next_page
            },
    {
        self.page_count.saturating_sub(self.next_page)
    }
}

impl FreeExtent {
    pub fn empty() -> (extent: FreeExtent)
        ensures
            extent == (FreeExtent { start: 0, page_count: 0 }),
    {
        FreeExtent { start: 0, page_count: 0 }
    }

    /// Where the extent ends.
    pub open spec fn finish(self) -> int {
        self.start + self.page_count * PAGE_SIZE
    }

    /// The extent is a run of whole pages below the end of the address space.
    pub open spec fn sound(self) -> bool {
        &&& self.start % PAGE_SIZE == 0
        &&& 0 < self.page_count
        &&& self.finish() <= u64::MAX
    }

    pub fn end(self) -> (end: u64)
        ensures
            end == capped(self.start + capped(self.page_count * PAGE_SIZE)),
    {
        self.start.saturating_add(page_bytes(self.page_count))
    }
}

/// How many pages each extent has.
pub open spec fn extent_sizes(extents: Seq<FreeExtent>) -> Seq<int> {
    extents.map_values(|extent: FreeExtent| extent.page_count as int)
}

/// How many pages each region has.
pub open spec fn region_sizes(regions: Seq<RegionCursor>) -> Seq<int> {
    regions.map_values(|region: RegionCursor| region.page_count as int)
}

/// How many pages of each region have been handed out at least once.
pub open spec fn region_uses(regions: Seq<RegionCursor>) -> Seq<int> {
    regions.map_values(|region: RegionCursor| region.next_page as int)
}

/// Extents are in order of their addresses, and between two of them there is at least a page.
pub open spec fn apart(extents: Seq<FreeExtent>) -> bool {
    forall|i: int, j: int|
        0 <= i < j < extents.len() ==> (#[trigger] extents[i]).finish() < (#[trigger] extents[j]).start
}

impl AllocatorState {
    /// The regions and extents are sound, the extents are apart, and every page that was ever
    /// handed out is accounted for: it is allocated or has come back.
    pub open spec fn well_formed(self) -> bool {
        &&& self.regions.len() <= MAX_ALLOCATOR_REGIONS
        &&& self.extents.len() <= MAX_FREE_EXTENTS
        &&& forall|i: int| 0 <= i < self.regions.len() ==> (#[trigger] self.regions[i]).sound()
        &&& forall|i: int| 0 <= i < self.extents.len() ==> (#[trigger] self.extents[i]).sound()
        &&& apart(self.extents)
        &&& self.total == sum(region_sizes(self.regions))
        &&& 0 <= self.allocated
        &&& self.allocated + sum(extent_sizes(self.extents)) == sum(region_uses(self.regions))
    }
}

/// The first extent from `i` on with at least `page_count` pages.
pub open spec fn fitting_extent(extents: Seq<FreeExtent>, page_count: u64, i: int) -> Option<int>
    decreases extents.len() - i,
{
    if i < 0 || i >= extents.len() {
        None
    } else if extents[i].page_count >= page_count {
        Some(i)
    } else {
        fitting_extent(extents, page_count, i + 1)
    }
}

/// The first region from `i` on with at least `page_count` pages that were never handed out.
pub open spec fn fitting_region(regions: Seq<RegionCursor>, page_count: u64, i: int) -> Option<int>
    decreases regions.len() - i,
{
    if i < 0 || i >= regions.len() {
        None
    } else if regions[i].page_count - regions[i].next_page >= page_count {
        Some(i)
    } else {
        fitting_region(regions, page_count, i + 1)
    }
}

/// The extents without the first `page_count` pages of extent `i`.
pub open spec fn shortened(extents: Seq<FreeExtent>, i: int, page_count: u64) -> Seq<FreeExtent> {
    if extents[i].page_count == page_count {
        extents.remove(i)
    } else {
        extents.update(
            i,
            FreeExtent {
                start: (extents[i].start + page_count * PAGE_SIZE) as u64,
                page_count: (extents[i].page_count - page_count) as u64,
            },
        )
    }
}

/// What an allocation gives, and the state after it. Pages that have come back go first.
pub open spec fn allocation(state: AllocatorState, page_count: u64) -> (AllocatorState, Option<u64>) {
    if page_count == 0 || !state.initialized {
        (state, None)
    } else {
        match fitting_extent(state.extents, page_count, 0) {
            Some(i) => (
                AllocatorState {
                    extents: shortened(state.extents, i, page_count),
                    allocated: state.allocated + page_count,
                    ..state
                },
                Some(state.extents[i].start),
            ),
            None => match fitting_region(state.regions, page_count, 0) {
                Some(i) => (
                    AllocatorState {
                        regions: state.regions.update(
                            i,
                            RegionCursor {
                                next_page: (state.regions[i].next_page + page_count) as u64,
                                ..state.regions[i]
                            },
                        ),
                        allocated: state.allocated + page_count,
                        ..state
                    },
                    Some(state.regions[i].handed_end() as u64),
                ),
                None => (state, None),
            },
        }
    }
}

/// The pages from `start` to `end` were handed out of one region.
pub open spec fn was_handed_out(regions: Seq<RegionCursor>, start: int, end: int) -> bool {
    exists|i: int|
        0 <= i < regions.len() && (#[trigger] regions[i]).start <= start && end
            <= regions[i].handed_end()
}

/// Some of the bytes from `start` to `end` have come back.
pub open spec fn meets_extent(extents: Seq<FreeExtent>, start: int, end: int) -> bool {
    exists|i: int|
        0 <= i < extents.len() && start < (#[trigger] extents[i]).finish() && extents[i].start < end
}

/// Whether `page_count` pages from `start` on are allocated, as far as the allocator knows.
pub open spec fn releasable(state: AllocatorState, start: u64, page_count: u64) -> bool {
    let end = start + page_count * PAGE_SIZE;
    &&& state.initialized
    &&& page_count > 0
    &&& start % PAGE_SIZE == 0
    &&& page_count <= state.allocated
    &&& end <= u64::MAX
    &&& was_handed_out(state.regions, start as int, end)
    &&& !meets_extent(state.extents, start as int, end)
}

/// The place, from `i` on, of an extent that starts at `start`.
pub open spec fn extent_place(extents: Seq<FreeExtent>, start: u64, i: int) -> int
    decreases extents.len() - i,
{
    if i < 0 || i >= extents.len() || extents[i].start > start {
        i
    } else {
        extent_place(extents, start, i + 1)
    }
}

/// The extents with `page_count` more pages from `start` on, joined with those that they touch; none
/// if there is no room for one more extent.
pub open spec fn with_pages(extents: Seq<FreeExtent>, start: u64, page_count: u64) -> Option<
    Seq<FreeExtent>,
> {
    let place = extent_place(extents, start, 0);
    let end = start + page_count * PAGE_SIZE;
    let joins_before = place > 0 && extents[place - 1].finish() == start;
    let joins_after = place < extents.len() && extents[place].start == end;
    if joins_before && joins_after {
        Some(
            extents.update(
                place - 1,
                FreeExtent {
                    start: extents[place - 1].start,
                    page_count: (extents[place - 1].page_count + page_count
                        + extents[place].page_count) as u64,
                },
            ).remove(place),
        )
    } else if joins_before {
        Some(
            extents.update(
                place - 1,
                FreeExtent {
                    start: extents[place - 1].start,
                    page_count: (extents[place - 1].page_count + page_count) as u64,
                },
            ),
        )
    } else if joins_after {
        Some(
            extents.update(
                place,
                FreeExtent { start, page_count: (extents[place].page_count + page_count) as u64 },
            ),
        )
    } else if extents.len() >= MAX_FREE_EXTENTS {
        None
    } else {
        Some(extents.insert(place, FreeExtent { start, page_count }))
    }
}

/// The state after pages were released, or none if they are not.
pub open spec fn release(state: AllocatorState, start: u64, page_count: u64) -> Option<AllocatorState> {
    if !releasable(state, start, page_count) {
        None
    } else {
        match with_pages(state.extents, start, page_count) {
            Some(extents) => Some(
                AllocatorState { extents, allocated: state.allocated - page_count, ..state },
            ),
            None => None,
        }
    }
}

/// The last page boundary up to `value`.
pub open spec fn page_floor(value: int) -> int {
    value / PAGE_SIZE as int * PAGE_SIZE
}

/// The first page boundary from `value` on, below the end of the address space.
pub open spec fn page_ceiling(value: int) -> int {
    page_floor(capped(value + PAGE_SIZE - 1) as int)
}

/// The last page boundary up to `value`.
pub fn align_down(value: u64) -> (aligned: u64)
    ensures
        aligned == page_floor(value as int),
{
    value / PAGE_SIZE * PAGE_SIZE
}

/// The first page boundary from `value` on, below the end of the address space.
pub fn align_up(value: u64) -> (aligned: u64)
    ensures
        aligned == page_ceiling(value as int),
{
    align_down(value.saturating_add(PAGE_SIZE - 1))
}

/// What is left of a span without the bytes from `from` to `to`.
pub open spec fn cut(span: RegionSpan, from: u64, to: u64) -> Seq<RegionSpan> {
    let overlap_start = if span.start > from {
        span.start
    } else {
        from
    };
    let overlap_end = if span.end < to {
        span.end
    } else {
        to
    };
    if span.end <= span.start {
        seq![]
    } else if overlap_end <= overlap_start {
        seq![span]
    } else {
        (if span.start < overlap_start {
            seq![RegionSpan { start: span.start, end: overlap_start }]
        } else {
            seq![]
        }) + (if overlap_end < span.end {
            seq![RegionSpan { start: overlap_end, end: span.end }]
        } else {
            seq![]
        })
    }
}

/// What is left of the first `n` spans without the bytes from `from` to `to`.
pub open spec fn cut_all(spans: Seq<RegionSpan>, from: u64, to: u64, n: nat) -> Seq<RegionSpan>
    decreases n,
{
    if n == 0 {
        seq![]
    } else {
        cut_all(spans, from, to, (n - 1) as nat) + cut(spans[n - 1], from, to)
    }
}

/// Where the first page starts that a range touches.
pub open spec fn range_from(range: ReservedMemoryRange) -> u64 {
    page_floor(range.start as int) as u64
}

/// Where the last page ends that a range touches.
pub open spec fn range_to(range: ReservedMemoryRange) -> u64 {
    page_ceiling(capped(range.start + range.length) as int) as u64
}

/// What is left of the spans without the pages that the first `n` ranges touch.
pub open spec fn fragments(spans: Seq<RegionSpan>, ranges: Seq<ReservedMemoryRange>, n: nat) -> Seq<
    RegionSpan,
>
    decreases n,
{
    if n == 0 {
        spans
    } else {
        let before = fragments(spans, ranges, (n - 1) as nat);
        let range = ranges[n - 1];
        if range.length == 0 || range_to(range) <= range_from(range) {
            before
        } else {
            cut_all(before, range_from(range), range_to(range), before.len())
        }
    }
}

/// The regions with the whole pages of a span behind them.
pub open spec fn with_span(regions: Seq<RegionCursor>, span: RegionSpan, kind: MemoryRegionKind) -> Seq<
    RegionCursor,
> {
    let start = page_ceiling(span.start as int);
    let end = page_floor(span.end as int);
    if end <= start || regions.len() >= MAX_ALLOCATOR_REGIONS {
        regions
    } else {
        regions.push(
            RegionCursor {
                start: start as u64,
                page_count: ((end - start) / PAGE_SIZE as int) as u64,
                next_page: 0,
                kind,
            },
        )
    }
}

/// The regions with the whole pages of the first `n` spans behind them.
pub open spec fn with_spans(
    regions: Seq<RegionCursor>,
    spans: Seq<RegionSpan>,
    kind: MemoryRegionKind,
    n: nat,
) -> Seq<RegionCursor>
    decreases n,
{
    if n == 0 {
        regions
    } else {
        with_span(with_spans(regions, spans, kind, (n - 1) as nat), spans[n - 1], kind)
    }
}

/// The regions with what is left of a run of bytes behind them.
pub open spec fn with_fragments(
    regions: Seq<RegionCursor>,
    span: RegionSpan,
    kind: MemoryRegionKind,
    ranges: Seq<ReservedMemoryRange>,
) -> Seq<RegionCursor> {
    let left = fragments(seq![span], ranges, ranges.len());
    with_spans(regions, left, kind, left.len())
}

/// The regions that may be used of the first `n` of the memory map.
pub open spec fn usable_regions(
    mode: FirmwareMode,
    map: Seq<MemoryRegion>,
    ranges: Seq<ReservedMemoryRange>,
    n: nat,
) -> Seq<RegionCursor>
    decreases n,
{
    if n == 0 {
        seq![]
    } else {
        let before = usable_regions(mode, map, ranges, (n - 1) as nat);
        let region = map[n - 1];
        if !usable_in(mode, region.kind) || region.page_count == 0 {
            before
        } else {
            with_fragments(
                before,
                RegionSpan {
                    start: region.start,
                    end: capped(region.start + region.bytes()),
                },
                region.kind,
                ranges,
            )
        }
    }
}

/// The run of bytes that each of the first `n` regions has handed out, where that is not empty.
pub open spec fn handed_ranges(regions: Seq<RegionCursor>, n: nat) -> Seq<(u64, u64)>
    decreases n,
{
    if n == 0 {
        seq![]
    } else {
        let before = handed_ranges(regions, (n - 1) as nat);
        let region = regions[n - 1];
        if region.next_page == 0 {
            before
        } else {
            before.push((region.start, (region.next_page * PAGE_SIZE) as u64))
        }
    }
}

/// The extent that fits is one, and it does fit.
pub proof fn lemma_fitting_extent(extents: Seq<FreeExtent>, page_count: u64, i: int)
    requires
        0 <= i <= extents.len(),
    ensures
        match fitting_extent(extents, page_count, i) {
            Some(at) => i <= at < extents.len() && extents[at].page_count >= page_count,
            None => forall|j: int|
                i <= j < extents.len() ==> (#[trigger] extents[j]).page_count < page_count,
        },
    decreases extents.len() - i,
{
    if i < extents.len() && extents[i].page_count < page_count {
        lemma_fitting_extent(extents, page_count, i + 1);
    }
}

/// The region that fits is one, and it does fit.
pub proof fn lemma_fitting_region(regions: Seq<RegionCursor>, page_count: u64, i: int)
    requires
        0 <= i <= regions.len(),
    ensures
        match fitting_region(regions, page_count, i) {
            Some(at) => i <= at < regions.len() && regions[at].page_count - regions[at].next_page
                >= page_count,
            None => forall|j: int|
                i <= j < regions.len() ==> (#[trigger] regions[j]).page_count - regions[j].next_page
                    < page_count,
        },
    decreases regions.len() - i,
{
    if i < regions.len() && regions[i].page_count - regions[i].next_page < page_count {
        lemma_fitting_region(regions, page_count, i + 1);
    }
}

/// The place of an extent divides those that start later from the others.
pub proof fn lemma_extent_place(extents: Seq<FreeExtent>, start: u64, i: int)
    requires
        0 <= i <= extents.len(),
        apart(extents),
        forall|j: int| 0 <= j < extents.len() ==> (#[trigger] extents[j]).sound(),
        forall|j: int| 0 <= j < i ==> (#[trigger] extents[j]).start <= start,
    ensures
        i <= extent_place(extents, start, i) <= extents.len(),
        forall|j: int|
            0 <= j < extent_place(extents, start, i) ==> (#[trigger] extents[j]).start <= start,
        forall|j: int|
            extent_place(extents, start, i) <= j < extents.len() ==> (#[trigger] extents[j]).start
                > start,
    decreases extents.len() - i,
{
    if i < extents.len() && extents[i].start <= start {
        lemma_extent_place(extents, start, i + 1);
    } else {
        assert forall|j: int| i <= j < extents.len() implies (#[trigger] extents[j]).start > start by {
            if i < j {
                assert(extents[i].finish() < extents[j].start);
            }
        }
    }
}

/// All regions together have far fewer pages than can be counted.
pub proof fn lemma_page_counts(state: AllocatorState)
    requires
        state.well_formed(),
    ensures
        0 <= sum(region_uses(state.regions)) <= state.total <= MAX_ALLOCATOR_REGIONS
            * 0x10_0000_0000_0000,
        0 <= sum(extent_sizes(state.extents)),
        state.allocated <= state.total,
{
    let sizes = region_sizes(state.regions);
    let uses = region_uses(state.regions);
    assert forall|i: int| 0 <= i < sizes.len() implies 0 <= #[trigger] sizes[i]
        <= 0x10_0000_0000_0000 by {
        assert(state.regions[i].sound());
    }
    assert forall|i: int| 0 <= i < uses.len() implies #[trigger] uses[i] <= sizes[i] && 0 <= uses[i]
        <= 0x10_0000_0000_0000 by {
        assert(state.regions[i].sound());
    }
    lemma_sum_monotone(uses, sizes);
    lemma_sum_bound(sizes, 0x10_0000_0000_0000);
    lemma_sum_bound(uses, 0x10_0000_0000_0000);
    let free = extent_sizes(state.extents);
    assert forall|i: int| 0 <= i < free.len() implies 0 <= #[trigger] free[i]
        <= 0x10_0000_0000_0000 by {
        assert(state.extents[i].sound());
    }
    lemma_sum_bound(free, 0x10_0000_0000_0000);
    assert(sizes.len() * 0x10_0000_0000_0000 <= MAX_ALLOCATOR_REGIONS * 0x10_0000_0000_0000);
}

/// Shortening an extent keeps the extents sound and apart, and takes its pages out of the sum.
pub proof fn lemma_shortened(extents: Seq<FreeExtent>, i: int, page_count: u64)
    requires
        0 <= i < extents.len(),
        0 < page_count <= extents[i].page_count,
        apart(extents),
        forall|j: int| 0 <= j < extents.len() ==> (#[trigger] extents[j]).sound(),
    ensures
        apart(shortened(extents, i, page_count)),
        forall|j: int|
            0 <= j < shortened(extents, i, page_count).len() ==> (#[trigger] shortened(
                extents,
                i,
                page_count,
            )[j]).sound(),
        shortened(extents, i, page_count).len() <= extents.len(),
        sum(extent_sizes(shortened(extents, i, page_count))) == sum(extent_sizes(extents))
            - page_count,
{
    let sizes = extent_sizes(extents);
    let next = shortened(extents, i, page_count);
    assert(extents[i].sound());
    if extents[i].page_count == page_count {
        lemma_sum_remove(sizes, i);
        assert(extent_sizes(next) =~= sizes.remove(i));
    } else {
        lemma_sum_update(sizes, i, extents[i].page_count - page_count);
        assert(extent_sizes(next) =~= sizes.update(i, extents[i].page_count - page_count));
        assert(next[i].finish() == extents[i].finish());
    }
}

/// An allocation keeps the state well formed.
pub proof fn lemma_allocation_keeps(state: AllocatorState, page_count: u64)
    requires
        state.well_formed(),
    ensures
        allocation(state, page_count).0.well_formed(),
{
    let next = allocation(state, page_count).0;
    lemma_fitting_extent(state.extents, page_count, 0);
    lemma_fitting_region(state.regions, page_count, 0);
    if page_count != 0 && state.initialized {
        match fitting_extent(state.extents, page_count, 0) {
            Some(i) => lemma_shortened(state.extents, i, page_count),
            None => match fitting_region(state.regions, page_count, 0) {
                Some(i) => {
                    assert(state.regions[i].sound());
                    let uses = region_uses(state.regions);
                    lemma_sum_update(uses, i, uses[i] + page_count);
                    assert(region_uses(next.regions) =~= uses.update(i, uses[i] + page_count));
                    assert(region_sizes(next.regions) =~= region_sizes(state.regions));
                },
                None => {},
            },
        }
    }
}

/// What the neighbours of pages that come back are: before the place they end at the latest where the
/// pages start, behind it they start at the earliest where the pages end.
pub proof fn lemma_neighbours(extents: Seq<FreeExtent>, start: u64, page_count: u64)
    requires
        apart(extents),
        forall|j: int| 0 <= j < extents.len() ==> (#[trigger] extents[j]).sound(),
        page_count > 0,
        !meets_extent(extents, start as int, start + page_count * PAGE_SIZE),
    ensures
        0 <= extent_place(extents, start, 0) <= extents.len(),
        forall|j: int|
            0 <= j < extent_place(extents, start, 0) ==> (#[trigger] extents[j]).finish() <= start,
        forall|j: int|
            extent_place(extents, start, 0) <= j < extents.len() ==> (#[trigger] extents[j]).start
                >= start + page_count * PAGE_SIZE,
{
    lemma_extent_place(extents, start, 0);
    let end = start + page_count * PAGE_SIZE;
    assert forall|j: int| 0 <= j < extents.len() implies (#[trigger] extents[j]).finish() <= start
        || end <= extents[j].start by {}
}

/// Whether the extents are sound and apart, and have so many pages more than before.
spec fn grown(extents: Seq<FreeExtent>, next: Seq<FreeExtent>, page_count: u64) -> bool {
    &&& apart(next)
    &&& forall|j: int| 0 <= j < next.len() ==> (#[trigger] next[j]).sound()
    &&& next.len() <= MAX_FREE_EXTENTS
    &&& sum(extent_sizes(next)) == sum(extent_sizes(extents)) + page_count
}

/// Pages that come back between two extents join them.
#[verifier::spinoff_prover]
#[verifier::rlimit(60)]
proof fn lemma_joins_both(extents: Seq<FreeExtent>, start: u64, page_count: u64)
    requires
        apart(extents),
        forall|j: int| 0 <= j < extents.len() ==> (#[trigger] extents[j]).sound(),
        extents.len() <= MAX_FREE_EXTENTS,
        page_count > 0,
        start % PAGE_SIZE == 0,
        start + page_count * PAGE_SIZE <= u64::MAX,
        !meets_extent(extents, start as int, start + page_count * PAGE_SIZE),
        with_pages(extents, start, page_count) is Some,
        (extent_place(extents, start, 0) > 0 && extents[extent_place(extents, start, 0) - 1].finish()
            == start),
        (extent_place(extents, start, 0) < extents.len() && extents[extent_place(
            extents,
            start,
            0,
        )].start == start + page_count * PAGE_SIZE),
    ensures
        grown(extents, with_pages(extents, start, page_count).unwrap(), page_count),
{
    lemma_neighbours(extents, start, page_count);
    let place = extent_place(extents, start, 0);
    let end = start + page_count * PAGE_SIZE;
    let sizes = extent_sizes(extents);
    let joins_before = place > 0 && extents[place - 1].finish() == start;
    let joins_after = place < extents.len() && extents[place].start == end;
    let next = with_pages(extents, start, page_count).unwrap();
    let joined = (extents[place - 1].page_count + page_count + extents[place].page_count) as u64;
    assert(extents[place - 1].sound() && extents[place].sound());
    assert(joined == extents[place - 1].page_count + page_count
        + extents[place].page_count);
    assert(next[place - 1].finish() == extents[place].finish());
    lemma_sum_update(sizes, place - 1, joined as int);
    lemma_sum_remove(sizes.update(place - 1, joined as int), place);
    assert(extent_sizes(next) =~= sizes.update(place - 1, joined as int).remove(place));
    assert forall|j: int| 0 <= j < next.len() implies (#[trigger] next[j]).sound() by {
        if j < place - 1 {
            assert(extents[j].sound());
        } else if j > place - 1 {
            assert(next[j] == extents[j + 1]);
            assert(extents[j + 1].sound());
        }
    }
    assert forall|i: int, j: int| 0 <= i < j < next.len() implies (#[trigger] next[i]).finish()
        < (#[trigger] next[j]).start by {
        let before = if i <= place - 1 {
            i
        } else {
            i + 1
        };
        let behind = if j <= place - 1 {
            j
        } else {
            j + 1
        };
        assert(extents[before].finish() < extents[behind].start);
        if i == place - 1 {
            assert(extents[place].finish() < extents[behind].start);
        }
    }
}

/// Pages that come back behind an extent join it.
#[verifier::spinoff_prover]
#[verifier::rlimit(60)]
proof fn lemma_joins_before(extents: Seq<FreeExtent>, start: u64, page_count: u64)
    requires
        apart(extents),
        forall|j: int| 0 <= j < extents.len() ==> (#[trigger] extents[j]).sound(),
        extents.len() <= MAX_FREE_EXTENTS,
        page_count > 0,
        start % PAGE_SIZE == 0,
        start + page_count * PAGE_SIZE <= u64::MAX,
        !meets_extent(extents, start as int, start + page_count * PAGE_SIZE),
        with_pages(extents, start, page_count) is Some,
        (extent_place(extents, start, 0) > 0 && extents[extent_place(extents, start, 0) - 1].finish()
            == start),
        !(extent_place(extents, start, 0) < extents.len() && extents[extent_place(
            extents,
            start,
            0,
        )].start == start + page_count * PAGE_SIZE),
    ensures
        grown(extents, with_pages(extents, start, page_count).unwrap(), page_count),
{
    lemma_neighbours(extents, start, page_count);
    let place = extent_place(extents, start, 0);
    let end = start + page_count * PAGE_SIZE;
    let sizes = extent_sizes(extents);
    let joins_before = place > 0 && extents[place - 1].finish() == start;
    let joins_after = place < extents.len() && extents[place].start == end;
    let next = with_pages(extents, start, page_count).unwrap();
    let joined = (extents[place - 1].page_count + page_count) as u64;
    assert(extents[place - 1].sound());
    assert(next[place - 1].finish() == end);
    lemma_sum_update(sizes, place - 1, joined as int);
    assert(extent_sizes(next) =~= sizes.update(place - 1, joined as int));
    assert forall|i: int, j: int| 0 <= i < j < next.len() implies (#[trigger] next[i]).finish()
        < (#[trigger] next[j]).start by {
        assert(extents[i].finish() < extents[j].start);
        if i == place - 1 {
            if j > place {
                assert(extents[place].finish() < extents[j].start);
            }
        }
    }
}

/// Pages that come back before an extent join it.
#[verifier::spinoff_prover]
#[verifier::rlimit(60)]
proof fn lemma_joins_after(extents: Seq<FreeExtent>, start: u64, page_count: u64)
    requires
        apart(extents),
        forall|j: int| 0 <= j < extents.len() ==> (#[trigger] extents[j]).sound(),
        extents.len() <= MAX_FREE_EXTENTS,
        page_count > 0,
        start % PAGE_SIZE == 0,
        start + page_count * PAGE_SIZE <= u64::MAX,
        !meets_extent(extents, start as int, start + page_count * PAGE_SIZE),
        with_pages(extents, start, page_count) is Some,
        !(extent_place(extents, start, 0) > 0 && extents[extent_place(extents, start, 0) - 1].finish()
            == start),
        (extent_place(extents, start, 0) < extents.len() && extents[extent_place(
            extents,
            start,
            0,
        )].start == start + page_count * PAGE_SIZE),
    ensures
        grown(extents, with_pages(extents, start, page_count).unwrap(), page_count),
{
    lemma_neighbours(extents, start, page_count);
    let place = extent_place(extents, start, 0);
    let end = start + page_count * PAGE_SIZE;
    let sizes = extent_sizes(extents);
    let joins_before = place > 0 && extents[place - 1].finish() == start;
    let joins_after = place < extents.len() && extents[place].start == end;
    let next = with_pages(extents, start, page_count).unwrap();
    let joined = (extents[place].page_count + page_count) as u64;
    assert(extents[place].sound());
    assert(next[place].finish() == extents[place].finish());
    lemma_sum_update(sizes, place, joined as int);
    assert(extent_sizes(next) =~= sizes.update(place, joined as int));
    assert forall|i: int, j: int| 0 <= i < j < next.len() implies (#[trigger] next[i]).finish()
        < (#[trigger] next[j]).start by {
        assert(extents[i].finish() < extents[j].start);
        if j == place && i < place - 1 {
            assert(extents[i].finish() < extents[place - 1].start);
        }
    }
}

/// Pages that come back with no neighbour are an extent of their own.
#[verifier::spinoff_prover]
#[verifier::rlimit(60)]
proof fn lemma_stands_alone(extents: Seq<FreeExtent>, start: u64, page_count: u64)
    requires
        apart(extents),
        forall|j: int| 0 <= j < extents.len() ==> (#[trigger] extents[j]).sound(),
        extents.len() <= MAX_FREE_EXTENTS,
        page_count > 0,
        start % PAGE_SIZE == 0,
        start + page_count * PAGE_SIZE <= u64::MAX,
        !meets_extent(extents, start as int, start + page_count * PAGE_SIZE),
        with_pages(extents, start, page_count) is Some,
        !(extent_place(extents, start, 0) > 0 && extents[extent_place(extents, start, 0) - 1].finish()
            == start),
        !(extent_place(extents, start, 0) < extents.len() && extents[extent_place(
            extents,
            start,
            0,
        )].start == start + page_count * PAGE_SIZE),
    ensures
        grown(extents, with_pages(extents, start, page_count).unwrap(), page_count),
{
    lemma_neighbours(extents, start, page_count);
    let place = extent_place(extents, start, 0);
    let end = start + page_count * PAGE_SIZE;
    let sizes = extent_sizes(extents);
    let joins_before = place > 0 && extents[place - 1].finish() == start;
    let joins_after = place < extents.len() && extents[place].start == end;
    let next = with_pages(extents, start, page_count).unwrap();
    lemma_sum_insert(sizes, place, page_count as int);
    assert(extent_sizes(next) =~= sizes.insert(place, page_count as int));
    assert(next[place].finish() == end);
    assert forall|j: int| 0 <= j < next.len() implies (#[trigger] next[j]).sound() by {
        if j < place {
            assert(extents[j].sound());
        } else if j > place {
            assert(next[j] == extents[j - 1]);
            assert(extents[j - 1].sound());
        }
    }
    assert forall|i: int, j: int| 0 <= i < j < next.len() implies (#[trigger] next[i]).finish()
        < (#[trigger] next[j]).start by {
        if j == place {
            assert(next[i] == extents[i]);
            if i < place - 1 {
                assert(extents[i].finish() < extents[place - 1].start);
            }
        } else if i == place {
            assert(next[j] == extents[j - 1]);
            if j - 1 > place {
                assert(extents[place].finish() < extents[j - 1].start);
            }
        } else {
            let before = if i < place {
                i
            } else {
                i - 1
            };
            let behind = if j < place {
                j
            } else {
                j - 1
            };
            assert(extents[before].finish() < extents[behind].start);
        }
    }
}

/// Pages that come back keep the extents sound and apart, and add to the sum.
pub proof fn lemma_with_pages(extents: Seq<FreeExtent>, start: u64, page_count: u64)
    requires
        apart(extents),
        forall|j: int| 0 <= j < extents.len() ==> (#[trigger] extents[j]).sound(),
        extents.len() <= MAX_FREE_EXTENTS,
        page_count > 0,
        start % PAGE_SIZE == 0,
        start + page_count * PAGE_SIZE <= u64::MAX,
        !meets_extent(extents, start as int, start + page_count * PAGE_SIZE),
    ensures
        with_pages(extents, start, page_count) matches Some(next) ==> {
            &&& apart(next)
            &&& forall|j: int| 0 <= j < next.len() ==> (#[trigger] next[j]).sound()
            &&& next.len() <= MAX_FREE_EXTENTS
            &&& sum(extent_sizes(next)) == sum(extent_sizes(extents)) + page_count
        },
{
    if with_pages(extents, start, page_count) is Some {
        let place = extent_place(extents, start, 0);
        let joins_before = place > 0 && extents[place - 1].finish() == start;
        let joins_after = place < extents.len() && extents[place].start == start + page_count
            * PAGE_SIZE;
        lemma_extent_place(extents, start, 0);
        if joins_before && joins_after {
            lemma_joins_both(extents, start, page_count);
        } else if joins_before {
            lemma_joins_before(extents, start, page_count);
        } else if joins_after {
            lemma_joins_after(extents, start, page_count);
        } else {
            lemma_stands_alone(extents, start, page_count);
        }
    }
}

/// A release keeps the state well formed.
pub proof fn lemma_release_keeps(state: AllocatorState, start: u64, page_count: u64)
    requires
        state.well_formed(),
    ensures
        release(state, start, page_count) matches Some(next) ==> next.well_formed(),
{
    if releasable(state, start, page_count) {
        lemma_with_pages(state.extents, start, page_count);
    }
}

/// Adds what is left of a span without the bytes from `from` to `to`.
fn push_cut(spans: &mut Vec<RegionSpan>, span: RegionSpan, from: u64, to: u64)
    ensures
        final(spans)@ == old(spans)@ + cut(span, from, to),
{
    if span.end <= span.start {
        assert(spans@ =~= old(spans)@ + cut(span, from, to));
        return;
    }
    let overlap_start: u64 = if span.start > from {
        span.start
    } else {
        from
    };
    let overlap_end: u64 = if span.end < to {
        span.end
    } else {
        to
    };
    if overlap_end <= overlap_start {
        spans.push(span);
        assert(spans@ =~= old(spans)@ + cut(span, from, to));
        return;
    }
    if span.start < overlap_start {
        spans.push(RegionSpan { start: span.start, end: overlap_start });
    }
    if overlap_end < span.end {
        spans.push(RegionSpan { start: overlap_end, end: span.end });
    }
    assert(spans@ =~= old(spans)@ + cut(span, from, to));
}

/// What is left of the spans without the bytes from `from` to `to`.
fn cut_spans(spans: &Vec<RegionSpan>, from: u64, to: u64) -> (left: Vec<RegionSpan>)
    ensures
        left@ == cut_all(spans@, from, to, spans@.len()),
{
    let mut left: Vec<RegionSpan> = Vec::new();
    let mut i: usize = 0;
    while i < spans.len()
        invariant
            i <= spans.len(),
            left@ == cut_all(spans@, from, to, i as nat),
        decreases spans.len() - i,
    {
        push_cut(&mut left, spans[i], from, to);
        i += 1;
    }
    left
}

/// What is left of a span without the pages that the ranges touch.
fn cut_ranges(span: RegionSpan, reserved: &[ReservedMemoryRange]) -> (left: Vec<RegionSpan>)
    ensures
        left@ == fragments(seq![span], reserved@, reserved@.len()),
{
    let mut left: Vec<RegionSpan> = Vec::new();
    left.push(span);
    assert(left@ =~= seq![span]);
    let mut i: usize = 0;
    while i < reserved.len()
        invariant
            i <= reserved@.len(),
            left@ == fragments(seq![span], reserved@, i as nat),
        decreases reserved.len() - i,
    {
        let range = reserved[i];
        let from: u64 = align_down(range.start);
        let to: u64 = align_up(range.end());
        if range.length != 0 && to > from {
            left = cut_spans(&left, from, to);
        }
        i += 1;
    }
    left
}

impl PhysicalPageAllocator {
    /// The allocator is in order.
    pub open spec fn well_formed(&self) -> bool {
        &&& self.usable_region_count <= MAX_ALLOCATOR_REGIONS
        &&& self.free_extent_count <= MAX_FREE_EXTENTS
        &&& self@.well_formed()
    }

    /// An allocator that has no memory yet: all its places are empty.
    pub fn new() -> (allocator: PhysicalPageAllocator)
        ensures
            allocator.well_formed(),
            allocator@ == (AllocatorState {
                initialized: false,
                regions: seq![],
                extents: seq![],
                total: 0,
                allocated: 0,
            }),
            allocator.usable_region_count == 0,
            allocator.free_extent_count == 0,
            forall|i: int|
                0 <= i < MAX_ALLOCATOR_REGIONS ==> #[trigger] allocator.regions@[i] == (RegionCursor {
                    start: 0,
                    page_count: 0,
                    next_page: 0,
                    kind: MemoryRegionKind::Reserved,
                }),
            forall|i: int|
                0 <= i < MAX_FREE_EXTENTS ==> #[trigger] allocator.free_extents@[i] == (FreeExtent {
                    start: 0,
                    page_count: 0,
                }),
    {
        let allocator = PhysicalPageAllocator {
            initialized: false,
            usable_region_count: 0,
            regions: [RegionCursor::empty();MAX_ALLOCATOR_REGIONS],
            total_usable_pages: 0,
            allocated_pages: 0,
            free_extents: [FreeExtent::empty();MAX_FREE_EXTENTS],
            free_extent_count: 0,
        };
        assert(allocator@.regions =~= seq![]);
        assert(allocator@.extents =~= seq![]);
        allocator
    }

    /// Starts with the memory that the loader found, and nothing handed out.
    pub fn init(&mut self, boot_info: &BootInfo)
        ensures
            final(self).well_formed(),
            final(self)@.initialized,
            final(self)@.regions == usable_regions(
                boot_info.firmware_mode,
                boot_info.regions(),
                boot_info.ranges(),
                boot_info.regions().len(),
            ),
            final(self)@.extents == Seq::<FreeExtent>::empty(),
            final(self)@.allocated == 0,
    {
        self.initialized = true;
        self.usable_region_count = 0;
        self.regions = [RegionCursor::empty();MAX_ALLOCATOR_REGIONS];
        self.total_usable_pages = 0;
        self.allocated_pages = 0;
        self.free_extents = [FreeExtent::empty();MAX_FREE_EXTENTS];
        self.free_extent_count = 0;
        assert(self@.regions =~= seq![]);
        assert(self@.extents =~= seq![]);
        let map = boot_info.memory_regions();
        let reserved = boot_info.reserved_memory();
        let mut i: usize = 0;
        while i < map.len()
            invariant
                i <= map@.len(),
                map@ == boot_info.regions(),
                reserved@ == boot_info.ranges(),
                self.untouched(),
                self@.regions == usable_regions(
                    boot_info.firmware_mode,
                    map@,
                    reserved@,
                    i as nat,
                ),
            decreases map.len() - i,
        {
            let region = map[i];
            if boot_info.firmware_mode.region_is_currently_usable(region.kind) && region.page_count
                != 0 {
                self.add_region_fragments(
                    region.start,
                    region.start.saturating_add(region.size_bytes()),
                    region.kind,
                    reserved,
                );
            }
            i += 1;
        }
    }

    /// The allocator is in order, and nothing has been handed out.
    pub open spec fn untouched(&self) -> bool {
        &&& self.well_formed()
        &&& self.initialized
        &&& self@.extents == Seq::<FreeExtent>::empty()
        &&& self@.allocated == 0
    }

    /// Adds what is left of a run of bytes without the pages that the ranges touch.
    pub fn add_region_fragments(
        &mut self,
        start: u64,
        end: u64,
        kind: MemoryRegionKind,
        reserved: &[ReservedMemoryRange],
    )
        requires
            old(self).untouched(),
        ensures
            final(self).untouched(),
            final(self)@.regions == with_fragments(
                old(self)@.regions,
                RegionSpan { start, end },
                kind,
                reserved@,
            ),
    {
        let left = cut_ranges(RegionSpan { start, end }, reserved);
        let mut i: usize = 0;
        while i < left.len()
            invariant
                i <= left.len(),
                self.untouched(),
                self@.regions == with_spans(old(self)@.regions, left@, kind, i as nat),
            decreases left.len() - i,
        {
            self.push_region(left[i], kind);
            i += 1;
        }
    }

    /// Adds the whole pages of a span, while there is room for one more region.
    fn push_region(&mut self, span: RegionSpan, kind: MemoryRegionKind)
        requires
            old(self).untouched(),
        ensures
            final(self).untouched(),
            final(self)@.regions == with_span(old(self)@.regions, span, kind),
    {
        let start: u64 = align_up(span.start);
        let end: u64 = align_down(span.end);
        if end <= start || self.usable_region_count >= MAX_ALLOCATOR_REGIONS {
            return;
        }
        let page_count: u64 = (end - start) / PAGE_SIZE;
        let region = RegionCursor { start, page_count, next_page: 0, kind };
        let ghost before = self@;
        self.regions[self.usable_region_count] = region;
        self.usable_region_count += 1;
        assert(self@.regions =~= before.regions.push(region));
        proof {
            lemma_page_counts(before);
            assert(region_sizes(self@.regions).drop_last() =~= region_sizes(before.regions));
            assert(region_uses(self@.regions).drop_last() =~= region_uses(before.regions));
        }
        self.total_usable_pages = self.total_usable_pages.saturating_add(page_count);
    }

    /// Hands one page out.
    pub fn allocate_page(&mut self) -> (address: Option<u64>)
        requires
            old(self).well_formed(),
        ensures
            final(self).well_formed(),
            (final(self)@, address) == allocation(old(self)@, 1),
    {
        self.allocate_contiguous_pages(1)
    }

    /// Hands pages out that follow each other: of those that came back the first run that is long
    /// enough, else of the first region that still has as many.
    pub fn allocate_contiguous_pages(&mut self, page_count: u64) -> (address: Option<u64>)
        requires
            old(self).well_formed(),
        ensures
            final(self).well_formed(),
            (final(self)@, address) == allocation(old(self)@, page_count),
    {
        let ghost before = self@;
        if page_count == 0 || !self.initialized {
            return None;
        }
        proof {
            lemma_allocation_keeps(before, page_count);
            lemma_page_counts(before);
            lemma_page_counts(allocation(before, page_count).0);
        }
        let mut i: usize = 0;
        while i < self.free_extent_count
            invariant
                i <= self.free_extent_count,
                *self == *old(self),
                self.well_formed(),
                self@ == before,
                before.well_formed(),
                before.initialized,
                page_count > 0,
                fitting_extent(before.extents, page_count, 0) == fitting_extent(
                    before.extents,
                    page_count,
                    i as int,
                ),
                allocation(before, page_count).0.well_formed(),
                before.allocated <= before.total <= MAX_ALLOCATOR_REGIONS * 0x10_0000_0000_0000,
                allocation(before, page_count).0.allocated <= MAX_ALLOCATOR_REGIONS
                    * 0x10_0000_0000_0000,
            decreases self.free_extent_count - i,
        {
            let extent = self.free_extents[i];
            assert(before.extents[i as int] == extent);
            assert(extent.sound());
            if extent.page_count >= page_count {
                if extent.page_count == page_count {
                    self.remove_free_extent(i);
                } else {
                    self.free_extents[i] = FreeExtent {
                        start: extent.start + page_count * PAGE_SIZE,
                        page_count: extent.page_count - page_count,
                    };
                    assert(self@.extents =~= shortened(before.extents, i as int, page_count));
                }
                self.allocated_pages = self.allocated_pages.saturating_add(page_count);
                assert(self@ =~= allocation(before, page_count).0);
                return Some(extent.start);
            }
            i += 1;
        }
        let mut i: usize = 0;
        while i < self.usable_region_count
            invariant
                i <= self.usable_region_count,
                *self == *old(self),
                self.well_formed(),
                self@ == before,
                before.well_formed(),
                before.initialized,
                page_count > 0,
                fitting_extent(before.extents, page_count, 0) is None,
                fitting_region(before.regions, page_count, 0) == fitting_region(
                    before.regions,
                    page_count,
                    i as int,
                ),
                allocation(before, page_count).0.well_formed(),
                before.allocated <= before.total <= MAX_ALLOCATOR_REGIONS * 0x10_0000_0000_0000,
                allocation(before, page_count).0.allocated <= MAX_ALLOCATOR_REGIONS
                    * 0x10_0000_0000_0000,
            decreases self.usable_region_count - i,
        {
            let region = self.regions[i];
            assert(before.regions[i as int] == region);
            assert(region.sound());
            if region.remaining_pages() >= page_count {
                let address: u64 = region.start + region.next_page * PAGE_SIZE;
                self.regions[i] = RegionCursor {
                    start: region.start,
                    page_count: region.page_count,
                    next_page: region.next_page + page_count,
                    kind: region.kind,
                };
                self.allocated_pages = self.allocated_pages.saturating_add(page_count);
                assert(self@.regions =~= allocation(before, page_count).0.regions);
                assert(self@ =~= allocation(before, page_count).0);
                return Some(address);
            }
            i += 1;
        }
        None
    }

    /// Takes one page back.
    pub fn deallocate_page(&mut self, start: u64) -> (released: bool)
        requires
            old(self).well_formed(),
        ensures
            final(self).well_formed(),
            match release(old(self)@, start, 1) {
                Some(next) => released && final(self)@ == next,
                None => !released && final(self)@ == old(self)@,
            },
    {
        self.deallocate_contiguous_pages(start, 1)
    }

    /// Whether the pages from `start` to `end` were handed out of one region.
    fn handed_out(&self, start: u64, end: u64) -> (result: bool)
        requires
            self.well_formed(),
        ensures
            result == was_handed_out(self@.regions, start as int, end as int),
    {
        let mut i: usize = 0;
        while i < self.usable_region_count
            invariant
                i <= self.usable_region_count,
                self.well_formed(),
                forall|j: int|
                    0 <= j < i ==> !((#[trigger] self@.regions[j]).start <= start && end
                        <= self@.regions[j].handed_end()),
            decreases self.usable_region_count - i,
        {
            let region = self.regions[i];
            assert(self@.regions[i as int] == region);
            assert(region.sound());
            let allocated_end: u64 = region.start + region.next_page * PAGE_SIZE;
            if start >= region.start && end <= allocated_end {
                return true;
            }
            i += 1;
        }
        false
    }

    /// Whether some of the bytes from `start` to `end` have come back.
    fn meets_free(&self, start: u64, end: u64) -> (result: bool)
        requires
            self.well_formed(),
        ensures
            result == meets_extent(self@.extents, start as int, end as int),
    {
        let mut i: usize = 0;
        while i < self.free_extent_count
            invariant
                i <= self.free_extent_count,
                self.well_formed(),
                forall|j: int|
                    0 <= j < i ==> !(start < (#[trigger] self@.extents[j]).finish()
                        && self@.extents[j].start < end),
            decreases self.free_extent_count - i,
        {
            let extent = self.free_extents[i];
            assert(self@.extents[i as int] == extent);
            assert(extent.sound());
            if start < extent.end() && extent.start < end {
                return true;
            }
            i += 1;
        }
        false
    }

    /// The place of an extent that starts at `start`.
    fn place_of(&self, start: u64) -> (place: usize)
        requires
            self.well_formed(),
        ensures
            place == extent_place(self@.extents, start, 0),
            place <= self.free_extent_count,
    {
        let mut i: usize = 0;
        while i < self.free_extent_count && self.free_extents[i].start <= start
            invariant
                i <= self.free_extent_count,
                self.well_formed(),
                extent_place(self@.extents, start, 0) == extent_place(
                    self@.extents,
                    start,
                    i as int,
                ),
            decreases self.free_extent_count - i,
        {
            assert(self@.extents[i as int] == self.free_extents@[i as int]);
            i += 1;
        }
        if i < self.free_extent_count {
            assert(self@.extents[i as int] == self.free_extents@[i as int]);
        }
        i
    }

    /// Takes pages back that follow each other, and joins them with those next to them that came
    /// back before. Pages that are not allocated are refused.
    #[verifier::spinoff_prover]
    #[verifier::rlimit(40)]
    pub fn deallocate_contiguous_pages(&mut self, start: u64, page_count: u64) -> (released: bool)
        requires
            old(self).well_formed(),
        ensures
            final(self).well_formed(),
            match release(old(self)@, start, page_count) {
                Some(next) => released && final(self)@ == next,
                None => !released && final(self)@ == old(self)@,
            },
    {
        let ghost before = self@;
        if !self.initialized || page_count == 0 || start % PAGE_SIZE != 0 || self.allocated_pages
            < page_count {
            return false;
        }
        let length: u64 = match page_count.checked_mul(PAGE_SIZE) {
            Some(length) => length,
            None => return false,
        };
        let end: u64 = match start.checked_add(length) {
            Some(end) => end,
            None => return false,
        };
        if !self.handed_out(start, end) || self.meets_free(start, end) {
            return false;
        }
        let place: usize = self.place_of(start);
        let count: usize = self.free_extent_count;
        proof {
            lemma_release_keeps(before, start, page_count);
            lemma_neighbours(before.extents, start, page_count);
            assert forall|j: int| 0 <= j < count implies #[trigger] before.extents[j]
                == self.free_extents@[j] && before.extents[j].sound() by {}
        }
        let joins_before: bool = place > 0 && self.free_extents[place - 1].end() == start;
        let joins_after: bool = place < count && self.free_extents[place].start == end;
        if joins_before {
            let extent = self.free_extents[place - 1];
            assert(before.extents[place - 1] == extent);
            let mut joined: u64 = extent.page_count + page_count;
            if joins_after {
                let next = self.free_extents[place];
                assert(before.extents[place as int] == next);
                joined = joined + next.page_count;
            }
            self.free_extents[place - 1] = FreeExtent { start: extent.start, page_count: joined };
            assert(self@.extents =~= before.extents.update(
                place - 1,
                FreeExtent { start: extent.start, page_count: joined },
            ));
            if joins_after {
                self.remove_free_extent(place);
            }
        } else if joins_after {
            let next = self.free_extents[place];
            assert(before.extents[place as int] == next);
            self.free_extents[place] = FreeExtent {
                start,
                page_count: next.page_count + page_count,
            };
            assert(self@.extents =~= with_pages(before.extents, start, page_count).unwrap());
        } else {
            if count >= MAX_FREE_EXTENTS {
                return false;
            }
            self.insert_free_extent(place, FreeExtent { start, page_count });
        }
        self.allocated_pages = self.allocated_pages - page_count;
        assert(self@ =~= release(before, start, page_count).unwrap());
        true
    }

    /// Puts an extent in at `index`.
    fn insert_free_extent(&mut self, index: usize, extent: FreeExtent)
        requires
            index <= old(self).free_extent_count < MAX_FREE_EXTENTS,
        ensures
            final(self).free_extent_count == old(self).free_extent_count + 1,
            final(self)@ == (AllocatorState {
                extents: old(self)@.extents.insert(index as int, extent),
                ..old(self)@
            }),
            final(self).usable_region_count == old(self).usable_region_count,
            final(self).allocated_pages == old(self).allocated_pages,
    {
        let count: usize = self.free_extent_count;
        let ghost before = self.free_extents@;
        let mut at: usize = count;
        while at > index
            invariant
                index <= at <= count < MAX_FREE_EXTENTS,
                count == old(self).free_extent_count,
                before == old(self).free_extents@,
                forall|j: int| 0 <= j <= at && j < count ==> #[trigger] self.free_extents@[j] == before[j],
                forall|j: int| at < j <= count ==> #[trigger] self.free_extents@[j] == before[j - 1],
                *self == (PhysicalPageAllocator { free_extents: self.free_extents, ..*old(self) }),
            decreases at,
        {
            self.free_extents[at] = self.free_extents[at - 1];
            at -= 1;
        }
        self.free_extents[index] = extent;
        self.free_extent_count = count + 1;
        assert(self@.extents =~= old(self)@.extents.insert(index as int, extent));
    }

    /// Takes the extent at `index` out.
    fn remove_free_extent(&mut self, index: usize)
        requires
            index < old(self).free_extent_count <= MAX_FREE_EXTENTS,
        ensures
            final(self).free_extent_count == old(self).free_extent_count - 1,
            final(self)@ == (AllocatorState {
                extents: old(self)@.extents.remove(index as int),
                ..old(self)@
            }),
            final(self).usable_region_count == old(self).usable_region_count,
            final(self).allocated_pages == old(self).allocated_pages,
    {
        let count: usize = self.free_extent_count;
        let ghost before = self.free_extents@;
        let mut at: usize = index;
        while at + 1 < count
            invariant
                index <= at < count <= MAX_FREE_EXTENTS,
                count == old(self).free_extent_count,
                before == old(self).free_extents@,
                forall|j: int| 0 <= j < index ==> #[trigger] self.free_extents@[j] == before[j],
                forall|j: int| index <= j < at ==> #[trigger] self.free_extents@[j] == before[j + 1],
                forall|j: int| at <= j < count ==> #[trigger] self.free_extents@[j] == before[j],
                *self == (PhysicalPageAllocator { free_extents: self.free_extents, ..*old(self) }),
            decreases count - at,
        {
            self.free_extents[at] = self.free_extents[at + 1];
            at += 1;
        }
        self.free_extent_count = count - 1;
        self.free_extents[count - 1] = FreeExtent::empty();
        assert(self@.extents =~= old(self)@.extents.remove(index as int));
    }

    /// How much memory there is, and how much of it is handed out.
    pub fn stats(&self) -> (stats: MemoryStats)
        requires
            self.well_formed(),
        ensures
            stats.usable_region_count == self@.regions.len(),
            stats.total_usable_pages == self@.total,
            stats.allocated_pages == self@.allocated,
            stats.remaining_pages == self@.total - self@.allocated,
    {
        proof {
            lemma_page_counts(self@);
        }
        MemoryStats {
            usable_region_count: self.usable_region_count,
            total_usable_pages: self.total_usable_pages,
            allocated_pages: self.allocated_pages,
            remaining_pages: self.total_usable_pages.saturating_sub(self.allocated_pages),
        }
    }

    /// What the first region that may be used is for.
    pub fn first_usable_kind(&self) -> (kind: MemoryRegionKind)
        requires
            self.well_formed(),
        ensures
            kind == if self@.regions.len() > 0 {
                self@.regions[0].kind
            } else {
                MemoryRegionKind::Reserved
            },
    {
        if self.usable_region_count > 0 {
            self.regions[0].kind
        } else {
            MemoryRegionKind::Reserved
        }
    }

    /// Where and how long the runs of bytes are that were handed out of each region.
    pub fn allocated_ranges(&self) -> (ranges: Vec<(u64, u64)>)
        requires
            self.well_formed(),
        ensures
            ranges@ == handed_ranges(self@.regions, self@.regions.len()),
    {
        let mut ranges: Vec<(u64, u64)> = Vec::new();
        let mut i: usize = 0;
        while i < self.usable_region_count
            invariant
                i <= self.usable_region_count,
                self.well_formed(),
                ranges@ == handed_ranges(self@.regions, i as nat),
            decreases self.usable_region_count - i,
        {
            let region = self.regions[i];
            assert(self@.regions[i as int] == region);
            assert(region.sound());
            if region.next_page != 0 {
                ranges.push((region.start, region.next_page * PAGE_SIZE));
            }
            i += 1;
        }
        ranges
    }
}

} // verus!
