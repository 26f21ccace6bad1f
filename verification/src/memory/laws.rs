//! What the page allocator promises as a whole.

use vstd::prelude::*;
use crate::bootinfo::{
    capped, usable_in, FirmwareMode, MemoryRegion, MemoryRegionKind, ReservedMemoryRange, PAGE_SIZE,
};
use crate::memory::{
    allocation, apart, cut, cut_all, fitting_extent, fitting_region, fragments,
    lemma_fitting_extent, lemma_fitting_region, lemma_neighbours, meets_extent, page_ceiling,
    page_floor, range_from, range_to, release, shortened, usable_regions, was_handed_out,
    with_pages, with_span, with_spans, AllocatorState, FreeExtent, RegionCursor, RegionSpan,
    MAX_ALLOCATOR_REGIONS,
};

verus! {

/// The bytes from `a` to `b` and those from `c` to `d` have none in common.
pub open spec fn disjoint(a: int, b: int, c: int, d: int) -> bool {
    b <= c || d <= a
}

/// Every span is empty or keeps clear of the bytes from `from` to `to`.
pub open spec fn clear_of(spans: Seq<RegionSpan>, from: int, to: int) -> bool {
    forall|i: int|
        0 <= i < spans.len() ==> (#[trigger] spans[i]).end <= spans[i].start || disjoint(
            spans[i].start as int,
            spans[i].end as int,
            from,
            to,
        )
}

/// Every span lies between `start` and `end`.
pub open spec fn within(spans: Seq<RegionSpan>, start: int, end: int) -> bool {
    forall|i: int|
        0 <= i < spans.len() ==> (#[trigger] spans[i]).end <= spans[i].start || start
            <= spans[i].start && spans[i].end <= end
}

proof fn lemma_cut_is_clear(spans: Seq<RegionSpan>, from: u64, to: u64, n: nat)
    requires
        n <= spans.len(),
        from < to,
    ensures
        clear_of(cut_all(spans, from, to, n), from as int, to as int),
    decreases n,
{
    if n > 0 {
        lemma_cut_is_clear(spans, from, to, (n - 1) as nat);
        let before = cut_all(spans, from, to, (n - 1) as nat);
        let more = cut(spans[n - 1], from, to);
        let all = cut_all(spans, from, to, n);
        assert forall|i: int| 0 <= i < all.len() implies (#[trigger] all[i]).end <= all[i].start
            || disjoint(all[i].start as int, all[i].end as int, from as int, to as int) by {
            if i < before.len() {
                assert(all[i] == before[i]);
            } else {
                assert(all[i] == more[i - before.len()]);
            }
        }
    }
}

proof fn lemma_cut_stays_clear(
    spans: Seq<RegionSpan>,
    from: u64,
    to: u64,
    n: nat,
    other_from: int,
    other_to: int,
)
    requires
        n <= spans.len(),
        clear_of(spans, other_from, other_to),
    ensures
        clear_of(cut_all(spans, from, to, n), other_from, other_to),
    decreases n,
{
    if n > 0 {
        lemma_cut_stays_clear(spans, from, to, (n - 1) as nat, other_from, other_to);
        let before = cut_all(spans, from, to, (n - 1) as nat);
        let more = cut(spans[n - 1], from, to);
        let all = cut_all(spans, from, to, n);
        assert forall|i: int| 0 <= i < all.len() implies (#[trigger] all[i]).end <= all[i].start
            || disjoint(all[i].start as int, all[i].end as int, other_from, other_to) by {
            if i < before.len() {
                assert(all[i] == before[i]);
            } else {
                assert(all[i] == more[i - before.len()]);
            }
        }
    }
}

proof fn lemma_cut_stays_within(
    spans: Seq<RegionSpan>,
    from: u64,
    to: u64,
    n: nat,
    start: int,
    end: int,
)
    requires
        n <= spans.len(),
        within(spans, start, end),
    ensures
        within(cut_all(spans, from, to, n), start, end),
    decreases n,
{
    if n > 0 {
        lemma_cut_stays_within(spans, from, to, (n - 1) as nat, start, end);
        let before = cut_all(spans, from, to, (n - 1) as nat);
        let more = cut(spans[n - 1], from, to);
        let all = cut_all(spans, from, to, n);
        assert forall|i: int| 0 <= i < all.len() implies (#[trigger] all[i]).end <= all[i].start
            || start <= all[i].start && all[i].end <= end by {
            if i < before.len() {
                assert(all[i] == before[i]);
            } else {
                assert(all[i] == more[i - before.len()]);
            }
        }
    }
}

/// What is left of a run of bytes lies in it, and keeps clear of every range.
proof fn lemma_fragments(span: RegionSpan, ranges: Seq<ReservedMemoryRange>, n: nat)
    requires
        n <= ranges.len(),
    ensures
        within(fragments(seq![span], ranges, n), span.start as int, span.end as int),
        forall|k: int|
            #![trigger ranges[k]]
            0 <= k < n && ranges[k].length > 0 && range_from(ranges[k]) < range_to(ranges[k]) ==> clear_of(
                fragments(seq![span], ranges, n),
                range_from(ranges[k]) as int,
                range_to(ranges[k]) as int,
            ),
    decreases n,
{
    if n > 0 {
        lemma_fragments(span, ranges, (n - 1) as nat);
        let before = fragments(seq![span], ranges, (n - 1) as nat);
        let range = ranges[n - 1];
        let from = range_from(range);
        let to = range_to(range);
        let after = fragments(seq![span], ranges, n);
        if range.length > 0 && from < to {
            lemma_cut_is_clear(before, from, to, before.len());
            lemma_cut_stays_within(
                before,
                from,
                to,
                before.len(),
                span.start as int,
                span.end as int,
            );
        }
        assert forall|k: int|
            #![trigger ranges[k]]
            0 <= k < n && ranges[k].length > 0 && range_from(ranges[k]) < range_to(ranges[k]) implies clear_of(
            after,
            range_from(ranges[k]) as int,
            range_to(ranges[k]) as int,
        ) by {
            if k < n - 1 {
                if range.length > 0 && from < to {
                    lemma_cut_stays_clear(
                        before,
                        from,
                        to,
                        before.len(),
                        range_from(ranges[k]) as int,
                        range_to(ranges[k]) as int,
                    );
                }
            }
        }
    }
}

/// The region lies in a region of the memory map that may be used, and touches no range that is
/// taken.
pub open spec fn free_to_use(
    region: RegionCursor,
    mode: FirmwareMode,
    map: Seq<MemoryRegion>,
    ranges: Seq<ReservedMemoryRange>,
) -> bool {
    &&& exists|k: int|
        {
            &&& 0 <= k < map.len()
            &&& usable_in(mode, (#[trigger] map[k]).kind)
            &&& map[k].kind == region.kind
            &&& map[k].start <= region.start
            &&& region.end() <= map[k].start + map[k].bytes()
        }
    &&& forall|k: int|
        0 <= k < ranges.len() && (#[trigger] ranges[k]).length > 0 ==> disjoint(
            region.start as int,
            region.end(),
            ranges[k].start as int,
            ranges[k].start + ranges[k].length,
        )
}

/// A region made of a span that keeps clear of the ranges keeps clear of them too.
proof fn lemma_span_region(span: RegionSpan, ranges: Seq<ReservedMemoryRange>, k: int)
    requires
        0 <= k < ranges.len(),
        ranges[k].length > 0,
        range_from(ranges[k]) < range_to(ranges[k]) ==> span.end <= span.start || disjoint(
            span.start as int,
            span.end as int,
            range_from(ranges[k]) as int,
            range_to(ranges[k]) as int,
        ),
        page_ceiling(span.start as int) < page_floor(span.end as int),
    ensures
        disjoint(
            page_ceiling(span.start as int),
            page_floor(span.end as int),
            ranges[k].start as int,
            ranges[k].start + ranges[k].length,
        ),
{
}

proof fn lemma_with_spans(
    regions: Seq<RegionCursor>,
    spans: Seq<RegionSpan>,
    n: nat,
    mode: FirmwareMode,
    map: Seq<MemoryRegion>,
    ranges: Seq<ReservedMemoryRange>,
    k: int,
)
    requires
        n <= spans.len(),
        0 <= k < map.len(),
        usable_in(mode, map[k].kind),
        within(spans, map[k].start as int, capped(map[k].start + map[k].bytes()) as int),
        forall|j: int|
            #![trigger ranges[j]]
            0 <= j < ranges.len() && ranges[j].length > 0 && range_from(ranges[j]) < range_to(ranges[j])
                ==> clear_of(
                spans,
                range_from(ranges[j]) as int,
                range_to(ranges[j]) as int,
            ),
        forall|i: int|
            0 <= i < regions.len() ==> free_to_use(#[trigger] regions[i], mode, map, ranges),
    ensures
        forall|i: int|
            0 <= i < with_spans(regions, spans, map[k].kind, n).len() ==> free_to_use(
                #[trigger] with_spans(regions, spans, map[k].kind, n)[i],
                mode,
                map,
                ranges,
            ),
    decreases n,
{
    if n > 0 {
        lemma_with_spans(regions, spans, (n - 1) as nat, mode, map, ranges, k);
        let kind = map[k].kind;
        let before = with_spans(regions, spans, kind, (n - 1) as nat);
        let after = with_spans(regions, spans, kind, n);
        let span = spans[n - 1];
        assert forall|i: int| 0 <= i < after.len() implies free_to_use(
            #[trigger] after[i],
            mode,
            map,
            ranges,
        ) by {
            if i < before.len() {
                assert(after[i] == before[i]);
            } else {
                let region = after[i];
                assert(region.start == page_ceiling(span.start as int));
                assert(region.end() == page_floor(span.end as int));
                assert(usable_in(mode, map[k].kind) && map[k].start <= region.start
                    && region.end() <= map[k].start + map[k].bytes());
                assert forall|j: int|
                    0 <= j < ranges.len() && (#[trigger] ranges[j]).length > 0 implies disjoint(
                    region.start as int,
                    region.end(),
                    ranges[j].start as int,
                    ranges[j].start + ranges[j].length,
                ) by {
                    assert(range_from(ranges[j]) < range_to(ranges[j]) ==> clear_of(
                        spans,
                        range_from(ranges[j]) as int,
                        range_to(ranges[j]) as int,
                    ));
                    lemma_span_region(span, ranges, j);
                }
            }
        }
    }
}

/// No page that the allocator may hand out lies outside the memory that may be used, and none
/// touches a range that is taken.
pub proof fn usable_regions_are_free_to_use(
    mode: FirmwareMode,
    map: Seq<MemoryRegion>,
    ranges: Seq<ReservedMemoryRange>,
    n: nat,
)
    requires
        n <= map.len(),
    ensures
        forall|i: int|
            0 <= i < usable_regions(mode, map, ranges, n).len() ==> free_to_use(
                #[trigger] usable_regions(mode, map, ranges, n)[i],
                mode,
                map,
                ranges,
            ),
    decreases n,
{
    if n > 0 {
        usable_regions_are_free_to_use(mode, map, ranges, (n - 1) as nat);
        let before = usable_regions(mode, map, ranges, (n - 1) as nat);
        let region = map[n - 1];
        if usable_in(mode, region.kind) && region.page_count != 0 {
            let span = RegionSpan {
                start: region.start,
                end: capped(region.start + region.bytes()),
            };
            lemma_fragments(span, ranges, ranges.len());
            let left = fragments(seq![span], ranges, ranges.len());
            lemma_with_spans(before, left, left.len(), mode, map, ranges, n - 1);
        }
    }
}

/// The page at `page` lies in the span.
pub open spec fn span_holds(span: RegionSpan, page: int) -> bool {
    span.start <= page && page + PAGE_SIZE <= span.end
}

/// One of the spans holds the page.
pub open spec fn spans_hold(spans: Seq<RegionSpan>, page: int) -> bool {
    exists|i: int| 0 <= i < spans.len() && span_holds(#[trigger] spans[i], page)
}

/// One of the regions holds the page.
pub open spec fn regions_hold(regions: Seq<RegionCursor>, page: int) -> bool {
    exists|i: int|
        0 <= i < regions.len() && (#[trigger] regions[i]).start <= page && page + PAGE_SIZE
            <= regions[i].end()
}

/// A page that a range does not touch is still there when the range has been cut out.
proof fn lemma_cut_holds(spans: Seq<RegionSpan>, from: u64, to: u64, n: nat, page: int, at: int)
    requires
        0 <= at < n <= spans.len(),
        span_holds(spans[at], page),
        from < to,
        disjoint(page, page + PAGE_SIZE, from as int, to as int),
    ensures
        spans_hold(cut_all(spans, from, to, n), page),
    decreases n,
{
    let before = cut_all(spans, from, to, (n - 1) as nat);
    let more = cut(spans[n - 1], from, to);
    let all = cut_all(spans, from, to, n);
    if at < n - 1 {
        lemma_cut_holds(spans, from, to, (n - 1) as nat, page, at);
        let i = choose|i: int| 0 <= i < before.len() && span_holds(#[trigger] before[i], page);
        assert(all[i] == before[i]);
    } else {
        assert(exists|i: int| 0 <= i < more.len() && span_holds(#[trigger] more[i], page)) by {
            let span = spans[at];
            if page + PAGE_SIZE <= from {
                assert(span_holds(more[0], page));
            } else {
                assert(span_holds(more[more.len() - 1], page));
            }
        }
        let i = choose|i: int| 0 <= i < more.len() && span_holds(#[trigger] more[i], page);
        assert(all[before.len() + i] == more[i]);
    }
}

/// A page that no range touches is left.
proof fn lemma_fragments_hold(span: RegionSpan, ranges: Seq<ReservedMemoryRange>, n: nat, page: int)
    requires
        n <= ranges.len(),
        page % PAGE_SIZE as int == 0,
        0 <= page,
        span_holds(span, page),
        forall|k: int|
            0 <= k < ranges.len() && (#[trigger] ranges[k]).length > 0 ==> disjoint(
                page,
                page + PAGE_SIZE,
                ranges[k].start as int,
                ranges[k].start + ranges[k].length,
            ),
    ensures
        spans_hold(fragments(seq![span], ranges, n), page),
    decreases n,
{
    if n == 0 {
        assert(span_holds(seq![span][0], page));
    } else {
        lemma_fragments_hold(span, ranges, (n - 1) as nat, page);
        let before = fragments(seq![span], ranges, (n - 1) as nat);
        let range = ranges[n - 1];
        if range.length > 0 && range_from(range) < range_to(range) {
            let at = choose|i: int| 0 <= i < before.len() && span_holds(#[trigger] before[i], page);
            assert(disjoint(
                page,
                page + PAGE_SIZE,
                range_from(range) as int,
                range_to(range) as int,
            ));
            lemma_cut_holds(before, range_from(range), range_to(range), before.len(), page, at);
        }
    }
}

/// Adding spans takes no page away.
proof fn lemma_with_spans_grows(
    regions: Seq<RegionCursor>,
    spans: Seq<RegionSpan>,
    kind: MemoryRegionKind,
    n: nat,
)
    ensures
        with_spans(regions, spans, kind, n).len() >= regions.len(),
        forall|i: int|
            0 <= i < regions.len() ==> #[trigger] with_spans(regions, spans, kind, n)[i]
                == regions[i],
    decreases n,
{
    if n > 0 {
        lemma_with_spans_grows(regions, spans, kind, (n - 1) as nat);
    }
}

proof fn lemma_with_spans_hold(
    regions: Seq<RegionCursor>,
    spans: Seq<RegionSpan>,
    kind: MemoryRegionKind,
    n: nat,
    page: int,
    at: int,
)
    requires
        0 <= at < n <= spans.len(),
        page % PAGE_SIZE as int == 0,
        span_holds(spans[at], page),
        with_spans(regions, spans, kind, n).len() < MAX_ALLOCATOR_REGIONS,
    ensures
        regions_hold(with_spans(regions, spans, kind, n), page),
    decreases n,
{
    let before = with_spans(regions, spans, kind, (n - 1) as nat);
    let after = with_spans(regions, spans, kind, n);
    if at < n - 1 {
        lemma_with_spans_hold(regions, spans, kind, (n - 1) as nat, page, at);
        let i = choose|i: int|
            0 <= i < before.len() && (#[trigger] before[i]).start <= page && page + PAGE_SIZE
                <= before[i].end();
        assert(after[i] == before[i]);
    } else {
        let span = spans[at];
        assert(page_ceiling(span.start as int) <= page);
        assert(page + PAGE_SIZE <= page_floor(span.end as int));
        assert(after[before.len() as int].start <= page);
    }
}

/// Every page of the memory that may be used can be handed out, unless a range that is taken
/// touches it or there are more regions than the allocator has room for.
pub proof fn usable_pages_can_be_handed_out(
    mode: FirmwareMode,
    map: Seq<MemoryRegion>,
    ranges: Seq<ReservedMemoryRange>,
    n: nat,
    k: int,
    page: int,
)
    requires
        0 <= k < n <= map.len(),
        usable_in(mode, map[k].kind),
        page % PAGE_SIZE as int == 0,
        map[k].start <= page,
        page + PAGE_SIZE <= map[k].start + map[k].page_count * PAGE_SIZE,
        page + PAGE_SIZE <= u64::MAX,
        forall|j: int|
            0 <= j < ranges.len() && (#[trigger] ranges[j]).length > 0 ==> disjoint(
                page,
                page + PAGE_SIZE,
                ranges[j].start as int,
                ranges[j].start + ranges[j].length,
            ),
        usable_regions(mode, map, ranges, n).len() < MAX_ALLOCATOR_REGIONS,
    ensures
        regions_hold(usable_regions(mode, map, ranges, n), page),
    decreases n,
{
    let before = usable_regions(mode, map, ranges, (n - 1) as nat);
    let after = usable_regions(mode, map, ranges, n);
    let region = map[n - 1];
    let span = RegionSpan { start: region.start, end: capped(region.start + region.bytes()) };
    let left = fragments(seq![span], ranges, ranges.len());
    lemma_with_spans_grows(before, left, region.kind, left.len());
    if k < n - 1 {
        usable_pages_can_be_handed_out(mode, map, ranges, (n - 1) as nat, k, page);
        let i = choose|i: int|
            0 <= i < before.len() && (#[trigger] before[i]).start <= page && page + PAGE_SIZE
                <= before[i].end();
        assert(after[i] == before[i]);
    } else {
        lemma_fragments_hold(span, ranges, ranges.len(), page);
        let at = choose|i: int| 0 <= i < left.len() && span_holds(#[trigger] left[i], page);
        lemma_with_spans_hold(before, left, region.kind, left.len(), page, at);
    }
}

/// The page at `page` is allocated: it was handed out and has not come back.
pub open spec fn taken(state: AllocatorState, page: int) -> bool {
    &&& page % PAGE_SIZE as int == 0
    &&& was_handed_out(state.regions, page, page + PAGE_SIZE)
    &&& !meets_extent(state.extents, page, page + PAGE_SIZE)
}

/// No two regions have a byte in common.
pub open spec fn regions_apart(regions: Seq<RegionCursor>) -> bool {
    forall|i: int, j: int|
        0 <= i < regions.len() && 0 <= j < regions.len() && i != j ==> disjoint(
            (#[trigger] regions[i]).start as int,
            regions[i].end(),
            (#[trigger] regions[j]).start as int,
            regions[j].end(),
        )
}

/// Whatever has come back was handed out before.
pub open spec fn extents_handed(state: AllocatorState) -> bool {
    forall|page: int|
        page % PAGE_SIZE as int == 0 && #[trigger] meets_extent(
            state.extents,
            page,
            page + PAGE_SIZE,
        ) ==> was_handed_out(state.regions, page, page + PAGE_SIZE)
}

/// The page at `page` is among `page_count` pages from `start` on.
pub open spec fn among(page: int, start: u64, page_count: u64) -> bool {
    page % PAGE_SIZE as int == 0 && start <= page < start + page_count * PAGE_SIZE
}

proof fn lemma_shortened_meets(extents: Seq<FreeExtent>, i: int, page_count: u64, page: int)
    requires
        0 <= i < extents.len(),
        0 < page_count <= extents[i].page_count,
        apart(extents),
        forall|j: int| 0 <= j < extents.len() ==> (#[trigger] extents[j]).sound(),
        page % PAGE_SIZE as int == 0,
    ensures
        meets_extent(extents, page, page + PAGE_SIZE) == (meets_extent(
            shortened(extents, i, page_count),
            page,
            page + PAGE_SIZE,
        ) || among(page, extents[i].start, page_count)),
        !(meets_extent(shortened(extents, i, page_count), page, page + PAGE_SIZE) && among(
            page,
            extents[i].start,
            page_count,
        )),
{
    let next = shortened(extents, i, page_count);
    let end = page + PAGE_SIZE;
    assert(extents[i].sound());
    let whole = extents[i].page_count == page_count;
    if meets_extent(extents, page, end) {
        let j = choose|j: int|
            0 <= j < extents.len() && page < (#[trigger] extents[j]).finish() && extents[j].start
                < end;
        assert(extents[j].sound());
        if j != i {
            let at = if whole && j > i {
                j - 1
            } else {
                j
            };
            assert(next[at] == extents[j]);
        } else if !among(page, extents[i].start, page_count) {
            assert(next[i].finish() == extents[i].finish());
        }
    }
    if among(page, extents[i].start, page_count) {
        assert(page < extents[i].finish() && extents[i].start < end);
    }
    if meets_extent(next, page, end) {
        let j = choose|j: int|
            0 <= j < next.len() && page < (#[trigger] next[j]).finish() && next[j].start < end;
        let at = if whole && j >= i {
            j + 1
        } else {
            j
        };
        assert(extents[at].sound());
        if at == i {
            assert(page < extents[at].finish() && extents[at].start < end);
        } else {
            assert(next[j] == extents[at]);
            if at < i {
                assert(extents[at].finish() < extents[i].start);
            } else {
                assert(extents[i].finish() < extents[at].start);
            }
        }
    }
}

/// What an allocation hands out lies in a region, was not allocated before and is so afterwards;
/// nothing else changes hands. The regions have no byte in common.
pub proof fn an_allocation_hands_out_fresh_pages(state: AllocatorState, page_count: u64, page: int)
    requires
        state.well_formed(),
        regions_apart(state.regions),
        extents_handed(state),
    ensures
        match allocation(state, page_count) {
            (next, Some(start)) => {
                &&& among(page, start, page_count) ==> !taken(state, page) && regions_hold(
                    state.regions,
                    page,
                )
                &&& taken(next, page) == (taken(state, page) || among(page, start, page_count))
            },
            (next, None) => next == state,
        },
{
    if allocation(state, page_count).1 is Some && page % PAGE_SIZE as int == 0 {
        let (next, given) = allocation(state, page_count);
        let start = given.unwrap();
        let end = page + PAGE_SIZE;
        lemma_fitting_extent(state.extents, page_count, 0);
        lemma_fitting_region(state.regions, page_count, 0);
        match fitting_extent(state.extents, page_count, 0) {
            Some(i) => {
                lemma_shortened_meets(state.extents, i, page_count, page);
                if was_handed_out(state.regions, page, end) {
                    let j = choose|j: int|
                        0 <= j < state.regions.len() && (#[trigger] state.regions[j]).start <= page
                            && end <= state.regions[j].handed_end();
                    assert(state.regions[j].sound());
                    assert(state.regions[j].start <= page && end <= state.regions[j].end());
                }
            },
            None => {
                let i = fitting_region(state.regions, page_count, 0).unwrap();
                assert(state.regions[i].sound());
                if among(page, start, page_count) {
                    assert(state.regions[i].start <= page && end <= state.regions[i].end());
                    assert(!was_handed_out(state.regions, page, end)) by {
                        if was_handed_out(state.regions, page, end) {
                            let j = choose|j: int|
                                0 <= j < state.regions.len() && (#[trigger] state.regions[j]).start
                                    <= page && end <= state.regions[j].handed_end();
                            assert(state.regions[j].sound());
                            if j != i {
                                assert(disjoint(
                                    state.regions[i].start as int,
                                    state.regions[i].end(),
                                    state.regions[j].start as int,
                                    state.regions[j].end(),
                                ));
                            }
                        }
                    }
                    assert(!meets_extent(state.extents, page, end));
                    assert(next.regions[i].start <= page && end <= next.regions[i].handed_end());
                }
                if taken(state, page) {
                    let j = choose|j: int|
                        0 <= j < state.regions.len() && (#[trigger] state.regions[j]).start <= page
                            && end <= state.regions[j].handed_end();
                    assert(next.regions[j].start <= page && end <= next.regions[j].handed_end());
                }
                if taken(next, page) {
                    let j = choose|j: int|
                        0 <= j < next.regions.len() && (#[trigger] next.regions[j]).start <= page
                            && end <= next.regions[j].handed_end();
                    if j != i {
                        assert(state.regions[j].start <= page && end
                            <= state.regions[j].handed_end());
                    } else if !among(page, start, page_count) {
                        assert(state.regions[i].start <= page && end
                            <= state.regions[i].handed_end());
                    }
                }
            },
        }
    }
}

/// What was in an extent stays in one when pages are added.
#[verifier::spinoff_prover]
#[verifier::rlimit(60)]
proof fn lemma_extents_stay(extents: Seq<FreeExtent>, start: u64, page_count: u64, page: int)
    requires
        apart(extents),
        forall|j: int| 0 <= j < extents.len() ==> (#[trigger] extents[j]).sound(),
        page_count > 0,
        start % PAGE_SIZE == 0,
        start + page_count * PAGE_SIZE <= u64::MAX,
        !meets_extent(extents, start as int, start + page_count * PAGE_SIZE),
        with_pages(extents, start, page_count) is Some,
        page % PAGE_SIZE as int == 0,
        meets_extent(extents, page, page + PAGE_SIZE),
    ensures
        meets_extent(with_pages(extents, start, page_count).unwrap(), page, page + PAGE_SIZE),
{
    lemma_neighbours(extents, start, page_count);
    let next = with_pages(extents, start, page_count).unwrap();
    let place = crate::memory::extent_place(extents, start, 0);
    let last = start + page_count * PAGE_SIZE;
    let joins_before = place > 0 && extents[place - 1].finish() == start;
    let joins_after = place < extents.len() && extents[place].start == last;
    let end = page + PAGE_SIZE;
    if place > 0 {
        assert(extents[place - 1].sound());
    }
    if place < extents.len() {
        assert(extents[place].sound());
    }
    if meets_extent(extents, page, end) {
        let j = choose|j: int|
            0 <= j < extents.len() && page < (#[trigger] extents[j]).finish() && extents[j].start
                < end;
        let at = if joins_before && joins_after {
            if j >= place {
                j - 1
            } else {
                j
            }
        } else if !joins_before && !joins_after && j >= place {
            j + 1
        } else {
            j
        };
        assert(page < next[at].finish() && next[at].start < end);
    }
}

/// Pages that were added are in an extent.
#[verifier::spinoff_prover]
#[verifier::rlimit(60)]
proof fn lemma_pages_are_in_an_extent(extents: Seq<FreeExtent>, start: u64, page_count: u64, page: int)
    requires
        apart(extents),
        forall|j: int| 0 <= j < extents.len() ==> (#[trigger] extents[j]).sound(),
        page_count > 0,
        start % PAGE_SIZE == 0,
        start + page_count * PAGE_SIZE <= u64::MAX,
        !meets_extent(extents, start as int, start + page_count * PAGE_SIZE),
        with_pages(extents, start, page_count) is Some,
        page % PAGE_SIZE as int == 0,
        among(page, start, page_count),
    ensures
        meets_extent(with_pages(extents, start, page_count).unwrap(), page, page + PAGE_SIZE),
{
    lemma_neighbours(extents, start, page_count);
    let next = with_pages(extents, start, page_count).unwrap();
    let place = crate::memory::extent_place(extents, start, 0);
    let last = start + page_count * PAGE_SIZE;
    let joins_before = place > 0 && extents[place - 1].finish() == start;
    let joins_after = place < extents.len() && extents[place].start == last;
    let end = page + PAGE_SIZE;
    if place > 0 {
        assert(extents[place - 1].sound());
    }
    if place < extents.len() {
        assert(extents[place].sound());
    }
    if among(page, start, page_count) {
        let at = if joins_before {
            place - 1
        } else {
            place
        };
        assert(page < next[at].finish() && next[at].start < end);
    }
}

/// What is in an extent after pages were added was in one, or is among the pages.
#[verifier::spinoff_prover]
#[verifier::rlimit(60)]
proof fn lemma_extents_gain_only_pages(extents: Seq<FreeExtent>, start: u64, page_count: u64, page: int)
    requires
        apart(extents),
        forall|j: int| 0 <= j < extents.len() ==> (#[trigger] extents[j]).sound(),
        page_count > 0,
        start % PAGE_SIZE == 0,
        start + page_count * PAGE_SIZE <= u64::MAX,
        !meets_extent(extents, start as int, start + page_count * PAGE_SIZE),
        with_pages(extents, start, page_count) is Some,
        page % PAGE_SIZE as int == 0,
        meets_extent(with_pages(extents, start, page_count).unwrap(), page, page + PAGE_SIZE),
    ensures
        meets_extent(extents, page, page + PAGE_SIZE) || among(page, start, page_count),
{
    lemma_neighbours(extents, start, page_count);
    let next = with_pages(extents, start, page_count).unwrap();
    let place = crate::memory::extent_place(extents, start, 0);
    let last = start + page_count * PAGE_SIZE;
    let joins_before = place > 0 && extents[place - 1].finish() == start;
    let joins_after = place < extents.len() && extents[place].start == last;
    let end = page + PAGE_SIZE;
    if place > 0 {
        assert(extents[place - 1].sound());
    }
    if place < extents.len() {
        assert(extents[place].sound());
    }
    if meets_extent(next, page, end) {
        let j = choose|j: int|
            0 <= j < next.len() && page < (#[trigger] next[j]).finish() && next[j].start < end;
        if joins_before && joins_after {
            if j < place - 1 {
                assert(next[j] == extents[j]);
            } else if j > place - 1 {
                assert(next[j] == extents[j + 1]);
            } else if !among(page, start, page_count) {
                if page < start {
                    assert(page < extents[place - 1].finish() && extents[place - 1].start < end);
                } else {
                    assert(page < extents[place].finish() && extents[place].start < end);
                }
            }
        } else if joins_before {
            if j == place - 1 && !among(page, start, page_count) {
                assert(page < extents[place - 1].finish() && extents[place - 1].start < end);
            } else if j != place - 1 {
                assert(next[j] == extents[j]);
            }
        } else if joins_after {
            if j == place && !among(page, start, page_count) {
                assert(page < extents[place].finish() && extents[place].start < end);
            } else if j != place {
                assert(next[j] == extents[j]);
            }
        } else {
            if j < place {
                assert(next[j] == extents[j]);
            } else if j > place {
                assert(next[j] == extents[j - 1]);
            }
        }
    }
}

/// What is in an extent after pages were added: what was, and the pages.
proof fn lemma_with_pages_meets(extents: Seq<FreeExtent>, start: u64, page_count: u64, page: int)
    requires
        apart(extents),
        forall|j: int| 0 <= j < extents.len() ==> (#[trigger] extents[j]).sound(),
        page_count > 0,
        start % PAGE_SIZE == 0,
        start + page_count * PAGE_SIZE <= u64::MAX,
        !meets_extent(extents, start as int, start + page_count * PAGE_SIZE),
        with_pages(extents, start, page_count) is Some,
        page % PAGE_SIZE as int == 0,
    ensures
        meets_extent(with_pages(extents, start, page_count).unwrap(), page, page + PAGE_SIZE) == (
        meets_extent(extents, page, page + PAGE_SIZE) || among(page, start, page_count)),
{
    if meets_extent(extents, page, page + PAGE_SIZE) {
        lemma_extents_stay(extents, start, page_count, page);
    }
    if among(page, start, page_count) {
        lemma_pages_are_in_an_extent(extents, start, page_count, page);
    }
    if meets_extent(with_pages(extents, start, page_count).unwrap(), page, page + PAGE_SIZE) {
        lemma_extents_gain_only_pages(extents, start, page_count, page);
    }
}

/// What is released was allocated and is so no longer; nothing else changes hands.
pub proof fn a_release_frees_just_its_pages(
    state: AllocatorState,
    start: u64,
    page_count: u64,
    page: int,
)
    requires
        state.well_formed(),
    ensures
        release(state, start, page_count) matches Some(next) ==> {
            &&& among(page, start, page_count) ==> taken(state, page)
            &&& taken(next, page) == (taken(state, page) && !among(page, start, page_count))
        },
{
    if release(state, start, page_count) is Some && page % PAGE_SIZE as int == 0 {
        lemma_with_pages_meets(state.extents, start, page_count, page);
        let end = page + PAGE_SIZE;
        if among(page, start, page_count) {
            let last = start + page_count * PAGE_SIZE;
            let i = choose|i: int|
                0 <= i < state.regions.len() && (#[trigger] state.regions[i]).start <= start && last
                    <= state.regions[i].handed_end();
            assert(state.regions[i].start <= page && end <= state.regions[i].handed_end());
            if meets_extent(state.extents, page, end) {
                let j = choose|j: int|
                    0 <= j < state.extents.len() && page < (#[trigger] state.extents[j]).finish()
                        && state.extents[j].start < end;
                assert(start < state.extents[j].finish() && state.extents[j].start < last);
            }
        }
    }
}

/// That nothing comes back but what was handed out, and that the regions have no byte in common,
/// stays so whatever is allocated.
pub proof fn an_allocation_keeps_the_order(state: AllocatorState, page_count: u64)
    requires
        state.well_formed(),
        regions_apart(state.regions),
        extents_handed(state),
    ensures
        regions_apart(allocation(state, page_count).0.regions),
        extents_handed(allocation(state, page_count).0),
{
    let next = allocation(state, page_count).0;
    lemma_fitting_extent(state.extents, page_count, 0);
    lemma_fitting_region(state.regions, page_count, 0);
    assert forall|i: int, j: int|
        0 <= i < next.regions.len() && 0 <= j < next.regions.len() && i != j implies disjoint(
        (#[trigger] next.regions[i]).start as int,
        next.regions[i].end(),
        (#[trigger] next.regions[j]).start as int,
        next.regions[j].end(),
    ) by {
        assert(disjoint(
            state.regions[i].start as int,
            state.regions[i].end(),
            state.regions[j].start as int,
            state.regions[j].end(),
        ));
    }
    assert forall|page: int|
        page % PAGE_SIZE as int == 0 && #[trigger] meets_extent(
            next.extents,
            page,
            page + PAGE_SIZE,
        ) implies was_handed_out(next.regions, page, page + PAGE_SIZE) by {
        let end = page + PAGE_SIZE;
        if page_count != 0 && state.initialized && fitting_extent(
            state.extents,
            page_count,
            0,
        ) is Some {
            let i = fitting_extent(state.extents, page_count, 0).unwrap();
            lemma_shortened_meets(state.extents, i, page_count, page);
        }
        assert(meets_extent(state.extents, page, end));
        let j = choose|j: int|
            0 <= j < state.regions.len() && (#[trigger] state.regions[j]).start <= page && end
                <= state.regions[j].handed_end();
        assert(next.regions[j].start <= page && end <= next.regions[j].handed_end());
    }
}

/// That nothing comes back but what was handed out stays so whatever is released.
pub proof fn a_release_keeps_the_order(state: AllocatorState, start: u64, page_count: u64)
    requires
        state.well_formed(),
        extents_handed(state),
    ensures
        release(state, start, page_count) matches Some(next) ==> next.regions == state.regions
            && extents_handed(next),
{
    if release(state, start, page_count) is Some {
        let next = release(state, start, page_count).unwrap();
        assert forall|page: int|
            page % PAGE_SIZE as int == 0 && #[trigger] meets_extent(
                next.extents,
                page,
                page + PAGE_SIZE,
            ) implies was_handed_out(next.regions, page, page + PAGE_SIZE) by {
            lemma_with_pages_meets(state.extents, start, page_count, page);
            a_release_frees_just_its_pages(state, start, page_count, page);
        }
    }
}

/// Pages that were released cannot be released again before they are handed out again.
pub proof fn a_release_is_not_repeated(
    state: AllocatorState,
    start: u64,
    page_count: u64,
    again: u64,
    again_count: u64,
)
    requires
        state.well_formed(),
        release(state, start, page_count) is Some,
        again_count > 0,
        start < again + again_count * PAGE_SIZE,
        again < start + page_count * PAGE_SIZE,
    ensures
        release(release(state, start, page_count).unwrap(), again, again_count) is None,
{
    let next = release(state, start, page_count).unwrap();
    if again % PAGE_SIZE == 0 {
        let page = if again < start {
            start as int
        } else {
            again as int
        };
        lemma_with_pages_meets(state.extents, start, page_count, page);
        let end = page + PAGE_SIZE;
        let j = choose|j: int|
            0 <= j < next.extents.len() && page < (#[trigger] next.extents[j]).finish()
                && next.extents[j].start < end;
        assert(again < next.extents[j].finish() && next.extents[j].start < again + again_count
            * PAGE_SIZE);
    }
}

/// As many pages as were released can be allocated again.
pub proof fn released_pages_can_be_allocated(state: AllocatorState, start: u64, page_count: u64)
    requires
        state.well_formed(),
        release(state, start, page_count) is Some,
    ensures
        allocation(release(state, start, page_count).unwrap(), page_count).1 is Some,
{
    let next = release(state, start, page_count).unwrap();
    lemma_neighbours(state.extents, start, page_count);
    lemma_fitting_extent(next.extents, page_count, 0);
    let place = crate::memory::extent_place(state.extents, start, 0);
    if place > 0 {
        assert(state.extents[place - 1].sound());
        if state.extents[place - 1].finish() == start {
            if place < state.extents.len() {
                assert(state.extents[place].sound());
            }
            assert(next.extents[place - 1].page_count >= page_count);
        }
    }
    if place < state.extents.len() {
        assert(state.extents[place].sound());
    }
    if !(place > 0 && state.extents[place - 1].finish() == start) {
        assert(next.extents[place].page_count >= page_count);
    }
}

/// No two spans have a byte in common.
pub open spec fn spans_apart(spans: Seq<RegionSpan>) -> bool {
    forall|i: int, j: int|
        0 <= i < spans.len() && 0 <= j < spans.len() && i != j ==> (#[trigger] spans[i]).end
            <= spans[i].start || (#[trigger] spans[j]).end <= spans[j].start || disjoint(
            spans[i].start as int,
            spans[i].end as int,
            spans[j].start as int,
            spans[j].end as int,
        )
}

/// What is left of one span keeps clear of whatever the span itself kept clear of.
proof fn lemma_cut_parts(spans: Seq<RegionSpan>, from: u64, to: u64, n: nat, i: int) -> (origin: int)
    requires
        n <= spans.len(),
        0 <= i < cut_all(spans, from, to, n).len(),
    ensures
        0 <= origin < n,
        spans[origin].start <= cut_all(spans, from, to, n)[i].start,
        cut_all(spans, from, to, n)[i].end <= spans[origin].end,
        spans[origin].start < spans[origin].end,
    decreases n,
{
    if n == 0 {
        0
    } else {
        let before = cut_all(spans, from, to, (n - 1) as nat);
        if i < before.len() {
            assert(cut_all(spans, from, to, n)[i] == before[i]);
            lemma_cut_parts(spans, from, to, (n - 1) as nat, i)
        } else {
            let more = cut(spans[n - 1], from, to);
            assert(cut_all(spans, from, to, n)[i] == more[i - before.len()]);
            n - 1
        }
    }
}

proof fn lemma_cut_apart(spans: Seq<RegionSpan>, from: u64, to: u64, n: nat)
    requires
        n <= spans.len(),
        spans_apart(spans),
        from < to,
    ensures
        spans_apart(cut_all(spans, from, to, n)),
    decreases n,
{
    if n > 0 {
        lemma_cut_apart(spans, from, to, (n - 1) as nat);
        let before = cut_all(spans, from, to, (n - 1) as nat);
        let more = cut(spans[n - 1], from, to);
        let all = cut_all(spans, from, to, n);
        assert forall|i: int, j: int|
            0 <= i < all.len() && 0 <= j < all.len() && i != j implies (#[trigger] all[i]).end
            <= all[i].start || (#[trigger] all[j]).end <= all[j].start || disjoint(
            all[i].start as int,
            all[i].end as int,
            all[j].start as int,
            all[j].end as int,
        ) by {
            if i < before.len() && j < before.len() {
                assert(all[i] == before[i] && all[j] == before[j]);
            } else if i < before.len() {
                assert(all[i] == before[i]);
                assert(all[j] == more[j - before.len()]);
                let origin = lemma_cut_parts(spans, from, to, (n - 1) as nat, i);
                assert(spans[origin].end <= spans[origin].start || spans[n - 1].end <= spans[n
                    - 1].start || disjoint(
                    spans[origin].start as int,
                    spans[origin].end as int,
                    spans[n - 1].start as int,
                    spans[n - 1].end as int,
                ));
            } else if j < before.len() {
                assert(all[j] == before[j]);
                assert(all[i] == more[i - before.len()]);
                let origin = lemma_cut_parts(spans, from, to, (n - 1) as nat, j);
                assert(spans[origin].end <= spans[origin].start || spans[n - 1].end <= spans[n
                    - 1].start || disjoint(
                    spans[origin].start as int,
                    spans[origin].end as int,
                    spans[n - 1].start as int,
                    spans[n - 1].end as int,
                ));
            } else {
                assert(all[i] == more[i - before.len()]);
                assert(all[j] == more[j - before.len()]);
            }
        }
    }
}

proof fn lemma_fragments_apart(span: RegionSpan, ranges: Seq<ReservedMemoryRange>, n: nat)
    requires
        n <= ranges.len(),
    ensures
        spans_apart(fragments(seq![span], ranges, n)),
    decreases n,
{
    if n > 0 {
        lemma_fragments_apart(span, ranges, (n - 1) as nat);
        let before = fragments(seq![span], ranges, (n - 1) as nat);
        let range = ranges[n - 1];
        if range.length > 0 && range_from(range) < range_to(range) {
            lemma_cut_apart(before, range_from(range), range_to(range), before.len());
        }
    }
}

/// Every region lies in a span or is an earlier one, and no two have a byte in common.
proof fn lemma_with_spans_apart(
    regions: Seq<RegionCursor>,
    spans: Seq<RegionSpan>,
    kind: MemoryRegionKind,
    n: nat,
)
    requires
        n <= spans.len(),
        spans_apart(spans),
        regions_apart(regions),
        forall|i: int, j: int|
            0 <= i < regions.len() && 0 <= j < spans.len() ==> (#[trigger] spans[j]).end
                <= spans[j].start || disjoint(
                (#[trigger] regions[i]).start as int,
                regions[i].end(),
                spans[j].start as int,
                spans[j].end as int,
            ),
    ensures
        regions_apart(with_spans(regions, spans, kind, n)),
        forall|i: int, j: int|
            0 <= i < with_spans(regions, spans, kind, n).len() && n <= j < spans.len() ==> (
            #[trigger] spans[j]).end <= spans[j].start || disjoint(
                (#[trigger] with_spans(regions, spans, kind, n)[i]).start as int,
                with_spans(regions, spans, kind, n)[i].end(),
                spans[j].start as int,
                spans[j].end as int,
            ),
    decreases n,
{
    if n > 0 {
        lemma_with_spans_apart(regions, spans, kind, (n - 1) as nat);
        let before = with_spans(regions, spans, kind, (n - 1) as nat);
        let after = with_spans(regions, spans, kind, n);
        let span = spans[n - 1];
        if after.len() > before.len() {
            let fresh = after[before.len() as int];
            assert(fresh.start >= span.start);
            assert(fresh.end() <= span.end);
            assert(span.start < span.end);
        }
        assert forall|i: int, j: int|
            0 <= i < after.len() && 0 <= j < after.len() && i != j implies disjoint(
            (#[trigger] after[i]).start as int,
            after[i].end(),
            (#[trigger] after[j]).start as int,
            after[j].end(),
        ) by {
            if i < before.len() && j < before.len() {
                assert(after[i] == before[i] && after[j] == before[j]);
            } else if i < before.len() {
                assert(after[i] == before[i]);
                assert(disjoint(
                    before[i].start as int,
                    before[i].end(),
                    span.start as int,
                    span.end as int,
                ));
            } else {
                assert(after[j] == before[j]);
                assert(disjoint(
                    before[j].start as int,
                    before[j].end(),
                    span.start as int,
                    span.end as int,
                ));
            }
        }
        assert forall|i: int, j: int|
            0 <= i < after.len() && n <= j < spans.len() implies (#[trigger] spans[j]).end
            <= spans[j].start || disjoint(
            (#[trigger] after[i]).start as int,
            after[i].end(),
            spans[j].start as int,
            spans[j].end as int,
        ) by {
            if i < before.len() {
                assert(after[i] == before[i]);
            } else {
                assert(spans[n - 1].end <= spans[n - 1].start || spans[j].end <= spans[j].start
                    || disjoint(
                    spans[n - 1].start as int,
                    spans[n - 1].end as int,
                    spans[j].start as int,
                    spans[j].end as int,
                ));
            }
        }
    }
}

/// No two regions of the memory map that may be used have a byte in common.
pub open spec fn map_apart(mode: FirmwareMode, map: Seq<MemoryRegion>) -> bool {
    forall|i: int, j: int|
        0 <= i < map.len() && 0 <= j < map.len() && i != j && usable_in(mode, map[i].kind)
            && usable_in(mode, map[j].kind) ==> disjoint(
            (#[trigger] map[i]).start as int,
            map[i].start + map[i].bytes(),
            (#[trigger] map[j]).start as int,
            map[j].start + map[j].bytes(),
        )
}

/// Where the regions of the memory map that may be used have no byte in common, neither have those that
/// the allocator hands pages out of.
pub proof fn usable_regions_are_apart(
    mode: FirmwareMode,
    map: Seq<MemoryRegion>,
    ranges: Seq<ReservedMemoryRange>,
    n: nat,
)
    requires
        n <= map.len(),
        map_apart(mode, map),
    ensures
        regions_apart(usable_regions(mode, map, ranges, n)),
    decreases n,
{
    if n > 0 {
        usable_regions_are_apart(mode, map, ranges, (n - 1) as nat);
        let before = usable_regions(mode, map, ranges, (n - 1) as nat);
        let region = map[n - 1];
        if usable_in(mode, region.kind) && region.page_count != 0 {
            let span = RegionSpan {
                start: region.start,
                end: capped(region.start + region.bytes()),
            };
            let left = fragments(seq![span], ranges, ranges.len());
            lemma_fragments(span, ranges, ranges.len());
            lemma_fragments_apart(span, ranges, ranges.len());
            assert forall|i: int, j: int|
                0 <= i < before.len() && 0 <= j < left.len() implies (#[trigger] left[j]).end
                <= left[j].start || disjoint(
                (#[trigger] before[i]).start as int,
                before[i].end(),
                left[j].start as int,
                left[j].end as int,
            ) by {
                let k = lemma_origin(mode, map, ranges, (n - 1) as nat, i);
                assert(disjoint(
                    map[k].start as int,
                    map[k].start + map[k].bytes(),
                    region.start as int,
                    region.start + region.bytes(),
                ));
            }
            lemma_with_spans_apart(before, left, region.kind, left.len());
        }
    }
}

/// Where in the memory map a region comes from.
proof fn lemma_origin(
    mode: FirmwareMode,
    map: Seq<MemoryRegion>,
    ranges: Seq<ReservedMemoryRange>,
    n: nat,
    i: int,
) -> (k: int)
    requires
        n <= map.len(),
        0 <= i < usable_regions(mode, map, ranges, n).len(),
    ensures
        0 <= k < n,
        usable_in(mode, map[k].kind),
        map[k].start <= usable_regions(mode, map, ranges, n)[i].start,
        usable_regions(mode, map, ranges, n)[i].end() <= map[k].start + map[k].bytes(),
    decreases n,
{
    let head = map.take(n as int);
    lemma_same_regions(mode, map, head, ranges, n);
    usable_regions_are_free_to_use(mode, head, ranges, n);
    let region = usable_regions(mode, map, ranges, n)[i];
    assert(free_to_use(usable_regions(mode, head, ranges, n)[i], mode, head, ranges));
    choose|k: int|
        {
            &&& 0 <= k < head.len()
            &&& usable_in(mode, (#[trigger] head[k]).kind)
            &&& head[k].kind == region.kind
            &&& head[k].start <= region.start
            &&& region.end() <= head[k].start + head[k].bytes()
        }
}

/// The regions that may be used of the first `n` do not depend on the others.
proof fn lemma_same_regions(
    mode: FirmwareMode,
    map: Seq<MemoryRegion>,
    head: Seq<MemoryRegion>,
    ranges: Seq<ReservedMemoryRange>,
    n: nat,
)
    requires
        n <= map.len(),
        n <= head.len(),
        forall|i: int| 0 <= i < n ==> map[i] == head[i],
    ensures
        usable_regions(mode, map, ranges, n) == usable_regions(mode, head, ranges, n),
    decreases n,
{
    if n > 0 {
        lemma_same_regions(mode, map, head, ranges, (n - 1) as nat);
    }
}

/// Pages are handed out if and only if some are asked for and there are as many in a row: among those
/// that have come back, or among those that were never handed out. They are then whole pages, and as
/// many more are allocated.
pub proof fn pages_are_handed_out_while_there_are_any(state: AllocatorState, page_count: u64)
    requires
        state.well_formed(),
        state.initialized,
    ensures
        allocation(state, page_count).1 is Some <==> page_count > 0 && {
            ||| exists|i: int|
                0 <= i < state.extents.len() && (#[trigger] state.extents[i]).page_count >= page_count
            ||| exists|i: int|
                0 <= i < state.regions.len() && (#[trigger] state.regions[i]).page_count
                    - state.regions[i].next_page >= page_count
        },
        allocation(state, page_count) matches (next, Some(start)) ==> {
            &&& start as int % 4096 == 0
            &&& next.allocated == state.allocated + page_count
            &&& next.total == state.total
            &&& next.regions.len() == state.regions.len()
        },
{
    lemma_fitting_extent(state.extents, page_count, 0);
    lemma_fitting_region(state.regions, page_count, 0);
    match fitting_extent(state.extents, page_count, 0) {
        Some(i) => {
            assert(state.extents[i].sound());
        },
        None => match fitting_region(state.regions, page_count, 0) {
            Some(i) => {
                assert(state.regions[i].sound());
            },
            None => {},
        },
    }
}

/// A page that was allocated can be released, unless there is no room to note it, and as many are then
/// allocated as before.
pub proof fn an_allocated_page_can_be_released(state: AllocatorState)
    requires
        state.well_formed(),
        regions_apart(state.regions),
        extents_handed(state),
        state.extents.len() < crate::memory::MAX_FREE_EXTENTS,
    ensures
        allocation(state, 1) matches (next, Some(start)) ==> (release(next, start, 1) matches Some(
            again,
        ) && again.allocated == state.allocated && again.total == state.total),
{
    if allocation(state, 1).1 is Some {
        let (next, given) = allocation(state, 1);
        let start = given.unwrap();
        pages_are_handed_out_while_there_are_any(state, 1);
        an_allocation_hands_out_fresh_pages(state, 1, start as int);
        crate::memory::lemma_allocation_keeps(state, 1);
        assert(among(start as int, start, 1));
        assert(taken(next, start as int));
        let i = choose|i: int|
            0 <= i < next.regions.len() && (#[trigger] next.regions[i]).start <= start && start
                + PAGE_SIZE <= next.regions[i].handed_end();
        assert(next.regions[i].sound());
        crate::memory::lemma_page_counts(next);
    }
}

/// A page boundary is a multiple of 4096: the last one up to a number, and the first one from it on.
pub proof fn page_boundaries_are_close(value: u64)
    ensures
        page_floor(value as int) % 4096 == 0,
        page_floor(value as int) <= value < page_floor(value as int) + 4096,
        page_ceiling(value as int) % 4096 == 0,
        value <= u64::MAX - 4095 ==> value <= page_ceiling(value as int) < value + 4096,
{
}

/// What a region has handed out is listed if and only if it is not nothing.
pub proof fn what_was_handed_out_is_listed(regions: Seq<RegionCursor>, n: nat, i: int)
    requires
        n <= regions.len(),
        0 <= i < n,
        regions[i].sound(),
    ensures
        regions[i].next_page > 0 ==> crate::memory::handed_ranges(regions, n).contains(
            (regions[i].start, (regions[i].next_page * 4096) as u64),
        ),
        crate::memory::handed_ranges(regions, n).len() <= n,
    decreases n,
{
    let all = crate::memory::handed_ranges(regions, n);
    let before = crate::memory::handed_ranges(regions, (n - 1) as nat);
    let wanted = (regions[i].start, (regions[i].next_page * 4096) as u64);
    if i < n - 1 {
        what_was_handed_out_is_listed(regions, (n - 1) as nat, i);
        if regions[i].next_page > 0 {
            let k = choose|k: int| 0 <= k < before.len() && before[k] == wanted;
            assert(all[k] == wanted);
        }
    } else {
        lemma_listed_length(regions, (n - 1) as nat);
        if regions[i].next_page > 0 {
            assert(all.last() == wanted);
        }
    }
}

proof fn lemma_listed_length(regions: Seq<RegionCursor>, n: nat)
    ensures
        crate::memory::handed_ranges(regions, n).len() <= n,
    decreases n,
{
    if n > 0 {
        lemma_listed_length(regions, (n - 1) as nat);
    }
}

/// A span of memory is handed out by whole pages from its first whole one on, while there is room in the
/// list; a span without a whole page is passed over.
pub proof fn a_span_is_handed_out_from_its_first_page(
    regions: Seq<RegionCursor>,
    span: RegionSpan,
    kind: MemoryRegionKind,
)
    requires
        span.end as int <= u64::MAX - 4096,
        span.start as int <= u64::MAX - 4096,
    ensures
        ({
            let next = with_span(regions, span, kind);
            let first = (span.start + 4095) / 4096 * 4096;
            let last = span.end as int / 4096 * 4096;
            &&& first >= last || regions.len() >= MAX_ALLOCATOR_REGIONS ==> next == regions
            &&& first < last && regions.len() < MAX_ALLOCATOR_REGIONS ==> {
                &&& next.len() == regions.len() + 1
                &&& next.take(regions.len() as int) == regions
                &&& next.last().start == first
                &&& next.last().start + next.last().page_count * 4096 == last
                &&& next.last().next_page == 0
                &&& next.last().kind == kind
            }
        }),
{
    let next = with_span(regions, span, kind);
    if next.len() == regions.len() + 1 {
        assert(next.take(regions.len() as int) =~= regions);
    }
}

} // verus!
