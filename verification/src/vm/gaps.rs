//! The low window without the addresses that the kernel's image takes.

use vstd::prelude::*;
use crate::bootinfo::{capped, KernelImageSegment, PAGE_SIZE};
use crate::memory::{align_down, align_up, page_ceiling, page_floor};
use crate::vm::kernel::takes_memory;

verus! {

/// The whole pages between `start` and `end` that a segment's addresses touch.
pub open spec fn hole_of(segment: KernelImageSegment, start: u64, end: u64) -> (u64, u64) {
    let from = if segment.virtual_address > start {
        segment.virtual_address
    } else {
        start
    };
    let last = capped(segment.virtual_address + segment.memory_size);
    let to = if last < end {
        last
    } else {
        end
    };
    (page_floor(from as int) as u64, page_ceiling(to as int) as u64)
}

/// The place, from `i` on, of a hole that begins at `start`.
pub open spec fn hole_place(holes: Seq<(u64, u64)>, start: u64, i: int) -> int
    decreases holes.len() - i,
{
    if i < 0 || i >= holes.len() || holes[i].0 > start {
        i
    } else {
        hole_place(holes, start, i + 1)
    }
}

/// The holes that the first `n` segments make, in order of where they begin.
pub open spec fn holes_of(segments: Seq<KernelImageSegment>, start: u64, end: u64, n: nat) -> Seq<
    (u64, u64),
>
    decreases n,
{
    if n == 0 {
        seq![]
    } else {
        let before = holes_of(segments, start, end, (n - 1) as nat);
        let hole = hole_of(segments[n - 1], start, end);
        if !takes_memory(segments[n - 1]) || hole.1 <= hole.0 {
            before
        } else {
            before.insert(hole_place(before, hole.0, 0), hole)
        }
    }
}

proof fn lemma_hole_place(holes: Seq<(u64, u64)>, start: u64, i: int)
    requires
        0 <= i <= holes.len(),
    ensures
        i <= hole_place(holes, start, i) <= holes.len(),
        forall|j: int| i <= j < hole_place(holes, start, i) ==> (#[trigger] holes[j]).0 <= start,
        hole_place(holes, start, i) < holes.len() ==> holes[hole_place(holes, start, i)].0 > start,
    decreases holes.len() - i,
{
    if i < holes.len() && holes[i].0 <= start {
        lemma_hole_place(holes, start, i + 1);
    }
}

/// The holes that the segments make between `start` and `end`, in order of where they begin.
pub fn kernel_virtual_holes(segments: &[KernelImageSegment], start: u64, end: u64) -> (holes: Vec<
    (u64, u64),
>)
    ensures
        holes@ == holes_of(segments@, start, end, segments@.len()),
{
    let mut holes: Vec<(u64, u64)> = Vec::new();
    let mut i: usize = 0;
    while i < segments.len()
        invariant
            i <= segments@.len(),
            holes@ == holes_of(segments@, start, end, i as nat),
        decreases segments.len() - i,
    {
        let segment = segments[i];
        if segment.load_page_count != 0 && segment.memory_size != 0 {
            let from: u64 = if segment.virtual_address > start {
                segment.virtual_address
            } else {
                start
            };
            let last: u64 = segment.virtual_address.saturating_add(segment.memory_size);
            let to: u64 = if last < end {
                last
            } else {
                end
            };
            let hole_start: u64 = align_down(from);
            let hole_end: u64 = align_up(to);
            assert((hole_start, hole_end) == hole_of(segment, start, end));
            if hole_end > hole_start {
                let mut place: usize = 0;
                while place < holes.len() && holes[place].0 <= hole_start
                    invariant
                        place <= holes.len(),
                        hole_place(holes@, hole_start, 0) == hole_place(
                            holes@,
                            hole_start,
                            place as int,
                        ),
                    decreases holes.len() - place,
                {
                    place += 1;
                }
                holes.insert(place, (hole_start, hole_end));
            }
        }
        i += 1;
    }
    holes
}

/// What is left between `current` and `end` without the holes from `i` on.
pub open spec fn gaps(holes: Seq<(u64, u64)>, start: u64, end: u64, i: int, current: u64) -> Seq<
    (u64, u64),
>
    decreases holes.len() - i,
{
    if i < 0 || i >= holes.len() {
        if current < end {
            seq![(current, end)]
        } else {
            seq![]
        }
    } else {
        let from = page_floor(
            (if holes[i].0 > start {
                holes[i].0
            } else {
                start
            }) as int,
        ) as u64;
        let to = page_ceiling(
            (if holes[i].1 < end {
                holes[i].1
            } else {
                end
            }) as int,
        ) as u64;
        let next = if current > to {
            current
        } else {
            to
        };
        if to <= from {
            gaps(holes, start, end, i + 1, current)
        } else {
            (if from > current {
                seq![(current, from)]
            } else {
                seq![]
            }) + (if next >= end {
                seq![]
            } else {
                gaps(holes, start, end, i + 1, next)
            })
        }
    }
}

/// What is left of the pages from `start` to `end` without the holes.
pub open spec fn window_gaps(start: u64, end: u64, holes: Seq<(u64, u64)>) -> Seq<(u64, u64)> {
    let from = page_floor(start as int) as u64;
    let to = page_ceiling(end as int) as u64;
    if to <= from {
        seq![]
    } else {
        gaps(holes, from, to, 0, from)
    }
}

/// What is left of the pages from `start` to `end` without the holes.
pub fn gaps_between(start: u64, end: u64, holes: &[(u64, u64)]) -> (left: Vec<(u64, u64)>)
    ensures
        left@ == window_gaps(start, end, holes@),
{
    let aligned_start: u64 = align_down(start);
    let aligned_end: u64 = align_up(end);
    let mut left: Vec<(u64, u64)> = Vec::new();
    if aligned_end <= aligned_start {
        assert(left@ =~= seq![]);
        return left;
    }
    let mut current: u64 = aligned_start;
    let mut i: usize = 0;
    assert(left@ + gaps(holes@, aligned_start, aligned_end, 0, current) =~= gaps(
        holes@,
        aligned_start,
        aligned_end,
        0,
        current,
    ));
    while i < holes.len()
        invariant
            i <= holes@.len(),
            window_gaps(start, end, holes@) == left@ + gaps(
                holes@,
                aligned_start,
                aligned_end,
                i as int,
                current,
            ),
        decreases holes.len() - i,
    {
        let (hole_start, hole_end) = holes[i];
        let from: u64 = align_down(
            if hole_start > aligned_start {
                hole_start
            } else {
                aligned_start
            },
        );
        let to: u64 = align_up(
            if hole_end < aligned_end {
                hole_end
            } else {
                aligned_end
            },
        );
        if to > from {
            let ghost before = left@;
            let ghost rest = gaps(holes@, aligned_start, aligned_end, i as int, current);
            let next: u64 = if current > to {
                current
            } else {
                to
            };
            if from > current {
                left.push((current, from));
            }
            current = next;
            if current >= aligned_end {
                assert(left@ =~= before + rest);
                return left;
            }
            assert(left@ + gaps(holes@, aligned_start, aligned_end, i + 1, current) =~= before
                + rest);
        }
        i += 1;
    }
    let ghost before = left@;
    if current < aligned_end {
        left.push((current, aligned_end));
    }
    assert(left@ =~= before + gaps(holes@, aligned_start, aligned_end, i as int, current));
    left
}

/// The page at `page` lies in one of the runs.
pub open spec fn in_runs(runs: Seq<(u64, u64)>, page: int) -> bool {
    exists|i: int| 0 <= i < runs.len() && (#[trigger] runs[i]).0 <= page < runs[i].1
}

/// Holes that begin and end at page boundaries, in order of where they begin.
pub open spec fn proper_holes(holes: Seq<(u64, u64)>) -> bool {
    &&& forall|i: int|
        0 <= i < holes.len() ==> (#[trigger] holes[i]).0 % PAGE_SIZE == 0 && holes[i].1 % PAGE_SIZE
            == 0 && holes[i].0 < holes[i].1
    &&& forall|i: int, j: int|
        0 <= i <= j < holes.len() ==> (#[trigger] holes[i]).0 <= (#[trigger] holes[j]).0
}

proof fn lemma_gaps(holes: Seq<(u64, u64)>, start: u64, end: u64, i: int, current: u64, page: int)
    requires
        0 <= i <= holes.len(),
        proper_holes(holes),
        start % PAGE_SIZE == 0,
        end % PAGE_SIZE == 0,
        current % PAGE_SIZE == 0,
        page % PAGE_SIZE as int == 0,
        start <= current,
        forall|j: int| i <= j < holes.len() && i > 0 ==> holes[i - 1].0 <= (#[trigger] holes[j]).0,
    ensures
        in_runs(gaps(holes, start, end, i, current), page) == (current <= page < end && !in_runs(
            holes.skip(i),
            page,
        )),
    decreases holes.len() - i,
{
    let all = gaps(holes, start, end, i, current);
    if i >= holes.len() {
        if current <= page < end {
            assert(all[0] == (current, end));
        }
    } else {
        let hole = holes[i];
        let rest_holes = holes.skip(i + 1);
        let here = holes.skip(i);
        assert(here[0] == hole);
        assert forall|p: int| #[trigger] in_runs(here, p) == ((hole.0 <= p < hole.1) || in_runs(
            rest_holes,
            p,
        )) by {
            if in_runs(here, p) {
                let k = choose|k: int| 0 <= k < here.len() && (#[trigger] here[k]).0 <= p < here[k].1;
                if k > 0 {
                    assert(rest_holes[k - 1] == here[k]);
                }
            }
            if hole.0 <= p < hole.1 {
                assert(here[0].0 <= p < here[0].1);
            }
            if in_runs(rest_holes, p) {
                let k = choose|k: int|
                    0 <= k < rest_holes.len() && (#[trigger] rest_holes[k]).0 <= p
                        < rest_holes[k].1;
                assert(here[k + 1] == rest_holes[k]);
            }
        }
        let from = page_floor(
            (if hole.0 > start {
                hole.0
            } else {
                start
            }) as int,
        ) as u64;
        let to = page_ceiling(
            (if hole.1 < end {
                hole.1
            } else {
                end
            }) as int,
        ) as u64;
        assert(from == if hole.0 > start {
            hole.0
        } else {
            start
        });
        assert(to == if hole.1 < end {
            hole.1
        } else {
            end
        });
        if to <= from {
            lemma_gaps(holes, start, end, i + 1, current, page);
        } else {
            let next = if current > to {
                current
            } else {
                to
            };
            let head: Seq<(u64, u64)> = if from > current {
                seq![(current, from)]
            } else {
                seq![]
            };
            let tail = if next >= end {
                seq![]
            } else {
                gaps(holes, start, end, i + 1, next)
            };
            assert(all == head + tail);
            if next < end {
                lemma_gaps(holes, start, end, i + 1, next, page);
            }
            assert(in_runs(all, page) == (in_runs(head, page) || in_runs(tail, page))) by {
                if in_runs(all, page) {
                    let k = choose|k: int|
                        0 <= k < all.len() && (#[trigger] all[k]).0 <= page < all[k].1;
                    if k < head.len() {
                        assert(head[k] == all[k]);
                    } else {
                        assert(tail[k - head.len()] == all[k]);
                    }
                }
                if in_runs(head, page) {
                    assert(all[0] == head[0]);
                }
                if in_runs(tail, page) {
                    let k = choose|k: int|
                        0 <= k < tail.len() && (#[trigger] tail[k]).0 <= page < tail[k].1;
                    assert(all[head.len() + k] == tail[k]);
                }
            }
            if from > current && current <= page < from {
                assert(head[0].0 <= page < head[0].1);
            }
            if in_runs(rest_holes, page) {
                let k = choose|k: int|
                    0 <= k < rest_holes.len() && (#[trigger] rest_holes[k]).0 <= page
                        < rest_holes[k].1;
                assert(rest_holes[k] == holes[i + 1 + k]);
                assert(holes[i].0 <= holes[i + 1 + k].0);
            }
        }
    }
}

/// A page of the window is left unless a hole takes it.
pub proof fn the_gaps_are_what_no_hole_takes(start: u64, end: u64, holes: Seq<(u64, u64)>, page: int)
    requires
        proper_holes(holes),
        page % PAGE_SIZE as int == 0,
    ensures
        in_runs(window_gaps(start, end, holes), page) == (page_floor(start as int) <= page
            < page_ceiling(end as int) && !in_runs(holes, page)),
{
    let from = page_floor(start as int) as u64;
    let to = page_ceiling(end as int) as u64;
    if from < to {
        lemma_gaps(holes, from, to, 0, from, page);
        assert(holes.skip(0) =~= holes);
    }
}

/// The holes that segments make are proper.
pub proof fn kernel_holes_are_proper(segments: Seq<KernelImageSegment>, start: u64, end: u64, n: nat)
    requires
        n <= segments.len(),
    ensures
        proper_holes(holes_of(segments, start, end, n)),
    decreases n,
{
    if n > 0 {
        kernel_holes_are_proper(segments, start, end, (n - 1) as nat);
        let before = holes_of(segments, start, end, (n - 1) as nat);
        let hole = hole_of(segments[n - 1], start, end);
        let after = holes_of(segments, start, end, n);
        if takes_memory(segments[n - 1]) && hole.0 < hole.1 {
            let place = hole_place(before, hole.0, 0);
            lemma_hole_place(before, hole.0, 0);
            assert forall|i: int| 0 <= i < after.len() implies (#[trigger] after[i]).0 % PAGE_SIZE
                == 0 && after[i].1 % PAGE_SIZE == 0 && after[i].0 < after[i].1 by {
                if i < place {
                    assert(after[i] == before[i]);
                } else if i > place {
                    assert(after[i] == before[i - 1]);
                }
            }
            assert forall|i: int, j: int| 0 <= i <= j < after.len() implies (#[trigger] after[i]).0 <= (
            #[trigger] after[j]).0 by {
                if i < j {
                    let a = if i < place {
                        i
                    } else {
                        i - 1
                    };
                    let b = if j < place {
                        j
                    } else {
                        j - 1
                    };
                    if j == place {
                        assert(after[i] == before[i]);
                    } else if i == place {
                        assert(after[j] == before[j - 1]);
                        assert(before[place].0 <= before[j - 1].0);
                    } else {
                        assert(after[i] == before[a] && after[j] == before[b]);
                    }
                }
            }
        }
    }
}

} // verus!
