//! Where the pages of the kernel's image are mapped, and what may be done with them.

use vstd::prelude::*;
use crate::bootinfo::{
    KernelImageInfo, KernelImageSegment, KERNEL_SEGMENT_FLAG_EXECUTE, KERNEL_SEGMENT_FLAG_WRITE,
    PAGE_SIZE,
};
use crate::memory::{align_down, page_floor};
use crate::vm::entry::VmError;

verus! {

/// What may be done with a page of the kernel's image.
#[derive(Debug, Clone, Copy, PartialEq, Eq, Structural)]
pub struct KernelPagePermissions {
    pub present: bool,
    pub writable: bool,
    pub executable: bool,
}

/// Pages of the kernel's image that follow each other and may be used alike.
#[derive(Debug, Clone, Copy, PartialEq, Eq, Structural)]
pub struct KernelPageMapping {
    pub virt_start: u64,
    pub phys_start: u64,
    pub page_count: usize,
    pub writable: bool,
    pub executable: bool,
}

/// Whether a segment takes memory.
pub open spec fn takes_memory(segment: KernelImageSegment) -> bool {
    segment.load_page_count != 0 && segment.memory_size != 0
}

/// Where the first page starts that the first `n` segments take.
pub open spec fn image_base(segments: Seq<KernelImageSegment>, n: nat) -> Option<u64>
    decreases n,
{
    if n == 0 {
        None
    } else {
        let before = image_base(segments, (n - 1) as nat);
        let start = page_floor(segments[n - 1].virtual_address as int) as u64;
        if !takes_memory(segments[n - 1]) {
            before
        } else if before is Some && before.unwrap() <= start {
            before
        } else {
            Some(start)
        }
    }
}

/// The number of the first page that a segment takes.
pub open spec fn first_page(segment: KernelImageSegment, base: u64) -> int {
    (page_floor(segment.virtual_address as int) - base) / PAGE_SIZE as int
}

/// Whether a segment takes a page.
pub open spec fn takes_page(segment: KernelImageSegment, base: u64, page: int) -> bool {
    takes_memory(segment) && first_page(segment, base) <= page < first_page(segment, base)
        + segment.load_page_count
}

/// Whether one of the first `n` segments takes a page.
pub open spec fn page_taken(segments: Seq<KernelImageSegment>, base: u64, page: int, n: nat) -> bool {
    exists|k: int| 0 <= k < n && takes_page(#[trigger] segments[k], base, page)
}

/// Whether one of the first `n` segments takes a page to write it.
pub open spec fn page_written(segments: Seq<KernelImageSegment>, base: u64, page: int, n: nat) -> bool {
    exists|k: int|
        0 <= k < n && takes_page(#[trigger] segments[k], base, page) && segments[k].flags
            & KERNEL_SEGMENT_FLAG_WRITE != 0
}

/// Whether one of the first `n` segments takes a page to execute it.
pub open spec fn page_executed(segments: Seq<KernelImageSegment>, base: u64, page: int, n: nat) -> bool {
    exists|k: int|
        0 <= k < n && takes_page(#[trigger] segments[k], base, page) && segments[k].flags
            & KERNEL_SEGMENT_FLAG_EXECUTE != 0
}

/// What the first `n` segments do with a page.
pub open spec fn permissions(segments: Seq<KernelImageSegment>, base: u64, page: int, n: nat) -> KernelPagePermissions {
    KernelPagePermissions {
        present: page_taken(segments, base, page, n),
        writable: page_written(segments, base, page, n),
        executable: page_executed(segments, base, page, n),
    }
}

/// Why segment `k` cannot be mapped beside those before it.
pub open spec fn segment_conflict(info: KernelImageInfo, base: u64, k: nat) -> Option<VmError> {
    let segments = info.listed();
    let first = first_page(segments[k as int], base);
    let end = first + segments[k as int].load_page_count;
    if !takes_memory(segments[k as int]) {
        None
    } else if end > usize::MAX {
        Some(VmError::AddressOverflow)
    } else if end > info.load_page_count {
        Some(VmError::KernelImageConflict)
    } else if exists|page: int|
        first <= page < end && (#[trigger] permissions(segments, base, page, k + 1)).writable
            && permissions(segments, base, page, k + 1).executable {
        Some(VmError::KernelWritableExecutable)
    } else {
        None
    }
}

/// Why the first `n` segments cannot be mapped beside each other.
pub open spec fn conflict(info: KernelImageInfo, base: u64, n: nat) -> Option<VmError>
    decreases n,
{
    if n == 0 {
        None
    } else {
        match conflict(info, base, (n - 1) as nat) {
            Some(error) => Some(error),
            None => segment_conflict(info, base, (n - 1) as nat),
        }
    }
}

/// The first page from `i` on that may not be used like page `start`.
pub open spec fn run_end(plan: Seq<KernelPagePermissions>, start: int, i: int) -> int
    decreases plan.len() - i,
{
    if i < 0 || i >= plan.len() || plan[i] != plan[start] {
        i
    } else {
        run_end(plan, start, i + 1)
    }
}

proof fn lemma_run_end(plan: Seq<KernelPagePermissions>, start: int, i: int)
    requires
        0 <= start < i <= plan.len(),
    ensures
        i <= run_end(plan, start, i) <= plan.len(),
        forall|j: int| i <= j < run_end(plan, start, i) ==> plan[j] == plan[start],
    decreases plan.len() - i,
{
    if i < plan.len() && plan[i] == plan[start] {
        lemma_run_end(plan, start, i + 1);
    }
}

/// The pages from `i` on that are taken, as runs of pages that may be used alike.
pub open spec fn runs_from(plan: Seq<KernelPagePermissions>, i: int, base: u64, load_base: u64) -> Result<
    Seq<KernelPageMapping>,
    VmError,
>
    decreases plan.len() - i,
    via runs_from_decreases
{
    if i < 0 || i >= plan.len() {
        Ok(seq![])
    } else if !plan[i].present {
        runs_from(plan, i + 1, base, load_base)
    } else {
        let end = run_end(plan, i, i + 1);
        let offset = i * PAGE_SIZE;
        if base + offset > u64::MAX || load_base + offset > u64::MAX {
            Err(VmError::AddressOverflow)
        } else {
            match runs_from(plan, end, base, load_base) {
                Ok(rest) => Ok(
                    seq![
                        KernelPageMapping {
                            virt_start: (base + offset) as u64,
                            phys_start: (load_base + offset) as u64,
                            page_count: (end - i) as usize,
                            writable: plan[i].writable,
                            executable: plan[i].executable,
                        },
                    ] + rest,
                ),
                Err(error) => Err(error),
            }
        }
    }
}

#[via_fn]
proof fn runs_from_decreases(plan: Seq<KernelPagePermissions>, i: int, base: u64, load_base: u64) {
    if 0 <= i < plan.len() {
        lemma_run_end(plan, i, i + 1);
    }
}

/// What may be done with each page of the image.
pub open spec fn image_plan(info: KernelImageInfo, base: u64) -> Seq<KernelPagePermissions> {
    Seq::new(
        info.load_page_count as nat,
        |page: int| permissions(info.listed(), base, page, info.listed().len()),
    )
}

/// Where the image is mapped, or why it cannot be.
pub open spec fn image_mappings(info: KernelImageInfo) -> Result<Seq<KernelPageMapping>, VmError> {
    if info.load_page_count == 0 || info.load_base == 0 {
        Ok(seq![])
    } else {
        match image_base(info.listed(), info.listed().len()) {
            None => Err(VmError::KernelImageConflict),
            Some(base) => if info.load_page_count > usize::MAX {
                Err(VmError::AddressOverflow)
            } else {
                match conflict(info, base, info.listed().len()) {
                    Some(error) => Err(error),
                    None => runs_from(image_plan(info, base), 0, base, info.load_base),
                }
            },
        }
    }
}

/// A segment that takes memory starts at the base or behind it.
proof fn lemma_image_base(segments: Seq<KernelImageSegment>, n: nat)
    requires
        n <= segments.len(),
    ensures
        match image_base(segments, n) {
            Some(base) => base % PAGE_SIZE == 0 && forall|k: int|
                0 <= k < n && takes_memory(#[trigger] segments[k]) ==> base <= page_floor(
                    segments[k].virtual_address as int,
                ),
            None => forall|k: int| 0 <= k < n ==> !takes_memory(#[trigger] segments[k]),
        },
    decreases n,
{
    if n > 0 {
        lemma_image_base(segments, (n - 1) as nat);
    }
}

/// A conflict stands whatever segments follow.
proof fn lemma_conflict_stands(info: KernelImageInfo, base: u64, n: nat, m: nat)
    requires
        n <= m,
        conflict(info, base, n) is Some,
    ensures
        conflict(info, base, m) == conflict(info, base, n),
    decreases m,
{
    if n < m {
        lemma_conflict_stands(info, base, n, (m - 1) as nat);
    }
}

/// Where the first page starts that the segments take.
fn find_image_base(segments: &[KernelImageSegment]) -> (base: Option<u64>)
    ensures
        base == image_base(segments@, segments@.len()),
{
    let mut base: Option<u64> = None;
    let mut i: usize = 0;
    while i < segments.len()
        invariant
            i <= segments@.len(),
            base == image_base(segments@, i as nat),
        decreases segments.len() - i,
    {
        let segment = segments[i];
        if segment.load_page_count != 0 && segment.memory_size != 0 {
            let start: u64 = align_down(segment.virtual_address);
            base = match base {
                Some(least) => if least <= start {
                    Some(least)
                } else {
                    Some(start)
                },
                None => Some(start),
            };
        }
        i += 1;
    }
    base
}

/// What one more segment changes for a page.
proof fn lemma_permissions_step(segments: Seq<KernelImageSegment>, base: u64, page: int, n: nat)
    requires
        n < segments.len(),
    ensures
        permissions(segments, base, page, n + 1) == if takes_page(segments[n as int], base, page) {
            KernelPagePermissions {
                present: true,
                writable: permissions(segments, base, page, n).writable || segments[n as int].flags
                    & KERNEL_SEGMENT_FLAG_WRITE != 0,
                executable: permissions(segments, base, page, n).executable
                    || segments[n as int].flags & KERNEL_SEGMENT_FLAG_EXECUTE != 0,
            }
        } else {
            permissions(segments, base, page, n)
        },
{
    assert forall|k: int| 0 <= k < n implies 0 <= k < n + 1 && takes_page(
        #[trigger] segments[k],
        base,
        page,
    ) == takes_page(segments[k], base, page) by {}
    let segment = segments[n as int];
    assert(page_taken(segments, base, page, n + 1) == (page_taken(segments, base, page, n)
        || takes_page(segment, base, page)));
    assert(page_written(segments, base, page, n + 1) == (page_written(segments, base, page, n) || (
    takes_page(segment, base, page) && segment.flags & KERNEL_SEGMENT_FLAG_WRITE != 0)));
    assert(page_executed(segments, base, page, n + 1) == (page_executed(segments, base, page, n) || (
    takes_page(segment, base, page) && segment.flags & KERNEL_SEGMENT_FLAG_EXECUTE != 0)));
}

/// Enters segment `k` into the plan.
fn plan_segment(
    info: &KernelImageInfo,
    segments: &[KernelImageSegment],
    base: u64,
    k: usize,
    plan: &mut Vec<KernelPagePermissions>,
) -> (result: Result<(), VmError>)
    requires
        segments@ == info.listed(),
        k < segments@.len(),
        old(plan)@.len() == info.load_page_count,
        forall|page: int|
            0 <= page < old(plan)@.len() ==> #[trigger] old(plan)@[page] == permissions(
                segments@,
                base,
                page,
                k as nat,
            ),
        takes_memory(segments@[k as int]) ==> base <= page_floor(
            segments@[k as int].virtual_address as int,
        ),
        base % PAGE_SIZE == 0,
    ensures
        match segment_conflict(*info, base, k as nat) {
            Some(error) => result == Err::<(), VmError>(error),
            None => result is Ok && final(plan)@.len() == old(plan)@.len() && forall|page: int|
                0 <= page < final(plan)@.len() ==> #[trigger] final(plan)@[page] == permissions(
                    segments@,
                    base,
                    page,
                    (k + 1) as nat,
                ),
        },
{
    let segment = segments[k];
    proof {
        assert forall|page: int| permissions(segments@, base, page, (k + 1) as nat)
            == if takes_page(segment, base, page) {
            KernelPagePermissions {
                present: true,
                writable: permissions(segments@, base, page, k as nat).writable || segment.flags
                    & KERNEL_SEGMENT_FLAG_WRITE != 0,
                executable: permissions(segments@, base, page, k as nat).executable || segment.flags
                    & KERNEL_SEGMENT_FLAG_EXECUTE != 0,
            }
        } else {
            #[trigger] permissions(segments@, base, page, k as nat)
        } by {
            lemma_permissions_step(segments@, base, page, k as nat);
        }
    }
    if segment.load_page_count == 0 || segment.memory_size == 0 {
        return Ok(());
    }
    let first: u64 = (align_down(segment.virtual_address) - base) / PAGE_SIZE;
    assert(first == first_page(segment, base));
    let count: u64 = segment.load_page_count;
    if first > usize::MAX as u64 || count > usize::MAX as u64 - first {
        return Err(VmError::AddressOverflow);
    }
    let start: usize = first as usize;
    let end: usize = (first + count) as usize;
    if end > plan.len() {
        return Err(VmError::KernelImageConflict);
    }
    let writable: bool = segment.flags & KERNEL_SEGMENT_FLAG_WRITE != 0;
    let executable: bool = segment.flags & KERNEL_SEGMENT_FLAG_EXECUTE != 0;
    let ghost before = plan@;
    let mut at: usize = start;
    while at < end
        invariant
            start <= at <= end <= plan.len(),
            plan@.len() == before.len(),
            start == first_page(segment, base),
            end == start + segment.load_page_count,
            takes_memory(segment),
            segment == segments@[k as int],
            segments@ == info.listed(),
            plan@.len() == info.load_page_count,
            end <= usize::MAX,
            writable == (segment.flags & KERNEL_SEGMENT_FLAG_WRITE != 0),
            executable == (segment.flags & KERNEL_SEGMENT_FLAG_EXECUTE != 0),
            forall|page: int|
                0 <= page < before.len() ==> #[trigger] before[page] == permissions(
                    segments@,
                    base,
                    page,
                    k as nat,
                ),
            forall|page: int|
                permissions(segments@, base, page, (k + 1) as nat) == if takes_page(
                    segment,
                    base,
                    page,
                ) {
                    KernelPagePermissions {
                        present: true,
                        writable: permissions(segments@, base, page, k as nat).writable || writable,
                        executable: permissions(segments@, base, page, k as nat).executable
                            || executable,
                    }
                } else {
                    #[trigger] permissions(segments@, base, page, k as nat)
                },
            forall|page: int| at <= page < plan@.len() ==> #[trigger] plan@[page] == before[page],
            forall|page: int|
                0 <= page < at ==> #[trigger] plan@[page] == permissions(
                    segments@,
                    base,
                    page,
                    (k + 1) as nat,
                ),
            forall|page: int|
                start <= page < at ==> !((#[trigger] permissions(
                    segments@,
                    base,
                    page,
                    (k + 1) as nat,
                )).writable && permissions(segments@, base, page, (k + 1) as nat).executable),
        decreases end - at,
    {
        let page = plan[at];
        assert(page == permissions(segments@, base, at as int, k as nat));
        let changed = KernelPagePermissions {
            present: true,
            writable: page.writable || writable,
            executable: page.executable || executable,
        };
        assert(takes_page(segment, base, at as int));
        assert(changed == permissions(segments@, base, at as int, (k + 1) as nat));
        plan.set(at, changed);
        if changed.writable && changed.executable {
            return Err(VmError::KernelWritableExecutable);
        }
        at += 1;
    }
    Ok(())
}

/// The plan as runs of pages that may be used alike.
fn plan_runs(plan: &Vec<KernelPagePermissions>, base: u64, load_base: u64) -> (result: Result<
    Vec<KernelPageMapping>,
    VmError,
>)
    ensures
        match runs_from(plan@, 0, base, load_base) {
            Ok(runs) => result matches Ok(mappings) && mappings@ == runs,
            Err(error) => result matches Err(found) && found == error,
        },
{
    let mut mappings: Vec<KernelPageMapping> = Vec::new();
    let mut index: usize = 0;
    assert(runs_from(plan@, 0, base, load_base) == match runs_from(plan@, 0, base, load_base) {
        Ok(rest) => Ok(mappings@ + rest),
        Err(error) => Err(error),
    }) by {
        if runs_from(plan@, 0, base, load_base) is Ok {
            let rest = runs_from(plan@, 0, base, load_base)->Ok_0;
            assert(mappings@ + rest =~= rest);
        }
    }
    while index < plan.len()
        invariant
            index <= plan.len(),
            runs_from(plan@, 0, base, load_base) == match runs_from(
                plan@,
                index as int,
                base,
                load_base,
            ) {
                Ok(rest) => Ok(mappings@ + rest),
                Err(error) => Err(error),
            },
        decreases plan.len() - index,
    {
        let page = plan[index];
        if !page.present {
            index += 1;
            continue;
        }
        let start: usize = index;
        proof {
            lemma_run_end(plan@, start as int, start + 1);
        }
        let ghost rest_before = runs_from(plan@, start as int, base, load_base);
        index += 1;
        while index < plan.len() && plan[index] == page
            invariant
                start < index <= plan.len(),
                page == plan@[start as int],
                run_end(plan@, start as int, start + 1) == run_end(
                    plan@,
                    start as int,
                    index as int,
                ),
            decreases plan.len() - index,
        {
            index += 1;
        }
        assert(run_end(plan@, start as int, start + 1) == index);
        let offset: u64 = match (start as u64).checked_mul(PAGE_SIZE) {
            Some(offset) => offset,
            None => return Err(VmError::AddressOverflow),
        };
        let virt_start: u64 = match base.checked_add(offset) {
            Some(virt_start) => virt_start,
            None => return Err(VmError::AddressOverflow),
        };
        let phys_start: u64 = match load_base.checked_add(offset) {
            Some(phys_start) => phys_start,
            None => return Err(VmError::AddressOverflow),
        };
        let ghost before = mappings@;
        let mapping = KernelPageMapping {
            virt_start,
            phys_start,
            page_count: index - start,
            writable: page.writable,
            executable: page.executable,
        };
        mappings.push(mapping);
        proof {
            if runs_from(plan@, index as int, base, load_base) is Ok {
                let rest = runs_from(plan@, index as int, base, load_base)->Ok_0;
                assert(mappings@ + rest =~= before + (seq![mapping] + rest));
            }
        }
    }
    assert(mappings@ + Seq::<KernelPageMapping>::empty() =~= mappings@);
    Ok(mappings)
}

/// Where the pages of the kernel's image are mapped: pages that follow each other and may be used
/// alike go together. No page may be both written and executed.
pub fn kernel_page_mappings(info: &KernelImageInfo) -> (result: Result<Vec<KernelPageMapping>, VmError>)
    ensures
        match image_mappings(*info) {
            Ok(runs) => result matches Ok(mappings) && mappings@ == runs,
            Err(error) => result matches Err(found) && found == error,
        },
{
    if info.load_page_count == 0 || info.load_base == 0 {
        let none: Vec<KernelPageMapping> = Vec::new();
        assert(none@ =~= seq![]);
        return Ok(none);
    }
    let segments = info.segments();
    let base: u64 = match find_image_base(segments) {
        Some(base) => base,
        None => return Err(VmError::KernelImageConflict),
    };
    if info.load_page_count > usize::MAX as u64 {
        return Err(VmError::AddressOverflow);
    }
    let page_count: usize = info.load_page_count as usize;
    let mut plan: Vec<KernelPagePermissions> = Vec::new();
    let nothing = KernelPagePermissions { present: false, writable: false, executable: false };
    let mut i: usize = 0;
    while i < page_count
        invariant
            i <= page_count,
            plan@.len() == i,
            forall|page: int| 0 <= page < i ==> #[trigger] plan@[page] == nothing,
        decreases page_count - i,
    {
        plan.push(nothing);
        i += 1;
    }
    proof {
        lemma_image_base(segments@, segments@.len());
    }
    let mut k: usize = 0;
    while k < segments.len()
        invariant
            k <= segments@.len(),
            segments@ == info.listed(),
            plan@.len() == info.load_page_count,
            conflict(*info, base, k as nat) is None,
            base % PAGE_SIZE == 0,
            forall|j: int|
                0 <= j < segments@.len() && takes_memory(#[trigger] segments@[j]) ==> base
                    <= page_floor(segments@[j].virtual_address as int),
            forall|page: int|
                0 <= page < plan@.len() ==> #[trigger] plan@[page] == permissions(
                    segments@,
                    base,
                    page,
                    k as nat,
                ),
            info.load_page_count != 0,
            info.load_base != 0,
            info.load_page_count <= usize::MAX,
            image_base(segments@, segments@.len()) == Some(base),
        decreases segments.len() - k,
    {
        match plan_segment(info, segments, base, k, &mut plan) {
            Ok(_) => {},
            Err(error) => {
                proof {
                    lemma_conflict_stands(*info, base, (k + 1) as nat, segments@.len());
                }
                return Err(error);
            },
        }
        k += 1;
    }
    assert(plan@ =~= image_plan(*info, base));
    plan_runs(&plan, base, info.load_base)
}

/// What every run of pages has in common: it is not empty, lies in the image and starts at page
/// boundaries, and its pages may be used alike, but never both written and executed.
pub open spec fn proper_run(
    mapping: KernelPageMapping,
    plan: Seq<KernelPagePermissions>,
    base: u64,
    load_base: u64,
) -> bool {
    let first = (mapping.virt_start - base) / PAGE_SIZE as int;
    &&& mapping.page_count > 0
    &&& base <= mapping.virt_start
    &&& (mapping.virt_start - base) % PAGE_SIZE as int == 0
    &&& mapping.phys_start - load_base == mapping.virt_start - base
    &&& first + mapping.page_count <= plan.len()
    &&& forall|page: int|
        first <= page < first + mapping.page_count ==> #[trigger] plan[page] == (
        KernelPagePermissions {
            present: true,
            writable: mapping.writable,
            executable: mapping.executable,
        })
}

/// The page with this number lies in the run.
pub open spec fn run_holds(mapping: KernelPageMapping, base: u64, page: int) -> bool {
    let first = (mapping.virt_start - base) / PAGE_SIZE as int;
    first <= page < first + mapping.page_count
}

proof fn lemma_runs(plan: Seq<KernelPagePermissions>, i: int, base: u64, load_base: u64)
    requires
        0 <= i <= plan.len() <= usize::MAX,
    ensures
        runs_from(plan, i, base, load_base) matches Ok(runs) ==> {
            &&& forall|k: int|
                0 <= k < runs.len() ==> proper_run(#[trigger] runs[k], plan, base, load_base)
            &&& forall|page: int|
                #![trigger plan[page]]
                i <= page < plan.len() && plan[page].present ==> exists|k: int|
                    0 <= k < runs.len() && run_holds(#[trigger] runs[k], base, page)
        },
    decreases plan.len() - i,
{
    if i < plan.len() {
        if !plan[i].present {
            lemma_runs(plan, i + 1, base, load_base);
        } else {
            let end = run_end(plan, i, i + 1);
            lemma_run_end(plan, i, i + 1);
            lemma_runs(plan, end, base, load_base);
            if runs_from(plan, i, base, load_base) is Ok {
                let rest = runs_from(plan, end, base, load_base)->Ok_0;
                let runs = runs_from(plan, i, base, load_base)->Ok_0;
                let first = runs[0];
                assert((first.virt_start - base) / PAGE_SIZE as int == i);
                assert forall|page: int| i <= page < end implies #[trigger] plan[page] == plan[i] by {}
                assert(proper_run(first, plan, base, load_base));
                assert forall|k: int| 0 <= k < runs.len() implies proper_run(
                    #[trigger] runs[k],
                    plan,
                    base,
                    load_base,
                ) by {
                    if k > 0 {
                        assert(runs[k] == rest[k - 1]);
                    }
                }
                assert forall|page: int|
                    #![trigger plan[page]]
                    i <= page < plan.len() && plan[page].present implies exists|k: int|
                    0 <= k < runs.len() && run_holds(#[trigger] runs[k], base, page) by {
                    if page < end {
                        assert(run_holds(runs[0], base, page));
                    } else {
                        let k = choose|k: int|
                            0 <= k < rest.len() && run_holds(#[trigger] rest[k], base, page);
                        assert(run_holds(runs[k + 1], base, page));
                    }
                }
            }
        }
    }
}

/// A run of pages that has addresses where it is mapped has physical addresses too.
pub open spec fn run_fits(mapping: KernelPageMapping) -> bool {
    let bytes = mapping.page_count * PAGE_SIZE;
    mapping.virt_start + bytes <= u64::MAX ==> mapping.phys_start + bytes <= 0x1_0000_0000_0000_0000
}

/// All runs have physical addresses.
pub open spec fn runs_fit(mappings: Seq<KernelPageMapping>) -> bool {
    forall|k: int| 0 <= k < mappings.len() ==> run_fits(#[trigger] mappings[k])
}

/// Every page of the image that is mapped has a physical address.
pub open spec fn image_fits(info: KernelImageInfo) -> bool {
    image_mappings(info) matches Ok(mappings) ==> runs_fit(mappings)
}

/// Whether every page of the image that is mapped has a physical address.
pub fn kernel_image_fits(info: &KernelImageInfo) -> (fits: bool)
    ensures
        fits == image_fits(*info),
{
    let mappings = match kernel_page_mappings(info) {
        Ok(mappings) => mappings,
        Err(_) => return true,
    };
    let mut i: usize = 0;
    while i < mappings.len()
        invariant
            i <= mappings.len(),
            image_mappings(*info) == Ok::<Seq<KernelPageMapping>, VmError>(mappings@),
            forall|k: int| 0 <= k < i ==> run_fits(#[trigger] mappings@[k]),
        decreases mappings.len() - i,
    {
        let mapping = mappings[i];
        if let Some(bytes) = (mapping.page_count as u64).checked_mul(PAGE_SIZE) {
            if bytes > 0 && mapping.virt_start <= u64::MAX - bytes && mapping.phys_start > u64::MAX - (
            bytes - 1) {
                assert(!run_fits(mappings@[i as int]));
                assert(!runs_fit(mappings@));
                return false;
            }
        }
        assert(run_fits(mappings@[i as int]));
        i += 1;
    }
    true
}

/// An image without conflict has no page that may be both written and executed.
proof fn lemma_plan_is_strict(info: KernelImageInfo, base: u64, page: int, n: nat)
    requires
        n <= info.listed().len(),
        conflict(info, base, n) is None,
    ensures
        !(permissions(info.listed(), base, page, n).writable && permissions(
            info.listed(),
            base,
            page,
            n,
        ).executable),
    decreases n,
{
    let segments = info.listed();
    if n > 0 {
        lemma_plan_is_strict(info, base, page, (n - 1) as nat);
        lemma_permissions_step(segments, base, page, (n - 1) as nat);
        if takes_page(segments[n - 1], base, page) {
            assert(segment_conflict(info, base, (n - 1) as nat) is None);
        }
    }
}

/// No page of the kernel's image is mapped to be both written and executed, every page that a segment
/// takes is mapped, and each as its segments ask.
pub proof fn kernel_mappings_are_what_the_segments_ask(info: KernelImageInfo)
    requires
        image_mappings(info) is Ok,
        info.load_page_count != 0,
        info.load_base != 0,
    ensures
        image_base(info.listed(), info.listed().len()) matches Some(base) && {
            let runs = image_mappings(info)->Ok_0;
            let plan = image_plan(info, base);
            &&& forall|k: int|
                0 <= k < runs.len() ==> !((#[trigger] runs[k]).writable && runs[k].executable)
                    && proper_run(runs[k], plan, base, info.load_base)
            &&& forall|page: int|
                #![trigger plan[page]]
                0 <= page < plan.len() && plan[page].present ==> exists|k: int|
                    0 <= k < runs.len() && run_holds(#[trigger] runs[k], base, page)
        },
{
    let base = image_base(info.listed(), info.listed().len()).unwrap();
    let plan = image_plan(info, base);
    lemma_runs(plan, 0, base, info.load_base);
    let runs = image_mappings(info)->Ok_0;
    assert forall|k: int| 0 <= k < runs.len() implies !((#[trigger] runs[k]).writable
        && runs[k].executable) && proper_run(runs[k], plan, base, info.load_base) by {
        assert(proper_run(runs[k], plan, base, info.load_base));
        let first = (runs[k].virt_start - base) / PAGE_SIZE as int;
        assert(plan[first] == permissions(info.listed(), base, first, info.listed().len()));
        lemma_plan_is_strict(info, base, first, info.listed().len());
    }
}

} // verus!
