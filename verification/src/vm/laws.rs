//! What the address space promises as a whole.

use vstd::prelude::*;
use crate::bootinfo::{BootInfo, PAGE_SIZE, ReservedMemoryRange};
use crate::memory::laws::{
    among, an_allocation_hands_out_fresh_pages, an_allocation_keeps_the_order, extents_handed,
    regions_apart, taken,
};
use crate::memory::{
    allocation, fitting_extent, fitting_region, lemma_allocation_keeps, lemma_fitting_extent,
    lemma_fitting_region, AllocatorState,
};
use crate::vm::entry::{
    a_leaf_entry_says_what_it_maps, a_table_entry_leads_to_its_table, addressable, leaf_entry,
    lemma_zero_entry, page_number, present, table_entry, VmError, PHYSICAL_LIMIT,
};
use crate::vm::kernel::{image_mappings, kernel_mappings_are_what_the_segments_ask};
use crate::vm::manager::{
    boot_mapped, boot_steps, fixed_mapped, fresh_run_mapped, kernel_step, kernel_steps, low_window_mapped, reserved_steps,
    range_mapped, run_mapped, runs_mapped, steps_done, BootStep, BootTally, BootVmReport, Outcome, VmState,
    IDENTITY_BOOT_WINDOW_BYTES,
};
use crate::vm::gaps::{holes_of, window_gaps};
use crate::vm::tables::{
    entry_below, grown, leaf_mapped, lemma_table_at, lemma_table_found, linked, slot_of, table_at,
    table_map, table_with, translated, PageTable, PageTables, Space,
};

verus! {

/// Every table is at an address of its own, which an entry can hold.
pub open spec fn sound_tables(tables: Map<int, u64>) -> bool {
    &&& forall|key: int| #[trigger] tables.contains_key(key) ==> addressable(tables[key])
    &&& forall|a: int, b: int|
        #[trigger] tables.contains_key(a) && #[trigger] tables.contains_key(b) && tables[a]
            == tables[b] ==> a == b
}

/// Every table of an address space is at an address of its own, which an entry can hold.
pub open spec fn sound_space(space: Space) -> bool {
    &&& sound_tables(space.l3)
    &&& sound_tables(space.l2)
    &&& sound_tables(space.l1)
}

proof fn lemma_table_with(tables: Seq<PageTable>, phys: u64, i: int)
    requires
        0 <= i <= tables.len(),
    ensures
        match table_with(tables, phys, i) {
            Some(at) => i <= at < tables.len() && tables[at].page.phys_addr == phys,
            None => forall|j: int|
                i <= j < tables.len() ==> (#[trigger] tables[j]).page.phys_addr != phys,
        },
    decreases tables.len() - i,
{
    if i < tables.len() && tables[i].page.phys_addr != phys {
        lemma_table_with(tables, phys, i + 1);
    }
}

/// The entry of a table leads to that table and no other.
proof fn lemma_follow(tables: Seq<PageTable>, key: int, limit: int, slot: int)
    requires
        crate::vm::tables::keyed(tables, limit),
        sound_tables(table_map(tables)),
        table_map(tables).contains_key(key),
    ensures
        table_at(tables, key, 0) is Some,
        entry_below(tables, Some(table_entry(table_map(tables)[key])), slot) == {
            let entry = tables[table_at(tables, key, 0).unwrap()].page.entries@[slot];
            if present(entry) {
                Some(entry)
            } else {
                None
            }
        },
{
    let phys = table_map(tables)[key];
    let at = table_at(tables, key, 0).unwrap();
    lemma_table_at(tables, key, 0);
    a_table_entry_leads_to_its_table(phys);
    lemma_table_with(tables, phys, 0);
    assert(tables[at].page.phys_addr == phys);
    let found = table_with(tables, phys, 0).unwrap();
    lemma_table_found(tables, found);
    assert(table_map(tables).contains_key(tables[found].key as int));
    assert(table_map(tables)[tables[found].key as int] == phys);
    assert(found == at);
}

/// The processor finds the entry that a page is mapped by, and finds none for a page that is not
/// mapped.
pub proof fn a_walk_finds_the_mapping(tables: PageTables, virt: u64)
    requires
        tables.well_formed(),
        sound_space(tables.space()),
    ensures
        tables.walked(virt).3 == if tables.space().leaves.contains_key(page_number(virt)) {
            Some(tables.space().leaves[page_number(virt)])
        } else {
            None
        },
{
    let number = page_number(virt);
    let space = tables.space();
    let k3 = number / 0x800_0000;
    let k2 = number / 0x4_0000;
    let k1 = number / 512;
    let s3 = number / 0x4_0000 % 512;
    let s2 = number / 512 % 512;
    let s1 = number % 512;
    assert(k2 / 512 == k3 && k2 % 512 == s3 && k2 == k3 * 512 + s3);
    assert(k1 / 512 == k2 && k1 % 512 == s2 && k1 == k2 * 512 + s2);
    assert(0 <= k3 < 512);
    lemma_zero_entry();
    assert(tables.root.entries@[k3] == if space.l3.contains_key(0 * 512 + k3) {
        table_entry(space.l3[0 * 512 + k3])
    } else {
        0
    });
    if space.l3.contains_key(k3) {
        a_table_entry_leads_to_its_table(space.l3[k3]);
        lemma_follow(tables.l3_tables@, k3, 512, s3);
        let at = table_at(tables.l3_tables@, k3, 0).unwrap();
        lemma_table_at(tables.l3_tables@, k3, 0);
        assert(linked(
            tables.l3_tables@[at].page.entries@,
            tables.l3_tables@[at].key as int,
            space.l2,
        ));
        assert(tables.l3_tables@[at].page.entries@[s3] == if space.l2.contains_key(k3 * 512 + s3) {
            table_entry(space.l2[k3 * 512 + s3])
        } else {
            0
        });
        if space.l2.contains_key(k2) {
            a_table_entry_leads_to_its_table(space.l2[k2]);
            lemma_follow(tables.l2_tables@, k2, 0x4_0000, s2);
            let at = table_at(tables.l2_tables@, k2, 0).unwrap();
            lemma_table_at(tables.l2_tables@, k2, 0);
            assert(linked(
                tables.l2_tables@[at].page.entries@,
                tables.l2_tables@[at].key as int,
                space.l1,
            ));
            assert(tables.l2_tables@[at].page.entries@[s2] == if space.l1.contains_key(
                k2 * 512 + s2,
            ) {
                table_entry(space.l1[k2 * 512 + s2])
            } else {
                0
            });
            if space.l1.contains_key(k1) {
                a_table_entry_leads_to_its_table(space.l1[k1]);
                lemma_follow(tables.l1_tables@, k1, 0x800_0000, s1);
            }
        }
    }
    if space.leaves.contains_key(number) {
        assert(slot_of(tables.l1_tables@, number) is Some);
        assert(space.l1.contains_key(k1));
        assert(space.l2.contains_key(k1 / 512));
        assert(space.l3.contains_key(k2 / 512));
    }
}

/// Every region that pages are handed out of lies where an entry can lead.
pub open spec fn within_reach(memory: AllocatorState) -> bool {
    forall|i: int|
        0 <= i < memory.regions.len() ==> (#[trigger] memory.regions[i]).end() <= PHYSICAL_LIMIT
}

/// Every table is a page that is allocated.
pub open spec fn backed(tables: Map<int, u64>, memory: AllocatorState) -> bool {
    forall|key: int| #[trigger] tables.contains_key(key) ==> taken(memory, tables[key] as int)
}

/// Memory is in order: regions have no byte in common and lie where an entry can lead, and nothing
/// has come back but what was handed out.
pub open spec fn orderly(memory: AllocatorState) -> bool {
    &&& memory.well_formed()
    &&& regions_apart(memory.regions)
    &&& extents_handed(memory)
    &&& within_reach(memory)
}

/// All tables of an address space are sound, and pages that are allocated.
pub open spec fn in_order(space: Space, memory: AllocatorState) -> bool {
    &&& orderly(memory)
    &&& sound_space(space)
    &&& backed(space.l3, memory)
    &&& backed(space.l2, memory)
    &&& backed(space.l1, memory)
}

/// A page that is handed out is allocated, and lies where an entry can lead.
proof fn lemma_fresh_page(memory: AllocatorState)
    requires
        orderly(memory),
    ensures
        orderly(allocation(memory, 1).0),
        allocation(memory, 1) matches (next, Some(phys)) ==> {
            &&& addressable(phys)
            &&& !taken(memory, phys as int)
            &&& taken(next, phys as int)
            &&& forall|page: int| #[trigger] taken(memory, page) ==> taken(next, page)
        },
{
    let (next, given) = allocation(memory, 1);
    lemma_allocation_keeps(memory, 1);
    an_allocation_keeps_the_order(memory, 1);
    lemma_fitting_extent(memory.extents, 1, 0);
    lemma_fitting_region(memory.regions, 1, 0);
    assert forall|i: int| 0 <= i < next.regions.len() implies (#[trigger] next.regions[i]).end()
        <= PHYSICAL_LIMIT by {
        assert(memory.regions[i].end() <= PHYSICAL_LIMIT);
    }
    if given is Some {
        let phys = given.unwrap();
        match fitting_extent(memory.extents, 1, 0) {
            Some(i) => {
                assert(memory.extents[i].sound());
            },
            None => {
                let i = fitting_region(memory.regions, 1, 0).unwrap();
                assert(memory.regions[i].sound());
            },
        }
        assert(phys % PAGE_SIZE == 0);
        assert(among(phys as int, phys, 1));
        an_allocation_hands_out_fresh_pages(memory, 1, phys as int);
        let end = phys + PAGE_SIZE;
        let i = choose|i: int|
            0 <= i < next.regions.len() && (#[trigger] next.regions[i]).start <= phys && end
                <= next.regions[i].handed_end();
        assert(next.regions[i].sound());
        assert(next.regions[i].end() <= PHYSICAL_LIMIT);
        assert forall|page: int| #[trigger] taken(memory, page) implies taken(next, page) by {
            an_allocation_hands_out_fresh_pages(memory, 1, page);
        }
    }
}

/// A table that is made is in order with the others.
proof fn lemma_grown(tables: Map<int, u64>, key: int, memory: AllocatorState)
    requires
        orderly(memory),
        sound_tables(tables),
        backed(tables, memory),
    ensures
        grown(tables, key, memory) matches Some((next, after)) ==> {
            &&& orderly(after)
            &&& sound_tables(next)
            &&& backed(next, after)
            &&& forall|page: int| #[trigger] taken(memory, page) ==> taken(after, page)
        },
{
    lemma_fresh_page(memory);
    if !tables.contains_key(key) && allocation(memory, 1).1 is Some {
        let (after, given) = allocation(memory, 1);
        let phys = given.unwrap();
        let next = tables.insert(key, phys);
        assert forall|a: int| #[trigger] next.contains_key(a) implies addressable(next[a]) && taken(
            after,
            next[a] as int,
        ) by {
            if a != key {
                assert(tables.contains_key(a));
            }
        }
        assert forall|a: int, b: int|
            #[trigger] next.contains_key(a) && #[trigger] next.contains_key(b) && next[a]
                == next[b] implies a == b by {
            if a != key {
                assert(tables.contains_key(a));
                assert(taken(memory, tables[a] as int));
            }
            if b != key {
                assert(tables.contains_key(b));
                assert(taken(memory, tables[b] as int));
            }
        }
    }
}

proof fn lemma_still_backed(tables: Map<int, u64>, memory: AllocatorState, after: AllocatorState)
    requires
        backed(tables, memory),
        forall|page: int| #[trigger] taken(memory, page) ==> taken(after, page),
    ensures
        backed(tables, after),
{
    assert forall|key: int| #[trigger] tables.contains_key(key) implies taken(
        after,
        tables[key] as int,
    ) by {
        assert(taken(memory, tables[key] as int));
    }
}

/// However a page is mapped, the tables stay in order: each at an address of its own, in a page that
/// is allocated.
pub proof fn mapping_keeps_the_tables_in_order(
    space: Space,
    memory: AllocatorState,
    number: int,
    entry: u64,
)
    requires
        in_order(space, memory),
    ensures
        in_order(
            leaf_mapped(space, memory, number, entry).space,
            leaf_mapped(space, memory, number, entry).memory,
        ),
        forall|page: int| #[trigger]
            taken(memory, page) ==> taken(leaf_mapped(space, memory, number, entry).memory, page),
{
    reveal(leaf_mapped);
    lemma_grown(space.l3, number / 0x800_0000, memory);
    match grown(space.l3, number / 0x800_0000, memory) {
        None => {},
        Some((l3, memory3)) => {
            lemma_still_backed(space.l2, memory, memory3);
            lemma_still_backed(space.l1, memory, memory3);
            lemma_grown(space.l2, number / 0x4_0000, memory3);
            match grown(space.l2, number / 0x4_0000, memory3) {
                None => {},
                Some((l2, memory2)) => {
                    lemma_still_backed(l3, memory3, memory2);
                    lemma_still_backed(space.l1, memory3, memory2);
                    lemma_grown(space.l1, number / 512, memory2);
                    match grown(space.l1, number / 512, memory2) {
                        None => {},
                        Some((l1, memory1)) => {
                            lemma_still_backed(l3, memory2, memory1);
                            lemma_still_backed(l2, memory2, memory1);
                        },
                    }
                },
            }
        },
    }
}

/// A page that was mapped is mapped by its entry, and every other page is as it was.
pub proof fn a_mapping_changes_no_other(space: Space, memory: AllocatorState, number: int, entry: u64)
    ensures
        ({
            let mapped = leaf_mapped(space, memory, number, entry);
            &&& mapped.result is Ok ==> mapped.space.leaves == space.leaves.insert(number, entry)
            &&& mapped.result is Err ==> mapped.space.leaves == space.leaves
        }),
{
    reveal(leaf_mapped);
    let mapped = leaf_mapped(space, memory, number, entry);
    if mapped.result == Ok::<bool, VmError>(false) {
        assert(space.leaves =~= space.leaves.insert(number, entry));
    }
}

/// The pages of a run that was mapped have the entries that were asked for; the number of a page
/// tells it apart from all pages of the run.
pub proof fn a_run_maps_its_pages(
    space: Space,
    memory: AllocatorState,
    virt: u64,
    phys: u64,
    writable: bool,
    executable: bool,
    n: nat,
    i: nat,
)
    requires
        i < n,
        virt % PAGE_SIZE == 0,
        virt + n * PAGE_SIZE <= u64::MAX,
        n <= 0x10_0000_0000,
    ensures
        ({
            let run = run_mapped(
                space,
                memory,
                virt as int,
                phys as int,
                writable,
                executable,
                n,
            );
            let number = page_number((virt + i * PAGE_SIZE) as u64);
            run.result is Ok ==> run.space.leaves.contains_key(number) && run.space.leaves[number]
                == leaf_entry((phys + i * PAGE_SIZE) as u64, writable, executable)
        }),
    decreases n,
{
    let before = run_mapped(
        space,
        memory,
        virt as int,
        phys as int,
        writable,
        executable,
        (n - 1) as nat,
    );
    if before.result is Ok {
        let last = (virt + (n - 1) * PAGE_SIZE) as u64;
        let entry = leaf_entry((phys + (n - 1) * PAGE_SIZE) as u64, writable, executable);
        a_mapping_changes_no_other(before.space, before.memory, page_number(last), entry);
        if i < n - 1 {
            a_run_maps_its_pages(
                space,
                memory,
                virt,
                phys,
                writable,
                executable,
                (n - 1) as nat,
                i,
            );
            let other = (virt + i * PAGE_SIZE) as u64;
            assert(page_number(other) != page_number(last));
        }
    }
}

/// An address in a page that is mapped leads to the same place in the page it is mapped to.
pub proof fn a_mapped_address_translates(
    tables: PageTables,
    virt: u64,
    phys: u64,
    writable: bool,
    executable: bool,
)
    requires
        tables.well_formed(),
        sound_space(tables.space()),
        addressable(phys),
        tables.space().leaves.contains_key(page_number(virt)),
        tables.space().leaves[page_number(virt)] == leaf_entry(phys, writable, executable),
    ensures
        tables.walked(virt).3 matches Some(entry) && translated(entry, virt) == phys + virt % 0x1000,
{
    a_walk_finds_the_mapping(tables, virt);
    a_leaf_entry_says_what_it_maps(phys, writable, executable);
}

/// The steps before those for the kernel's image count nothing for it.
proof fn lemma_reserved_steps_tally(
    ranges: Seq<crate::bootinfo::ReservedMemoryRange>,
    n: nat,
    k: int,
)
    requires
        0 <= k < reserved_steps(ranges, n).len(),
    ensures
        reserved_steps(ranges, n)[k] matches BootStep::MapPages { tally, .. } ==> tally
            != BootTally::Kernel,
    decreases n,
{
    if n > 0 && k < reserved_steps(ranges, (n - 1) as nat).len() {
        lemma_reserved_steps_tally(ranges, (n - 1) as nat, k);
    }
}

/// A step that makes no page of the kernel's image both writable and executable.
pub open spec fn strict_step(step: BootStep) -> bool {
    step matches BootStep::MapPages { writable, executable, tally, .. } ==> !(writable && executable
        && tally == BootTally::Kernel)
}

proof fn lemma_steps_are_strict(start: Outcome<BootVmReport>, steps: Seq<BootStep>, n: nat)
    requires
        n <= steps.len(),
        forall|k: int| 0 <= k < steps.len() ==> strict_step(#[trigger] steps[k]),
        start.result matches Ok(report) ==> report.kernel_wx_pages == 0,
    ensures
        steps_done(start, steps, n).result matches Ok(report) ==> report.kernel_wx_pages == 0,
    decreases n,
{
    if n > 0 {
        lemma_steps_are_strict(start, steps, (n - 1) as nat);
        assert(strict_step(steps[n - 1]));
    }
}

/// However the kernel's image is laid out, preparing the address space leaves no page of it both
/// writable and executable.
pub proof fn no_kernel_page_is_written_and_executed(
    state: VmState,
    memory: AllocatorState,
    boot_info: BootInfo,
    stack_pointer: u64,
)
    ensures
        boot_mapped(state, memory, boot_info, stack_pointer).result matches Ok(report)
            ==> report.kernel_wx_pages == 0,
{
    let steps = boot_steps(boot_info, stack_pointer);
    let ranges = boot_info.ranges();
    let reserved = reserved_steps(ranges, ranges.len());
    let image = image_mappings(boot_info.kernel_image);
    let last = kernel_steps(image);
    assert forall|k: int| 0 <= k < steps.len() implies strict_step(#[trigger] steps[k]) by {
        if 2 <= k < 2 + reserved.len() {
            assert(steps[k] == reserved[k - 2]);
            lemma_reserved_steps_tally(ranges, ranges.len(), k - 2);
        } else if k >= 2 + reserved.len() {
            let at = k - 2 - reserved.len();
            assert(steps[k] == last[at]);
            if image is Ok {
                let info = boot_info.kernel_image;
                assert(image->Ok_0.len() > 0);
                kernel_mappings_are_what_the_segments_ask(info);
                assert(last[at] == kernel_step(image->Ok_0[at]));
            }
        }
    }
    lemma_steps_are_strict(
        low_window_mapped(state, memory, boot_info),
        steps,
        steps.len(),
    );
}

/// Whether a step shows no memory through the window that could be executed.
pub open spec fn window_not_executed(step: BootStep) -> bool {
    match step {
        BootStep::MapPages { executable, tally, .. } => tally == BootTally::Window ==> !executable,
        BootStep::Fail(_) => true,
    }
}

proof fn lemma_reserved_windows(ranges: Seq<ReservedMemoryRange>, n: nat, k: int)
    requires
        n <= ranges.len(),
        0 <= k < reserved_steps(ranges, n).len(),
    ensures
        window_not_executed(reserved_steps(ranges, n)[k]),
    decreases n,
{
    if n > 0 {
        let before = reserved_steps(ranges, (n - 1) as nat);
        if k < before.len() {
            lemma_reserved_windows(ranges, (n - 1) as nat, k);
            assert(reserved_steps(ranges, n)[k] == before[k]);
        }
    }
}

/// The window onto physical memory is not executable: no step of the preparation maps a page of it so.
pub proof fn the_window_is_not_executed(boot_info: BootInfo, stack_pointer: u64, k: int)
    requires
        0 <= k < boot_steps(boot_info, stack_pointer).len(),
    ensures
        window_not_executed(boot_steps(boot_info, stack_pointer)[k]),
{
    let steps = boot_steps(boot_info, stack_pointer);
    let ranges = boot_info.ranges();
    let reserved = reserved_steps(ranges, ranges.len());
    let image = image_mappings(boot_info.kernel_image);
    let last = kernel_steps(image);
    if 2 <= k < 2 + reserved.len() {
        assert(steps[k] == reserved[k - 2]);
        lemma_reserved_windows(ranges, ranges.len(), k - 2);
    } else if k >= 2 + reserved.len() {
        let at = k - 2 - reserved.len();
        assert(steps[k] == last[at]);
        if image is Ok {
            assert(last[at] == kernel_step(image->Ok_0[at]));
        }
    }
}

/// Two address spaces have the same root, and are in use or not alike.
pub open spec fn same_root(a: VmState, b: VmState) -> bool {
    a.initialized == b.initialized && a.active == b.active && a.root == b.root
}

proof fn lemma_runs_keep_the_root(
    state: VmState,
    memory: AllocatorState,
    runs: Seq<(u64, u64)>,
    writable: bool,
    executable: bool,
    n: nat,
)
    ensures
        same_root(runs_mapped(state, memory, runs, writable, executable, n).state, state),
    decreases n,
{
    if n > 0 {
        lemma_runs_keep_the_root(state, memory, runs, writable, executable, (n - 1) as nat);
    }
}

proof fn lemma_steps_keep_the_root(start: Outcome<BootVmReport>, steps: Seq<BootStep>, n: nat)
    ensures
        same_root(steps_done(start, steps, n).state, start.state),
    decreases n,
{
    if n > 0 {
        lemma_steps_keep_the_root(start, steps, (n - 1) as nat);
    }
}

/// Preparing the address space changes neither its root nor whether it is in use.
pub proof fn preparing_keeps_the_root(
    state: VmState,
    memory: AllocatorState,
    boot_info: BootInfo,
    stack_pointer: u64,
)
    ensures
        same_root(boot_mapped(state, memory, boot_info, stack_pointer).state, state),
{
    let segments = boot_info.kernel_image.listed();
    let left = window_gaps(
        0,
        IDENTITY_BOOT_WINDOW_BYTES,
        holes_of(segments, 0, IDENTITY_BOOT_WINDOW_BYTES, segments.len()),
    );
    lemma_runs_keep_the_root(state, memory, left, true, true, left.len());
    let steps = boot_steps(boot_info, stack_pointer);
    lemma_steps_keep_the_root(low_window_mapped(state, memory, boot_info), steps, steps.len());
}

/// The page `number` is mapped to a page that was not allocated before and is now, with these rights.
pub open spec fn freshly_mapped(
    space: Space,
    before: AllocatorState,
    after: AllocatorState,
    number: int,
    phys: u64,
    writable: bool,
    executable: bool,
) -> bool {
    &&& addressable(phys)
    &&& !taken(before, phys as int)
    &&& taken(after, phys as int)
    &&& space.leaves.contains_key(number)
    &&& space.leaves[number] == leaf_entry(phys, writable, executable)
}

/// The pages that the first `n` pages of a run are mapped to.
spec fn fresh_pages(
    space: Space,
    memory: AllocatorState,
    virt: int,
    writable: bool,
    executable: bool,
    n: nat,
) -> Seq<u64>
    decreases n,
{
    if n == 0 {
        seq![]
    } else {
        let before = fresh_run_mapped(space, memory, virt, writable, executable, (n - 1) as nat);
        fresh_pages(space, memory, virt, writable, executable, (n - 1) as nat).push(
            allocation(before.memory, 1).1.unwrap(),
        )
    }
}

#[verifier::spinoff_prover]
#[verifier::rlimit(40)]
proof fn lemma_fresh_run(
    space: Space,
    memory: AllocatorState,
    virt: u64,
    writable: bool,
    executable: bool,
    n: nat,
)
    requires
        in_order(space, memory),
        virt % PAGE_SIZE == 0,
        virt + n * PAGE_SIZE <= u64::MAX,
        n <= 0x10_0000_0000,
    ensures
        ({
            let run = fresh_run_mapped(space, memory, virt as int, writable, executable, n);
            let pages = fresh_pages(space, memory, virt as int, writable, executable, n);
            &&& in_order(run.space, run.memory)
            &&& forall|page: int| #[trigger] taken(memory, page) ==> taken(run.memory, page)
            &&& pages.len() == n
            &&& run.result is Ok ==> forall|i: int|
                0 <= i < n ==> freshly_mapped(
                    run.space,
                    memory,
                    run.memory,
                    page_number((virt + i * PAGE_SIZE) as u64),
                    #[trigger] pages[i],
                    writable,
                    executable,
                )
            &&& run.result is Ok ==> forall|i: int, j: int|
                0 <= i < j < n ==> #[trigger] pages[i] != #[trigger] pages[j]
        }),
    decreases n,
{
    if n > 0 {
        let m = (n - 1) as nat;
        lemma_fresh_run(space, memory, virt, writable, executable, m);
        let before = fresh_run_mapped(space, memory, virt as int, writable, executable, m);
        let earlier = fresh_pages(space, memory, virt as int, writable, executable, m);
        let pages = fresh_pages(space, memory, virt as int, writable, executable, n);
        let run = fresh_run_mapped(space, memory, virt as int, writable, executable, n);
        lemma_fresh_page(before.memory);
        let (next, given) = allocation(before.memory, 1);
        if before.result is Ok && given is Some {
            let phys = given.unwrap();
            let last = page_number((virt + m * PAGE_SIZE) as u64);
            let entry = leaf_entry(phys, writable, executable);
            lemma_still_backed(before.space.l3, before.memory, next);
            lemma_still_backed(before.space.l2, before.memory, next);
            lemma_still_backed(before.space.l1, before.memory, next);
            mapping_keeps_the_tables_in_order(before.space, next, last, entry);
            a_mapping_changes_no_other(before.space, next, last, entry);
            if run.result is Ok {
                assert forall|i: int| 0 <= i < n implies freshly_mapped(
                    run.space,
                    memory,
                    run.memory,
                    page_number((virt + i * PAGE_SIZE) as u64),
                    #[trigger] pages[i],
                    writable,
                    executable,
                ) by {
                    if i < m {
                        assert(pages[i] == earlier[i]);
                        assert(freshly_mapped(
                            before.space,
                            memory,
                            before.memory,
                            page_number((virt + i * PAGE_SIZE) as u64),
                            earlier[i],
                            writable,
                            executable,
                        ));
                        assert(page_number((virt + i * PAGE_SIZE) as u64) != last);
                    }
                }
                assert forall|i: int, j: int| 0 <= i < j < n implies #[trigger] pages[i]
                    != #[trigger] pages[j] by {
                    assert(pages[i] == earlier[i]);
                    if j < m {
                        assert(pages[j] == earlier[j]);
                    } else {
                        assert(taken(before.memory, earlier[i] as int));
                    }
                }
            }
        }
    }
}

/// Pages that are mapped to be written or executed are so, and no other way, and each is a page that was
/// free before and that no other shares: the processor, walking the tables that were left, finds for
/// every page of the run an entry that is present, that can be written if and only if that was asked,
/// that can be executed if and only if that was asked, and that leads to a page of its own.
#[verifier::spinoff_prover]
pub proof fn a_mapped_range_is_what_was_asked(
    state: VmState,
    memory: AllocatorState,
    virt: u64,
    pages: u64,
    writable: bool,
    executable: bool,
    tables: PageTables,
    i: int,
    j: int,
)
    requires
        in_order(state.space, memory),
        pages <= 0x10_0000_0000,
        range_mapped(state, memory, virt, pages, writable, executable).result is Ok,
        tables.well_formed(),
        tables.space() == range_mapped(state, memory, virt, pages, writable, executable).state.space,
        0 <= i < pages,
        0 <= j < pages,
    ensures
        ({
            let done = range_mapped(state, memory, virt, pages, writable, executable);
            let walked = |k: int| tables.walked((virt + k * 4096) as u64).3;
            &&& walked(i) matches Some(entry) && {
                &&& entry & 1 == 1
                &&& (entry & 2 == 2) == writable
                &&& (entry & 0x8000_0000_0000_0000 == 0) == executable
                &&& !taken(memory, (entry & 0x000f_ffff_ffff_f000) as int)
                &&& taken(done.memory, (entry & 0x000f_ffff_ffff_f000) as int)
            }
            &&& i != j ==> walked(i).unwrap() & 0x000f_ffff_ffff_f000 != walked(j).unwrap()
                & 0x000f_ffff_ffff_f000
            &&& done.result matches Ok(mapping) && {
                &&& mapping.virt_start == virt
                &&& mapping.writable == writable
                &&& mapping.executable == executable
                &&& mapping.phys_start == walked(0).unwrap() & 0x000f_ffff_ffff_f000
            }
        }),
{
    let done = range_mapped(state, memory, virt, pages, writable, executable);
    let n = pages as nat;
    lemma_fresh_run(state.space, memory, virt, writable, executable, n);
    let run = fresh_run_mapped(state.space, memory, virt as int, writable, executable, n);
    let given = fresh_pages(state.space, memory, virt as int, writable, executable, n);
    assert forall|k: int| 0 <= k < n implies {
        let entry = leaf_entry(#[trigger] given[k], writable, executable);
        &&& tables.walked((virt + k * 4096) as u64).3 == Some(entry)
        &&& entry & 0x000f_ffff_ffff_f000 == given[k]
        &&& entry & 1 == 1
        &&& (entry & 2 == 2) == writable
        &&& (entry & 0x8000_0000_0000_0000 == 0) == executable
    } by {
        let at = (virt + k * 4096) as u64;
        assert(freshly_mapped(
            run.space,
            memory,
            run.memory,
            page_number((virt + k * PAGE_SIZE) as u64),
            given[k],
            writable,
            executable,
        ));
        a_walk_finds_the_mapping(tables, at);
        a_leaf_entry_says_what_it_maps(given[k], writable, executable);
        let entry = leaf_entry(given[k], writable, executable);
        assert((entry & 1 == 1) == (entry & 1 != 0)) by (bit_vector);
        assert((entry & 2 == 2) == (entry & 2 != 0)) by (bit_vector);
    }
    let _ = given[i];
    let _ = given[j];
    lemma_first_fresh_page(state.space, memory, virt as int, writable, executable, n);
    let _ = given[0];
}

proof fn lemma_first_fresh_page(
    space: Space,
    memory: AllocatorState,
    virt: int,
    writable: bool,
    executable: bool,
    n: nat,
)
    requires
        n > 0,
    ensures
        fresh_pages(space, memory, virt, writable, executable, n).len() == n,
        fresh_pages(space, memory, virt, writable, executable, n)[0] == allocation(
            memory,
            1,
        ).1.unwrap(),
    decreases n,
{
    if n > 1 {
        lemma_first_fresh_page(space, memory, virt, writable, executable, (n - 1) as nat);
    } else {
        reveal_with_fuel(fresh_pages, 2);
        reveal_with_fuel(fresh_run_mapped, 2);
    }
}

/// Pages that are mapped to given ones are so, with the rights that were asked: the processor finds for
/// every page of the run an entry that is present, that can be written if and only if that was asked,
/// that can be executed if and only if that was asked, and that leads to the page that was given.
#[verifier::spinoff_prover]
pub proof fn a_fixed_range_is_what_was_asked(
    state: VmState,
    memory: AllocatorState,
    virt: u64,
    phys: u64,
    pages: u64,
    writable: bool,
    executable: bool,
    tables: PageTables,
    i: int,
)
    requires
        in_order(state.space, memory),
        pages <= 0x10_0000_0000,
        fixed_mapped(state, memory, virt, phys, pages, writable, executable).result is Ok,
        tables.well_formed(),
        tables.space() == fixed_mapped(
            state,
            memory,
            virt,
            phys,
            pages,
            writable,
            executable,
        ).state.space,
        phys + pages * PAGE_SIZE <= PHYSICAL_LIMIT,
        0 <= i < pages,
    ensures
        tables.walked((virt + i * 4096) as u64).3 matches Some(entry) && {
            &&& entry & 1 == 1
            &&& (entry & 2 == 2) == writable
            &&& (entry & 0x8000_0000_0000_0000 == 0) == executable
            &&& entry & 0x000f_ffff_ffff_f000 == phys + i * 4096
        },
{
    let n = pages as nat;
    let at = (virt + i * 4096) as u64;
    let page = (phys + i * 4096) as u64;
    lemma_run_in_order(state.space, memory, virt as int, phys as int, writable, executable, n);
    a_run_maps_its_pages(state.space, memory, virt, phys, writable, executable, n, i as nat);
    lemma_walked_leaf(tables, at, page, writable, executable);
}

/// What the processor finds of a page that is mapped.
proof fn lemma_walked_leaf(
    tables: PageTables,
    at: u64,
    page: u64,
    writable: bool,
    executable: bool,
)
    requires
        tables.well_formed(),
        sound_space(tables.space()),
        addressable(page),
        tables.space().leaves.contains_key(page_number(at)),
        tables.space().leaves[page_number(at)] == leaf_entry(page, writable, executable),
    ensures
        tables.walked(at).3 matches Some(entry) && {
            &&& entry & 1 == 1
            &&& (entry & 2 == 2) == writable
            &&& (entry & 0x8000_0000_0000_0000 == 0) == executable
            &&& entry & 0x000f_ffff_ffff_f000 == page
        },
{
    a_walk_finds_the_mapping(tables, at);
    a_leaf_entry_says_what_it_maps(page, writable, executable);
    let entry = leaf_entry(page, writable, executable);
    assert((entry & 1 == 1) == (entry & 1 != 0)) by (bit_vector);
    assert((entry & 2 == 2) == (entry & 2 != 0)) by (bit_vector);
}

/// Mapping a run of pages leaves every page alone that is not of the run.
#[verifier::spinoff_prover]
pub proof fn a_fixed_range_leaves_others_alone(
    state: VmState,
    memory: AllocatorState,
    virt: u64,
    phys: u64,
    pages: u64,
    writable: bool,
    executable: bool,
    tables: PageTables,
    other: u64,
)
    requires
        in_order(state.space, memory),
        pages <= 0x10_0000_0000,
        fixed_mapped(state, memory, virt, phys, pages, writable, executable).result is Ok,
        tables.well_formed(),
        tables.space() == fixed_mapped(
            state,
            memory,
            virt,
            phys,
            pages,
            writable,
            executable,
        ).state.space,
        forall|k: int|
            0 <= k < pages ==> other as int / 4096 % 0x10_0000_0000 != #[trigger] ((virt as int / 4096
                + k) % 0x10_0000_0000),
    ensures
        tables.walked(other).3 == if state.space.leaves.contains_key(
            other as int / 4096 % 0x10_0000_0000,
        ) {
            Some(state.space.leaves[other as int / 4096 % 0x10_0000_0000])
        } else {
            None
        },
{
    let n = pages as nat;
    lemma_run_in_order(state.space, memory, virt as int, phys as int, writable, executable, n);
    if pages != 0 {
        lemma_run_elsewhere(
            state.space,
            memory,
            virt,
            phys,
            writable,
            executable,
            n,
            page_number(other),
        );
    }
    a_walk_finds_the_mapping(tables, other);
}

proof fn lemma_run_in_order(
    space: Space,
    memory: AllocatorState,
    virt: int,
    phys: int,
    writable: bool,
    executable: bool,
    n: nat,
)
    requires
        in_order(space, memory),
    ensures
        ({
            let run = run_mapped(space, memory, virt, phys, writable, executable, n);
            in_order(run.space, run.memory)
        }),
    decreases n,
{
    if n > 0 {
        let m = (n - 1) as nat;
        lemma_run_in_order(space, memory, virt, phys, writable, executable, m);
        let before = run_mapped(space, memory, virt, phys, writable, executable, m);
        let offset = (n - 1) * PAGE_SIZE;
        mapping_keeps_the_tables_in_order(
            before.space,
            before.memory,
            page_number((virt + offset) as u64),
            leaf_entry((phys + offset) as u64, writable, executable),
        );
    }
}

proof fn lemma_run_elsewhere(
    space: Space,
    memory: AllocatorState,
    virt: u64,
    phys: u64,
    writable: bool,
    executable: bool,
    n: nat,
    number: int,
)
    requires
        virt % PAGE_SIZE == 0,
        virt + n * PAGE_SIZE <= u64::MAX,
        forall|k: int|
            0 <= k < n ==> number != #[trigger] ((virt as int / 4096 + k) % 0x10_0000_0000),
    ensures
        ({
            let run = run_mapped(space, memory, virt as int, phys as int, writable, executable, n);
            &&& run.space.leaves.contains_key(number) == space.leaves.contains_key(number)
            &&& run.space.leaves.contains_key(number) ==> run.space.leaves[number]
                == space.leaves[number]
        }),
    decreases n,
{
    if n > 0 {
        let m = (n - 1) as nat;
        lemma_run_elsewhere(space, memory, virt, phys, writable, executable, m, number);
        let before = run_mapped(space, memory, virt as int, phys as int, writable, executable, m);
        let offset = (n - 1) * PAGE_SIZE;
        let last = (virt + offset) as u64;
        assert(last as int / 4096 == virt as int / 4096 + (n - 1));
        assert(page_number(last) == (virt as int / 4096 + (n - 1)) % 0x10_0000_0000);
        a_mapping_changes_no_other(
            before.space,
            before.memory,
            page_number(last),
            leaf_entry((phys + offset) as u64, writable, executable),
        );
    }
}

} // verus!
