//! The four levels of page tables, as the kernel keeps them before it writes them to memory.

use vstd::prelude::*;
use crate::memory::{allocation, AllocatorState, PhysicalPageAllocator};
use crate::vm::entry::{
    entry_address, is_present, leads_to, lemma_zero_entry, make_table_entry, page_number, present,
    split_indices, table_entry, VmError, PAGE_TABLE_ENTRIES,
};

verus! {

/// One page table, and where in memory it belongs.
pub struct PageTablePage {
    pub phys_addr: u64,
    pub entries: [u64; PAGE_TABLE_ENTRIES],
}

/// A page table below the root. Its key is the number of the entry that leads to it, counted over all
/// tables of the level above.
pub struct PageTable {
    pub key: u64,
    pub page: PageTablePage,
}

/// All page tables of an address space.
pub struct PageTables {
    pub root: PageTablePage,
    pub l3_tables: Vec<PageTable>,
    pub l2_tables: Vec<PageTable>,
    pub l1_tables: Vec<PageTable>,
    /// Whether the tables have been written to memory as they are.
    pub committed: bool,
}

/// An address space: where the tables of each level are by their keys, and the entries of the pages
/// that are mapped by their numbers.
#[verifier::ext_equal]
pub ghost struct Space {
    pub l3: Map<int, u64>,
    pub l2: Map<int, u64>,
    pub l1: Map<int, u64>,
    pub leaves: Map<int, u64>,
}

/// An address space without tables.
pub open spec fn empty_space() -> Space {
    Space { l3: Map::empty(), l2: Map::empty(), l1: Map::empty(), leaves: Map::empty() }
}

/// The first table from `i` on with this key.
pub open spec fn table_at(tables: Seq<PageTable>, key: int, i: int) -> Option<int>
    decreases tables.len() - i,
{
    if i < 0 || i >= tables.len() {
        None
    } else if tables[i].key == key {
        Some(i)
    } else {
        table_at(tables, key, i + 1)
    }
}

/// Where the tables are by their keys.
pub open spec fn table_map(tables: Seq<PageTable>) -> Map<int, u64> {
    Map::new(
        |key: int| table_at(tables, key, 0) is Some,
        |key: int| tables[table_at(tables, key, 0).unwrap()].page.phys_addr,
    )
}

/// The entry of page `number`, and whether there is a table for it at all.
pub open spec fn slot_of(tables: Seq<PageTable>, number: int) -> Option<u64> {
    match table_at(tables, number / 512, 0) {
        Some(i) => Some(tables[i].page.entries@[number % 512]),
        None => None,
    }
}

/// The entries of the pages that are mapped.
pub open spec fn leaf_map(tables: Seq<PageTable>) -> Map<int, u64> {
    Map::new(
        |number: int|
            slot_of(tables, number) is Some && present(slot_of(tables, number).unwrap()),
        |number: int| slot_of(tables, number).unwrap(),
    )
}

/// No two tables have the same key, and all keys are below `limit`.
pub open spec fn keyed(tables: Seq<PageTable>, limit: int) -> bool {
    &&& forall|i: int| 0 <= i < tables.len() ==> (#[trigger] tables[i]).key < limit
    &&& forall|i: int, j: int|
        0 <= i < tables.len() && 0 <= j < tables.len() && (#[trigger] tables[i]).key == (
        #[trigger] tables[j]).key ==> i == j
}

/// The entries of the table with this key lead to the tables below, and nowhere else.
pub open spec fn linked(entries: Seq<u64>, key: int, below: Map<int, u64>) -> bool {
    forall|j: int|
        0 <= j < 512 ==> #[trigger] entries[j] == if below.contains_key(key * 512 + j) {
            table_entry(below[key * 512 + j])
        } else {
            0
        }
}

/// The entries of every table lead to the tables below, and nowhere else.
pub open spec fn all_linked(tables: Seq<PageTable>, below: Map<int, u64>) -> bool {
    forall|i: int|
        0 <= i < tables.len() ==> linked(
            (#[trigger] tables[i]).page.entries@,
            tables[i].key as int,
            below,
        )
}

/// Every table has a table above it.
pub open spec fn parented(below: Map<int, u64>, above: Map<int, u64>) -> bool {
    forall|key: int| #[trigger] below.contains_key(key) ==> above.contains_key(key / 512)
}

/// The tables with one for `key`, which takes a page if it has to be made.
pub open spec fn grown(tables: Map<int, u64>, key: int, memory: AllocatorState) -> Option<
    (Map<int, u64>, AllocatorState),
> {
    if tables.contains_key(key) {
        Some((tables, memory))
    } else {
        match allocation(memory, 1) {
            (next, Some(phys)) => Some((tables.insert(key, phys), next)),
            (_, None) => None,
        }
    }
}

/// What became of a request to map a page or more.
#[verifier::ext_equal]
pub ghost struct Mapped<T> {
    pub space: Space,
    pub memory: AllocatorState,
    pub result: Result<T, VmError>,
}

/// Maps page `number` by `entry`. The tables that lead to it are made first; a page that is mapped
/// otherwise stays so.
#[verifier::opaque]
pub open spec fn leaf_mapped(space: Space, memory: AllocatorState, number: int, entry: u64) -> Mapped<
    bool,
> {
    let full = Err(VmError::OutOfPhysicalPages);
    match grown(space.l3, number / 0x800_0000, memory) {
        None => Mapped { space, memory, result: full },
        Some((l3, memory)) => match grown(space.l2, number / 0x4_0000, memory) {
            None => Mapped { space: Space { l3, ..space }, memory, result: full },
            Some((l2, memory)) => match grown(space.l1, number / 512, memory) {
                None => Mapped { space: Space { l3, l2, ..space }, memory, result: full },
                Some((l1, memory)) => {
                    let space = Space { l3, l2, l1, ..space };
                    if !space.leaves.contains_key(number) {
                        Mapped {
                            space: Space { leaves: space.leaves.insert(number, entry), ..space },
                            memory,
                            result: Ok(true),
                        }
                    } else if space.leaves[number] == entry {
                        Mapped { space, memory, result: Ok(false) }
                    } else {
                        Mapped { space, memory, result: Err(VmError::AlreadyMapped) }
                    }
                },
            },
        },
    }
}

/// The first table from `i` on that is at `phys`.
pub open spec fn table_with(tables: Seq<PageTable>, phys: u64, i: int) -> Option<int>
    decreases tables.len() - i,
{
    if i < 0 || i >= tables.len() {
        None
    } else if tables[i].page.phys_addr == phys {
        Some(i)
    } else {
        table_with(tables, phys, i + 1)
    }
}

/// The entry that the table to which `above` leads has at `slot`, if there is such a table and the
/// entry leads anywhere.
pub open spec fn entry_below(tables: Seq<PageTable>, above: Option<u64>, slot: int) -> Option<u64> {
    match above {
        None => None,
        Some(entry) => match table_with(tables, leads_to(entry), 0) {
            None => None,
            Some(i) => if present(tables[i].page.entries@[slot]) {
                Some(tables[i].page.entries@[slot])
            } else {
                None
            },
        },
    }
}

/// What the processor finds on its way to an address.
#[derive(Debug, Clone, Copy)]
pub struct PageWalk {
    pub virt: u64,
    pub indices: [u16; 4],
    pub l4_entry: Option<u64>,
    pub l3_entry: Option<u64>,
    pub l2_entry: Option<u64>,
    pub l1_entry: Option<u64>,
    pub phys: Option<u64>,
}

impl PageTablePage {
    /// A table at `phys_addr` whose entries lead nowhere.
    pub fn new(phys_addr: u64) -> (page: PageTablePage)
        ensures
            page.phys_addr == phys_addr,
            forall|j: int| 0 <= j < 512 ==> #[trigger] page.entries@[j] == 0,
    {
        PageTablePage { phys_addr, entries: [0;PAGE_TABLE_ENTRIES] }
    }
}

/// The first table with this key is one of them.
pub proof fn lemma_table_at(tables: Seq<PageTable>, key: int, i: int)
    requires
        0 <= i <= tables.len(),
    ensures
        match table_at(tables, key, i) {
            Some(at) => i <= at < tables.len() && tables[at].key == key,
            None => forall|j: int| i <= j < tables.len() ==> (#[trigger] tables[j]).key != key,
        },
    decreases tables.len() - i,
{
    if i < tables.len() && tables[i].key != key {
        lemma_table_at(tables, key, i + 1);
    }
}

/// A table of its own key is found under it.
pub proof fn lemma_table_found(tables: Seq<PageTable>, at: int)
    requires
        0 <= at < tables.len(),
        forall|j: int|
            0 <= j < tables.len() && (#[trigger] tables[j]).key == tables[at].key ==> j == at,
    ensures
        table_at(tables, tables[at].key as int, 0) == Some(at),
{
    lemma_table_at(tables, tables[at].key as int, 0);
}

/// A table that is added under a new key is found under it, and the others as before.
pub proof fn lemma_table_added(tables: Seq<PageTable>, table: PageTable, key: int)
    requires
        table_at(tables, table.key as int, 0) is None,
    ensures
        table_at(tables.push(table), key, 0) == if key == table.key {
            Some(tables.len() as int)
        } else {
            table_at(tables, key, 0)
        },
{
    let more = tables.push(table);
    lemma_table_at(tables, key, 0);
    lemma_table_at(tables, table.key as int, 0);
    lemma_table_at(more, key, 0);
    let found = table_at(more, key, 0);
    if found is Some && found.unwrap() < tables.len() {
        lemma_first_agrees(tables, more, key, 0);
    } else if table_at(tables, key, 0) is Some {
        lemma_first_agrees(tables, more, key, 0);
    } else if key == table.key {
        assert(more[tables.len() as int].key == key);
    }
}

/// Tables that agree on their keys as far as the first one with `key` have it at the same place.
proof fn lemma_first_agrees(a: Seq<PageTable>, b: Seq<PageTable>, key: int, i: int)
    requires
        0 <= i <= a.len() <= b.len(),
        forall|j: int| 0 <= j < a.len() ==> (#[trigger] a[j]).key == b[j].key,
    ensures
        table_at(a, key, i) is Some ==> table_at(b, key, i) == table_at(a, key, i),
        table_at(b, key, i) matches Some(at) && at < a.len() ==> table_at(a, key, i) == table_at(
            b,
            key,
            i,
        ),
    decreases a.len() - i,
{
    lemma_table_at(b, key, i);
    if i < a.len() && a[i].key != key {
        lemma_first_agrees(a, b, key, i + 1);
    }
}

/// The index of the table with this key.
fn find_table(tables: &Vec<PageTable>, key: u64) -> (found: Option<usize>)
    ensures
        match found {
            Some(i) => table_at(tables@, key as int, 0) == Some(i as int) && i < tables@.len(),
            None => table_at(tables@, key as int, 0) is None,
        },
{
    let mut i: usize = 0;
    while i < tables.len()
        invariant
            i <= tables.len(),
            table_at(tables@, key as int, 0) == table_at(tables@, key as int, i as int),
        decreases tables.len() - i,
    {
        if tables[i].key == key {
            return Some(i);
        }
        i += 1;
    }
    None
}

/// The index of the table at `phys`.
fn find_page(tables: &Vec<PageTable>, phys: u64) -> (found: Option<usize>)
    ensures
        match found {
            Some(i) => table_with(tables@, phys, 0) == Some(i as int) && i < tables@.len(),
            None => table_with(tables@, phys, 0) is None,
        },
{
    let mut i: usize = 0;
    while i < tables.len()
        invariant
            i <= tables.len(),
            table_with(tables@, phys, 0) == table_with(tables@, phys, i as int),
        decreases tables.len() - i,
    {
        if tables[i].page.phys_addr == phys {
            return Some(i);
        }
        i += 1;
    }
    None
}

/// The entry that the table to which `above` leads has at `slot`, if there is such a table and the
/// entry leads anywhere.
fn follow(tables: &Vec<PageTable>, above: Option<u64>, slot: u16) -> (entry: Option<u64>)
    requires
        slot < 512,
    ensures
        entry == entry_below(tables@, above, slot as int),
{
    match above {
        None => None,
        Some(entry) => match find_page(tables, entry_address(entry)) {
            None => None,
            Some(i) => {
                let below: u64 = tables[i].page.entries[slot as usize];
                if is_present(below) {
                    Some(below)
                } else {
                    None
                }
            },
        },
    }
}

impl PageTables {
    /// The address space that the tables describe.
    pub open spec fn space(&self) -> Space {
        Space {
            l3: table_map(self.l3_tables@),
            l2: table_map(self.l2_tables@),
            l1: table_map(self.l1_tables@),
            leaves: leaf_map(self.l1_tables@),
        }
    }

    /// Every table is where the entry of its key leads, entries lead to nothing else, and every table
    /// can be reached from the root.
    pub open spec fn well_formed(&self) -> bool {
        &&& keyed(self.l3_tables@, 512)
        &&& keyed(self.l2_tables@, 0x4_0000)
        &&& keyed(self.l1_tables@, 0x800_0000)
        &&& linked(self.root.entries@, 0, self.space().l3)
        &&& all_linked(self.l3_tables@, self.space().l2)
        &&& all_linked(self.l2_tables@, self.space().l1)
        &&& parented(self.space().l2, self.space().l3)
        &&& parented(self.space().l1, self.space().l2)
    }

    /// A root at `phys_addr` and no table below it.
    pub fn new(phys_addr: u64) -> (tables: PageTables)
        ensures
            tables.well_formed(),
            tables.root.phys_addr == phys_addr,
            tables.space() == empty_space(),
            !tables.committed,
            tables.l3_tables@.len() == 0,
            tables.l2_tables@.len() == 0,
            tables.l1_tables@.len() == 0,
    {
        let tables = PageTables {
            root: PageTablePage::new(phys_addr),
            l3_tables: Vec::new(),
            l2_tables: Vec::new(),
            l1_tables: Vec::new(),
            committed: false,
        };
        assert(tables.space() =~= empty_space());
        tables
    }

    /// How many tables there are.
    pub open spec fn count(&self) -> int {
        1int + self.l3_tables@.len() + self.l2_tables@.len() + self.l1_tables@.len()
    }

    /// The table of the third level for `key`, which is made if there is none.
    fn get_or_create_l3(&mut self, key: u64, memory: &mut PhysicalPageAllocator) -> (result: Result<
        usize,
        VmError,
    >)
        requires
            old(self).well_formed(),
            old(memory).well_formed(),
            key < 512,
        ensures
            final(self).well_formed(),
            final(memory).well_formed(),
            final(self).root.phys_addr == old(self).root.phys_addr,
            final(self).committed == (old(self).committed && final(self).space() == old(self).space()),
            match grown(old(self).space().l3, key as int, old(memory)@) {
                Some((l3, next)) => {
                    &&& result matches Ok(at)
                    &&& at < final(self).l3_tables@.len()
                    &&& final(self).l3_tables@[at as int].key == key
                    &&& final(self).space() == (Space { l3, ..old(self).space() })
                    &&& final(memory)@ == next
                },
                None => {
                    &&& result matches Err(error)
                    &&& error == VmError::OutOfPhysicalPages
                    &&& final(self).space() == old(self).space()
                    &&& final(memory)@ == old(memory)@
                },
            },
    {
        let ghost before = *self;
        match find_table(&self.l3_tables, key) {
            Some(at) => {
                proof {
                    lemma_table_at(self.l3_tables@, key as int, 0);
                    assert(self.space().l3.contains_key(key as int));
                }
                return Ok(at);
            },
            None => {},
        }
        assert(!self.space().l3.contains_key(key as int));
        let phys: u64 = match memory.allocate_page() {
            Some(phys) => phys,
            None => return Err(VmError::OutOfPhysicalPages),
        };
        self.root.entries[key as usize] = make_table_entry(phys);
        self.committed = false;
        let table = PageTable { key, page: PageTablePage::new(phys) };
        self.l3_tables.push(table);
        proof {
            lemma_table_at(before.l3_tables@, key as int, 0);
            lemma_map_added(before.l3_tables@, table);
            assert(self.space().l3 =~= before.space().l3.insert(key as int, phys));
            assert(self.space().l3.contains_key(key as int));
            assert(all_linked(self.l3_tables@, self.space().l2)) by {
                assert forall|i: int| 0 <= i < self.l3_tables@.len() implies linked(
                    (#[trigger] self.l3_tables@[i]).page.entries@,
                    self.l3_tables@[i].key as int,
                    self.space().l2,
                ) by {
                    if i < before.l3_tables@.len() {
                        assert(self.l3_tables@[i] == before.l3_tables@[i]);
                    } else {
                        lemma_no_children(before.space().l2, before.space().l3, key as int);
                    }
                }
            }
        }
        Ok(self.l3_tables.len() - 1)
    }

    /// The table of the second level for `key`, which is made if there is none; `above` is the table
    /// that leads to it.
    fn get_or_create_l2(
        &mut self,
        key: u64,
        above: usize,
        memory: &mut PhysicalPageAllocator,
    ) -> (result: Result<usize, VmError>)
        requires
            old(self).well_formed(),
            old(memory).well_formed(),
            key < 0x4_0000,
            above < old(self).l3_tables@.len(),
            old(self).l3_tables@[above as int].key == key / 512,
        ensures
            final(self).well_formed(),
            final(memory).well_formed(),
            final(self).root.phys_addr == old(self).root.phys_addr,
            final(self).committed == (old(self).committed && final(self).space() == old(self).space()),
            match grown(old(self).space().l2, key as int, old(memory)@) {
                Some((l2, next)) => {
                    &&& result matches Ok(at)
                    &&& at < final(self).l2_tables@.len()
                    &&& final(self).l2_tables@[at as int].key == key
                    &&& final(self).space() == (Space { l2, ..old(self).space() })
                    &&& final(memory)@ == next
                },
                None => {
                    &&& result matches Err(error)
                    &&& error == VmError::OutOfPhysicalPages
                    &&& final(self).space() == old(self).space()
                    &&& final(memory)@ == old(memory)@
                },
            },
    {
        let ghost before = *self;
        match find_table(&self.l2_tables, key) {
            Some(at) => {
                proof {
                    lemma_table_at(self.l2_tables@, key as int, 0);
                    assert(self.space().l2.contains_key(key as int));
                }
                return Ok(at);
            },
            None => {},
        }
        assert(!self.space().l2.contains_key(key as int));
        let phys: u64 = match memory.allocate_page() {
            Some(phys) => phys,
            None => return Err(VmError::OutOfPhysicalPages),
        };
        self.l3_tables[above].page.entries[(key % 512) as usize] = make_table_entry(phys);
        self.committed = false;
        let table = PageTable { key, page: PageTablePage::new(phys) };
        self.l2_tables.push(table);
        proof {
            lemma_table_at(before.l2_tables@, key as int, 0);
            lemma_map_added(before.l2_tables@, table);
            assert(self.space().l2 =~= before.space().l2.insert(key as int, phys));
            assert(self.space().l2.contains_key(key as int));
            lemma_map_kept(before.l3_tables@, self.l3_tables@);
            lemma_child_linked(
                before.l3_tables@,
                self.l3_tables@,
                above as int,
                before.space().l2,
                key as int,
                phys,
            );
            assert(all_linked(self.l2_tables@, self.space().l1)) by {
                assert forall|i: int| 0 <= i < self.l2_tables@.len() implies linked(
                    (#[trigger] self.l2_tables@[i]).page.entries@,
                    self.l2_tables@[i].key as int,
                    self.space().l1,
                ) by {
                    if i < before.l2_tables@.len() {
                        assert(self.l2_tables@[i] == before.l2_tables@[i]);
                    } else {
                        lemma_no_children(before.space().l1, before.space().l2, key as int);
                    }
                }
            }
            lemma_table_found(before.l3_tables@, above as int);
            assert(before.space().l3.contains_key(key as int / 512));
        }
        Ok(self.l2_tables.len() - 1)
    }

    /// The table of the first level for `key`, which is made if there is none; `above` is the table
    /// that leads to it.
    fn get_or_create_l1(
        &mut self,
        key: u64,
        above: usize,
        memory: &mut PhysicalPageAllocator,
    ) -> (result: Result<usize, VmError>)
        requires
            old(self).well_formed(),
            old(memory).well_formed(),
            key < 0x800_0000,
            above < old(self).l2_tables@.len(),
            old(self).l2_tables@[above as int].key == key / 512,
        ensures
            final(self).well_formed(),
            final(memory).well_formed(),
            final(self).root.phys_addr == old(self).root.phys_addr,
            final(self).committed == (old(self).committed && final(self).space() == old(self).space()),
            match grown(old(self).space().l1, key as int, old(memory)@) {
                Some((l1, next)) => {
                    &&& result matches Ok(at)
                    &&& at < final(self).l1_tables@.len()
                    &&& final(self).l1_tables@[at as int].key == key
                    &&& final(self).space() == (Space { l1, ..old(self).space() })
                    &&& final(memory)@ == next
                },
                None => {
                    &&& result matches Err(error)
                    &&& error == VmError::OutOfPhysicalPages
                    &&& final(self).space() == old(self).space()
                    &&& final(memory)@ == old(memory)@
                },
            },
    {
        let ghost before = *self;
        match find_table(&self.l1_tables, key) {
            Some(at) => {
                proof {
                    lemma_table_at(self.l1_tables@, key as int, 0);
                    assert(self.space().l1.contains_key(key as int));
                }
                return Ok(at);
            },
            None => {},
        }
        assert(!self.space().l1.contains_key(key as int));
        let phys: u64 = match memory.allocate_page() {
            Some(phys) => phys,
            None => return Err(VmError::OutOfPhysicalPages),
        };
        self.l2_tables[above].page.entries[(key % 512) as usize] = make_table_entry(phys);
        self.committed = false;
        let table = PageTable { key, page: PageTablePage::new(phys) };
        self.l1_tables.push(table);
        proof {
            lemma_table_at(before.l1_tables@, key as int, 0);
            lemma_map_added(before.l1_tables@, table);
            assert(self.space().l1 =~= before.space().l1.insert(key as int, phys));
            assert(self.space().l1.contains_key(key as int));
            lemma_map_kept(before.l2_tables@, self.l2_tables@);
            lemma_child_linked(
                before.l2_tables@,
                self.l2_tables@,
                above as int,
                before.space().l1,
                key as int,
                phys,
            );
            lemma_leaves_kept(before.l1_tables@, table);
            lemma_table_found(before.l2_tables@, above as int);
            assert(before.space().l2.contains_key(key as int / 512));
        }
        Ok(self.l1_tables.len() - 1)
    }

    /// Maps the page of `virt` by `entry`, and says whether it was not mapped before.
    pub fn ensure_leaf_mapping(&mut self, virt: u64, entry: u64, memory: &mut PhysicalPageAllocator) -> (
    result: Result<bool, VmError>)
        requires
            old(self).well_formed(),
            old(memory).well_formed(),
            present(entry),
        ensures
            final(self).well_formed(),
            final(memory).well_formed(),
            final(self).root.phys_addr == old(self).root.phys_addr,
            final(self).committed == (old(self).committed && final(self).space() == old(self).space()),
            leaf_mapped(old(self).space(), old(memory)@, page_number(virt), entry) == (Mapped {
                space: final(self).space(),
                memory: final(memory)@,
                result,
            }),
    {
        proof {
            reveal(leaf_mapped);
        }
        let number: u64 = virt / 0x1000 % 0x10_0000_0000;
        assert(number == page_number(virt));
        let l3_index: usize = match self.get_or_create_l3(number / 0x800_0000, memory) {
            Ok(index) => index,
            Err(error) => return Err(error),
        };
        let l2_index: usize = match self.get_or_create_l2(number / 0x4_0000, l3_index, memory) {
            Ok(index) => index,
            Err(error) => return Err(error),
        };
        let l1_index: usize = match self.get_or_create_l1(number / 512, l2_index, memory) {
            Ok(index) => index,
            Err(error) => return Err(error),
        };
        let slot: usize = (number % 512) as usize;
        let existing: u64 = self.l1_tables[l1_index].page.entries[slot];
        let ghost before = *self;
        proof {
            lemma_table_found(self.l1_tables@, l1_index as int);
            assert(slot_of(self.l1_tables@, number as int) == Some(existing));
        }
        if is_present(existing) {
            assert(self.space().leaves.contains_key(number as int));
            if existing == entry {
                return Ok(false);
            }
            return Err(VmError::AlreadyMapped);
        }
        assert(!self.space().leaves.contains_key(number as int));
        self.l1_tables[l1_index].page.entries[slot] = entry;
        self.committed = false;
        proof {
            lemma_map_kept(before.l1_tables@, self.l1_tables@);
            lemma_leaf_added(
                before.l1_tables@,
                self.l1_tables@,
                l1_index as int,
                number as int,
                entry,
            );
            assert(self.space().leaves.contains_key(number as int));
        }
        Ok(true)
    }

    /// What the processor finds on its way to `virt`.
    pub open spec fn walked(&self, virt: u64) -> (Option<u64>, Option<u64>, Option<u64>, Option<u64>) {
        let number = page_number(virt);
        let first = self.root.entries@[number / 0x800_0000];
        let l4 = if present(first) {
            Some(first)
        } else {
            None
        };
        let l3 = entry_below(self.l3_tables@, l4, number / 0x4_0000 % 512);
        let l2 = entry_below(self.l2_tables@, l3, number / 512 % 512);
        let l1 = entry_below(self.l1_tables@, l2, number % 512);
        (l4, l3, l2, l1)
    }

    /// Follows the tables to `virt` as the processor does.
    pub fn walk(&self, virt: u64) -> (walk: PageWalk)
        ensures
            walk.virt == virt,
            walk.indices@[0] == page_number(virt) / 0x800_0000,
            walk.indices@[1] == page_number(virt) / 0x4_0000 % 512,
            walk.indices@[2] == page_number(virt) / 512 % 512,
            walk.indices@[3] == page_number(virt) % 512,
            (walk.l4_entry, walk.l3_entry, walk.l2_entry, walk.l1_entry) == self.walked(virt),
            walk.phys == match self.walked(virt).3 {
                Some(entry) => Some(translated(entry, virt)),
                None => None,
            },
    {
        let indices = split_indices(virt);
        let first: u64 = self.root.entries[indices[0] as usize];
        let l4_entry: Option<u64> = if is_present(first) {
            Some(first)
        } else {
            None
        };
        let l3_entry = follow(&self.l3_tables, l4_entry, indices[1]);
        let l2_entry = follow(&self.l2_tables, l3_entry, indices[2]);
        let l1_entry = follow(&self.l1_tables, l2_entry, indices[3]);
        let phys: Option<u64> = match l1_entry {
            Some(entry) => Some(entry_address(entry).saturating_add(virt % 0x1000)),
            None => None,
        };
        PageWalk { virt, indices, l4_entry, l3_entry, l2_entry, l1_entry, phys }
    }

    /// Where `virt` leads.
    pub fn translate(&self, virt: u64) -> (phys: Option<u64>)
        ensures
            phys == match self.walked(virt).3 {
                Some(entry) => Some(translated(entry, virt)),
                None => None,
            },
    {
        self.walk(virt).phys
    }
}

/// The address in the page that `entry` leads to.
pub open spec fn translated(entry: u64, virt: u64) -> u64 {
    crate::bootinfo::capped(leads_to(entry) + virt % 0x1000)
}

/// A table that is added under a new key adds to the map.
proof fn lemma_map_added(tables: Seq<PageTable>, table: PageTable)
    requires
        table_at(tables, table.key as int, 0) is None,
    ensures
        table_map(tables.push(table)) == table_map(tables).insert(
            table.key as int,
            table.page.phys_addr,
        ),
{
    let more = tables.push(table);
    assert forall|key: int| table_at(more, key, 0) == if key == table.key {
        Some(tables.len() as int)
    } else {
        #[trigger] table_at(tables, key, 0)
    } by {
        lemma_table_added(tables, table, key);
    }
    assert forall|key: int| #[trigger] table_at(tables, key, 0) is Some implies 0 <= table_at(
        tables,
        key,
        0,
    ).unwrap() < tables.len() by {
        lemma_table_at(tables, key, 0);
    }
    assert forall|key: int| #![trigger table_at(more, key, 0)] table_at(more, key, 0) == if key == table.key {
        Some(tables.len() as int)
    } else {
        table_at(tables, key, 0)
    } by {
        lemma_table_added(tables, table, key);
    }
    assert(table_map(more) =~= table_map(tables).insert(table.key as int, table.page.phys_addr));
}

/// Changing entries moves no table.
proof fn lemma_map_kept(a: Seq<PageTable>, b: Seq<PageTable>)
    requires
        a.len() == b.len(),
        forall|i: int|
            0 <= i < a.len() ==> (#[trigger] a[i]).key == b[i].key && a[i].page.phys_addr
                == b[i].page.phys_addr,
    ensures
        table_map(a) == table_map(b),
{
    assert forall|key: int| #![trigger table_at(a, key, 0)] table_at(a, key, 0) == table_at(b, key, 0) by {
        lemma_table_at(a, key, 0);
        lemma_table_at(b, key, 0);
        lemma_first_agrees(a, b, key, 0);
    }
    assert forall|key: int| #![trigger table_at(b, key, 0)] table_at(a, key, 0) == table_at(b, key, 0)
        && (table_at(a, key, 0) matches Some(i) ==> 0 <= i < a.len()) by {
        lemma_table_at(a, key, 0);
        lemma_table_at(b, key, 0);
        lemma_first_agrees(a, b, key, 0);
    }
    assert(table_map(a) =~= table_map(b));
}

/// A table that does not exist has no tables below it.
proof fn lemma_no_children(below: Map<int, u64>, above: Map<int, u64>, key: int)
    requires
        parented(below, above),
        !above.contains_key(key),
    ensures
        forall|j: int| 0 <= j < 512 ==> !#[trigger] below.contains_key(key * 512 + j),
{
    assert forall|j: int| 0 <= j < 512 implies !#[trigger] below.contains_key(key * 512 + j) by {
        assert((key * 512 + j) / 512 == key);
    }
}

/// Entering a new table into the one above keeps all entries right.
proof fn lemma_child_linked(
    a: Seq<PageTable>,
    b: Seq<PageTable>,
    above: int,
    below: Map<int, u64>,
    key: int,
    phys: u64,
)
    requires
        0 <= above < a.len(),
        a.len() == b.len(),
        0 <= key,
        keyed(a, 0x1_0000_0000),
        all_linked(a, below),
        a[above].key == key / 512,
        forall|i: int| 0 <= i < a.len() && i != above ==> #[trigger] b[i] == a[i],
        b[above].key == a[above].key,
        b[above].page.entries@ == a[above].page.entries@.update(key % 512, table_entry(phys)),
    ensures
        all_linked(b, below.insert(key, phys)),
{
    let more = below.insert(key, phys);
    assert forall|i: int| 0 <= i < b.len() implies linked(
        (#[trigger] b[i]).page.entries@,
        b[i].key as int,
        more,
    ) by {
        assert(linked(a[i].page.entries@, a[i].key as int, below));
        let base = a[i].key as int;
        assert forall|j: int| 0 <= j < 512 implies #[trigger] b[i].page.entries@[j]
            == if more.contains_key(base * 512 + j) {
            table_entry(more[base * 512 + j])
        } else {
            0
        } by {
            assert(a[i].page.entries@[j] == if below.contains_key(base * 512 + j) {
                table_entry(below[base * 512 + j])
            } else {
                0
            });
            if base * 512 + j == key {
                assert(key / 512 == base && key % 512 == j);
                assert(i == above);
            }
        }
    }
}

/// A new table without entries maps no page.
proof fn lemma_leaves_kept(tables: Seq<PageTable>, table: PageTable)
    requires
        table_at(tables, table.key as int, 0) is None,
        forall|j: int| 0 <= j < 512 ==> #[trigger] table.page.entries@[j] == 0,
    ensures
        leaf_map(tables.push(table)) == leaf_map(tables),
{
    let more = tables.push(table);
    lemma_zero_entry();
    assert forall|number: int|
        #![trigger slot_of(more, number)]
        (slot_of(more, number) is Some && present(slot_of(more, number).unwrap())) == (slot_of(
            tables,
            number,
        ) is Some && present(slot_of(tables, number).unwrap())) && (slot_of(
            tables,
            number,
        ) is Some ==> slot_of(more, number) == slot_of(tables, number)) by {
        lemma_table_added(tables, table, number / 512);
        lemma_table_at(tables, number / 512, 0);
        lemma_table_at(tables, table.key as int, 0);
    }
    assert(leaf_map(more) =~= leaf_map(tables));
}

/// Entering a page into a table maps it, and no other.
proof fn lemma_leaf_added(a: Seq<PageTable>, b: Seq<PageTable>, at: int, number: int, entry: u64)
    requires
        0 <= at < a.len(),
        a.len() == b.len(),
        0 <= number,
        keyed(a, 0x800_0000),
        a[at].key == number / 512,
        forall|i: int| 0 <= i < a.len() && i != at ==> #[trigger] b[i] == a[i],
        b[at].key == a[at].key,
        b[at].page.entries@ == a[at].page.entries@.update(number % 512, entry),
        present(entry),
    ensures
        leaf_map(b) == leaf_map(a).insert(number, entry),
{
    assert forall|other: int|
        #![trigger slot_of(b, other)]
        slot_of(b, other) == if other == number {
            Some(entry)
        } else {
            slot_of(a, other)
        } by {
        lemma_table_at(a, other / 512, 0);
        lemma_table_at(b, other / 512, 0);
        lemma_first_agrees(a, b, other / 512, 0);
        lemma_table_found(a, at);
        if other != number && other / 512 == number / 512 {
            assert(other % 512 != number % 512);
        }
    }
    assert forall|other: int|
        #![trigger slot_of(a, other)]
        slot_of(b, other) == if other == number {
            Some(entry)
        } else {
            slot_of(a, other)
        } by {}
    assert(leaf_map(b) =~= leaf_map(a).insert(number, entry));
}

/// Whatever is in `before` is in `after` too.
pub open spec fn extends(before: Space, after: Space) -> bool {
    &&& before.l3.submap_of(after.l3)
    &&& before.l2.submap_of(after.l2)
    &&& before.l1.submap_of(after.l1)
    &&& before.leaves.submap_of(after.leaves)
}

/// Mapping a page takes nothing away.
pub proof fn lemma_leaf_extends(space: Space, memory: AllocatorState, number: int, entry: u64)
    ensures
        extends(space, leaf_mapped(space, memory, number, entry).space),
{
    reveal(leaf_mapped);
}

} // verus!
