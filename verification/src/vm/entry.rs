//! Entries of page tables, and how an address is split among them.

use vstd::prelude::*;
use crate::bootinfo::PAGE_SIZE;

verus! {

pub const PAGE_TABLE_ENTRIES: usize = 512;

pub const ADDRESS_MASK: u64 = 0x000f_ffff_ffff_f000;

pub const ENTRY_PRESENT: u64 = 1;

pub const ENTRY_WRITABLE: u64 = 2;

pub const ENTRY_NO_EXECUTE: u64 = 0x8000_0000_0000_0000;

pub const HIGH_HALF_DIRECT_MAP_BASE: u64 = 0xffff_8000_0000_0000;

/// The end of what an entry can address.
pub const PHYSICAL_LIMIT: u64 = 0x0010_0000_0000_0000;

/// Why memory cannot be mapped.
#[derive(Debug, Clone, Copy, PartialEq, Eq, Structural)]
pub enum VmError {
    FirmwareServicesActive,
    NotInitialized,
    InvalidPageCount,
    UnalignedVirtualAddress,
    UnalignedPhysicalAddress,
    BootIdentityConflict,
    BootStackConflict,
    BootWindowConflict,
    ReservedIdentityConflict,
    ReservedWindowConflict,
    KernelImageConflict,
    KernelWritableExecutable,
    AddressOverflow,
    AlreadyMapped,
    OutOfPhysicalPages,
}

/// The entry for a table at `phys`.
pub open spec fn table_entry(phys: u64) -> u64 {
    (phys & ADDRESS_MASK) | ENTRY_PRESENT | ENTRY_WRITABLE
}

/// The entry for a page at `phys`.
pub open spec fn leaf_entry(phys: u64, writable: bool, executable: bool) -> u64 {
    ((phys & ADDRESS_MASK) | ENTRY_PRESENT) | (if writable {
        ENTRY_WRITABLE
    } else {
        0
    }) | (if executable {
        0
    } else {
        ENTRY_NO_EXECUTE
    })
}

/// Whether an entry leads anywhere.
pub open spec fn present(entry: u64) -> bool {
    entry & ENTRY_PRESENT != 0
}

/// Where an entry leads.
pub open spec fn leads_to(entry: u64) -> u64 {
    entry & ADDRESS_MASK
}

/// Whether an entry can hold the address of what is at `phys`.
pub open spec fn addressable(phys: u64) -> bool {
    phys % PAGE_SIZE == 0 && phys < PHYSICAL_LIMIT
}

/// The entry for a table leads to it.
pub proof fn a_table_entry_leads_to_its_table(phys: u64)
    ensures
        present(table_entry(phys)),
        addressable(phys) ==> leads_to(table_entry(phys)) == phys,
{
    assert(((phys & 0x000f_ffff_ffff_f000u64) | 1 | 2) & 1 != 0) by (bit_vector);
    assert(phys % 4096 == 0 && phys < 0x0010_0000_0000_0000u64 ==> ((phys & 0x000f_ffff_ffff_f000u64)
        | 1 | 2) & 0x000f_ffff_ffff_f000u64 == phys) by (bit_vector);
}

/// The entry for a page leads to it, and says whether it can be written and executed.
pub proof fn a_leaf_entry_says_what_it_maps(phys: u64, writable: bool, executable: bool)
    ensures
        present(leaf_entry(phys, writable, executable)),
        addressable(phys) ==> leads_to(leaf_entry(phys, writable, executable)) == phys,
        (leaf_entry(phys, writable, executable) & ENTRY_WRITABLE != 0) == writable,
        (leaf_entry(phys, writable, executable) & ENTRY_NO_EXECUTE == 0) == executable,
{
    let w: u64 = if writable {
        2
    } else {
        0
    };
    let x: u64 = if executable {
        0
    } else {
        0x8000_0000_0000_0000
    };
    let entry = ((phys & 0x000f_ffff_ffff_f000u64) | 1) | w | x;
    assert(entry & 1 != 0 && (phys % 4096 == 0 && phys < 0x0010_0000_0000_0000u64 ==> entry
        & 0x000f_ffff_ffff_f000u64 == phys) && entry & 2 == w && entry & 0x8000_0000_0000_0000u64
        == x) by (bit_vector)
        requires
            entry == ((phys & 0x000f_ffff_ffff_f000u64) | 1) | w | x,
            w == 0 || w == 2,
            x == 0 || x == 0x8000_0000_0000_0000u64,
    ;
}

/// The entry zero leads nowhere.
pub proof fn lemma_zero_entry()
    ensures
        !present(0),
{
    assert(0u64 & 1 == 0) by (bit_vector);
}

/// The number of the page that an address is in, as far as page tables tell pages apart.
pub open spec fn page_number(virt: u64) -> int {
    virt as int / 0x1000 % 0x10_0000_0000
}

/// The entry for a table at `phys`.
pub fn make_table_entry(phys: u64) -> (entry: u64)
    ensures
        entry == table_entry(phys),
{
    (phys & ADDRESS_MASK) | ENTRY_PRESENT | ENTRY_WRITABLE
}

/// The entry for a page at `phys`.
pub fn make_leaf_entry(phys: u64, writable: bool, executable: bool) -> (entry: u64)
    ensures
        entry == leaf_entry(phys, writable, executable),
{
    let write: u64 = if writable {
        ENTRY_WRITABLE
    } else {
        0
    };
    let execute: u64 = if executable {
        0
    } else {
        ENTRY_NO_EXECUTE
    };
    ((phys & ADDRESS_MASK) | ENTRY_PRESENT) | write | execute
}

/// Whether an entry leads anywhere.
pub fn is_present(entry: u64) -> (result: bool)
    ensures
        result == present(entry),
{
    entry & ENTRY_PRESENT != 0
}

/// Where an entry leads.
pub fn entry_address(entry: u64) -> (phys: u64)
    ensures
        phys == leads_to(entry),
{
    entry & ADDRESS_MASK
}

/// Which entry of each of the four tables an address goes through, from the root down.
pub fn split_indices(virt: u64) -> (indices: [u16; 4])
    ensures
        indices@[0] == page_number(virt) / 0x800_0000,
        indices@[1] == page_number(virt) / 0x4_0000 % 512,
        indices@[2] == page_number(virt) / 512 % 512,
        indices@[3] == page_number(virt) % 512,
        indices@[0] < 512,
{
    let number: u64 = virt / 0x1000 % 0x10_0000_0000;
    [
        (number / 0x800_0000) as u16,
        (number / 0x4_0000 % 512) as u16,
        (number / 512 % 512) as u16,
        (number % 512) as u16,
    ]
}

/// Where the window onto physical memory shows `phys`.
pub open spec fn window_address(phys: u64) -> Option<u64> {
    if HIGH_HALF_DIRECT_MAP_BASE + phys > u64::MAX {
        None
    } else {
        Some((HIGH_HALF_DIRECT_MAP_BASE + phys) as u64)
    }
}

/// Where the window onto physical memory begins.
pub fn high_half_base() -> (base: u64)
    ensures
        base == HIGH_HALF_DIRECT_MAP_BASE,
{
    HIGH_HALF_DIRECT_MAP_BASE
}

/// Where the window onto physical memory shows `phys`.
pub fn physical_to_high_half(phys: u64) -> (virt: Option<u64>)
    ensures
        virt == window_address(phys),
{
    HIGH_HALF_DIRECT_MAP_BASE.checked_add(phys)
}

/// Where to reach physical memory: through the window once the tables are in use, else directly.
pub fn phys_to_addr(phys: u64, active: bool) -> (address: u64)
    ensures
        address == if active && window_address(phys) is Some {
            window_address(phys).unwrap()
        } else {
            phys
        },
{
    if active {
        match physical_to_high_half(phys) {
            Some(address) => address,
            None => phys,
        }
    } else {
        phys
    }
}

/// A page can be mapped if it is a whole one below the end of what the processor can address.
pub proof fn whole_pages_in_reach_can_be_mapped(phys: u64)
    ensures
        addressable(phys) <==> phys as int % 4096 == 0 && phys < 0x10_0000_0000_0000,
{
}

} // verus!
