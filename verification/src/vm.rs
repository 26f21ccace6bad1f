//! Virtual memory: page tables, the kernel's address space and what the processor makes of an
//! address.

pub mod entry;
pub mod tables;
pub mod kernel;
pub mod gaps;
pub mod manager;
pub mod laws;
pub mod plan;

pub use entry::{high_half_base, physical_to_high_half, VmError};
pub use kernel::{kernel_page_mappings, KernelPageMapping};
pub use manager::{BootVmReport, HhdmProbe, Mapping, VirtualMemoryManager, VmStats};
pub use tables::PageWalk;
