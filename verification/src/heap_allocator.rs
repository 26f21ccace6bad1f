//! The heap: a list of free blocks that is kept in the free memory itself, and a header before every
//! allocation.

pub mod blocks;
pub mod region;
pub mod heap;
pub mod laws;

pub use heap::{ExpandableHeap, HeapInitError, ReclaimingHeap};
pub use region::HeapStats;
