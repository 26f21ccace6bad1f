//! The loader: it chooses a signed kernel, stages it in memory and describes the machine to it.

pub mod handoff;
pub mod image;
pub mod promises;
pub mod slots;
pub mod trust;
