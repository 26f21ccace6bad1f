//! codexOS: the logic of a small operating system, from its loader to its desktop, with the tools that
//! sign, install and check it.
//!
//! What touches hardware, firmware or files is asked for step by step: a function of the library says
//! what is to be read or written next, and takes what came of it.

pub mod block;
pub mod boot;
pub mod bootinfo;
pub mod bytes;
pub mod checksum;
pub mod crypto;
pub mod desktop;
pub mod disk;
pub mod elf;
pub mod fs;
pub mod gfx;
pub mod hardware;
pub mod heap_allocator;
pub mod hex;
pub mod input;
pub mod installed;
pub mod interrupts;
pub mod kernel_image;
pub mod loader;
pub mod memory;
pub mod network;
pub mod process;
pub mod release;
pub mod runtime;
pub mod scheduler;
pub mod smoke;
pub mod startup;
pub mod sums;
pub mod text;
pub mod update;
pub mod update_format;
pub mod user_elf;
pub mod virtio;
pub mod vm;
