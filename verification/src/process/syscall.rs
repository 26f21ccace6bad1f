//! The numbers of the system calls.

use vstd::prelude::*;

verus! {

pub const LOG: u64 = 1;

pub const EXIT: u64 = 2;

pub const YIELD: u64 = 3;

pub const GETPID: u64 = 4;

pub const GETTICKS: u64 = 5;

pub const SLEEP: u64 = 6;

} // verus!
