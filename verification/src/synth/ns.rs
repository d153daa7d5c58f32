//! NTFS filename namespaces.

use vstd::prelude::*;

verus! {

pub const POSIX: u8 = 0;

pub const WIN32: u8 = 1;

pub const DOS: u8 = 2;

pub const WIN32_AND_DOS: u8 = 3;

} // verus!
