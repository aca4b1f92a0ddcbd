//! Common memory sizes.

use vstd::prelude::*;

verus! {

/// 4 KiB: the size of a base page.
pub const FOUR_K: usize = 4096;

/// 2 MiB: the size of a level-2 huge page.
pub const TWO_MIB: usize = 0x200000;

/// 1 GiB: the size of a level-3 huge page.
pub const ONE_GIB: usize = 0x40000000;

} // verus!
