//! The configuration of the loader.

use vstd::prelude::*;

verus! {

/// The configuration of the UEFI loader.
#[derive(Clone, Debug)]
pub struct Config {
    /// The command line handed to the kernel.
    pub cmdline: String,
}

} // verus!
