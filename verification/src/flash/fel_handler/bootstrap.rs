//! Shared FEL bootstrap: run the DRAM init blob, then download and start
//! u-boot.

use vstd::prelude::*;

verus! {

/// The FEL bootstrap runner. It holds only the logging verbosity; the USB
/// work is done by the caller.
#[derive(Debug, Clone, Copy, PartialEq, Eq)]
pub struct FelBootstrap {
    pub verbose: bool,
}

impl FelBootstrap {
    pub fn new(verbose: bool) -> (r: Self)
        ensures
            r.verbose == verbose,
    {
        FelBootstrap { verbose }
    }
}

} // verus!
