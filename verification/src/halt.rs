//! The filter program's panic handler.

use vstd::prelude::*;

verus! {

/// Where a panic of the filter would have been raised.
#[derive(Clone, Copy, Debug)]
pub struct PanicInfo {
    pub line: u32,
    pub column: u32,
}

/// Panic handler of the filter program.  Every function of the filter is
/// proved free of panics, so nothing reaches this handler; it has no state
/// to change and no result to give.
pub fn panic(_info: &PanicInfo) {
}

} // verus!
