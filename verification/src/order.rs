//! Render-order allocation for secondary cameras.
//!
//! Every pixelation camera must render strictly before the main pass, so the
//! allocator hands out strictly decreasing orders starting from the main
//! pass's order minus one.

use vstd::prelude::*;

verus! {

/// Render order of the host's main pass camera. Every allocated order lies
/// strictly below it.
pub const MAIN_PASS_ORDER: i64 = 0;

/// Hands out a strictly decreasing render order on each call, so that every
/// secondary camera renders before the main pass, and earlier-built targets
/// render before later-built ones.
pub struct OrderAllocator {
    last_order: i64,
}

impl OrderAllocator {
    /// The most recently handed-out order (the main pass order if none was).
    pub closed spec fn last(self) -> int {
        self.last_order as int
    }

    pub closed spec fn wf(self) -> bool {
        self.last_order <= MAIN_PASS_ORDER
    }

    pub fn new() -> (r: OrderAllocator)
        ensures
            r.wf(),
            r.last() == MAIN_PASS_ORDER,
    {
        OrderAllocator { last_order: MAIN_PASS_ORDER }
    }

    /// Allocates the next render order: one below everything handed out so
    /// far, hence strictly below the main pass order.
    pub fn next(&mut self) -> (r: i64)
        requires
            old(self).wf(),
            old(self).last() > i64::MIN,
        ensures
            final(self).wf(),
            final(self).last() == old(self).last() - 1,
            r == old(self).last() - 1,
            r < MAIN_PASS_ORDER,
    {
        self.last_order = self.last_order - 1;
        self.last_order
    }
}

} // verus!
