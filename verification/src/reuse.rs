//! Reuse of heap allocations.
use vstd::prelude::*;

verus! {

/// Types that can be reset to be used for another function.
pub trait Reset {
    /// Resets `self` and keeps its heap allocations.
    fn reset(&mut self);
}

/// Types whose heap allocations can be reused.
pub trait ReusableAllocations {
    /// The type of the reusable heap allocations.
    type Allocations;

    /// Returns the reusable heap allocations of `self`.
    fn into_allocations(self) -> Self::Allocations;
}

} // verus!
