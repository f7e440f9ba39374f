//! Branch-likelihood hints.

use vstd::prelude::*;

verus! {

/// Branch-prediction helpers; each returns its condition unchanged.
pub struct BranchOptimizer;

impl BranchOptimizer {
    /// Marks `condition` as expected to hold; returns it.
    pub fn likely(condition: bool) -> (r: bool)
        ensures
            r == condition,
    {
        condition
    }

    /// Marks `condition` as expected not to hold; returns it.
    pub fn unlikely(condition: bool) -> (r: bool)
        ensures
            r == condition,
    {
        condition
    }
}

} // verus!
