//! The resource-limit violations a saturation run can surface.
//!
//! Everything else that goes wrong while a rule is evaluated — a
//! unification conflict, a rejected constraint, a failed expression —
//! only drops the candidate binding and never reaches the caller.

use vstd::prelude::*;

verus! {

/// Why a run was aborted: the fact set reached its cap, the iteration
/// counter reached its cap, or the deadline passed.
#[derive(Debug, Clone, Copy, PartialEq, Eq)]
pub enum RunLimit {
    TooManyFacts,
    TooManyIterations,
    Timeout,
}

} // verus!
