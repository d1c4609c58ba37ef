//! The kinds of critical point of a function of one variable.

use vstd::prelude::*;

verus! {

/// What the second derivative at a critical point says about it.
#[derive(Debug, Clone, Copy, PartialEq, Eq, Structural)]
pub enum CriticalPointType {
    LocalMaximum,
    LocalMinimum,
    InflectionPoint,
}

} // verus!
