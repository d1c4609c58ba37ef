//! Difficulty levels of practice problems and the ranges their random
//! coefficients are drawn from. The draw itself is the caller's; a leading
//! coefficient is always drawn from positive integers, so every generated
//! equation keeps its degree.

use vstd::prelude::*;

verus! {

/// How hard a practice problem is.
#[derive(Debug, Clone, Copy, PartialEq, Eq, Structural)]
pub enum Difficulty {
    Easy,
    Medium,
    Hard,
}

/// The integers `lo..hi`, `hi` excluded.
#[derive(Debug, Clone, Copy, PartialEq, Eq, Structural)]
pub struct CoefficientRange {
    pub lo: i32,
    pub hi: i32,
}

/// `lo..hi`
pub open spec fn range(lo: int, hi: int) -> CoefficientRange {
    CoefficientRange { lo: lo as i32, hi: hi as i32 }
}

/// The ranges of `a` and `b` in `ax + b = 0`.
pub fn linear_ranges(d: Difficulty) -> (r: (CoefficientRange, CoefficientRange))
    ensures
        r == match d {
            Difficulty::Easy => (range(1, 10), range(-10, 10)),
            Difficulty::Medium => (range(1, 20), range(-50, 50)),
            Difficulty::Hard => (range(1, 100), range(-100, 100)),
        },
        1 <= r.0.lo < r.0.hi,
        r.1.lo < r.1.hi,
{
    match d {
        Difficulty::Easy => (CoefficientRange { lo: 1, hi: 10 }, CoefficientRange { lo: -10, hi: 10 }),
        Difficulty::Medium => (CoefficientRange { lo: 1, hi: 20 }, CoefficientRange { lo: -50, hi: 50 }),
        Difficulty::Hard => (CoefficientRange { lo: 1, hi: 100 }, CoefficientRange { lo: -100, hi: 100 }),
    }
}

/// The ranges of `a`, `b` and `c` in `ax² + bx + c = 0`; an easy problem has `a = 1`.
pub fn quadratic_ranges(d: Difficulty) -> (r: (CoefficientRange, CoefficientRange, CoefficientRange))
    ensures
        r == match d {
            Difficulty::Easy => (range(1, 2), range(-10, 10), range(-10, 10)),
            Difficulty::Medium => (range(1, 5), range(-20, 20), range(-20, 20)),
            Difficulty::Hard => (range(1, 10), range(-50, 50), range(-50, 50)),
        },
        1 <= r.0.lo < r.0.hi,
{
    match d {
        Difficulty::Easy => (
            CoefficientRange { lo: 1, hi: 2 },
            CoefficientRange { lo: -10, hi: 10 },
            CoefficientRange { lo: -10, hi: 10 },
        ),
        Difficulty::Medium => (
            CoefficientRange { lo: 1, hi: 5 },
            CoefficientRange { lo: -20, hi: 20 },
            CoefficientRange { lo: -20, hi: 20 },
        ),
        Difficulty::Hard => (
            CoefficientRange { lo: 1, hi: 10 },
            CoefficientRange { lo: -50, hi: 50 },
            CoefficientRange { lo: -50, hi: 50 },
        ),
    }
}

/// The ranges of the two legs of a right triangle.
pub fn geometry_ranges(d: Difficulty) -> (r: (CoefficientRange, CoefficientRange))
    ensures
        r == match d {
            Difficulty::Easy => (range(1, 10), range(1, 10)),
            _ => (range(5, 50), range(5, 50)),
        },
        1 <= r.0.lo < r.0.hi,
        1 <= r.1.lo < r.1.hi,
{
    match d {
        Difficulty::Easy => (CoefficientRange { lo: 1, hi: 10 }, CoefficientRange { lo: 1, hi: 10 }),
        _ => (CoefficientRange { lo: 5, hi: 50 }, CoefficientRange { lo: 5, hi: 50 }),
    }
}

} // verus!
