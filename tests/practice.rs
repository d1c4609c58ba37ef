use math_core::practice::{geometry_ranges, linear_ranges, quadratic_ranges, CoefficientRange, Difficulty};

fn r(lo: i32, hi: i32) -> CoefficientRange {
    CoefficientRange { lo, hi }
}

#[test]
fn linear_coefficient_ranges() {
    assert_eq!(linear_ranges(Difficulty::Easy), (r(1, 10), r(-10, 10)));
    assert_eq!(linear_ranges(Difficulty::Medium), (r(1, 20), r(-50, 50)));
    assert_eq!(linear_ranges(Difficulty::Hard), (r(1, 100), r(-100, 100)));
}

#[test]
fn quadratic_coefficient_ranges() {
    assert_eq!(quadratic_ranges(Difficulty::Easy), (r(1, 2), r(-10, 10), r(-10, 10)));
    assert_eq!(quadratic_ranges(Difficulty::Medium), (r(1, 5), r(-20, 20), r(-20, 20)));
    assert_eq!(quadratic_ranges(Difficulty::Hard), (r(1, 10), r(-50, 50), r(-50, 50)));
}

#[test]
fn geometry_leg_ranges() {
    assert_eq!(geometry_ranges(Difficulty::Easy), (r(1, 10), r(1, 10)));
    assert_eq!(geometry_ranges(Difficulty::Medium), (r(5, 50), r(5, 50)));
    assert_eq!(geometry_ranges(Difficulty::Hard), (r(5, 50), r(5, 50)));
}
