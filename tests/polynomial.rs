use math_core::polynomial::{Polynomial, Rational};

#[test]
fn test_polynomial_creation() {
    let p = Polynomial::new(vec![1, 2, 3]);
    assert_eq!(p.degree(), 2);
    assert_eq!(p.coeff(0), Rational::from_integer(1));
    assert_eq!(p.coeff(1), Rational::from_integer(2));
    assert_eq!(p.coeff(2), Rational::from_integer(3));
}

#[test]
fn test_polynomial_add() {
    let p1 = Polynomial::new(vec![1, 2, 3]);
    let p2 = Polynomial::new(vec![4, 5]);
    let result = p1.add(&p2).unwrap();

    assert_eq!(result.coeff(0), Rational::from_integer(5));
    assert_eq!(result.coeff(1), Rational::from_integer(7));
    assert_eq!(result.coeff(2), Rational::from_integer(3));
}

#[test]
fn test_polynomial_mul() {
    let p1 = Polynomial::new(vec![1, 1]);
    let p2 = Polynomial::new(vec![1, 1]);
    let result = p1.mul(&p2).unwrap();

    assert_eq!(result.coeff(0), Rational::from_integer(1));
    assert_eq!(result.coeff(1), Rational::from_integer(2));
    assert_eq!(result.coeff(2), Rational::from_integer(1));
}

#[test]
fn polynomial_fraction_arithmetic() {
    let half = Polynomial { coeffs: vec![Rational { numer: 1, denom: 2 }, Rational { numer: 1, denom: 3 }] };
    let sum = half.add(&half).unwrap();
    assert_eq!(sum.coeff(0), Rational { numer: 1, denom: 1 });
    assert_eq!(sum.coeff(1), Rational { numer: 2, denom: 3 });
    let sq = half.mul(&half).unwrap();
    assert_eq!(sq.coeff(0), Rational { numer: 1, denom: 4 });
    assert_eq!(sq.coeff(1), Rational { numer: 1, denom: 3 });
    assert_eq!(sq.coeff(2), Rational { numer: 1, denom: 9 });
    assert_eq!(sq.coeff(7), Rational { numer: 0, denom: 1 });
}

#[test]
fn polynomial_edge_cases() {
    let empty = Polynomial::new(vec![]);
    assert_eq!(empty.degree(), 0);
    let p = Polynomial::new(vec![1, 2]);
    assert_eq!(p.mul(&empty).unwrap().coeffs.len(), 0);
    assert_eq!(empty.add(&p).unwrap().coeffs, p.coeffs);
    let big = Polynomial::new(vec![i64::MAX]);
    assert!(big.add(&big).is_none());
    assert!(big.mul(&big).is_none());
}

#[test]
fn polynomial_text() {
    assert_eq!(Polynomial::new(vec![1, 2, 3]).to_string(), "3x^2 + 2x + 1");
    assert_eq!(Polynomial::new(vec![0, 1, 0, 1]).to_string(), "x^3 + x");
    assert_eq!(Polynomial::new(vec![1]).to_string(), "1");
    assert_eq!(Polynomial::new(vec![0, 0]).to_string(), "0");
    assert_eq!(Polynomial::new(vec![-4, 0, -1]).to_string(), "-1x^2 + -4");
    let p = Polynomial { coeffs: vec![Rational { numer: 0, denom: 1 }, Rational { numer: 3, denom: 4 }] };
    assert_eq!(p.to_string(), "3/4x");
}

#[test]
fn polynomial_text_large_exponent_and_fractions() {
    let mut coeffs = vec![0i64; 13];
    coeffs[12] = 2;
    coeffs[0] = -7;
    assert_eq!(Polynomial::new(coeffs).to_string(), "2x^12 + -7");
    let p = Polynomial { coeffs: vec![Rational { numer: -1, denom: 2 }, Rational { numer: 1, denom: 1 }] };
    assert_eq!(p.to_string(), "x + -1/2");
}

#[test]
fn integer_products_succeed() {
    let p = Polynomial::new(vec![1_000_000, -999_999, 1]);
    let q = Polynomial::new(vec![-1_000_000, 3]);
    let r = p.mul(&q).unwrap();
    assert_eq!(r.coeff(0), Rational::from_integer(-1_000_000_000_000));
    assert_eq!(r.coeff(1), Rational::from_integer(3_000_000 + 999_999_000_000));
    assert_eq!(r.coeff(2), Rational::from_integer(-2_999_997 - 1_000_000));
    assert_eq!(r.coeff(3), Rational::from_integer(3));
}
