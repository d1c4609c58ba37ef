use math_core::probability::{combination, factorial, permutation};
use math_core::errors::MathError;

#[test]
fn test_factorial() {
    assert_eq!(factorial(0), 1);
    assert_eq!(factorial(1), 1);
    assert_eq!(factorial(5), 120);
    assert_eq!(factorial(10), 3628800);
}

#[test]
fn test_permutation() {
    assert_eq!(permutation(5, 0).unwrap(), 1);
    assert_eq!(permutation(5, 1).unwrap(), 5);
    assert_eq!(permutation(5, 3).unwrap(), 60);
    assert_eq!(permutation(5, 5).unwrap(), 120);
}

#[test]
fn test_permutation_invalid() {
    assert!(permutation(3, 5).is_err());
}

#[test]
fn test_combination() {
    assert_eq!(combination(5, 0).unwrap(), 1);
    assert_eq!(combination(5, 1).unwrap(), 5);
    assert_eq!(combination(5, 2).unwrap(), 10);
    assert_eq!(combination(5, 3).unwrap(), 10);
    assert_eq!(combination(5, 5).unwrap(), 1);
}

#[test]
fn test_combination_invalid() {
    assert!(combination(3, 5).is_err());
}

#[test]
fn it_works() {
    assert_eq!(2 + 2, 4);
}

#[test]
fn invalid_range_error_kind() {
    assert!(matches!(permutation(3, 5), Err(MathError::InvalidRange(_))));
    assert!(matches!(combination(3, 5), Err(MathError::InvalidRange(_))));
}

#[test]
fn combination_is_symmetric() {
    for n in 0u64..=25 {
        for r in 0..=n {
            assert_eq!(combination(n, r).unwrap(), combination(n, n - r).unwrap());
        }
    }
}

#[test]
fn combinatorics_exact_values() {
    assert_eq!(factorial(20), 2_432_902_008_176_640_000);
    assert_eq!(permutation(10, 4).unwrap(), 5040);
    assert_eq!(combination(52, 5).unwrap(), 2_598_960);
    assert_eq!(combination(25, 12).unwrap(), 5_200_300);
    assert_eq!(combination(0, 0).unwrap(), 1);
}

#[test]
fn overflow_is_out_of_range() {
    assert!(matches!(permutation(100, 50), Err(MathError::OutOfRange(_))));
    assert!(matches!(combination(100, 50), Err(MathError::OutOfRange(_))));
    assert_eq!(combination(100, 98).unwrap(), 4950);
    assert_eq!(permutation(u64::MAX, 1).unwrap(), u64::MAX);
}
