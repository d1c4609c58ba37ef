use math_core::errors::MathError;
use math_core::matrix::{determinant_order, product_shape, shape_of, sum_shape, transpose_shape, MatrixShape};

fn sh(rows: usize, cols: usize) -> MatrixShape {
    MatrixShape { rows, cols }
}

#[test]
fn rectangular_rows_form_a_matrix() {
    assert_eq!(shape_of(&[3, 3]).unwrap(), sh(2, 3));
    assert_eq!(shape_of(&[1]).unwrap(), sh(1, 1));
}

#[test]
fn empty_or_ragged_rows_are_refused() {
    assert!(matches!(shape_of(&[]), Err(MathError::InvalidInput(_))));
    assert!(matches!(shape_of(&[0, 0]), Err(MathError::InvalidInput(_))));
    assert!(matches!(shape_of(&[2, 3]), Err(MathError::InvalidInput(_))));
}

#[test]
fn sum_and_product_shapes() {
    assert_eq!(sum_shape(sh(2, 2), sh(2, 2)).unwrap(), sh(2, 2));
    assert!(matches!(sum_shape(sh(2, 2), sh(2, 3)), Err(MathError::DimensionMismatch { .. })));
    assert_eq!(product_shape(sh(2, 3), sh(3, 4)).unwrap(), sh(2, 4));
    assert!(matches!(product_shape(sh(2, 3), sh(2, 3)), Err(MathError::DimensionMismatch { .. })));
    assert_eq!(transpose_shape(sh(2, 3)), sh(3, 2));
}

#[test]
fn dimension_mismatch_message() {
    match sum_shape(sh(2, 2), sh(2, 3)) {
        Err(e) => assert_eq!(e.message(), "Matrix dimension mismatch: expected 2×2, got 2×3"),
        Ok(_) => panic!("shapes differ"),
    }
}

#[test]
fn determinant_orders() {
    assert_eq!(determinant_order(sh(1, 1)).unwrap(), 1);
    assert_eq!(determinant_order(sh(3, 3)).unwrap(), 3);
    assert!(matches!(determinant_order(sh(2, 3)), Err(MathError::NotSquare)));
    assert!(matches!(determinant_order(sh(4, 4)), Err(MathError::InvalidInput(_))));
}

#[test]
fn error_messages() {
    assert_eq!(MathError::DivisionByZero.message(), "Division by zero");
    assert_eq!(MathError::ParseError("x".to_string()).message(), "Parse error: x");
    assert_eq!(MathError::NotSquare.message(), "Not a square matrix");
}
