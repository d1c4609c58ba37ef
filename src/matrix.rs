//! The shape rules of small dense matrices: which nested row lists form a
//! matrix, which shapes can be added or multiplied, and for which the
//! determinant is computed. The entries are floating point and live in the
//! caller.

use vstd::prelude::*;
use crate::errors::MathError;

verus! {

/// `rows × cols`
#[derive(Debug, Clone, Copy, PartialEq, Eq, Structural)]
pub struct MatrixShape {
    pub rows: usize,
    pub cols: usize,
}

/// Relies on std's `format!`: writes the shape as `rows×cols`.
#[verifier::external_body]
fn shape_text(s: MatrixShape) -> String {
    format!("{}\u{d7}{}", s.rows, s.cols)
}

/// Relies on std's `format!`: names the two sizes that had to agree.
#[verifier::external_body]
fn inner_text(cols: usize) -> String {
    format!("cols={}, other.rows={}", cols, cols)
}

/// Relies on std's `format!`: names the row count that was found.
#[verifier::external_body]
fn rows_text(rows: usize) -> String {
    format!("other.rows={}", rows)
}

/// The shape of the rows with the given lengths: at least one row, a
/// non-empty first row and all rows of its length; else `InvalidInput`.
pub fn shape_of(row_lengths: &[usize]) -> (r: Result<MatrixShape, MathError>)
    ensures
        match r {
            Ok(s) => {
                &&& row_lengths@.len() > 0
                &&& s.rows == row_lengths@.len()
                &&& s.cols == row_lengths@[0]
                &&& s.cols > 0
                &&& forall|i: int| 0 <= i < row_lengths@.len() ==> #[trigger] row_lengths@[i] == s.cols
            },
            Err(e) => {
                &&& e matches MathError::InvalidInput(_)
                &&& (row_lengths@.len() == 0 || row_lengths@[0] == 0
                    || exists|i: int| 0 <= i < row_lengths@.len() && #[trigger] row_lengths@[i] != row_lengths@[0])
            },
        },
{
    if row_lengths.len() == 0 {
        return Err(MathError::InvalidInput("Matrix cannot be empty".to_string()));
    }
    let cols = row_lengths[0];
    if cols == 0 {
        return Err(MathError::InvalidInput("Matrix rows cannot be empty".to_string()));
    }
    let mut i: usize = 0;
    while i < row_lengths.len()
        invariant
            i <= row_lengths@.len(),
            cols == row_lengths@[0],
            forall|k: int| 0 <= k < i ==> #[trigger] row_lengths@[k] == cols,
        decreases row_lengths@.len() - i,
    {
        if row_lengths[i] != cols {
            return Err(MathError::InvalidInput("All rows must have the same length".to_string()));
        }
        i = i + 1;
    }
    Ok(MatrixShape { rows: row_lengths.len(), cols })
}

/// The shape of a sum: both shapes must be equal, else `DimensionMismatch`.
pub fn sum_shape(a: MatrixShape, b: MatrixShape) -> (r: Result<MatrixShape, MathError>)
    ensures
        match r {
            Ok(s) => a == b && s == a,
            Err(e) => a != b && e matches MathError::DimensionMismatch { .. },
        },
{
    if a.rows != b.rows || a.cols != b.cols {
        return Err(MathError::DimensionMismatch { expected: shape_text(a), actual: shape_text(b) });
    }
    Ok(a)
}

/// The shape of a product `a · b`: `a.rows × b.cols` when `a.cols == b.rows`,
/// else `DimensionMismatch`.
pub fn product_shape(a: MatrixShape, b: MatrixShape) -> (r: Result<MatrixShape, MathError>)
    ensures
        match r {
            Ok(s) => a.cols == b.rows && s == (MatrixShape { rows: a.rows, cols: b.cols }),
            Err(e) => a.cols != b.rows && e matches MathError::DimensionMismatch { .. },
        },
{
    if a.cols != b.rows {
        return Err(MathError::DimensionMismatch { expected: inner_text(a.cols), actual: rows_text(b.rows) });
    }
    Ok(MatrixShape { rows: a.rows, cols: b.cols })
}

/// The shape of the transpose.
pub fn transpose_shape(a: MatrixShape) -> (r: MatrixShape)
    ensures
        r == (MatrixShape { rows: a.cols, cols: a.rows }),
{
    MatrixShape { rows: a.cols, cols: a.rows }
}

/// The order `n` of a matrix whose determinant is computed: only square
/// matrices (`NotSquare` otherwise) of order 1, 2 or 3 (`InvalidInput` otherwise).
pub fn determinant_order(a: MatrixShape) -> (r: Result<usize, MathError>)
    ensures
        match r {
            Ok(n) => a.rows == a.cols && n == a.rows && 1 <= n <= 3,
            Err(e) => {
                ||| a.rows != a.cols && e is NotSquare
                ||| a.rows == a.cols && !(1 <= a.rows <= 3) && e matches MathError::InvalidInput(_)
            },
        },
{
    if a.rows != a.cols {
        return Err(MathError::NotSquare);
    }
    if a.rows < 1 || a.rows > 3 {
        return Err(MathError::InvalidInput("Determinant only implemented for 2x2 and 3x3 matrices".to_string()));
    }
    Ok(a.rows)
}

} // verus!
