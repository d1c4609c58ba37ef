//! The error taxonomy shared by every calculator.

use vstd::prelude::*;

verus! {

/// Why a calculation was refused.
#[derive(Debug, Clone, PartialEq, Eq)]
pub enum MathError {
    InvalidInput(String),
    DivisionByZero,
    OutOfRange(String),
    NaN(String),
    Infinity(String),
    NoSolution,
    DimensionMismatch { expected: String, actual: String },
    NotSquare,
    SingularMatrix,
    InvalidRange(String),
    ParseError(String),
}

impl MathError {
    /// The human-readable description of the error.
    pub fn message(&self) -> (r: String)
        ensures
            r@ == match self {
                MathError::InvalidInput(s) => "Invalid input: "@ + s@,
                MathError::DivisionByZero => "Division by zero"@,
                MathError::OutOfRange(s) => "Value out of range: "@ + s@,
                MathError::NaN(s) => "NaN detected in "@ + s@,
                MathError::Infinity(s) => "Infinity detected in "@ + s@,
                MathError::NoSolution => "No solution exists"@,
                MathError::DimensionMismatch { expected, actual } =>
                    "Matrix dimension mismatch: expected "@ + expected@ + ", got "@ + actual@,
                MathError::NotSquare => "Not a square matrix"@,
                MathError::SingularMatrix => "Singular matrix (determinant is zero)"@,
                MathError::InvalidRange(s) => "Invalid range: "@ + s@,
                MathError::ParseError(s) => "Parse error: "@ + s@,
            },
    {
        match self {
            MathError::InvalidInput(s) => prefixed("Invalid input: ", s),
            MathError::DivisionByZero => String::from_str("Division by zero"),
            MathError::OutOfRange(s) => prefixed("Value out of range: ", s),
            MathError::NaN(s) => prefixed("NaN detected in ", s),
            MathError::Infinity(s) => prefixed("Infinity detected in ", s),
            MathError::NoSolution => String::from_str("No solution exists"),
            MathError::DimensionMismatch { expected, actual } => {
                let mut r = prefixed("Matrix dimension mismatch: expected ", expected);
                r.append(", got ");
                r.append(actual.as_str());
                r
            },
            MathError::NotSquare => String::from_str("Not a square matrix"),
            MathError::SingularMatrix => String::from_str("Singular matrix (determinant is zero)"),
            MathError::InvalidRange(s) => prefixed("Invalid range: ", s),
            MathError::ParseError(s) => prefixed("Parse error: ", s),
        }
    }
}

/// `head` followed by `tail`.
fn prefixed(head: &str, tail: &String) -> (r: String)
    ensures
        r@ == head@ + tail@,
{
    let mut r = String::from_str(head);
    r.append(tail.as_str());
    r
}

} // verus!

verus! {

/// Why a geometry calculation was refused.
#[derive(Debug, Clone, PartialEq, Eq)]
pub enum GeometryError {
    /// A non-finite input.
    InvalidInput(String),
    /// A length that must be positive is not.
    InvalidValue(String),
    /// The three points lie on one line.
    CollinearPoints,
}

/// Why a linear equation could not be solved.
#[derive(Debug, Clone, PartialEq, Eq)]
pub enum LinearEquationError {
    /// The coefficient of `x` is zero.
    ZeroCoefficient,
    /// A non-finite input.
    InvalidInput(String),
}

/// Why a quadratic equation could not be solved.
#[derive(Debug, Clone, PartialEq, Eq)]
pub enum QuadraticEquationError {
    /// A non-finite input.
    InvalidInput(String),
    /// The coefficient of `x²` is zero.
    NotQuadratic,
}

/// Why a statistic could not be computed.
#[derive(Debug, Clone, PartialEq, Eq)]
pub enum StatisticsError {
    /// There is no data.
    EmptyData,
    /// A non-finite value in the data.
    InvalidInput(String),
}

impl GeometryError {
    /// The human-readable description of the error.
    pub fn message(&self) -> (r: String)
        ensures
            r@ == match self {
                GeometryError::InvalidInput(s) => "Invalid input: "@ + s@,
                GeometryError::InvalidValue(s) => "Invalid "@ + s@ + ": must be positive"@,
                GeometryError::CollinearPoints => "Points are collinear and cannot form a triangle"@,
            },
    {
        match self {
            GeometryError::InvalidInput(s) => prefixed("Invalid input: ", s),
            GeometryError::InvalidValue(s) => {
                let mut r = prefixed("Invalid ", s);
                r.append(": must be positive");
                r
            },
            GeometryError::CollinearPoints => String::from_str("Points are collinear and cannot form a triangle"),
        }
    }
}

impl LinearEquationError {
    /// The human-readable description of the error.
    pub fn message(&self) -> (r: String)
        ensures
            r@ == match self {
                LinearEquationError::ZeroCoefficient => "Zero coefficient: coefficient 'a' cannot be zero"@,
                LinearEquationError::InvalidInput(s) => "Invalid input: "@ + s@,
            },
    {
        match self {
            LinearEquationError::ZeroCoefficient => String::from_str("Zero coefficient: coefficient 'a' cannot be zero"),
            LinearEquationError::InvalidInput(s) => prefixed("Invalid input: ", s),
        }
    }
}

impl QuadraticEquationError {
    /// The human-readable description of the error.
    pub fn message(&self) -> (r: String)
        ensures
            r@ == match self {
                QuadraticEquationError::InvalidInput(s) => "Invalid input: "@ + s@,
                QuadraticEquationError::NotQuadratic => "Not a quadratic equation: coefficient 'a' cannot be zero"@,
            },
    {
        match self {
            QuadraticEquationError::InvalidInput(s) => prefixed("Invalid input: ", s),
            QuadraticEquationError::NotQuadratic => String::from_str("Not a quadratic equation: coefficient 'a' cannot be zero"),
        }
    }
}

impl StatisticsError {
    /// The human-readable description of the error.
    pub fn message(&self) -> (r: String)
        ensures
            r@ == match self {
                StatisticsError::EmptyData => "Empty data set: cannot calculate statistics on empty data"@,
                StatisticsError::InvalidInput(s) => "Invalid input: "@ + s@,
            },
    {
        match self {
            StatisticsError::EmptyData => String::from_str("Empty data set: cannot calculate statistics on empty data"),
            StatisticsError::InvalidInput(s) => prefixed("Invalid input: ", s),
        }
    }
}

} // verus!
