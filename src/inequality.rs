//! Comparison operators of linear inequalities and the shape of their solution sets.

use vstd::prelude::*;
use crate::errors::MathError;

verus! {

/// The comparison in `ax + b [op] 0`.
#[derive(Debug, Clone, Copy, PartialEq, Eq, Structural)]
pub enum InequalityOp {
    Less,
    LessEq,
    Greater,
    GreaterEq,
}

/// The operator written as `s`, if `s` is one of `<`, `<=`, `>`, `>=`.
pub open spec fn parse_op_spec(s: Seq<char>) -> Option<InequalityOp> {
    if s == seq!['<'] {
        Some(InequalityOp::Less)
    } else if s == seq!['<', '='] {
        Some(InequalityOp::LessEq)
    } else if s == seq!['>'] {
        Some(InequalityOp::Greater)
    } else if s == seq!['>', '='] {
        Some(InequalityOp::GreaterEq)
    } else {
        None
    }
}

/// The operator excludes equality (`<` or `>`).
pub open spec fn is_strict_spec(op: InequalityOp) -> bool {
    op == InequalityOp::Less || op == InequalityOp::Greater
}

/// The operator is `<` or `<=`.
pub open spec fn is_less_spec(op: InequalityOp) -> bool {
    op == InequalityOp::Less || op == InequalityOp::LessEq
}

/// Relies on std's `format!`: the refusal message quotes the text.
#[verifier::external_body]
fn operator_message(s: &str) -> String {
    format!("Invalid operator: {}", s)
}

impl InequalityOp {
    /// Reads one of `<`, `<=`, `>`, `>=`; anything else is a `ParseError`.
    pub fn from_str(s: &str) -> (r: Result<InequalityOp, MathError>)
        ensures
            match r {
                Ok(op) => parse_op_spec(s@) == Some(op),
                Err(e) => parse_op_spec(s@) is None && e matches MathError::ParseError(_),
            },
    {
        broadcast use vstd::string::is_ascii_spec_bytes;
        if !s.is_ascii() {
            assert(parse_op_spec(s@) is None) by {
                if parse_op_spec(s@) is Some {
                    assert forall|i: int| 0 <= i < s@.len() implies '\0' <= #[trigger] s@[i] <= '\u{7f}' by {}
                }
            }
            return Err(MathError::ParseError(operator_message(s)));
        }
        let b = s.as_bytes();
        assert(b@.len() == s@.len());
        if b.len() == 1 && b[0] == 60u8 {
            assert(s@ =~= seq!['<']);
            Ok(InequalityOp::Less)
        } else if b.len() == 2 && b[0] == 60u8 && b[1] == 61u8 {
            assert(s@ =~= seq!['<', '=']);
            Ok(InequalityOp::LessEq)
        } else if b.len() == 1 && b[0] == 62u8 {
            assert(s@ =~= seq!['>']);
            Ok(InequalityOp::Greater)
        } else if b.len() == 2 && b[0] == 62u8 && b[1] == 61u8 {
            assert(s@ =~= seq!['>', '=']);
            Ok(InequalityOp::GreaterEq)
        } else {
            assert(parse_op_spec(s@) is None) by {
                if s@.len() >= 1 {
                    assert(b@[0] == s@[0] as u8);
                }
                if s@.len() >= 2 {
                    assert(b@[1] == s@[1] as u8);
                }
            }
            Err(MathError::ParseError(operator_message(s)))
        }
    }

    /// `<` and `>` are strict; `<=` and `>=` are not.
    pub fn is_strict(&self) -> (r: bool)
        ensures
            r == is_strict_spec(*self),
    {
        match self {
            InequalityOp::Less | InequalityOp::Greater => true,
            _ => false,
        }
    }
}

/// Which side of the boundary `x = -b/a` solves `ax + b [op] 0`, and whether
/// the boundary itself belongs to the solution set.
#[derive(Debug, Clone, Copy, PartialEq, Eq, Structural)]
pub struct RangeShape {
    /// The solutions lie below the boundary (`x < -b/a` or `x <= -b/a`);
    /// otherwise they lie above it.
    pub below: bool,
    /// The boundary is a solution.
    pub inclusive: bool,
}

/// The solution range of `ax + b [op] 0` for `a != 0`: dividing by a negative
/// `a` turns the comparison around, and only `<=` and `>=` keep the boundary.
pub fn range_shape(op: InequalityOp, a_positive: bool) -> (r: RangeShape)
    ensures
        r.below == (is_less_spec(op) == a_positive),
        r.inclusive == !is_strict_spec(op),
{
    match (op, a_positive) {
        (InequalityOp::Less, true) | (InequalityOp::Greater, false) => RangeShape { below: true, inclusive: false },
        (InequalityOp::LessEq, true) | (InequalityOp::GreaterEq, false) => RangeShape { below: true, inclusive: true },
        (InequalityOp::Greater, true) | (InequalityOp::Less, false) => RangeShape { below: false, inclusive: false },
        (InequalityOp::GreaterEq, true) | (InequalityOp::LessEq, false) => RangeShape { below: false, inclusive: true },
    }
}

} // verus!
