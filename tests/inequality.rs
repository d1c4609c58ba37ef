use math_core::errors::MathError;
use math_core::inequality::{range_shape, InequalityOp, RangeShape};

#[test]
fn operator_parsing() {
    assert_eq!(InequalityOp::from_str("<").unwrap(), InequalityOp::Less);
    assert_eq!(InequalityOp::from_str("<=").unwrap(), InequalityOp::LessEq);
    assert_eq!(InequalityOp::from_str(">").unwrap(), InequalityOp::Greater);
    assert_eq!(InequalityOp::from_str(">=").unwrap(), InequalityOp::GreaterEq);
}

#[test]
fn operator_parse_errors() {
    for s in ["", "=", "=<", "<<", "< ", "≤", "=>", "<=="] {
        assert!(matches!(InequalityOp::from_str(s), Err(MathError::ParseError(_))), "{}", s);
    }
}

#[test]
fn operator_strictness() {
    assert!(InequalityOp::Less.is_strict());
    assert!(InequalityOp::Greater.is_strict());
    assert!(!InequalityOp::LessEq.is_strict());
    assert!(!InequalityOp::GreaterEq.is_strict());
}

#[test]
fn sign_flip_table() {
    let below_open = RangeShape { below: true, inclusive: false };
    let below_closed = RangeShape { below: true, inclusive: true };
    let above_open = RangeShape { below: false, inclusive: false };
    let above_closed = RangeShape { below: false, inclusive: true };
    assert_eq!(range_shape(InequalityOp::Less, true), below_open);
    assert_eq!(range_shape(InequalityOp::Greater, false), below_open);
    assert_eq!(range_shape(InequalityOp::LessEq, true), below_closed);
    assert_eq!(range_shape(InequalityOp::GreaterEq, false), below_closed);
    assert_eq!(range_shape(InequalityOp::Greater, true), above_open);
    assert_eq!(range_shape(InequalityOp::Less, false), above_open);
    assert_eq!(range_shape(InequalityOp::GreaterEq, true), above_closed);
    assert_eq!(range_shape(InequalityOp::LessEq, false), above_closed);
}
