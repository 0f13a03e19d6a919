//! Arithmetic on the constants that types hold.

use vstd::prelude::*;

use crate::text::same;

verus! {

/// A constant in a type.
#[derive(Clone, Copy, PartialEq, Eq, Structural, Debug)]
pub enum ConstValue {
    Int(u64),
    Bool(bool),
}

/// What a binary operation on two constants gives: the four arithmetic
/// operations on integers, modulo 2^64. Division by zero, any other operation
/// and any other operands give nothing.
pub open spec fn binop_value(op: Seq<char>, a: ConstValue, b: ConstValue) -> Option<ConstValue> {
    match (a, b) {
        (ConstValue::Int(x), ConstValue::Int(y)) => if op == "add"@ {
            Some(ConstValue::Int(x.wrapping_add(y)))
        } else if op == "sub"@ {
            Some(ConstValue::Int(x.wrapping_sub(y)))
        } else if op == "mul"@ {
            Some(ConstValue::Int(x.wrapping_mul(y)))
        } else if op == "div"@ && y != 0 {
            Some(ConstValue::Int((x / y) as u64))
        } else {
            None
        },
        _ => None,
    }
}

/// Evaluates a binary operation on two constants.
pub fn eval_binop(op: &str, a: ConstValue, b: ConstValue) -> (r: Option<ConstValue>)
    ensures
        r == binop_value(op@, a, b),
{
    match (a, b) {
        (ConstValue::Int(x), ConstValue::Int(y)) => if same(op, "add") {
            Some(ConstValue::Int(x.wrapping_add(y)))
        } else if same(op, "sub") {
            Some(ConstValue::Int(x.wrapping_sub(y)))
        } else if same(op, "mul") {
            Some(ConstValue::Int(x.wrapping_mul(y)))
        } else if same(op, "div") && y != 0 {
            Some(ConstValue::Int(x / y))
        } else {
            None
        },
        _ => None,
    }
}

} // verus!
