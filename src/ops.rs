//! Operations on values: arithmetic with promotion, comparison, logic,
//! bitwise operations and equality.
//!
//! Floats are carried as IEEE-754 bit patterns; the arithmetic on them is
//! done by the host's float unit, a function `(FloatOp, a, b) -> bits`.
use vstd::prelude::*;

use crate::error::RuntimeErrorKind;
use crate::heap::{Heap, Object};
use crate::value::{Value, ValueType};

verus! {

/// The questions put to the host's float unit. Operands and results are bit
/// patterns; `FromInt` reads its first operand as an `i64`, `Neg` ignores the
/// second, and a comparison answers 1 for true and 0 for false.
#[derive(Clone, Copy, Debug, PartialEq, Eq, Structural)]
pub enum FloatOp {
    Add,
    Sub,
    Mul,
    Div,
    Neg,
    FromInt,
    Eq,
    Lt,
    Lte,
    Gt,
    Gte,
}

/// The float unit can be asked anything.
pub open spec fn float_unit_total<F: Fn(FloatOp, u64, u64) -> u64>(floats: &F) -> bool {
    forall|op: FloatOp, a: u64, b: u64| #[trigger] floats.requires((op, a, b))
}

/// `bits` is `v` as a float: its own bits, or an integer converted by the unit.
pub open spec fn float_operand<F: Fn(FloatOp, u64, u64) -> u64>(floats: &F, v: Value, bits: u64) -> bool {
    match v {
        Value::Float(x) => bits == x,
        Value::Int(i) => floats.ensures((FloatOp::FromInt, i as u64, 0u64), bits),
        _ => false,
    }
}

pub open spec fn is_number(v: Value) -> bool {
    v is Int || v is Float
}

#[derive(Clone, Copy, Debug, PartialEq, Eq, Structural)]
pub enum ArithOp {
    Add,
    Sub,
    Mul,
    Div,
    Rem,
}

#[derive(Clone, Copy, Debug, PartialEq, Eq, Structural)]
pub enum CompareOp {
    Gt,
    Gte,
    Lt,
    Lte,
}

#[derive(Clone, Copy, Debug, PartialEq, Eq, Structural)]
pub enum BitOp {
    And,
    Or,
    Xor,
    Shl,
    Shr,
}

/// Integer arithmetic: wrapping on overflow; `None` on division by zero.
pub open spec fn int_arith(op: ArithOp, x: i64, y: i64) -> Option<i64> {
    match op {
        ArithOp::Add => Some(vstd::wrapping::i64_specs::wrapping_add(x, y)),
        ArithOp::Sub => Some(vstd::wrapping::i64_specs::wrapping_sub(x, y)),
        ArithOp::Mul => Some(vstd::wrapping::i64_specs::wrapping_mul(x, y)),
        ArithOp::Div => if y == 0 {
            None
        } else {
            match x.checked_div(y) {
                Some(q) => Some(q),
                None => Some(i64::MIN),
            }
        },
        ArithOp::Rem => if y == 0 {
            None
        } else {
            match x.checked_rem(y) {
                Some(q) => Some(q),
                None => Some(0i64),
            }
        },
    }
}

pub open spec fn float_arith_op(op: ArithOp) -> FloatOp {
    match op {
        ArithOp::Add => FloatOp::Add,
        ArithOp::Sub => FloatOp::Sub,
        ArithOp::Mul => FloatOp::Mul,
        _ => FloatOp::Div,
    }
}

pub open spec fn int_compare(op: CompareOp, x: i64, y: i64) -> bool {
    match op {
        CompareOp::Gt => x > y,
        CompareOp::Gte => x >= y,
        CompareOp::Lt => x < y,
        CompareOp::Lte => x <= y,
    }
}

pub open spec fn float_compare_op(op: CompareOp) -> FloatOp {
    match op {
        CompareOp::Gt => FloatOp::Gt,
        CompareOp::Gte => FloatOp::Gte,
        CompareOp::Lt => FloatOp::Lt,
        CompareOp::Lte => FloatOp::Lte,
    }
}

/// The error of an operand of the wrong type.
pub open spec fn is_wrong_type(e: RuntimeErrorKind, expected: Seq<ValueType>, received: ValueType) -> bool {
    e is InvalidType && e->InvalidType_expected@ == expected && e->InvalidType_received == received
}

/// The type reported when a numeric operation gets a bad operand: the
/// right one if the left is a number, else the left one.
pub open spec fn numeric_culprit(a: Value, b: Value) -> ValueType {
    if is_number(a) {
        b.spec_ty()
    } else {
        a.spec_ty()
    }
}

pub fn wrong_type(expected: &[ValueType], received: ValueType) -> (r: RuntimeErrorKind)
    ensures
        is_wrong_type(r, expected@, received),
{
    let mut list: Vec<ValueType> = Vec::new();
    let mut k: usize = 0;
    while k < expected.len()
        invariant
            k <= expected@.len(),
            list@ == expected@.subrange(0, k as int),
        decreases expected@.len() - k,
    {
        list.push(expected[k]);
        k = k + 1;
    }
    assert(list@ =~= expected@);
    RuntimeErrorKind::InvalidType { expected: list, received }
}

fn numeric_error(a: Value, b: Value) -> (r: RuntimeErrorKind)
    ensures
        is_wrong_type(r, seq![ValueType::Int, ValueType::Float], numeric_culprit(a, b)),
{
    let received = match a {
        Value::Int(_) | Value::Float(_) => b.ty(),
        _ => a.ty(),
    };
    let r = wrong_type(&[ValueType::Int, ValueType::Float], received);
    assert(r->InvalidType_expected@ =~= seq![ValueType::Int, ValueType::Float]);
    r
}

/// A number as a float bit pattern.
fn to_float<F: Fn(FloatOp, u64, u64) -> u64>(v: Value, floats: &F) -> (r: u64)
    requires
        is_number(v),
        float_unit_total(floats),
    ensures
        float_operand(floats, v, r),
{
    match v {
        Value::Int(i) => floats(FloatOp::FromInt, i as u64, 0u64),
        Value::Float(x) => x,
        _ => 0u64,
    }
}

fn int_op(op: ArithOp, x: i64, y: i64) -> (r: Option<i64>)
    ensures
        r == int_arith(op, x, y),
{
    match op {
        ArithOp::Add => Some(x.wrapping_add(y)),
        ArithOp::Sub => Some(x.wrapping_sub(y)),
        ArithOp::Mul => Some(x.wrapping_mul(y)),
        ArithOp::Div => if y == 0 {
            None
        } else {
            match x.checked_div(y) {
                Some(q) => Some(q),
                None => Some(i64::MIN),
            }
        },
        ArithOp::Rem => if y == 0 {
            None
        } else {
            match x.checked_rem(y) {
                Some(q) => Some(q),
                None => Some(0i64),
            }
        },
    }
}

/// The type reported when `Rem` gets a bad operand: the first one that is
/// not an integer.
pub open spec fn rem_culprit(a: Value, b: Value) -> ValueType {
    if a is Int {
        b.spec_ty()
    } else {
        a.spec_ty()
    }
}

/// What `a op b` gives: two integers give an integer; a float on either side
/// promotes both to floats, computed by the float unit; `Rem` takes integers
/// only; anything else is a type error.
pub open spec fn arith_spec<F: Fn(FloatOp, u64, u64) -> u64>(op: ArithOp, a: Value, b: Value, floats: &F, r: Result<Value, RuntimeErrorKind>) -> bool {
    &&& (a, b) matches (Value::Int(x), Value::Int(y)) ==> r == match int_arith(op, x, y) {
        Some(z) => Ok::<Value, RuntimeErrorKind>(Value::Int(z)),
        None => Err(RuntimeErrorKind::DivisionByZero),
    }
    &&& op != ArithOp::Rem && is_number(a) && is_number(b) && !(a is Int && b is Int) ==> r is Ok && r->Ok_0 is Float
        && exists|fa: u64, fb: u64, z: u64| float_operand(floats, a, fa) && float_operand(floats, b, fb)
            && #[trigger] floats.ensures((float_arith_op(op), fa, fb), z) && r->Ok_0->Float_0 == z
    &&& op == ArithOp::Rem && !(a is Int && b is Int) ==> r is Err && is_wrong_type(r->Err_0, seq![ValueType::Int], rem_culprit(a, b))
    &&& op != ArithOp::Rem && !(is_number(a) && is_number(b)) ==> r is Err && is_wrong_type(
        r->Err_0,
        seq![ValueType::Int, ValueType::Float],
        numeric_culprit(a, b),
    )
}

/// `a op b`; see `arith_spec`.
pub fn arith<F: Fn(FloatOp, u64, u64) -> u64>(op: ArithOp, a: Value, b: Value, floats: &F) -> (r: Result<Value, RuntimeErrorKind>)
    requires
        float_unit_total(floats),
    ensures
        arith_spec(op, a, b, floats, r),
{
    if let (Value::Int(x), Value::Int(y)) = (a, b) {
        return match int_op(op, x, y) {
            Some(z) => Ok(Value::Int(z)),
            None => Err(RuntimeErrorKind::DivisionByZero),
        };
    }
    let numbers = match (a, b) {
        (Value::Int(_), Value::Float(_)) | (Value::Float(_), Value::Int(_)) | (Value::Float(_), Value::Float(_)) => true,
        _ => false,
    };
    if let ArithOp::Rem = op {
        let received = match a {
            Value::Int(_) => b.ty(),
            _ => a.ty(),
        };
        let e = wrong_type(&[ValueType::Int], received);
        assert(e->InvalidType_expected@ =~= seq![ValueType::Int]);
        return Err(e);
    }
    if !numbers {
        return Err(numeric_error(a, b));
    }
    let fa = to_float(a, floats);
    let fb = to_float(b, floats);
    let fop = match op {
        ArithOp::Add => FloatOp::Add,
        ArithOp::Sub => FloatOp::Sub,
        ArithOp::Mul => FloatOp::Mul,
        _ => FloatOp::Div,
    };
    let z = floats(fop, fa, fb);
    assert(fop == float_arith_op(op));
    assert(float_operand(floats, a, fa) && float_operand(floats, b, fb) && floats.ensures((float_arith_op(op), fa, fb), z));
    let r = Ok(Value::Float(z));
    assert(r->Ok_0->Float_0 == z);
    r
}

/// What comparing `a op b` gives: numbers promote as in `arith_spec`, and
/// the result is a boolean; anything else is a type error.
pub open spec fn compare_spec<F: Fn(FloatOp, u64, u64) -> u64>(op: CompareOp, a: Value, b: Value, floats: &F, r: Result<Value, RuntimeErrorKind>) -> bool {
    &&& (a, b) matches (Value::Int(x), Value::Int(y)) ==> r == Ok::<Value, RuntimeErrorKind>(Value::Bool(int_compare(op, x, y)))
    &&& is_number(a) && is_number(b) && !(a is Int && b is Int) ==> r is Ok && r->Ok_0 is Bool
        && exists|fa: u64, fb: u64, z: u64| float_operand(floats, a, fa) && float_operand(floats, b, fb)
            && #[trigger] floats.ensures((float_compare_op(op), fa, fb), z) && r->Ok_0->Bool_0 == (z != 0)
    &&& !(is_number(a) && is_number(b)) ==> r is Err && is_wrong_type(
        r->Err_0,
        seq![ValueType::Int, ValueType::Float],
        numeric_culprit(a, b),
    )
}

/// `a op b` on numbers; see `compare_spec`.
pub fn compare<F: Fn(FloatOp, u64, u64) -> u64>(op: CompareOp, a: Value, b: Value, floats: &F) -> (r: Result<Value, RuntimeErrorKind>)
    requires
        float_unit_total(floats),
    ensures
        compare_spec(op, a, b, floats, r),
{
    if let (Value::Int(x), Value::Int(y)) = (a, b) {
        let t = match op {
            CompareOp::Gt => x > y,
            CompareOp::Gte => x >= y,
            CompareOp::Lt => x < y,
            CompareOp::Lte => x <= y,
        };
        return Ok(Value::Bool(t));
    }
    let numbers = match (a, b) {
        (Value::Int(_), Value::Float(_)) | (Value::Float(_), Value::Int(_)) | (Value::Float(_), Value::Float(_)) => true,
        _ => false,
    };
    if !numbers {
        return Err(numeric_error(a, b));
    }
    let fa = to_float(a, floats);
    let fb = to_float(b, floats);
    let fop = match op {
        CompareOp::Gt => FloatOp::Gt,
        CompareOp::Gte => FloatOp::Gte,
        CompareOp::Lt => FloatOp::Lt,
        CompareOp::Lte => FloatOp::Lte,
    };
    let z = floats(fop, fa, fb);
    Ok(Value::Bool(z != 0))
}

/// What `-a` gives: integers wrap; floats go through the float unit.
pub open spec fn negate_spec<F: Fn(FloatOp, u64, u64) -> u64>(a: Value, floats: &F, r: Result<Value, RuntimeErrorKind>) -> bool {
    &&& a matches Value::Int(x) ==> r == Ok::<Value, RuntimeErrorKind>(Value::Int(vstd::wrapping::i64_specs::wrapping_sub(0i64, x)))
    &&& a matches Value::Float(x) ==> r is Ok && r->Ok_0 is Float && floats.ensures((FloatOp::Neg, x, 0u64), r->Ok_0->Float_0)
    &&& !is_number(a) ==> r is Err && is_wrong_type(r->Err_0, seq![ValueType::Int, ValueType::Float], a.spec_ty())
}

/// `-a` on a number.
pub fn negate<F: Fn(FloatOp, u64, u64) -> u64>(a: Value, floats: &F) -> (r: Result<Value, RuntimeErrorKind>)
    requires
        float_unit_total(floats),
    ensures
        negate_spec(a, floats, r),
{
    match a {
        Value::Int(x) => Ok(Value::Int(0i64.wrapping_sub(x))),
        Value::Float(x) => Ok(Value::Float(floats(FloatOp::Neg, x, 0u64))),
        _ => Err(numeric_error(a, a)),
    }
}

/// What `!a` gives.
pub open spec fn not_spec(a: Value, r: Result<Value, RuntimeErrorKind>) -> bool {
    &&& a matches Value::Bool(x) ==> r == Ok::<Value, RuntimeErrorKind>(Value::Bool(!x))
    &&& !(a is Bool) ==> r is Err && is_wrong_type(r->Err_0, seq![ValueType::Bool], a.spec_ty())
}

/// `!a` on a boolean.
pub fn not(a: Value) -> (r: Result<Value, RuntimeErrorKind>)
    ensures
        not_spec(a, r),
{
    match a {
        Value::Bool(x) => Ok(Value::Bool(!x)),
        _ => {
            let e = wrong_type(&[ValueType::Bool], a.ty());
            assert(e->InvalidType_expected@ =~= seq![ValueType::Bool]);
            Err(e)
        },
    }
}

/// What `a and b` (`is_and`) or `a or b` gives.
pub open spec fn logic_spec(is_and: bool, a: Value, b: Value, r: Result<Value, RuntimeErrorKind>) -> bool {
    &&& (a, b) matches (Value::Bool(x), Value::Bool(y)) ==> r == Ok::<Value, RuntimeErrorKind>(Value::Bool(if is_and { x && y } else { x || y }))
    &&& !(a is Bool && b is Bool) ==> r is Err && is_wrong_type(
        r->Err_0,
        seq![ValueType::Bool],
        if a is Bool { b.spec_ty() } else { a.spec_ty() },
    )
}

/// `a and b` (`is_and`) or `a or b` on booleans.
pub fn logic(is_and: bool, a: Value, b: Value) -> (r: Result<Value, RuntimeErrorKind>)
    ensures
        logic_spec(is_and, a, b, r),
{
    match (a, b) {
        (Value::Bool(x), Value::Bool(y)) => Ok(Value::Bool(if is_and { x && y } else { x || y })),
        _ => {
            let received = match a {
                Value::Bool(_) => b.ty(),
                _ => a.ty(),
            };
            let e = wrong_type(&[ValueType::Bool], received);
            assert(e->InvalidType_expected@ =~= seq![ValueType::Bool]);
            Err(e)
        },
    }
}

pub open spec fn int_bitwise(op: BitOp, x: i64, y: i64) -> i64 {
    match op {
        BitOp::And => x & y,
        BitOp::Or => x | y,
        BitOp::Xor => x ^ y,
        BitOp::Shl => vstd::wrapping::i64_specs::wrapping_shl(x, y as u32),
        BitOp::Shr => vstd::wrapping::i64_specs::wrapping_shr(x, y as u32),
    }
}

/// What a bitwise operation gives on two values.
pub open spec fn bitwise_spec(op: BitOp, a: Value, b: Value, r: Result<Value, RuntimeErrorKind>) -> bool {
    &&& (a, b) matches (Value::Int(x), Value::Int(y)) ==> r == Ok::<Value, RuntimeErrorKind>(Value::Int(int_bitwise(op, x, y)))
    &&& !(a is Int && b is Int) ==> r is Err && is_wrong_type(
        r->Err_0,
        seq![ValueType::Int],
        if a is Int { b.spec_ty() } else { a.spec_ty() },
    )
}

/// Bitwise operations and shifts on integers; the shift amount is taken
/// modulo 64; see `bitwise_spec`.
pub fn bitwise(op: BitOp, a: Value, b: Value) -> (r: Result<Value, RuntimeErrorKind>)
    ensures
        bitwise_spec(op, a, b, r),
{
    match (a, b) {
        (Value::Int(x), Value::Int(y)) => {
            let z = match op {
                BitOp::And => x & y,
                BitOp::Or => x | y,
                BitOp::Xor => x ^ y,
                BitOp::Shl => x.wrapping_shl(y as u32),
                BitOp::Shr => x.wrapping_shr(y as u32),
            };
            Ok(Value::Int(z))
        },
        _ => {
            let received = match a {
                Value::Int(_) => b.ty(),
                _ => a.ty(),
            };
            let e = wrong_type(&[ValueType::Int], received);
            assert(e->InvalidType_expected@ =~= seq![ValueType::Int]);
            Err(e)
        },
    }
}

} // verus!
