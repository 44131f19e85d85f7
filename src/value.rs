//! Arithmetic on runtime values. These operators are strict: operands of
//! different kinds, a zero divisor or a result outside the operands' width
//! are not admitted (callers must rule them out).
use crate::types::{DataValue, Value};
use vstd::prelude::*;

verus! {

#[derive(Clone, Copy)]
pub enum ArithOp {
    Add,
    Sub,
    Mul,
    Div,
}

/// Integer division rounding toward zero, as Rust's `/` does.
pub open spec fn trunc_div(a: int, b: int) -> int {
    if a == 0 {
        0
    } else if a > 0 && b > 0 {
        a / b
    } else if a < 0 && b < 0 {
        (a * -1) / (b * -1)
    } else if a < 0 {
        ((a * -1) / b) * -1
    } else {
        (a / (b * -1)) * -1
    }
}

/// The exact result of `a op b`; `None` for a zero divisor.
pub open spec fn int_arith(op: ArithOp, a: int, b: int) -> Option<int> {
    match op {
        ArithOp::Add => Some(a + b),
        ArithOp::Sub => Some(a - b),
        ArithOp::Mul => Some(a * b),
        ArithOp::Div => if b == 0 {
            None
        } else {
            Some(trunc_div(a, b))
        },
    }
}

/// `a op b` on two values: both integers of one width, with the exact result
/// inside that width, or (for `+` only) two strings, which concatenate.
/// `None` for every other pair.
pub open spec fn value_arith(op: ArithOp, a: Value, b: Value) -> Option<Value> {
    match (a, b) {
        (Value::Int64(x), Value::Int64(y)) => match int_arith(op, x as int, y as int) {
            Some(v) => if i64::MIN <= v <= i64::MAX {
                Some(Value::Int64(v as i64))
            } else {
                None
            },
            None => None,
        },
        (Value::Int32(x), Value::Int32(y)) => match int_arith(op, x as int, y as int) {
            Some(v) => if i32::MIN <= v <= i32::MAX {
                Some(Value::Int32(v as i32))
            } else {
                None
            },
            None => None,
        },
        (Value::Int16(x), Value::Int16(y)) => match int_arith(op, x as int, y as int) {
            Some(v) => if i16::MIN <= v <= i16::MAX {
                Some(Value::Int16(v as i16))
            } else {
                None
            },
            None => None,
        },
        (Value::Int8(x), Value::Int8(y)) => match int_arith(op, x as int, y as int) {
            Some(v) => if i8::MIN <= v <= i8::MAX {
                Some(Value::Int8(v as i8))
            } else {
                None
            },
            None => None,
        },
        (Value::Str(x), Value::Str(y)) => match op {
            ArithOp::Add => Some(Value::Str(x + y)),
            _ => None,
        },
        _ => None,
    }
}

pub fn checked_i64(op: ArithOp, x: i64, y: i64) -> (r: Option<i64>)
    ensures
        r == (match int_arith(op, x as int, y as int) {
            Some(v) => if i64::MIN <= v <= i64::MAX {
                Some(v as i64)
            } else {
                None
            },
            None => None,
        }),
{
    match op {
        ArithOp::Add => x.checked_add(y),
        ArithOp::Sub => x.checked_sub(y),
        ArithOp::Mul => x.checked_mul(y),
        ArithOp::Div => x.checked_div(y),
    }
}

pub fn checked_i32(op: ArithOp, x: i32, y: i32) -> (r: Option<i32>)
    ensures
        r == (match int_arith(op, x as int, y as int) {
            Some(v) => if i32::MIN <= v <= i32::MAX {
                Some(v as i32)
            } else {
                None
            },
            None => None,
        }),
{
    match op {
        ArithOp::Add => x.checked_add(y),
        ArithOp::Sub => x.checked_sub(y),
        ArithOp::Mul => x.checked_mul(y),
        ArithOp::Div => x.checked_div(y),
    }
}

pub fn checked_i16(op: ArithOp, x: i16, y: i16) -> (r: Option<i16>)
    ensures
        r == (match int_arith(op, x as int, y as int) {
            Some(v) => if i16::MIN <= v <= i16::MAX {
                Some(v as i16)
            } else {
                None
            },
            None => None,
        }),
{
    match op {
        ArithOp::Add => x.checked_add(y),
        ArithOp::Sub => x.checked_sub(y),
        ArithOp::Mul => x.checked_mul(y),
        ArithOp::Div => x.checked_div(y),
    }
}

pub fn checked_i8(op: ArithOp, x: i8, y: i8) -> (r: Option<i8>)
    ensures
        r == (match int_arith(op, x as int, y as int) {
            Some(v) => if i8::MIN <= v <= i8::MAX {
                Some(v as i8)
            } else {
                None
            },
            None => None,
        }),
{
    match op {
        ArithOp::Add => x.checked_add(y),
        ArithOp::Sub => x.checked_sub(y),
        ArithOp::Mul => x.checked_mul(y),
        ArithOp::Div => x.checked_div(y),
    }
}

pub open spec fn opt_value(v: Option<DataValue>) -> Option<Value> {
    match v {
        Some(d) => Some(d@),
        None => None,
    }
}

/// `a op b` by `value_arith`, on values that are owned.
pub fn apply(op: ArithOp, a: DataValue, b: DataValue) -> (r: Option<DataValue>)
    ensures
        opt_value(r) == value_arith(op, a@, b@),
{
    match (a, b) {
        (DataValue::Int64(x), DataValue::Int64(y)) => match checked_i64(op, x, y) {
            Some(v) => Some(DataValue::Int64(v)),
            None => None,
        },
        (DataValue::Int32(x), DataValue::Int32(y)) => match checked_i32(op, x, y) {
            Some(v) => Some(DataValue::Int32(v)),
            None => None,
        },
        (DataValue::Int16(x), DataValue::Int16(y)) => match checked_i16(op, x, y) {
            Some(v) => Some(DataValue::Int16(v)),
            None => None,
        },
        (DataValue::Int8(x), DataValue::Int8(y)) => match checked_i8(op, x, y) {
            Some(v) => Some(DataValue::Int8(v)),
            None => None,
        },
        (DataValue::String(x), DataValue::String(y)) => match op {
            ArithOp::Add => {
                let mut s = x;
                s.append(y.as_str());
                Some(DataValue::String(s))
            },
            _ => None,
        },
        _ => None,
    }
}

impl DataValue {
    /// Integers of one width add; two strings concatenate.
    pub fn add(self, other: DataValue) -> (r: DataValue)
        requires
            value_arith(ArithOp::Add, self@, other@) is Some,
        ensures
            Some(r@) == value_arith(ArithOp::Add, self@, other@),
    {
        match apply(ArithOp::Add, self, other) {
            Some(v) => v,
            None => DataValue::Null,
        }
    }

    /// Integers of one width subtract.
    pub fn sub(self, other: DataValue) -> (r: DataValue)
        requires
            value_arith(ArithOp::Sub, self@, other@) is Some,
        ensures
            Some(r@) == value_arith(ArithOp::Sub, self@, other@),
    {
        match apply(ArithOp::Sub, self, other) {
            Some(v) => v,
            None => DataValue::Null,
        }
    }

    /// Integers of one width multiply.
    pub fn mul(self, other: DataValue) -> (r: DataValue)
        requires
            value_arith(ArithOp::Mul, self@, other@) is Some,
        ensures
            Some(r@) == value_arith(ArithOp::Mul, self@, other@),
    {
        match apply(ArithOp::Mul, self, other) {
            Some(v) => v,
            None => DataValue::Null,
        }
    }

    /// Integers of one width divide, rounding toward zero; the divisor is not zero.
    pub fn div(self, other: DataValue) -> (r: DataValue)
        requires
            value_arith(ArithOp::Div, self@, other@) is Some,
        ensures
            Some(r@) == value_arith(ArithOp::Div, self@, other@),
    {
        match apply(ArithOp::Div, self, other) {
            Some(v) => v,
            None => DataValue::Null,
        }
    }
}

} // verus!
