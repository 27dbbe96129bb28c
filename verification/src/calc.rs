//! Constant folding of operators on literals.

use vstd::prelude::*;

use crate::ast::{BinaryOp, UnaryOp};
use crate::float::{add_floats, divide_floats, multiply_floats};
use crate::float::{float_product, float_quotient, float_sum};
use crate::literal::{is_nan32, is_nan64, key32, key64, FloatKind, Literal};
use crate::literal::{float_eq, float_lt, float_sign, IntKind, LiteralV};

verus! {

/// The compile-time evaluator of operators on literals.
pub struct Calc;

/// The quotient rounded toward zero.
pub open spec fn trunc_div(l: int, r: int) -> int {
    if l >= 0 && r > 0 {
        l / r
    } else if l < 0 && r < 0 {
        (-l) / (-r)
    } else if l < 0 {
        -((-l) / r)
    } else {
        -(l / (-r))
    }
}

/// The remainder of the quotient rounded toward zero: it has the sign of `l`.
pub open spec fn trunc_rem(l: int, r: int) -> int {
    if l >= 0 && r > 0 {
        l % r
    } else if l < 0 && r < 0 {
        -((-l) % (-r))
    } else if l < 0 {
        -((-l) % r)
    } else {
        l % (-r)
    }
}

/// The literal of type `k` with value `v`, where the type holds it.
pub open spec fn int_literal(k: IntKind, v: int) -> Option<LiteralV> {
    if crate::literal::int_fits(k, v) {
        Some(LiteralV::Int(k, v))
    } else {
        None
    }
}

/// What an operator gives on two integers of one type: arithmetic folds where
/// the result is defined and fits, comparisons always fold, `&&` and `||` never.
pub open spec fn fold_int(op: BinaryOp, k: IntKind, l: int, r: int) -> Option<LiteralV> {
    match op {
        BinaryOp::Add => int_literal(k, l + r),
        BinaryOp::Sub => int_literal(k, l - r),
        BinaryOp::Mul => int_literal(k, l * r),
        BinaryOp::Div => if r == 0 {
            None
        } else {
            int_literal(k, trunc_div(l, r))
        },
        BinaryOp::Mod => if r == 0 || !crate::literal::int_fits(k, trunc_div(l, r)) {
            None
        } else {
            Some(LiteralV::Int(k, trunc_rem(l, r)))
        },
        BinaryOp::Eq => Some(LiteralV::Bool(l == r)),
        BinaryOp::Neq => Some(LiteralV::Bool(l != r)),
        BinaryOp::Lt => Some(LiteralV::Bool(l < r)),
        BinaryOp::Gt => Some(LiteralV::Bool(l > r)),
        BinaryOp::Le => Some(LiteralV::Bool(l <= r)),
        BinaryOp::Ge => Some(LiteralV::Bool(l >= r)),
        BinaryOp::And | BinaryOp::Or => None,
    }
}

/// What an operator gives on two booleans.
pub open spec fn fold_bools(op: BinaryOp, l: bool, r: bool) -> Option<LiteralV> {
    match op {
        BinaryOp::And => Some(LiteralV::Bool(l && r)),
        BinaryOp::Or => Some(LiteralV::Bool(l || r)),
        BinaryOp::Eq => Some(LiteralV::Bool(l == r)),
        BinaryOp::Neq => Some(LiteralV::Bool(l != r)),
        _ => None,
    }
}

/// What an arithmetic operator gives on two floats.
pub open spec fn float_arithmetic(op: BinaryOp, k: FloatKind, l: int, r: int) -> Option<int> {
    match op {
        BinaryOp::Add => Some(float_sum(k, l, r)),
        BinaryOp::Sub => Some(float_sum(k, l, float_negate(k, r))),
        BinaryOp::Mul => Some(float_product(k, l, r)),
        BinaryOp::Div => Some(float_quotient(k, l, r)),
        _ => None,
    }
}

/// What a comparison gives on two floats.
pub open spec fn float_comparison(op: BinaryOp, k: FloatKind, l: int, r: int) -> Option<bool> {
    match op {
        BinaryOp::Eq => Some(float_eq(k, l, r)),
        BinaryOp::Neq => Some(!float_eq(k, l, r)),
        BinaryOp::Lt => Some(float_lt(k, l, r)),
        BinaryOp::Gt => Some(float_lt(k, r, l)),
        BinaryOp::Le => Some(float_lt(k, l, r) || float_eq(k, l, r)),
        BinaryOp::Ge => Some(float_lt(k, r, l) || float_eq(k, l, r)),
        _ => None,
    }
}

/// What an operator gives on two floats of one type: IEEE arithmetic and
/// comparisons fold, `%`, `&&` and `||` never.
pub open spec fn fold_float(op: BinaryOp, k: FloatKind, l: int, r: int) -> Option<LiteralV> {
    match float_arithmetic(op, k, l, r) {
        Some(v) => Some(LiteralV::Float(k, v)),
        None => match float_comparison(op, k, l, r) {
            Some(b) => Some(LiteralV::Bool(b)),
            None => None,
        },
    }
}

/// What a binary operator gives on two literals; `None` where it does not fold.
pub open spec fn fold_binary(op: BinaryOp, left: LiteralV, right: LiteralV) -> Option<LiteralV> {
    match (left, right) {
        (LiteralV::Int(j, l), LiteralV::Int(k, r)) => if j == k {
            fold_int(op, k, l, r)
        } else {
            None
        },
        (LiteralV::Float(j, l), LiteralV::Float(k, r)) => if j == k {
            fold_float(op, k, l, r)
        } else {
            None
        },
        (LiteralV::Bool(l), LiteralV::Bool(r)) => fold_bools(op, l, r),
        _ => None,
    }
}

/// Whether an integer type has negative values.
pub open spec fn is_signed(k: IntKind) -> bool {
    crate::literal::int_min(k) < 0
}

/// The bit pattern of a float with its sign changed.
pub open spec fn float_negate(k: FloatKind, bits: int) -> int {
    if bits >= crate::literal::float_sign(k) {
        bits - crate::literal::float_sign(k)
    } else {
        bits + crate::literal::float_sign(k)
    }
}

/// What a unary operator gives on a literal: negation of a signed integer where
/// the result fits, the sign change of a float, and the negation of a boolean.
pub open spec fn fold_unary(op: UnaryOp, v: LiteralV) -> Option<LiteralV> {
    match (op, v) {
        (UnaryOp::Neg, LiteralV::Int(k, i)) => if is_signed(k) {
            int_literal(k, -i)
        } else {
            None
        },
        (UnaryOp::Neg, LiteralV::Float(k, b)) => Some(LiteralV::Float(k, float_negate(k, b))),
        (UnaryOp::Not, LiteralV::Bool(b)) => Some(LiteralV::Bool(!b)),
        _ => None,
    }
}

fn flip_sign32(b: u32) -> (r: u32)
    ensures
        r == float_negate(FloatKind::F32, b as int),
        r == float_negate(FloatKind::F16, b as int),
{
    if b >= 0x8000_0000 {
        b - 0x8000_0000
    } else {
        b + 0x8000_0000
    }
}

fn flip_sign64(b: u64) -> (r: u64)
    ensures
        r == float_negate(FloatKind::F64, b as int),
{
    if b >= 0x8000_0000_0000_0000 {
        b - 0x8000_0000_0000_0000
    } else {
        b + 0x8000_0000_0000_0000
    }
}

/// A truncated quotient is no larger than the dividend in magnitude, and has the
/// dividend's magnitude only on division by one or minus one; a remainder keeps
/// within the dividend.
pub proof fn lemma_trunc_bounds(l: int, r: int)
    requires
        r != 0,
    ensures
        l >= 0 ==> -l <= trunc_div(l, r) <= l,
        l < 0 ==> l <= trunc_div(l, r) <= -l,
        l < 0 && trunc_div(l, r) == -l ==> r == -1,
        l < 0 && r == -1 ==> trunc_div(l, r) == -l,
        l >= 0 ==> 0 <= trunc_rem(l, r) <= l,
        l < 0 ==> l <= trunc_rem(l, r) <= 0,
        l == 0 ==> trunc_div(l, r) == 0 && trunc_rem(l, r) == 0,
        l > 0 && r > 0 ==> trunc_div(l, r) == l / r && trunc_rem(l, r) == l % r,
        l < 0 && r < 0 ==> trunc_div(l, r) == (l * -1) / (r * -1) && trunc_rem(l, r) == ((l * -1)
            % (r * -1)) * -1,
        l < 0 && r > 0 ==> trunc_div(l, r) == ((l * -1) / r) * -1 && trunc_rem(l, r) == ((l * -1)
            % r) * -1,
        l > 0 && r < 0 ==> trunc_div(l, r) == (l / (r * -1)) * -1 && trunc_rem(l, r) == l % (r
            * -1),
{
    let x: int = if l < 0 { -l } else { l };
    let d: int = if r < 0 { -r } else { r };
    assert(0 <= x / d <= x) by (nonlinear_arith)
        requires
            x >= 0,
            d >= 1,
    ;
    assert(x > 0 && d > 1 ==> x / d < x) by (nonlinear_arith)
        requires
            x >= 0,
            d >= 1,
    ;
    assert(d == 1 ==> x / d == x) by (nonlinear_arith)
        requires
            x >= 0,
            d >= 1,
    ;
    assert(0 <= x % d <= x) by (nonlinear_arith)
        requires
            x >= 0,
            d >= 1,
    ;
}

/// The value of an arithmetic operator on two floats.
fn float_arith(op: BinaryOp, k: FloatKind, l: u64, r: u64) -> (res: Option<u64>)
    requires
        l < 2 * float_sign(k),
        r < 2 * float_sign(k),
    ensures
        match res {
            Some(v) => float_arithmetic(op, k, l as int, r as int) == Some(v as int) && v < 2
                * float_sign(k),
            None => float_arithmetic(op, k, l as int, r as int) is None,
        },
{
    match op {
        BinaryOp::Add => Some(add_floats(k, l, r)),
        BinaryOp::Sub => {
            let n: u64 = match k {
                FloatKind::F64 => flip_sign64(r),
                _ => flip_sign32(r as u32) as u64,
            };
            Some(add_floats(k, l, n))
        },
        BinaryOp::Mul => Some(multiply_floats(k, l, r)),
        BinaryOp::Div => Some(divide_floats(k, l, r)),
        _ => None,
    }
}

/// The value of a comparison on two numbers, where `nan` tells that one of them
/// is not a number, from the order of their keys.
fn float_compare(op: BinaryOp, nan: bool, below: bool, above: bool) -> (res: Option<bool>)
    requires
        !(below && above),
    ensures
        res == match op {
            BinaryOp::Eq => Some(!nan && !below && !above),
            BinaryOp::Neq => Some(nan || below || above),
            BinaryOp::Lt => Some(!nan && below),
            BinaryOp::Gt => Some(!nan && above),
            BinaryOp::Le => Some(!nan && !above),
            BinaryOp::Ge => Some(!nan && !below),
            _ => None,
        },
{
    match op {
        BinaryOp::Eq => Some(!nan && !below && !above),
        BinaryOp::Neq => Some(nan || below || above),
        BinaryOp::Lt => Some(!nan && below),
        BinaryOp::Gt => Some(!nan && above),
        BinaryOp::Le => Some(!nan && !above),
        BinaryOp::Ge => Some(!nan && !below),
        _ => None,
    }
}

impl Calc {
    fn fold_f16(op: BinaryOp, l: u32, r: u32) -> (res: Option<Literal>)
        ensures
            res.deep_view() == fold_float(op, FloatKind::F16, l as int, r as int),
    {
        match float_arith(op, FloatKind::F16, l as u64, r as u64) {
            Some(v) => Some(Literal::Float16(v as u32)),
            None => {
                let nan = is_nan32(l) || is_nan32(r);
                match float_compare(op, nan, key32(l) < key32(r), key32(l) > key32(r)) {
                    Some(b) => Some(Literal::Bool(b)),
                    None => None,
                }
            },
        }
    }

    fn fold_f32(op: BinaryOp, l: u32, r: u32) -> (res: Option<Literal>)
        ensures
            res.deep_view() == fold_float(op, FloatKind::F32, l as int, r as int),
    {
        match float_arith(op, FloatKind::F32, l as u64, r as u64) {
            Some(v) => Some(Literal::Float32(v as u32)),
            None => {
                let nan = is_nan32(l) || is_nan32(r);
                match float_compare(op, nan, key32(l) < key32(r), key32(l) > key32(r)) {
                    Some(b) => Some(Literal::Bool(b)),
                    None => None,
                }
            },
        }
    }

    fn fold_f64(op: BinaryOp, l: u64, r: u64) -> (res: Option<Literal>)
        ensures
            res.deep_view() == fold_float(op, FloatKind::F64, l as int, r as int),
    {
        match float_arith(op, FloatKind::F64, l, r) {
            Some(v) => Some(Literal::Float64(v)),
            None => {
                let nan = is_nan64(l) || is_nan64(r);
                match float_compare(op, nan, key64(l) < key64(r), key64(l) > key64(r)) {
                    Some(b) => Some(Literal::Bool(b)),
                    None => None,
                }
            },
        }
    }

    fn fold_i8(op: BinaryOp, l: i8, r: i8) -> (res: Option<Literal>)
        ensures
            res.deep_view() == fold_int(op, IntKind::I8, l as int, r as int),
    {
        match op {
            BinaryOp::Add => match l.checked_add(r) {
                Some(v) => Some(Literal::Int8(v)),
                None => None,
            },
            BinaryOp::Sub => match l.checked_sub(r) {
                Some(v) => Some(Literal::Int8(v)),
                None => None,
            },
            BinaryOp::Mul => match l.checked_mul(r) {
                Some(v) => Some(Literal::Int8(v)),
                None => None,
            },
            BinaryOp::Div => {
                proof {
                    if r != 0 {
                        lemma_trunc_bounds(l as int, r as int);
                    }
                }
                match l.checked_div(r) {
                    Some(v) => Some(Literal::Int8(v)),
                    None => None,
                }
            },
            BinaryOp::Mod => {
                proof {
                    if r != 0 {
                        lemma_trunc_bounds(l as int, r as int);
                    }
                }
                match l.checked_rem(r) {
                    Some(v) => Some(Literal::Int8(v)),
                    None => None,
                }
            },
            BinaryOp::Eq => Some(Literal::Bool(l == r)),
            BinaryOp::Neq => Some(Literal::Bool(l != r)),
            BinaryOp::Lt => Some(Literal::Bool(l < r)),
            BinaryOp::Gt => Some(Literal::Bool(l > r)),
            BinaryOp::Le => Some(Literal::Bool(l <= r)),
            BinaryOp::Ge => Some(Literal::Bool(l >= r)),
            BinaryOp::And | BinaryOp::Or => None,
        }
    }

    fn fold_i16(op: BinaryOp, l: i16, r: i16) -> (res: Option<Literal>)
        ensures
            res.deep_view() == fold_int(op, IntKind::I16, l as int, r as int),
    {
        match op {
            BinaryOp::Add => match l.checked_add(r) {
                Some(v) => Some(Literal::Int16(v)),
                None => None,
            },
            BinaryOp::Sub => match l.checked_sub(r) {
                Some(v) => Some(Literal::Int16(v)),
                None => None,
            },
            BinaryOp::Mul => match l.checked_mul(r) {
                Some(v) => Some(Literal::Int16(v)),
                None => None,
            },
            BinaryOp::Div => {
                proof {
                    if r != 0 {
                        lemma_trunc_bounds(l as int, r as int);
                    }
                }
                match l.checked_div(r) {
                    Some(v) => Some(Literal::Int16(v)),
                    None => None,
                }
            },
            BinaryOp::Mod => {
                proof {
                    if r != 0 {
                        lemma_trunc_bounds(l as int, r as int);
                    }
                }
                match l.checked_rem(r) {
                    Some(v) => Some(Literal::Int16(v)),
                    None => None,
                }
            },
            BinaryOp::Eq => Some(Literal::Bool(l == r)),
            BinaryOp::Neq => Some(Literal::Bool(l != r)),
            BinaryOp::Lt => Some(Literal::Bool(l < r)),
            BinaryOp::Gt => Some(Literal::Bool(l > r)),
            BinaryOp::Le => Some(Literal::Bool(l <= r)),
            BinaryOp::Ge => Some(Literal::Bool(l >= r)),
            BinaryOp::And | BinaryOp::Or => None,
        }
    }

    fn fold_i32(op: BinaryOp, l: i32, r: i32) -> (res: Option<Literal>)
        ensures
            res.deep_view() == fold_int(op, IntKind::I32, l as int, r as int),
    {
        match op {
            BinaryOp::Add => match l.checked_add(r) {
                Some(v) => Some(Literal::Int32(v)),
                None => None,
            },
            BinaryOp::Sub => match l.checked_sub(r) {
                Some(v) => Some(Literal::Int32(v)),
                None => None,
            },
            BinaryOp::Mul => match l.checked_mul(r) {
                Some(v) => Some(Literal::Int32(v)),
                None => None,
            },
            BinaryOp::Div => {
                proof {
                    if r != 0 {
                        lemma_trunc_bounds(l as int, r as int);
                    }
                }
                match l.checked_div(r) {
                    Some(v) => Some(Literal::Int32(v)),
                    None => None,
                }
            },
            BinaryOp::Mod => {
                proof {
                    if r != 0 {
                        lemma_trunc_bounds(l as int, r as int);
                    }
                }
                match l.checked_rem(r) {
                    Some(v) => Some(Literal::Int32(v)),
                    None => None,
                }
            },
            BinaryOp::Eq => Some(Literal::Bool(l == r)),
            BinaryOp::Neq => Some(Literal::Bool(l != r)),
            BinaryOp::Lt => Some(Literal::Bool(l < r)),
            BinaryOp::Gt => Some(Literal::Bool(l > r)),
            BinaryOp::Le => Some(Literal::Bool(l <= r)),
            BinaryOp::Ge => Some(Literal::Bool(l >= r)),
            BinaryOp::And | BinaryOp::Or => None,
        }
    }

    fn fold_i64(op: BinaryOp, l: i64, r: i64) -> (res: Option<Literal>)
        ensures
            res.deep_view() == fold_int(op, IntKind::I64, l as int, r as int),
    {
        match op {
            BinaryOp::Add => match l.checked_add(r) {
                Some(v) => Some(Literal::Int64(v)),
                None => None,
            },
            BinaryOp::Sub => match l.checked_sub(r) {
                Some(v) => Some(Literal::Int64(v)),
                None => None,
            },
            BinaryOp::Mul => match l.checked_mul(r) {
                Some(v) => Some(Literal::Int64(v)),
                None => None,
            },
            BinaryOp::Div => {
                proof {
                    if r != 0 {
                        lemma_trunc_bounds(l as int, r as int);
                    }
                }
                match l.checked_div(r) {
                    Some(v) => Some(Literal::Int64(v)),
                    None => None,
                }
            },
            BinaryOp::Mod => {
                proof {
                    if r != 0 {
                        lemma_trunc_bounds(l as int, r as int);
                    }
                }
                match l.checked_rem(r) {
                    Some(v) => Some(Literal::Int64(v)),
                    None => None,
                }
            },
            BinaryOp::Eq => Some(Literal::Bool(l == r)),
            BinaryOp::Neq => Some(Literal::Bool(l != r)),
            BinaryOp::Lt => Some(Literal::Bool(l < r)),
            BinaryOp::Gt => Some(Literal::Bool(l > r)),
            BinaryOp::Le => Some(Literal::Bool(l <= r)),
            BinaryOp::Ge => Some(Literal::Bool(l >= r)),
            BinaryOp::And | BinaryOp::Or => None,
        }
    }

    fn fold_i128(op: BinaryOp, l: i128, r: i128) -> (res: Option<Literal>)
        ensures
            res.deep_view() == fold_int(op, IntKind::I128, l as int, r as int),
    {
        match op {
            BinaryOp::Add => match l.checked_add(r) {
                Some(v) => Some(Literal::Int128(v)),
                None => None,
            },
            BinaryOp::Sub => match l.checked_sub(r) {
                Some(v) => Some(Literal::Int128(v)),
                None => None,
            },
            BinaryOp::Mul => match l.checked_mul(r) {
                Some(v) => Some(Literal::Int128(v)),
                None => None,
            },
            BinaryOp::Div => {
                proof {
                    if r != 0 {
                        lemma_trunc_bounds(l as int, r as int);
                    }
                }
                match l.checked_div(r) {
                    Some(v) => Some(Literal::Int128(v)),
                    None => None,
                }
            },
            BinaryOp::Mod => {
                proof {
                    if r != 0 {
                        lemma_trunc_bounds(l as int, r as int);
                    }
                }
                match l.checked_rem(r) {
                    Some(v) => Some(Literal::Int128(v)),
                    None => None,
                }
            },
            BinaryOp::Eq => Some(Literal::Bool(l == r)),
            BinaryOp::Neq => Some(Literal::Bool(l != r)),
            BinaryOp::Lt => Some(Literal::Bool(l < r)),
            BinaryOp::Gt => Some(Literal::Bool(l > r)),
            BinaryOp::Le => Some(Literal::Bool(l <= r)),
            BinaryOp::Ge => Some(Literal::Bool(l >= r)),
            BinaryOp::And | BinaryOp::Or => None,
        }
    }

    fn fold_isize(op: BinaryOp, l: isize, r: isize) -> (res: Option<Literal>)
        ensures
            res.deep_view() == fold_int(op, IntKind::Isize, l as int, r as int),
    {
        match op {
            BinaryOp::Add => match l.checked_add(r) {
                Some(v) => Some(Literal::Isize(v)),
                None => None,
            },
            BinaryOp::Sub => match l.checked_sub(r) {
                Some(v) => Some(Literal::Isize(v)),
                None => None,
            },
            BinaryOp::Mul => match l.checked_mul(r) {
                Some(v) => Some(Literal::Isize(v)),
                None => None,
            },
            BinaryOp::Div => {
                proof {
                    if r != 0 {
                        lemma_trunc_bounds(l as int, r as int);
                    }
                }
                match l.checked_div(r) {
                    Some(v) => Some(Literal::Isize(v)),
                    None => None,
                }
            },
            BinaryOp::Mod => {
                proof {
                    if r != 0 {
                        lemma_trunc_bounds(l as int, r as int);
                    }
                }
                match l.checked_rem(r) {
                    Some(v) => Some(Literal::Isize(v)),
                    None => None,
                }
            },
            BinaryOp::Eq => Some(Literal::Bool(l == r)),
            BinaryOp::Neq => Some(Literal::Bool(l != r)),
            BinaryOp::Lt => Some(Literal::Bool(l < r)),
            BinaryOp::Gt => Some(Literal::Bool(l > r)),
            BinaryOp::Le => Some(Literal::Bool(l <= r)),
            BinaryOp::Ge => Some(Literal::Bool(l >= r)),
            BinaryOp::And | BinaryOp::Or => None,
        }
    }

    fn fold_u8(op: BinaryOp, l: u8, r: u8) -> (res: Option<Literal>)
        ensures
            res.deep_view() == fold_int(op, IntKind::U8, l as int, r as int),
    {
        match op {
            BinaryOp::Add => match l.checked_add(r) {
                Some(v) => Some(Literal::UInt8(v)),
                None => None,
            },
            BinaryOp::Sub => match l.checked_sub(r) {
                Some(v) => Some(Literal::UInt8(v)),
                None => None,
            },
            BinaryOp::Mul => match l.checked_mul(r) {
                Some(v) => Some(Literal::UInt8(v)),
                None => None,
            },
            BinaryOp::Div => {
                proof {
                    if r != 0 {
                        lemma_trunc_bounds(l as int, r as int);
                    }
                }
                match l.checked_div(r) {
                    Some(v) => Some(Literal::UInt8(v)),
                    None => None,
                }
            },
            BinaryOp::Mod => {
                proof {
                    if r != 0 {
                        lemma_trunc_bounds(l as int, r as int);
                    }
                }
                match l.checked_rem(r) {
                    Some(v) => Some(Literal::UInt8(v)),
                    None => None,
                }
            },
            BinaryOp::Eq => Some(Literal::Bool(l == r)),
            BinaryOp::Neq => Some(Literal::Bool(l != r)),
            BinaryOp::Lt => Some(Literal::Bool(l < r)),
            BinaryOp::Gt => Some(Literal::Bool(l > r)),
            BinaryOp::Le => Some(Literal::Bool(l <= r)),
            BinaryOp::Ge => Some(Literal::Bool(l >= r)),
            BinaryOp::And | BinaryOp::Or => None,
        }
    }

    fn fold_u16(op: BinaryOp, l: u16, r: u16) -> (res: Option<Literal>)
        ensures
            res.deep_view() == fold_int(op, IntKind::U16, l as int, r as int),
    {
        match op {
            BinaryOp::Add => match l.checked_add(r) {
                Some(v) => Some(Literal::UInt16(v)),
                None => None,
            },
            BinaryOp::Sub => match l.checked_sub(r) {
                Some(v) => Some(Literal::UInt16(v)),
                None => None,
            },
            BinaryOp::Mul => match l.checked_mul(r) {
                Some(v) => Some(Literal::UInt16(v)),
                None => None,
            },
            BinaryOp::Div => {
                proof {
                    if r != 0 {
                        lemma_trunc_bounds(l as int, r as int);
                    }
                }
                match l.checked_div(r) {
                    Some(v) => Some(Literal::UInt16(v)),
                    None => None,
                }
            },
            BinaryOp::Mod => {
                proof {
                    if r != 0 {
                        lemma_trunc_bounds(l as int, r as int);
                    }
                }
                match l.checked_rem(r) {
                    Some(v) => Some(Literal::UInt16(v)),
                    None => None,
                }
            },
            BinaryOp::Eq => Some(Literal::Bool(l == r)),
            BinaryOp::Neq => Some(Literal::Bool(l != r)),
            BinaryOp::Lt => Some(Literal::Bool(l < r)),
            BinaryOp::Gt => Some(Literal::Bool(l > r)),
            BinaryOp::Le => Some(Literal::Bool(l <= r)),
            BinaryOp::Ge => Some(Literal::Bool(l >= r)),
            BinaryOp::And | BinaryOp::Or => None,
        }
    }

    fn fold_u32(op: BinaryOp, l: u32, r: u32) -> (res: Option<Literal>)
        ensures
            res.deep_view() == fold_int(op, IntKind::U32, l as int, r as int),
    {
        match op {
            BinaryOp::Add => match l.checked_add(r) {
                Some(v) => Some(Literal::UInt32(v)),
                None => None,
            },
            BinaryOp::Sub => match l.checked_sub(r) {
                Some(v) => Some(Literal::UInt32(v)),
                None => None,
            },
            BinaryOp::Mul => match l.checked_mul(r) {
                Some(v) => Some(Literal::UInt32(v)),
                None => None,
            },
            BinaryOp::Div => {
                proof {
                    if r != 0 {
                        lemma_trunc_bounds(l as int, r as int);
                    }
                }
                match l.checked_div(r) {
                    Some(v) => Some(Literal::UInt32(v)),
                    None => None,
                }
            },
            BinaryOp::Mod => {
                proof {
                    if r != 0 {
                        lemma_trunc_bounds(l as int, r as int);
                    }
                }
                match l.checked_rem(r) {
                    Some(v) => Some(Literal::UInt32(v)),
                    None => None,
                }
            },
            BinaryOp::Eq => Some(Literal::Bool(l == r)),
            BinaryOp::Neq => Some(Literal::Bool(l != r)),
            BinaryOp::Lt => Some(Literal::Bool(l < r)),
            BinaryOp::Gt => Some(Literal::Bool(l > r)),
            BinaryOp::Le => Some(Literal::Bool(l <= r)),
            BinaryOp::Ge => Some(Literal::Bool(l >= r)),
            BinaryOp::And | BinaryOp::Or => None,
        }
    }

    fn fold_u64(op: BinaryOp, l: u64, r: u64) -> (res: Option<Literal>)
        ensures
            res.deep_view() == fold_int(op, IntKind::U64, l as int, r as int),
    {
        match op {
            BinaryOp::Add => match l.checked_add(r) {
                Some(v) => Some(Literal::UInt64(v)),
                None => None,
            },
            BinaryOp::Sub => match l.checked_sub(r) {
                Some(v) => Some(Literal::UInt64(v)),
                None => None,
            },
            BinaryOp::Mul => match l.checked_mul(r) {
                Some(v) => Some(Literal::UInt64(v)),
                None => None,
            },
            BinaryOp::Div => {
                proof {
                    if r != 0 {
                        lemma_trunc_bounds(l as int, r as int);
                    }
                }
                match l.checked_div(r) {
                    Some(v) => Some(Literal::UInt64(v)),
                    None => None,
                }
            },
            BinaryOp::Mod => {
                proof {
                    if r != 0 {
                        lemma_trunc_bounds(l as int, r as int);
                    }
                }
                match l.checked_rem(r) {
                    Some(v) => Some(Literal::UInt64(v)),
                    None => None,
                }
            },
            BinaryOp::Eq => Some(Literal::Bool(l == r)),
            BinaryOp::Neq => Some(Literal::Bool(l != r)),
            BinaryOp::Lt => Some(Literal::Bool(l < r)),
            BinaryOp::Gt => Some(Literal::Bool(l > r)),
            BinaryOp::Le => Some(Literal::Bool(l <= r)),
            BinaryOp::Ge => Some(Literal::Bool(l >= r)),
            BinaryOp::And | BinaryOp::Or => None,
        }
    }

    fn fold_u128(op: BinaryOp, l: u128, r: u128) -> (res: Option<Literal>)
        ensures
            res.deep_view() == fold_int(op, IntKind::U128, l as int, r as int),
    {
        match op {
            BinaryOp::Add => match l.checked_add(r) {
                Some(v) => Some(Literal::UInt128(v)),
                None => None,
            },
            BinaryOp::Sub => match l.checked_sub(r) {
                Some(v) => Some(Literal::UInt128(v)),
                None => None,
            },
            BinaryOp::Mul => match l.checked_mul(r) {
                Some(v) => Some(Literal::UInt128(v)),
                None => None,
            },
            BinaryOp::Div => {
                proof {
                    if r != 0 {
                        lemma_trunc_bounds(l as int, r as int);
                    }
                }
                match l.checked_div(r) {
                    Some(v) => Some(Literal::UInt128(v)),
                    None => None,
                }
            },
            BinaryOp::Mod => {
                proof {
                    if r != 0 {
                        lemma_trunc_bounds(l as int, r as int);
                    }
                }
                match l.checked_rem(r) {
                    Some(v) => Some(Literal::UInt128(v)),
                    None => None,
                }
            },
            BinaryOp::Eq => Some(Literal::Bool(l == r)),
            BinaryOp::Neq => Some(Literal::Bool(l != r)),
            BinaryOp::Lt => Some(Literal::Bool(l < r)),
            BinaryOp::Gt => Some(Literal::Bool(l > r)),
            BinaryOp::Le => Some(Literal::Bool(l <= r)),
            BinaryOp::Ge => Some(Literal::Bool(l >= r)),
            BinaryOp::And | BinaryOp::Or => None,
        }
    }

    fn fold_usize(op: BinaryOp, l: usize, r: usize) -> (res: Option<Literal>)
        ensures
            res.deep_view() == fold_int(op, IntKind::Usize, l as int, r as int),
    {
        match op {
            BinaryOp::Add => match l.checked_add(r) {
                Some(v) => Some(Literal::Usize(v)),
                None => None,
            },
            BinaryOp::Sub => match l.checked_sub(r) {
                Some(v) => Some(Literal::Usize(v)),
                None => None,
            },
            BinaryOp::Mul => match l.checked_mul(r) {
                Some(v) => Some(Literal::Usize(v)),
                None => None,
            },
            BinaryOp::Div => {
                proof {
                    if r != 0 {
                        lemma_trunc_bounds(l as int, r as int);
                    }
                }
                match l.checked_div(r) {
                    Some(v) => Some(Literal::Usize(v)),
                    None => None,
                }
            },
            BinaryOp::Mod => {
                proof {
                    if r != 0 {
                        lemma_trunc_bounds(l as int, r as int);
                    }
                }
                match l.checked_rem(r) {
                    Some(v) => Some(Literal::Usize(v)),
                    None => None,
                }
            },
            BinaryOp::Eq => Some(Literal::Bool(l == r)),
            BinaryOp::Neq => Some(Literal::Bool(l != r)),
            BinaryOp::Lt => Some(Literal::Bool(l < r)),
            BinaryOp::Gt => Some(Literal::Bool(l > r)),
            BinaryOp::Le => Some(Literal::Bool(l <= r)),
            BinaryOp::Ge => Some(Literal::Bool(l >= r)),
            BinaryOp::And | BinaryOp::Or => None,
        }
    }

    fn fold_bool(op: BinaryOp, l: bool, r: bool) -> (res: Option<Literal>)
        ensures
            res.deep_view() == fold_bools(op, l, r),
    {
        match op {
            BinaryOp::And => Some(Literal::Bool(l && r)),
            BinaryOp::Or => Some(Literal::Bool(l || r)),
            BinaryOp::Eq => Some(Literal::Bool(l == r)),
            BinaryOp::Neq => Some(Literal::Bool(l != r)),
            _ => None,
        }
    }

    /// The value of a binary operator on two literals.
    ///
    /// `None` where it does not fold: overflow, division by zero, operands of
    /// different types, or an operator the operands do not have.
    pub fn eval_binary_op(op: BinaryOp, left: Literal, right: Literal) -> (res: Option<Literal>)
        ensures
            res.deep_view() == fold_binary(op, left.deep_view(), right.deep_view()),
    {
        match (left, right) {
            (Literal::Int8(l), Literal::Int8(r)) => Self::fold_i8(op, l, r),
            (Literal::Int16(l), Literal::Int16(r)) => Self::fold_i16(op, l, r),
            (Literal::Int32(l), Literal::Int32(r)) => Self::fold_i32(op, l, r),
            (Literal::Int64(l), Literal::Int64(r)) => Self::fold_i64(op, l, r),
            (Literal::Int128(l), Literal::Int128(r)) => Self::fold_i128(op, l, r),
            (Literal::Isize(l), Literal::Isize(r)) => Self::fold_isize(op, l, r),
            (Literal::UInt8(l), Literal::UInt8(r)) => Self::fold_u8(op, l, r),
            (Literal::UInt16(l), Literal::UInt16(r)) => Self::fold_u16(op, l, r),
            (Literal::UInt32(l), Literal::UInt32(r)) => Self::fold_u32(op, l, r),
            (Literal::UInt64(l), Literal::UInt64(r)) => Self::fold_u64(op, l, r),
            (Literal::UInt128(l), Literal::UInt128(r)) => Self::fold_u128(op, l, r),
            (Literal::Usize(l), Literal::Usize(r)) => Self::fold_usize(op, l, r),
            (Literal::Float16(l), Literal::Float16(r)) => Self::fold_f16(op, l, r),
            (Literal::Float32(l), Literal::Float32(r)) => Self::fold_f32(op, l, r),
            (Literal::Float64(l), Literal::Float64(r)) => Self::fold_f64(op, l, r),
            (Literal::Bool(l), Literal::Bool(r)) => Self::fold_bool(op, l, r),
            _ => None,
        }
    }

    /// The value of a unary operator on a literal; `None` where it does not
    /// fold.
    pub fn eval_unary_op(op: UnaryOp, operand: Literal) -> (res: Option<Literal>)
        ensures
            res.deep_view() == fold_unary(op, operand.deep_view()),
    {
        match (op, operand) {
            (UnaryOp::Neg, Literal::Int8(v)) => if v == i8::MIN {
                None
            } else {
                Some(Literal::Int8(-v))
            },
            (UnaryOp::Neg, Literal::Int16(v)) => if v == i16::MIN {
                None
            } else {
                Some(Literal::Int16(-v))
            },
            (UnaryOp::Neg, Literal::Int32(v)) => if v == i32::MIN {
                None
            } else {
                Some(Literal::Int32(-v))
            },
            (UnaryOp::Neg, Literal::Int64(v)) => if v == i64::MIN {
                None
            } else {
                Some(Literal::Int64(-v))
            },
            (UnaryOp::Neg, Literal::Int128(v)) => if v == i128::MIN {
                None
            } else {
                Some(Literal::Int128(-v))
            },
            (UnaryOp::Neg, Literal::Isize(v)) => if v == isize::MIN {
                None
            } else {
                Some(Literal::Isize(-v))
            },
            (UnaryOp::Neg, Literal::Float16(b)) => Some(Literal::Float16(flip_sign32(b))),
            (UnaryOp::Neg, Literal::Float32(b)) => Some(Literal::Float32(flip_sign32(b))),
            (UnaryOp::Neg, Literal::Float64(b)) => Some(Literal::Float64(flip_sign64(b))),
            (UnaryOp::Not, Literal::Bool(v)) => Some(Literal::Bool(!v)),
            _ => None,
        }
    }
}

} // verus!
