//! Integer constant expressions in arguments of built-in functions.

use vstd::prelude::*;

use crate::ast::{BinaryOp, UnaryOp};
use crate::calc::lemma_trunc_bounds;
use crate::calc::trunc_div;
use crate::expr::{CallArg, Expr, ExprKind};
use crate::expr::{CallArgV, ExprKindV, ExprV};
use crate::literal::Literal;
use crate::literal::LiteralV;
use crate::text::{cat3, str_eq, usize_to_string};
use crate::text::decimal;

verus! {

/// What a fallible function gives, over the models of its result and its
/// message.
pub open spec fn told<T: DeepView>(r: Result<T, String>) -> Result<T::V, Seq<char>> {
    match r {
        Ok(v) => Ok(v.deep_view()),
        Err(e) => Err(e@),
    }
}

/// The 64-bit signed integer with the same low 64 bits as `v`.
pub open spec fn low_bits(v: int) -> int {
    let m = v % 0x1_0000_0000_0000_0000;
    if m < 0x8000_0000_0000_0000 {
        m
    } else {
        m - 0x1_0000_0000_0000_0000
    }
}

/// Whether a value is a 64-bit signed integer.
pub open spec fn in_i64(v: int) -> bool {
    i64::MIN <= v <= i64::MAX
}

/// The value of an integer constant expression: literals, negation and the four
/// arithmetic operators. A division by zero has none.
pub open spec fn const_int(e: ExprV) -> Option<int>
    decreases e,
{
    match e.kind {
        ExprKindV::Literal(LiteralV::Int(_, v)) => Some(low_bits(v)),
        ExprKindV::Unary { op: UnaryOp::Neg, expr } => match const_int(*expr) {
            Some(v) => Some(-v),
            None => None,
        },
        ExprKindV::BinaryOp { op, left, right } => match (const_int(*left), const_int(*right)) {
            (Some(l), Some(r)) => const_op(op, l, r),
            _ => None,
        },
        _ => None,
    }
}

/// What an operator gives on two constants.
pub open spec fn const_op(op: BinaryOp, l: int, r: int) -> Option<int> {
    match op {
        BinaryOp::Add => Some(l + r),
        BinaryOp::Sub => Some(l - r),
        BinaryOp::Mul => Some(l * r),
        BinaryOp::Div => if r == 0 {
            None
        } else {
            Some(trunc_div(l, r))
        },
        _ => None,
    }
}

/// Whether every value that the evaluation of `e` computes is a 64-bit signed
/// integer.
pub open spec fn const_fits(e: ExprV) -> bool
    decreases e,
{
    match e.kind {
        ExprKindV::Unary { op: UnaryOp::Neg, expr } => const_fits(*expr) && (const_int(
            *expr,
        ) matches Some(v) ==> in_i64(-v)),
        ExprKindV::BinaryOp { op, left, right } => const_fits(*left) && (const_int(
            *left,
        ) matches Some(l) ==> const_fits(*right) && (const_int(*right) matches Some(r) ==> (
        const_op(op, l, r) matches Some(v) ==> in_i64(v)))),
        _ => true,
    }
}

/// The expression of the first argument of the given name.
pub open spec fn named_arg(args: Seq<CallArgV>, name: Seq<char>) -> Option<ExprV>
    decreases args.len(),
{
    if args.len() == 0 {
        None
    } else {
        match args[0] {
            CallArgV::Named(n, e) if n == name => Some(e),
            _ => named_arg(args.drop_first(), name),
        }
    }
}

/// The constant given for the parameter `name`.
pub open spec fn int_arg(args: Seq<CallArgV>, name: Seq<char>) -> Result<int, Seq<char>> {
    match named_arg(args, name) {
        Some(e) => match const_int(e) {
            Some(v) => Ok(v),
            None => Err("parameter '"@ + name + "' is not a constant integer expression"@),
        },
        None => Err("parameter '"@ + name + "' not found"@),
    }
}

/// Whether the expression given for the parameter `name` stays within 64 bits.
pub open spec fn arg_fits(args: Seq<CallArgV>, name: Seq<char>) -> bool {
    named_arg(args, name) matches Some(e) ==> const_fits(e)
}

/// The argument at position `pos` if it is positional or has the given name,
/// else the first argument of that name.
pub open spec fn placed_arg(args: Seq<CallArgV>, pos: int, name: Seq<char>) -> Result<
    ExprV,
    Seq<char>,
> {
    let found = if pos < args.len() {
        match args[pos] {
            CallArgV::Positional(e) => Some(e),
            CallArgV::Named(n, e) => if n == name {
                Some(e)
            } else {
                named_arg(args, name)
            },
        }
    } else {
        named_arg(args, name)
    };
    match found {
        Some(e) => Ok(e),
        None => Err(
            "argument '"@ + name + "' not found (tried position "@ + decimal((pos + 1) as nat)
                + " and name '"@ + name + "')"@,
        ),
    }
}

/// The low 64 bits of a signed integer.
fn low_i128(v: i128) -> (r: i64)
    ensures
        r == low_bits(v as int),
{
    let u = v as u128;
    assert(u == (if v >= 0 {
        v as int
    } else {
        v + 0x1_0000_0000_0000_0000_0000_0000_0000_0000
    })) by (bit_vector)
        requires
            u == v as u128,
    ;
    assert(low_bits(u as int) == low_bits(v as int));
    low_u128(u)
}

/// The low 64 bits of an unsigned integer.
pub fn low_u128(v: u128) -> (r: i64)
    ensures
        r == low_bits(v as int),
{
    let m = v % 0x1_0000_0000_0000_0000;
    if m < 0x8000_0000_0000_0000 {
        m as i64
    } else {
        let d: i128 = m as i128 - 0x1_0000_0000_0000_0000;
        d as i64
    }
}

/// The value of an integer constant expression, if it is one.
pub fn eval_const_int_expr(expr: &Expr) -> (r: Option<i64>)
    requires
        const_fits(expr.deep_view()),
    ensures
        r is Some <==> const_int(expr.deep_view()) is Some,
        r matches Some(v) ==> const_int(expr.deep_view()) == Some(v as int),
    decreases expr,
{
    match &expr.kind {
        ExprKind::Literal(l) => match l {
            Literal::Int8(v) => Some(*v as i64),
            Literal::Int16(v) => Some(*v as i64),
            Literal::Int32(v) => Some(*v as i64),
            Literal::Int64(v) => Some(*v),
            Literal::Int128(v) => Some(low_i128(*v)),
            Literal::UInt8(v) => Some(*v as i64),
            Literal::UInt16(v) => Some(*v as i64),
            Literal::UInt32(v) => Some(*v as i64),
            Literal::UInt64(v) => Some(low_u128(*v as u128)),
            Literal::UInt128(v) => Some(low_u128(*v)),
            Literal::Isize(v) => Some(*v as i64),
            Literal::Usize(v) => Some(low_u128(*v as u128)),
            _ => None,
        },
        ExprKind::Unary { op: UnaryOp::Neg, expr: inner } => match eval_const_int_expr(inner) {
            Some(v) => Some(-v),
            None => None,
        },
        ExprKind::BinaryOp { op, left, right } => {
            let l: i64 = match eval_const_int_expr(left) {
                Some(v) => v,
                None => {
                    return None;
                },
            };
            let r: i64 = match eval_const_int_expr(right) {
                Some(v) => v,
                None => {
                    return None;
                },
            };
            match op {
                BinaryOp::Add => Some(l + r),
                BinaryOp::Sub => Some(l - r),
                BinaryOp::Mul => Some(l * r),
                BinaryOp::Div => {
                    if r == 0 {
                        None
                    } else {
                        proof {
                            lemma_trunc_bounds(l as int, r as int);
                        }
                        l.checked_div(r)
                    }
                },
                _ => None,
            }
        },
        _ => None,
    }
}

/// The expression of the first argument of the given name.
fn find_named<'a>(args: &'a [CallArg], name: &str) -> (r: Option<&'a Expr>)
    ensures
        r.deep_view() == named_arg(args.deep_view(), name@),
{
    let ghost all = args.deep_view();
    assert(all.skip(0) =~= all);
    let mut i: usize = 0;
    while i < args.len()
        invariant
            i <= args.len(),
            all == args.deep_view(),
            named_arg(all, name@) == named_arg(all.skip(i as int), name@),
        decreases args.len() - i,
    {
        assert(all.skip(i as int).drop_first() =~= all.skip(i as int + 1));
        assert(all[i as int] == args@[i as int].deep_view());
        if let CallArg::Named(n, e) = &args[i] {
            if str_eq(n.as_str(), name) {
                return Some(e);
            }
        }
        i = i + 1;
    }
    None
}

/// The constant given for the parameter `name`.
pub fn extract_int_arg(args: &[CallArg], name: &str) -> (r: Result<i64, String>)
    requires
        arg_fits(args.deep_view(), name@),
    ensures
        match r {
            Ok(v) => int_arg(args.deep_view(), name@) == Ok::<int, Seq<char>>(v as int),
            Err(e) => int_arg(args.deep_view(), name@) == Err::<int, Seq<char>>(e@),
        },
{
    match find_named(args, name) {
        Some(e) => match eval_const_int_expr(e) {
            Some(v) => Ok(v),
            None => Err(cat3("parameter '", name, "' is not a constant integer expression")),
        },
        None => Err(cat3("parameter '", name, "' not found")),
    }
}

/// The argument at a position, or of a name.
pub fn get_arg_by_pos_or_name<'a>(args: &'a [CallArg], pos: usize, name: &str) -> (r: Result<
    &'a Expr,
    String,
>)
    requires
        pos < usize::MAX,
    ensures
        told(r) == placed_arg(args.deep_view(), pos as int, name@),
{
    if pos < args.len() {
        assert(args.deep_view()[pos as int] == args@[pos as int].deep_view());
        match &args[pos] {
            CallArg::Positional(e) => {
                return Ok(e);
            },
            CallArg::Named(n, e) => {
                if str_eq(n.as_str(), name) {
                    return Ok(e);
                }
            },
        }
    }
    match find_named(args, name) {
        Some(e) => Ok(e),
        None => {
            let mut s = cat3("argument '", name, "' not found (tried position ");
            s.append(usize_to_string(pos + 1).as_str());
            s.append(" and name '");
            s.append(name);
            s.append("')");
            Err(s)
        },
    }
}

} // verus!
