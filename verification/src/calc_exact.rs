//! Laws of constant folding: which literals come out, in terms of the numbers and truth
//! values that the operands stand for.

use vstd::prelude::*;

use crate::ast::{BinaryOp, UnaryOp};
use crate::calc::{fold_binary, fold_unary, lemma_trunc_bounds, trunc_div, trunc_rem};
use crate::literal::{int_fits, IntKind, Literal, LiteralV};

verus! {

/// Whether a literal of integer type `k` can have the value `v`.
pub open spec fn held(k: IntKind, v: int) -> bool {
    exists|l: Literal| #[trigger] l.deep_view() == LiteralV::Int(k, v)
}

/// The values that the literals of an integer type have are those of its range.
pub proof fn lemma_held(k: IntKind, v: int)
    ensures
        held(k, v) <==> int_fits(k, v),
{
    if int_fits(k, v) {
        let l = match k {
            IntKind::I8 => Literal::Int8(v as i8),
            IntKind::I16 => Literal::Int16(v as i16),
            IntKind::I32 => Literal::Int32(v as i32),
            IntKind::I64 => Literal::Int64(v as i64),
            IntKind::I128 => Literal::Int128(v as i128),
            IntKind::Isize => Literal::Isize(v as isize),
            IntKind::U8 => Literal::UInt8(v as u8),
            IntKind::U16 => Literal::UInt16(v as u16),
            IntKind::U32 => Literal::UInt32(v as u32),
            IntKind::U64 => Literal::UInt64(v as u64),
            IntKind::U128 => Literal::UInt128(v as u128),
            IntKind::Usize => Literal::Usize(v as usize),
        };
        assert(l.deep_view() == LiteralV::Int(k, v));
    }
}

/// Whether folding came out right: a literal of type `k` whose value is among `wanted`,
/// or none where no literal of the type has such a value.
pub open spec fn folds_to(f: Option<LiteralV>, k: IntKind, wanted: spec_fn(int) -> bool) -> bool {
    match f {
        Some(LiteralV::Int(j, v)) => j == k && held(k, v) && wanted(v),
        Some(_) => false,
        None => forall|v: int| #[trigger] wanted(v) ==> !held(k, v),
    }
}

/// A folded sum, less one summand, is the other.
pub proof fn lemma_sum(k: IntKind, l: int, r: int)
    ensures
        folds_to(
            fold_binary(BinaryOp::Add, LiteralV::Int(k, l), LiteralV::Int(k, r)),
            k,
            |v: int| v - r == l,
        ),
{
    lemma_held(k, l + r);
}

/// A folded difference and what was taken off make up what it was taken from.
pub proof fn lemma_difference(k: IntKind, l: int, r: int)
    ensures
        folds_to(
            fold_binary(BinaryOp::Sub, LiteralV::Int(k, l), LiteralV::Int(k, r)),
            k,
            |v: int| v + r == l,
        ),
{
    lemma_held(k, l - r);
}

/// A folded product is the product of the two numbers.
pub proof fn lemma_product(k: IntKind, l: int, r: int)
    ensures
        folds_to(
            fold_binary(BinaryOp::Mul, LiteralV::Int(k, l), LiteralV::Int(k, r)),
            k,
            |v: int| v == l * r,
        ),
{
    lemma_held(k, l * r);
}

/// Whether `m` is what is left of `l` once `r` was taken off, or put on, `q` times: less
/// than `r` in magnitude, and on the side of zero where `l` is.
pub open spec fn left_over(l: int, r: int, q: int, m: int) -> bool {
    &&& l == q * r + m
    &&& m < r || m < -r
    &&& -m < r || -m < -r
    &&& l >= 0 ==> m >= 0
    &&& l <= 0 ==> m <= 0
}

proof fn lemma_left_over(l: int, r: int)
    requires
        r != 0,
    ensures
        left_over(l, r, trunc_div(l, r), trunc_rem(l, r)),
{
    lemma_trunc_bounds(l, r);
    let x: int = if l < 0 { -l } else { l };
    let d: int = if r < 0 { -r } else { r };
    assert(x == (x / d) * d + x % d && 0 <= x % d < d) by (nonlinear_arith)
        requires
            x >= 0,
            d >= 1,
    ;
    let a = x / d;
    assert((-a) * d == -(a * d)) by (nonlinear_arith);
    assert(a * (-d) == -(a * d)) by (nonlinear_arith);
    assert((-a) * (-d) == a * d) by (nonlinear_arith);
}

/// Quotient and remainder are one pair of numbers.
proof fn lemma_left_over_one(l: int, r: int, q: int, m: int, p: int, n: int)
    requires
        r != 0,
        left_over(l, r, q, m),
        left_over(l, r, p, n),
    ensures
        q == p,
        m == n,
{
    assert((q - p) * r == n - m) by (nonlinear_arith)
        requires
            q * r + m == p * r + n,
    ;
    let d: int = if r < 0 { -r } else { r };
    assert(-d < n - m < d);
    assert(q == p) by (nonlinear_arith)
        requires
            (q - p) * r == n - m,
            -d < n - m < d,
            d == (if r < 0 { -r } else { r }),
            r != 0,
    ;
}

/// A folded quotient tells how often the divisor goes into the dividend.
pub proof fn lemma_quotient(k: IntKind, l: int, r: int)
    ensures
        folds_to(
            fold_binary(BinaryOp::Div, LiteralV::Int(k, l), LiteralV::Int(k, r)),
            k,
            |v: int| r != 0 && exists|m: int| #[trigger] left_over(l, r, v, m),
        ),
{
    if r != 0 {
        lemma_left_over(l, r);
        lemma_held(k, trunc_div(l, r));
        assert forall|v: int, m: int| #[trigger] left_over(l, r, v, m) implies v == trunc_div(
            l,
            r,
        ) by {
            lemma_left_over_one(l, r, v, m, trunc_div(l, r), trunc_rem(l, r));
        }
    }
}

/// A folded remainder is what is left of the dividend; there is none where the quotient
/// has no literal.
pub proof fn lemma_remainder(k: IntKind, l: int, r: int)
    requires
        held(k, l),
        held(k, r),
    ensures
        folds_to(
            fold_binary(BinaryOp::Mod, LiteralV::Int(k, l), LiteralV::Int(k, r)),
            k,
            |v: int| r != 0 && exists|q: int| held(k, q) && #[trigger] left_over(l, r, q, v),
        ),
{
    lemma_held(k, l);
    lemma_held(k, r);
    if r != 0 {
        lemma_left_over(l, r);
        lemma_trunc_bounds(l, r);
        lemma_held(k, trunc_div(l, r));
        lemma_held(k, trunc_rem(l, r));
        assert forall|q: int, v: int| #[trigger] left_over(l, r, q, v) implies q == trunc_div(
            l,
            r,
        ) && v == trunc_rem(l, r) by {
            lemma_left_over_one(l, r, q, v, trunc_div(l, r), trunc_rem(l, r));
        }
    }
}

/// Folded comparisons of integers go by the sign of the difference.
pub proof fn lemma_compared(k: IntKind, l: int, r: int)
    ensures
        ({
            let x = LiteralV::Int(k, l);
            let y = LiteralV::Int(k, r);
            let d = l - r;
            &&& fold_binary(BinaryOp::Lt, x, y) == Some(LiteralV::Bool(d < 0))
            &&& fold_binary(BinaryOp::Le, x, y) == Some(LiteralV::Bool(d <= 0))
            &&& fold_binary(BinaryOp::Gt, x, y) == Some(LiteralV::Bool(d > 0))
            &&& fold_binary(BinaryOp::Ge, x, y) == Some(LiteralV::Bool(d >= 0))
            &&& fold_binary(BinaryOp::Eq, x, y) == Some(LiteralV::Bool(d == 0))
            &&& fold_binary(BinaryOp::Neq, x, y) == Some(LiteralV::Bool(d != 0))
            &&& fold_binary(BinaryOp::And, x, y) is None
            &&& fold_binary(BinaryOp::Or, x, y) is None
        }),
{
}

/// A folded negative and the number make up zero. Types without negative numbers have
/// none.
pub proof fn lemma_negative(k: IntKind, i: int)
    ensures
        folds_to(
            fold_unary(UnaryOp::Neg, LiteralV::Int(k, i)),
            k,
            |v: int| held(k, -1) && v + i == 0,
        ),
{
    lemma_held(k, -1);
    lemma_held(k, -i);
}

/// Folded logic: `true` changes nothing in a conjunction and `false` nothing in a
/// disjunction, each settles the other; a truth value equals itself and not its
/// negation; nothing else is folded on truth values.
pub proof fn lemma_logic(b: bool, op: BinaryOp)
    ensures
        ({
            let x = LiteralV::Bool(b);
            let yes = LiteralV::Bool(true);
            let no = LiteralV::Bool(false);
            let opposite = fold_unary(UnaryOp::Not, x);
            &&& fold_binary(BinaryOp::And, x, yes) == Some(x)
            &&& fold_binary(BinaryOp::And, yes, x) == Some(x)
            &&& fold_binary(BinaryOp::And, x, no) == Some(no)
            &&& fold_binary(BinaryOp::And, no, x) == Some(no)
            &&& fold_binary(BinaryOp::Or, x, no) == Some(x)
            &&& fold_binary(BinaryOp::Or, no, x) == Some(x)
            &&& fold_binary(BinaryOp::Or, x, yes) == Some(yes)
            &&& fold_binary(BinaryOp::Or, yes, x) == Some(yes)
            &&& opposite is Some && opposite->0 is Bool && opposite != Some(x)
            &&& fold_binary(BinaryOp::Eq, x, x) == Some(yes)
            &&& fold_binary(BinaryOp::Eq, x, opposite->0) == Some(no)
            &&& fold_binary(BinaryOp::Neq, x, x) == Some(no)
            &&& fold_binary(BinaryOp::Neq, x, opposite->0) == Some(yes)
            &&& forall|c: bool|
                !(op is And || op is Or || op is Eq || op is Neq) ==> (#[trigger] fold_binary(
                    op,
                    x,
                    LiteralV::Bool(c),
                )) is None
        }),
{
}

/// A unary operator folds on the type that it is meant for, and keeps it: negation on
/// numbers, the logical one on truth values.
pub proof fn lemma_unary_type(op: UnaryOp, v: LiteralV)
    ensures
        match fold_unary(op, v) {
            Some(LiteralV::Int(k, _)) => op is Neg && (v matches LiteralV::Int(j, _) && j == k),
            Some(LiteralV::Float(k, _)) => op is Neg && (v matches LiteralV::Float(j, _) && j == k),
            Some(LiteralV::Bool(_)) => op is Not && v is Bool,
            Some(_) => false,
            None => !(op is Neg && v is Float) && !(op is Not && v is Bool),
        },
{
}

} // verus!
