//! Laws of constant folding.

use vstd::prelude::*;

use crate::ast::{BinaryOp, UnaryOp};
use crate::calc::{fold_binary, fold_int, fold_unary, lemma_trunc_bounds, trunc_div, trunc_rem};
use crate::literal::{int_fits, IntKind, LiteralV};

verus! {

/// Whether an operator computes a value of its operands' type.
pub open spec fn arithmetic(op: BinaryOp) -> bool {
    match op {
        BinaryOp::Add | BinaryOp::Sub | BinaryOp::Mul | BinaryOp::Div | BinaryOp::Mod => true,
        _ => false,
    }
}

/// Whether a literal is one of its type: an integer is in range.
pub open spec fn literal_ok(v: LiteralV) -> bool {
    v matches LiteralV::Int(k, i) ==> int_fits(k, i)
}

/// Folding arithmetic keeps the type, every other operator gives a boolean; an integer
/// that comes out is in the range of its type.
pub proof fn lemma_fold_type(op: BinaryOp, x: LiteralV, y: LiteralV)
    requires
        fold_binary(op, x, y) is Some,
        literal_ok(x),
        literal_ok(y),
    ensures
        literal_ok(fold_binary(op, x, y)->0),
        arithmetic(op) ==> match x {
            LiteralV::Int(k, _) => fold_binary(op, x, y)->0 matches LiteralV::Int(j, _) && j == k,
            LiteralV::Float(k, _) => fold_binary(op, x, y)->0 matches LiteralV::Float(j, _) && j
                == k,
            _ => false,
        },
        !arithmetic(op) ==> fold_binary(op, x, y)->0 is Bool,
{
    match (x, y) {
        (LiteralV::Int(k, l), LiteralV::Int(j, r)) => {
            if r != 0 {
                lemma_trunc_bounds(l, r);
            }
        },
        _ => {},
    }
}

/// Operands of different types never fold.
pub proof fn lemma_mixed_types(op: BinaryOp, x: LiteralV, y: LiteralV)
    requires
        match (x, y) {
            (LiteralV::Int(j, _), LiteralV::Int(k, _)) => j != k,
            (LiteralV::Float(j, _), LiteralV::Float(k, _)) => j != k,
            (LiteralV::Bool(_), LiteralV::Bool(_)) => false,
            _ => true,
        },
    ensures
        fold_binary(op, x, y) is None,
{
}

/// Nothing is divided by zero.
pub proof fn lemma_no_division_by_zero(op: BinaryOp, k: IntKind, l: int)
    requires
        op == BinaryOp::Div || op == BinaryOp::Mod,
    ensures
        fold_binary(op, LiteralV::Int(k, l), LiteralV::Int(k, 0)) is None,
{
}

/// Quotient and remainder fold together, and make up the dividend: the remainder is
/// smaller than the divisor and has the sign of the dividend.
pub proof fn lemma_division(k: IntKind, l: int, r: int)
    requires
        int_fits(k, l),
        int_fits(k, r),
    ensures
        fold_int(BinaryOp::Div, k, l, r) is Some <==> fold_int(BinaryOp::Mod, k, l, r) is Some,
        fold_int(BinaryOp::Div, k, l, r) is Some ==> {
            let q = trunc_div(l, r);
            let m = trunc_rem(l, r);
            &&& fold_int(BinaryOp::Div, k, l, r) == Some(LiteralV::Int(k, q))
            &&& fold_int(BinaryOp::Mod, k, l, r) == Some(LiteralV::Int(k, m))
            &&& l == q * r + m
            &&& r > 0 ==> -r < m < r
            &&& r < 0 ==> r < m < -r
            &&& l >= 0 ==> m >= 0
            &&& l <= 0 ==> m <= 0
        },
{
    if r != 0 {
        let q = trunc_div(l, r);
        let m = trunc_rem(l, r);
        lemma_trunc_bounds(l, r);
        let x: int = if l < 0 { -l } else { l };
        let d: int = if r < 0 { -r } else { r };
        assert(x == (x / d) * d + x % d && 0 <= x % d < d) by (nonlinear_arith)
            requires
                x >= 0,
                d >= 1,
        ;
        let a = x / d;
        assert((-a) * d == -(a * d)) by (nonlinear_arith);
        assert(a * (-d) == -(a * d)) by (nonlinear_arith);
        assert((-a) * (-d) == a * d) by (nonlinear_arith);
    }
}

/// Of two integers of one type exactly one of less, equal and greater holds, and the
/// comparisons are each other's negations and mirrors.
pub proof fn lemma_comparisons(k: IntKind, l: int, r: int)
    ensures
        ({
            let x = LiteralV::Int(k, l);
            let y = LiteralV::Int(k, r);
            let lt = fold_binary(BinaryOp::Lt, x, y) == Some(LiteralV::Bool(true));
            let eq = fold_binary(BinaryOp::Eq, x, y) == Some(LiteralV::Bool(true));
            let gt = fold_binary(BinaryOp::Gt, x, y) == Some(LiteralV::Bool(true));
            &&& (lt && !eq && !gt) || (!lt && eq && !gt) || (!lt && !eq && gt)
            &&& fold_binary(BinaryOp::Neq, x, y) == Some(LiteralV::Bool(!eq))
            &&& fold_binary(BinaryOp::Ge, x, y) == Some(LiteralV::Bool(!lt))
            &&& fold_binary(BinaryOp::Le, x, y) == Some(LiteralV::Bool(!gt))
            &&& fold_binary(BinaryOp::Gt, x, y) == fold_binary(BinaryOp::Lt, y, x)
            &&& fold_binary(BinaryOp::Le, x, y) == fold_binary(BinaryOp::Ge, y, x)
        }),
{
}

/// Inequality folds where equality does, to the opposite.
pub proof fn lemma_neq(x: LiteralV, y: LiteralV)
    ensures
        fold_binary(BinaryOp::Neq, x, y) == match fold_binary(BinaryOp::Eq, x, y) {
            Some(LiteralV::Bool(b)) => Some(LiteralV::Bool(!b)),
            _ => None,
        },
{
}

/// Sums and products of integers, and logical operators, do not depend on the order of
/// the operands.
pub proof fn lemma_commutes(op: BinaryOp, x: LiteralV, y: LiteralV)
    requires
        match op {
            BinaryOp::Add | BinaryOp::Mul => x is Int && y is Int,
            BinaryOp::And | BinaryOp::Or => true,
            _ => false,
        },
    ensures
        fold_binary(op, x, y) == fold_binary(op, y, x),
{
    if let (LiteralV::Int(_, l), LiteralV::Int(_, r)) = (x, y) {
        assert(l * r == r * l) by (nonlinear_arith);
    }
}

/// Applying a unary operator twice gives the literal back, where both fold.
pub proof fn lemma_unary_twice(op: UnaryOp, x: LiteralV)
    requires
        literal_ok(x),
        fold_unary(op, x) is Some,
        x matches LiteralV::Float(k, b) ==> 0 <= b < 2 * crate::literal::float_sign(k),
    ensures
        fold_unary(op, fold_unary(op, x)->0) == Some(x),
{
}

} // verus!
