//! Laws of floating-point literals: what their bit patterns are worth, and what folding
//! makes of them.

use vstd::arithmetic::power2::{
    lemma2_to64, lemma2_to64_rest, lemma_pow2_adds, lemma_pow2_pos, lemma_pow2_unfold, pow2,
};
use vstd::prelude::*;

use crate::ast::{BinaryOp, UnaryOp};
use crate::calc::{fold_binary, fold_unary};
use crate::float::{
    distance, float_of_int, float_sum, implicit, lemma_nearest, lemma_nearest_bounds,
    lemma_nearest_exact, lemma_units_increase, nearest, one_exponent, signed_units, units,
};
use crate::literal::{
    float_inf, float_key, float_magnitude, float_nan, float_sign, FloatKind, LiteralV,
};

verus! {

/// Whether a number is the bit pattern of a float.
pub open spec fn pattern(k: FloatKind, b: int) -> bool {
    0 <= b < match k {
        FloatKind::F64 => 0x1_0000_0000_0000_0000int,
        _ => 0x1_0000_0000int,
    }
}

/// Whether a bit pattern is that of a finite number.
pub open spec fn finite(k: FloatKind, b: int) -> bool {
    pattern(k, b) && float_magnitude(k, b) < float_inf(k)
}

/// The bit pattern of one.
pub open spec fn one(k: FloatKind) -> int {
    match k {
        FloatKind::F64 => 0x3ff0_0000_0000_0000,
        _ => 0x3f80_0000,
    }
}

/// The literal with a bit pattern.
pub open spec fn float(k: FloatKind, b: int) -> LiteralV {
    LiteralV::Float(k, b)
}

/// What non-negative bit patterns are worth: the first ones count up by the least
/// positive number; as many patterns further on as have one exponent, the worth is
/// twice as high.
pub proof fn lemma_worth(k: FloatKind, m: int)
    requires
        0 <= m,
    ensures
        ({
            let row: int = match k {
                FloatKind::F64 => 0x10_0000_0000_0000,
                _ => 0x80_0000,
            };
            &&& m < 2 * row ==> units(k, m) == m
            &&& row <= m ==> units(k, m + row) == 2 * units(k, m)
        }),
{
    let row = implicit(k);
    lemma2_to64();
    let e = m / row;
    let f = m % row;
    if m < row {
        assert(e == 0 && f == m);
    } else if m < 2 * row {
        assert(e == 1 && f == m - row);
        assert(units(k, m) == (row + f) as nat * pow2(0));
        assert((row + f) as nat * 1 == row + f);
    }
    if row <= m {
        assert((m + row) / row == e + 1 && (m + row) % row == f);
        assert(e >= 1);
        lemma_pow2_unfold(e as nat);
        let p = pow2((e - 1) as nat);
        assert(units(k, m) == (row + f) as nat * p);
        assert(units(k, m + row) == (row + f) as nat * pow2(e as nat));
        assert((row + f) * (2 * p) == 2 * ((row + f) * p)) by (nonlinear_arith);
    }
}

/// One is worth two to the power of the number of times that the least positive number
/// has to be doubled.
pub(crate) proof fn lemma_one(k: FloatKind)
    ensures
        0 < one(k) < float_inf(k),
        units(k, one(k)) == pow2(one_exponent(k)),
        pow2(one_exponent(k)) > 0,
{
    lemma2_to64();
    lemma2_to64_rest();
    lemma_pow2_pos(one_exponent(k));
    let row = implicit(k);
    match k {
        FloatKind::F64 => {
            assert(one(k) / row == 1023 && one(k) % row == 0);
            lemma_pow2_adds(52, 1022);
        },
        _ => {
            assert(one(k) / row == 127 && one(k) % row == 0);
            lemma_pow2_adds(23, 126);
        },
    }
}

/// Of two patterns that are equally near, the even one counts.
pub proof fn lemma_nearest_even(k: FloatKind, num: nat, den: nat, other: int)
    requires
        den > 0,
        0 <= other <= float_inf(k),
        other != nearest(k, num, den),
        distance(num, den * units(k, other)) == distance(
            num,
            den * units(k, nearest(k, num, den)),
        ),
    ensures
        nearest(k, num, den) % 2 == 0,
{
    let r = nearest(k, num, den);
    lemma_nearest_bounds(k, num, den, float_inf(k));
    let x = units(k, r);
    let y = units(k, other);
    if other < r {
        let w = units(k, r - 1);
        lemma_units_increase(k, r - 1, r);
        if other < r - 1 {
            lemma_units_increase(k, other, r - 1);
        }
        assert(den * (w + x) == den * w + den * x) by (nonlinear_arith);
        assert(den * y <= den * w && den * w < den * x) by (nonlinear_arith)
            requires
                den > 0,
                y <= w,
                w < x,
        ;
    } else {
        let w = units(k, r + 1);
        lemma_units_increase(k, r, r + 1);
        if other > r + 1 {
            lemma_units_increase(k, r + 1, other);
        }
        assert(den * (x + w) == den * x + den * w) by (nonlinear_arith);
        assert(den * w <= den * y && den * x < den * w) by (nonlinear_arith)
            requires
                den > 0,
                w <= y,
                x < w,
        ;
    }
}

/// What is not a number stays so.
pub proof fn lemma_nan_spreads(op: BinaryOp, k: FloatKind, a: int, b: int)
    requires
        float_nan(k, a) || float_nan(k, b),
        op is Add || op is Sub || op is Mul || op is Div,
        pattern(k, b),
    ensures
        fold_binary(op, float(k, a), float(k, b)) matches Some(LiteralV::Float(j, r)) && j == k
            && float_nan(k, r),
{
}

/// Comparisons with what is not a number are false, but for inequality.
pub proof fn lemma_nan_compared(op: BinaryOp, k: FloatKind, a: int, b: int)
    requires
        float_nan(k, a) || float_nan(k, b),
        op is Lt || op is Le || op is Gt || op is Ge || op is Eq || op is Neq,
    ensures
        fold_binary(op, float(k, a), float(k, b)) == Some(LiteralV::Bool(op is Neq)),
{
}

proof fn lemma_key_worth(k: FloatKind, a: int, b: int)
    requires
        pattern(k, a),
        pattern(k, b),
    ensures
        float_key(k, a) < float_key(k, b) <==> signed_units(k, a) < signed_units(k, b),
        float_key(k, a) == float_key(k, b) <==> signed_units(k, a) == signed_units(k, b),
{
    let m = float_magnitude(k, a);
    let n = float_magnitude(k, b);
    lemma_worth(k, 0);
    if m > 0 {
        lemma_units_increase(k, 0, m);
    }
    if n > 0 {
        lemma_units_increase(k, 0, n);
    }
    if m < n {
        lemma_units_increase(k, m, n);
    }
    if n < m {
        lemma_units_increase(k, n, m);
    }
}

/// Numbers compare as they are worth.
pub proof fn lemma_order_by_worth(k: FloatKind, a: int, b: int)
    requires
        pattern(k, a),
        pattern(k, b),
        !float_nan(k, a),
        !float_nan(k, b),
    ensures
        ({
            let x = signed_units(k, a);
            let y = signed_units(k, b);
            let (p, q) = (float(k, a), float(k, b));
            &&& fold_binary(BinaryOp::Lt, p, q) == Some(LiteralV::Bool(x < y))
            &&& fold_binary(BinaryOp::Le, p, q) == Some(LiteralV::Bool(x <= y))
            &&& fold_binary(BinaryOp::Gt, p, q) == Some(LiteralV::Bool(x > y))
            &&& fold_binary(BinaryOp::Ge, p, q) == Some(LiteralV::Bool(x >= y))
            &&& fold_binary(BinaryOp::Eq, p, q) == Some(LiteralV::Bool(x == y))
            &&& fold_binary(BinaryOp::Neq, p, q) == Some(LiteralV::Bool(x != y))
        }),
{
    lemma_key_worth(k, a, b);
    lemma_key_worth(k, b, a);
}

/// Remainders and logic are not folded on floats.
pub proof fn lemma_not_for_floats(op: BinaryOp, k: FloatKind, a: int, b: int)
    requires
        op is Mod || op is And || op is Or,
    ensures
        fold_binary(op, float(k, a), float(k, b)) is None,
{
}

/// The negative of a number has the opposite worth and, though that is zero, the other
/// sign. What is not a number stays so.
pub proof fn lemma_float_negative(k: FloatKind, a: int)
    requires
        pattern(k, a),
    ensures
        fold_unary(UnaryOp::Neg, float(k, a)) matches Some(LiteralV::Float(j, r)) && {
            &&& j == k
            &&& pattern(k, r)
            &&& r != a
            &&& float_nan(k, r) == float_nan(k, a)
            &&& signed_units(k, r) == -signed_units(k, a)
            &&& float_magnitude(k, r) == float_magnitude(k, a)
        },
{
}

/// To take a number off is to put its negative on.
pub proof fn lemma_float_difference(k: FloatKind, a: int, b: int)
    ensures
        fold_unary(UnaryOp::Neg, float(k, b)) is Some,
        fold_binary(BinaryOp::Sub, float(k, a), float(k, b)) == fold_binary(
            BinaryOp::Add,
            float(k, a),
            fold_unary(UnaryOp::Neg, float(k, b))->0,
        ),
{
}

/// Sums and products of floats do not depend on the order.
pub proof fn lemma_floats_commute(k: FloatKind, a: int, b: int)
    requires
        pattern(k, a),
        pattern(k, b),
    ensures
        fold_binary(BinaryOp::Add, float(k, a), float(k, b)) == fold_binary(
            BinaryOp::Add,
            float(k, b),
            float(k, a),
        ),
        fold_binary(BinaryOp::Mul, float(k, a), float(k, b)) == fold_binary(
            BinaryOp::Mul,
            float(k, b),
            float(k, a),
        ),
{
    let m = units(k, float_magnitude(k, a));
    let n = units(k, float_magnitude(k, b));
    assert(m * n == n * m) by (nonlinear_arith);
}

/// How far the worth of a pattern is from a number.
pub open spec fn off(x: int, y: int) -> int {
    if x < y {
        y - x
    } else {
        x - y
    }
}

/// The folded sum of two finite numbers is as near as a float can be to what they are
/// worth together: none is nearer.
pub proof fn lemma_float_sum(k: FloatKind, a: int, b: int, other: int)
    requires
        finite(k, a),
        finite(k, b),
        pattern(k, other),
        float_magnitude(k, other) <= float_inf(k),
    ensures
        fold_binary(BinaryOp::Add, float(k, a), float(k, b)) matches Some(LiteralV::Float(j, r))
            && {
            let x = signed_units(k, a) + signed_units(k, b);
            &&& j == k
            &&& pattern(k, r)
            &&& !float_nan(k, r)
            &&& off(signed_units(k, r), x) <= off(signed_units(k, other), x)
            &&& off(signed_units(k, r), x) == off(signed_units(k, other), x) && signed_units(k, r)
                != signed_units(k, other) ==> r % 2 == 0
            &&& x == 0 ==> (r >= float_sign(k)) == (a >= float_sign(k) && b >= float_sign(k))
        },
{
    let x = signed_units(k, a) + signed_units(k, b);
    let r = float_sum(k, a, b);
    let m = float_magnitude(k, other);
    lemma_worth(k, 0);
    if x != 0 {
        let n = off(x, 0) as nat;
        lemma_nearest(k, n, 1, m);
        lemma_nearest(k, n, 1, 0);
        let w = nearest(k, n, 1);
        assert(1 * units(k, w) == units(k, w));
        assert(1 * units(k, m) == units(k, m));
        assert(float_magnitude(k, r) == w);
        if w != m && distance(n, 1 * units(k, m)) == distance(n, 1 * units(k, w)) {
            lemma_nearest_even(k, n, 1, m);
        }
    }
}

/// Zero added changes no number.
pub proof fn lemma_float_plus_zero(k: FloatKind, a: int)
    requires
        finite(k, a),
        float_magnitude(k, a) != 0,
    ensures
        fold_binary(BinaryOp::Add, float(k, a), float(k, 0)) == Some(float(k, a)),
{
    lemma_worth(k, 0);
    let m = float_magnitude(k, a);
    lemma_units_increase(k, 0, m);
    lemma_nearest_exact(k, m, 1);
    assert(units(k, m) * 1 == units(k, m));
}

/// The sum of infinities: an infinite summand wins, but for two of opposite sign, which
/// make no number.
pub proof fn lemma_infinite_sum(k: FloatKind, a: int, b: int)
    requires
        pattern(k, a),
        pattern(k, b),
        !float_nan(k, a),
        !float_nan(k, b),
        float_magnitude(k, a) == float_inf(k),
    ensures
        fold_binary(BinaryOp::Add, float(k, a), float(k, b)) matches Some(LiteralV::Float(j, r))
            && j == k && if float_magnitude(k, b) == float_inf(k) && a != b {
            float_nan(k, r)
        } else {
            r == a
        },
{
}

/// The folded product of two finite numbers, times one, is as near as a float can be to
/// the product of what they are worth; its sign is that of the product.
pub proof fn lemma_float_product(k: FloatKind, a: int, b: int, other: int)
    requires
        finite(k, a),
        finite(k, b),
        0 <= other <= float_inf(k),
    ensures
        fold_binary(BinaryOp::Mul, float(k, a), float(k, b)) matches Some(LiteralV::Float(j, r))
            && {
            let p = units(k, float_magnitude(k, a)) * units(k, float_magnitude(k, b));
            &&& j == k
            &&& pattern(k, r)
            &&& !float_nan(k, r)
            &&& (r >= float_sign(k)) == ((a >= float_sign(k)) != (b >= float_sign(k)))
            &&& off((units(k, one(k)) * units(k, float_magnitude(k, r))) as int, p as int) <= off(
                (units(k, one(k)) * units(k, other)) as int,
                p as int,
            )
            &&& off((units(k, one(k)) * units(k, float_magnitude(k, r))) as int, p as int) == off(
                (units(k, one(k)) * units(k, other)) as int,
                p as int,
            ) && other != float_magnitude(k, r) ==> r % 2 == 0
        },
{
    lemma_one(k);
    let p = units(k, float_magnitude(k, a)) * units(k, float_magnitude(k, b));
    lemma_nearest(k, p, pow2(one_exponent(k)), other);
    let w = nearest(k, p, pow2(one_exponent(k)));
    if w != other && distance(p, pow2(one_exponent(k)) * units(k, other)) == distance(
        p,
        pow2(one_exponent(k)) * units(k, w),
    ) {
        lemma_nearest_even(k, p, pow2(one_exponent(k)), other);
    }
}

/// The folded quotient of two finite numbers, times the divisor, is as near as a float
/// can be to what the dividend is worth; its sign is that of the quotient.
pub proof fn lemma_float_quotient(k: FloatKind, a: int, b: int, other: int)
    requires
        finite(k, a),
        finite(k, b),
        float_magnitude(k, b) != 0,
        0 <= other <= float_inf(k),
    ensures
        fold_binary(BinaryOp::Div, float(k, a), float(k, b)) matches Some(LiteralV::Float(j, r))
            && {
            let p = units(k, float_magnitude(k, a)) * units(k, one(k));
            let d = units(k, float_magnitude(k, b));
            &&& j == k
            &&& pattern(k, r)
            &&& !float_nan(k, r)
            &&& (r >= float_sign(k)) == ((a >= float_sign(k)) != (b >= float_sign(k)))
            &&& off((d * units(k, float_magnitude(k, r))) as int, p as int) <= off(
                (d * units(k, other)) as int,
                p as int,
            )
            &&& off((d * units(k, float_magnitude(k, r))) as int, p as int) == off(
                (d * units(k, other)) as int,
                p as int,
            ) && other != float_magnitude(k, r) ==> r % 2 == 0
        },
{
    lemma_one(k);
    lemma_worth(k, 0);
    lemma_units_increase(k, 0, float_magnitude(k, b));
    let p = units(k, float_magnitude(k, a)) * units(k, one(k));
    let d = units(k, float_magnitude(k, b));
    lemma_nearest(k, p, d, other);
    let w = nearest(k, p, d);
    if w != other && distance(p, d * units(k, other)) == distance(p, d * units(k, w)) {
        lemma_nearest_even(k, p, d, other);
    }
}

/// One changes nothing as a factor or a divisor, and a number goes once into itself.
pub proof fn lemma_float_one(k: FloatKind, a: int)
    requires
        finite(k, a),
    ensures
        fold_binary(BinaryOp::Mul, float(k, a), float(k, one(k))) == Some(float(k, a)),
        fold_binary(BinaryOp::Div, float(k, a), float(k, one(k))) == Some(float(k, a)),
        float_magnitude(k, a) != 0 ==> fold_binary(BinaryOp::Div, float(k, a), float(k, a))
            == Some(float(k, one(k))),
{
    lemma_one(k);
    let m = float_magnitude(k, a);
    lemma_nearest_exact(k, m, pow2(one_exponent(k)));
    if m != 0 {
        lemma_worth(k, 0);
        lemma_units_increase(k, 0, m);
        lemma_nearest_exact(k, one(k), units(k, m));
        let (x, y) = (units(k, m), units(k, one(k)));
        assert(x * y == y * x) by (nonlinear_arith);
    }
}

/// Whether folding gave a float that is not a number.
pub open spec fn no_number(f: Option<LiteralV>, k: FloatKind) -> bool {
    f matches Some(LiteralV::Float(j, r)) && j == k && float_nan(k, r)
}

/// Infinities and zeros as factors and divisors.
pub proof fn lemma_infinite_product(k: FloatKind, a: int, b: int)
    requires
        pattern(k, a),
        pattern(k, b),
        !float_nan(k, a),
        !float_nan(k, b),
    ensures
        ({
            let (m, n) = (float_magnitude(k, a), float_magnitude(k, b));
            let inf = float_inf(k);
            let negative = (a >= float_sign(k)) != (b >= float_sign(k));
            let top = float(k, if negative {
                    inf + float_sign(k)
                } else {
                    inf
                });
            let zero = float(k, if negative {
                    float_sign(k)
                } else {
                    0
                });
            let product = fold_binary(BinaryOp::Mul, float(k, a), float(k, b));
            let quotient = fold_binary(BinaryOp::Div, float(k, a), float(k, b));
            &&& m == inf && n == 0 ==> no_number(product, k)
            &&& m == inf && n != 0 ==> product == Some(top)
            &&& m == inf && n == inf ==> no_number(quotient, k)
            &&& m == inf && n != inf ==> quotient == Some(top)
            &&& m != inf && n == inf ==> quotient == Some(zero)
            &&& m == 0 && n == 0 ==> no_number(quotient, k)
            &&& m != 0 && n == 0 ==> quotient == Some(top)
        }),
{
}

/// An integer becomes the float nearest to it: no other float is nearer, the sign is that
/// of the integer, and zero becomes the positive zero.
pub proof fn lemma_integer_nearest(k: FloatKind, n: nat, other: int)
    requires
        0 <= other <= float_inf(k),
    ensures
        ({
            let r = float_of_int(k, n as int);
            let unit = pow2(match k {
                FloatKind::F64 => 1074,
                _ => 149,
            });
            &&& 0 <= r <= float_inf(k)
            &&& distance(n * unit, units(k, r)) <= distance(n * unit, units(k, other))
        }),
        n > 0 ==> float_of_int(k, -(n as int)) == float_of_int(k, n as int) + float_sign(k),
        n == 0 ==> float_of_int(k, n as int) == 0,
{
    let unit = pow2(match k {
        FloatKind::F64 => 1074,
        _ => 149,
    });
    let r = float_of_int(k, n as int);
    lemma_nearest(k, n * unit, 1, other);
    lemma_nearest(k, n * unit, 1, 0);
    if n == 0 {
        assert(0 * unit == 0) by (nonlinear_arith);
        lemma_worth(k, 0);
        if r > 0 {
            lemma_units_increase(k, 0, r);
        }
    }
}

} // verus!
