//! Arithmetic of floating-point literals on their bit patterns, rounded to the
//! nearest value, ties to the even pattern.

use vstd::arithmetic::power2::{lemma_pow2_adds, lemma_pow2_pos, lemma_pow2_unfold, pow2};
use vstd::prelude::*;

use crate::bits::Bits;
use crate::literal::FloatKind;
use crate::literal::{float_inf, float_magnitude, float_nan, float_sign};

verus! {

/// The weight of the implicit leading digit: the patterns of one binade.
pub open spec fn implicit(k: FloatKind) -> int {
    match k {
        FloatKind::F64 => 0x10_0000_0000_0000,
        _ => 0x80_0000,
    }
}

/// The value of a non-negative pattern, counted in the least positive value.
/// Infinity counts as the value that follows the largest finite one.
pub open spec fn units(k: FloatKind, m: int) -> nat {
    let e = m / implicit(k);
    let f = m % implicit(k);
    if e <= 0 {
        f as nat
    } else {
        (implicit(k) + f) as nat * pow2((e - 1) as nat)
    }
}

/// The number one, counted in the least positive value, is two to this power.
pub open spec fn one_exponent(k: FloatKind) -> nat {
    match k {
        FloatKind::F64 => 1074,
        _ => 149,
    }
}

/// Whether `num / den` rounds to pattern `m` or higher: it lies above the middle
/// between `m` and the pattern below, or on it where `m` is even.
pub open spec fn rounds_up_to(k: FloatKind, num: nat, den: nat, m: int) -> bool {
    let twice_middle = units(k, m - 1) + units(k, m);
    2 * num > den * twice_middle || (2 * num == den * twice_middle && m % 2 == 0)
}

/// The highest pattern up to `m` that `num / den` rounds to.
pub open spec fn nearest_up_to(k: FloatKind, num: nat, den: nat, m: int) -> int
    decreases m,
{
    if m <= 0 {
        0
    } else if rounds_up_to(k, num, den, m) {
        m
    } else {
        nearest_up_to(k, num, den, m - 1)
    }
}

/// The pattern nearest to `num / den`, ties to the even pattern.
pub open spec fn nearest(k: FloatKind, num: nat, den: nat) -> int {
    nearest_up_to(k, num, den, float_inf(k))
}

/// Whether the sign of a pattern is set.
pub open spec fn is_negative(k: FloatKind, bits: int) -> bool {
    bits >= float_sign(k)
}

/// A magnitude with a sign.
pub open spec fn with_sign(k: FloatKind, negative: bool, m: int) -> int {
    if negative {
        m + float_sign(k)
    } else {
        m
    }
}

/// The pattern that stands for a result that is not a number.
pub open spec fn quiet_nan(k: FloatKind) -> int {
    match k {
        FloatKind::F64 => 0x7ff8_0000_0000_0000,
        _ => 0x7fc0_0000,
    }
}

/// The value of a finite pattern, counted in the least positive value.
pub open spec fn signed_units(k: FloatKind, bits: int) -> int {
    let u = units(k, float_magnitude(k, bits)) as int;
    if is_negative(k, bits) {
        -u
    } else {
        u
    }
}

/// The sum of two floats.
pub open spec fn float_sum(k: FloatKind, a: int, b: int) -> int {
    let a_inf = float_magnitude(k, a) == float_inf(k);
    let b_inf = float_magnitude(k, b) == float_inf(k);
    if float_nan(k, a) || float_nan(k, b) {
        quiet_nan(k)
    } else if a_inf && b_inf && is_negative(k, a) != is_negative(k, b) {
        quiet_nan(k)
    } else if a_inf {
        a
    } else if b_inf {
        b
    } else {
        let x = signed_units(k, a) + signed_units(k, b);
        if x == 0 {
            with_sign(k, is_negative(k, a) && is_negative(k, b), 0)
        } else if x < 0 {
            with_sign(k, true, nearest(k, (-x) as nat, 1))
        } else {
            nearest(k, x as nat, 1)
        }
    }
}

/// The product of two floats.
pub open spec fn float_product(k: FloatKind, a: int, b: int) -> int {
    let m = float_magnitude(k, a);
    let n = float_magnitude(k, b);
    let negative = is_negative(k, a) != is_negative(k, b);
    if float_nan(k, a) || float_nan(k, b) {
        quiet_nan(k)
    } else if m == float_inf(k) || n == float_inf(k) {
        if m == 0 || n == 0 {
            quiet_nan(k)
        } else {
            with_sign(k, negative, float_inf(k))
        }
    } else {
        with_sign(k, negative, nearest(k, units(k, m) * units(k, n), pow2(one_exponent(k))))
    }
}

/// The quotient of two floats.
pub open spec fn float_quotient(k: FloatKind, a: int, b: int) -> int {
    let m = float_magnitude(k, a);
    let n = float_magnitude(k, b);
    let negative = is_negative(k, a) != is_negative(k, b);
    if float_nan(k, a) || float_nan(k, b) {
        quiet_nan(k)
    } else if m == float_inf(k) {
        if n == float_inf(k) {
            quiet_nan(k)
        } else {
            with_sign(k, negative, float_inf(k))
        }
    } else if n == float_inf(k) {
        with_sign(k, negative, 0)
    } else if n == 0 {
        if m == 0 {
            quiet_nan(k)
        } else {
            with_sign(k, negative, float_inf(k))
        }
    } else {
        with_sign(k, negative, nearest(k, units(k, m) * pow2(one_exponent(k)), units(k, n)))
    }
}

/// The float nearest to an integer.
pub open spec fn float_of_int(k: FloatKind, n: int) -> int {
    if n < 0 {
        with_sign(k, true, nearest(k, (-n) as nat * pow2(one_exponent(k)), 1))
    } else {
        nearest(k, n as nat * pow2(one_exponent(k)), 1)
    }
}

/// Higher patterns have higher values.
pub proof fn lemma_units_increase(k: FloatKind, m: int, n: int)
    requires
        0 <= m < n,
    ensures
        units(k, m) < units(k, n),
    decreases n - m,
{
    if m + 1 < n {
        lemma_units_increase(k, m, n - 1);
        lemma_units_step(k, n - 1);
    } else {
        lemma_units_step(k, m);
    }
}

proof fn lemma_units_step(k: FloatKind, m: int)
    requires
        0 <= m,
    ensures
        units(k, m) < units(k, m + 1),
{
    let i = implicit(k);
    let e = m / i;
    let f = m % i;
    vstd::arithmetic::power2::lemma2_to64();
    if f == i - 1 {
        assert((m + 1) / i == e + 1 && (m + 1) % i == 0);
        if e > 0 {
            lemma_pow2_unfold(e as nat);
            let p = pow2((e - 1) as nat);
            lemma_pow2_pos((e - 1) as nat);
            assert((2 * i - 1) * p < i * (2 * p)) by (nonlinear_arith)
                requires
                    p > 0,
            ;
            assert(units(k, m) == (i + f) as nat * p);
            assert(units(k, m + 1) == (i + 0) as nat * pow2(e as nat));
        } else {
            assert(units(k, m + 1) == i as nat * pow2(0));
            assert(i as nat * 1 == i);
        }
    } else {
        assert((m + 1) / i == e && (m + 1) % i == f + 1);
        if e > 0 {
            let p = pow2((e - 1) as nat);
            lemma_pow2_pos((e - 1) as nat);
            assert((i + f) * p < (i + f + 1) * p) by (nonlinear_arith)
                requires
                    p > 0,
            ;
            assert(units(k, m) == (i + f) as nat * p);
            assert(units(k, m + 1) == (i + f + 1) as nat * p);
        }
    }
}

/// What rounds up to a pattern rounds up to every lower one.
proof fn lemma_rounds_down(k: FloatKind, num: nat, den: nat, m: int, n: int)
    requires
        den > 0,
        0 < m < n,
        rounds_up_to(k, num, den, n),
    ensures
        rounds_up_to(k, num, den, m),
{
    lemma_units_increase(k, m - 1, n - 1);
    lemma_units_increase(k, m, n);
    let a = units(k, m - 1) + units(k, m);
    let b = units(k, n - 1) + units(k, n);
    assert(den * a < den * b) by (nonlinear_arith)
        requires
            a < b,
            den > 0,
    ;
}

/// The nearest pattern is the one where rounding up stops.
pub proof fn lemma_nearest_is(k: FloatKind, num: nat, den: nat, m: int, top: int)
    requires
        den > 0,
        0 <= m <= top,
        m == 0 || rounds_up_to(k, num, den, m),
        m == top || !rounds_up_to(k, num, den, m + 1),
    ensures
        nearest_up_to(k, num, den, top) == m,
    decreases top - m,
{
    if m < top {
        if rounds_up_to(k, num, den, top) {
            if m + 1 < top {
                lemma_rounds_down(k, num, den, m + 1, top);
            }
            assert(false);
        }
        if m < top - 1 {
            lemma_nearest_is(k, num, den, m, top - 1);
        } else {
            assert(nearest_up_to(k, num, den, m) == m);
        }
    }
}

pub(crate) proof fn lemma_nearest_bounds(k: FloatKind, num: nat, den: nat, top: int)
    requires
        den > 0,
        top >= 0,
    ensures
        0 <= nearest_up_to(k, num, den, top) <= top,
        nearest_up_to(k, num, den, top) == 0 || rounds_up_to(
            k,
            num,
            den,
            nearest_up_to(k, num, den, top),
        ),
        nearest_up_to(k, num, den, top) == top || !rounds_up_to(
            k,
            num,
            den,
            nearest_up_to(k, num, den, top) + 1,
        ),
    decreases top,
{
    if top > 0 && !rounds_up_to(k, num, den, top) {
        lemma_nearest_bounds(k, num, den, top - 1);
    }
}

/// The nearest pattern is nearest: no pattern up to infinity has a value that is
/// closer to `num / den`.
pub proof fn lemma_nearest(k: FloatKind, num: nat, den: nat, other: int)
    requires
        den > 0,
        0 <= other <= float_inf(k),
    ensures
        0 <= nearest(k, num, den) <= float_inf(k),
        distance(num, den * units(k, nearest(k, num, den))) <= distance(
            num,
            den * units(k, other),
        ),
{
    let r = nearest(k, num, den);
    lemma_nearest_bounds(k, num, den, float_inf(k));
    let x = units(k, r);
    let y = units(k, other);
    if other < r {
        let w = units(k, r - 1);
        lemma_units_increase(k, r - 1, r);
        if other < r - 1 {
            lemma_units_increase(k, other, r - 1);
        }
        assert(den * (w + x) == den * w + den * x) by (nonlinear_arith);
        assert(den * y <= den * w && den * w < den * x) by (nonlinear_arith)
            requires
                den > 0,
                y <= w,
                w < x,
        ;
    } else if other > r {
        let w = units(k, r + 1);
        lemma_units_increase(k, r, r + 1);
        if other > r + 1 {
            lemma_units_increase(k, r + 1, other);
        }
        assert(den * (x + w) == den * x + den * w) by (nonlinear_arith);
        assert(den * w <= den * y && den * x < den * w) by (nonlinear_arith)
            requires
                den > 0,
                w <= y,
                x < w,
        ;
    }
}

/// How far apart two numbers are.
pub open spec fn distance(a: nat, b: nat) -> int {
    if a < b {
        b - a
    } else {
        a - b
    }
}

/// A value that is a pattern's rounds to that pattern.
pub proof fn lemma_nearest_exact(k: FloatKind, m: int, den: nat)
    requires
        den > 0,
        0 <= m <= float_inf(k),
    ensures
        nearest(k, units(k, m) * den, den) == m,
{
    let num = units(k, m) * den;
    let x = units(k, m);
    assert(2 * num == den * (x + x)) by (nonlinear_arith)
        requires
            num == x * den,
    ;
    if m > 0 {
        let w = units(k, m - 1);
        lemma_units_increase(k, m - 1, m);
        assert(den * (x + x) > den * (w + x)) by (nonlinear_arith)
            requires
                w < x,
                den > 0,
        ;
    }
    if m < float_inf(k) {
        let w = units(k, m + 1);
        lemma_units_increase(k, m, m + 1);
        assert(den * (x + x) < den * (x + w)) by (nonlinear_arith)
            requires
                w > x,
                den > 0,
        ;
    }
    lemma_nearest_is(k, num, den, m, float_inf(k));
}

/// The pattern of positive infinity.
pub fn infinity(k: FloatKind) -> (r: u64)
    ensures
        r == float_inf(k),
{
    match k {
        FloatKind::F64 => 0x7ff0_0000_0000_0000,
        _ => 0x7f80_0000,
    }
}

/// The value of the sign bit.
fn sign_bit(k: FloatKind) -> (r: u64)
    ensures
        r == float_sign(k),
{
    match k {
        FloatKind::F64 => 0x8000_0000_0000_0000,
        _ => 0x8000_0000,
    }
}

/// The pattern that stands for a result that is not a number.
pub fn not_a_number(k: FloatKind) -> (r: u64)
    ensures
        r == quiet_nan(k),
{
    match k {
        FloatKind::F64 => 0x7ff8_0000_0000_0000,
        _ => 0x7fc0_0000,
    }
}

/// The magnitude of a pattern.
fn magnitude(k: FloatKind, b: u64) -> (r: u64)
    ensures
        r == float_magnitude(k, b as int),
{
    if b >= sign_bit(k) {
        b - sign_bit(k)
    } else {
        b
    }
}

/// A magnitude with a sign.
pub fn signed(k: FloatKind, negative: bool, m: u64) -> (r: u64)
    requires
        m < float_sign(k),
    ensures
        r == with_sign(k, negative, m as int),
{
    if negative {
        m + sign_bit(k)
    } else {
        m
    }
}

/// The value of a magnitude as a number times a power of two.
fn parts(k: FloatKind, m: u64) -> (r: (u64, usize))
    requires
        m <= float_inf(k),
    ensures
        r.0 < 0x20_0000_0000_0000,
        r.1 < 2048,
        units(k, m as int) == r.0 as nat * pow2(r.1 as nat),
        r.0 == 0 <==> m == 0,
{
    let i: u64 = match k {
        FloatKind::F64 => 0x10_0000_0000_0000,
        _ => 0x80_0000,
    };
    let e: u64 = m / i;
    let f: u64 = m % i;
    proof {
        vstd::arithmetic::power2::lemma2_to64();
    }
    assert(f as nat * 1 == f as nat);
    if e == 0 {
        (f, 0)
    } else {
        (i + f, (e - 1) as usize)
    }
}

/// A number that is a product of two factors and a power of two.
fn scaled(a: u64, b: u64, shift: usize) -> (r: Bits)
    requires
        a < 0x20_0000_0000_0000,
        b < 0x20_0000_0000_0000,
    ensures
        r@ == a as nat * b as nat * pow2(shift as nat),
{
    assert(a as int * b as int <= 0x20_0000_0000_0000 * 0x20_0000_0000_0000) by (nonlinear_arith)
        requires
            0 <= a < 0x20_0000_0000_0000,
            0 <= b < 0x20_0000_0000_0000,
    ;
    Bits::shifted(a as u128 * b as u128, shift)
}

/// Whether half of `twice`, over `d` times two to the power of `t`, rounds to
/// pattern `m` or higher.
fn reaches(k: FloatKind, twice: &Bits, d: u64, t: usize, m: u64, Ghost(num): Ghost<nat>) -> (r: bool)
    requires
        0 < m <= float_inf(k),
        d < 0x20_0000_0000_0000,
        t < 4096,
        twice@ == 2 * num,
    ensures
        r == rounds_up_to(k, num, d as nat * pow2(t as nat), m as int),
{
    let (a, s) = parts(k, m - 1);
    let (b, u) = parts(k, m);
    let low = scaled(a, d, s + t);
    let high = scaled(b, d, u + t);
    let middle = low.plus(&high);
    proof {
        let den = d as nat * pow2(t as nat);
        lemma_scaled(a as nat, d as nat, s as nat, t as nat);
        lemma_scaled(b as nat, d as nat, u as nat, t as nat);
        let x = units(k, m - 1);
        let y = units(k, m as int);
        assert(den * (x + y) == den * x + den * y) by (nonlinear_arith);
    }
    if middle.less(twice) {
        true
    } else if twice.less(&middle) {
        false
    } else {
        m % 2 == 0
    }
}

proof fn lemma_scaled(a: nat, d: nat, s: nat, t: nat)
    ensures
        a * d * pow2(s + t) == (d * pow2(t)) * (a * pow2(s)),
{
    lemma_pow2_adds(s, t);
    let p = pow2(s);
    let q = pow2(t);
    assert(a * d * (p * q) == (d * q) * (a * p)) by (nonlinear_arith);
}

/// The pattern nearest to half of `twice` over `d` times two to the power of `t`.
fn round(k: FloatKind, twice: &Bits, d: u64, t: usize, Ghost(num): Ghost<nat>) -> (r: u64)
    requires
        0 < d < 0x20_0000_0000_0000,
        t < 4096,
        twice@ == 2 * num,
    ensures
        r == nearest(k, num, d as nat * pow2(t as nat)),
        r <= float_inf(k),
{
    let ghost den = d as nat * pow2(t as nat);
    let top = infinity(k);
    let mut lo: u64 = 0;
    let mut hi: u64 = top + 1;
    while lo + 1 < hi
        invariant
            top == float_inf(k),
            lo < hi <= top + 1,
            0 < d < 0x20_0000_0000_0000,
            t < 4096,
            den == d as nat * pow2(t as nat),
            twice@ == 2 * num,
            lo == 0 || rounds_up_to(k, num, den, lo as int),
            hi == top + 1 || !rounds_up_to(k, num, den, hi as int),
        decreases hi - lo,
    {
        let mid: u64 = lo + (hi - lo) / 2;
        if reaches(k, twice, d, t, mid, Ghost(num)) {
            lo = mid;
        } else {
            hi = mid;
        }
    }
    proof {
        lemma_pow2_pos(t as nat);
        assert(den > 0) by (nonlinear_arith)
            requires
                den == d * pow2(t as nat),
                d > 0,
                pow2(t as nat) > 0,
        ;
        lemma_nearest_is(k, num, den, lo as int, top as int);
    }
    lo
}

/// Whether half of `twice`, over `den`, rounds to pattern `m` or higher.
fn reaches_wide(k: FloatKind, twice: &Bits, den: &Bits, m: u64, Ghost(num): Ghost<nat>) -> (r: bool)
    requires
        0 < m <= float_inf(k),
        twice@ == 2 * num,
    ensures
        r == rounds_up_to(k, num, den@, m as int),
{
    let (a, s) = parts(k, m - 1);
    let (b, u) = parts(k, m);
    let low = den.times(a).shift(s);
    let high = den.times(b).shift(u);
    let middle = low.plus(&high);
    proof {
        let d = den@;
        let x = units(k, m - 1);
        let y = units(k, m as int);
        let (an, bn) = (a as nat, b as nat);
        let (p, q) = (pow2(s as nat), pow2(u as nat));
        assert(d * an * p == d * (an * p)) by (nonlinear_arith);
        assert(d * bn * q == d * (bn * q)) by (nonlinear_arith);
        assert(d * (x + y) == d * x + d * y) by (nonlinear_arith);
    }
    if middle.less(twice) {
        true
    } else if twice.less(&middle) {
        false
    } else {
        m % 2 == 0
    }
}

/// The pattern nearest to half of `twice` over `den`.
pub fn round_wide(k: FloatKind, twice: &Bits, den: &Bits, Ghost(num): Ghost<nat>) -> (r: u64)
    requires
        den@ > 0,
        twice@ == 2 * num,
    ensures
        r == nearest(k, num, den@),
        r <= float_inf(k),
{
    let top = infinity(k);
    let mut lo: u64 = 0;
    let mut hi: u64 = top + 1;
    while lo + 1 < hi
        invariant
            top == float_inf(k),
            lo < hi <= top + 1,
            twice@ == 2 * num,
            lo == 0 || rounds_up_to(k, num, den@, lo as int),
            hi == top + 1 || !rounds_up_to(k, num, den@, hi as int),
        decreases hi - lo,
    {
        let mid: u64 = lo + (hi - lo) / 2;
        if reaches_wide(k, twice, den, mid, Ghost(num)) {
            lo = mid;
        } else {
            hi = mid;
        }
    }
    proof {
        lemma_nearest_is(k, num, den@, lo as int, top as int);
    }
    lo
}

/// The sum of two floats.
pub fn add_floats(k: FloatKind, a: u64, b: u64) -> (r: u64)
    requires
        a < 2 * float_sign(k),
        b < 2 * float_sign(k),
    ensures
        r == float_sum(k, a as int, b as int),
        r < 2 * float_sign(k),
{
    let inf = infinity(k);
    let m = magnitude(k, a);
    let n = magnitude(k, b);
    let a_neg = a >= sign_bit(k);
    let b_neg = b >= sign_bit(k);
    if m > inf || n > inf {
        return not_a_number(k);
    }
    if m == inf {
        if n == inf && a_neg != b_neg {
            return not_a_number(k);
        }
        return a;
    }
    if n == inf {
        return b;
    }
    let (x, s) = parts(k, m);
    let (y, u) = parts(k, n);
    let ghost p = units(k, m as int);
    let ghost q = units(k, n as int);
    let twice_x = Bits::shifted(x as u128, s + 1);
    let twice_y = Bits::shifted(y as u128, u + 1);
    proof {
        lemma_doubled(x as nat, s as nat);
        lemma_doubled(y as nat, u as nat);
        vstd::arithmetic::power2::lemma2_to64();
    }
    let below = twice_x.less(&twice_y);
    if a_neg == b_neg {
        let twice = twice_x.plus(&twice_y);
        if twice.is_zero() {
            signed(k, a_neg, 0)
        } else {
            let r = round(k, &twice, 1, 0, Ghost((p + q) as nat));
            signed(k, a_neg, r)
        }
    } else if below {
        let twice = twice_y.minus(&twice_x);
        let r = round(k, &twice, 1, 0, Ghost((q - p) as nat));
        signed(k, b_neg, r)
    } else {
        let twice = twice_x.minus(&twice_y);
        if twice.is_zero() {
            0
        } else {
            let r = round(k, &twice, 1, 0, Ghost((p - q) as nat));
            signed(k, a_neg, r)
        }
    }
}

proof fn lemma_doubled(x: nat, s: nat)
    ensures
        x * pow2(s + 1) == 2 * (x * pow2(s)),
{
    lemma_pow2_unfold(s + 1);
    let p = pow2(s);
    assert(x * (2 * p) == 2 * (x * p)) by (nonlinear_arith);
}

/// The exponent of the number one.
fn exponent_of_one(k: FloatKind) -> (r: usize)
    ensures
        r == one_exponent(k),
{
    match k {
        FloatKind::F64 => 1074,
        _ => 149,
    }
}

/// The float nearest to a number with a sign.
pub fn float_from(k: FloatKind, negative: bool, n: u128) -> (r: u64)
    requires
        negative ==> n > 0,
    ensures
        r == float_of_int(k, if negative { -(n as int) } else { n as int }),
        r < 2 * float_sign(k),
{
    let e = exponent_of_one(k);
    let twice = Bits::shifted(n, e + 1);
    proof {
        lemma_doubled(n as nat, e as nat);
        vstd::arithmetic::power2::lemma2_to64();
    }
    let m = round(k, &twice, 1, 0, Ghost(n as nat * pow2(one_exponent(k))));
    signed(k, negative, m)
}

/// The product of two floats.
pub fn multiply_floats(k: FloatKind, a: u64, b: u64) -> (r: u64)
    requires
        a < 2 * float_sign(k),
        b < 2 * float_sign(k),
    ensures
        r == float_product(k, a as int, b as int),
        r < 2 * float_sign(k),
{
    let inf = infinity(k);
    let m = magnitude(k, a);
    let n = magnitude(k, b);
    let negative = (a >= sign_bit(k)) != (b >= sign_bit(k));
    if m > inf || n > inf {
        return not_a_number(k);
    }
    if m == inf || n == inf {
        if m == 0 || n == 0 {
            return not_a_number(k);
        }
        return signed(k, negative, inf);
    }
    let (x, s) = parts(k, m);
    let (y, u) = parts(k, n);
    let twice = scaled(x, y, s + u + 1);
    let ghost num = units(k, m as int) * units(k, n as int);
    proof {
        let xy = x as nat * y as nat;
        lemma_doubled(xy, (s + u) as nat);
        lemma_pow2_adds(s as nat, u as nat);
        let xn = x as nat;
        let yn = y as nat;
        let p = pow2(s as nat);
        let q = pow2(u as nat);
        assert(xn * yn * (p * q) == (xn * p) * (yn * q)) by (nonlinear_arith);
        let e = pow2(one_exponent(k));
        assert(1 * e == e);
    }
    let r = round(k, &twice, 1, exponent_of_one(k), Ghost(num));
    signed(k, negative, r)
}

/// The quotient of two floats.
pub fn divide_floats(k: FloatKind, a: u64, b: u64) -> (r: u64)
    requires
        a < 2 * float_sign(k),
        b < 2 * float_sign(k),
    ensures
        r == float_quotient(k, a as int, b as int),
        r < 2 * float_sign(k),
{
    let inf = infinity(k);
    let m = magnitude(k, a);
    let n = magnitude(k, b);
    let negative = (a >= sign_bit(k)) != (b >= sign_bit(k));
    if m > inf || n > inf {
        return not_a_number(k);
    }
    if m == inf {
        if n == inf {
            return not_a_number(k);
        }
        return signed(k, negative, inf);
    }
    if n == inf {
        return signed(k, negative, 0);
    }
    if n == 0 {
        if m == 0 {
            return not_a_number(k);
        }
        return signed(k, negative, inf);
    }
    let (x, s) = parts(k, m);
    let (y, u) = parts(k, n);
    let e = exponent_of_one(k);
    let twice = Bits::shifted(x as u128, s + e + 1);
    let ghost num = units(k, m as int) * pow2(one_exponent(k));
    proof {
        lemma_doubled(x as nat, (s + e) as nat);
        lemma_pow2_adds(s as nat, e as nat);
        let xn = x as nat;
        let p = pow2(s as nat);
        let q = pow2(e as nat);
        assert(xn * (p * q) == (xn * p) * q) by (nonlinear_arith);
    }
    let r = round(k, &twice, y, u, Ghost(num));
    signed(k, negative, r)
}

} // verus!
