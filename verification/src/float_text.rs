//! Decimal text of floating-point numbers.

use vstd::arithmetic::power2::{lemma_pow2_adds, lemma_pow2_pos, lemma_pow2_unfold, pow2};
use vstd::prelude::*;

use crate::bits::Bits;
use crate::float::{infinity, not_a_number, round_wide, signed};
use crate::float::{nearest, quiet_nan, rounds_up_to, units, with_sign};
use crate::float::{lemma_nearest_is, lemma_units_increase};
use crate::literal::FloatKind;
use crate::literal::float_inf;
use crate::number::{find_char, parse_digits};
use crate::number::{all_digits, digits, first_of, is_digit, signed_text, ten_to, value_of};
use crate::number::{lemma_first_of, lemma_ten_to_grows, lemma_value_bound};

verus! {

/// A letter in lower case; every other character as it is.
pub open spec fn lower(c: char) -> char {
    if 'A' <= c <= 'Z' {
        (c as int + 32) as char
    } else {
        c
    }
}

/// A text in lower case.
pub open spec fn lowered(s: Seq<char>) -> Seq<char> {
    s.map_values(|c: char| lower(c))
}

/// Where the exponent of a number starts: the first `e` or `E`, or the length.
pub open spec fn exponent_mark(s: Seq<char>) -> int
    decreases s.len(),
{
    if s.len() == 0 || s[0] == 'e' || s[0] == 'E' {
        0
    } else {
        1 + exponent_mark(s.drop_first())
    }
}

/// The digits before the point.
pub open spec fn whole_digits(m: Seq<char>) -> Seq<char> {
    m.take(first_of(m, '.'))
}

/// The digits after the point.
pub open spec fn fraction_digits(m: Seq<char>) -> Seq<char> {
    if first_of(m, '.') < m.len() {
        m.skip(first_of(m, '.') + 1)
    } else {
        Seq::empty()
    }
}

/// Whether a text is digits with at most one point among them, and has a digit.
pub open spec fn is_mantissa(m: Seq<char>) -> bool {
    &&& all_digits(whole_digits(m))
    &&& all_digits(fraction_digits(m))
    &&& whole_digits(m).len() + fraction_digits(m).len() > 0
}

/// The 64-bit float nearest to `d` times ten to the power of `scale`.
pub open spec fn scaled_bits(d: nat, scale: int) -> int {
    if scale >= 0 {
        nearest(FloatKind::F64, d * ten_to(scale as nat) * pow2(1074), 1)
    } else {
        nearest(FloatKind::F64, d * pow2(1074), ten_to((-scale) as nat))
    }
}

/// The magnitude of an unsigned number in text: digits with an optional point and an
/// optional exponent.
pub open spec fn number_bits(s: Seq<char>) -> Option<int> {
    let e = exponent_mark(s);
    let m = s.take(e);
    let power = if e < s.len() {
        signed_text(s.skip(e + 1))
    } else {
        Some(0)
    };
    match power {
        None => None,
        Some(x) => if is_mantissa(m) {
            Some(
                scaled_bits(
                    value_of(whole_digits(m) + fraction_digits(m)),
                    x - fraction_digits(m).len(),
                ),
            )
        } else {
            None
        },
    }
}

/// The magnitude of a float in text: infinity, not-a-number or a number.
pub open spec fn magnitude_bits(s: Seq<char>) -> Option<int> {
    if lowered(s) == "inf"@ || lowered(s) == "infinity"@ {
        Some(float_inf(FloatKind::F64))
    } else if lowered(s) == "nan"@ {
        Some(quiet_nan(FloatKind::F64))
    } else {
        number_bits(s)
    }
}

/// The bit pattern of the 64-bit float that a text stands for: the nearest to its
/// decimal value.
pub open spec fn float_bits(s: Seq<char>) -> Option<int> {
    let negative = s.len() > 0 && s[0] == '-';
    let rest = if s.len() > 0 && (s[0] == '-' || s[0] == '+') {
        s.skip(1)
    } else {
        s
    };
    match magnitude_bits(rest) {
        Some(b) => Some(with_sign(FloatKind::F64, negative, b)),
        None => None,
    }
}

/// Ten is more than two to the third.
proof fn lemma_ten_two(n: nat)
    ensures
        ten_to(n) >= pow2(3 * n),
    decreases n,
{
    vstd::arithmetic::power2::lemma2_to64();
    if n > 0 {
        lemma_ten_two((n - 1) as nat);
        lemma_pow2_adds(3, (3 * (n - 1)) as nat);
        assert(3 + 3 * (n - 1) == 3 * n);
    }
}

proof fn lemma_ten_adds(m: nat, n: nat)
    ensures
        ten_to(m + n) == ten_to(m) * ten_to(n),
    decreases m,
{
    if m > 0 {
        lemma_ten_adds((m - 1) as nat, n);
        let t = ten_to((m - 1) as nat);
        let u = ten_to(n);
        assert(10 * (t * u) == (10 * t) * u) by (nonlinear_arith);
    } else {
        assert(1 * ten_to(n) == ten_to(n));
    }
}

/// A number from ten to the power of 342 on rounds to infinity.
proof fn lemma_overflow(d: nat, scale: int)
    requires
        d > 0,
        scale >= 342,
    ensures
        scaled_bits(d, scale) == float_inf(FloatKind::F64),
{
    let k = FloatKind::F64;
    let inf = float_inf(k);
    let t = ten_to(scale as nat);
    let p = pow2(1074);
    let num = d * t * p;
    lemma_ten_two(342);
    lemma_ten_to_grows(342, scale as nat);
    lemma_pow2_adds(1026, 1074);
    lemma_pow2_pos(1074);
    let q = pow2(1026);
    assert(num >= q * p) by (nonlinear_arith)
        requires
            num == d * t * p,
            d >= 1,
            t >= q,
            q >= 0,
            p >= 0,
    ;
    vstd::arithmetic::power2::lemma2_to64_rest();
    lemma_pow2_adds(52, 2046);
    lemma_pow2_unfold(2099);
    lemma_pow2_unfold(2100);
    assert(inf / 0x10_0000_0000_0000 == 2047 && inf % 0x10_0000_0000_0000 == 0);
    assert(units(k, inf) == 0x10_0000_0000_0000 * pow2(2046));
    lemma_units_increase(k, inf - 1, inf);
    let middle = units(k, inf - 1) + units(k, inf);
    assert(1 * middle == middle);
    assert(rounds_up_to(k, num, 1, inf));
}

/// A number of `n` digits times ten to the power of less than `-n - 358` rounds to
/// zero.
proof fn lemma_underflow(d: nat, n: nat, scale: int)
    requires
        d < ten_to(n),
        scale <= -(n as int) - 359,
    ensures
        scaled_bits(d, scale) == 0,
{
    let k = FloatKind::F64;
    let m = (-scale) as nat;
    let den = ten_to(m);
    let p = pow2(1074);
    let num = d * p;
    lemma_ten_to_grows((n + 359) as nat, m);
    lemma_ten_adds(n, 359);
    lemma_ten_two(359);
    lemma_pow2_unfold(1075);
    lemma_pow2_unfold(1076);
    lemma_pow2_unfold(1077);
    let t = ten_to(n);
    let u = ten_to(359);
    assert(3 * 359 == 1077);
    assert(t * u >= t * (8 * p)) by (nonlinear_arith)
        requires
            u >= 8 * p,
            t >= 0,
    ;
    lemma_pow2_pos(1074);
    assert(t * (8 * p) > 2 * (d * p)) by (nonlinear_arith)
        requires
            t > d,
            p > 0,
    ;
    assert(units(k, 0) == 0 && units(k, 1) == 1);
    assert(den * 1 == den);
    assert(!rounds_up_to(k, num, den, 1));
    lemma_nearest_is(k, num, den, 0, float_inf(k));
}

/// Zero, scaled, is zero.
proof fn lemma_zero(scale: int)
    ensures
        scaled_bits(0, scale) == 0,
{
    let k = FloatKind::F64;
    assert(units(k, 0) == 0 && units(k, 1) == 1);
    if scale >= 0 {
        let t = ten_to(scale as nat);
        assert(0 * t * pow2(1074) == 0) by (nonlinear_arith);
        lemma_nearest_is(k, 0, 1, 0, float_inf(k));
    } else {
        let den = ten_to((-scale) as nat);
        lemma_ten_to_grows(0, (-scale) as nat);
        assert(0 * pow2(1074) == 0) by (nonlinear_arith);
        assert(den * 1 == den);
        lemma_nearest_is(k, 0, den, 0, float_inf(k));
    }
}

/// A number times ten to the power of `n`.
fn times_power(d: &Bits, n: u128) -> (r: Bits)
    ensures
        r@ == d@ * ten_to(n as nat),
{
    let mut r = d.times(1);
    let mut i: u128 = 0;
    assert(d@ * 1 == d@);
    while i < n
        invariant
            i <= n,
            r@ == d@ * ten_to(i as nat),
        decreases n - i,
    {
        let ghost a = d@;
        let ghost t = ten_to(i as nat);
        assert((a * t) * 10 == a * (10 * t)) by (nonlinear_arith);
        r = r.times(10);
        i = i + 1;
    }
    r
}

/// The float nearest to `d`, which has at most `n` digits, times ten to the power of
/// `scale`.
fn scale_decimal(d: &Bits, n: usize, scale: i128) -> (r: u64)
    requires
        d@ < ten_to(n as nat),
        -0x1_0000_0000_0000_0000_0000 <= scale <= 0x1_0000_0000_0000_0000_0000,
    ensures
        r == scaled_bits(d@, scale as int),
        r <= float_inf(FloatKind::F64),
{
    if d.is_zero() {
        proof {
            lemma_zero(scale as int);
        }
        return 0;
    }
    if scale >= 342 {
        proof {
            lemma_overflow(d@, scale as int);
        }
        return infinity(FloatKind::F64);
    }
    if scale <= -(n as i128) - 359 {
        proof {
            lemma_underflow(d@, n as nat, scale as int);
        }
        return 0;
    }
    proof {
        lemma_pow2_unfold(1075);
    }
    let one = Bits::shifted(1, 0);
    assert(one@ == 1) by {
        vstd::arithmetic::power2::lemma2_to64();
        assert(1 * pow2(0) == 1);
    }
    if scale >= 0 {
        let num = times_power(d, scale as u128);
        let twice = num.shift(1075);
        let ghost v = num@;
        let ghost p = pow2(1074);
        assert(v * (2 * p) == 2 * (v * p)) by (nonlinear_arith);
        round_wide(FloatKind::F64, &twice, &one, Ghost(v * p))
    } else {
        let m: i128 = -scale;
        let den = times_power(&one, m as u128);
        let twice = d.shift(1075);
        let ghost v = d@;
        let ghost p = pow2(1074);
        proof {
            assert(v * (2 * p) == 2 * (v * p)) by (nonlinear_arith);
            lemma_ten_to_grows(0, m as nat);
            assert(1 * ten_to(m as nat) == ten_to(m as nat));
        }
        round_wide(FloatKind::F64, &twice, &den, Ghost(v * p))
    }
}

/// Whether a text equals a lower-case word, letter case aside.
fn same_word(s: &str, word: &str) -> (r: bool)
    ensures
        r == (lowered(s@) == word@),
{
    let n = s.unicode_len();
    if n != word.unicode_len() {
        return false;
    }
    let mut i: usize = 0;
    while i < n
        invariant
            i <= n,
            n == s@.len(),
            n == word@.len(),
            forall|j: int| 0 <= j < i ==> lower(#[trigger] s@[j]) == word@[j],
        decreases n - i,
    {
        let c = s.get_char(i);
        let l = if 'A' <= c && c <= 'Z' {
            (c as u8 + 32) as char
        } else {
            c
        };
        if l != word.get_char(i) {
            assert(lowered(s@)[i as int] != word@[i as int]);
            return false;
        }
        i = i + 1;
    }
    assert(lowered(s@) =~= word@);
    true
}

/// Where the exponent of a number starts.
fn find_mark(s: &str) -> (r: usize)
    ensures
        r == exponent_mark(s@),
        r <= s@.len(),
{
    let n = s.unicode_len();
    let mut i: usize = 0;
    assert(s@.skip(0) =~= s@);
    while i < n && s.get_char(i) != 'e' && s.get_char(i) != 'E'
        invariant
            i <= n,
            n == s@.len(),
            exponent_mark(s@) == i + exponent_mark(s@.skip(i as int)),
        decreases n - i,
    {
        assert(s@.skip(i as int)[0] == s@[i as int]);
        assert(s@.skip(i as int).drop_first() =~= s@.skip(i as int + 1));
        i = i + 1;
    }
    assert(i < n ==> s@.skip(i as int)[0] == s@[i as int]);
    i
}

/// Appends the digits of a text to a number; `None` where it holds anything else.
fn append_digits(d: &Bits, s: &str, Ghost(front): Ghost<Seq<char>>) -> (r: Option<Bits>)
    requires
        d@ == value_of(front),
    ensures
        match r {
            Some(v) => all_digits(s@) && v@ == value_of(front + s@),
            None => !all_digits(s@),
        },
{
    let n = s.unicode_len();
    let mut v = d.times(1);
    let mut i: usize = 0;
    assert(d@ * 1 == d@);
    assert(front + s@.take(0) =~= front);
    while i < n
        invariant
            i <= n,
            n == s@.len(),
            forall|j: int| 0 <= j < i ==> is_digit(#[trigger] s@[j]),
            v@ == value_of(front + s@.take(i as int)),
        decreases n - i,
    {
        let c = s.get_char(i);
        if c < '0' || c > '9' {
            assert(!is_digit(s@[i as int]));
            return None;
        }
        let x: u128 = (c as u32 - '0' as u32) as u128;
        let digit = Bits::shifted(x, 0);
        proof {
            vstd::arithmetic::power2::lemma2_to64();
            assert(x as nat * 1 == x);
            let next = front + s@.take(i as int + 1);
            assert(next.drop_last() =~= front + s@.take(i as int));
            assert(next.last() == c);
        }
        v = v.times(10).plus(&digit);
        i = i + 1;
    }
    assert(s@.take(i as int) =~= s@);
    Some(v)
}

/// Whether a text is digits, and at least one.
fn only_digits(s: &str) -> (r: bool)
    ensures
        r == (digits(s@) is Some),
{
    let n = s.unicode_len();
    let mut i: usize = 0;
    while i < n
        invariant
            i <= n,
            n == s@.len(),
            forall|j: int| 0 <= j < i ==> is_digit(#[trigger] s@[j]),
        decreases n - i,
    {
        let c = s.get_char(i);
        if c < '0' || c > '9' {
            assert(!is_digit(s@[i as int]));
            return false;
        }
        i = i + 1;
    }
    n > 0
}

/// An exponent: exact up to the given size, and anything above that size where it is
/// larger.
fn parse_exponent(s: &str) -> (r: Option<i128>)
    ensures
        match r {
            None => signed_text(s@) is None,
            Some(v) => {
                &&& signed_text(s@) matches Some(x) && (v == x || (v
                    == 0x8000_0000_0000_0000_0000 && x > 0x4000_0000_0000_0000_0000) || (v
                    == -0x8000_0000_0000_0000_0000 && x < -0x4000_0000_0000_0000_0000))
                &&& -0x8000_0000_0000_0000_0000 <= v <= 0x8000_0000_0000_0000_0000
            },
        },
{
    let n = s.unicode_len();
    let negative = n > 0 && s.get_char(0) == '-';
    let has_sign = negative || (n > 0 && s.get_char(0) == '+');
    let body = if has_sign {
        assert(s@.subrange(1, n as int) =~= s@.skip(1));
        s.substring_char(1, n)
    } else {
        s
    };
    match parse_digits(body, 0x4000_0000_0000_0000_0000) {
        Some(v) => if negative {
            Some(-(v as i128))
        } else {
            Some(v as i128)
        },
        None => if !only_digits(body) {
            None
        } else if negative {
            Some(-0x8000_0000_0000_0000_0000)
        } else {
            Some(0x8000_0000_0000_0000_0000)
        },
    }
}

/// The magnitude of an unsigned number in text.
fn parse_number(s: &str) -> (r: Option<u64>)
    ensures
        match r {
            Some(v) => number_bits(s@) == Some(v as int) && v <= float_inf(FloatKind::F64),
            None => number_bits(s@) is None,
        },
{
    let n = s.unicode_len();
    let e = find_mark(s);
    assert(s@.subrange(0, e as int) =~= s@.take(e as int));
    let m = s.substring_char(0, e);
    let power: i128 = if e < n {
        assert(s@.subrange(e + 1, n as int) =~= s@.skip(e + 1));
        match parse_exponent(s.substring_char(e + 1, n)) {
            Some(v) => v,
            None => {
                return None;
            },
        }
    } else {
        0
    };
    let point = find_char(m, '.');
    proof {
        lemma_first_of(m@, '.');
    }
    let whole = m.substring_char(0, point);
    assert(m@.subrange(0, point as int) =~= whole_digits(m@));
    let start = if point < e {
        point + 1
    } else {
        e
    };
    let fraction = m.substring_char(start, e);
    assert(m@.subrange(start as int, e as int) =~= fraction_digits(m@));
    let zero = Bits::shifted(0, 0);
    assert(zero@ == 0) by {
        assert(0 * pow2(0) == 0) by (nonlinear_arith);
    }
    let front = match append_digits(&zero, whole, Ghost(Seq::empty())) {
        Some(v) => v,
        None => {
            return None;
        },
    };
    assert(Seq::<char>::empty() + whole@ =~= whole@);
    let d = match append_digits(&front, fraction, Ghost(whole@)) {
        Some(v) => v,
        None => {
            return None;
        },
    };
    let places = e - start;
    if point + places == 0 {
        return None;
    }
    let ghost all = whole@ + fraction@;
    assert(all_digits(all));
    proof {
        lemma_value_bound(all);
    }
    let scale: i128 = power - places as i128;
    let count = if point < e {
        e - 1
    } else {
        e
    };
    assert(all.len() == count);
    let ghost exact: int = if e < n {
        signed_text(s@.skip(e + 1))->Some_0
    } else {
        0
    };
    let r = scale_decimal(&d, count, scale);
    proof {
        if power != exact {
            if d@ == 0 {
                lemma_zero(scale as int);
                lemma_zero(exact - places);
            } else if power > 0 {
                lemma_overflow(d@, scale as int);
                lemma_overflow(d@, exact - places);
            } else {
                lemma_underflow(d@, count as nat, scale as int);
                lemma_underflow(d@, count as nat, exact - places);
            }
        }
    }
    Some(r)
}

/// The bit pattern of the 64-bit float that a text stands for.
pub fn parse_float_bits(s: &str) -> (r: Option<u64>)
    ensures
        match r {
            Some(v) => float_bits(s@) == Some(v as int),
            None => float_bits(s@) is None,
        },
{
    let n = s.unicode_len();
    let negative = n > 0 && s.get_char(0) == '-';
    let has_sign = negative || (n > 0 && s.get_char(0) == '+');
    let rest = if has_sign {
        assert(s@.subrange(1, n as int) =~= s@.skip(1));
        s.substring_char(1, n)
    } else {
        s
    };
    let m: u64 = if same_word(rest, "inf") || same_word(rest, "infinity") {
        infinity(FloatKind::F64)
    } else if same_word(rest, "nan") {
        not_a_number(FloatKind::F64)
    } else {
        match parse_number(rest) {
            Some(v) => v,
            None => {
                return None;
            },
        }
    };
    Some(signed(FloatKind::F64, negative, m))
}

} // verus!
