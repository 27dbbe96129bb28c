//! Exact rational numbers in text: integers, fractions and decimals.

use vstd::prelude::*;

use crate::number::{find_char, parse_digits, parse_i128, parse_unsigned, trim};
use crate::number::{digits, first_of, ranged, signed_text, ten_to, trimmed, unsigned_text};
use crate::number::{lemma_first_of, lemma_ten_to_grows};
use crate::semantic::TypeChecker;
use crate::text::str_eq;

verus! {

/// An exact rational number; the denominator is positive.
#[derive(Clone, Copy, Debug, PartialEq, Eq, Structural)]
pub struct Rational {
    pub num: i128,
    pub den: u128,
}

/// Why a text is not a rational number, or two cannot be compared.
#[derive(Clone, Copy, Debug, PartialEq, Eq, Structural)]
pub enum RationalError {
    /// Nothing but white space.
    Empty,
    /// Not an integer, a fraction or a decimal.
    InvalidFormat,
    /// The part before `/` is not an integer.
    InvalidNumerator,
    /// The part after `/` is not an unsigned integer.
    InvalidDenominator,
    /// The part after `/` is zero.
    ZeroDenominator,
    /// A part of a decimal is not a number, or neither part holds a digit.
    InvalidDecimal,
    /// A product of the comparison is too large.
    Overflow,
}

/// How two numbers compare.
#[derive(Clone, Copy, Debug, PartialEq, Eq, Structural)]
pub enum Order {
    Less,
    Equal,
    Greater,
}

/// The name of an error.
pub open spec fn error_name(e: RationalError) -> Seq<char> {
    match e {
        RationalError::Empty => "Empty"@,
        RationalError::InvalidFormat => "InvalidFormat"@,
        RationalError::InvalidNumerator => "InvalidNumerator"@,
        RationalError::InvalidDenominator => "InvalidDenominator"@,
        RationalError::ZeroDenominator => "ZeroDenominator"@,
        RationalError::InvalidDecimal => "InvalidDecimal"@,
        RationalError::Overflow => "Overflow"@,
    }
}

/// A 128-bit signed integer in text.
pub open spec fn i128_text(s: Seq<char>) -> Option<int> {
    ranged(signed_text(s), i128::MIN as int, i128::MAX as int)
}

/// A 128-bit unsigned integer in text.
pub open spec fn u128_text(s: Seq<char>) -> Option<nat> {
    match unsigned_text(s) {
        Some(n) => if n <= u128::MAX {
            Some(n)
        } else {
            None
        },
        None => None,
    }
}

/// The rational number `num / den`.
pub open spec fn ratio(num: int, den: nat) -> Rational {
    Rational { num: num as i128, den: den as u128 }
}

/// A fraction: two integers around one `/`, each with white space around it.
pub open spec fn fraction_text(s: Seq<char>) -> Result<Rational, RationalError> {
    let i = first_of(s, '/');
    let rest = s.skip(i + 1);
    if rest.contains('/') {
        Err(RationalError::InvalidFormat)
    } else {
        match i128_text(trimmed(s.take(i))) {
            None => Err(RationalError::InvalidNumerator),
            Some(n) => match u128_text(trimmed(rest)) {
                None => Err(RationalError::InvalidDenominator),
                Some(d) => if d == 0 {
                    Err(RationalError::ZeroDenominator)
                } else {
                    Ok(ratio(n, d))
                },
            },
        }
    }
}

/// A text without the zeros at its end.
pub open spec fn without_zeros(s: Seq<char>) -> Seq<char>
    decreases s.len(),
{
    if s.len() > 0 && s.last() == '0' {
        without_zeros(s.drop_last())
    } else {
        s
    }
}

/// The whole part of a decimal: zero where nothing but a minus sign stands before
/// the point.
pub open spec fn whole_part(s: Seq<char>) -> Option<int> {
    let part = s.take(first_of(s, '.'));
    if part.len() == 0 || part == seq!['-'] {
        Some(0)
    } else {
        i128_text(part)
    }
}

/// The digits after the point of a decimal, without the zeros at the end.
pub open spec fn places(s: Seq<char>) -> Seq<char> {
    without_zeros(s.skip(first_of(s, '.') + 1))
}

/// The number that those digits stand for. Nothing but digits may stand there.
pub open spec fn places_value(s: Seq<char>) -> Option<int> {
    if places(s).len() == 0 {
        Some(0)
    } else {
        match digits(places(s)) {
            Some(n) => if n <= i128::MAX {
                Some(n as int)
            } else {
                None
            },
            None => None,
        }
    }
}

/// Whether neither side of the point of a decimal holds anything but a minus sign.
pub open spec fn bare_point(s: Seq<char>) -> bool {
    let i = first_of(s, '.');
    i == s.len() - 1 && (i == 0 || s.take(i) == seq!['-'])
}

/// The numerator of a decimal with the given parts, over ten to the power of its
/// places.
pub open spec fn decimal_numerator(s: Seq<char>, whole: int, value: int) -> int {
    let scaled = whole * ten_to(places(s).len());
    if s[0] == '-' {
        scaled - value
    } else {
        scaled + value
    }
}

/// A decimal. A digit must stand on one side of the point at least.
pub open spec fn decimal_text(s: Seq<char>) -> Result<Rational, RationalError> {
    if bare_point(s) {
        Err(RationalError::InvalidDecimal)
    } else {
        match (whole_part(s), places_value(s)) {
            (Some(w), Some(v)) => Ok(ratio(decimal_numerator(s, w, v), ten_to(places(s).len()))),
            _ => Err(RationalError::InvalidDecimal),
        }
    }
}

/// The rational number that a text stands for.
pub open spec fn rational_text(text: Seq<char>) -> Result<Rational, RationalError> {
    let s = trimmed(text);
    if s.len() == 0 {
        Err(RationalError::Empty)
    } else if s.contains('/') {
        fraction_text(s)
    } else {
        match i128_text(s) {
            Some(n) => Ok(ratio(n, 1)),
            None => if s.contains('.') {
                decimal_text(s)
            } else {
                Err(RationalError::InvalidFormat)
            },
        }
    }
}

/// The number of bytes of a character in UTF-8.
pub open spec fn utf8_width(c: char) -> nat {
    if (c as u32) < 0x80 {
        1
    } else if (c as u32) < 0x800 {
        2
    } else if (c as u32) < 0x1_0000 {
        3
    } else {
        4
    }
}

/// The number of bytes of a text in UTF-8.
pub open spec fn utf8_size(s: Seq<char>) -> nat
    decreases s.len(),
{
    if s.len() == 0 {
        0
    } else {
        utf8_size(s.drop_last()) + utf8_width(s.last())
    }
}

/// Whether the arithmetic of reading a decimal stays within 128 bits.
pub open spec fn decimal_fits(s: Seq<char>) -> bool {
    whole_part(s) matches Some(w) ==> {
        &&& utf8_size(places(s)) <= 38
        &&& places_value(s) matches Some(v) ==> {
            &&& i128::MIN <= w * ten_to(places(s).len()) <= i128::MAX
            &&& i128::MIN <= decimal_numerator(s, w, v) <= i128::MAX
        }
    }
}

/// Whether the arithmetic of reading a rational number stays within 128 bits.
pub open spec fn rational_fits(text: Seq<char>) -> bool {
    let s = trimmed(text);
    s.contains('.') && !s.contains('/') && i128_text(s) is None ==> decimal_fits(s)
}

/// Whether the arithmetic of reading two rational numbers, the second only where the
/// first can be read, stays within 128 bits.
pub open spec fn pair_fits(a: Seq<char>, b: Seq<char>) -> bool {
    rational_fits(a) && (rational_text(a) is Ok ==> rational_fits(b))
}

/// The sign of a number.
pub open spec fn sign_of(n: int) -> int {
    if n < 0 {
        -1
    } else if n > 0 {
        1
    } else {
        0
    }
}

/// The magnitude of a number.
pub open spec fn magnitude_of(n: int) -> int {
    if n < 0 {
        -n
    } else {
        n
    }
}

/// How two rational numbers compare.
pub open spec fn order_of(a: Rational, b: Rational) -> Order {
    let l = a.num * b.den;
    let r = b.num * a.den;
    if l < r {
        Order::Less
    } else if l > r {
        Order::Greater
    } else {
        Order::Equal
    }
}

/// Whether the products that the comparison needs fit into 128 bits; numbers of
/// different signs need none.
pub open spec fn comparable(a: Rational, b: Rational) -> bool {
    sign_of(a.num as int) != sign_of(b.num as int) || (magnitude_of(a.num as int) * b.den
        <= u128::MAX && magnitude_of(b.num as int) * a.den <= u128::MAX)
}

/// How the rational numbers in two texts compare.
pub open spec fn texts_compared(a: Seq<char>, b: Seq<char>) -> Result<Order, RationalError> {
    match rational_text(a) {
        Err(e) => Err(e),
        Ok(x) => match rational_text(b) {
            Err(e) => Err(e),
            Ok(y) => if comparable(x, y) {
                Ok(order_of(x, y))
            } else {
                Err(RationalError::Overflow)
            },
        },
    }
}

/// Whether the first rational number is at most the second.
pub open spec fn text_le(a: Seq<char>, b: Seq<char>) -> Result<bool, RationalError> {
    match texts_compared(a, b) {
        Ok(o) => Ok(o != Order::Greater),
        Err(e) => Err(e),
    }
}

/// Whether two rational numbers are equal.
pub open spec fn text_eq(a: Seq<char>, b: Seq<char>) -> Result<bool, RationalError> {
    match texts_compared(a, b) {
        Ok(o) => Ok(o == Order::Equal),
        Err(e) => Err(e),
    }
}

/// The text of the smaller rational number; the first where they are equal.
pub open spec fn text_min(a: Seq<char>, b: Seq<char>) -> Result<Seq<char>, RationalError> {
    match texts_compared(a, b) {
        Ok(o) => Ok(
            if o != Order::Greater {
                a
            } else {
                b
            },
        ),
        Err(e) => Err(e),
    }
}

pub(crate) proof fn lemma_ten_to_38()
    ensures
        ten_to(38) == 100_000_000_000_000_000_000_000_000_000_000_000_000,
{
    reveal_with_fuel(ten_to, 39);
}

/// A text has no more characters than bytes.
pub(crate) proof fn lemma_utf8_size(s: Seq<char>)
    ensures
        s.len() <= utf8_size(s),
    decreases s.len(),
{
    if s.len() > 0 {
        lemma_utf8_size(s.drop_last());
    }
}

/// The denominator of a rational number in text is positive.
pub proof fn lemma_positive_denominator(text: Seq<char>)
    requires
        rational_fits(text),
        rational_text(text) is Ok,
    ensures
        rational_text(text)->Ok_0.den > 0,
{
    let s = trimmed(text);
    if !s.contains('/') && i128_text(s) is None {
        lemma_utf8_size(places(s));
        lemma_ten_to_grows(0, places(s).len());
        lemma_ten_to_grows(places(s).len(), 38);
        lemma_ten_to_38();
    }
}

/// Ten to the power of `n`.
fn power_of_ten(n: usize) -> (r: u128)
    requires
        n <= 38,
    ensures
        r == ten_to(n as nat),
{
    let mut r: u128 = 1;
    let mut i: usize = 0;
    proof {
        lemma_ten_to_38();
    }
    while i < n
        invariant
            i <= n <= 38,
            r == ten_to(i as nat),
            ten_to(38) == 100_000_000_000_000_000_000_000_000_000_000_000_000,
        decreases n - i,
    {
        proof {
            lemma_ten_to_grows((i + 1) as nat, 38);
        }
        r = r * 10;
        i = i + 1;
    }
    r
}

/// A text without the zeros at its end.
fn trim_zeros<'a>(s: &'a str) -> (r: &'a str)
    ensures
        r@ == without_zeros(s@),
{
    let n = s.unicode_len();
    let mut j: usize = n;
    assert(s@.take(n as int) =~= s@);
    while j > 0 && s.get_char(j - 1) == '0'
        invariant
            j <= n,
            n == s@.len(),
            without_zeros(s@) == without_zeros(s@.take(j as int)),
        decreases j,
    {
        assert(s@.take(j as int).last() == s@[j - 1]);
        assert(s@.take(j as int).drop_last() =~= s@.take(j - 1));
        j = j - 1;
    }
    assert(j > 0 ==> s@.take(j as int).last() == s@[j - 1]);
    assert(s@.subrange(0, j as int) =~= s@.take(j as int));
    s.substring_char(0, j)
}

/// The magnitude of a number.
pub fn magnitude(n: i128) -> (r: u128)
    ensures
        r == magnitude_of(n as int),
{
    if n < 0 {
        (-(n + 1)) as u128 + 1
    } else {
        n as u128
    }
}

impl TypeChecker {
    /// Reads a fraction.
    fn parse_fraction(s: &str) -> (r: Result<Rational, RationalError>)
        requires
            s@.contains('/'),
        ensures
            r == fraction_text(s@),
    {
        let n = s.unicode_len();
        let i = find_char(s, '/');
        proof {
            lemma_first_of(s@, '/');
        }
        assert(s@.subrange(0, i as int) =~= s@.take(i as int));
        assert(s@.subrange(i + 1, n as int) =~= s@.skip(i + 1));
        let top = s.substring_char(0, i);
        let bottom = s.substring_char(i + 1, n);
        proof {
            lemma_first_of(bottom@, '/');
        }
        if find_char(bottom, '/') < n - i - 1 {
            return Err(RationalError::InvalidFormat);
        }
        let num = match parse_i128(trim(top)) {
            Some(v) => v,
            None => {
                return Err(RationalError::InvalidNumerator);
            },
        };
        let den = match parse_unsigned(trim(bottom), u128::MAX) {
            Some(v) => v,
            None => {
                return Err(RationalError::InvalidDenominator);
            },
        };
        if den == 0 {
            return Err(RationalError::ZeroDenominator);
        }
        Ok(Rational { num, den })
    }

    /// Reads a decimal.
    fn parse_decimal(s: &str) -> (r: Result<Rational, RationalError>)
        requires
            s@.contains('.'),
            decimal_fits(s@),
        ensures
            r == decimal_text(s@),
    {
        let n = s.unicode_len();
        let i = find_char(s, '.');
        proof {
            lemma_first_of(s@, '.');
        }
        assert(s@.subrange(0, i as int) =~= s@.take(i as int));
        assert(s@.subrange(i + 1, n as int) =~= s@.skip(i + 1));
        let int_part = s.substring_char(0, i);
        let frac_part = trim_zeros(s.substring_char(i + 1, n));
        proof {
            reveal_strlit("-");
            assert("-"@ =~= seq!['-']);
        }
        let unsaid = i == 0 || str_eq(int_part, "-");
        if unsaid && i + 1 == n {
            return Err(RationalError::InvalidDecimal);
        }
        let whole: i128 = if unsaid {
            0
        } else {
            match parse_i128(int_part) {
                Some(v) => v,
                None => {
                    return Err(RationalError::InvalidDecimal);
                },
            }
        };
        assert(whole_part(s@) == Some(whole as int));
        let len = frac_part.unicode_len();
        proof {
            lemma_utf8_size(frac_part@);
            lemma_ten_to_grows(len as nat, 38);
            lemma_ten_to_38();
        }
        let den = power_of_ten(len);
        let value: i128 = if len == 0 {
            0
        } else {
            match parse_digits(frac_part, i128::MAX as u128) {
                Some(v) => v as i128,
                None => {
                    return Err(RationalError::InvalidDecimal);
                },
            }
        };
        assert(places_value(s@) == Some(value as int));
        let scaled: i128 = whole * den as i128;
        let num: i128 = if s.get_char(0) == '-' {
            scaled - value
        } else {
            scaled + value
        };
        Ok(Rational { num, den })
    }

    /// The rational number that a text stands for.
    pub fn parse_rational(s: &str) -> (r: Result<Rational, RationalError>)
        requires
            rational_fits(s@),
        ensures
            r == rational_text(s@),
    {
        let t = trim(s);
        let n = t.unicode_len();
        if n == 0 {
            return Err(RationalError::Empty);
        }
        proof {
            lemma_first_of(t@, '/');
            lemma_first_of(t@, '.');
        }
        if find_char(t, '/') < n {
            Self::parse_fraction(t)
        } else {
            match parse_i128(t) {
                Some(num) => Ok(Rational { num, den: 1 }),
                None => if find_char(t, '.') < n {
                    Self::parse_decimal(t)
                } else {
                    Err(RationalError::InvalidFormat)
                },
            }
        }
    }

    /// How two rational numbers compare.
    fn cross_compare(a: &Rational, b: &Rational) -> (r: Result<Order, RationalError>)
        requires
            a.den > 0,
            b.den > 0,
        ensures
            r == (if comparable(*a, *b) {
                Ok::<Order, RationalError>(order_of(*a, *b))
            } else {
                Err(RationalError::Overflow)
            }),
    {
        let ghost l = a.num * b.den;
        let ghost m = b.num * a.den;
        proof {
            lemma_product_sign(a.num as int, b.den as int);
            lemma_product_sign(b.num as int, a.den as int);
        }
        let a_sign: i8 = if a.num < 0 {
            -1
        } else if a.num > 0 {
            1
        } else {
            0
        };
        let b_sign: i8 = if b.num < 0 {
            -1
        } else if b.num > 0 {
            1
        } else {
            0
        };
        if a_sign < b_sign {
            return Ok(Order::Less);
        }
        if a_sign > b_sign {
            return Ok(Order::Greater);
        }
        let lhs = magnitude(a.num).checked_mul(b.den);
        let rhs = magnitude(b.num).checked_mul(a.den);
        match (lhs, rhs) {
            (Some(x), Some(y)) => {
                if x == y {
                    Ok(Order::Equal)
                } else if (x < y) == (a_sign >= 0) {
                    Ok(Order::Less)
                } else {
                    Ok(Order::Greater)
                }
            },
            _ => Err(RationalError::Overflow),
        }
    }

    /// How the rational numbers in two texts compare.
    fn compare_rational(a: &str, b: &str) -> (r: Result<Order, RationalError>)
        requires
            pair_fits(a@, b@),
        ensures
            r == texts_compared(a@, b@),
    {
        let x = match Self::parse_rational(a) {
            Ok(x) => x,
            Err(e) => {
                return Err(e);
            },
        };
        let y = match Self::parse_rational(b) {
            Ok(y) => y,
            Err(e) => {
                return Err(e);
            },
        };
        proof {
            lemma_positive_denominator(a@);
            lemma_positive_denominator(b@);
        }
        Self::cross_compare(&x, &y)
    }

    /// Whether the first rational number is at most the second.
    pub fn rational_le(a: &str, b: &str) -> (r: Result<bool, RationalError>)
        requires
            pair_fits(a@, b@),
        ensures
            r == text_le(a@, b@),
    {
        match Self::compare_rational(a, b) {
            Ok(o) => Ok(o != Order::Greater),
            Err(e) => Err(e),
        }
    }

    /// Whether two rational numbers are equal.
    pub fn rational_eq(a: &str, b: &str) -> (r: Result<bool, RationalError>)
        requires
            pair_fits(a@, b@),
        ensures
            r == text_eq(a@, b@),
    {
        match Self::compare_rational(a, b) {
            Ok(o) => Ok(o == Order::Equal),
            Err(e) => Err(e),
        }
    }

    /// The text of the smaller rational number; the first where they are equal.
    pub fn rational_min(a: &str, b: &str) -> (r: Result<String, RationalError>)
        requires
            pair_fits(a@, b@),
        ensures
            match r {
                Ok(s) => text_min(a@, b@) == Ok::<Seq<char>, RationalError>(s@),
                Err(e) => text_min(a@, b@) == Err::<Seq<char>, RationalError>(e),
            },
    {
        match Self::compare_rational(a, b) {
            Ok(o) => if o != Order::Greater {
                Ok(a.to_owned())
            } else {
                Ok(b.to_owned())
            },
            Err(e) => Err(e),
        }
    }
}

/// The product with a positive number has the sign of the other factor, and its
/// magnitude is the product of the magnitudes.
proof fn lemma_product_sign(n: int, d: int)
    requires
        d > 0,
    ensures
        sign_of(n * d) == sign_of(n),
        magnitude_of(n * d) == magnitude_of(n) * d,
{
    assert(n > 0 ==> n * d > 0) by (nonlinear_arith)
        requires
            d > 0,
    ;
    assert(n < 0 ==> n * d < 0) by (nonlinear_arith)
        requires
            d > 0,
    ;
    assert(n == 0 ==> n * d == 0) by (nonlinear_arith);
    assert((-n) * d == -(n * d)) by (nonlinear_arith);
}

/// Every rational number equals itself.
pub proof fn lemma_order_reflexive(a: Rational)
    ensures
        order_of(a, a) == Order::Equal,
{
}

/// Comparing the other way round turns the result round.
pub proof fn lemma_order_antisymmetric(a: Rational, b: Rational)
    ensures
        order_of(a, b) == Order::Less <==> order_of(b, a) == Order::Greater,
        order_of(a, b) == Order::Equal <==> order_of(b, a) == Order::Equal,
        comparable(a, b) == comparable(b, a),
{
}

/// What is at most something that is at most a third is at most the third.
pub proof fn lemma_order_transitive(a: Rational, b: Rational, c: Rational)
    requires
        a.den > 0,
        b.den > 0,
        c.den > 0,
        order_of(a, b) != Order::Greater,
        order_of(b, c) != Order::Greater,
    ensures
        order_of(a, c) != Order::Greater,
        order_of(a, c) == Order::Equal <==> order_of(a, b) == Order::Equal && order_of(b, c)
            == Order::Equal,
{
    let (x, y, z) = (a.num as int, b.num as int, c.num as int);
    let (p, q, r) = (a.den as int, b.den as int, c.den as int);
    assert((x * q) * r <= (y * p) * r && ((x * q) * r == (y * p) * r ==> x * q == y * p))
        by (nonlinear_arith)
        requires
            x * q <= y * p,
            r > 0,
    ;
    assert((y * r) * p <= (z * q) * p && ((y * r) * p == (z * q) * p ==> y * r == z * q))
        by (nonlinear_arith)
        requires
            y * r <= z * q,
            p > 0,
    ;
    assert((x * r) * q == (x * q) * r) by (nonlinear_arith);
    assert((y * p) * r == (y * r) * p) by (nonlinear_arith);
    assert((z * p) * q == (z * q) * p) by (nonlinear_arith);
    assert((x * r) * q <= (z * p) * q ==> x * r <= z * p) by (nonlinear_arith)
        requires
            q > 0,
    ;
    assert((x * r) == (z * p) ==> (x * r) * q == (z * p) * q) by (nonlinear_arith);
    assert((x * r) * q == (z * p) * q ==> (x * r) == (z * p)) by (nonlinear_arith)
        requires
            q > 0,
    ;
}

/// Comparing two texts the other way round turns the result round, and succeeds where
/// comparing them does.
pub proof fn lemma_texts_turned(a: Seq<char>, b: Seq<char>)
    ensures
        texts_compared(a, b) is Ok <==> texts_compared(b, a) is Ok,
        texts_compared(a, b) is Ok ==> {
            &&& texts_compared(a, b)->Ok_0 == Order::Less <==> texts_compared(b, a)->Ok_0
                == Order::Greater
            &&& texts_compared(a, b)->Ok_0 == Order::Greater <==> texts_compared(b, a)->Ok_0
                == Order::Less
            &&& texts_compared(a, b)->Ok_0 == Order::Equal <==> texts_compared(b, a)->Ok_0
                == Order::Equal
        },
{
}

/// A number that can be compared with itself equals itself.
pub proof fn lemma_text_itself(a: Seq<char>)
    ensures
        texts_compared(a, a) matches Ok(o) ==> o == Order::Equal,
{
}

/// The smaller of two is one of them, and at most each of them.
pub proof fn lemma_text_min(a: Seq<char>, b: Seq<char>)
    requires
        text_min(a, b) is Ok,
    ensures
        ({
            let m = text_min(a, b)->Ok_0;
            &&& m == a || m == b
            &&& order_of(rational_text(m)->Ok_0, rational_text(a)->Ok_0) != Order::Greater
            &&& order_of(rational_text(m)->Ok_0, rational_text(b)->Ok_0) != Order::Greater
        }),
{
}

/// The number of bytes of a text in UTF-8, up to `max`.
fn size_within(s: &str, max: usize) -> (r: bool)
    requires
        max < 1000,
    ensures
        r == (utf8_size(s@) <= max),
{
    let n = s.unicode_len();
    let mut size: usize = 0;
    let mut i: usize = 0;
    while i < n
        invariant
            i <= n,
            n == s@.len(),
            max < 1000,
            size <= max,
            size == utf8_size(s@.take(i as int)),
        decreases n - i,
    {
        let u = s.get_char(i) as u32;
        let w: usize = if u < 0x80 {
            1
        } else if u < 0x800 {
            2
        } else if u < 0x1_0000 {
            3
        } else {
            4
        };
        assert(s@.take(i as int + 1).drop_last() =~= s@.take(i as int));
        size = size + w;
        i = i + 1;
        if size > max {
            proof {
                lemma_utf8_grows(s@, i as int);
            }
            return false;
        }
    }
    assert(s@.take(i as int) =~= s@);
    true
}

proof fn lemma_utf8_grows(s: Seq<char>, i: int)
    requires
        0 <= i <= s.len(),
    ensures
        utf8_size(s.take(i)) <= utf8_size(s),
    decreases s.len() - i,
{
    if i == s.len() {
        assert(s.take(i) =~= s);
    } else {
        lemma_utf8_grows(s, i + 1);
        assert(s.take(i + 1).drop_last() =~= s.take(i));
    }
}

impl TypeChecker {
    /// Whether a decimal can be read.
    fn decimal_in_range(s: &str) -> (r: bool)
        requires
            s@.contains('.'),
        ensures
            r == decimal_fits(s@),
    {
        let n = s.unicode_len();
        let i = find_char(s, '.');
        proof {
            lemma_first_of(s@, '.');
            reveal_strlit("-");
            assert("-"@ =~= seq!['-']);
        }
        assert(s@.subrange(0, i as int) =~= s@.take(i as int));
        assert(s@.subrange(i + 1, n as int) =~= s@.skip(i + 1));
        let int_part = s.substring_char(0, i);
        let frac_part = trim_zeros(s.substring_char(i + 1, n));
        let whole: i128 = if i == 0 || str_eq(int_part, "-") {
            0
        } else {
            match parse_i128(int_part) {
                Some(v) => v,
                None => {
                    return true;
                },
            }
        };
        assert(whole_part(s@) == Some(whole as int));
        if !size_within(frac_part, 38) {
            return false;
        }
        let len = frac_part.unicode_len();
        proof {
            lemma_utf8_size(frac_part@);
            lemma_ten_to_grows(len as nat, 38);
            lemma_ten_to_38();
        }
        let den = power_of_ten(len);
        let value: i128 = if len == 0 {
            0
        } else {
            match parse_digits(frac_part, i128::MAX as u128) {
                Some(v) => v as i128,
                None => {
                    return true;
                },
            }
        };
        assert(places_value(s@) == Some(value as int));
        match whole.checked_mul(den as i128) {
            Some(scaled) => if s.get_char(0) == '-' {
                scaled.checked_sub(value).is_some()
            } else {
                scaled.checked_add(value).is_some()
            },
            None => false,
        }
    }

    /// Whether a text can be handed to `parse_rational`.
    pub fn rational_in_range(s: &str) -> (r: bool)
        ensures
            r == rational_fits(s@),
    {
        let t = trim(s);
        let n = t.unicode_len();
        proof {
            lemma_first_of(t@, '/');
            lemma_first_of(t@, '.');
        }
        if find_char(t, '.') < n && find_char(t, '/') == n && parse_i128(t).is_none() {
            Self::decimal_in_range(t)
        } else {
            true
        }
    }

    /// Whether two texts can be handed to a comparison.
    pub fn pair_in_range(a: &str, b: &str) -> (r: bool)
        ensures
            r == pair_fits(a@, b@),
    {
        Self::rational_in_range(a) && (Self::parse_rational(a).is_err() || Self::rational_in_range(b))
    }
}

/// The name of an error, as its debug text shows it.
pub fn show_error(e: RationalError) -> (r: &'static str)
    ensures
        r@ == error_name(e),
{
    match e {
        RationalError::Empty => "Empty",
        RationalError::InvalidFormat => "InvalidFormat",
        RationalError::InvalidNumerator => "InvalidNumerator",
        RationalError::InvalidDenominator => "InvalidDenominator",
        RationalError::ZeroDenominator => "ZeroDenominator",
        RationalError::InvalidDecimal => "InvalidDecimal",
        RationalError::Overflow => "Overflow",
    }
}

} // verus!
