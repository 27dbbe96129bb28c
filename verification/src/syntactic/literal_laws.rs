//! Laws of how literals are read: numbers, and the bytes of byte strings.

use vstd::arithmetic::power::pow;
use vstd::arithmetic::power2::pow2;
use vstd::prelude::*;

use crate::float::{distance, lemma_nearest, units, with_sign};
use crate::float_laws::{lemma_one, one};
use crate::float_text::{
    exponent_mark, float_bits, fraction_digits, lower, lowered, magnitude_bits, number_bits,
    whole_digits,
};
use crate::literal::{float_inf, float_nan, FloatKind, IntKind, LiteralV};
use crate::number::lemma_first_of;
use crate::number::{all_digits, digits, is_digit, signed_text, unsigned_text, value_of};
use crate::syntactic::literal::{
    byte_string, first_byte, float_literal, hex_escape, hex_value, integer_literal, literal_at,
    simple_escape, unquoted,
};
use crate::syntactic::{Token, Tokens};
use crate::text::{decimal, decimal_int, digit_char};

verus! {

// Numbers.

proof fn lemma_decimal_digits(n: nat)
    ensures
        digits(decimal(n)) == Some(n),
        decimal(n).len() > 0,
    decreases n,
{
    let s = decimal(n);
    if n < 10 {
        assert(s.drop_last() =~= Seq::empty());
        assert(value_of(s.drop_last()) == 0);
        assert(is_digit(s[0]));
    } else {
        lemma_decimal_digits(n / 10);
        let front = decimal(n / 10);
        let c = digit_char((n % 10) as int);
        assert(s.drop_last() =~= front);
        assert(is_digit(c));
        assert forall|i: int| 0 <= i < s.len() implies is_digit(#[trigger] s[i]) by {
            if i < front.len() {
                assert(s[i] == front[i]);
            }
        }
    }
}

/// Reading a number's decimal form gives the number back: without a sign, with a sign,
/// and after zeros.
pub proof fn lemma_number_back(n: nat, v: int)
    ensures
        digits(decimal(n)) == Some(n),
        unsigned_text(decimal(n)) == Some(n),
        unsigned_text(seq!['+'] + decimal(n)) == Some(n),
        signed_text(decimal_int(v)) == Some(v),
{
    lemma_decimal_digits(n);
    let s = decimal(n);
    assert(is_digit(s[0]));
    assert((seq!['+'] + s).skip(1) =~= s);
    if v < 0 {
        let m = (-v) as nat;
        lemma_decimal_digits(m);
        assert((seq!['-'] + decimal(m)).skip(1) =~= decimal(m));
    } else {
        lemma_decimal_digits(v as nat);
        assert(is_digit(decimal(v as nat)[0]));
    }
}

proof fn lemma_value_joined(a: Seq<char>, c: char)
    ensures
        value_of(a.push(c)) == value_of(a) * 10 + (c as int - '0' as int) as nat,
{
    assert(a.push(c).drop_last() =~= a);
}

/// One digit more makes a number ten times as large, and adds the digit.
pub proof fn lemma_one_digit_more(s: Seq<char>, n: nat, d: nat)
    requires
        digits(s) == Some(n),
        d < 10,
    ensures
        digits(s.push(digit_char(d as int))) == Some(n * 10 + d),
        digits(seq!['0'] + s) == Some(n),
{
    let c = digit_char(d as int);
    let t = s.push(c);
    lemma_value_joined(s, c);
    assert(is_digit(c));
    assert forall|i: int| 0 <= i < t.len() implies is_digit(#[trigger] t[i]) by {
        if i < s.len() {
            assert(is_digit(s[i]));
        }
    }
    lemma_leading_zero(s);
    let z = seq!['0'] + s;
    assert forall|i: int| 0 <= i < z.len() implies is_digit(#[trigger] z[i]) by {
        if i > 0 {
            assert(is_digit(s[i - 1]));
        }
    }
}

proof fn lemma_leading_zero(s: Seq<char>)
    ensures
        value_of(seq!['0'] + s) == value_of(s),
    decreases s.len(),
{
    let z = seq!['0'] + s;
    if s.len() == 0 {
        assert(z.drop_last() =~= Seq::empty());
        assert(value_of(z.drop_last()) == 0);
    } else {
        lemma_leading_zero(s.drop_last());
        assert(z.drop_last() =~= seq!['0'] + s.drop_last());
    }
}

/// A text with a character that is no digit, and no sign at its start, is no number.
pub proof fn lemma_no_number(s: Seq<char>, i: int)
    requires
        0 <= i < s.len(),
        !is_digit(s[i]),
        i > 0 || s[0] != '+' && s[0] != '-',
    ensures
        unsigned_text(s) is None,
        signed_text(s) is None,
{
    if i > 0 {
        assert(s.skip(1)[i - 1] == s[i]);
    }
}

/// The decimal form of a number that fits is read as the 32-bit literal of that number;
/// that of a number that does not fit is refused.
pub proof fn lemma_integer_back(v: int)
    ensures
        integer_literal(decimal_int(v)) is Ok <==> -0x8000_0000 <= v <= 0x7fff_ffff,
        -0x8000_0000 <= v <= 0x7fff_ffff ==> integer_literal(decimal_int(v)) == Ok::<
            LiteralV,
            Seq<char>,
        >(LiteralV::Int(IntKind::I32, v)),
{
    lemma_number_back(0, v);
}

// Floats.

proof fn lemma_mark_digits(s: Seq<char>, t: Seq<char>)
    requires
        forall|i: int|
            0 <= i < s.len() ==> #[trigger] s[i] == '.' || is_digit(s[i]),
    ensures
        exponent_mark(s) == s.len(),
        exponent_mark(s + seq!['e'] + t) == s.len(),
        exponent_mark(s + seq!['E'] + t) == s.len(),
    decreases s.len(),
{
    if s.len() > 0 {
        let r = s.drop_first();
        assert forall|i: int| 0 <= i < r.len() implies #[trigger] r[i] == '.' || is_digit(r[i]) by {
            assert(r[i] == s[i + 1]);
        }
        lemma_mark_digits(r, t);
        assert(s[0] == '.' || is_digit(s[0]));
        assert((s + seq!['e'] + t).drop_first() =~= r + seq!['e'] + t);
        assert((s + seq!['E'] + t).drop_first() =~= r + seq!['E'] + t);
        assert((s + seq!['e'] + t)[0] == s[0]);
        assert((s + seq!['E'] + t)[0] == s[0]);
    } else {
        assert((s + seq!['e'] + t)[0] == 'e');
        assert((s + seq!['E'] + t)[0] == 'E');
    }
}

/// The sign of a float in text is the sign of the float, and nothing else of it.
pub proof fn lemma_float_sign(s: Seq<char>)
    requires
        s.len() > 0,
        s[0] != '+',
        s[0] != '-',
    ensures
        float_bits(seq!['+'] + s) == float_bits(s),
        float_bits(s) is Some <==> float_bits(seq!['-'] + s) is Some,
        float_bits(s) == magnitude_bits(s),
        float_bits(s) is Some ==> float_bits(seq!['-'] + s) == Some(
            with_sign(FloatKind::F64, true, float_bits(s)->0),
        ),
{
    assert((seq!['+'] + s).skip(1) =~= s);
    assert((seq!['-'] + s).skip(1) =~= s);
}

/// An exponent may be marked by a small letter or a large one.
pub proof fn lemma_exponent_letter(m: Seq<char>, x: Seq<char>)
    requires
        forall|i: int|
            0 <= i < m.len() ==> #[trigger] m[i] == '.' || is_digit(m[i]),
    ensures
        number_bits(m + seq!['e'] + x) == number_bits(m + seq!['E'] + x),
{
    lemma_mark_digits(m, x);
    let a = m + seq!['e'] + x;
    let b = m + seq!['E'] + x;
    assert(a.take(m.len() as int) =~= m && b.take(m.len() as int) =~= m);
    assert(a.skip(m.len() as int + 1) =~= x && b.skip(m.len() as int + 1) =~= x);
}

/// A number without an exponent is the number with the exponent zero.
pub proof fn lemma_no_exponent(m: Seq<char>)
    requires
        forall|i: int|
            0 <= i < m.len() ==> #[trigger] m[i] == '.' || is_digit(m[i]),
    ensures
        number_bits(m) == number_bits(m + seq!['e'] + decimal_int(0)),
{
    lemma_mark_digits(m, decimal_int(0));
    lemma_number_back(0, 0);
    let a = m + seq!['e'] + decimal_int(0);
    assert(a.take(m.len() as int) =~= m && m.take(m.len() as int) =~= m);
    assert(a.skip(m.len() as int + 1) =~= decimal_int(0));
}

proof fn lemma_first_point(w: Seq<char>, f: Seq<char>)
    requires
        all_digits(w),
    ensures
        crate::number::first_of(w, '.') == w.len(),
        crate::number::first_of(w + seq!['.'] + f, '.') == w.len(),
    decreases w.len(),
{
    if w.len() > 0 {
        let r = w.drop_first();
        assert forall|i: int| 0 <= i < r.len() implies is_digit(#[trigger] r[i]) by {
            assert(r[i] == w[i + 1]);
        }
        lemma_first_point(r, f);
        assert(is_digit(w[0]));
        assert((w + seq!['.'] + f).drop_first() =~= r + seq!['.'] + f);
        assert((w + seq!['.'] + f)[0] == w[0]);
    } else {
        assert((w + seq!['.'] + f)[0] == '.');
    }
}

/// The point of a number may be moved to its end where the exponent makes up for it.
pub proof fn lemma_point_moved(w: Seq<char>, f: Seq<char>, x: int)
    requires
        all_digits(w),
        all_digits(f),
        w.len() + f.len() > 0,
    ensures
        number_bits(w + seq!['.'] + f + seq!['e'] + decimal_int(x)) is Some,
        number_bits(w + seq!['.'] + f + seq!['e'] + decimal_int(x)) == number_bits(
            w + f + seq!['e'] + decimal_int(x - f.len()),
        ),
{
    let m = w + seq!['.'] + f;
    let n = w + f;
    assert forall|i: int| 0 <= i < m.len() implies #[trigger] m[i] == '.' || is_digit(m[i]) by {
        if i < w.len() {
            assert(is_digit(w[i]));
        } else if i > w.len() {
            assert(is_digit(f[i - w.len() - 1]));
        }
    }
    assert forall|i: int| 0 <= i < n.len() implies is_digit(#[trigger] n[i]) by {
        if i < w.len() {
            assert(is_digit(w[i]));
        } else {
            assert(is_digit(f[i - w.len()]));
        }
    }
    let y = x - f.len();
    lemma_mark_digits(m, decimal_int(x));
    lemma_mark_digits(n, decimal_int(y));
    lemma_number_back(0, x);
    lemma_number_back(0, y);
    let a = m + seq!['e'] + decimal_int(x);
    let b = n + seq!['e'] + decimal_int(y);
    assert(a.take(m.len() as int) =~= m);
    assert(a.skip(m.len() as int + 1) =~= decimal_int(x));
    assert(b.take(n.len() as int) =~= n);
    assert(b.skip(n.len() as int + 1) =~= decimal_int(y));
    lemma_first_point(w, f);
    lemma_first_point(n, Seq::empty());
    assert(whole_digits(m) =~= w);
    assert(fraction_digits(m) =~= f);
    assert(whole_digits(n) =~= n);
    assert(whole_digits(n) + fraction_digits(n) =~= n);
}

proof fn lemma_ten(n: nat)
    ensures
        crate::number::ten_to(n) == pow(10, n),
        pow(10, n) > 0,
    decreases n,
{
    reveal(pow);
    if n > 0 {
        lemma_ten((n - 1) as nat);
    }
}

/// Digits and an exponent stand for the float nearest to their value, the number that the
/// digits spell times that power of ten: measured in units of the least positive float, no
/// other float is nearer.
pub proof fn lemma_number_nearest(s: Seq<char>, n: nat, x: int, other: int)
    requires
        digits(s) == Some(n),
        0 <= other <= float_inf(FloatKind::F64),
    ensures
        ({
            let r = number_bits(s + seq!['e'] + decimal_int(x))->0;
            let unit = units(FloatKind::F64, one(FloatKind::F64)) as int;
            let up = if x >= 0 {
                pow(10, x as nat)
            } else {
                1
            };
            let down = if x >= 0 {
                1
            } else {
                pow(10, (-x) as nat)
            };
            let aim = (n * up * unit) as nat;
            &&& number_bits(s + seq!['e'] + decimal_int(x)) is Some
            &&& 0 <= r <= float_inf(FloatKind::F64)
            &&& distance(aim, (down * units(FloatKind::F64, r)) as nat) <= distance(
                aim,
                (down * units(FloatKind::F64, other)) as nat,
            )
        }),
{
    let k = FloatKind::F64;
    lemma_one(k);
    lemma_mark_digits(s, decimal_int(x));
    lemma_number_back(0, x);
    let a = s + seq!['e'] + decimal_int(x);
    assert(a.take(s.len() as int) =~= s);
    assert(a.skip(s.len() as int + 1) =~= decimal_int(x));
    lemma_first_point(s, Seq::empty());
    assert(whole_digits(s) =~= s);
    assert(whole_digits(s) + fraction_digits(s) =~= s);
    let unit = units(k, one(k));
    assert(unit == pow2(1074));
    if x >= 0 {
        lemma_ten(x as nat);
        let t = pow(10, x as nat);
        assert(n * t * unit >= 0) by (nonlinear_arith)
            requires
                t > 0,
        ;
        lemma_nearest(k, (n * t * unit) as nat, 1, other);
    } else {
        lemma_ten((-x) as nat);
        assert(n * 1 * unit == n * unit) by (nonlinear_arith);
        assert(n * unit >= 0) by (nonlinear_arith);
        lemma_nearest(k, n * unit, crate::number::ten_to((-x) as nat), other);
    }
}

/// Whether a text is made of the digits of a number: those before the point and, after a
/// point if there is one, those that follow it, one digit at least in all.
pub open spec fn spells_digits(m: Seq<char>, w: Seq<char>, f: Seq<char>) -> bool {
    &&& all_digits(w)
    &&& all_digits(f)
    &&& w.len() + f.len() > 0
    &&& m == w + seq!['.'] + f || m == w && f.len() == 0
}

/// Whether a text is digits, and an exponent with its letter where there is one.
pub open spec fn spells_number(s: Seq<char>, m: Seq<char>, t: Seq<char>) -> bool {
    &&& exists|w: Seq<char>, f: Seq<char>| #[trigger] spells_digits(m, w, f)
    &&& {
        ||| s == m
        ||| s == m + seq!['e'] + t && signed_text(t) is Some
        ||| s == m + seq!['E'] + t && signed_text(t) is Some
    }
}

proof fn lemma_mark(s: Seq<char>)
    ensures
        0 <= exponent_mark(s) <= s.len(),
        exponent_mark(s) < s.len() ==> s[exponent_mark(s)] == 'e' || s[exponent_mark(s)] == 'E',
    decreases s.len(),
{
    if s.len() > 0 && s[0] != 'e' && s[0] != 'E' {
        lemma_mark(s.drop_first());
    }
}

/// The texts that are numbers are those: digits with at most one point among them, and at
/// most one exponent behind them.
pub proof fn lemma_number_exact(s: Seq<char>)
    ensures
        number_bits(s) is Some <==> exists|m: Seq<char>, t: Seq<char>| #[trigger]
            spells_number(s, m, t),
{
    let e = exponent_mark(s);
    lemma_mark(s);
    if number_bits(s) is Some {
        let m = s.take(e);
        let w = whole_digits(m);
        let f = fraction_digits(m);
        lemma_first_of(m, '.');
        let d = crate::number::first_of(m, '.');
        if d < m.len() {
            assert(m =~= w + seq!['.'] + f);
        } else {
            assert(m =~= w);
        }
        assert(spells_digits(m, w, f));
        if e < s.len() {
            let t = s.skip(e + 1);
            assert(s =~= m + seq![s[e]] + t);
            assert(spells_number(s, m, t));
        } else {
            assert(s =~= m);
            assert(spells_number(s, m, Seq::empty()));
        }
    }
    if exists|m: Seq<char>, t: Seq<char>| #[trigger] spells_number(s, m, t) {
        let (m, t) = choose|m: Seq<char>, t: Seq<char>| #[trigger] spells_number(s, m, t);
        let (w, f) = choose|w: Seq<char>, f: Seq<char>| #[trigger] spells_digits(m, w, f);
        assert forall|i: int| 0 <= i < m.len() implies #[trigger] m[i] == '.' || is_digit(m[i]) by {
            if i < w.len() {
                assert(is_digit(w[i]));
            } else if i > w.len() {
                assert(is_digit(f[i - w.len() - 1]));
            }
        }
        lemma_mark_digits(m, t);
        lemma_first_point(w, f);
        if m == w {
            assert(whole_digits(m) =~= w);
        }
        if m == w + seq!['.'] + f {
            assert(whole_digits(m) =~= w);
            assert(fraction_digits(m) =~= f);
        }
        assert(s.take(m.len() as int) =~= m);
        if s != m {
            assert(s.skip(m.len() as int + 1) =~= t);
        }
    }
}

/// Whether a text is a word of small letters, each of them small or large.
pub open spec fn same_letters(s: Seq<char>, word: Seq<char>) -> bool {
    &&& s.len() == word.len()
    &&& forall|i: int|
        0 <= i < s.len() ==> #[trigger] s[i] == word[i] || 'A' <= s[i] <= 'Z' && s[i] as int + 32
            == word[i] as int
}

proof fn lemma_lower(c: char, d: char)
    requires
        'a' <= d <= 'z',
    ensures
        lower(c) == d <==> c == d || 'A' <= c <= 'Z' && c as int + 32 == d as int,
{
}

proof fn lemma_lowered(s: Seq<char>, word: Seq<char>)
    requires
        forall|i: int| 0 <= i < word.len() ==> 'a' <= #[trigger] word[i] <= 'z',
    ensures
        lowered(s) == word <==> same_letters(s, word),
{
    assert forall|i: int| 0 <= i < s.len() && i < word.len() implies (lowered(s)[i] == word[i]
        <==> (#[trigger] s[i] == word[i] || 'A' <= s[i] <= 'Z' && s[i] as int + 32
        == word[i] as int)) by {
        assert('a' <= word[i] <= 'z');
        lemma_lower(s[i], word[i]);
    }
    if same_letters(s, word) {
        assert(lowered(s) =~= word);
    } else if lowered(s) == word {
        assert(lowered(s).len() == s.len());
        assert forall|i: int| 0 <= i < s.len() implies #[trigger] s[i] == word[i] || 'A' <= s[i]
            <= 'Z' && s[i] as int + 32 == word[i] as int by {
            assert(lowered(s)[i] == word[i]);
        }
    }
}

/// Infinity and not-a-number are written as words, in letters of either case, and every
/// other text has to be a number.
pub proof fn lemma_float_words(s: Seq<char>)
    ensures
        same_letters(s, "inf"@) || same_letters(s, "infinity"@) ==> magnitude_bits(s) == Some(
            float_inf(FloatKind::F64),
        ),
        same_letters(s, "nan"@) ==> magnitude_bits(s) is Some && float_nan(
            FloatKind::F64,
            magnitude_bits(s)->0,
        ),
        !same_letters(s, "inf"@) && !same_letters(s, "infinity"@) && !same_letters(s, "nan"@)
            ==> magnitude_bits(s) == number_bits(s),
{
    reveal_strlit("inf");
    reveal_strlit("infinity");
    reveal_strlit("nan");
    lemma_lowered(s, "inf"@);
    lemma_lowered(s, "infinity"@);
    lemma_lowered(s, "nan"@);
    assert("inf"@[0] == 'i' && "nan"@[0] == 'n' && "infinity"@[0] == 'i');
    assert("infinity"@.len() == 8 && "nan"@.len() == 3);
}

/// A text that is read as a float is read as one of 64 bits, and every other text is
/// refused.
pub proof fn lemma_float_literal_exact(s: Seq<char>)
    ensures
        float_literal(s) is Ok <==> float_bits(s) is Some,
        float_literal(s) is Ok ==> (float_literal(s)->Ok_0 matches LiteralV::Float(k, b) && k
            == FloatKind::F64 && Some(b) == float_bits(s)),
{
}

// Byte strings.

/// Whether `c` is the hexadecimal digit of value `v`, small or large.
pub open spec fn hex_digit_of(c: char, v: int) -> bool {
    &&& 0 <= v < 16
    &&& {
        ||| v < 10 && c as int == 0x30 + v
        ||| v >= 10 && c as int == 0x41 + (v - 10)
        ||| v >= 10 && c as int == 0x61 + (v - 10)
    }
}

/// Whether a piece of text stands for a byte: the character of the byte itself; an escape
/// for a line feed, a carriage return, a tab, a backslash, a quote or zero; or `\x` and two
/// hexadecimal digits, the high one first.
pub open spec fn stands_for_byte(s: Seq<char>, b: u8) -> bool {
    &&& b <= 0x7f
    &&& {
        ||| s.len() == 1 && s[0] != '\\' && s[0] as int == b
        ||| s == seq!['\\', 'n'] && b == 0x0a
        ||| s == seq!['\\', 'r'] && b == 0x0d
        ||| s == seq!['\\', 't'] && b == 0x09
        ||| s == seq!['\\', '\\'] && b == 0x5c
        ||| s == seq!['\\', '"'] && b == 0x22
        ||| s == seq!['\\', '0'] && b == 0
        ||| {
            &&& s.len() == 4 && s[0] == '\\' && s[1] == 'x'
            &&& exists|h: int, l: int| #[trigger]
                hex_digit_of(s[2], h) && #[trigger] hex_digit_of(s[3], l) && b == 16 * h + l
        }
    }
}

/// Whether a text is made of pieces that stand for the given bytes, in order.
pub open spec fn spells_bytes(s: Seq<char>, bytes: Seq<u8>) -> bool
    decreases bytes.len(),
{
    if bytes.len() == 0 {
        s.len() == 0
    } else {
        exists|n: int|
            {
                &&& 0 <= n <= s.len()
                &&& #[trigger] stands_for_byte(s.take(n), bytes[0])
                &&& spells_bytes(s.skip(n), bytes.drop_first())
            }
    }
}

proof fn lemma_hex(c: char, v: int)
    ensures
        hex_value(c) == Some(v) <==> hex_digit_of(c, v),
{
}

proof fn lemma_ascii(c: char)
    requires
        c as int <= 0x7f,
    ensures
        c as u8 == c as int,
{
}

proof fn lemma_first_exact(s: Seq<char>, n: int, b: u8)
    requires
        s.len() > 0,
        0 <= n <= s.len(),
    ensures
        first_byte(s) == Ok::<(u8, int), Seq<char>>((b, n)) <==> stands_for_byte(s.take(n), b),
{
    let t = s.take(n);
    if first_byte(s) == Ok::<(u8, int), Seq<char>>((b, n)) {
        if s[0] == '\\' {
            if s[1] == 'x' {
                let h = hex_value(s[2])->0;
                let l = hex_value(s[3])->0;
                lemma_hex(s[2], h);
                lemma_hex(s[3], l);
                assert(t[2] == s[2] && t[3] == s[3]);
                assert(hex_digit_of(t[2], h) && hex_digit_of(t[3], l));
                assert((x_of(h, l) as u8) == x_of(h, l));
                assert(b == 16 * h + l);
            } else {
                assert(t =~= seq!['\\', s[1]]);
            }
        } else {
            assert(t.len() == 1 && t[0] == s[0]);
            lemma_ascii(s[0]);
        }
    }
    if stands_for_byte(t, b) {
        assert(t.len() == n);
        assert(t.len() >= 1 && t[0] == s[0]);
        if n >= 2 {
            assert(t[1] == s[1]);
        }
        if t.len() == 1 {
            lemma_ascii(s[0]);
        }
        if t.len() == 4 {
            assert(t[2] == s[2] && t[3] == s[3]);
            let (h, l) = choose|h: int, l: int| #[trigger]
                hex_digit_of(t[2], h) && #[trigger] hex_digit_of(t[3], l) && b == 16 * h + l;
            lemma_hex(s[2], h);
            lemma_hex(s[3], l);
            assert(x_of(h, l) == b);
            assert((x_of(h, l) as u8) == b);
            assert(hex_escape(s[2], s[3]) == Ok::<u8, Seq<char>>(b));
        } else if t.len() == 2 {
            assert(s[0] == '\\');
            assert(simple_escape(s[1]) == Some(b));
        }
    }
}

/// Two hexadecimal digits as a number.
spec fn x_of(h: int, l: int) -> int {
    h * 16 + l
}

/// A byte string is read as the bytes that its pieces stand for, and refused where it is
/// not made of such pieces.
pub proof fn lemma_bytes_exact(s: Seq<char>, bytes: Seq<u8>)
    ensures
        byte_string(s) == Ok::<Seq<u8>, Seq<char>>(bytes) <==> spells_bytes(s, bytes),
    decreases s.len(),
{
    if s.len() == 0 {
        if bytes.len() == 0 {
            assert(bytes =~= Seq::empty());
        } else {
            assert forall|n: int| 0 <= n <= s.len() implies !#[trigger] stands_for_byte(
                s.take(n),
                bytes[0],
            ) by {
                assert(s.take(n).len() == 0);
            }
        }
    } else {
        if byte_string(s) == Ok::<Seq<u8>, Seq<char>>(bytes) {
            let (b, n) = first_byte(s)->Ok_0;
            lemma_first_exact(s, n, b);
            let rest = byte_string(s.skip(n))->Ok_0;
            lemma_bytes_exact(s.skip(n), rest);
            assert(bytes.drop_first() =~= rest);
            assert(stands_for_byte(s.take(n), bytes[0]));
        }
        if spells_bytes(s, bytes) && bytes.len() > 0 {
            let n = choose|n: int|
                {
                    &&& 0 <= n <= s.len()
                    &&& #[trigger] stands_for_byte(s.take(n), bytes[0])
                    &&& spells_bytes(s.skip(n), bytes.drop_first())
                };
            lemma_first_exact(s, n, bytes[0]);
            assert(s.take(n).len() == n);
            lemma_bytes_exact(s.skip(n), bytes.drop_first());
            assert(seq![bytes[0]] + bytes.drop_first() =~= bytes);
        }
    }
}

// Literals.

/// A string in quotes stands for what is between them.
pub proof fn lemma_unquoted(s: Seq<char>)
    ensures
        unquoted(seq!['"'] + s + seq!['"']) == s,
{
    assert((seq!['"'] + s + seq!['"']).subrange(1, s.len() as int + 1) =~= s);
}

/// Which literal a row of tokens starts with: an integer, a float, a string, a byte string
/// after its keyword, or a truth value; no other token starts one.
pub proof fn lemma_literal_exact(ts: Tokens, p: int, q: int, l: LiteralV)
    requires
        0 <= p < ts.len(),
    ensures
        literal_at(ts, p) is None <==> !(ts[p].0 == Token::Integer || ts[p].0 == Token::Float
            || ts[p].0 == Token::String || ts[p].0 == Token::Bytes || ts[p].0 == Token::True
            || ts[p].0 == Token::False),
        (literal_at(ts, p) is Some && literal_at(ts, p)->0.value == Ok::<LiteralV, Seq<char>>(l)
            && literal_at(ts, p)->0.pos == q) <==> match l {
            LiteralV::Int(..) => ts[p].0 == Token::Integer && q == p + 1 && integer_literal(
                ts[p].1,
            ) == Ok::<LiteralV, Seq<char>>(l),
            LiteralV::Float(..) => ts[p].0 == Token::Float && q == p + 1 && float_literal(ts[p].1)
                == Ok::<LiteralV, Seq<char>>(l),
            LiteralV::Str(s) => ts[p].0 == Token::String && q == p + 1 && s == unquoted(ts[p].1),
            LiteralV::Bool(b) => ts[p].0 == (if b {
                Token::True
            } else {
                Token::False
            }) && q == p + 1,
            LiteralV::Bytes(bs) => ts[p].0 == Token::Bytes && p + 1 < ts.len() && ts[p + 1].0
                == Token::String && q == p + 2 && spells_bytes(unquoted(ts[p + 1].1), bs),
            _ => false,
        },
{
    if p + 1 < ts.len() {
        if let LiteralV::Bytes(bs) = l {
            lemma_bytes_exact(unquoted(ts[p + 1].1), bs);
        }
    }
}

} // verus!
