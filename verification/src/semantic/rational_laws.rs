//! Laws of rational numbers in text: which number a text stands for, and how two compare.

use vstd::prelude::*;

use crate::number::{
    all_digits, digits, first_of, is_digit, is_space, signed_text, ten_to, trimmed, value_of,
};
use crate::semantic::rational::{
    decimal_numerator, i128_text, order_of, places, places_value, rational_fits, rational_text,
    text_eq, text_le, text_min, utf8_size, whole_part, without_zeros, Order, Rational,
    RationalError,
};
use crate::syntactic::literal_laws::lemma_number_back;
use crate::text::{decimal, decimal_int};

verus! {

// White space.

/// A text without white space at its ends is left as it is.
pub proof fn lemma_trimmed_same(s: Seq<char>)
    requires
        s.len() > 0,
        !is_space(s[0]),
        !is_space(s.last()),
    ensures
        trimmed(s) == s,
{
}

/// White space at the ends of a text does not count.
pub proof fn lemma_space_ignored(s: Seq<char>, c: char)
    requires
        is_space(c),
    ensures
        trimmed(seq![c] + s) == trimmed(s),
        rational_text(seq![c] + s) == rational_text(s),
        s.len() > 0 && !is_space(s[0]) ==> trimmed(s.push(c)) == trimmed(s),
{
    assert((seq![c] + s).drop_first() =~= s);
    if s.len() > 0 && !is_space(s[0]) {
        assert(s.push(c).drop_last() =~= s);
        assert(s.push(c)[0] == s[0]);
    }
}

// Integers and fractions.

proof fn lemma_decimal_chars(n: nat)
    ensures
        decimal(n).len() > 0,
        all_digits(decimal(n)),
{
    lemma_number_back(n, 0);
}

/// The text of an integer stands for that integer.
pub proof fn lemma_integer_text(n: int)
    requires
        i128::MIN <= n <= i128::MAX,
    ensures
        rational_text(decimal_int(n)) == Ok::<Rational, RationalError>(
            Rational { num: n as i128, den: 1 },
        ),
{
    let s = decimal_int(n);
    lemma_number_back(0, n);
    lemma_decimal_chars(if n < 0 {
        (-n) as nat
    } else {
        n as nat
    });
    lemma_int_chars(n);
    lemma_trimmed_same(s);
    assert(!s.contains('/'));
}

proof fn lemma_int_chars(n: int)
    ensures
        ({
            let s = decimal_int(n);
            &&& s.len() > 0
            &&& !is_space(s[0]) && !is_space(s.last())
            &&& forall|i: int| 0 <= i < s.len() ==> #[trigger] s[i] == '-' || is_digit(s[i])
        }),
{
    let m = if n < 0 {
        (-n) as nat
    } else {
        n as nat
    };
    let t = decimal(m);
    lemma_decimal_chars(m);
    let s = decimal_int(n);
    assert(is_digit(t[0]) && is_digit(t[t.len() - 1]));
    assert forall|i: int| 0 <= i < s.len() implies #[trigger] s[i] == '-' || is_digit(s[i]) by {
        if n < 0 {
            if i > 0 {
                assert(is_digit(t[i - 1]));
                assert(s[i] == t[i - 1]);
            }
        } else {
            assert(is_digit(t[i]));
        }
    }
    if n < 0 {
        assert(s.last() == t.last());
    }
}

proof fn lemma_slash_first(a: Seq<char>, b: Seq<char>)
    requires
        !a.contains('/'),
    ensures
        first_of(a + seq!['/'] + b, '/') == a.len(),
    decreases a.len(),
{
    let s = a + seq!['/'] + b;
    if a.len() > 0 {
        let r = a.drop_first();
        assert(!r.contains('/')) by {
            if r.contains('/') {
                let i = choose|i: int| 0 <= i < r.len() && r[i] == '/';
                assert(a[i + 1] == '/');
            }
        }
        lemma_slash_first(r, b);
        assert(s.drop_first() =~= r + seq!['/'] + b);
        assert(a[0] != '/') by {
            assert(a.contains(a[0]));
        }
        assert(s[0] == a[0]);
    } else {
        assert(s[0] == '/');
    }
}

/// The text of two integers with a slash between them stands for their quotient; a
/// denominator of zero is refused.
pub proof fn lemma_fraction_text(n: int, d: nat)
    requires
        i128::MIN <= n <= i128::MAX,
        d <= u128::MAX,
    ensures
        rational_text(decimal_int(n) + seq!['/'] + decimal(d)) == (if d == 0 {
            Err::<Rational, RationalError>(RationalError::ZeroDenominator)
        } else {
            Ok::<Rational, RationalError>(Rational { num: n as i128, den: d as u128 })
        }),
{
    let a = decimal_int(n);
    let b = decimal(d);
    let s = a + seq!['/'] + b;
    lemma_number_back(d, n);
    lemma_decimal_chars(d);
    lemma_int_chars(n);
    assert(!a.contains('/')) by {
        if a.contains('/') {
            let i = choose|i: int| 0 <= i < a.len() && a[i] == '/';
            assert(a[i] == '-' || is_digit(a[i]));
        }
    }
    assert(!b.contains('/')) by {
        if b.contains('/') {
            let i = choose|i: int| 0 <= i < b.len() && b[i] == '/';
            assert(is_digit(b[i]));
        }
    }
    lemma_slash_first(a, b);
    assert(is_digit(b[0]) && is_digit(b[b.len() - 1]));
    assert(s[0] == a[0] && s.last() == b.last());
    lemma_trimmed_same(s);
    assert(s[a.len() as int] == '/');
    assert(s.contains('/'));
    assert(s.take(a.len() as int) =~= a);
    assert(s.skip(a.len() as int + 1) =~= b);
    lemma_trimmed_same(a);
    lemma_trimmed_same(b);
}

// Decimals.

proof fn lemma_ten_sum(m: nat, n: nat)
    ensures
        ten_to(m + n) == ten_to(m) * ten_to(n),
        ten_to(m) > 0,
    decreases m,
{
    if m > 0 {
        lemma_ten_sum((m - 1) as nat, n);
        let t = ten_to((m - 1) as nat);
        let u = ten_to(n);
        assert(ten_to(m) == 10 * t);
        assert(ten_to(m + n) == 10 * ten_to((m - 1 + n) as nat));
        assert(10 * (t * u) == (10 * t) * u) by (nonlinear_arith);
    } else {
        assert(1 * ten_to(n) == ten_to(n));
    }
}

proof fn lemma_value_sum(a: Seq<char>, b: Seq<char>)
    ensures
        value_of(a + b) == value_of(a) * ten_to(b.len()) + value_of(b),
    decreases b.len(),
{
    if b.len() == 0 {
        assert(a + b =~= a);
        assert(value_of(a) * 1 == value_of(a)) by (nonlinear_arith);
    } else {
        let front = b.drop_last();
        lemma_value_sum(a, front);
        assert((a + b).drop_last() =~= a + front);
        let x = value_of(a);
        let t = ten_to(front.len());
        let y = value_of(front);
        assert(ten_to(b.len()) == 10 * t);
        assert((x * t + y) * 10 == x * (10 * t) + y * 10) by (nonlinear_arith);
    }
}

proof fn lemma_zeros_off(s: Seq<char>)
    requires
        all_digits(s),
    ensures
        all_digits(without_zeros(s)),
        without_zeros(s).len() <= s.len(),
        value_of(s) == value_of(without_zeros(s)) * ten_to(
            (s.len() - without_zeros(s).len()) as nat,
        ),
    decreases s.len(),
{
    if s.len() > 0 && s.last() == '0' {
        let r = s.drop_last();
        assert forall|i: int| 0 <= i < r.len() implies is_digit(#[trigger] r[i]) by {
            assert(is_digit(s[i]));
        }
        lemma_zeros_off(r);
        let v = value_of(without_zeros(r));
        let k = (r.len() - without_zeros(r).len()) as nat;
        assert(ten_to((k + 1) as nat) == 10 * ten_to(k));
        let t = ten_to(k);
        assert((v * t) * 10 == v * (10 * t)) by (nonlinear_arith);
    } else {
        let v = value_of(s);
        assert(v * 1 == v) by (nonlinear_arith);
    }
}

proof fn lemma_dot_first(a: Seq<char>, b: Seq<char>)
    requires
        !a.contains('.'),
    ensures
        first_of(a + seq!['.'] + b, '.') == a.len(),
    decreases a.len(),
{
    let s = a + seq!['.'] + b;
    if a.len() > 0 {
        let r = a.drop_first();
        assert(!r.contains('.')) by {
            if r.contains('.') {
                let i = choose|i: int| 0 <= i < r.len() && r[i] == '.';
                assert(a[i + 1] == '.');
            }
        }
        lemma_dot_first(r, b);
        assert(s.drop_first() =~= r + seq!['.'] + b);
        assert(a[0] != '.') by {
            assert(a.contains(a[0]));
        }
        assert(s[0] == a[0]);
    } else {
        assert(s[0] == '.');
    }
}

/// A decimal with digits before and behind the point, and a sign or none, stands for the
/// number that its digits make without the point, divided by ten for each digit behind it:
/// two fractions are equal where their cross products are.
pub proof fn lemma_decimal_text(negative: bool, w: Seq<char>, f: Seq<char>)
    requires
        w.len() > 0,
        all_digits(w),
        all_digits(f),
        ({
            let text = (if negative {
                seq!['-']
            } else {
                Seq::empty()
            }) + w + seq!['.'] + f;
            rational_fits(text) && rational_text(text) is Ok
        }),
    ensures
        ({
            let text = (if negative {
                seq!['-']
            } else {
                Seq::empty()
            }) + w + seq!['.'] + f;
            let r = rational_text(text)->Ok_0;
            &&& r.den > 0
            &&& r.num * ten_to(f.len()) == (if negative {
                -(value_of(w + f) as int)
            } else {
                value_of(w + f) as int
            }) * r.den
        }),
{
    let sign = if negative {
        seq!['-']
    } else {
        Seq::<char>::empty()
    };
    let a = sign + w;
    let s = sign + w + seq!['.'] + f;
    assert(s =~= a + seq!['.'] + f);
    assert(is_digit(w[0]) && is_digit(w[w.len() - 1]));
    assert forall|i: int| 0 <= i < a.len() implies #[trigger] a[i] != '.' && a[i] != '/' by {
        if !negative || i > 0 {
            assert(a[i] == w[i - sign.len()]);
            assert(is_digit(w[i - sign.len()]));
        }
    }
    assert(!a.contains('.'));
    lemma_dot_first(a, f);
    assert forall|i: int| 0 <= i < s.len() implies #[trigger] s[i] != '/' by {
        if i < a.len() {
            assert(s[i] == a[i]);
        } else if i > a.len() {
            assert(is_digit(f[i - a.len() - 1]));
        }
    }
    assert(!s.contains('/'));
    assert(s[a.len() as int] == '.');
    assert(s.contains('.'));
    if f.len() > 0 {
        assert(is_digit(f[f.len() - 1]));
        assert(s.last() == f.last());
    } else {
        assert(s.last() == '.');
    }
    assert(s[0] == a[0]);
    if !negative {
        assert(a[0] == w[0]);
    }
    lemma_trimmed_same(s);
    crate::syntactic::literal_laws::lemma_no_number(s, a.len() as int);
    assert(i128_text(s) is None);
    assert(s.take(a.len() as int) =~= a);
    assert(s.skip(a.len() as int + 1) =~= f);
    let g = without_zeros(f);
    assert(places(s) == g);
    lemma_zeros_off(f);
    let k = g.len();
    let z = (f.len() - k) as nat;
    let vw = value_of(w) as int;
    let vg = value_of(g) as int;
    if g.len() == 0 {
        assert(vg == 0);
    }
    assert(digits(w) == Some(vw as nat));
    if negative {
        assert(a.skip(1) =~= w);
        assert(a[0] == '-');
        assert(a.len() > 1);
        assert(signed_text(a) == Some(-vw));
    } else {
        assert(a =~= w);
        assert(signed_text(a) == Some(vw));
    }
    let whole = whole_part(s)->0;
    assert(whole == (if negative {
        -vw
    } else {
        vw
    }));
    assert(places_value(s) == Some(vg));
    let t = ten_to(k) as int;
    let u = ten_to(z) as int;
    lemma_ten_sum(k, z);
    assert(ten_to(f.len()) == t * u);
    lemma_value_sum(w, f);
    assert(value_of(w + f) == vw * (t * u) + vg * u);
    crate::semantic::rational::lemma_positive_denominator(s);
    let r = rational_text(s)->Ok_0;
    let num = decimal_numerator(s, whole, vg);
    assert(r.num == num);
    lemma_den_fits(g);
    assert(r.den == t);
    if negative {
        assert(num == -(vw * t) - vg) by (nonlinear_arith)
            requires
                num == (-vw) * t - vg,
        ;
        assert((-(vw * t) - vg) * (t * u) == (-(vw * (t * u) + vg * u)) * t) by (nonlinear_arith);
    } else {
        assert((vw * t + vg) * (t * u) == (vw * (t * u) + vg * u) * t) by (nonlinear_arith);
    }
}

proof fn lemma_den_fits(g: Seq<char>)
    requires
        utf8_size(g) <= 38,
    ensures
        0 < ten_to(g.len()) <= u128::MAX,
{
    crate::semantic::rational::lemma_utf8_size(g);
    crate::number::lemma_ten_to_grows(0, g.len());
    crate::number::lemma_ten_to_grows(g.len(), 38);
    crate::semantic::rational::lemma_ten_to_38();
}

// Order.

/// Whole numbers are ordered as integers are, and a fraction keeps its place in the order
/// where numerator and denominator are multiplied by the same number.
pub proof fn lemma_order_exact(n: i128, m: i128, a: Rational, b: Rational, c: Rational, k: int)
    requires
        k > 0,
        b.num == k * a.num,
        b.den == k * a.den,
    ensures
        order_of(Rational { num: n, den: 1 }, Rational { num: m, den: 1 }) == (if n < m {
            Order::Less
        } else if n > m {
            Order::Greater
        } else {
            Order::Equal
        }),
        order_of(b, c) == order_of(a, c),
        order_of(c, b) == order_of(c, a),
{
    let x = a.num * c.den;
    let y = c.num * a.den;
    assert(b.num * c.den == k * x) by (nonlinear_arith)
        requires
            b.num == k * a.num,
            x == a.num * c.den,
    ;
    assert(c.num * b.den == k * y) by (nonlinear_arith)
        requires
            b.den == k * a.den,
            y == c.num * a.den,
    ;
    assert(k * x < k * y <==> x < y) by (nonlinear_arith)
        requires
            k > 0,
    ;
    assert(k * y < k * x <==> y < x) by (nonlinear_arith)
        requires
            k > 0,
    ;
}

/// Of two numbers in text that can be compared, one is at most the other, and each is at
/// most the other exactly where they are equal; the smaller is at most the larger.
pub proof fn lemma_le_exact(a: Seq<char>, b: Seq<char>)
    requires
        text_le(a, b) is Ok,
    ensures
        text_le(b, a) is Ok,
        text_eq(a, b) is Ok,
        text_le(a, b)->Ok_0 || text_le(b, a)->Ok_0,
        text_eq(a, b)->Ok_0 <==> text_le(a, b)->Ok_0 && text_le(b, a)->Ok_0,
        text_min(a, b) is Ok,
        text_min(a, b)->Ok_0 == (if text_le(a, b)->Ok_0 {
            a
        } else {
            b
        }),
{
}

/// Comparing two texts compares the numbers that they stand for: whole numbers as
/// integers.
pub proof fn lemma_le_integers(n: int, m: int)
    requires
        i128::MIN <= n <= i128::MAX,
        i128::MIN <= m <= i128::MAX,
        text_le(decimal_int(n), decimal_int(m)) is Ok,
    ensures
        text_le(decimal_int(n), decimal_int(m))->Ok_0 <==> n <= m,
        text_eq(decimal_int(n), decimal_int(m))->Ok_0 <==> n == m,
{
    lemma_integer_text(n);
    lemma_integer_text(m);
    let z = Rational { num: 0, den: 1 };
    lemma_order_exact(n as i128, m as i128, z, z, z, 1);
}

} // verus!
