//! Natural numbers of any size, as lists of binary digits.

use vstd::arithmetic::power2::{lemma_pow2_unfold, pow2};
use vstd::prelude::*;

verus! {

/// A natural number.
pub struct Bits {
    digits: Vec<bool>,
}

/// The weight of a digit in the last place.
pub open spec fn bit(b: bool) -> nat {
    if b {
        1
    } else {
        0
    }
}

/// The number with the given binary digits, least significant first.
pub open spec fn number(digits: Seq<bool>) -> nat
    decreases digits.len(),
{
    if digits.len() == 0 {
        0
    } else {
        bit(digits[0]) + 2 * number(digits.drop_first())
    }
}

impl View for Bits {
    type V = nat;

    closed spec fn view(&self) -> nat {
        number(self.digits@)
    }
}

/// A digit appended at the top counts with the weight of its place.
proof fn lemma_push(s: Seq<bool>, b: bool)
    ensures
        number(s.push(b)) == number(s) + bit(b) * pow2(s.len()),
    decreases s.len(),
{
    vstd::arithmetic::power2::lemma2_to64();
    if s.len() == 0 {
        assert(s.push(b).drop_first() =~= Seq::<bool>::empty());
        reveal_with_fuel(number, 2);
    } else {
        assert(s.push(b).drop_first() =~= s.drop_first().push(b));
        lemma_push(s.drop_first(), b);
        lemma_pow2_unfold(s.len());
        let p = pow2((s.len() - 1) as nat);
        assert(bit(b) * (2 * p) == 2 * (bit(b) * p)) by (nonlinear_arith);
    }
}

/// A number is less than the power of two of its digit count.
proof fn lemma_bound(s: Seq<bool>)
    ensures
        number(s) < pow2(s.len()),
    decreases s.len(),
{
    vstd::arithmetic::power2::lemma2_to64();
    if s.len() > 0 {
        lemma_bound(s.drop_first());
        lemma_pow2_unfold(s.len());
    }
}

/// The digit at a place, zero above the top.
spec fn digit_at(s: Seq<bool>, i: int) -> bool {
    if i < s.len() {
        s[i]
    } else {
        false
    }
}

/// The number that the digits from place `i` on make.
spec fn rest(s: Seq<bool>, i: int) -> nat {
    if i < s.len() {
        number(s.skip(i))
    } else {
        0
    }
}

proof fn lemma_rest(s: Seq<bool>, i: int)
    requires
        0 <= i,
    ensures
        rest(s, i) == bit(digit_at(s, i)) + 2 * rest(s, i + 1),
        rest(s, 0) == number(s),
{
    assert(s.skip(0) =~= s);
    if i < s.len() {
        assert(s.skip(i).drop_first() =~= s.skip(i + 1));
        assert(s.skip(i)[0] == s[i]);
        assert(number(s.skip(i)) == bit(s[i]) + 2 * number(s.skip(i + 1)));
        if i + 1 == s.len() {
            assert(number(s.skip(i + 1)) == 0);
        }
    }
}

impl Bits {
    /// The number `v` times two to the power of `shift`.
    pub fn shifted(v: u128, shift: usize) -> (r: Bits)
        ensures
            r@ == v as nat * pow2(shift as nat),
    {
        let mut digits: Vec<bool> = Vec::new();
        let mut i: usize = 0;
        proof {
            vstd::arithmetic::power2::lemma2_to64();
        }
        while i < shift
            invariant
                i <= shift,
                digits.len() == i,
                number(digits@) == 0,
            decreases shift - i,
        {
            proof {
                lemma_push(digits@, false);
            }
            digits.push(false);
            i = i + 1;
        }
        let mut n: u128 = v;
        assert(number(digits@) + n * pow2(digits@.len()) == v as nat * pow2(shift as nat));
        while n > 0
            invariant
                number(digits@) + n * pow2(digits@.len()) == v as nat * pow2(shift as nat),
            decreases n,
        {
            let b = n % 2 == 1;
            proof {
                lemma_push(digits@, b);
                lemma_pow2_unfold((digits@.len() + 1) as nat);
                let p = pow2(digits@.len());
                let h: int = n as int / 2;
                let l: int = bit(b) as int;
                assert(n == 2 * h + l);
                assert((2 * h + l) * p == l * p + h * (2 * p)) by (nonlinear_arith);
            }
            digits.push(b);
            n = n / 2;
        }
        assert(n * pow2(digits@.len()) == 0) by (nonlinear_arith)
            requires
                n == 0,
        ;
        Bits { digits }
    }

    /// The digit at a place, zero above the top.
    fn digit(&self, i: usize) -> (r: bool)
        ensures
            r == digit_at(self.digits@, i as int),
    {
        if i < self.digits.len() {
            self.digits[i]
        } else {
            false
        }
    }

    /// The sum of two numbers.
    pub fn plus(&self, other: &Bits) -> (r: Bits)
        ensures
            r@ == self@ + other@,
    {
        let n = if self.digits.len() < other.digits.len() {
            other.digits.len()
        } else {
            self.digits.len()
        };
        let mut digits: Vec<bool> = Vec::new();
        let mut carry: bool = false;
        let mut i: usize = 0;
        let ghost a = self.digits@;
        let ghost b = other.digits@;
        proof {
            vstd::arithmetic::power2::lemma2_to64();
            lemma_rest(a, 0);
            lemma_rest(b, 0);
        }
        assert((bit(carry) + rest(a, 0) + rest(b, 0)) * pow2(0) == number(a) + number(b));
        while i < n
            invariant
                i <= n,
                n >= a.len(),
                n >= b.len(),
                a == self.digits@,
                b == other.digits@,
                digits.len() == i,
                number(digits@) + (bit(carry) + rest(a, i as int) + rest(b, i as int)) * pow2(
                    i as nat,
                ) == number(a) + number(b),
            decreases n - i,
        {
            let x = self.digit(i);
            let y = other.digit(i);
            let d = (x != y) != carry;
            let c = (x && y) || (carry && (x || y));
            proof {
                lemma_rest(a, i as int);
                lemma_rest(b, i as int);
                lemma_push(digits@, d);
                lemma_pow2_unfold((i + 1) as nat);
                let p = pow2(i as nat);
                let up = bit(c) + rest(a, i + 1) + rest(b, i + 1);
                assert(bit(carry) + rest(a, i as int) + rest(b, i as int) == bit(d) + 2 * up);
                assert((bit(d) + 2 * up) * p == bit(d) * p + up * (2 * p)) by (nonlinear_arith);
            }
            digits.push(d);
            carry = c;
            i = i + 1;
        }
        proof {
            lemma_push(digits@, carry);
        }
        digits.push(carry);
        Bits { digits }
    }

    /// The difference of two numbers.
    pub fn minus(&self, other: &Bits) -> (r: Bits)
        requires
            self@ >= other@,
        ensures
            r@ == self@ - other@,
    {
        let n = if self.digits.len() < other.digits.len() {
            other.digits.len()
        } else {
            self.digits.len()
        };
        let mut digits: Vec<bool> = Vec::new();
        let mut borrow: bool = false;
        let mut i: usize = 0;
        let ghost a = self.digits@;
        let ghost b = other.digits@;
        proof {
            vstd::arithmetic::power2::lemma2_to64();
            lemma_rest(a, 0);
            lemma_rest(b, 0);
        }
        assert((rest(a, 0) - rest(b, 0) - bit(borrow)) * pow2(0) == number(a) - number(b));
        while i < n
            invariant
                i <= n,
                n >= a.len(),
                n >= b.len(),
                a == self.digits@,
                b == other.digits@,
                digits.len() == i,
                number(digits@) + (rest(a, i as int) - rest(b, i as int) - bit(borrow)) * pow2(
                    i as nat,
                ) == number(a) - number(b),
            decreases n - i,
        {
            let x = self.digit(i);
            let y = other.digit(i);
            let d = (x != y) != borrow;
            let c = (!x && (y || borrow)) || (y && borrow);
            proof {
                lemma_rest(a, i as int);
                lemma_rest(b, i as int);
                lemma_push(digits@, d);
                lemma_pow2_unfold((i + 1) as nat);
                let p = pow2(i as nat);
                let up: int = rest(a, i + 1) - rest(b, i + 1) - bit(c);
                let l: int = bit(d) as int;
                assert(rest(a, i as int) - rest(b, i as int) - bit(borrow) == l + 2 * up);
                assert((l + 2 * up) * p == l * p + up * (2 * p)) by (nonlinear_arith);
            }
            digits.push(d);
            borrow = c;
            i = i + 1;
        }
        proof {
            if borrow {
                lemma_bound(digits@);
                let p = pow2(i as nat);
                assert((-1) * p == -p) by (nonlinear_arith);
                assert(false);
            }
            assert(0 * pow2(i as nat) == 0) by (nonlinear_arith);
        }
        Bits { digits }
    }

    /// The product with a small number.
    pub fn times(&self, v: u64) -> (r: Bits)
        ensures
            r@ == self@ * v as nat,
    {
        let mut sum = Bits::shifted(0, 0);
        let mut part = self.plus(&sum);
        let mut n: u64 = v;
        let ghost a = self@;
        assert(0 * pow2(0) == 0) by (nonlinear_arith);
        while n > 0
            invariant
                a == self@,
                sum@ + part@ * (n as nat) == a * (v as nat),
            decreases n,
        {
            let ghost p = part@;
            let ghost h = (n / 2) as nat;
            if n % 2 == 1 {
                sum = sum.plus(&part);
                assert(p * (2 * h + 1) == p + (p + p) * h) by (nonlinear_arith);
                assert(n == 2 * h + 1);
            } else {
                assert(p * (2 * h) == (p + p) * h) by (nonlinear_arith);
                assert(n == 2 * h);
            }
            part = part.plus(&part);
            n = n / 2;
        }
        assert(part@ * 0 == 0) by (nonlinear_arith);
        sum
    }

    /// The number times two to the power of `n`.
    pub fn shift(&self, n: usize) -> (r: Bits)
        ensures
            r@ == self@ * pow2(n as nat),
    {
        let mut digits: Vec<bool> = Vec::new();
        let mut i: usize = 0;
        while i < n
            invariant
                i <= n,
                digits.len() == i,
                number(digits@) == 0,
            decreases n - i,
        {
            proof {
                lemma_push(digits@, false);
            }
            digits.push(false);
            i = i + 1;
        }
        let ghost all = self.digits@;
        let ghost p = pow2(n as nat);
        let mut j: usize = 0;
        assert(number(all.take(0)) == 0);
        assert(0 * p == 0);
        while j < self.digits.len()
            invariant
                j <= self.digits.len(),
                all == self.digits@,
                p == pow2(n as nat),
                digits@.len() == n + j,
                number(digits@) == number(all.take(j as int)) * p,
            decreases self.digits.len() - j,
        {
            let b = self.digits[j];
            proof {
                lemma_push(digits@, b);
                lemma_push(all.take(j as int), b);
                assert(all.take(j as int).push(b) =~= all.take(j + 1));
                vstd::arithmetic::power2::lemma_pow2_adds(j as nat, n as nat);
                let x = number(all.take(j as int));
                let q = pow2(j as nat);
                let w = bit(b);
                assert((x + w * q) * p == x * p + w * (q * p)) by (nonlinear_arith);
            }
            digits.push(b);
            j = j + 1;
        }
        assert(all.take(j as int) =~= all);
        Bits { digits }
    }

    /// Whether a number is zero.
    pub fn is_zero(&self) -> (r: bool)
        ensures
            r == (self@ == 0),
    {
        let z = Bits { digits: Vec::new() };
        !z.less(self)
    }

    /// Whether this number is less than the other.
    pub fn less(&self, other: &Bits) -> (r: bool)
        ensures
            r == (self@ < other@),
    {
        let n = if self.digits.len() < other.digits.len() {
            other.digits.len()
        } else {
            self.digits.len()
        };
        let mut below: bool = false;
        let mut above: bool = false;
        let ghost a = self.digits@;
        let ghost b = other.digits@;
        let mut i: usize = n;
        while i > 0
            invariant
                i <= n,
                n >= a.len(),
                n >= b.len(),
                a == self.digits@,
                b == other.digits@,
                below == (rest(a, i as int) < rest(b, i as int)),
                above == (rest(a, i as int) > rest(b, i as int)),
            decreases i,
        {
            i = i - 1;
            proof {
                lemma_rest(a, i as int);
                lemma_rest(b, i as int);
            }
            if !below && !above {
                let x = self.digit(i);
                let y = other.digit(i);
                below = !x && y;
                above = x && !y;
            }
        }
        proof {
            lemma_rest(a, 0);
            lemma_rest(b, 0);
        }
        below
    }
}

} // verus!
