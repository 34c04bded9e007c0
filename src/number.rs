//! Numbers of the language, held exactly as reduced fractions whose numerator
//! and denominator fit in 63 bits. Arithmetic is exact where the result can
//! be held, and rounded where it cannot: numerator and denominator are halved
//! until the fraction fits, and a whole number beyond the range becomes the
//! largest magnitude of its sign. A number is written with its integer part
//! and at most sixteen fractional digits.
use vstd::prelude::*;
use crate::text::{digit_char, digit_to_char, nat_text, push_decimal};

verus! {

/// The largest magnitude of a numerator or a denominator.
pub open spec fn limit() -> int {
    i64::MAX as int
}

pub open spec fn abs(n: int) -> nat {
    if n < 0 { (-n) as nat } else { n as nat }
}

/// Greatest common divisor, by Euclid's rule.
pub open spec fn gcd(a: nat, b: nat) -> nat
    decreases b,
{
    if b == 0 { a } else { gcd(b, a % b) }
}

/// `n / d` in lowest terms, for `d > 0`: the common divisor is taken out of
/// the magnitude and the sign stays on the numerator.
pub open spec fn reduced(n: int, d: int) -> (int, int) {
    let g = gcd(abs(n), d as nat);
    let m = (abs(n) / g) as int;
    (if n < 0 { -m } else { m as int }, d / (g as int))
}

/// Whether a numerator and a denominator can be held by a `Number`.
pub open spec fn fits(p: (int, int)) -> bool {
    &&& -limit() <= p.0 <= limit()
    &&& 1 <= p.1 <= limit()
}

/// Half of `n`, rounded toward zero.
pub open spec fn halved(n: int) -> int {
    if n < 0 { -((-n) / 2) } else { n / 2 }
}

/// `n / d` (for `d >= 1`) as a number holds it: in lowest terms where that
/// fits; else, while the denominator is above one, with numerator and
/// denominator halved; else the largest magnitude of its sign.
pub open spec fn rounded(n: int, d: int) -> (int, int)
    decreases d,
    when d >= 1
{
    if fits(reduced(n, d)) {
        reduced(n, d)
    } else if d >= 2 {
        rounded(halved(n), d / 2)
    } else {
        (if n < 0 { -limit() } else { limit() }, 1)
    }
}

pub open spec fn sum_parts(a: (int, int), b: (int, int)) -> (int, int) {
    rounded(a.0 * b.1 + b.0 * a.1, a.1 * b.1)
}

pub open spec fn difference_parts(a: (int, int), b: (int, int)) -> (int, int) {
    rounded(a.0 * b.1 - b.0 * a.1, a.1 * b.1)
}

pub open spec fn product_parts(a: (int, int), b: (int, int)) -> (int, int) {
    rounded(a.0 * b.0, a.1 * b.1)
}

/// `a / b` for `b.0 != 0`; the divisor's sign moves to the numerator.
pub open spec fn quotient_parts(a: (int, int), b: (int, int)) -> (int, int) {
    if b.0 < 0 {
        rounded(-(a.0 * b.1), a.1 * abs(b.0))
    } else {
        rounded(a.0 * b.1, a.1 * b.0)
    }
}

pub open spec fn less_parts(a: (int, int), b: (int, int)) -> bool {
    a.0 * b.1 < b.0 * a.1
}

pub open spec fn equal_parts(a: (int, int), b: (int, int)) -> bool {
    a.0 * b.1 == b.0 * a.1
}

pub open spec fn is_digit(c: char) -> bool {
    '0' <= c && c <= '9'
}

pub open spec fn digit_value(c: char) -> nat {
    (c as nat - '0' as nat) as nat
}

/// The integer part that the digits `s` write, held at the largest magnitude
/// once it goes beyond it.
pub open spec fn whole_value(s: Seq<char>) -> nat
    decreases s.len(),
{
    if s.len() == 0 {
        0
    } else {
        let v = whole_value(s.drop_last()) * 10 + digit_value(s.last());
        if v <= limit() { v } else { limit() as nat }
    }
}

/// Numerator and denominator after the fractional digits `s`, from `(n, d)`:
/// each digit is taken while numerator and denominator still fit once it is;
/// from the first digit that would not fit on, the digits are dropped.
pub open spec fn fraction_value(n: nat, d: nat, s: Seq<char>) -> (nat, nat)
    decreases s.len(),
{
    if s.len() == 0 {
        (n, d)
    } else {
        let (a, b) = fraction_value(n, d, s.drop_last());
        if a * 10 + 9 <= limit() && b * 10 <= limit() { (a * 10 + digit_value(s.last()), b * 10) } else { (a, b) }
    }
}

/// The digits strictly after the point, `k` of them, of `r / d` for `r < d`.
pub open spec fn fraction_digits(r: nat, d: nat, k: nat) -> Seq<char>
    decreases k,
{
    if k == 0 || d == 0 {
        Seq::empty()
    } else {
        seq![digit_char((r * 10) / d)] + fraction_digits((r * 10) % d, d, (k - 1) as nat)
    }
}

pub open spec fn strip_zeros(s: Seq<char>) -> Seq<char>
    decreases s.len(),
{
    if s.len() > 0 && s.last() == '0' { strip_zeros(s.drop_last()) } else { s }
}

/// How many fractional digits `print` writes at most.
pub open spec fn max_fraction_digits() -> nat {
    16
}

/// How many fractional digits a literal is written with at most: enough for
/// every fraction that a decimal literal can give.
pub open spec fn literal_fraction_digits() -> nat {
    19
}

/// A sign for a negative number, the integer part, and the fractional part
/// cut after `k` digits without trailing zeros, or nothing when it is zero.
pub open spec fn digits_text(p: (int, int), k: nat) -> Seq<char> {
    let m = abs(p.0);
    let d = p.1 as nat;
    let frac = strip_zeros(fraction_digits(m % d, d, k));
    let sign = if p.0 < 0 { seq!['-'] } else { Seq::empty() };
    sign + nat_text(m / d) + if frac.len() == 0 { Seq::empty() } else { seq!['.'] + frac }
}

/// The text of a number as `print` writes it.
pub open spec fn parts_text(p: (int, int)) -> Seq<char> {
    digits_text(p, max_fraction_digits())
}

/// The text of a number literal: all its fractional digits, and `.0` after a
/// whole number.
pub open spec fn parts_literal_text(p: (int, int)) -> Seq<char> {
    let t = digits_text(p, literal_fraction_digits());
    if abs(p.0) % (p.1 as nat) == 0 { t + seq!['.', '0'] } else { t }
}

pub proof fn lemma_gcd_positive(a: nat, b: nat)
    requires
        b > 0,
    ensures
        1 <= gcd(a, b) <= b,
    decreases b,
{
    assert(gcd(a, b) == gcd(b, a % b));
    if a % b != 0 {
        lemma_gcd_positive(b, a % b);
    } else {
        assert(gcd(b, 0) == b);
    }
}

/// The number with the given numerator and denominator, where they fit.
pub closed spec fn number_of(p: (int, int)) -> Number {
    Number { num: p.0 as i64, den: p.1 as i64 }
}

/// A numerator and a denominator that a number can hold are its parts.
pub proof fn lemma_number_of(p: (int, int))
    requires
        fits(p),
    ensures
        number_of(p).parts() == p,
{
}

pub proof fn lemma_number_of_parts(x: Number)
    ensures
        number_of(x.parts()) == x,
{
}

/// `-n`.
pub open spec fn negated(n: Number) -> Number {
    number_of((-n.parts().0, n.parts().1))
}

pub proof fn lemma_negated_twice(n: Number)
    ensures
        negated(negated(n)) == n,
{
    let x: i64 = n.num;
    assert(((-(((-(x as int)) as i64) as int)) as i64) == x) by (bit_vector);
}

/// The number that a decimal literal with integer digits `whole` and
/// fractional digits `frac` stands for.
pub open spec fn literal_value(whole: Seq<char>, frac: Seq<char>) -> Number {
    let (n, d) = fraction_value(whole_value(whole), 1, frac);
    number_of(rounded(n as int, d as int))
}

/// A number: the fraction `num / den` in lowest terms.
#[derive(Clone, Copy, Debug, PartialEq, Eq, Structural)]
pub struct Number {
    num: i64,
    den: i64,
}

impl Number {
    #[verifier::type_invariant]
    spec fn held(self) -> bool {
        &&& self.num > i64::MIN
        &&& self.den >= 1
    }

    /// Numerator and denominator.
    pub closed spec fn parts(self) -> (int, int) {
        (self.num as int, self.den as int)
    }

    /// `n / d` as `rounded` holds it.
    fn from_parts(n: i128, d: i128) -> (r: Number)
        requires
            n > i128::MIN,
            d > 0,
        ensures
            r.parts() == rounded(n as int, d as int),
    {
        let neg = n < 0;
        let mut m: u128 = if neg { (-n) as u128 } else { n as u128 };
        let mut dd: u128 = d as u128;
        loop
            invariant
                1 <= dd <= d,
                m <= i128::MAX,
                rounded(n as int, d as int) == rounded(if neg { -(m as int) } else { m as int }, dd as int),
            decreases dd,
        {
            let ghost v: int = if neg { -(m as int) } else { m as int };
            assert(abs(v) == m as nat);
            let g = gcd_exec(m, dd);
            proof {
                lemma_gcd_positive(m as nat, dd as nat);
            }
            let rm = m / g;
            let rd = dd / g;
            if rm <= i64::MAX as u128 && 1 <= rd && rd <= i64::MAX as u128 {
                let num: i64 = if neg { -(rm as i64) } else { rm as i64 };
                assert(fits(reduced(v, dd as int)));
                assert((num as int, rd as int) == reduced(v, dd as int));
                return Number { num, den: rd as i64 };
            }
            assert(!fits(reduced(v, dd as int)));
            if dd >= 2 {
                assert(halved(v) == if neg { -((m / 2) as int) } else { (m / 2) as int });
                m = m / 2;
                dd = dd / 2;
            } else {
                proof {
                    if m == 0 {
                        assert(dd == 1);
                        assert(gcd(0nat, 1nat) == gcd(1nat, 0nat));
                        assert(gcd(1nat, 0nat) == 1);
                        assert(g == gcd(0nat, 1nat));
                        assert(g == 1);
                        assert(rd == 1) by (nonlinear_arith)
                            requires
                                rd == dd / g,
                                dd == 1,
                                g == 1,
                        ;
                        assert(rm == 0) by (nonlinear_arith)
                            requires
                                rm == m / g,
                                m == 0,
                                g == 1,
                        ;
                    }
                }
                let num: i64 = if neg { -i64::MAX } else { i64::MAX };
                return Number { num, den: 1 };
            }
        }
    }

    pub fn is_zero(&self) -> (r: bool)
        ensures
            r == (self.parts().0 == 0),
    {
        self.num == 0
    }

    pub fn negate(&self) -> (r: Number)
        ensures
            r.parts() == (-self.parts().0, self.parts().1),
    {
        proof {
            use_type_invariant(self);
        }
        Number { num: -self.num, den: self.den }
    }

    pub fn add(&self, o: &Number) -> (r: Number)
        ensures
            r.parts() == sum_parts(self.parts(), o.parts()),
    {
        proof {
            use_type_invariant(self);
            use_type_invariant(o);
        }
        let (a, b, c, d) = (self.num as i128, self.den as i128, o.num as i128, o.den as i128);
        proof {
            assert(-limit() * limit() <= a * d <= limit() * limit()) by (nonlinear_arith)
                requires -limit() <= a <= limit(), 1 <= d <= limit();
            assert(-limit() * limit() <= c * b <= limit() * limit()) by (nonlinear_arith)
                requires -limit() <= c <= limit(), 1 <= b <= limit();
            assert(1 <= b * d <= limit() * limit()) by (nonlinear_arith)
                requires 1 <= b <= limit(), 1 <= d <= limit();
        }
        Number::from_parts(a * d + c * b, b * d)
    }

    pub fn subtract(&self, o: &Number) -> (r: Number)
        ensures
            r.parts() == difference_parts(self.parts(), o.parts()),
    {
        proof {
            use_type_invariant(self);
            use_type_invariant(o);
        }
        let (a, b, c, d) = (self.num as i128, self.den as i128, o.num as i128, o.den as i128);
        proof {
            assert(-limit() * limit() <= a * d <= limit() * limit()) by (nonlinear_arith)
                requires -limit() <= a <= limit(), 1 <= d <= limit();
            assert(-limit() * limit() <= c * b <= limit() * limit()) by (nonlinear_arith)
                requires -limit() <= c <= limit(), 1 <= b <= limit();
            assert(1 <= b * d <= limit() * limit()) by (nonlinear_arith)
                requires 1 <= b <= limit(), 1 <= d <= limit();
        }
        Number::from_parts(a * d - c * b, b * d)
    }

    pub fn multiply(&self, o: &Number) -> (r: Number)
        ensures
            r.parts() == product_parts(self.parts(), o.parts()),
    {
        proof {
            use_type_invariant(self);
            use_type_invariant(o);
        }
        let (a, b, c, d) = (self.num as i128, self.den as i128, o.num as i128, o.den as i128);
        proof {
            assert(-limit() * limit() <= a * c <= limit() * limit()) by (nonlinear_arith)
                requires -limit() <= a <= limit(), -limit() <= c <= limit();
            assert(1 <= b * d <= limit() * limit()) by (nonlinear_arith)
                requires 1 <= b <= limit(), 1 <= d <= limit();
        }
        Number::from_parts(a * c, b * d)
    }

    pub fn divide(&self, o: &Number) -> (r: Number)
        requires
            o.parts().0 != 0,
        ensures
            r.parts() == quotient_parts(self.parts(), o.parts()),
    {
        proof {
            use_type_invariant(self);
            use_type_invariant(o);
        }
        let (a, b, c, d) = (self.num as i128, self.den as i128, o.num as i128, o.den as i128);
        let mc: i128 = if c < 0 { -c } else { c };
        proof {
            assert(-limit() * limit() <= a * d <= limit() * limit()) by (nonlinear_arith)
                requires -limit() <= a <= limit(), 1 <= d <= limit();
            assert(1 <= b * mc <= limit() * limit()) by (nonlinear_arith)
                requires 1 <= b <= limit(), 1 <= mc <= limit();
        }
        if c < 0 {
            Number::from_parts(-(a * d), b * mc)
        } else {
            Number::from_parts(a * d, b * mc)
        }
    }

    pub fn less_than(&self, o: &Number) -> (r: bool)
        ensures
            r == less_parts(self.parts(), o.parts()),
    {
        proof {
            use_type_invariant(self);
            use_type_invariant(o);
        }
        let (a, b, c, d) = (self.num as i128, self.den as i128, o.num as i128, o.den as i128);
        proof {
            assert(-limit() * limit() <= a * d <= limit() * limit()) by (nonlinear_arith)
                requires -limit() <= a <= limit(), 1 <= d <= limit();
            assert(-limit() * limit() <= c * b <= limit() * limit()) by (nonlinear_arith)
                requires -limit() <= c <= limit(), 1 <= b <= limit();
        }
        a * d < c * b
    }

    /// The number that a decimal literal writes: the digits `src[start..point]`,
    /// then, where `point < end`, a `.` at `point` and the digits up to `end`.
    pub fn from_decimal(src: &Vec<char>, start: usize, point: usize, end: usize) -> (r: Number)
        requires
            start <= point <= end <= src.len(),
            point < end ==> point + 1 < end,
            forall|i: int| start <= i < end && i != point ==> is_digit(#[trigger] src@[i]),
        ensures
            r == literal_value(
                src@.subrange(start as int, point as int),
                if point < end { src@.subrange(point + 1, end as int) } else { Seq::empty() },
            ),
    {
        let ghost whole = src@.subrange(start as int, point as int);
        let ghost frac = if point < end { src@.subrange(point + 1, end as int) } else { Seq::<char>::empty() };
        let mut w: u128 = 0;
        let mut i: usize = start;
        assert(src@.subrange(start as int, start as int) =~= Seq::<char>::empty());
        while i < point
            invariant
                start <= i <= point <= end <= src.len(),
                forall|j: int| start <= j < end && j != point ==> is_digit(#[trigger] src@[j]),
                w as nat == whole_value(src@.subrange(start as int, i as int)),
                w <= i64::MAX,
            decreases point - i,
        {
            assert(src@.subrange(start as int, i + 1).drop_last() =~= src@.subrange(start as int, i as int));
            assert(is_digit(src@[i as int]));
            let c = src[i];
            let v = w * 10 + (c as u32 - '0' as u32) as u128;
            w = if v <= i64::MAX as u128 { v } else { i64::MAX as u128 };
            i = i + 1;
        }
        let frac_start: usize = if point < end { point + 1 } else { end };
        assert(src@.subrange(frac_start as int, end as int) =~= frac);
        let mut n: u128 = w;
        let mut d: u128 = 1;
        let mut k: usize = frac_start;
        assert(src@.subrange(frac_start as int, frac_start as int) =~= Seq::<char>::empty());
        while k < end
            invariant
                frac_start <= k <= end <= src.len(),
                (point < end && frac_start == point + 1) || frac_start == end,
                start <= point,
                forall|j: int| start <= j < end && j != point ==> is_digit(#[trigger] src@[j]),
                (n as nat, d as nat) == fraction_value(w as nat, 1, src@.subrange(frac_start as int, k as int)),
                n <= i64::MAX,
                1 <= d <= i64::MAX,
            decreases end - k,
        {
            assert(src@.subrange(frac_start as int, k + 1).drop_last() =~= src@.subrange(frac_start as int, k as int));
            assert(is_digit(src@[k as int]));
            let c = src[k];
            if n * 10 + 9 <= i64::MAX as u128 && d * 10 <= i64::MAX as u128 {
                n = n * 10 + (c as u32 - '0' as u32) as u128;
                d = d * 10;
            }
            k = k + 1;
        }
        let r = Number::from_parts(n as i128, d as i128);
        proof {
            lemma_number_of_parts(r);
        }
        r
    }

    pub fn equals(&self, o: &Number) -> (r: bool)
        ensures
            r == equal_parts(self.parts(), o.parts()),
    {
        proof {
            use_type_invariant(self);
            use_type_invariant(o);
        }
        let (a, b, c, d) = (self.num as i128, self.den as i128, o.num as i128, o.den as i128);
        proof {
            assert(-limit() * limit() <= a * d <= limit() * limit()) by (nonlinear_arith)
                requires -limit() <= a <= limit(), 1 <= d <= limit();
            assert(-limit() * limit() <= c * b <= limit() * limit()) by (nonlinear_arith)
                requires -limit() <= c <= limit(), 1 <= b <= limit();
        }
        a * d == c * b
    }

    /// The text of this number with at most `k` fractional digits.
    fn digits_text(&self, k: usize) -> (r: String)
        ensures
            r@ == digits_text(self.parts(), k as nat),
    {
        proof {
            use_type_invariant(self);
        }
        let m: u128 = if self.num < 0 { (-self.num) as u128 } else { self.num as u128 };
        let d: u128 = self.den as u128;
        let mut s = String::new();
        if self.num < 0 {
            s.push('-');
        }
        push_decimal(&mut s, m / d);
        let digits = fraction_digits_exec(m % d, d, k);
        let n = stripped_len(&digits);
        if n > 0 {
            s.push('.');
            let mut i: usize = 0;
            while i < n
                invariant
                    0 <= i <= n <= digits.len(),
                    s@ == (if self.num < 0 { seq!['-'] } else { Seq::empty() }) + nat_text((m / d) as nat)
                        + seq!['.'] + digits@.take(i as int),
                decreases n - i,
            {
                s.push(digits[i]);
                i = i + 1;
                assert(digits@.take(i as int) =~= digits@.take(i - 1).push(digits@[i - 1]));
            }
        }
        proof {
            let p = self.parts();
            assert(abs(p.0) == m as nat);
            let frac = strip_zeros(fraction_digits(m as nat % d as nat, d as nat, k as nat));
            assert(frac == digits@.take(n as int));
            assert(s@ =~= digits_text(p, k as nat));
        }
        s
    }

    /// The text that `print` writes for this number.
    pub fn to_text(&self) -> (r: String)
        ensures
            r@ == parts_text(self.parts()),
    {
        self.digits_text(16)
    }

    /// The text of this number as a literal: all its fractional digits, and
    /// `.0` after a whole number.
    pub fn to_literal_text(&self) -> (r: String)
        ensures
            r@ == parts_literal_text(self.parts()),
    {
        proof {
            use_type_invariant(self);
        }
        let mut s = self.digits_text(19);
        let m: u128 = if self.num < 0 { (-self.num) as u128 } else { self.num as u128 };
        if m % (self.den as u128) == 0 {
            s.push('.');
            s.push('0');
        }
        assert(s@ =~= parts_literal_text(self.parts()));
        s
    }
}

/// The first `k` fractional digits of `r / d`.
fn fraction_digits_exec(r: u128, d: u128, k: usize) -> (v: Vec<char>)
    requires
        r < d,
        d <= i64::MAX,
    ensures
        v@ == fraction_digits(r as nat, d as nat, k as nat),
{
    let mut v: Vec<char> = Vec::new();
    let mut x = r;
    let mut left = k;
    while left > 0
        invariant
            x < d <= i64::MAX,
            v@ + fraction_digits(x as nat, d as nat, left as nat) == fraction_digits(r as nat, d as nat, k as nat),
        decreases left,
    {
        let t = x * 10;
        let q = t / d;
        assert(q < 10) by (nonlinear_arith)
            requires q == t / d, t == x * 10, x < d, d > 0;
        let c = digit_to_char(q);
        let ghost rest = fraction_digits((t % d) as nat, d as nat, (left - 1) as nat);
        assert(fraction_digits(x as nat, d as nat, left as nat) == seq![c] + rest);
        assert(v@.push(c) + rest =~= v@ + (seq![c] + rest));
        v.push(c);
        x = t % d;
        left = left - 1;
    }
    assert(v@ + Seq::<char>::empty() =~= v@);
    v
}

/// The length of `s` without its trailing zeros.
fn stripped_len(s: &Vec<char>) -> (k: usize)
    ensures
        k <= s.len(),
        s@.take(k as int) == strip_zeros(s@),
{
    let mut j = s.len();
    assert(s@.take(j as int) =~= s@);
    while j > 0 && s[j - 1] == '0'
        invariant
            j <= s.len(),
            strip_zeros(s@.take(j as int)) == strip_zeros(s@),
        decreases j,
    {
        assert(s@.take(j as int).drop_last() =~= s@.take(j - 1));
        j = j - 1;
    }
    j
}

fn gcd_exec(a: u128, b: u128) -> (r: u128)
    ensures
        r == gcd(a as nat, b as nat),
{
    let mut x = a;
    let mut y = b;
    while y != 0
        invariant
            gcd(x as nat, y as nat) == gcd(a as nat, b as nat),
        decreases y,
    {
        let t = x % y;
        x = y;
        y = t;
    }
    x
}

} // verus!
