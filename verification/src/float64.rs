//! Double-precision numbers, held by their IEEE 754 bit pattern.
//!
//! A request carries its numbers as doubles. The library compares them, writes them with
//! a fixed number of decimals and rounds them to single precision; all of these are exact
//! statements about the number that the pattern stands for.

use vstd::arithmetic::div_mod::*;
use vstd::arithmetic::power2::*;
use vstd::prelude::*;
use crate::text;

verus! {

/// A double, held as its bit pattern.
#[derive(Clone, Copy, PartialEq, Eq, Structural, Debug)]
pub struct Float64 {
    pub bits: u64,
}

/// A single-precision number, held as its bit pattern.
#[derive(Clone, Copy, PartialEq, Eq, Structural, Debug)]
pub struct Float32 {
    pub bits: u32,
}

/// The pattern of the sign bit alone.
pub const SIGN_BIT: u64 = 0x8000_0000_0000_0000;

/// One unit of the exponent field: the patterns below it are subnormal.
pub const EXPONENT_UNIT: u64 = 0x10_0000_0000_0000;

/// The pattern of 1.0.
pub const ONE: u64 = 0x3FF0_0000_0000_0000;

/// The pattern of 0.0.
pub const ZERO: u64 = 0;

/// The pattern of negative infinity.
pub const NEG_INFINITY: u64 = 0xFFF0_0000_0000_0000;

impl Float64 {
    /// Whether the sign bit is set.
    pub open spec fn negative(self) -> bool {
        self.bits >= SIGN_BIT
    }

    /// The pattern without its sign bit.
    pub open spec fn magnitude(self) -> u64 {
        (self.bits % SIGN_BIT) as u64
    }

    /// The exponent field.
    pub open spec fn exponent(self) -> nat {
        (self.magnitude() / EXPONENT_UNIT) as nat
    }

    /// The fraction field.
    pub open spec fn fraction(self) -> nat {
        (self.magnitude() % EXPONENT_UNIT) as nat
    }

    /// Not a number.
    pub open spec fn is_nan(self) -> bool {
        self.exponent() == 2047 && self.fraction() != 0
    }

    /// Positive or negative infinity.
    pub open spec fn is_infinite(self) -> bool {
        self.exponent() == 2047 && self.fraction() == 0
    }

    /// The significand as an integer.
    pub open spec fn significand(self) -> nat {
        if self.exponent() == 0 {
            self.fraction()
        } else {
            self.fraction() + EXPONENT_UNIT as nat
        }
    }

    /// The power of two that scales the significand, over the smallest positive double.
    pub open spec fn shift(self) -> nat {
        if self.exponent() == 0 {
            0
        } else {
            (self.exponent() - 1) as nat
        }
    }

    /// The size of a finite number, counted in units of the smallest positive double
    /// (2 to the power -1074). An infinity counts as the next power of two after the
    /// largest finite number.
    pub open spec fn units(self) -> nat {
        self.significand() * pow2(self.shift())
    }

    /// The number in units of the smallest positive double, with its sign.
    pub open spec fn signed_units(self) -> int {
        if self.negative() {
            -(self.units() as int)
        } else {
            self.units() as int
        }
    }

    /// Numeric equality: false where either side is not a number, and the two zeros agree.
    pub open spec fn same_number(self, other: Float64) -> bool {
        !self.is_nan() && !other.is_nan() && self.signed_units() == other.signed_units()
    }

    /// Numeric order: false where either side is not a number.
    pub open spec fn above(self, other: Float64) -> bool {
        !self.is_nan() && !other.is_nan() && self.signed_units() > other.signed_units()
    }

    /// Numeric order or equality: false where either side is not a number.
    pub open spec fn at_least(self, other: Float64) -> bool {
        !self.is_nan() && !other.is_nan() && self.signed_units() >= other.signed_units()
    }

    /// The smaller of two numbers; the other one, where one is not a number.
    pub open spec fn lesser(self, other: Float64) -> Float64 {
        if self.is_nan() || self.above(other) {
            other
        } else {
            self
        }
    }
}

/// Larger patterns stand for larger sizes.
pub proof fn lemma_units_increase(a: Float64, b: Float64)
    requires
        a.magnitude() < b.magnitude(),
    ensures
        a.units() < b.units(),
{
    let (ma, mb) = (a.significand(), b.significand());
    let (sa, sb) = (a.shift(), b.shift());
    lemma_pow2_pos(sa);
    lemma_pow2_pos(sb);
    if a.exponent() == b.exponent() {
        assert(ma < mb);
        let p = pow2(sa);
        assert(ma * p < mb * p) by (nonlinear_arith)
            requires
                ma < mb,
                p > 0,
        ;
    } else {
        assert(a.exponent() < b.exponent());
        let unit = EXPONENT_UNIT as nat;
        let (pa, pb) = (pow2(sa), pow2(sb));
        assert(unit * pb <= mb * pb) by (nonlinear_arith)
            requires
                unit <= mb,
        ;
        if a.exponent() == 0 {
            assert(pa == 1) by {
                lemma2_to64();
            }
            assert(unit <= unit * pb) by (nonlinear_arith)
                requires
                    pb > 0,
            ;
            assert(ma * pa == ma) by (nonlinear_arith)
                requires
                    pa == 1,
            ;
        } else {
            assert(2 * pa <= pb) by {
                lemma_pow2_unfold((sa + 1) as nat);
                if sa + 1 < sb {
                    lemma_pow2_strictly_increases((sa + 1) as nat, sb);
                }
            }
            assert(ma * pa < 2 * unit * pa) by (nonlinear_arith)
                requires
                    ma < 2 * unit,
                    pa > 0,
            ;
            assert(2 * unit * pa <= unit * pb) by (nonlinear_arith)
                requires
                    2 * pa <= pb,
            ;
        }
    }
}

/// Equal patterns, up to the sign, are equal sizes, and only those.
proof fn lemma_units_agree(a: Float64, b: Float64)
    ensures
        a.units() == b.units() <==> a.magnitude() == b.magnitude(),
        a.units() == 0 <==> a.magnitude() == 0,
{
    if a.magnitude() < b.magnitude() {
        lemma_units_increase(a, b);
    } else if b.magnitude() < a.magnitude() {
        lemma_units_increase(b, a);
    }
    let zero = Float64 { bits: ZERO };
    assert(zero.units() == 0) by {
        assert(0 * pow2(0) == 0);
    }
    if a.magnitude() > 0 {
        lemma_units_increase(zero, a);
    }
}

impl Float64 {
    /// Whether the pattern stands for no number.
    pub fn nan(self) -> (r: bool)
        ensures
            r == self.is_nan(),
    {
        let m: u64 = self.bits % SIGN_BIT;
        m / EXPONENT_UNIT == 2047 && m % EXPONENT_UNIT != 0
    }

    /// Numeric equality.
    pub fn equals(self, other: Float64) -> (r: bool)
        ensures
            r == self.same_number(other),
    {
        proof {
            lemma_units_agree(self, other);
        }
        if self.nan() || other.nan() {
            return false;
        }
        let a: u64 = self.bits % SIGN_BIT;
        let b: u64 = other.bits % SIGN_BIT;
        a == b && (a == 0 || (self.bits >= SIGN_BIT) == (other.bits >= SIGN_BIT))
    }

    /// Numeric order.
    pub fn greater(self, other: Float64) -> (r: bool)
        ensures
            r == self.above(other),
    {
        proof {
            lemma_units_agree(self, other);
            lemma_units_agree(other, self);
            if self.magnitude() < other.magnitude() {
                lemma_units_increase(self, other);
            }
            if other.magnitude() < self.magnitude() {
                lemma_units_increase(other, self);
            }
        }
        if self.nan() || other.nan() {
            return false;
        }
        let a: u64 = self.bits % SIGN_BIT;
        let b: u64 = other.bits % SIGN_BIT;
        let an: bool = self.bits >= SIGN_BIT;
        let bn: bool = other.bits >= SIGN_BIT;
        if an && bn {
            a < b
        } else if an {
            false
        } else if bn {
            a != 0 || b != 0
        } else {
            a > b
        }
    }
}

impl Float64 {
    /// Numeric order or equality.
    pub fn greater_or_equal(self, other: Float64) -> (r: bool)
        ensures
            r == self.at_least(other),
    {
        self.greater(other) || self.equals(other)
    }

    /// The smaller of two numbers; the other one, where one is not a number.
    pub fn min(self, other: Float64) -> (r: Float64)
        ensures
            r == self.lesser(other),
    {
        if self.nan() || self.greater(other) {
            other
        } else {
            self
        }
    }
}

/// 10 to the power `p`.
pub open spec fn pow10(p: nat) -> nat
    decreases p,
{
    if p == 0 {
        1
    } else {
        10 * pow10((p - 1) as nat)
    }
}

/// `n / d` rounded to the nearest integer, a tie going to the even one.
pub open spec fn div_half_even(n: nat, d: nat) -> nat {
    let q = n / d;
    let r = n % d;
    if 2 * r < d || (2 * r == d && q % 2 == 0) {
        q
    } else {
        q + 1
    }
}

/// The last `p` decimal digits of `n`, leading zeros kept.
pub open spec fn padded(n: nat, p: nat) -> Seq<char>
    decreases p,
{
    if p == 0 {
        Seq::empty()
    } else {
        padded(n / 10, (p - 1) as nat).push(text::digit_char(n % 10))
    }
}

/// `n` over 10 to the power `p`, written with `p` decimals.
pub open spec fn fixed_point(n: nat, p: nat) -> Seq<char> {
    text::decimal(n / pow10(p)).push('.') + padded(n % pow10(p), p)
}

impl Float64 {
    /// The size of the number, in steps of 10 to the power `-p`, rounded to the nearest.
    pub open spec fn rounded(self, p: nat) -> nat {
        div_half_even(self.units() * pow10(p), pow2(1074))
    }

    /// The number written with `p` decimals, rounded to the nearest (ties to even).
    pub open spec fn fixed_text(self, p: nat) -> Seq<char> {
        if self.is_nan() {
            seq!['N', 'a', 'N']
        } else {
            (if self.negative() {
                seq!['-']
            } else {
                Seq::empty()
            }) + (if self.is_infinite() {
                seq!['i', 'n', 'f']
            } else {
                fixed_point(self.rounded(p), p)
            })
        }
    }
}

/// The single-precision pattern of positive infinity: the finite ones lie below it.
pub const SINGLE_INFINITY: u32 = 0x7F80_0000;

/// The single-precision pattern of a number that is none.
pub const SINGLE_NAN: u32 = 0x7FC0_0000;

/// The single-precision pattern of the sign bit alone.
pub const SINGLE_SIGN_BIT: u32 = 0x8000_0000;

/// One unit of the single-precision exponent field.
pub const SINGLE_EXPONENT_UNIT: u32 = 0x80_0000;

impl Float64 {
    /// The distance between the single-precision numbers of this size, as a power of two
    /// over the smallest positive double: twenty-four bits of the significand stay, and no
    /// step is below the smallest positive single.
    pub open spec fn single_step(self) -> nat {
        if self.shift() + 29 >= 925 {
            self.shift() + 29
        } else {
            925
        }
    }

    /// The single-precision pattern of the size: each step of the exponent field doubles the
    /// distance between numbers, and what is rounded beyond the largest one is infinite.
    pub open spec fn single_magnitude(self) -> nat {
        if self.is_nan() {
            SINGLE_NAN as nat
        } else {
            let steps = div_half_even(self.units(), pow2(self.single_step()));
            let pattern = ((self.single_step() - 925) * SINGLE_EXPONENT_UNIT + steps) as nat;
            if !self.is_infinite() && pattern < SINGLE_INFINITY {
                pattern
            } else {
                SINGLE_INFINITY as nat
            }
        }
    }

    /// The nearest single-precision number, a tie going to the even one.
    pub open spec fn narrowed(self) -> Float32 {
        Float32 {
            bits: (self.single_magnitude() + if self.negative() {
                SINGLE_SIGN_BIT as nat
            } else {
                0
            }) as u32,
        }
    }
}

/// Rounding a quotient does not change when both sides are scaled.
proof fn lemma_div_half_even_scale(a: nat, b: nat, k: nat)
    requires
        b > 0,
        k > 0,
    ensures
        div_half_even(a * k, b * k) == div_half_even(a, b),
{
    let (q, r) = (a / b, a % b);
    lemma_fundamental_div_mod(a as int, b as int);
    let (bk, rk) = (b * k, r * k);
    assert(a * k == q * bk + rk && 0 <= rk < bk) by (nonlinear_arith)
        requires
            a == b * q + r,
            0 <= r < b,
            k > 0,
            bk == b * k,
            rk == r * k,
    ;
    assert(bk > 0);
    lemma_fundamental_div_mod_converse((a * k) as int, bk as int, q as int, rk as int);
    assert((2 * rk < bk <==> 2 * r < b) && (2 * rk == bk <==> 2 * r == b)) by (nonlinear_arith)
        requires
            k > 0,
            bk == b * k,
            rk == r * k,
    ;
}

/// A whole number of steps rounds to itself.
proof fn lemma_div_half_even_exact(n: nat, d: nat)
    requires
        d > 0,
    ensures
        div_half_even(n * d, d) == n,
{
    lemma_fundamental_div_mod_converse((n * d) as int, d as int, n as int, 0);
}

/// The decimal digits `s`, least significant first, as a number.
spec fn digits_value(s: Seq<u8>) -> nat
    decreases s.len(),
{
    if s.len() == 0 {
        0
    } else {
        s[0] as nat + 10 * digits_value(s.skip(1))
    }
}

/// Decimal digits only.
spec fn all_digits(s: Seq<u8>) -> bool {
    forall|i: int| 0 <= i < s.len() ==> #[trigger] s[i] < 10
}

proof fn lemma_digits_push(s: Seq<u8>, d: u8)
    ensures
        digits_value(s.push(d)) == digits_value(s) + d * pow10(s.len()),
    decreases s.len(),
{
    reveal_with_fuel(digits_value, 2);
    if s.len() == 0 {
        assert(s.push(d).skip(1) =~= Seq::<u8>::empty());
        let one = pow10(0);
        assert(d * one == d) by (nonlinear_arith)
            requires
                one == 1,
        ;
    } else {
        assert(s.push(d).skip(1) =~= s.skip(1).push(d));
        lemma_digits_push(s.skip(1), d);
        let p = pow10((s.len() - 1) as nat);
        assert(10 * (d * p) == d * (10 * p)) by (nonlinear_arith);
    }
}

/// Doubles a run of decimal digits.
fn double_digits(v: &Vec<u8>) -> (w: Vec<u8>)
    requires
        all_digits(v@),
        v@.len() > 0,
        v@.last() > 0,
    ensures
        all_digits(w@),
        w@.len() > 0,
        w@.last() > 0,
        digits_value(w@) == 2 * digits_value(v@),
{
    let mut w: Vec<u8> = Vec::new();
    let mut carry: u8 = 0;
    let mut i: usize = 0;
    proof {
        assert(v@.skip(0) =~= v@);
        let (one, twice) = (pow10(0), 2 * digits_value(v@));
        assert(one * (0 + twice) == twice) by (nonlinear_arith)
            requires
                one == 1,
        ;
    }
    while i < v.len()
        invariant
            i <= v.len(),
            w@.len() == i,
            carry <= 1,
            all_digits(v@),
            all_digits(w@),
            digits_value(w@) + pow10(i as nat) * (carry + 2 * digits_value(v@.skip(i as int)))
                == 2 * digits_value(v@),
            i == v@.len() && carry == 0 ==> i == 0 || w@.last() > 0,
            v@.len() > 0,
            v@.last() > 0,
        decreases v.len() - i,
    {
        let d: u8 = v[i];
        let t: u8 = 2 * d + carry;
        let (low, high): (u8, u8) = (t % 10, t / 10);
        let ghost (p, rest) = (pow10(i as nat), digits_value(v@.skip(i + 1)));
        proof {
            assert(v@.skip(i as int).skip(1) =~= v@.skip(i + 1));
            assert(v@.skip(i as int)[0] == d);
            lemma_digits_push(w@, low);
            assert(low * p + (10 * p) * (high + 2 * rest) == p * (carry + 2 * (d + 10 * rest)))
                by (nonlinear_arith)
                requires
                    2 * d + carry == 10 * high + low,
            ;
        }
        w.push(low);
        carry = high;
        i += 1;
    }
    proof {
        assert(v@.skip(i as int) =~= Seq::<u8>::empty());
        lemma_digits_push(w@, carry);
        let p = pow10(i as nat);
        assert(p * (carry + 2 * 0) == carry * p) by (nonlinear_arith);
    }
    if carry > 0 {
        w.push(carry);
    }
    w
}

/// Digits without a leading zero are the decimal numeral, read backwards.
proof fn lemma_digits_decimal(s: Seq<u8>)
    requires
        all_digits(s),
        s.len() > 0,
        s.last() > 0,
    ensures
        text::decimal(digits_value(s)) == Seq::new(
            s.len(),
            |i: int| text::digit_char(s[s.len() - 1 - i] as nat),
        ),
        digits_value(s) > 0,
    decreases s.len(),
{
    reveal_with_fuel(digits_value, 2);
    let whole = Seq::new(s.len(), |i: int| text::digit_char(s[s.len() - 1 - i] as nat));
    let n = digits_value(s);
    if s.len() == 1 {
        assert(text::decimal(n) =~= whole);
    } else {
        let t = s.skip(1);
        assert forall|i: int| 0 <= i < t.len() implies #[trigger] t[i] < 10 by {
            assert(t[i] == s[i + 1]);
        }
        assert(t.last() == s.last());
        lemma_digits_decimal(t);
        assert(s[0] < 10);
        assert(n / 10 == digits_value(t) && n % 10 == s[0]);
        assert(text::decimal(n) =~= whole);
    }
}

/// The decimal digits of `m`, least significant first.
fn digits_of(m: u64) -> (v: Vec<u8>)
    requires
        m > 0,
    ensures
        all_digits(v@),
        v@.len() > 0,
        v@.last() > 0,
        digits_value(v@) == m,
{
    let mut v: Vec<u8> = Vec::new();
    let mut n: u64 = m;
    proof {
        let one = pow10(0);
        assert(one * n == n) by (nonlinear_arith)
            requires
                one == 1,
        ;
    }
    while n > 0
        invariant
            all_digits(v@),
            digits_value(v@) + pow10(v@.len()) * n == m,
            m > 0,
            n == 0 ==> v@.len() > 0 && v@.last() > 0,
            v@.len() == 0 ==> n == m,
        decreases n,
    {
        let d: u8 = (n % 10) as u8;
        proof {
            lemma_digits_push(v@, d);
            let p = pow10(v@.len());
            let q = n / 10;
            assert(d * p + (10 * p) * q == p * n) by (nonlinear_arith)
                requires
                    n == 10 * q + d,
            ;
        }
        v.push(d);
        n = n / 10;
    }
    v
}

/// Writes digits, most significant first.
fn write_digits(v: &Vec<u8>) -> (s: String)
    requires
        all_digits(v@),
    ensures
        s@ == Seq::new(v@.len(), |i: int| text::digit_char(v@[v@.len() - 1 - i] as nat)),
{
    let mut s: String = String::new();
    let mut i: usize = v.len();
    while i > 0
        invariant
            i <= v.len(),
            all_digits(v@),
            s@ =~= Seq::new(
                (v@.len() - i) as nat,
                |k: int| text::digit_char(v@[v@.len() - 1 - k] as nat),
            ),
        decreases i,
    {
        i -= 1;
        let d: u8 = v[i];
        text::push_char(&mut s, (48u8 + d) as char);
    }
    s
}

/// Appends the last `p` decimal digits of `n`.
fn push_padded(s: &mut String, n: u64, p: u8)
    ensures
        final(s)@ == old(s)@ + padded(n as nat, p as nat),
    decreases p,
{
    if p == 0 {
        proof {
            assert(s@ =~= old(s)@ + padded(n as nat, 0));
        }
        return;
    }
    push_padded(s, n / 10, p - 1);
    let d: u8 = (n % 10) as u8;
    text::push_char(s, (48u8 + d) as char);
    proof {
        assert(s@ =~= old(s)@ + padded(n as nat, p as nat));
    }
}

/// 10 to the power `p`, for up to three decimals.
fn small_pow10(p: u8) -> (r: u64)
    requires
        p <= 3,
    ensures
        r == pow10(p as nat),
        1 <= r <= 1000,
{
    reveal_with_fuel(pow10, 4);
    if p == 0 {
        1
    } else if p == 1 {
        10
    } else if p == 2 {
        100
    } else {
        1000
    }
}

/// The rounding of a number whose unit is coarser than one: the digits double exactly.
proof fn lemma_rounded_large(x: Float64, p: nat)
    requires
        x.shift() >= 1074,
    ensures
        x.rounded(p) == x.significand() * pow2((x.shift() - 1074) as nat) * pow10(p),
        x.rounded(p) / pow10(p) == x.significand() * pow2((x.shift() - 1074) as nat),
        x.rounded(p) % pow10(p) == 0,
{
    let e = (x.shift() - 1074) as nat;
    let (m, t, one) = (x.significand(), pow10(p), pow2(1074));
    lemma_pow2_adds(e, 1074);
    lemma_pow2_pos(1074);
    lemma_pow10_pos(p);
    let n = m * pow2(e) * t;
    let pe = pow2(e);
    assert(m * (pe * one) * t == (m * pe * t) * one) by (nonlinear_arith);
    lemma_div_half_even_exact(n, one);
    lemma_fundamental_div_mod_converse(n as int, t as int, (m * pe) as int, 0);
}

/// The rounding of a number whose unit is finer than one: a quotient of small integers.
proof fn lemma_rounded_small(x: Float64, p: nat)
    requires
        x.shift() < 1074,
    ensures
        x.rounded(p) == div_half_even(
            x.significand() * pow10(p),
            pow2((1074 - x.shift()) as nat),
        ),
{
    let s = x.shift();
    let d = (1074 - s) as nat;
    let (m, t, ps, pd) = (x.significand(), pow10(p), pow2(s), pow2(d));
    lemma_pow2_adds(d, s);
    lemma_pow2_pos(s);
    lemma_pow2_pos(d);
    assert(m * ps * t == (m * t) * ps) by (nonlinear_arith);
    lemma_div_half_even_scale(m * t, pd, ps);
}

proof fn lemma_pow10_pos(p: nat)
    ensures
        pow10(p) > 0,
    decreases p,
{
    if p > 0 {
        lemma_pow10_pos((p - 1) as nat);
    }
}

/// `n` over 2 to the power `d`, rounded to the nearest integer, a tie going to the even one.
fn half_even_quotient(n: u64, d: u64) -> (rounded: u64)
    requires
        n < 0x7D00_0000_0000_0000,
    ensures
        rounded == div_half_even(n as nat, pow2(d as nat)),
        rounded <= n,
{
    if d >= 64 {
        proof {
            lemma2_to64();
            if d > 64 {
                lemma_pow2_strictly_increases(64, d as nat);
            }
            lemma_basic_div(n as int, pow2(d as nat) as int);
            lemma_small_mod(n as nat, pow2(d as nat));
        }
        return 0;
    }
    let mut den: u64 = 1;
    let mut k: u64 = 0;
    proof {
        lemma2_to64();
    }
    while k < d
        invariant
            k <= d < 64,
            den == pow2(k as nat),
        decreases d - k,
    {
        proof {
            lemma_pow2_unfold((k + 1) as nat);
            lemma2_to64();
            if k + 1 < 63 {
                lemma_pow2_strictly_increases((k + 1) as nat, 63);
            }
            lemma2_to64_rest();
        }
        den = den * 2;
        k += 1;
    }
    proof {
        lemma_pow2_pos(d as nat);
        lemma_fundamental_div_mod(n as int, den as int);
    }
    let q: u64 = n / den;
    let r: u64 = n % den;
    assert(q <= den * q) by (nonlinear_arith)
        requires
            den >= 1,
    ;
    if r < den - r || (r == den - r && q % 2 == 0) {
        q
    } else {
        q + 1
    }
}

impl Float64 {
    /// The nearest single-precision number, a tie going to the even one.
    pub fn narrow(self) -> (r: Float32)
        ensures
            r == self.narrowed(),
    {
        let mag: u64 = self.bits % SIGN_BIT;
        let exponent: u64 = mag / EXPONENT_UNIT;
        let fraction: u64 = mag % EXPONENT_UNIT;
        let size: u32 = if self.nan() {
            SINGLE_NAN
        } else if exponent == 2047 {
            SINGLE_INFINITY
        } else {
            let m: u64 = if exponent == 0 {
                fraction
            } else {
                fraction + EXPONENT_UNIT
            };
            let shift: u64 = if exponent == 0 {
                0
            } else {
                exponent - 1
            };
            let step: u64 = if shift + 29 >= 925 {
                shift + 29
            } else {
                925
            };
            let steps: u64 = half_even_quotient(m, step - shift);
            proof {
                lemma_pow2_adds((step - shift) as nat, shift as nat);
                lemma_pow2_pos(shift as nat);
                lemma_pow2_pos((step - shift) as nat);
                lemma_div_half_even_scale(
                    m as nat,
                    pow2((step - shift) as nat),
                    pow2(shift as nat),
                );
            }
            let pattern: u64 = (step - 925) * SINGLE_EXPONENT_UNIT as u64 + steps;
            if pattern < SINGLE_INFINITY as u64 {
                pattern as u32
            } else {
                SINGLE_INFINITY
            }
        };
        if self.bits >= SIGN_BIT {
            Float32 { bits: size + SINGLE_SIGN_BIT }
        } else {
            Float32 { bits: size }
        }
    }

    /// Writes the number with `p` decimals, rounded to the nearest (ties to even).
    pub fn to_fixed(self, p: u8) -> (s: String)
        requires
            1 <= p <= 3,
        ensures
            s@ == self.fixed_text(p as nat),
    {
        let mag: u64 = self.bits % SIGN_BIT;
        let exponent: u64 = mag / EXPONENT_UNIT;
        let fraction: u64 = mag % EXPONENT_UNIT;
        let mut s: String = String::new();
        if self.nan() {
            text::push_char(&mut s, 'N');
            text::push_char(&mut s, 'a');
            text::push_char(&mut s, 'N');
            proof {
                assert(s@ =~= self.fixed_text(p as nat));
            }
            return s;
        }
        if self.bits >= SIGN_BIT {
            text::push_char(&mut s, '-');
        }
        let ghost sign = s@;
        proof {
            assert(sign =~= if self.negative() {
                seq!['-']
            } else {
                Seq::<char>::empty()
            });
        }
        if exponent == 2047 {
            text::push_char(&mut s, 'i');
            text::push_char(&mut s, 'n');
            text::push_char(&mut s, 'f');
            proof {
                assert(s@ =~= self.fixed_text(p as nat));
            }
            return s;
        }
        let m: u64 = if exponent == 0 {
            fraction
        } else {
            fraction + EXPONENT_UNIT
        };
        let shift: u64 = if exponent == 0 {
            0
        } else {
            exponent - 1
        };
        if shift >= 1074 {
            let mut digits: Vec<u8> = digits_of(m);
            let mut k: u64 = 1074;
            proof {
                lemma2_to64();
                let one = pow2(0);
                assert(m * one == m) by (nonlinear_arith)
                    requires
                        one == 1,
                ;
            }
            while k < shift
                invariant
                    1074 <= k <= shift,
                    all_digits(digits@),
                    digits@.len() > 0,
                    digits@.last() > 0,
                    digits_value(digits@) == m * pow2((k - 1074) as nat),
                decreases shift - k,
            {
                digits = double_digits(&digits);
                proof {
                    let e = (k - 1074) as nat;
                    lemma_pow2_unfold((e + 1) as nat);
                    let pe = pow2(e);
                    assert(2 * (m * pe) == m * (2 * pe)) by (nonlinear_arith);
                }
                k += 1;
            }
            let whole: String = write_digits(&digits);
            s.append(whole.as_str());
            text::push_char(&mut s, '.');
            push_padded(&mut s, 0, p);
            proof {
                lemma_digits_decimal(digits@);
                lemma_rounded_large(self, p as nat);
                assert(s@ =~= sign + fixed_point(self.rounded(p as nat), p as nat));
            }
            return s;
        }
        let d: u64 = 1074 - shift;
        let scale: u64 = small_pow10(p);
        assert(m * scale < 0x7D00_0000_0000_0000) by (nonlinear_arith)
            requires
                m < 0x20_0000_0000_0000,
                scale <= 1000,
        ;
        let n: u64 = m * scale;
        proof {
            lemma_rounded_small(self, p as nat);
        }
        let rounded: u64 = half_even_quotient(n, d);
        let whole: String = text::decimal_text(rounded / scale);
        s.append(whole.as_str());
        text::push_char(&mut s, '.');
        push_padded(&mut s, rounded % scale, p);
        proof {
            assert(s@ =~= sign + fixed_point(self.rounded(p as nat), p as nat));
        }
        s
    }
}

/// Patterns up to the first full binade count in units of the smallest positive double, and
/// from there on each step of the exponent doubles the number.
pub proof fn law_units_double_by_exponent(a: Float64, b: Float64)
    ensures
        a.magnitude() < 0x20_0000_0000_0000 ==> a.units() == a.magnitude(),
        a.magnitude() >= 0x10_0000_0000_0000 && b.magnitude() == a.magnitude()
            + 0x10_0000_0000_0000 ==> b.units() == 2 * a.units(),
{
    lemma2_to64();
    if a.magnitude() < 0x20_0000_0000_0000 {
        assert(a.shift() == 0 && a.significand() == a.magnitude());
        assert(a.significand() * pow2(0) == a.significand()) by (nonlinear_arith)
            requires
                pow2(0) == 1,
        ;
    }
    if a.magnitude() >= 0x10_0000_0000_0000 && b.magnitude() == a.magnitude()
        + 0x10_0000_0000_0000 {
        assert(b.exponent() == a.exponent() + 1 && b.fraction() == a.fraction());
        assert(b.shift() == a.shift() + 1);
        lemma_pow2_unfold(b.shift());
        let (m, p) = (a.significand(), pow2(a.shift()));
        assert(m * (2 * p) == 2 * (m * p)) by (nonlinear_arith);
    }
}

/// The highest bit is the sign, the others are the size; a size beyond that of infinity is no
/// number.
pub proof fn law_pattern_is_sign_and_size(x: Float64, y: Float64)
    ensures
        x.negative() <==> x.bits >= 0x8000_0000_0000_0000,
        x.magnitude() == if x.negative() {
            x.bits - 0x8000_0000_0000_0000
        } else {
            x.bits as int
        },
        x.is_nan() <==> x.magnitude() > 0x7FF0_0000_0000_0000,
        x.is_infinite() <==> x.magnitude() == 0x7FF0_0000_0000_0000,
        x.bits + 0x8000_0000_0000_0000 == y.bits ==> y.signed_units() == -x.signed_units()
            && x.signed_units() >= 0,
{
}

/// Of two numbers exactly one is above the other, or they are the same number; nothing can be
/// said of what is no number.
pub proof fn law_numbers_are_ordered(x: Float64, y: Float64)
    ensures
        x.is_nan() || y.is_nan() ==> !x.above(y) && !y.above(x) && !x.same_number(y)
            && !x.at_least(y),
        !x.is_nan() && !y.is_nan() ==> {
            &&& x.above(y) || y.above(x) || x.same_number(y)
            &&& !(x.above(y) && y.above(x))
            &&& !(x.above(y) && x.same_number(y))
            &&& x.at_least(y) <==> x.above(y) || x.same_number(y)
            &&& x.at_least(y) <==> !y.above(x)
            &&& x.same_number(y) <==> x.bits == y.bits || (x.magnitude() == 0 && y.magnitude()
                == 0)
            &&& !x.negative() && !y.negative() ==> (x.above(y) <==> x.bits > y.bits)
            &&& x.negative() && y.negative() ==> (x.above(y) <==> x.bits < y.bits)
            &&& !x.negative() && y.negative() ==> !y.above(x)
        },
{
    lemma_units_agree(x, y);
    lemma_units_agree(y, x);
    if x.magnitude() < y.magnitude() {
        lemma_units_increase(x, y);
    } else if y.magnitude() < x.magnitude() {
        lemma_units_increase(y, x);
    }
}

/// The lesser of two numbers is one of them and above neither; of two of which one is no
/// number it is the other.
pub proof fn law_lesser_is_the_least(x: Float64, y: Float64)
    ensures
        x.lesser(y) == x || x.lesser(y) == y,
        !x.is_nan() && !y.is_nan() ==> x.at_least(x.lesser(y)) && y.at_least(x.lesser(y)),
        x.is_nan() ==> x.lesser(y) == y,
        y.is_nan() && !x.is_nan() ==> x.lesser(y) == x,
        x.same_number(y) ==> x.lesser(y) == x,
{
}

/// A rounded quotient is at most half a step from the quotient, and even where it is exactly
/// that.
pub proof fn law_rounding_is_to_the_nearest(n: nat, d: nat)
    requires
        d > 0,
    ensures
        ({
            let off = 2 * (div_half_even(n, d) * d - n);
            &&& -d <= off <= d
            &&& off == d || off == -d ==> div_half_even(n, d) % 2 == 0
        }),
{
    let (q, r) = (n / d, n % d);
    lemma_fundamental_div_mod(n as int, d as int);
    assert(d * q == q * d) by (nonlinear_arith);
    assert((q + 1) * d == q * d + d) by (nonlinear_arith);
}

/// Padded digits are as many as asked for, and spell the number where it has no more.
pub proof fn law_padded_digits_spell_the_number(n: nat, p: nat)
    ensures
        padded(n, p).len() == p,
        p > 0 ==> text::is_numeral(text::ascii_bytes(padded(n, p))),
        n < pow10(p) ==> text::numeral_value(text::ascii_bytes(padded(n, p))) == n,
        pow10(0) == 1,
        pow10(p + 1) == 10 * pow10(p),
    decreases p,
{
    let b = text::ascii_bytes(padded(n, p));
    if p > 0 {
        let q = (p - 1) as nat;
        law_padded_digits_spell_the_number(n / 10, q);
        let c = text::ascii_bytes(padded(n / 10, q));
        assert(b.drop_last() =~= c);
        assert(b.last() == (48 + n % 10) as u8);
        assert forall|i: int| 0 <= i < b.len() implies text::is_digit(#[trigger] b[i]) by {
            if i < c.len() {
                assert(b[i] == c[i]);
                assert(text::is_digit(c[i]));
            }
        }
        if n < pow10(p) {
            assert(n / 10 < pow10(q));
        }
    }
}

/// A finite number is written as its sign, its whole part, a dot and as many decimals as asked
/// for; read together, the digits are the size of the number in steps of the last decimal,
/// rounded to the nearest, a tie to the even one.
pub proof fn law_fixed_text_spells_the_number(x: Float64, p: nat)
    requires
        x.exponent() < 2047,
        p > 0,
    ensures
        ({
            let n = x.rounded(p);
            let whole = text::decimal(n / pow10(p));
            let decimals = padded(n % pow10(p), p);
            let sign = if x.negative() {
                seq!['-']
            } else {
                Seq::<char>::empty()
            };
            let off = 2 * (n * pow2(1074) - x.units() * pow10(p));
            &&& x.fixed_text(p) == sign + whole + seq!['.'] + decimals
            &&& decimals.len() == p
            &&& text::numeral_value(text::ascii_bytes(whole)) * pow10(p) + text::numeral_value(
                text::ascii_bytes(decimals),
            ) == n
            &&& -pow2(1074) <= off <= pow2(1074)
            &&& off == pow2(1074) || off == -pow2(1074) ==> n % 2 == 0
        }),
{
    let n = x.rounded(p);
    let t = pow10(p);
    lemma_pow10_pos(p);
    lemma_fundamental_div_mod(n as int, t as int);
    assert(t * (n / t) == (n / t) * t) by (nonlinear_arith);
    lemma_pow2_pos(1074);
    text::lemma_decimal_roundtrip(n / t);
    law_padded_digits_spell_the_number(n % t, p);
    law_rounding_is_to_the_nearest(x.units() * t, pow2(1074));
    let sign = if x.negative() {
        seq!['-']
    } else {
        Seq::<char>::empty()
    };
    assert(x.fixed_text(p) =~= sign + text::decimal(n / t) + seq!['.'] + padded(n % t, p));
}

/// What is no number, and what is infinite, is written as such.
pub proof fn law_special_numbers_are_named(x: Float64, p: nat)
    ensures
        x.is_nan() ==> x.fixed_text(p) == "NaN"@,
        x.is_infinite() && !x.negative() ==> x.fixed_text(p) == "inf"@,
        x.is_infinite() && x.negative() ==> x.fixed_text(p) == "-inf"@,
{
    reveal_strlit("NaN");
    reveal_strlit("inf");
    reveal_strlit("-inf");
    if x.is_nan() {
        assert(x.fixed_text(p) =~= "NaN"@);
    } else if x.is_infinite() && x.negative() {
        assert(x.fixed_text(p) =~= "-inf"@);
    } else if x.is_infinite() {
        assert(x.fixed_text(p) =~= "inf"@);
    }
}

impl Float32 {
    /// The size of a finite single-precision number, counted in units of the smallest positive
    /// one (2 to the power -149).
    pub open spec fn units(self) -> nat {
        let size = (self.bits % 0x8000_0000) as nat;
        if size < 0x80_0000 {
            size
        } else {
            (size % 0x80_0000 + 0x80_0000) * pow2((size / 0x80_0000 - 1) as nat)
        }
    }
}

/// Rounding a quotient below a bound stays within the bound, and above one above it.
proof fn lemma_div_half_even_bounds(n: nat, d: nat, low: nat, high: nat)
    requires
        d > 0,
        low * d <= n < high * d,
    ensures
        low <= div_half_even(n, d) <= high,
{
    let (q, r) = (n / d, n % d);
    lemma_fundamental_div_mod(n as int, d as int);
    assert(low <= q < high) by (nonlinear_arith)
        requires
            d > 0,
            low * d <= n < high * d,
            n == d * q + r,
            0 <= r < d,
    ;
}

/// The distance between single-precision numbers fits the size of the number: twenty-four bits
/// of it are kept.
proof fn lemma_single_step(x: Float64)
    ensures
        x.single_step() >= 925,
        x.units() < 0x100_0000 * pow2(x.single_step()),
        x.single_step() > 925 ==> 0x80_0000 * pow2(x.single_step()) <= x.units(),
{
    let (m, s, t) = (x.significand(), x.shift(), x.single_step());
    let p = pow2(s);
    lemma_pow2_pos(s);
    lemma2_to64();
    lemma_pow2_adds(29, s);
    let q = pow2(s + 29);
    assert(m < 0x20_0000_0000_0000);
    assert(m * p < 0x100_0000 * q) by (nonlinear_arith)
        requires
            m < 0x20_0000_0000_0000,
            p > 0,
            q == 0x2000_0000 * p,
    ;
    if s + 29 < t {
        lemma_pow2_strictly_increases(s + 29, t);
    }
    if t > 925 {
        assert(t == s + 29);
        assert(m >= 0x10_0000_0000_0000);
        assert(0x80_0000 * q <= m * p) by (nonlinear_arith)
            requires
                m >= 0x10_0000_0000_0000,
                p > 0,
                q == 0x2000_0000 * p,
        ;
    }
}

/// A single-precision pattern of `steps` steps of 2 to the power `t` over the smallest single
/// stands for that number.
proof fn lemma_single_pattern(t: nat, steps: nat, r: Float32)
    requires
        steps <= 0x100_0000,
        t > 0 ==> steps >= 0x80_0000,
        r.bits % 0x8000_0000 == t * 0x80_0000 + steps,
    ensures
        r.units() == steps * pow2(t),
{
    let size = t * 0x80_0000 + steps;
    lemma2_to64();
    if steps < 0x80_0000 {
        assert(steps * pow2(0) == steps) by (nonlinear_arith)
            requires
                pow2(0) == 1,
        ;
    } else if steps < 0x100_0000 {
        assert(size / 0x80_0000 == t + 1 && size % 0x80_0000 == steps - 0x80_0000);
    } else {
        assert(size / 0x80_0000 == t + 2 && size % 0x80_0000 == 0);
        lemma_pow2_unfold((t + 1) as nat);
        let p = pow2(t);
        assert(0x80_0000 * (2 * p) == 0x100_0000 * p);
    }
}

/// A number becomes the nearest single-precision one, with its sign: where that is finite, it
/// is at most half a step of the single-precision numbers of its size away.
pub proof fn law_narrowing_is_to_the_nearest(x: Float64, step: nat)
    requires
        x.exponent() < 2047,
        x.narrowed().bits % 0x8000_0000 < 0x7F80_0000,
        step >= 925,
        x.units() < 0x100_0000 * pow2(step),
        step > 925 ==> 0x80_0000 * pow2(step) <= x.units(),
    ensures
        ({
            let off = 2 * (x.narrowed().units() * pow2(925) - x.units());
            -pow2(step) <= off <= pow2(step)
        }),
{
    lemma_single_step(x);
    let t = x.single_step();
    if step < t {
        lemma_pow2_unfold((step + 1) as nat);
        if step + 1 < t {
            lemma_pow2_strictly_increases(step + 1, t);
        }
    } else if t < step {
        lemma_pow2_unfold((t + 1) as nat);
        if t + 1 < step {
            lemma_pow2_strictly_increases(t + 1, step);
        }
    }
    assert(t == step);
    let d = pow2(step);
    lemma_pow2_pos(step);
    let steps = div_half_even(x.units(), d);
    law_rounding_is_to_the_nearest(x.units(), d);
    if step > 925 {
        lemma_div_half_even_bounds(x.units(), d, 0x80_0000, 0x100_0000);
    } else {
        assert(0 * d <= x.units());
        lemma_div_half_even_bounds(x.units(), d, 0, 0x100_0000);
    }
    let e = (step - 925) as nat;
    let r = x.narrowed();
    assert(x.single_magnitude() <= 0x7F80_0000);
    assert(r.bits % 0x8000_0000 == x.single_magnitude());
    assert(x.single_magnitude() == e * 0x80_0000 + steps);
    lemma_single_pattern(e, steps, r);
    lemma_pow2_adds(e, 925);
    let (pe, pu) = (pow2(e), pow2(925));
    assert(steps * pe * pu == steps * d) by (nonlinear_arith)
        requires
            d == pe * pu,
    ;
}

/// The sign of a number is kept; what is no number and what is infinite stays so.
pub proof fn law_narrowing_keeps_the_sign(x: Float64)
    ensures
        x.narrowed().bits >= 0x8000_0000 <==> x.negative(),
        x.narrowed().bits % 0x8000_0000 <= 0x7FC0_0000,
        x.is_nan() <==> x.narrowed().bits % 0x8000_0000 == 0x7FC0_0000,
        x.is_infinite() ==> x.narrowed().bits % 0x8000_0000 == 0x7F80_0000,
{
    assert(x.single_magnitude() <= 0x7FC0_0000);
}

/// A finite number becomes infinite exactly where it lies half a step or more beyond the largest
/// single-precision number.
pub proof fn law_narrowing_overflows_beyond_the_largest(x: Float64)
    requires
        x.exponent() < 2047,
    ensures
        x.narrowed().bits % 0x8000_0000 == 0x7F80_0000 <==> x.units() >= 0x1FF_FFFF * pow2(1177),
        x.narrowed().bits % 0x8000_0000 <= 0x7F80_0000,
{
    lemma_single_step(x);
    let (t, u) = (x.single_step(), x.units());
    let (d, half) = (pow2(t), pow2(1177));
    lemma_pow2_pos(t);
    lemma_pow2_pos(1177);
    let steps = div_half_even(u, d);
    assert(x.narrowed().bits % 0x8000_0000 == x.single_magnitude());
    if t > 925 {
        lemma_div_half_even_bounds(u, d, 0x80_0000, 0x100_0000);
    } else {
        assert(0 * d <= u);
        lemma_div_half_even_bounds(u, d, 0, 0x100_0000);
    }
    if t <= 1177 {
        if t < 1177 {
            lemma_pow2_strictly_increases(t, 1177);
        }
        assert(u < 0x1FF_FFFF * half);
    } else {
        lemma_pow2_unfold(1178);
        if t == 1178 {
            assert(d == 2 * half);
            let (q, r) = (u / d, u % d);
            lemma_fundamental_div_mod(u as int, d as int);
            assert(d * q == q * d) by (nonlinear_arith);
            assert(q < 0x100_0000) by (nonlinear_arith)
                requires
                    d > 0,
                    u == d * q + r,
                    0 <= r,
                    u < 0x100_0000 * d,
            ;
            if q < 0xFF_FFFF {
                assert(u < 0xFF_FFFF * d) by (nonlinear_arith)
                    requires
                        d > 0,
                        u == d * q + r,
                        r < d,
                        q + 1 <= 0xFF_FFFF,
                ;
            } else {
                assert(u == 0xFF_FFFF * d + r);
            }
        } else {
            lemma_pow2_unfold(1179);
            if t > 1179 {
                lemma_pow2_strictly_increases(1179, t);
            }
            assert(d >= 4 * half);
        }
    }
}

} // verus!
