//! IEEE 754 binary64 numbers, given by their bits, with exact contracts.
//!
//! A finite magnitude is an integer multiple of the smallest subnormal, two to
//! the power -1074: [`units`] says which multiple. An operation computes its
//! result exactly, over naturals, and rounds once, to nearest with ties to
//! even.
use crate::natural::{lemma_two_to_positive, two_to, Natural};
use vstd::prelude::*;

verus! {

/// The pattern of infinity: magnitudes below it are finite, above it are NaN.
pub const INFINITE: u64 = 0x7ff0_0000_0000_0000;

/// The bit that makes a number negative.
pub const SIGN: u64 = 0x8000_0000_0000_0000;

/// The quiet NaN that the operations return.
pub const NAN_BITS: u64 = 0x7ff8_0000_0000_0000;

/// A binary64 number.
#[derive(Debug, Clone, Copy)]
pub struct Double {
    /// Sign, biased exponent and fraction, as IEEE 754 lays them out.
    pub bits: u64,
}

impl View for Double {
    type V = Double;

    open spec fn view(&self) -> Double {
        *self
    }
}

/// How many times the smallest subnormal the magnitude with pattern `k` is.
///
/// At [`INFINITE`] this is the magnitude that follows the largest finite one.
pub open spec fn units(k: nat) -> nat {
    if k < 0x20_0000_0000_0000 {
        k
    } else {
        (k % 0x10_0000_0000_0000 + 0x10_0000_0000_0000) * two_to(
            (k / 0x10_0000_0000_0000 - 1) as nat,
        )
    }
}

/// Whether `k` is the pattern nearest to `num / den` units, the even one of
/// two that are equally near.
pub open spec fn nearest(num: nat, den: nat, k: nat) -> bool {
    &&& k <= INFINITE
    &&& k < INFINITE ==> {
        let above = (units(k) + units(k + 1)) * den;
        2 * num < above || (2 * num == above && k % 2 == 0)
    }
    &&& k > 0 ==> {
        let below = (units((k - 1) as nat) + units(k)) * den;
        below < 2 * num || (below == 2 * num && k % 2 == 0)
    }
}

/// The pattern that `num / den` units round to.
pub open spec fn rounded(num: nat, den: nat) -> nat {
    choose|k: nat| nearest(num, den, k)
}

/// Units in one: two to the power 1074.
pub open spec fn one_in_units() -> nat {
    two_to(1074)
}

/// The number with this sign and magnitude pattern.
pub open spec fn assemble(negative: bool, k: nat) -> Double {
    Double {
        bits: if negative {
            (k + SIGN) as u64
        } else {
            k as u64
        },
    }
}

/// The NaN that the operations return.
pub open spec fn nan() -> Double {
    Double { bits: NAN_BITS }
}

/// Positive zero.
pub open spec fn zero() -> Double {
    Double { bits: 0 }
}

impl Double {
    /// Whether the sign bit is set.
    pub open spec fn negative(self) -> bool {
        self.bits >= SIGN
    }

    /// The bits below the sign bit.
    pub open spec fn pattern(self) -> nat {
        if self.negative() {
            (self.bits - SIGN) as nat
        } else {
            self.bits as nat
        }
    }

    /// Neither infinite nor NaN.
    pub open spec fn finite(self) -> bool {
        self.pattern() < INFINITE
    }

    /// Positive or negative infinity.
    pub open spec fn infinite(self) -> bool {
        self.pattern() == INFINITE
    }

    /// Not a number.
    pub open spec fn not_a_number(self) -> bool {
        self.pattern() > INFINITE
    }

    /// Positive or negative zero.
    pub open spec fn null(self) -> bool {
        self.pattern() == 0
    }

    /// The value of a finite number, in units.
    pub open spec fn value(self) -> int {
        if self.negative() {
            -(units(self.pattern()) as int)
        } else {
            units(self.pattern()) as int
        }
    }

    /// A key that orders numbers as their values do.
    pub open spec fn rank(self) -> int {
        if self.negative() {
            -(self.pattern() as int)
        } else {
            self.pattern() as int
        }
    }
}

/// `a < b`.
pub open spec fn less_than(a: Double, b: Double) -> bool {
    !a.not_a_number() && !b.not_a_number() && a.rank() < b.rank()
}

/// `a <= b`.
pub open spec fn at_most(a: Double, b: Double) -> bool {
    !a.not_a_number() && !b.not_a_number() && a.rank() <= b.rank()
}

/// `d > 0`.
pub open spec fn positive(d: Double) -> bool {
    less_than(zero(), d)
}

/// `d` with the other sign.
pub open spec fn opposite(d: Double) -> Double {
    assemble(!d.negative(), d.pattern())
}

/// `a + b`.
pub open spec fn sum(a: Double, b: Double) -> Double {
    if a.not_a_number() || b.not_a_number() {
        nan()
    } else if a.infinite() {
        if b.infinite() && a.negative() != b.negative() {
            nan()
        } else {
            a
        }
    } else if b.infinite() {
        b
    } else {
        let v = a.value() + b.value();
        if v == 0 {
            assemble(a.negative() && b.negative(), 0)
        } else if v < 0 {
            assemble(true, rounded((-v) as nat, 1))
        } else {
            assemble(false, rounded(v as nat, 1))
        }
    }
}

/// `a - b`.
pub open spec fn difference(a: Double, b: Double) -> Double {
    sum(a, opposite(b))
}

/// `a * b`.
pub open spec fn product(a: Double, b: Double) -> Double {
    let negative = a.negative() != b.negative();
    if a.not_a_number() || b.not_a_number() {
        nan()
    } else if a.infinite() || b.infinite() {
        if a.null() || b.null() {
            nan()
        } else {
            assemble(negative, INFINITE as nat)
        }
    } else {
        assemble(negative, rounded(units(a.pattern()) * units(b.pattern()), one_in_units()))
    }
}

/// `a / b`.
pub open spec fn quotient(a: Double, b: Double) -> Double {
    let negative = a.negative() != b.negative();
    if a.not_a_number() || b.not_a_number() {
        nan()
    } else if a.infinite() {
        if b.infinite() {
            nan()
        } else {
            assemble(negative, INFINITE as nat)
        }
    } else if b.infinite() {
        assemble(negative, 0)
    } else if b.null() {
        if a.null() {
            nan()
        } else {
            assemble(negative, INFINITE as nat)
        }
    } else {
        assemble(negative, rounded(units(a.pattern()) * one_in_units(), units(b.pattern())))
    }
}

/// The magnitude, in ones, of the largest integer that is at most `d`.
pub open spec fn floor_magnitude(d: Double) -> nat {
    let m = units(d.pattern());
    if d.negative() {
        (m + one_in_units() - 1) as nat / one_in_units()
    } else {
        m / one_in_units()
    }
}

/// The largest integer that is at most `d`; `d` itself where it is not finite.
pub open spec fn floor_of(d: Double) -> Double {
    if !d.finite() {
        d
    } else {
        assemble(d.negative(), rounded(floor_magnitude(d) * one_in_units(), 1))
    }
}

/// The next smaller number; `d` itself where there is none.
pub open spec fn below(d: Double) -> Double {
    if d.not_a_number() || (d.infinite() && d.negative()) {
        d
    } else if d.negative() {
        assemble(true, d.pattern() + 1)
    } else if d.null() {
        assemble(true, 1)
    } else {
        assemble(false, (d.pattern() - 1) as nat)
    }
}

/// The larger of `a` and `b`; the other one where one is NaN.
pub open spec fn larger(a: Double, b: Double) -> Double {
    if a.not_a_number() {
        b
    } else if less_than(a, b) {
        b
    } else {
        a
    }
}

/// `r * a^n`, by squaring, each product rounded.
pub open spec fn power_from(r: Double, a: Double, n: nat) -> Double
    decreases n,
{
    let next = if n % 2 == 1 {
        product(r, a)
    } else {
        r
    };
    if n / 2 == 0 {
        next
    } else {
        power_from(next, product(a, a), n / 2)
    }
}

/// The number one.
pub open spec fn one() -> Double {
    Double { bits: 0x3ff0_0000_0000_0000 }
}

/// The number ten.
pub open spec fn ten() -> Double {
    Double { bits: 0x4024_0000_0000_0000 }
}

/// The number one hundred.
pub open spec fn hundred() -> Double {
    Double { bits: 0x4059_0000_0000_0000 }
}

/// Ten to the power `places`, which counts as negative from 2^31 on.
pub open spec fn ten_power(places: u32) -> Double {
    if places < 0x8000_0000 {
        power_from(one(), ten(), places as nat)
    } else {
        quotient(one(), power_from(one(), ten(), (0x1_0000_0000 - places) as nat))
    }
}

/// The distance, in units, from the magnitude with pattern `k` to the next.
spec fn gap(k: nat) -> nat {
    if k < 0x20_0000_0000_0000 {
        1
    } else {
        two_to((k / 0x10_0000_0000_0000 - 1) as nat)
    }
}

proof fn lemma_units_step(k: nat)
    ensures
        units(k + 1) == units(k) + gap(k),
        gap(k) >= 1,
{
    let b: nat = 0x10_0000_0000_0000;
    if k + 1 < 0x20_0000_0000_0000 {
    } else if k + 1 == 0x20_0000_0000_0000 {
        assert((k + 1) / b == 2 && (k + 1) % b == 0);
        assert(two_to(1) == 2) by {
            reveal_with_fuel(two_to, 2);
        }
        assert(units(k + 1) == (0 + b) * two_to(1));
    } else {
        let e = (k / b - 1) as nat;
        lemma_two_to_positive(e);
        let t = two_to(e);
        if k % b == b - 1 {
            assert((k + 1) / b == k / b + 1 && (k + 1) % b == 0);
            assert(two_to((e + 1) as nat) == 2 * t);
            assert(units(k + 1) == (0 + b) * two_to(e + 1));
            assert(units(k) == ((b - 1) as nat + b) * t);
            assert(b * (2 * t) == (b - 1 + b) * t + t) by (nonlinear_arith);
        } else {
            assert((k + 1) / b == k / b && (k + 1) % b == k % b + 1);
            let f = k % b;
            assert(units(k + 1) == (f + 1 + b) * t);
            assert(units(k) == (f + b) * t);
            assert((f + 1 + b) * t == (f + b) * t + t) by (nonlinear_arith);
        }
    }
}

/// A larger pattern is a larger magnitude.
pub proof fn lemma_units_increase(i: nat, j: nat)
    requires
        i < j,
    ensures
        units(i) < units(j),
    decreases j - i,
{
    lemma_units_step((j - 1) as nat);
    if i + 1 < j {
        lemma_units_increase(i, (j - 1) as nat);
    }
}

/// At most one pattern is the nearest.
pub proof fn lemma_nearest_is_unique(num: nat, den: nat, i: nat, j: nat)
    requires
        den > 0,
        nearest(num, den, i),
        nearest(num, den, j),
    ensures
        i == j,
{
    lemma_nearest_not_below(num, den, i, j);
    lemma_nearest_not_below(num, den, j, i);
}

proof fn lemma_nearest_not_below(num: nat, den: nat, i: nat, j: nat)
    requires
        den > 0,
        nearest(num, den, i),
        nearest(num, den, j),
    ensures
        j <= i,
{
    let x = units(i) + units(i + 1);
    let y = units((j - 1) as nat) + units(j);
    if i + 1 < j {
        lemma_units_increase(i, (j - 1) as nat);
        lemma_units_increase(i + 1, j);
        assert(x * den < y * den) by (nonlinear_arith)
            requires
                x < y,
                den > 0,
        ;
    }
}

/// A pattern known to be nearest is what the ratio rounds to.
pub proof fn lemma_rounded_is(num: nat, den: nat, k: nat)
    requires
        den > 0,
        nearest(num, den, k),
    ensures
        rounded(num, den) == k,
{
    lemma_nearest_is_unique(num, den, k, rounded(num, den));
}

/// A ratio that is exactly some magnitude rounds to it.
pub proof fn lemma_rounded_exact(num: nat, den: nat, k: nat)
    requires
        den > 0,
        k <= INFINITE,
        num == units(k) * den,
    ensures
        rounded(num, den) == k,
{
    let u = units(k);
    lemma_units_increase(k, k + 1);
    let v = units(k + 1);
    assert(2 * (u * den) < (u + v) * den) by (nonlinear_arith)
        requires
            u < v,
            den > 0,
    ;
    if k > 0 {
        lemma_units_increase((k - 1) as nat, k);
        let t = units((k - 1) as nat);
        assert((t + u) * den < 2 * (u * den)) by (nonlinear_arith)
            requires
                t < u,
                den > 0,
        ;
    }
    lemma_rounded_is(num, den, k);
}

/// Whether `num / den` units are at least half way from the pattern before `k`
/// to `k`, ties going to the even one.
spec fn reaches(num: nat, den: nat, k: nat) -> bool {
    k > 0 ==> {
        let below = (units((k - 1) as nat) + units(k)) * den;
        below < 2 * num || (below == 2 * num && k % 2 == 0)
    }
}

proof fn lemma_some_nearest(num: nat, den: nat, top: nat) -> (k: nat)
    requires
        top <= INFINITE,
        top < INFINITE ==> !reaches(num, den, top + 1),
    ensures
        nearest(num, den, k),
    decreases top,
{
    if reaches(num, den, top) {
        top
    } else {
        lemma_some_nearest(num, den, (top - 1) as nat)
    }
}

/// Some pattern is the nearest, and it is what the ratio rounds to.
pub proof fn lemma_rounded_is_nearest(num: nat, den: nat)
    ensures
        nearest(num, den, rounded(num, den)),
        rounded(num, den) <= INFINITE,
{
    let k = lemma_some_nearest(num, den, INFINITE as nat);
    assert(nearest(num, den, k));
}

/// Rounding keeps the order: a ratio that is not larger does not round to a
/// larger magnitude.
pub proof fn lemma_rounding_is_monotone(num: nat, den: nat, other_num: nat, other_den: nat)
    requires
        den > 0,
        other_den > 0,
        num * other_den <= other_num * den,
    ensures
        rounded(num, den) <= rounded(other_num, other_den),
{
    lemma_rounded_is_nearest(num, den);
    lemma_rounded_is_nearest(other_num, other_den);
    let i = rounded(num, den);
    let j = rounded(other_num, other_den);
    if i > j {
        let x = units((i - 1) as nat) + units(i);
        let y = units(j) + units(j + 1);
        if i > j + 1 {
            lemma_units_increase(j, (i - 1) as nat);
            lemma_units_increase(j + 1, i);
        }
        assert(x * den <= 2 * num && 2 * other_num <= y * other_den);
        assert(x * (den * other_den) <= y * (den * other_den)) by (nonlinear_arith)
            requires
                x * den <= 2 * num,
                2 * other_num <= y * other_den,
                num * other_den <= other_num * den,
                den > 0,
                other_den > 0,
        ;
        assert(x <= y) by (nonlinear_arith)
            requires
                x * (den * other_den) <= y * (den * other_den),
                den > 0,
                other_den > 0,
        ;
        assert(i == j + 1 && x == y);
        assert(2 * num <= x * den && y * other_den <= 2 * other_num) by (nonlinear_arith)
            requires
                x == y,
                x * den <= 2 * num,
                2 * other_num <= y * other_den,
                num * other_den <= other_num * den,
                den > 0,
                other_den > 0,
        ;
        assert(i % 2 == 0 && j % 2 == 0);
    }
}

/// [`units`] of a pattern.
pub fn units_of(k: u64) -> (r: Natural)
    requires
        k <= INFINITE + 1,
    ensures
        r@ == units(k as nat),
{
    if k < 0x20_0000_0000_0000 {
        Natural::from_u64(k)
    } else {
        let e: u32 = (k / 0x10_0000_0000_0000 - 1) as u32;
        Natural::from_u64(k % 0x10_0000_0000_0000 + 0x10_0000_0000_0000).shl(e)
    }
}

/// The pattern that `num / den` units round to.
pub fn round_ratio(num: &Natural, den: &Natural) -> (k: u64)
    requires
        den@ > 0,
    ensures
        nearest(num@, den@, k as nat),
        k as nat == rounded(num@, den@),
        k <= INFINITE,
{
    let mut lo: u64 = 0;
    let mut hi: u64 = INFINITE + 1;
    assert(0 * den@ == 0) by (nonlinear_arith);
    while hi - lo > 1
        invariant
            lo < hi <= INFINITE + 1,
            units(lo as nat) * den@ <= num@,
            hi <= INFINITE ==> num@ < units(hi as nat) * den@,
        decreases hi - lo,
    {
        let mid: u64 = lo + (hi - lo) / 2;
        if num.less(&units_of(mid).times(den)) {
            hi = mid;
        } else {
            lo = mid;
        }
    }
    proof {
        if lo > 0 {
            lemma_units_increase((lo - 1) as nat, lo as nat);
            let t = units((lo - 1) as nat);
            let u = units(lo as nat);
            let d = den@;
            assert((t + u) * d < 2 * (u * d)) by (nonlinear_arith)
                requires
                    t < u,
                    d > 0,
            ;
        }
    }
    if lo == INFINITE {
        proof {
            lemma_rounded_is(num@, den@, lo as nat);
        }
        return lo;
    }
    let twice: Natural = num.mul_small(2, 0);
    let middle: Natural = units_of(lo).plus(&units_of(lo + 1)).times(den);
    proof {
        let u = units(lo as nat);
        let v = units(lo as nat + 1);
        let w = units(lo as nat + 2);
        let d = den@;
        lemma_units_increase(lo as nat, lo as nat + 1);
        lemma_units_increase(lo as nat + 1, lo as nat + 2);
        assert(2 * (v * d) < (v + w) * d) by (nonlinear_arith)
            requires
                v < w,
                d > 0,
        ;
    }
    let up: bool = if twice.less(&middle) {
        false
    } else if middle.less(&twice) {
        true
    } else {
        lo % 2 == 1
    };
    let k: u64 = if up {
        lo + 1
    } else {
        lo
    };
    proof {
        lemma_rounded_is(num@, den@, k as nat);
    }
    k
}

fn build(negative: bool, k: u64) -> (r: Double)
    requires
        k <= INFINITE,
    ensures
        r == assemble(negative, k as nat),
{
    if negative {
        Double { bits: k + SIGN }
    } else {
        Double { bits: k }
    }
}

fn one_natural() -> (r: Natural)
    ensures
        r@ == 1,
{
    Natural::from_u64(1)
}

fn scale_natural() -> (r: Natural)
    ensures
        r@ == one_in_units(),
        r@ > 0,
{
    proof {
        lemma_two_to_positive(1074);
    }
    one_natural().shl(1074)
}

impl Double {
    /// The number with these bits.
    pub fn from_bits(bits: u64) -> (r: Double)
        ensures
            r == (Double { bits }),
    {
        Double { bits }
    }

    /// Its bits.
    pub fn to_bits(self) -> (bits: u64)
        ensures
            bits == self.bits,
    {
        self.bits
    }

    /// The number one.
    pub fn one() -> (r: Double)
        ensures
            r == one(),
    {
        Double { bits: 0x3ff0_0000_0000_0000 }
    }

    /// The number one hundred.
    pub fn hundred() -> (r: Double)
        ensures
            r == hundred(),
    {
        Double { bits: 0x4059_0000_0000_0000 }
    }

    /// Positive zero.
    pub fn zero() -> (r: Double)
        ensures
            r == zero(),
    {
        Double { bits: 0 }
    }

    fn is_negative(self) -> (r: bool)
        ensures
            r == self.negative(),
    {
        self.bits >= SIGN
    }

    fn magnitude(self) -> (k: u64)
        ensures
            k as nat == self.pattern(),
    {
        if self.bits >= SIGN {
            self.bits - SIGN
        } else {
            self.bits
        }
    }

    fn is_nan(self) -> (r: bool)
        ensures
            r == self.not_a_number(),
    {
        self.magnitude() > INFINITE
    }

    /// `self < other`.
    pub fn lt(self, other: Double) -> (r: bool)
        ensures
            r == less_than(self, other),
    {
        if self.is_nan() || other.is_nan() {
            return false;
        }
        let x: u64 = self.magnitude();
        let y: u64 = other.magnitude();
        if self.is_negative() {
            if other.is_negative() {
                y < x
            } else {
                x > 0 || y > 0
            }
        } else {
            if other.is_negative() {
                false
            } else {
                x < y
            }
        }
    }

    /// `self <= other`.
    pub fn le(self, other: Double) -> (r: bool)
        ensures
            r == at_most(self, other),
    {
        if self.is_nan() || other.is_nan() {
            return false;
        }
        !other.lt(self)
    }

    /// `self > 0`.
    pub fn is_positive(self) -> (r: bool)
        ensures
            r == positive(self),
    {
        Double::zero().lt(self)
    }

    /// `-self`.
    fn flipped(self) -> (r: Double)
        ensures
            r == opposite(self),
    {
        if self.bits >= SIGN {
            Double { bits: self.bits - SIGN }
        } else {
            Double { bits: self.bits + SIGN }
        }
    }

    /// `self + other`.
    pub fn plus(self, other: Double) -> (r: Double)
        ensures
            r == sum(self, other),
    {
        if self.is_nan() || other.is_nan() {
            return Double { bits: NAN_BITS };
        }
        let x: u64 = self.magnitude();
        let y: u64 = other.magnitude();
        let xn: bool = self.is_negative();
        let yn: bool = other.is_negative();
        if x == INFINITE {
            if y == INFINITE && xn != yn {
                return Double { bits: NAN_BITS };
            }
            return self;
        }
        if y == INFINITE {
            return other;
        }
        let ux: Natural = units_of(x);
        let uy: Natural = units_of(y);
        let one: Natural = one_natural();
        if xn == yn {
            let total: Natural = ux.plus(&uy);
            let k: u64 = round_ratio(&total, &one);
            proof {
                if total@ == 0 {
                    lemma_rounded_exact(0, 1, 0);
                }
            }
            build(xn, k)
        } else if ux.less(&uy) {
            build(yn, round_ratio(&uy.minus(&ux), &one))
        } else if uy.less(&ux) {
            build(xn, round_ratio(&ux.minus(&uy), &one))
        } else {
            Double { bits: 0 }
        }
    }

    /// `self - other`.
    pub fn minus(self, other: Double) -> (r: Double)
        ensures
            r == difference(self, other),
    {
        self.plus(other.flipped())
    }

    /// `self * other`.
    pub fn times(self, other: Double) -> (r: Double)
        ensures
            r == product(self, other),
    {
        if self.is_nan() || other.is_nan() {
            return Double { bits: NAN_BITS };
        }
        let x: u64 = self.magnitude();
        let y: u64 = other.magnitude();
        let negative: bool = self.is_negative() != other.is_negative();
        if x == INFINITE || y == INFINITE {
            if x == 0 || y == 0 {
                return Double { bits: NAN_BITS };
            }
            return build(negative, INFINITE);
        }
        build(negative, round_ratio(&units_of(x).times(&units_of(y)), &scale_natural()))
    }

    /// `self / other`.
    pub fn over(self, other: Double) -> (r: Double)
        ensures
            r == quotient(self, other),
    {
        if self.is_nan() || other.is_nan() {
            return Double { bits: NAN_BITS };
        }
        let x: u64 = self.magnitude();
        let y: u64 = other.magnitude();
        let negative: bool = self.is_negative() != other.is_negative();
        if x == INFINITE {
            if y == INFINITE {
                return Double { bits: NAN_BITS };
            }
            return build(negative, INFINITE);
        }
        if y == INFINITE {
            return build(negative, 0);
        }
        if y == 0 {
            if x == 0 {
                return Double { bits: NAN_BITS };
            }
            return build(negative, INFINITE);
        }
        proof {
            lemma_units_increase(0, y as nat);
        }
        build(negative, round_ratio(&units_of(x).times(&scale_natural()), &units_of(y)))
    }

    /// The next smaller number.
    pub fn next_below(self) -> (r: Double)
        ensures
            r == below(self),
    {
        let x: u64 = self.magnitude();
        let negative: bool = self.is_negative();
        if x > INFINITE || (x == INFINITE && negative) {
            self
        } else if negative {
            Double { bits: self.bits + 1 }
        } else if x == 0 {
            Double { bits: SIGN + 1 }
        } else {
            Double { bits: self.bits - 1 }
        }
    }

    /// The largest integer that is at most `self`.
    pub fn floor(self) -> (r: Double)
        ensures
            r == floor_of(self),
    {
        let x: u64 = self.magnitude();
        if x >= INFINITE {
            return self;
        }
        let negative: bool = self.is_negative();
        let scale: Natural = scale_natural();
        let padded: Natural = if negative {
            units_of(x).plus(&scale.minus(&one_natural()))
        } else {
            units_of(x)
        };
        let whole: Natural = padded.shr(1074);
        build(negative, round_ratio(&whole.times(&scale), &one_natural()))
    }

    /// The larger of two numbers; the other one where one is NaN.
    pub fn max(self, other: Double) -> (r: Double)
        ensures
            r == larger(self, other),
    {
        if self.is_nan() || self.lt(other) {
            other
        } else {
            self
        }
    }

    /// Ten to the power `places`, which counts as negative from 2^31 on.
    pub fn power_of_ten(places: u32) -> (r: Double)
        ensures
            r == ten_power(places),
    {
        let recip: bool = places >= 0x8000_0000;
        let mut n: u32 = if recip {
            0xffff_ffff - places + 1
        } else {
            places
        };
        let ghost count = n as nat;
        let mut r: Double = Double { bits: 0x3ff0_0000_0000_0000 };
        let mut a: Double = Double { bits: 0x4024_0000_0000_0000 };
        while n / 2 != 0
            invariant
                power_from(r, a, n as nat) == power_from(one(), ten(), count),
            decreases n,
        {
            if n % 2 == 1 {
                r = r.times(a);
            }
            a = a.times(a);
            n = n / 2;
        }
        if n % 2 == 1 {
            r = r.times(a);
        }
        if recip {
            Double { bits: 0x3ff0_0000_0000_0000 }.over(r)
        } else {
            r
        }
    }
}

} // verus!
