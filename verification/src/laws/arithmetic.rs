//! What the operations on numbers come to.
use crate::double::{
    assemble, at_most, below, difference, larger, lemma_rounded_is_nearest,
    lemma_units_increase, less_than, one_in_units, opposite,
    product, quotient, rounded, sum, units, Double, INFINITE,
};
use crate::natural::lemma_two_to_positive;
use vstd::arithmetic::mul::lemma_mul_is_commutative;
use vstd::prelude::*;

verus! {

/// How far apart two integers are.
pub open spec fn apart(a: int, b: int) -> int {
    if a <= b {
        b - a
    } else {
        a - b
    }
}

/// No finite magnitude is nearer to a ratio than the one that it rounds to.
proof fn lemma_none_nearer(num: nat, den: nat, j: nat)
    requires
        den > 0,
        rounded(num, den) < INFINITE,
        j < INFINITE,
    ensures
        apart((units(rounded(num, den)) * den) as int, num as int) <= apart(
            (units(j) * den) as int,
            num as int,
        ),
{
    lemma_rounded_is_nearest(num, den);
    let k = rounded(num, den);
    let (u, w) = (units(k), units(j));
    if j > k {
        lemma_units_increase(k, k + 1);
        if j > k + 1 {
            lemma_units_increase(k + 1, j);
        }
        let x = units(k + 1);
        assert(u * den <= x * den <= w * den) by (nonlinear_arith)
            requires
                u <= x <= w,
        ;
        assert((u + x) * den == u * den + x * den) by (nonlinear_arith);
    } else if j < k {
        lemma_units_increase((k - 1) as nat, k);
        if j < k - 1 {
            lemma_units_increase(j, (k - 1) as nat);
        }
        let x = units((k - 1) as nat);
        assert(w * den <= x * den <= u * den) by (nonlinear_arith)
            requires
                w <= x <= u,
        ;
        assert((x + u) * den == x * den + u * den) by (nonlinear_arith);
    }
}

/// Where another magnitude is just as near, the even pattern is taken.
pub proof fn law_half_way_goes_to_the_even_pattern(num: nat, den: nat, j: nat)
    requires
        den > 0,
        rounded(num, den) < INFINITE,
        j < INFINITE,
        j != rounded(num, den),
        apart((units(rounded(num, den)) * den) as int, num as int) == apart(
            (units(j) * den) as int,
            num as int,
        ),
    ensures
        rounded(num, den) % 2 == 0,
{
    lemma_rounded_is_nearest(num, den);
    let k = rounded(num, den);
    let (u, w) = (units(k), units(j));
    if j > k {
        lemma_units_increase(k, k + 1);
        if j > k + 1 {
            lemma_units_increase(k + 1, j);
        }
        let x = units(k + 1);
        assert(u * den < x * den <= w * den) by (nonlinear_arith)
            requires
                u < x <= w,
                den > 0,
        ;
        assert((u + x) * den == u * den + x * den) by (nonlinear_arith);
    } else {
        lemma_units_increase((k - 1) as nat, k);
        if j < k - 1 {
            lemma_units_increase(j, (k - 1) as nat);
        }
        let x = units((k - 1) as nat);
        assert(w * den <= x * den < u * den) by (nonlinear_arith)
            requires
                w <= x < u,
                den > 0,
        ;
        assert((x + u) * den == x * den + u * den) by (nonlinear_arith);
    }
}

/// A ratio becomes infinite exactly from half way on between the largest
/// finite magnitude and the one that would follow it.
pub proof fn law_too_large_is_infinite(num: nat, den: nat)
    requires
        den > 0,
    ensures
        rounded(num, den) == INFINITE <==> (units((INFINITE - 1) as nat) + units(INFINITE as nat))
            * den <= 2 * num,
{
    lemma_rounded_is_nearest(num, den);
    let k = rounded(num, den);
    let top = INFINITE as nat;
    let y = units((top - 1) as nat) + units(top);
    if k < INFINITE {
        let x = units(k) + units(k + 1);
        if k < top - 1 {
            lemma_units_increase(k, (top - 1) as nat);
            lemma_units_increase(k + 1, top);
        }
        assert(k < top - 1 ==> x * den < y * den) by (nonlinear_arith)
            requires
                k < top - 1 ==> x < y,
                den > 0,
        ;
    }
}

/// No finite number is nearer to a ratio with a sign: `r` has the sign of the ratio.
pub proof fn lemma_none_nearer_signed(negative: bool, num: nat, den: nat, r: Double, d: Double)
    requires
        den > 0,
        r == assemble(negative, rounded(num, den)),
        r.finite(),
        d.finite(),
    ensures
        ({
            let v = if negative {
                -(num as int)
            } else {
                num as int
            };
            apart(r.value() * den, v) <= apart(d.value() * den, v)
        }),
{
    lemma_rounded_is_nearest(num, den);
    let k = rounded(num, den);
    assert(r.pattern() == k && r.negative() == negative);
    lemma_none_nearer(num, den, d.pattern());
    lemma_none_nearer(num, den, 0);
    let (u, w) = (units(k), units(d.pattern()));
    assert(0 * den == 0);
    assert((-(u as int)) * den == -(u * den)) by (nonlinear_arith);
    assert((-(w as int)) * den == -(w * den)) by (nonlinear_arith);
    assert(w * den >= 0) by (nonlinear_arith)
        requires
            w >= 0,
            den > 0,
    ;
}

/// No finite number is nearer to the exact sum than the sum that is given.
pub proof fn law_sum_is_the_nearest(a: Double, b: Double, d: Double)
    requires
        a.finite(),
        b.finite(),
        d.finite(),
        sum(a, b).finite(),
    ensures
        apart(sum(a, b).value(), a.value() + b.value()) <= apart(
            d.value(),
            a.value() + b.value(),
        ),
{
    let v = a.value() + b.value();
    if v < 0 {
        lemma_none_nearer_signed(true, (-v) as nat, 1, sum(a, b), d);
    } else if v > 0 {
        lemma_none_nearer_signed(false, v as nat, 1, sum(a, b), d);
    }
}

/// No finite number is nearer to the exact difference than the one that is
/// given.
pub proof fn law_difference_is_the_nearest(a: Double, b: Double, d: Double)
    requires
        a.finite(),
        b.finite(),
        d.finite(),
        difference(a, b).finite(),
    ensures
        apart(difference(a, b).value(), a.value() - b.value()) <= apart(
            d.value(),
            a.value() - b.value(),
        ),
{
    assert(opposite(b).pattern() == b.pattern());
    assert(opposite(b).value() == -b.value());
    law_sum_is_the_nearest(a, opposite(b), d);
}

/// No finite number is nearer to the exact product than the one that is given.
/// Values are in units, so a product of two is held against that many units
/// in one.
pub proof fn law_product_is_the_nearest(a: Double, b: Double, d: Double)
    requires
        a.finite(),
        b.finite(),
        d.finite(),
        product(a, b).finite(),
    ensures
        apart(product(a, b).value() * one_in_units(), a.value() * b.value()) <= apart(
            d.value() * one_in_units(),
            a.value() * b.value(),
        ),
{
    lemma_two_to_positive(1074);
    let (x, y) = (units(a.pattern()), units(b.pattern()));
    let negative = a.negative() != b.negative();
    lemma_none_nearer_signed(negative, x * y, one_in_units(), product(a, b), d);
    lemma_signs(x as int, y as int);
}

proof fn lemma_signs(x: int, y: int)
    ensures
        (-x) * y == -(x * y),
        x * (-y) == -(x * y),
        (-x) * (-y) == x * y,
{
    assert((-x) * y == -(x * y)) by (nonlinear_arith);
    assert(x * (-y) == -(x * y)) by (nonlinear_arith);
    assert((-x) * (-y) == x * y) by (nonlinear_arith);
}

/// No finite number, times the divisor, is nearer to the dividend than the
/// quotient that is given.
pub proof fn law_quotient_is_the_nearest(a: Double, b: Double, d: Double)
    requires
        a.finite(),
        b.finite(),
        !b.null(),
        d.finite(),
        quotient(a, b).finite(),
    ensures
        apart(quotient(a, b).value() * b.value(), a.value() * one_in_units()) <= apart(
            d.value() * b.value(),
            a.value() * one_in_units(),
        ),
{
    let (x, y, o) = (units(a.pattern()), units(b.pattern()), one_in_units());
    lemma_units_increase(0, b.pattern());
    let negative = a.negative() != b.negative();
    let q = quotient(a, b);
    lemma_none_nearer_signed(negative, x * o, y, q, d);
    lemma_signs(x as int, o as int);
    lemma_signs(q.value(), y as int);
    lemma_signs(d.value(), y as int);
}

/// What is not a number makes every result one that is none. Infinities add up
/// where they agree, and swallow what is finite.
pub proof fn law_what_is_not_finite_spreads(a: Double, b: Double)
    ensures
        a.not_a_number() || b.not_a_number() ==> sum(a, b).not_a_number() && product(
            a,
            b,
        ).not_a_number() && quotient(a, b).not_a_number(),
        a.infinite() && b.finite() ==> sum(a, b) == a && sum(b, a) == a,
        a.infinite() && b.infinite() ==> if a.negative() == b.negative() {
            sum(a, b) == a
        } else {
            sum(a, b).not_a_number()
        },
        a.infinite() && b.null() ==> product(a, b).not_a_number() && product(b, a).not_a_number(),
        a.infinite() && !b.null() && !b.not_a_number() ==> product(a, b).infinite() && product(
            a,
            b,
        ).negative() == (a.negative() != b.negative()),
        a.finite() && b.infinite() ==> quotient(a, b).null(),
        a.infinite() && b.infinite() ==> quotient(a, b).not_a_number(),
        a.null() && b.null() ==> quotient(a, b).not_a_number(),
        a.finite() && !a.null() && b.null() ==> quotient(a, b).infinite(),
        a.infinite() && b.finite() ==> quotient(a, b).infinite(),
{
}

/// Products and quotients of finite numbers have the sign that they should.
pub proof fn law_signs_multiply(a: Double, b: Double)
    requires
        a.finite(),
        b.finite(),
    ensures
        product(a, b).negative() == (a.negative() != b.negative()),
        !b.null() ==> quotient(a, b).negative() == (a.negative() != b.negative()),
{
    lemma_rounded_is_nearest(units(a.pattern()) * units(b.pattern()), one_in_units());
    lemma_rounded_is_nearest(units(a.pattern()) * one_in_units(), units(b.pattern()));
}

/// The order in which two numbers are added or multiplied makes no difference.
pub proof fn law_operands_commute(a: Double, b: Double)
    requires
        !a.not_a_number(),
        !b.not_a_number(),
    ensures
        product(a, b) == product(b, a),
        a.finite() && b.finite() ==> sum(a, b) == sum(b, a),
{
    lemma_mul_is_commutative(units(a.pattern()) as int, units(b.pattern()) as int);
}

/// A gain has the sign of the move: it is not negative where the price is not
/// below the entry, nor above zero where it is not above.
pub proof fn law_difference_has_the_sign_of_the_move(a: Double, b: Double)
    requires
        a.finite(),
        b.finite(),
    ensures
        a.value() > b.value() ==> !difference(a, b).negative(),
        a.value() < b.value() ==> difference(a, b).negative(),
        a.value() == b.value() ==> difference(a, b).null(),
{
    assert(opposite(b).pattern() == b.pattern());
    assert(opposite(b).value() == -b.value());
    let v = a.value() - b.value();
    if v < 0 {
        lemma_rounded_is_nearest((-v) as nat, 1);
    } else if v > 0 {
        lemma_rounded_is_nearest(v as nat, 1);
    }
}


/// The larger of two numbers is one of them and not below either; where one is
/// no number it is the other.
pub proof fn law_larger_is_an_upper_bound(a: Double, b: Double)
    ensures
        !a.not_a_number() && !b.not_a_number() ==> {
            &&& larger(a, b) == a || larger(a, b) == b
            &&& at_most(a, larger(a, b))
            &&& at_most(b, larger(a, b))
        },
        a.not_a_number() ==> larger(a, b) == b,
        b.not_a_number() && !a.not_a_number() ==> larger(a, b) == a,
{
}

/// The next smaller number is smaller, and no number is between.
pub proof fn law_next_smaller_is_next(d: Double, other: Double)
    requires
        d.finite(),
        !other.not_a_number(),
    ensures
        less_than(below(d), d),
        less_than(other, d) ==> at_most(other, below(d)),
{
}

} // verus!
