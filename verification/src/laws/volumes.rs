//! Volumes, prices and minimums.
use crate::double::{
    at_most, below, difference, floor_magnitude, floor_of, hundred, lemma_rounded_exact,
    lemma_rounded_is_nearest, lemma_rounding_is_monotone, lemma_units_increase, less_than, one,
    one_in_units, opposite, positive, power_from, product, quotient, rounded, sum, ten, ten_power,
    units, zero, Double, INFINITE,
};
use crate::entry::crossing_limit;
use crate::error::ErrorView;
use crate::laws::numbers::{
    law_comparison_covers_all_numbers, law_floor_is_exact, law_order_is_by_value,
    law_power_of_ten_is_exact, lemma_one_and_ten,
    lemma_representable,
};
use crate::natural::{lemma_ten_to_positive, lemma_two_to_positive, ten_to};
use crate::text::{canonical, slash_free};
use crate::trader::{slippage_of, TraderView};
use crate::types::Side;
use vstd::arithmetic::div_mod::lemma_fundamental_div_mod;
use vstd::arithmetic::mul::{lemma_mul_inequality, lemma_mul_is_commutative};
use vstd::prelude::*;

verus! {

proof fn lemma_power_sign(r: Double, a: Double, n: nat)
    requires
        !r.negative(),
        !a.negative(),
    ensures
        !power_from(r, a, n).negative(),
    decreases n,
{
    lemma_product_sign(r, a);
    lemma_product_sign(a, a);
    let next = if n % 2 == 1 {
        product(r, a)
    } else {
        r
    };
    if n / 2 > 0 {
        lemma_power_sign(next, product(a, a), n / 2);
    }
}

proof fn lemma_product_sign(a: Double, b: Double)
    requires
        !a.negative(),
        !b.negative(),
    ensures
        !product(a, b).negative(),
{
    lemma_rounded_is_nearest(units(a.pattern()) * units(b.pattern()), one_in_units());
}

proof fn lemma_ten_power_sign(places: u32)
    ensures
        !ten_power(places).negative(),
{
    if places < 0x8000_0000 {
        lemma_power_sign(one(), ten(), places as nat);
    } else {
        let n = (0x1_0000_0000 - places) as nat;
        let b = power_from(one(), ten(), n);
        lemma_power_sign(one(), ten(), n);
        lemma_rounded_is_nearest(units(one().pattern()) * one_in_units(), units(b.pattern()));
    }
}

proof fn lemma_units_of_nonzero(k: nat)
    requires
        k > 0,
    ensures
        units(k) > 0,
{
    lemma_units_increase(0, k);
}

/// Whether the power of ten for this many decimal places is a finite number
/// and not zero. It is up to 22 places, where it is even exact.
pub open spec fn usable_places(places: u32) -> bool {
    places <= 22 || (ten_power(places).finite() && !ten_power(places).null())
}

/// Whether `r` is what a whole number of lots, not below zero, over the power
/// of ten for this many decimal places comes to.
pub open spec fn whole_lots(r: Double, places: u32) -> bool {
    exists|lots: Double|
        {
            &&& lots.finite()
            &&& lots.value() >= 0
            &&& lots.value() % (one_in_units() as int) == 0
            &&& r == #[trigger] quotient(lots, ten_power(places))
        }
}

proof fn lemma_usable_factor(places: u32)
    requires
        usable_places(places),
    ensures
        ten_power(places).finite(),
        !ten_power(places).null(),
        !ten_power(places).negative(),
{
    lemma_ten_power_sign(places);
    if places <= 22 {
        law_power_of_ten_is_exact(places);
        lemma_ten_to_positive(places as nat);
        lemma_two_to_positive(1074);
        let (a, b) = (ten_to(places as nat), one_in_units());
        assert(a * b > 0) by (nonlinear_arith)
            requires
                a > 0,
                b > 0,
        ;
    }
}

/// Rounding to an integer keeps the sign and goes down.
proof fn lemma_floor_goes_down(d: Double)
    requires
        d.finite(),
    ensures
        floor_of(d).negative() == d.negative(),
        floor_of(d).pattern() <= INFINITE,
        if d.negative() {
            d.pattern() <= floor_of(d).pattern()
        } else {
            floor_of(d).pattern() <= d.pattern()
        },
{
    let p = d.pattern();
    let o = one_in_units();
    let whole = floor_magnitude(d);
    lemma_two_to_positive(1074);
    lemma_rounded_is_nearest(whole * o, 1);
    lemma_rounded_exact(units(p), 1, p);
    if d.negative() {
        assert(units(p) <= whole * o) by (nonlinear_arith)
            requires
                whole == (units(p) + o - 1) as nat / o,
                o > 0,
        ;
        lemma_rounding_is_monotone(units(p), 1, whole * o, 1);
    } else {
        assert(whole * o <= units(p)) by (nonlinear_arith)
            requires
                whole == units(p) / o,
                o > 0,
        ;
        lemma_rounding_is_monotone(whole * o, 1, units(p), 1);
    }
}

/// Where `k` lots are not more than a volume of `v`, exactly, they are not
/// more either when the division rounds; and the other way round.
proof fn lemma_lots_divide(k: nat, v: nat, f: nat)
    requires
        f > 0,
        k < INFINITE,
        v < INFINITE,
    ensures
        rounded(units(k) * one_in_units(), f) <= INFINITE,
        units(k) * one_in_units() <= units(v) * f ==> rounded(units(k) * one_in_units(), f) <= v,
        units(k) * one_in_units() >= units(v) * f ==> rounded(units(k) * one_in_units(), f) >= v,
{
    let o = one_in_units();
    let (x, y) = (units(k) * o, units(v) * f);
    lemma_rounded_is_nearest(x, f);
    lemma_rounded_exact(y, f, v);
    if x <= y {
        assert(x * f <= y * f) by (nonlinear_arith)
            requires
                x <= y,
        ;
        lemma_rounding_is_monotone(x, f, y, f);
    }
    if x >= y {
        assert(x * f >= y * f) by (nonlinear_arith)
            requires
                x >= y,
        ;
        lemma_rounding_is_monotone(y, f, x, f);
    }
}

/// What `num` over one rounds to is `k` or beyond, on the side of `num`.
proof fn lemma_scaled_side(num: nat, k: nat)
    requires
        k <= INFINITE,
    ensures
        units(k) * one_in_units() <= num ==> k <= rounded(num, one_in_units()),
        num <= units(k) * one_in_units() ==> rounded(num, one_in_units()) <= k,
{
    let o = one_in_units();
    lemma_two_to_positive(1074);
    let x = units(k) * o;
    lemma_rounded_exact(x, o, k);
    if x <= num {
        assert(x * o <= num * o) by (nonlinear_arith)
            requires
                x <= num,
        ;
        lemma_rounding_is_monotone(x, o, num, o);
    }
    if num <= x {
        assert(num * o <= x * o) by (nonlinear_arith)
            requires
                num <= x,
        ;
        lemma_rounding_is_monotone(num, o, x, o);
    }
}

/// The magnitude before the one that `num` over one rounds to is below it, the
/// one after is above it.
proof fn lemma_scaled_neighbours(num: nat)
    ensures
        ({
            let k = rounded(num, one_in_units());
            &&& k > 0 ==> units((k - 1) as nat) * one_in_units() <= num
            &&& k < INFINITE ==> num <= units(k + 1) * one_in_units()
        }),
{
    let o = one_in_units();
    lemma_rounded_is_nearest(num, o);
    let k = rounded(num, o);
    let (u, w) = (units(k), units(k + 1));
    lemma_units_increase(k, k + 1);
    if k > 0 {
        let t = units((k - 1) as nat);
        lemma_units_increase((k - 1) as nat, k);
        assert(t * o <= num) by (nonlinear_arith)
            requires
                (t + u) * o <= 2 * num,
                t < u,
        ;
    }
    if k < INFINITE {
        assert(num <= w * o) by (nonlinear_arith)
            requires
                2 * num <= (u + w) * o,
                u < w,
        ;
    }
}

/// Rounding a volume to the pair's lot precision never makes it larger, so
/// that no order exceeds what is held. Left out are a NaN, and precisions at
/// which the power of ten is not a finite number or is zero.
pub proof fn law_volume_is_rounded_down(t: TraderView, pair: Seq<char>, volume: Double)
    requires
        !volume.not_a_number(),
        usable_places(t.lot_decimals(pair)),
    ensures
        at_most(t.rounded_volume(pair, volume), volume),
{
    let factor = ten_power(t.lot_decimals(pair));
    lemma_usable_factor(t.lot_decimals(pair));
    let scaled = product(volume, factor);
    let whole = floor_of(scaled);
    let first = quotient(whole, factor);
    let v = volume.pattern();
    let f = units(factor.pattern());
    let num = units(v) * f;
    lemma_units_of_nonzero(factor.pattern());
    lemma_rounded_is_nearest(num, one_in_units());
    if scaled.finite() {
        lemma_floor_goes_down(scaled);
    }
    let k = whole.pattern();
    if whole.finite() {
        lemma_rounded_is_nearest(units(k) * one_in_units(), f);
    }
    if less_than(volume, first) {
        assert(volume.finite());
        let p = rounded(num, one_in_units());
        assert(scaled.pattern() == p);
        if whole.finite() {
            lemma_lots_divide(k, v, f);
            lemma_scaled_side(num, k);
        }
        // Scaling has rounded, to a whole number of lots.
        assert(k == p);
        lemma_scaled_neighbours(num);
        let next = below(whole);
        let fewer = floor_of(next);
        if !volume.negative() {
            assert(k > 0) by {
                if k == 0 {
                    lemma_nothing_divides_to_nothing(f);
                }
            }
            assert(next.finite() && next.pattern() == k - 1);
            lemma_floor_goes_down(next);
            let j = fewer.pattern();
            lemma_more_units(j, (k - 1) as nat);
            lemma_lots_divide(j, v, f);
        } else {
            assert(next.negative() && next.pattern() == k + 1);
            if next.finite() {
                lemma_floor_goes_down(next);
                let j = fewer.pattern();
                if j < INFINITE {
                    lemma_more_units(k + 1, j);
                    lemma_lots_divide(j, v, f);
                }
            }
        }
    }
}

/// Rounding a volume loses less than one lot: one lot more would exceed it.
/// Left out are counts of lots from two to the power 53 on, where not every
/// whole number is at hand, and precisions at which the power of ten is not
/// exact.
pub proof fn law_volume_loses_less_than_a_lot(t: TraderView, pair: Seq<char>, volume: Double)
    requires
        volume.finite(),
        !volume.negative(),
        t.lot_decimals(pair) <= 22,
        t.lots(pair, volume).finite(),
        t.lots(pair, volume).value() < 0x1f_ffff_ffff_ffff * one_in_units(),
    ensures
        t.rounded_volume(pair, volume) == quotient(
            t.lots(pair, volume),
            ten_power(t.lot_decimals(pair)),
        ),
        t.lots(pair, volume).value() % (one_in_units() as int) == 0,
        volume.value() * ten_to(t.lot_decimals(pair) as nat) < t.lots(pair, volume).value()
            + one_in_units(),
{
    let places = t.lot_decimals(pair);
    let factor = ten_power(places);
    lemma_usable_factor(places);
    law_power_of_ten_is_exact(places);
    lemma_units_of_nonzero(factor.pattern());
    lemma_two_to_positive(1074);
    let o = one_in_units();
    let v = volume.pattern();
    let f = units(factor.pattern());
    let num = units(v) * f;
    let scaled = product(volume, factor);
    let whole = floor_of(scaled);
    let lots = t.lots(pair, volume);
    lemma_rounded_is_nearest(num, o);
    assert(scaled.pattern() == rounded(num, o) && !scaled.negative());
    if scaled.finite() {
        law_floor_is_exact(scaled);
        lemma_floor_goes_down(scaled);
    }
    let k = whole.pattern();
    let shrunk = less_than(volume, quotient(whole, factor));
    if shrunk {
        if whole.finite() {
            lemma_lots_divide(k, v, f);
            lemma_rounded_is_nearest(units(k) * o, f);
            assert(units(k) * o > num);
            assert(k > 0) by {
                if k == 0 {
                    assert(0 * o == 0);
                }
            }
        }
        let next = below(whole);
        assert(next.finite() && next.pattern() == k - 1 && !next.negative());
        law_floor_is_exact(next);
        lemma_floor_goes_down(next);
    }
    assert(!lots.negative());
    let l = lots.value() / (o as int);
    lemma_fundamental_div_mod(lots.value(), o as int);
    lemma_mul_is_commutative(o as int, l);
    assert(lots.value() == l * o);
    assert(0 <= l < 0x1f_ffff_ffff_ffff) by (nonlinear_arith)
        requires
            l * o >= 0,
            l * o < 0x1f_ffff_ffff_ffff * o,
            o > 0,
    ;
    let more = lemma_representable((l + 1) as nat, 1074);
    let w = units(more);
    assert((l + 1) * o == l * o + o) by (nonlinear_arith);
    assert(w == lots.value() + o);
    if num >= w * o {
        if shrunk {
            if whole.finite() {
                assert(units(k) > w) by (nonlinear_arith)
                    requires
                        units(k) * o > w * o,
                        o > 0,
                ;
                if more >= k {
                    lemma_units_ordered(k, more);
                }
            }
            lemma_units_ordered(more, (k - 1) as nat);
        } else {
            lemma_scaled_side(num, more);
            lemma_units_ordered(more, scaled.pattern());
        }
        assert(false);
    }
    let ten = ten_to(places as nat);
    assert(num == (units(v) * ten) * o) by (nonlinear_arith)
        requires
            num == units(v) * f,
            f == ten * o,
    ;
    assert(units(v) * ten < w) by (nonlinear_arith)
        requires
            (units(v) * ten) * o < w * o,
            o > 0,
    ;
}

proof fn lemma_more_units(i: nat, j: nat)
    requires
        i <= j,
    ensures
        units(i) * one_in_units() <= units(j) * one_in_units(),
{
    lemma_units_ordered(i, j);
    let (x, y, o) = (units(i), units(j), one_in_units());
    assert(x * o <= y * o) by (nonlinear_arith)
        requires
            x <= y,
    ;
}

/// A volume that is rounded to the pair's lot precision is a whole number of
/// lots over the power of ten, and not below zero.
pub proof fn law_volume_is_whole_lots(t: TraderView, pair: Seq<char>, volume: Double)
    requires
        volume.finite(),
        at_most(zero(), volume),
        usable_places(t.lot_decimals(pair)),
    ensures
        at_most(zero(), t.rounded_volume(pair, volume)),
        whole_lots(t.rounded_volume(pair, volume), t.lot_decimals(pair)),
{
    let factor = ten_power(t.lot_decimals(pair));
    lemma_usable_factor(t.lot_decimals(pair));
    let scaled = product(volume, factor);
    let whole = floor_of(scaled);
    let f = units(factor.pattern());
    lemma_units_of_nonzero(factor.pattern());
    lemma_rounded_is_nearest(units(volume.pattern()) * f, one_in_units());
    if volume.negative() {
        assert(units(volume.pattern()) * f == 0) by (nonlinear_arith)
            requires
                units(volume.pattern()) == 0,
        ;
        lemma_two_to_positive(1074);
        lemma_nothing_divides_to_nothing(one_in_units());
    }
    assert(scaled.negative() ==> scaled.null());
    let lots = t.lots(pair, volume);
    if scaled.finite() {
        law_floor_is_exact(scaled);
        lemma_floor_goes_down(scaled);
        if scaled.null() {
            lemma_floor_of_zero(scaled);
        }
        lemma_nothing_divides_to_nothing(f);
    }
    if less_than(volume, quotient(whole, factor)) {
        assert(!whole.null() && !whole.negative());
        law_floor_is_exact(below(whole));
        lemma_floor_goes_down(below(whole));
    } else if !scaled.finite() {
        assert(quotient(whole, factor).pattern() == INFINITE);
    }
    lemma_rounded_is_nearest(units(lots.pattern()) * one_in_units(), f);
    if lots.negative() {
        assert(lots.null());
        lemma_nothing_divides_to_nothing(f);
    }
    assert(t.rounded_volume(pair, volume) == quotient(lots, factor));
}

proof fn lemma_nothing_divides_to_nothing(f: nat)
    requires
        f > 0,
    ensures
        rounded(0, f) == 0,
        rounded(units(0) * one_in_units(), f) == 0,
{
    let (u, o) = (units(0), one_in_units());
    assert(u * o == 0 && u * f == 0) by (nonlinear_arith)
        requires
            u == 0,
    ;
    lemma_rounded_exact(0, f, 0);
}

proof fn lemma_floor_of_zero(d: Double)
    requires
        d.null(),
    ensures
        floor_of(d).null(),
{
    let o = one_in_units();
    lemma_two_to_positive(1074);
    assert(floor_magnitude(d) == 0) by (nonlinear_arith)
        requires
            floor_magnitude(d) == (o - 1) as nat / o || floor_magnitude(d) == 0nat / o,
            o > 0,
    ;
    lemma_rounded_exact(0, 1, 0);
}

/// Whether both are numbers and neither is larger.
spec fn level(a: Double, b: Double) -> bool {
    at_most(a, b) && at_most(b, a)
}

proof fn lemma_units_scaled(a: nat, b: nat, f: nat, den: nat)
    requires
        a <= b,
        den > 0,
    ensures
        rounded(units(a) * f, den) <= rounded(units(b) * f, den) <= INFINITE,
{
    lemma_units_ordered(a, b);
    let (x, y) = (units(a), units(b));
    assert(x * f * den <= y * f * den) by (nonlinear_arith)
        requires
            x <= y,
    ;
    lemma_rounding_is_monotone(x * f, den, y * f, den);
    lemma_rounded_is_nearest(y * f, den);
    lemma_rounded_is_nearest(x * f, den);
}

/// Scaling by a positive number keeps the order.
proof fn lemma_product_keeps_order(a: Double, b: Double, f: Double)
    requires
        at_most(a, b),
        f.finite(),
        !f.null(),
        !f.negative(),
    ensures
        at_most(product(a, f), product(b, f)),
{
    let o = one_in_units();
    let u = units(f.pattern());
    lemma_two_to_positive(1074);
    lemma_nothing_divides_to_nothing(o);
    lemma_units_scaled(a.pattern(), a.pattern(), u, o);
    lemma_units_scaled(b.pattern(), b.pattern(), u, o);
    assert(0 * u == 0);
    if a.pattern() <= b.pattern() {
        lemma_units_scaled(a.pattern(), b.pattern(), u, o);
    } else {
        lemma_units_scaled(b.pattern(), a.pattern(), u, o);
    }
}

/// Dividing by a positive number keeps the order.
proof fn lemma_quotient_keeps_order(a: Double, b: Double, f: Double)
    requires
        at_most(a, b),
        f.finite(),
        !f.null(),
        !f.negative(),
    ensures
        at_most(quotient(a, f), quotient(b, f)),
{
    let o = one_in_units();
    let u = units(f.pattern());
    lemma_units_of_nonzero(f.pattern());
    lemma_nothing_divides_to_nothing(u);
    lemma_units_scaled(a.pattern(), a.pattern(), o, u);
    lemma_units_scaled(b.pattern(), b.pattern(), o, u);
    if a.pattern() <= b.pattern() {
        lemma_units_scaled(a.pattern(), b.pattern(), o, u);
    } else {
        lemma_units_scaled(b.pattern(), a.pattern(), o, u);
    }
}

/// Rounding to an integer keeps the order.
proof fn lemma_floor_keeps_order(a: Double, b: Double)
    requires
        at_most(a, b),
    ensures
        at_most(floor_of(a), floor_of(b)),
        at_most(floor_of(a), a),
{
    if a.finite() {
        lemma_floor_goes_down(a);
        law_floor_is_exact(a);
        law_order_is_by_value(floor_of(a), a);
    }
    if b.finite() {
        lemma_floor_goes_down(b);
        law_floor_is_exact(b);
    }
    if a.finite() && b.finite() {
        law_order_is_by_value(a, b);
        law_order_is_by_value(floor_of(a), floor_of(b));
        lemma_two_to_positive(1074);
        lemma_multiples_keep_order(
            floor_of(a).value(),
            a.value(),
            floor_of(b).value(),
            b.value(),
            one_in_units() as int,
        );
    }
}

/// The largest multiples of `o` that are not above two numbers are in the
/// order of the numbers.
proof fn lemma_multiples_keep_order(m: int, a: int, n: int, b: int, o: int)
    requires
        o > 0,
        m % o == 0,
        n % o == 0,
        m <= a <= b < n + o,
    ensures
        m <= n,
{
    if m > n {
        lemma_fundamental_div_mod(m, o);
        lemma_fundamental_div_mod(n, o);
        let (i, j) = (m / o, n / o);
        assert(o * i >= o * j + o) by (nonlinear_arith)
            requires
                o * i > o * j,
                o > 0,
        ;
    }
}

/// An integer is rounded to itself.
proof fn lemma_floor_of_floor(d: Double)
    requires
        !d.not_a_number(),
    ensures
        level(floor_of(floor_of(d)), floor_of(d)),
{
    if d.finite() {
        let n = floor_of(d);
        law_floor_is_exact(d);
        law_floor_is_exact(n);
        lemma_floor_goes_down(d);
        lemma_floor_goes_down(n);
        lemma_two_to_positive(1074);
        lemma_multiples_keep_order(
            n.value(),
            n.value(),
            floor_of(n).value(),
            n.value(),
            one_in_units() as int,
        );
        law_order_is_by_value(floor_of(n), n);
        law_order_is_by_value(n, floor_of(n));
    }
}

/// The next smaller number is one step down, and nothing is between.
proof fn lemma_below_is_next(d: Double)
    requires
        !d.not_a_number(),
        !(d.infinite() && d.negative()),
    ensures
        !below(d).not_a_number(),
        below(d).rank() == d.rank() - 1,
{
}

/// A larger volume never rounds to a smaller one. Left out are precisions at
/// which the power of ten is not a finite number or is zero.
pub proof fn law_rounding_keeps_the_order(
    t: TraderView,
    pair: Seq<char>,
    volume: Double,
    other: Double,
)
    requires
        at_most(volume, other),
        usable_places(t.lot_decimals(pair)),
    ensures
        at_most(t.rounded_volume(pair, volume), t.rounded_volume(pair, other)),
{
    let factor = ten_power(t.lot_decimals(pair));
    lemma_usable_factor(t.lot_decimals(pair));
    let (x, y) = (product(volume, factor), product(other, factor));
    lemma_product_keeps_order(volume, other, factor);
    let (m, n) = (floor_of(x), floor_of(y));
    lemma_floor_keeps_order(x, y);
    let (q, r) = (quotient(m, factor), quotient(n, factor));
    lemma_quotient_keeps_order(m, n, factor);
    let (a, b) = (t.lots(pair, volume), t.lots(pair, other));
    // What is taken is never more than the first count.
    assert(at_most(a, m)) by {
        if less_than(volume, q) {
            lemma_lots_can_shrink(volume, factor);
            lemma_below_is_next(m);
            lemma_floor_keeps_order(below(m), below(m));
        }
    }
    if less_than(other, r) {
        lemma_lots_can_shrink(other, factor);
        lemma_below_is_next(n);
        if at_most(n, m) {
            lemma_quotient_keeps_order(n, m, factor);
            assert(less_than(volume, q));
            lemma_below_is_next(m);
            lemma_floor_keeps_order(below(m), below(n));
        } else {
            lemma_floor_of_floor(x);
            lemma_floor_keeps_order(m, below(n));
        }
    }
    lemma_quotient_keeps_order(a, b, factor);
}

/// Where the lots would exceed the volume, there are fewer lots.
proof fn lemma_lots_can_shrink(volume: Double, factor: Double)
    requires
        !volume.not_a_number(),
        factor.finite(),
        !factor.null(),
        !factor.negative(),
        less_than(volume, quotient(floor_of(product(volume, factor)), factor)),
    ensures
        ({
            let whole = floor_of(product(volume, factor));
            !whole.not_a_number() && !(whole.infinite() && whole.negative())
        }),
{
    lemma_product_keeps_order(volume, volume, factor);
    let scaled = product(volume, factor);
    lemma_floor_keeps_order(scaled, scaled);
}

/// Without a usable power of ten no volume rounds to a number.
proof fn lemma_unusable_rounds_to_nan(t: TraderView, pair: Seq<char>, volume: Double)
    requires
        !usable_places(t.lot_decimals(pair)),
    ensures
        t.rounded_volume(pair, volume).not_a_number(),
{
    let factor = ten_power(t.lot_decimals(pair));
    let scaled = product(volume, factor);
    if factor.null() && volume.finite() {
        lemma_two_to_positive(1074);
        let u = units(volume.pattern());
        assert(u * 0 == 0);
        lemma_nothing_divides_to_nothing(one_in_units());
        assert(scaled.null());
        lemma_floor_of_zero(scaled);
    }
}

/// A product of positive numbers does not shrink when they grow.
proof fn lemma_product_grows(a: Double, b: Double, c: Double, d: Double)
    requires
        positive(a),
        positive(c),
        at_most(a, b),
        at_most(c, d),
    ensures
        at_most(product(a, c), product(b, d)),
{
    if b.finite() && d.finite() {
        lemma_product_keeps_order(a, b, c);
        let o = one_in_units();
        let (x, y) = (units(b.pattern()), units(c.pattern()));
        assert(x * y == y * x) by (nonlinear_arith);
        let z = units(d.pattern());
        assert(x * z == z * x) by (nonlinear_arith);
        lemma_product_keeps_order(c, d, b);
    } else {
        lemma_rounded_is_nearest(units(a.pattern()) * units(c.pattern()), one_in_units());
    }
}

/// An order that is valid stays valid with a volume and a price that are not
/// smaller.
pub proof fn law_larger_order_stays_valid(
    t: TraderView,
    pair: Seq<char>,
    volume: Double,
    price: Double,
    larger_volume: Double,
    larger_price: Double,
)
    requires
        t.validated(pair, volume, price) is Ok,
        at_most(volume, larger_volume),
        at_most(price, larger_price),
    ensures
        t.validated(pair, larger_volume, larger_price) is Ok,
{
    let (a, b) = (t.rounded_volume(pair, volume), t.rounded_volume(pair, larger_volume));
    if usable_places(t.lot_decimals(pair)) {
        law_rounding_keeps_the_order(t, pair, volume, larger_volume);
        assert(positive(a) && positive(b));
        if let Some(m) = t.meta(pair) {
            if positive(m.costmin) {
                if positive(price) {
                    lemma_product_grows(a, b, price, larger_price);
                } else {
                    lemma_cost_of_nothing(a, price);
                    assert(a.infinite() && b.infinite());
                }
            }
        }
    } else {
        lemma_unusable_rounds_to_nan(t, pair, larger_volume);
    }
}

/// At a price that is not above zero a cost is not positive, unless it is no
/// number.
proof fn lemma_cost_of_nothing(a: Double, price: Double)
    requires
        positive(a),
        !price.not_a_number(),
        !positive(price),
    ensures
        at_most(product(a, price), zero()) || (a.infinite() && price.null()),
{
    let o = one_in_units();
    let (x, y) = (units(a.pattern()), units(price.pattern()));
    lemma_rounded_is_nearest(x * y, o);
    if price.null() {
        assert(x * 0 == 0);
        lemma_two_to_positive(1074);
        lemma_nothing_divides_to_nothing(o);
    }
}

/// An order that passes has a positive volume and meets the pair's minimum
/// size. Left out are volumes whose rounded form is NaN.
pub proof fn law_valid_order_has_enough_volume(
    t: TraderView,
    pair: Seq<char>,
    volume: Double,
    price: Double,
)
    requires
        !t.rounded_volume(pair, volume).not_a_number(),
        t.validated(pair, volume, price) is Ok,
    ensures
        t.validated(pair, volume, price) == Ok::<Double, ErrorView>(t.rounded_volume(pair, volume)),
        positive(t.rounded_volume(pair, volume)),
        t.meta(pair) matches Some(m) ==> positive(m.ordermin) ==> at_most(
            m.ordermin,
            t.rounded_volume(pair, volume),
        ),
{
}

/// An order that passes meets the pair's minimum cost. Left out are costs that
/// are NaN.
pub proof fn law_valid_order_costs_enough(
    t: TraderView,
    pair: Seq<char>,
    volume: Double,
    price: Double,
)
    requires
        !product(t.rounded_volume(pair, volume), price).not_a_number(),
        t.validated(pair, volume, price) is Ok,
    ensures
        t.meta(pair) matches Some(m) ==> positive(m.costmin) ==> at_most(
            m.costmin,
            product(t.rounded_volume(pair, volume), price),
        ),
{
}

/// Whatever percentage is asked for, the slippage that is allowed is a number
/// and not negative.
pub proof fn law_slippage_is_never_negative(percent: Double)
    ensures
        at_most(zero(), slippage_of(percent)),
{
}

/// The slippage that is allowed is the percentage that is asked for, over a
/// hundred, where that is above zero; else none is.
pub proof fn law_slippage_is_a_hundredth_of_the_percentage(percent: Double)
    ensures
        positive(percent) ==> slippage_of(percent) == quotient(percent, hundred()),
        !positive(percent) ==> slippage_of(percent).null(),
{
    let h = units(hundred().pattern());
    law_comparison_covers_all_numbers(percent, percent);
    lemma_rounded_is_nearest(units(percent.pattern()) * one_in_units(), h);
    lemma_units_of_nonzero(hundred().pattern());
    if percent.null() {
        assert(0 * one_in_units() == 0 && 0 * h == 0);
        lemma_rounded_exact(0, h, 0);
    } else if percent.finite() {
        lemma_units_of_nonzero(percent.pattern());
    }
}

/// With nothing known of a pair, its name at the exchange has no slash, and
/// five and eight decimal places are allowed in prices and volumes.
pub proof fn law_unknown_pair_has_defaults(t: TraderView, pair: Seq<char>)
    requires
        !t.pair_meta.contains_key(pair),
    ensures
        slash_free(t.kraken_pair(pair)),
        t.price_decimals(pair) == 5,
        t.lot_decimals(pair) == 8,
{
    let keep = |c: char| c != '/';
    let s = t.kraken_pair(pair);
    assert forall|i: int| 0 <= i < s.len() implies s[i] != '/' by {
        pair.lemma_filter_pred(keep, i);
    }
}

/// A ticker in canonical form is left as it is.
pub proof fn law_canonical_form_is_stable(sym: Seq<char>)
    ensures
        canonical(canonical(sym)) == canonical(sym),
{
    reveal_strlit("BTC");
    reveal_strlit("DOGE");
    reveal_strlit("XBT");
    reveal_strlit("XXBT");
    reveal_strlit("XDG");
    reveal_strlit("XXDG");
    assert("BTC"@[0] != "XBT"@[0]);
    assert("BTC"@[0] != "XDG"@[0]);
    assert("DOGE"@[0] != "XXBT"@[0]);
    assert("DOGE"@[0] != "XXDG"@[0]);
}

/// A marketable entry crosses the market: what is bought may cost no less than
/// the market price, what is sold may bring no more.
pub proof fn law_marketable_limit_crosses(t: TraderView, market: Double)
    requires
        market.finite(),
        !market.negative(),
        at_most(zero(), t.max_entry_slippage),
    ensures
        ({
            let limit = crossing_limit(t, Side::Long, market);
            limit.not_a_number() || at_most(market, limit)
        }),
        ({
            let limit = crossing_limit(t, Side::Short, market);
            limit.not_a_number() || at_most(limit, market)
        }),
{
    let s = t.max_entry_slippage;
    let o = one_in_units();
    let m = units(market.pattern());
    lemma_one_and_ten();
    lemma_two_to_positive(1074);
    assert(ten_to(0) == 1);
    assert(ten_to(0) * o == o) by (nonlinear_arith)
        requires
            ten_to(0) == 1,
    ;
    assert(units(one().pattern()) == o);
    lemma_rounded_exact(o, 1, one().pattern());
    lemma_rounded_exact(m * o, o, market.pattern());
    if s.finite() {
        let up = sum(one(), s);
        let v = (o + s.value()) as nat;
        if s.pattern() > 0 {
            lemma_units_increase(0, s.pattern());
        }
        assert(s.value() >= 0);
        lemma_rounding_is_monotone(o, 1, v, 1);
        lemma_rounded_is_nearest(v, 1);
        assert(up.pattern() == rounded(v, 1) && !up.negative());
        if up.finite() {
            lemma_units_ordered(one().pattern(), up.pattern());
            let x = units(up.pattern());
            assert(m * o <= m * x) by (nonlinear_arith)
                requires
                    o <= x,
            ;
            lemma_rounded_is_nearest(m * x, o);
            lemma_mul_inequality((m * o) as int, (m * x) as int, o as int);
            lemma_rounding_is_monotone(m * o, o, m * x, o);
        }
        let down = difference(one(), s);
        let w = o - s.value();
        assert(opposite(s).value() == -s.value());
        if w > 0 {
            lemma_rounding_is_monotone(w as nat, 1, o, 1);
            lemma_rounded_is_nearest(w as nat, 1);
            lemma_units_ordered(down.pattern(), one().pattern());
            let x = units(down.pattern());
            assert(m * x <= m * o) by (nonlinear_arith)
                requires
                    x <= o,
            ;
            lemma_rounded_is_nearest(m * x, o);
            lemma_mul_inequality((m * x) as int, (m * o) as int, o as int);
            lemma_rounding_is_monotone(m * x, o, m * o, o);
        } else {
            lemma_rounded_is_nearest((-w) as nat, 1);
            let x = units(down.pattern());
            lemma_rounded_is_nearest(m * x, o);
            if w == 0 {
                assert(down.pattern() == 0);
                assert(m * x == 0) by (nonlinear_arith)
                    requires
                        x == 0,
                ;
                lemma_rounding_is_monotone(0, o, m * o, o);
            }
        }
    }
}

proof fn lemma_units_ordered(i: nat, j: nat)
    requires
        i <= j,
    ensures
        units(i) <= units(j),
{
    if i < j {
        lemma_units_increase(i, j);
    }
}

} // verus!
