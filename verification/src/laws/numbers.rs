//! Numbers.
use crate::decimal::lemma_ten_to_adds;
use crate::double::{
    at_most, floor_magnitude, floor_of, lemma_rounded_exact, lemma_units_increase, less_than, one,
    one_in_units, positive, power_from, product, ten, ten_power, units, zero, Double, INFINITE,
};
use crate::natural::{lemma_two_to_adds, lemma_two_to_positive, ten_to, two_to};
use vstd::arithmetic::div_mod::{
    lemma_fundamental_div_mod, lemma_fundamental_div_mod_converse, lemma_mod_multiples_basic,
};
use vstd::arithmetic::mul::{
    lemma_mul_is_associative, lemma_mul_is_commutative, lemma_mul_unary_negation,
};
use vstd::prelude::*;

verus! {

/// Numbers are compared by their values.
pub proof fn law_order_is_by_value(a: Double, b: Double)
    requires
        a.finite(),
        b.finite(),
    ensures
        less_than(a, b) <==> a.value() < b.value(),
        at_most(a, b) <==> a.value() <= b.value(),
{
    let i = a.pattern();
    let j = b.pattern();
    if i < j {
        lemma_units_increase(i, j);
    } else if j < i {
        lemma_units_increase(j, i);
    }
    if i > 0 {
        lemma_units_increase(0, i);
    }
    if j > 0 {
        lemma_units_increase(0, j);
    }
}

/// How any two numbers compare: by value, infinities at the ends, and a NaN
/// with nothing.
pub proof fn law_comparison_covers_all_numbers(a: Double, b: Double)
    ensures
        at_most(a, b) <==> !a.not_a_number() && !b.not_a_number() && {
            ||| a.infinite() && a.negative()
            ||| b.infinite() && !b.negative()
            ||| a.finite() && b.finite() && a.value() <= b.value()
        },
        less_than(a, b) <==> !a.not_a_number() && !b.not_a_number() && !at_most(b, a),
        positive(a) <==> (a.infinite() && !a.negative()) || (a.finite() && a.value() > 0),
{
    if a.finite() && b.finite() {
        law_order_is_by_value(a, b);
    }
    if a.finite() {
        law_order_is_by_value(zero(), a);
    }
}

/// The pattern of `n` times two to the power `e` units, where `n` has at most
/// 53 bits.
pub proof fn lemma_representable(n: nat, e: nat) -> (k: nat)
    requires
        n < 0x20_0000_0000_0000,
        e <= 1200,
    ensures
        units(k) == n * two_to(e),
        k < INFINITE,
    decreases e,
{
    let b: nat = 0x10_0000_0000_0000;
    if e == 0 {
        assert(two_to(0) == 1);
        n
    } else if n >= b {
        let k = ((e + 1) * b + (n - b)) as nat;
        lemma_fundamental_div_mod_converse(k as int, b as int, (e + 1) as int, n - b);
        assert(k >= 0x20_0000_0000_0000);
        assert(units(k) == n * two_to(e));
        k
    } else {
        let k = lemma_representable(2 * n, (e - 1) as nat);
        let t = two_to((e - 1) as nat);
        assert(two_to(e) == 2 * t);
        assert((2 * n) * t == n * (2 * t)) by (nonlinear_arith);
        k
    }
}

/// Rounding down gives exactly the largest integer that is not above.
pub proof fn law_floor_is_exact(d: Double)
    requires
        d.finite(),
    ensures
        floor_of(d).finite(),
        floor_of(d).value() % (one_in_units() as int) == 0,
        floor_of(d).value() <= d.value() < floor_of(d).value() + one_in_units(),
{
    let p = d.pattern();
    let m = units(p);
    let o = one_in_units();
    let n = floor_magnitude(d);
    let b: nat = 0x10_0000_0000_0000;
    lemma_two_to_positive(1074);
    let e: nat = if p < 2 * b {
        0
    } else {
        (p / b - 1) as nat
    };
    let g: nat = if p < 2 * b {
        p
    } else {
        p % b + b
    };
    assert(g < 2 * b);
    assert(m == g * two_to(e)) by {
        assert(two_to(0) == 1);
    }
    // How far the integer is from the number.
    if d.negative() {
        lemma_fundamental_div_mod(m + o - 1, o as int);
        lemma_mul_is_commutative(o as int, n as int);
        assert(m <= n * o < m + o);
    } else {
        lemma_fundamental_div_mod(m as int, o as int);
        lemma_mul_is_commutative(o as int, n as int);
        assert(n * o <= m < n * o + o);
    }
    let k = if e >= 1074 {
        lemma_two_to_adds((e - 1074) as nat, 1074);
        let h = two_to((e - 1074) as nat);
        let q = g * h;
        lemma_mul_is_associative(g as int, h as int, o as int);
        assert(m == q * o);
        if n < q {
            lemma_gap(n, q, o);
        } else if q < n {
            lemma_gap(q, n, o);
        }
        p
    } else {
        lemma_two_to_adds(e, (1074 - e) as nat);
        let t = two_to(e);
        let w = two_to((1074 - e) as nat);
        lemma_two_to_positive((1073 - e) as nat);
        lemma_two_to_positive(e);
        assert(w == 2 * two_to((1073 - e) as nat));
        lemma_few_ones(n, g, t, w, b);
        lemma_representable(n, 1074)
    };
    assert(units(k) == n * o);
    lemma_rounded_exact(n * o, 1, k);
    assert(floor_of(d).pattern() == k && floor_of(d).negative() == d.negative());
    lemma_mod_multiples_basic(n as int, o as int);
    lemma_mod_multiples_basic(-(n as int), o as int);
    lemma_mul_unary_negation(n as int, o as int);
}

/// Multiples of `o` are at least `o` apart.
proof fn lemma_gap(i: nat, j: nat, o: nat)
    requires
        i < j,
    ensures
        i * o + o <= j * o,
{
    assert((i + 1) * o <= j * o) by (nonlinear_arith)
        requires
            i + 1 <= j,
    ;
    assert((i + 1) * o == i * o + o) by (nonlinear_arith);
}

/// A number that is `g` steps of size `t`, where at least two steps make a one,
/// has few ones.
proof fn lemma_few_ones(n: nat, g: nat, t: nat, w: nat, b: nat)
    requires
        n * (t * w) < g * t + t * w,
        g < 2 * b,
        w >= 2,
        t > 0,
        b > 1,
    ensures
        n < 2 * b,
{
    if n >= 2 * b {
        assert((n - 1) * (t * w) == n * (t * w) - t * w) by (nonlinear_arith);
        assert((n - 1) * (t * w) == ((n - 1) * w) * t) by (nonlinear_arith);
        assert((n - 1) * w < g) by (nonlinear_arith)
            requires
                ((n - 1) * w) * t < g * t,
                t > 0,
        ;
        assert((n - 1) * 2 <= (n - 1) * w) by (nonlinear_arith)
            requires
                n >= 1,
                w >= 2,
        ;
    }
}

/// Five to the power `n`.
spec fn five_to(n: nat) -> nat
    decreases n,
{
    if n == 0 {
        1
    } else {
        5 * five_to((n - 1) as nat)
    }
}

proof fn lemma_ten_is_five_times_two(n: nat)
    ensures
        ten_to(n) == five_to(n) * two_to(n),
    decreases n,
{
    if n > 0 {
        let m = (n - 1) as nat;
        lemma_ten_is_five_times_two(m);
        let (a, b) = (five_to(m), two_to(m));
        assert(ten_to(n) == 10 * ten_to(m));
        assert(five_to(n) == 5 * a && two_to(n) == 2 * b);
        assert(10 * (a * b) == (5 * a) * (2 * b)) by (nonlinear_arith);
    } else {
        assert(ten_to(0) == 1 && five_to(0) == 1 && two_to(0) == 1);
    }
}

/// Whether `d` is exactly ten to the power `n`.
pub open spec fn is_power_of_ten(d: Double, n: nat) -> bool {
    d.finite() && !d.negative() && d.value() == ten_to(n) * one_in_units()
}

proof fn lemma_five_fits(n: nat)
    requires
        n <= 22,
    ensures
        five_to(n) < 0x20_0000_0000_0000,
{
    reveal_with_fuel(five_to, 23);
}

proof fn lemma_product_of_powers(a: Double, b: Double, x: nat, y: nat)
    requires
        is_power_of_ten(a, x),
        is_power_of_ten(b, y),
        x + y <= 22,
    ensures
        is_power_of_ten(product(a, b), x + y),
{
    let o = one_in_units();
    lemma_two_to_positive(1074);
    lemma_ten_to_adds(x, y);
    lemma_ten_is_five_times_two(x + y);
    lemma_five_fits(x + y);
    let c = five_to(x + y);
    let k = lemma_representable(c, 1074 + x + y);
    lemma_two_to_adds(x + y, 1074);
    let t = two_to(x + y);
    assert(1074 + x + y == x + y + 1074);
    let (u, v) = (units(a.pattern()), units(b.pattern()));
    let (p, q) = (ten_to(x), ten_to(y));
    assert((p * o) * (q * o) == ((p * q) * o) * o) by (nonlinear_arith);
    assert(c * (t * o) == (c * t) * o) by (nonlinear_arith);
    assert(u * v == units(k) * o);
    lemma_rounded_exact(u * v, o, k);
}

proof fn lemma_power_from(r: Double, a: Double, x: nat, y: nat, n: nat)
    requires
        is_power_of_ten(r, x),
        is_power_of_ten(a, y),
        y > 0,
        n > 0,
        x + y * n <= 22,
    ensures
        is_power_of_ten(power_from(r, a, n), x + y * n),
    decreases n,
{
    let odd = n % 2 == 1;
    assert(y <= y * n) by (nonlinear_arith)
        requires
            n > 0,
    ;
    if odd {
        lemma_product_of_powers(r, a, x, y);
    }
    let next = if odd {
        product(r, a)
    } else {
        r
    };
    let z = if odd {
        x + y
    } else {
        x
    };
    let h = n / 2;
    if odd {
        assert(y * (2 * h + 1) == y + (2 * y) * h) by (nonlinear_arith);
    } else {
        assert(y * (2 * h) == (2 * y) * h) by (nonlinear_arith);
    }
    assert(x + y * n == z + (2 * y) * h);
    if h > 0 {
        assert(2 * y <= (2 * y) * h) by (nonlinear_arith)
            requires
                h > 0,
        ;
        lemma_product_of_powers(a, a, y, y);
        lemma_power_from(next, product(a, a), z, 2 * y, h);
    } else {
        assert((2 * y) * 0 == 0);
    }
}

proof fn lemma_large_powers_of_two()
    ensures
        two_to(49) == 0x2_0000_0000_0000,
        two_to(52) == 0x10_0000_0000_0000,
{
    assert(two_to(7) == 128 && two_to(3) == 8) by {
        reveal_with_fuel(two_to, 8);
    }
    lemma_two_to_adds(7, 7);
    assert(two_to(14) == 128 * 128);
    lemma_two_to_adds(14, 14);
    assert(two_to(28) == 16384 * 16384);
    lemma_two_to_adds(28, 14);
    assert(two_to(42) == 268435456 * 16384);
    lemma_two_to_adds(42, 7);
    assert(two_to(49) == 4398046511104 * 128);
    lemma_two_to_adds(49, 3);
    assert(two_to(52) == 562949953421312 * 8);
}

/// One and ten are what they are called.
pub proof fn lemma_one_and_ten()
    ensures
        is_power_of_ten(one(), 0),
        is_power_of_ten(ten(), 1),
{
    let b: nat = 0x10_0000_0000_0000;
    lemma_large_powers_of_two();
    assert(ten_to(0) == 1);
    assert(ten_to(1) == 10 * ten_to(0));
    let i: nat = 0x3ff0_0000_0000_0000;
    assert(one().pattern() == i);
    assert(i / b == 1023 && i % b == 0);
    assert(units(i) == (0 + b) * two_to(1022));
    lemma_two_to_adds(52, 1022);
    let j: nat = 0x4024_0000_0000_0000;
    assert(ten().pattern() == j);
    assert(j / b == 1026 && j % b == 0x4_0000_0000_0000);
    assert(units(j) == (0x4_0000_0000_0000 + b) * two_to(1025));
    lemma_two_to_adds(49, 1025);
    let t = two_to(1025);
    assert(0x14_0000_0000_0000 * t == 10 * (0x2_0000_0000_0000 * t));
}

/// Up to 22 decimal places, the power of ten by which volumes are scaled is
/// exact.
pub proof fn law_power_of_ten_is_exact(places: u32)
    requires
        places <= 22,
    ensures
        is_power_of_ten(ten_power(places), places as nat),
{
    lemma_one_and_ten();
    if places > 0 {
        lemma_power_from(one(), ten(), 0, 1, places as nat);
    } else {
        assert(power_from(one(), ten(), 0) == one());
    }
}

} // verus!
