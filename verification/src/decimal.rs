//! Binary64 numbers written in decimal and read back from it.
use crate::double::{
    assemble, lemma_rounded_is, lemma_units_increase, nearest, one_in_units, round_ratio, rounded,
    units, units_of, Double, INFINITE, NAN_BITS, SIGN,
};
use crate::natural::{
    lemma_ten_to_positive, lemma_two_to_adds, lemma_two_to_monotone, lemma_two_to_positive, ten_to,
    two_to, Natural,
};
use crate::text::{chars_of, decimal, decimal_digits, text_of};
use vstd::prelude::*;
use vstd::string::*;

verus! {

/// `num / den` as an integer, rounded to nearest with ties to even.
pub open spec fn half_even(num: nat, den: nat) -> nat {
    let q = num / den;
    let r = num % den;
    if 2 * r < den || (2 * r == den && q % 2 == 0) {
        q
    } else {
        q + 1
    }
}

/// `s` with zeros in front, so that it has `width` characters or more.
pub open spec fn padded(s: Seq<char>, width: nat) -> Seq<char> {
    if s.len() >= width {
        s
    } else {
        Seq::new((width - s.len()) as nat, |i: int| '0') + s
    }
}

/// `n` with its last `places` digits behind a point.
pub open spec fn pointed(n: nat, places: nat) -> Seq<char> {
    let d = padded(decimal(n), places + 1);
    if places == 0 {
        d
    } else {
        d.take(d.len() - places) + "."@ + d.skip(d.len() - places)
    }
}

/// `d` in decimal with exactly `places` digits behind the point.
pub open spec fn fixed(d: Double, places: u32) -> Seq<char> {
    if d.not_a_number() {
        "NaN"@
    } else {
        let magnitude = if d.infinite() {
            "inf"@
        } else {
            pointed(
                half_even(units(d.pattern()) * ten_to(places as nat), one_in_units()),
                places as nat,
            )
        };
        if d.negative() {
            "-"@ + magnitude
        } else {
            magnitude
        }
    }
}

fn natural_power_of_ten(n: u64) -> (r: Natural)
    ensures
        r@ == ten_to(n as nat),
{
    let mut r: Natural = Natural::from_u64(1);
    let mut i: u64 = 0;
    while i < n
        invariant
            i <= n,
            r@ == ten_to(i as nat),
        decreases n - i,
    {
        r = r.mul_small(10, 0);
        i = i + 1;
    }
    r
}

fn pointed_text(n: &Natural, places: u32) -> (s: String)
    ensures
        s@ == pointed(n@, places as nat),
{
    let digits: Vec<char> = decimal_digits(n);
    let mut v: Vec<char> = Vec::new();
    if digits.len() as u64 <= places as u64 {
        let mut i: u64 = digits.len() as u64;
        while i < places as u64 + 1
            invariant
                digits@.len() <= i <= places + 1,
                v@ =~= Seq::new((i - digits@.len()) as nat, |j: int| '0'),
            decreases places + 1 - i,
        {
            v.push('0');
            i = i + 1;
        }
    }
    let mut i: usize = 0;
    let ghost zeros = v@;
    while i < digits.len()
        invariant
            i <= digits@.len(),
            v@ =~= zeros + digits@.take(i as int),
        decreases digits@.len() - i,
    {
        v.push(digits[i]);
        i = i + 1;
    }
    assert(v@ =~= padded(decimal(n@), places as nat + 1));
    if places == 0 {
        assert(v@.subrange(0, v@.len() as int) =~= v@);
        return text_of(&v, 0, v.len());
    }
    let cut: usize = v.len() - places as usize;
    let mut s: String = text_of(&v, 0, cut);
    s.append(".");
    s.append(text_of(&v, cut, v.len()).as_str());
    proof {
        assert(v@.subrange(0, cut as int) =~= v@.take(cut as int));
        assert(v@.subrange(cut as int, v@.len() as int) =~= v@.skip(cut as int));
    }
    s
}

impl Double {
    /// The number in decimal with exactly `places` digits behind the point,
    /// rounded to nearest with ties to even.
    pub fn to_fixed(self, places: u32) -> (s: String)
        ensures
            s@ == fixed(self, places),
    {
        let negative: bool = self.bits >= SIGN;
        let k: u64 = if negative {
            self.bits - SIGN
        } else {
            self.bits
        };
        if k > INFINITE {
            return "NaN".to_owned();
        }
        let magnitude: String = if k == INFINITE {
            "inf".to_owned()
        } else {
            let num: Natural = units_of(k).times(&natural_power_of_ten(places as u64));
            let scale: Natural = Natural::from_u64(1).shl(1074);
            let q: Natural = num.shr(1074);
            proof {
                lemma_two_to_positive(1074);
                vstd::arithmetic::div_mod::lemma_fundamental_div_mod(
                    num@ as int,
                    one_in_units() as int,
                );
                let a = q@;
                let b = one_in_units();
                assert(b * a == a * b) by (nonlinear_arith);
            }
            let twice: Natural = num.minus(&q.times(&scale)).mul_small(2, 0);
            let down: bool = if twice.less(&scale) {
                true
            } else if scale.less(&twice) {
                false
            } else {
                q.div_small(2).1 == 0
            };
            let n: Natural = if down {
                q
            } else {
                q.mul_small(1, 1)
            };
            pointed_text(&n, places)
        };
        if negative {
            let mut s: String = "-".to_owned();
            s.append(magnitude.as_str());
            s
        } else {
            magnitude
        }
    }
}

/// Whether `c` is a decimal digit.
pub open spec fn is_digit(c: char) -> bool {
    '0' <= c && c <= '9'
}

/// The value of a decimal digit.
pub open spec fn digit_value(c: char) -> nat {
    (c as int - '0' as int) as nat
}

/// The number that a run of digits writes.
pub open spec fn digits_value(s: Seq<char>) -> nat
    decreases s.len(),
{
    if s.len() == 0 {
        0
    } else {
        digits_value(s.drop_last()) * 10 + digit_value(s.last())
    }
}

/// Where the run of digits that starts at `i` ends.
pub open spec fn run_end(s: Seq<char>, i: int) -> int
    decreases s.len() - i,
{
    if 0 <= i < s.len() && is_digit(s[i]) {
        run_end(s, i + 1)
    } else {
        i
    }
}

/// `c` in lower case, where it is an ASCII letter.
pub open spec fn lower(c: char) -> char {
    if 'A' <= c && c <= 'Z' {
        (c as int + 32) as char
    } else {
        c
    }
}

/// Whether `s` is `word` but for the case of ASCII letters.
pub open spec fn spells(s: Seq<char>, word: Seq<char>) -> bool {
    s.len() == word.len() && forall|i: int| 0 <= i < s.len() ==> lower(#[trigger] s[i]) == word[i]
}

/// Whether a sign stands at the start of `s`.
pub open spec fn signed(s: Seq<char>) -> bool {
    s.len() > 0 && (s[0] == '+' || s[0] == '-')
}

/// `s` without a sign at its start.
pub open spec fn unsigned(s: Seq<char>) -> Seq<char> {
    if signed(s) {
        s.skip(1)
    } else {
        s
    }
}

/// The exponent of ten that `s`, the end of a number, gives.
pub open spec fn exponent(s: Seq<char>) -> Option<int> {
    if s.len() == 0 {
        Some(0)
    } else if s[0] == 'e' || s[0] == 'E' {
        let digits = unsigned(s.skip(1));
        if digits.len() > 0 && run_end(digits, 0) == digits.len() {
            Some(
                if s[1] == '-' {
                    -(digits_value(digits) as int)
                } else {
                    digits_value(digits) as int
                },
            )
        } else {
            None
        }
    } else {
        None
    }
}

/// The parts of a number: where its digits before the point end, and where
/// those behind it end.
pub open spec fn number_ends(s: Seq<char>) -> (int, int) {
    let a = run_end(s, 0);
    if a < s.len() && s[a] == '.' {
        (a, run_end(s, a + 1))
    } else {
        (a, a)
    }
}

/// The digits of a number, without the point.
pub open spec fn mantissa(s: Seq<char>) -> Seq<char> {
    let (a, b) = number_ends(s);
    if a == b {
        s.take(a)
    } else {
        s.take(a) + s.subrange(a + 1, b)
    }
}

/// A decimal number without sign, as digits and the power of ten that they
/// count: `Digit+`, `Digit+ '.' Digit*` or `Digit* '.' Digit+`, and then
/// perhaps `'e' Sign? Digit+`.
pub open spec fn number(s: Seq<char>) -> Option<(Seq<char>, int)> {
    let (a, b) = number_ends(s);
    let digits = mantissa(s);
    if digits.len() == 0 {
        None
    } else {
        match exponent(s.skip(b)) {
            Some(e) => Some((digits, e - (digits.len() - a))),
            None => None,
        }
    }
}

/// The magnitude pattern nearest to `m * 10^e`.
pub open spec fn scaled(m: nat, e: int) -> nat {
    if e >= 0 {
        rounded(m * ten_to(e as nat) * one_in_units(), 1)
    } else {
        rounded(m * one_in_units(), ten_to((-e) as nat))
    }
}

/// The number that `s` writes in decimal, rounded to nearest with ties to
/// even; `inf`, `infinity` and `nan` are understood in any case.
pub open spec fn parsed(s: Seq<char>) -> Option<Double> {
    let negative = s.len() > 0 && s[0] == '-';
    let body = unsigned(s);
    if spells(body, "inf"@) || spells(body, "infinity"@) {
        Some(assemble(negative, INFINITE as nat))
    } else if spells(body, "nan"@) {
        Some(assemble(negative, NAN_BITS as nat))
    } else {
        match number(body) {
            Some(n) => Some(assemble(negative, scaled(digits_value(n.0), n.1))),
            None => None,
        }
    }
}

/// A run of digits ends where it stops being one.
pub proof fn lemma_run_end(s: Seq<char>, i: int)
    requires
        0 <= i <= s.len(),
    ensures
        i <= run_end(s, i) <= s.len(),
        forall|j: int| i <= j < run_end(s, i) ==> is_digit(#[trigger] s[j]),
    decreases s.len() - i,
{
    if i < s.len() && is_digit(s[i]) {
        lemma_run_end(s, i + 1);
    }
}

proof fn lemma_digits_bound(s: Seq<char>)
    requires
        forall|j: int| 0 <= j < s.len() ==> is_digit(#[trigger] s[j]),
    ensures
        digits_value(s) < ten_to(s.len()),
    decreases s.len(),
{
    if s.len() > 0 {
        lemma_digits_bound(s.drop_last());
        assert(is_digit(s[s.len() - 1]));
    }
}

/// Powers of ten multiply by adding their exponents.
pub proof fn lemma_ten_to_adds(a: nat, b: nat)
    ensures
        ten_to(a + b) == ten_to(a) * ten_to(b),
    decreases a,
{
    if a == 0 {
        assert(1 * ten_to(b) == ten_to(b));
    } else {
        lemma_ten_to_adds((a - 1) as nat, b);
        assert((a - 1) as nat + b == (a + b - 1) as nat);
        let x = ten_to((a - 1) as nat);
        let y = ten_to(b);
        assert(10 * (x * y) == (10 * x) * y) by (nonlinear_arith);
    }
}

proof fn lemma_ten_to_exceeds(n: nat)
    ensures
        ten_to(n) >= two_to(3 * n),
    decreases n,
{
    if n == 0 {
        assert(two_to(0) == 1);
    } else {
        lemma_ten_to_exceeds((n - 1) as nat);
        let k = (3 * (n - 1)) as nat;
        assert(two_to(k + 1) == 2 * two_to(k));
        assert(two_to(k + 2) == 2 * two_to(k + 1));
        assert(two_to(k + 3) == 2 * two_to(k + 2));
        assert(k + 3 == 3 * n);
    }
}

proof fn lemma_ten_to_monotone(a: nat, b: nat)
    requires
        a <= b,
    ensures
        ten_to(a) <= ten_to(b),
{
    lemma_ten_to_adds(a, (b - a) as nat);
    lemma_ten_to_positive((b - a) as nat);
    let x = ten_to(a);
    let y = ten_to((b - a) as nat);
    assert(x <= x * y) by (nonlinear_arith)
        requires
            y >= 1,
    ;
}

proof fn lemma_scaled_huge(m: nat, e: int)
    requires
        m >= 1,
        e > 400,
    ensures
        scaled(m, e) == INFINITE,
{
    let t = ten_to(e as nat);
    lemma_ten_to_exceeds(e as nat);
    lemma_two_to_monotone(1203, (3 * e) as nat);
    lemma_two_to_positive(1074);
    let num = m * t * one_in_units();
    assert(m * t >= t) by (nonlinear_arith)
        requires
            m >= 1,
    ;
    let p = two_to(1203);
    let u = one_in_units();
    let mt = m * t;
    assert(mt * u >= p * u) by (nonlinear_arith)
        requires
            mt >= p,
    ;
    lemma_two_to_adds(1203, 1074);
    lemma_two_to_monotone(2099, 2277);
    assert(two_to(2099) == 2 * two_to(2098));
    lemma_two_to_positive(2098);
    let inf = INFINITE as nat;
    assert(inf / 0x10_0000_0000_0000 == 2047 && inf % 0x10_0000_0000_0000 == 0);
    assert(units(inf) == two_to(2098)) by {
        lemma_two_to_adds(52, 2046);
        assert(two_to(52) == 0x10_0000_0000_0000) by {
            reveal_with_fuel(two_to, 53);
        }
    }
    lemma_units_increase((inf - 1) as nat, inf);
    assert(nearest(num, 1, inf));
    lemma_rounded_is(num, 1, inf);
}

proof fn lemma_scaled_tiny(m: nat, e: int, len: nat)
    requires
        m < ten_to(len),
        len + e < -400,
    ensures
        scaled(m, e) == 0,
{
    let f = (-e) as nat;
    let den = ten_to(f);
    let u = one_in_units();
    lemma_ten_to_positive(f);
    lemma_ten_to_exceeds(400);
    lemma_two_to_monotone(1075, 1200);
    assert(two_to(1075) == 2 * u);
    lemma_ten_to_adds(len, 400);
    lemma_ten_to_monotone(len + 400, f);
    let x = ten_to(len);
    let y = ten_to(400);
    lemma_two_to_positive(1074);
    assert(2 * (m * u) < x * y) by (nonlinear_arith)
        requires
            m < x,
            2 * u <= y,
            u >= 1,
    ;
    assert(units(0) + units(1) == 1);
    assert(nearest(m * u, den, 0));
    lemma_rounded_is(m * u, den, 0);
}

fn run(v: &Vec<char>, from: usize) -> (end: usize)
    requires
        from <= v@.len(),
    ensures
        end == run_end(v@, from as int),
        from <= end <= v@.len(),
{
    let mut i: usize = from;
    while i < v.len() && '0' <= v[i] && v[i] <= '9'
        invariant
            from <= i <= v@.len(),
            run_end(v@, from as int) == run_end(v@, i as int),
        decreases v@.len() - i,
    {
        i = i + 1;
    }
    i
}

fn digit_number(c: char) -> (d: u32)
    requires
        is_digit(c),
    ensures
        d as nat == digit_value(c),
        d < 10,
{
    c as u32 - '0' as u32
}

fn is_word(v: &Vec<char>, from: usize, word: &str) -> (r: bool)
    requires
        from <= v@.len(),
    ensures
        r == spells(v@.skip(from as int), word@),
{
    let w: Vec<char> = chars_of(word);
    let ghost s = v@.skip(from as int);
    let n: usize = v.len();
    if n - from != w.len() {
        return false;
    }
    let mut i: usize = 0;
    while i < w.len()
        invariant
            i <= w@.len(),
            from <= v@.len(),
            w@ == word@,
            s == v@.skip(from as int),
            s.len() == w@.len(),
            from + w@.len() == n,
            n == v@.len(),
            forall|j: int| 0 <= j < i ==> lower(#[trigger] s[j]) == word@[j],
        decreases w@.len() - i,
    {
        let c: char = v[from + i];
        assert(s[i as int] == c);
        let small: char = if 'A' <= c && c <= 'Z' {
            ((c as u8) + 32) as char
        } else {
            c
        };
        if small != w[i] {
            return false;
        }
        i = i + 1;
    }
    true
}

/// The exponent digits `from..` of `v`, but never more than 10^30.
fn capped_digits(v: &Vec<char>, from: usize) -> (x: i128)
    requires
        from <= v@.len(),
        run_end(v@.skip(from as int), 0) == v@.len() - from,
    ensures
        0 <= x <= 1_000_000_000_000_000_000_000_000_000_000,
        x < 1_000_000_000_000_000_000_000_000_000_000 ==> x == digits_value(v@.skip(from as int)),
        x == 1_000_000_000_000_000_000_000_000_000_000 ==> digits_value(v@.skip(from as int)) >= x,
{
    let mut x: i128 = 0;
    let mut i: usize = from;
    let ghost s = v@.skip(from as int);
    proof {
        lemma_run_end(s, 0);
        assert(s.take(0) =~= Seq::empty());
    }
    while i < v.len()
        invariant
            from <= i <= v@.len(),
            s == v@.skip(from as int),
            forall|j: int| 0 <= j < s.len() ==> is_digit(#[trigger] s[j]),
            0 <= x <= 1_000_000_000_000_000_000_000_000_000_000,
            x < 1_000_000_000_000_000_000_000_000_000_000 ==> x == digits_value(
                s.take(i - from),
            ),
            x == 1_000_000_000_000_000_000_000_000_000_000 ==> digits_value(s.take(i - from))
                >= x,
        decreases v@.len() - i,
    {
        assert(s[i - from] == v@[i as int]);
        assert(is_digit(s[i - from]));
        proof {
            let t = s.take(i - from + 1);
            assert(t.drop_last() =~= s.take(i - from));
            assert(t.last() == v@[i as int]);
        }
        let y: i128 = x * 10 + digit_number(v[i]) as i128;
        x = if y < 1_000_000_000_000_000_000_000_000_000_000 {
            y
        } else {
            1_000_000_000_000_000_000_000_000_000_000
        };
        i = i + 1;
    }
    assert(s.take(v@.len() - from) =~= s);
    x
}

fn append_digits(start: Natural, v: &Vec<char>, from: usize, to: usize, Ghost(before): Ghost<
    Seq<char>,
>) -> (r: Natural)
    requires
        from <= to <= v@.len(),
        start@ == digits_value(before),
        forall|j: int| from <= j < to ==> is_digit(#[trigger] v@[j]),
    ensures
        r@ == digits_value(before + v@.subrange(from as int, to as int)),
{
    let mut r: Natural = start;
    let mut i: usize = from;
    assert(before + v@.subrange(from as int, from as int) =~= before);
    while i < to
        invariant
            from <= i <= to <= v@.len(),
            forall|j: int| from <= j < to ==> is_digit(#[trigger] v@[j]),
            r@ == digits_value(before + v@.subrange(from as int, i as int)),
        decreases to - i,
    {
        r = r.mul_small(10, digit_number(v[i]));
        proof {
            let t = before + v@.subrange(from as int, i as int + 1);
            assert(t.drop_last() =~= before + v@.subrange(from as int, i as int));
            assert(t.last() == v@[i as int]);
        }
        i = i + 1;
    }
    r
}

/// What an exponent may be held at: a larger one changes nothing.
spec fn capped(x: int) -> int {
    if x > 1_000_000_000_000_000_000_000_000_000_000 {
        1_000_000_000_000_000_000_000_000_000_000
    } else if x < -1_000_000_000_000_000_000_000_000_000_000 {
        -1_000_000_000_000_000_000_000_000_000_000
    } else {
        x
    }
}

/// The exponent that characters `b..` of `body` give, capped.
fn parse_power(body: &Vec<char>, b: usize) -> (r: Option<i128>)
    requires
        b <= body@.len(),
    ensures
        match r {
            Some(p) => match exponent(body@.skip(b as int)) {
                Some(x) => p == capped(x),
                None => false,
            },
            None => exponent(body@.skip(b as int)) is None,
        },
{
    let ghost s = body@;
    let ghost tail = s.skip(b as int);
    if b == body.len() {
        return Some(0);
    }
    if body[b] != 'e' && body[b] != 'E' {
        return None;
    }
    let has_sign: bool = b + 1 < body.len() && (body[b + 1] == '+' || body[b + 1] == '-');
    let first: usize = if has_sign {
        b + 2
    } else {
        b + 1
    };
    let ghost digits = unsigned(tail.skip(1));
    assert(digits =~= s.skip(first as int));
    if first >= body.len() {
        return None;
    }
    let end: usize = run(body, first);
    proof {
        lemma_run_end_shift(s, first as int, 0);
    }
    if end != body.len() {
        return None;
    }
    let x: i128 = capped_digits(body, first);
    assert(tail[1] == s[b + 1]);
    if body[b + 1] == '-' {
        Some(-x)
    } else {
        Some(x)
    }
}

/// The magnitude nearest to `m * 10^e`, where `m` has `count` digits and `e`
/// stands for `exact`.
fn scale_magnitude(m: &Natural, count: usize, e: i128, Ghost(exact): Ghost<int>) -> (k: u64)
    requires
        m@ < ten_to(count as nat),
        -0x1_0000_0000_0000_0000_0000_0000_0000 <= e <= 0x1_0000_0000_0000_0000_0000_0000_0000,
        e == exact || (e > 400 && exact > 400) || (e + count < -400 && exact + count < -400),
    ensures
        k <= INFINITE,
        k == scaled(m@, exact),
{
    if m.is_zero() {
        proof {
            lemma_scaled_zero(exact);
        }
        return 0;
    }
    if e > 400 {
        proof {
            lemma_scaled_huge(m@, exact);
        }
        return INFINITE;
    }
    if e + (count as i128) < -400 {
        proof {
            lemma_scaled_tiny(m@, exact, count as nat);
        }
        return 0;
    }
    assert(e == exact);
    let scale: Natural = Natural::from_u64(1).shl(1074);
    if e >= 0 {
        let num: Natural = m.times(&natural_power_of_ten(e as u64)).times(&scale);
        round_ratio(&num, &Natural::from_u64(1))
    } else {
        let first: u64 = if -e > 400 {
            (-e - 400) as u64
        } else {
            0
        };
        let rest: u64 = (-e - first as i128) as u64;
        proof {
            lemma_ten_to_positive((-e) as nat);
            lemma_ten_to_adds(first as nat, rest as nat);
        }
        let den: Natural = natural_power_of_ten(first).times(&natural_power_of_ten(rest));
        round_ratio(&m.times(&scale), &den)
    }
}

/// The magnitude that characters `from..` of `v` write.
fn parse_magnitude(v: &Vec<char>, from: usize) -> (r: Option<u64>)
    requires
        from <= 1,
        from <= v@.len(),
    ensures
        match r {
            Some(k) => k <= INFINITE && match number(v@.skip(from as int)) {
                Some(n) => k == scaled(digits_value(n.0), n.1),
                None => false,
            },
            None => number(v@.skip(from as int)) is None,
        },
{
    let mut body: Vec<char> = Vec::new();
    let mut i: usize = from;
    while i < v.len()
        invariant
            from <= i <= v@.len(),
            body@ =~= v@.subrange(from as int, i as int),
        decreases v@.len() - i,
    {
        body.push(v[i]);
        i = i + 1;
    }
    let ghost s = v@.skip(from as int);
    assert(body@ =~= s);
    let a: usize = run(&body, 0);
    let b: usize = if a < body.len() && body[a] == '.' {
        run(&body, a + 1)
    } else {
        a
    };
    proof {
        lemma_run_end(s, 0);
        if b > a {
            lemma_run_end(s, a + 1);
        }
        assert(number_ends(s) == (a as int, b as int));
    }
    let count: usize = if b > a {
        b - 1
    } else {
        a
    };
    assert(mantissa(s).len() == count);
    if count == 0 {
        return None;
    }
    let power: i128 = match parse_power(&body, b) {
        Some(p) => p,
        None => {
            return None;
        },
    };
    let whole: Natural = append_digits(Natural::from_u64(0), &body, 0, a, Ghost(Seq::empty()));
    assert(Seq::<char>::empty() + s.subrange(0, a as int) =~= s.take(a as int));
    let m: Natural = if b > a {
        append_digits(whole, &body, a + 1, b, Ghost(s.take(a as int)))
    } else {
        whole
    };
    let ghost digits = mantissa(s);
    assert(m@ == digits_value(digits));
    let e: i128 = power - (count - a) as i128;
    let ghost exact = exponent(s.skip(b as int))->0 - (count - a);
    assert(number(s) == Some((digits, exact)));
    proof {
        assert forall|j: int| 0 <= j < digits.len() implies is_digit(#[trigger] digits[j]) by {
            if j < a {
                assert(digits[j] == s[j]);
            } else {
                assert(digits[j] == s[j + 1]);
            }
        }
        lemma_digits_bound(digits);
    }
    Some(scale_magnitude(&m, count, e, Ghost(exact)))
}

proof fn lemma_scaled_zero(e: int)
    ensures
        scaled(0, e) == 0,
{
    let u = one_in_units();
    assert(0 * u == 0) by (nonlinear_arith);
    if e >= 0 {
        let t = ten_to(e as nat);
        assert(0 * t == 0) by (nonlinear_arith);
        assert(nearest(0, 1, 0));
        lemma_rounded_is(0, 1, 0);
    } else {
        lemma_ten_to_positive((-e) as nat);
        let t = ten_to((-e) as nat);
        assert(units(0) + units(1) == 1);
        assert(nearest(0, t, 0));
        lemma_rounded_is(0, t, 0);
    }
}

proof fn lemma_run_end_shift(s: Seq<char>, from: int, i: int)
    requires
        0 <= from <= s.len(),
        0 <= i <= s.len() - from,
    ensures
        run_end(s, from + i) == from + run_end(s.skip(from), i),
    decreases s.len() - from - i,
{
    if from + i < s.len() && is_digit(s[from + i]) {
        lemma_run_end_shift(s, from, i + 1);
    }
}

/// The number that `s` writes, if it writes one.
pub fn parse_double(s: &str) -> (r: Option<Double>)
    ensures
        r == parsed(s@),
{
    let v: Vec<char> = chars_of(s);
    let negative: bool = v.len() > 0 && v[0] == '-';
    let from: usize = if v.len() > 0 && (v[0] == '+' || v[0] == '-') {
        1
    } else {
        0
    };
    assert(unsigned(s@) =~= v@.skip(from as int));
    if is_word(&v, from, "inf") || is_word(&v, from, "infinity") {
        return Some(signed_pattern(negative, INFINITE));
    }
    if is_word(&v, from, "nan") {
        return Some(signed_pattern(negative, NAN_BITS));
    }
    match parse_magnitude(&v, from) {
        Some(k) => Some(signed_pattern(negative, k)),
        None => None,
    }
}

fn signed_pattern(negative: bool, k: u64) -> (r: Double)
    requires
        k < SIGN,
    ensures
        r == assemble(negative, k as nat),
{
    if negative {
        Double { bits: k + SIGN }
    } else {
        Double { bits: k }
    }
}

} // verus!
