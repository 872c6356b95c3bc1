//! Numbers in writing.
use crate::decimal::{
    digits_value, exponent, fixed, half_even, is_digit, lemma_run_end, lower, mantissa, number,
    number_ends, padded,
    parsed, pointed, run_end, spells, unsigned,
};
use crate::double::{
    assemble, lemma_rounded_is_nearest, one_in_units, rounded, units, Double, INFINITE,
};
use crate::laws::arithmetic::{apart, law_too_large_is_infinite, lemma_none_nearer_signed};
use crate::laws::beginnings::{counted_up, law_decimal_counts_up_to_the_number};
use crate::natural::{lemma_ten_to_positive, lemma_two_to_positive, ten_to};
use crate::text::decimal;
use vstd::arithmetic::div_mod::lemma_fundamental_div_mod;
use vstd::prelude::*;

verus! {

/// Whether a text is made of digits only.
pub open spec fn all_digits(s: Seq<char>) -> bool {
    forall|i: int| 0 <= i < s.len() ==> '0' <= #[trigger] s[i] <= '9'
}

/// The sign that is written in front of a number.
pub open spec fn sign_text(negative: bool) -> Seq<char> {
    if negative {
        seq!['-']
    } else {
        Seq::empty()
    }
}

/// Whether `n` steps of ten to the power `-places` are as near to a magnitude
/// as a whole number of such steps can be, the even number half way.
pub open spec fn as_near_as_can_be(n: int, d: Double, places: nat) -> bool {
    let off = apart(n * one_in_units(), units(d.pattern()) * ten_to(places) as int);
    2 * off < one_in_units() || (2 * off == one_in_units() && n % 2 == 0)
}

proof fn lemma_half_even(num: nat, den: nat)
    requires
        den > 0,
    ensures
        2 * apart((half_even(num, den) * den) as int, num as int) <= den,
        2 * apart((half_even(num, den) * den) as int, num as int) == den ==> half_even(num, den) % 2
            == 0,
{
    let (q, r) = (num / den, num % den);
    lemma_fundamental_div_mod(num as int, den as int);
    assert(den * q == q * den) by (nonlinear_arith);
    assert((q + 1) * den == q * den + den) by (nonlinear_arith);
}

proof fn lemma_leading_zeros(k: nat, s: Seq<char>)
    ensures
        counted_up(Seq::new(k, |i: int| '0') + s) == counted_up(s),
    decreases k + s.len(),
{
    let zeros = Seq::new(k, |i: int| '0');
    let all = zeros + s;
    if s.len() > 0 {
        assert(all.drop_last() =~= zeros + s.drop_last());
        lemma_leading_zeros(k, s.drop_last());
    } else if k > 0 {
        let fewer = Seq::new((k - 1) as nat, |i: int| '0');
        assert(all.drop_last() =~= fewer + s);
        lemma_leading_zeros((k - 1) as nat, s);
    } else {
        assert(all =~= s);
    }
}

/// The digits before and after the point that a finite number is written with.
pub open spec fn written(whole: Seq<char>, part: Seq<char>) -> Seq<char> {
    if part.len() == 0 {
        whole
    } else {
        whole + seq!['.'] + part
    }
}

/// A finite number in writing has its sign, at least one digit, and exactly as
/// many decimal places as were asked for. What it says is as near to the
/// number as that many places allow, and there is no needless zero in front.
pub proof fn law_number_is_written_with_its_places(d: Double, places: u32)
    requires
        d.finite(),
    ensures
        exists|whole: Seq<char>, part: Seq<char>|
            {
                &&& fixed(d, places) == sign_text(d.negative()) + #[trigger] written(whole, part)
                &&& part.len() == places
                &&& whole.len() > 0
                &&& whole.len() > 1 ==> whole[0] != '0'
                &&& all_digits(whole)
                &&& all_digits(part)
                &&& as_near_as_can_be(counted_up(whole + part), d, places as nat)
            },
{
    let p = places as nat;
    let num = units(d.pattern()) * ten_to(p);
    lemma_two_to_positive(1074);
    lemma_half_even(num, one_in_units());
    let n = half_even(num, one_in_units());
    law_decimal_counts_up_to_the_number(n);
    let plain = decimal(n);
    let all = padded(plain, p + 1);
    let whole = all.take(all.len() - p);
    let part = all.skip(all.len() - p);
    assert(whole + part =~= all);
    if plain.len() < p + 1 {
        lemma_leading_zeros((p + 1 - plain.len()) as nat, plain);
    }
    assert(counted_up(whole + part) == n);
    if whole.len() > 1 {
        assert(whole[0] == plain[0]);
        if n == 0 {
            assert(plain =~= seq!['0']);
        }
    }
    assert forall|i: int| 0 <= i < whole.len() implies '0' <= #[trigger] whole[i] <= '9' by {
        assert(whole[i] == all[i]);
    }
    assert forall|i: int| 0 <= i < part.len() implies '0' <= #[trigger] part[i] <= '9' by {
        assert(part[i] == all[all.len() - p + i]);
    }
    reveal_strlit(".");
    reveal_strlit("-");
    assert("."@ =~= seq!['.']);
    assert("-"@ =~= seq!['-']);
    assert(pointed(n, p) =~= written(whole, part));
    assert(fixed(d, places) =~= sign_text(d.negative()) + written(whole, part));
}

/// What is not finite is written in words.
pub proof fn law_what_is_not_finite_is_written_in_words(d: Double, places: u32)
    ensures
        d.not_a_number() ==> fixed(d, places) == "NaN"@,
        d.infinite() && !d.negative() ==> fixed(d, places) == "inf"@,
        d.infinite() && d.negative() ==> fixed(d, places) == "-inf"@,
{
    reveal_strlit("-");
    reveal_strlit("inf");
    reveal_strlit("-inf");
    assert("-"@ + "inf"@ =~= "-inf"@);
}

proof fn lemma_run(s: Seq<char>, from: int, to: int)
    requires
        0 <= from <= to <= s.len(),
        forall|i: int| from <= i < to ==> '0' <= #[trigger] s[i] <= '9',
        to < s.len() ==> !is_digit(s[to]),
    ensures
        run_end(s, from) == to,
    decreases to - from,
{
    if from < to {
        assert('0' <= s[from] <= '9');
        lemma_run(s, from + 1, to);
    }
}

proof fn lemma_same_value(s: Seq<char>)
    requires
        all_digits(s),
    ensures
        digits_value(s) == counted_up(s),
    decreases s.len(),
{
    if s.len() > 0 {
        let rest = s.drop_last();
        assert forall|i: int| 0 <= i < rest.len() implies '0' <= #[trigger] rest[i] <= '9' by {
            assert(rest[i] == s[i]);
        }
        lemma_same_value(rest);
        assert('0' <= s[s.len() - 1] <= '9');
    }
}

/// Reading a text of digits and a point gives a number with the sign that is
/// written, and no finite number is nearer to what the digits say. It is
/// infinite exactly where that is beyond half way to what would follow the
/// largest finite number.
pub proof fn law_written_number_is_read_as_the_nearest(
    negative: bool,
    whole: Seq<char>,
    part: Seq<char>,
    other: Double,
)
    requires
        whole.len() + part.len() > 0,
        all_digits(whole),
        all_digits(part),
        other.finite(),
    ensures
        parsed(sign_text(negative) + written(whole, part)) matches Some(d) && {
            let says = if negative {
                -counted_up(whole + part)
            } else {
                counted_up(whole + part)
            };
            let steps = ten_to(part.len()) as int;
            &&& !d.not_a_number()
            &&& d.negative() == negative
            &&& d.infinite() <==> (units((INFINITE - 1) as nat) + units(INFINITE as nat)) * steps
                <= 2 * (counted_up(whole + part) * one_in_units())
            &&& d.finite() ==> apart(d.value() * steps, says * one_in_units()) <= apart(
                other.value() * steps,
                says * one_in_units(),
            )
        },
{
    let body = written(whole, part);
    let s = sign_text(negative) + body;
    let all = whole + part;
    let a = whole.len() as int;
    assert forall|i: int| 0 <= i < all.len() implies '0' <= #[trigger] all[i] <= '9' by {
        if i < a {
            assert(all[i] == whole[i]);
        } else {
            assert(all[i] == part[i - a]);
        }
    }
    lemma_same_value(all);
    // The body begins with a digit or a point.
    if whole.len() > 0 {
        assert(body[0] == whole[0]);
    } else {
        assert(body[0] == '.');
    }
    if negative {
        assert(s[0] == '-');
        assert(s.skip(1) =~= body);
    } else {
        assert(s =~= body);
    }
    assert(unsigned(s) == body);
    reveal_strlit("inf");
    reveal_strlit("infinity");
    reveal_strlit("nan");
    assert("inf"@[0] == 'i' && "infinity"@[0] == 'i' && "nan"@[0] == 'n');
    assert(!spells(body, "inf"@) && !spells(body, "infinity"@) && !spells(body, "nan"@));
    assert forall|i: int| 0 <= i < a implies '0' <= #[trigger] body[i] <= '9' by {
        assert(body[i] == whole[i]);
    }
    lemma_run(body, 0, a);
    let b = body.len() as int;
    if part.len() > 0 {
        assert forall|i: int| a + 1 <= i < b implies '0' <= #[trigger] body[i] <= '9' by {
            assert(body[i] == part[i - a - 1]);
        }
        lemma_run(body, a + 1, b);
        assert(number_ends(body) == (a, b));
        assert(mantissa(body) =~= all);
    } else {
        assert(number_ends(body) == (a, a));
        assert(mantissa(body) =~= all);
    }
    assert(exponent(body.skip(b)) == Some(0int));
    assert(number(body) == Some((all, -(part.len() as int))));
    let m = digits_value(all);
    let o = one_in_units();
    let den = ten_to(part.len());
    lemma_ten_to_positive(part.len());
    if part.len() == 0 {
        assert(ten_to(0) == 1);
        assert(m * ten_to(0) * o == m * o) by (nonlinear_arith)
            requires
                ten_to(0) == 1,
        ;
    }
    let d = parsed(s)->Some_0;
    lemma_rounded_is_nearest(m * o, den);
    assert(d == assemble(negative, rounded(m * o, den)));
    assert((-(m as int)) * o == -(m * o)) by (nonlinear_arith);
    law_too_large_is_infinite(m * o, den);
    if d.finite() {
        lemma_none_nearer_signed(negative, m * o, den, d, other);
    }
}

/// Whether a character can stand in a number in writing.
pub open spec fn can_stand(c: char) -> bool {
    ||| is_digit(c)
    ||| c == '.' || c == '+' || c == '-'
    ||| lower(c) == 'e' || lower(c) == 'i' || lower(c) == 'n' || lower(c) == 'f'
    ||| lower(c) == 't' || lower(c) == 'y' || lower(c) == 'a'
}

/// A text with a character that no number has is not read as one; neither is
/// an empty text, nor a sign alone.
pub proof fn law_what_is_no_number_is_not_read(s: Seq<char>, i: int)
    ensures
        0 <= i < s.len() && !can_stand(s[i]) ==> parsed(s) is None,
        s.len() == 0 ==> parsed(s) is None,
        s.len() == 1 && (s[0] == '-' || s[0] == '+') ==> parsed(s) is None,
{
    reveal_strlit("inf");
    reveal_strlit("infinity");
    reveal_strlit("nan");
    let body = unsigned(s);
    if body.len() == 0 {
        assert(mantissa(body).len() == 0);
    }
    if 0 <= i < s.len() && !can_stand(s[i]) {
        let from = s.len() - body.len();
        let k = i - from;
        assert(body[k] == s[i]);
        assert(!spells(body, "inf"@)) by {
            if spells(body, "inf"@) {
                assert(lower(body[k]) == "inf"@[k]);
            }
        }
        assert(!spells(body, "infinity"@)) by {
            if spells(body, "infinity"@) {
                assert(lower(body[k]) == "infinity"@[k]);
            }
        }
        assert(!spells(body, "nan"@)) by {
            if spells(body, "nan"@) {
                assert(lower(body[k]) == "nan"@[k]);
            }
        }
        lemma_run_end(body, 0);
        let (a, b) = number_ends(body);
        if a < body.len() && body[a] == '.' {
            lemma_run_end(body, a + 1);
        }
        assert(k >= b);
        let rest = body.skip(b);
        assert(rest[k - b] == s[i]);
        if exponent(rest) is Some {
            let digits = unsigned(rest.skip(1));
            lemma_run_end(digits, 0);
            let j = k - b - (rest.len() - digits.len());
            assert(digits[j] == s[i]);
        }
    }
}


} // verus!
