//! What a trader begins with.
use crate::double::{hundred, one_in_units, units, zero, Double};
use crate::entry::entered;
use crate::natural::{lemma_two_to_adds, two_to};
use crate::text::decimal;
use crate::trader::{default_slippage, secret_bytes, unused_trader, TraderView};
use vstd::prelude::*;

verus! {

/// A new trader has the balance that it was given, as its equity too, and
/// nothing else: no position, order, trade, gain or knowledge of pairs. It
/// refuses shorts and places entries that rest.
pub proof fn law_new_trader_has_only_its_balance(
    rest_url: Seq<char>,
    api_key: Seq<char>,
    decoded: Option<Seq<u8>>,
    balance: Double,
    fee_rate: Double,
    id: Seq<char>,
)
    ensures
        ({
            let t = unused_trader(rest_url, api_key, secret_bytes(decoded), balance, fee_rate);
            &&& t.rest_url == rest_url
            &&& t.api_key == api_key
            &&& decoded is Some ==> t.api_secret == decoded->Some_0
            &&& decoded is None ==> t.api_secret.len() == 0
            &&& t.account.balance == balance
            &&& t.account.equity == balance
            &&& t.account.daily_pnl == zero()
            &&& t.account.open_positions == 0
            &&& t.order_counter == 0
            &&& t.fee_rate == fee_rate
            &&& !t.allow_shorts
            &&& t.entry_mode == "post_only"@
            &&& t.closed_trades.len() == 0
            &&& !t.positions.contains_key(id)
            &&& !t.stop_orders.contains_key(id)
            &&& !t.tp_orders.contains_key(id)
            &&& !t.pair_meta.contains_key(id)
        }),
{
}

/// The slippage that is allowed at first is fifteen ten-thousandths, to within
/// half of the distance between neighbouring numbers there.
pub proof fn law_first_slippage_is_fifteen_basis_points(
    rest_url: Seq<char>,
    api_key: Seq<char>,
    secret: Seq<u8>,
    balance: Double,
    fee_rate: Double,
)
    ensures
        ({
            let s = unused_trader(rest_url, api_key, secret, balance, fee_rate).max_entry_slippage;
            let off = s.value() * 10000 - 15 * one_in_units();
            &&& s.finite()
            &&& !s.negative()
            &&& -10000 * two_to(1012) <= 2 * off <= 10000 * two_to(1012)
        }),
{
    let k: nat = 0x3f58_9374_bc6a_7efa;
    let b: nat = 0x10_0000_0000_0000;
    assert(default_slippage().pattern() == k);
    assert(k / b == 1013 && k % b == 0x8_9374_bc6a_7efa);
    let t = two_to(1012);
    assert(units(k) == (0x8_9374_bc6a_7efa + b) * t);
    lemma_two_to_adds(62, 1012);
    lemma_two_to_adds(31, 31);
    assert(two_to(31) == 0x8000_0000) by {
        reveal_with_fuel(two_to, 32);
    }
    assert(two_to(62) == 0x4000_0000_0000_0000);
    assert(units(k) == 0x18_9374_bc6a_7efa * t);
    assert(one_in_units() == 0x4000_0000_0000_0000 * t);
}

/// The number that percentages are counted by is exactly one hundred.
pub proof fn law_hundred_is_exact()
    ensures
        hundred().finite(),
        hundred().value() == 100 * one_in_units(),
{
    let k: nat = 0x4059_0000_0000_0000;
    let b: nat = 0x10_0000_0000_0000;
    assert(hundred().pattern() == k);
    assert(k / b == 1029 && k % b == 0x9_0000_0000_0000);
    let t = two_to(1028);
    assert(units(k) == (0x9_0000_0000_0000 + b) * t);
    lemma_two_to_adds(46, 1028);
    lemma_two_to_adds(23, 23);
    assert(two_to(23) == 0x80_0000) by {
        reveal_with_fuel(two_to, 24);
    }
    assert(two_to(46) == 0x4000_0000_0000);
    assert(units(k) == 0x19_0000_0000_0000 * t);
    assert(one_in_units() == 0x4000_0000_0000 * t);
}

/// An entry that ended with an order counts by one, and changes nothing else.
pub proof fn law_entry_counts_by_one(t: TraderView)
    requires
        t.order_counter < u64::MAX,
    ensures
        entered(t).order_counter == t.order_counter + 1,
        entered(t).positions == t.positions,
        entered(t).closed_trades == t.closed_trades,
        entered(t).account == t.account,
        entered(t).stop_orders == t.stop_orders,
        entered(t).tp_orders == t.tp_orders,
        entered(t).pair_meta == t.pair_meta,
        entered(t).allow_shorts == t.allow_shorts,
        entered(t).entry_mode == t.entry_mode,
{
}

/// The value that a sequence of decimal digits has.
pub open spec fn counted_up(digits: Seq<char>) -> int
    decreases digits.len(),
{
    if digits.len() == 0 {
        0
    } else {
        10 * counted_up(digits.drop_last()) + (digits.last() as int - '0' as int)
    }
}

/// A number in decimal has the value that its digits count up to, is made of
/// digits only, and has no zero in front unless it is zero.
pub proof fn law_decimal_counts_up_to_the_number(n: nat)
    ensures
        counted_up(decimal(n)) == n,
        decimal(n).len() > 0,
        forall|i: int| 0 <= i < decimal(n).len() ==> '0' <= #[trigger] decimal(n)[i] <= '9',
        n > 0 ==> decimal(n)[0] != '0',
    decreases n,
{
    if n >= 10 {
        law_decimal_counts_up_to_the_number(n / 10);
        assert(decimal(n).drop_last() =~= decimal(n / 10));
    } else {
        assert(decimal(n).drop_last() =~= Seq::empty());
        reveal_with_fuel(counted_up, 2);
    }
}

} // verus!
