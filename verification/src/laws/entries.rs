//! When an order is accepted, and what an entry leads to.
use crate::clock::Timestamp;
use crate::close::{closing_order, with_order, ClosePosition, CloseStep, OrderStep};
use crate::decimal::fixed;
use crate::double::{
    at_most, difference, larger, less_than, one, one_in_units, positive, product, sum, units, zero,
    Double,
};
use crate::entry::{
    entered, entry_order, entry_start, entry_step, least_price, Entry, EntryStep, PlaceOrder,
    Route,
};
use crate::error::{ErrorView, ExecutionError, Fault};
use crate::fill::{told, ConfirmFill, LimitFill, Report};
use crate::json::Json;
use crate::laws::numbers::law_comparison_covers_all_numbers;
use crate::laws::sent::price_in;
use crate::market::ticker_price;
use crate::natural::{lemma_two_to_adds, two_to};
use crate::request::{filed_as, reply, CallView, StepView};
use crate::text::decimal;
use crate::trader::{TradeView, TraderView};
use crate::types::{Fill, Order, OrderStatus, OrderType, Side};
use vstd::prelude::*;

verus! {

/// An order of a pair whose metadata is known is accepted exactly where its
/// rounded volume is above zero, is not below the least volume that is set,
/// and at this price does not cost less than the least cost that is set. It
/// is then for that volume. Of the refusals, the volume's come first, and each
/// says what was too small.
pub proof fn law_order_is_accepted_by_its_minimums(
    t: TraderView,
    pair: Seq<char>,
    volume: Double,
    price: Double,
)
    requires
        t.pair_meta.contains_key(pair),
    ensures
        ({
            let m = t.pair_meta[pair];
            let r = t.rounded_volume(pair, volume);
            let cost = product(r, price);
            let nothing = at_most(r, zero());
            let little = positive(m.ordermin) && less_than(r, m.ordermin);
            let cheap = positive(m.costmin) && less_than(cost, m.costmin);
            let out = t.validated(pair, volume, price);
            &&& out is Ok <==> !nothing && !little && !cheap
            &&& out is Ok ==> out->Ok_0 == r
            &&& nothing ==> out == Result::<Double, ErrorView>::Err(
                ExecutionError::ExchangeError(
                    Fault::RoundsToZero { pair, volume, lot_decimals: m.lot_decimals },
                ),
            )
            &&& !nothing && little ==> out == Result::<Double, ErrorView>::Err(
                ExecutionError::ExchangeError(
                    Fault::BelowOrderMin { pair, volume: r, ordermin: m.ordermin },
                ),
            )
            &&& !nothing && !little && cheap ==> out == Result::<Double, ErrorView>::Err(
                ExecutionError::ExchangeError(
                    Fault::BelowCostMin { pair, cost, costmin: m.costmin },
                ),
            )
        }),
{
}

/// An order of a pair of which nothing is known has no minimums: it is
/// accepted exactly where its rounded volume is above zero.
pub proof fn law_unknown_pair_has_no_minimums(
    t: TraderView,
    pair: Seq<char>,
    volume: Double,
    price: Double,
)
    requires
        !t.pair_meta.contains_key(pair),
    ensures
        ({
            let r = t.rounded_volume(pair, volume);
            let out = t.validated(pair, volume, price);
            &&& !at_most(r, zero()) ==> out == Result::<Double, ErrorView>::Ok(r)
            &&& at_most(r, zero()) ==> out == Result::<Double, ErrorView>::Err(
                ExecutionError::ExchangeError(
                    Fault::RoundsToZero { pair, volume, lot_decimals: 8 },
                ),
            )
        }),
{
}

/// An entry at a price of at least one millionth is held against the minimums
/// at that price: it goes on to a call exactly where it meets them there, and
/// is refused for its cost only where volume times that price is too little.
pub proof fn law_entry_is_held_to_its_own_price(
    t: TraderView,
    pair: Seq<char>,
    side: Side,
    quantity: Double,
    price: Double,
)
    requires
        at_most(least_price(), price),
        side == Side::Long || t.allow_shorts,
        t.pair_meta.contains_key(pair),
    ensures
        ({
            let m = t.pair_meta[pair];
            let r = t.rounded_volume(pair, quantity);
            let cost = product(r, price);
            let nothing = at_most(r, zero());
            let little = positive(m.ordermin) && less_than(r, m.ordermin);
            let cheap = positive(m.costmin) && less_than(cost, m.costmin);
            let out = entry_start(t, pair, side, quantity, Some(price));
            let e = Entry { pair, side, volume: r, ref_price: price };
            &&& out is Call <==> !nothing && !little && !cheap
            &&& out is Call && t.entry_mode == "marketable"@ ==> out == EntryStep::Call(
                0,
                PlaceOrder::Pricing(e),
                CallView::Public("Ticker"@, seq![("pair"@, m.altname)]),
            )
            &&& out is Call && t.entry_mode != "marketable"@ ==> {
                &&& out matches StepView::Call(pause, v, CallView::Private(endpoint, params))
            &&& pause == 0
                &&& endpoint == "AddOrder"@
                &&& params.contains(("price"@, fixed(price, m.price_decimals)))
                &&& params.contains(("volume"@, fixed(r, m.lot_decimals)))
                &&& params.contains(("oflags"@, "post"@))
                &&& v == PlaceOrder::Adding(e, Route::PostOnly(price))
            }
            &&& nothing ==> out == EntryStep::Done(
                0,
                Err(
                    ExecutionError::ExchangeError(
                        Fault::RoundsToZero {
                            pair,
                            volume: quantity,
                            lot_decimals: m.lot_decimals,
                        },
                    ),
                ),
            )
            &&& !nothing && little ==> out == EntryStep::Done(
                0,
                Err(
                    ExecutionError::ExchangeError(
                        Fault::BelowOrderMin { pair, volume: r, ordermin: m.ordermin },
                    ),
                ),
            )
            &&& !nothing && !little && cheap ==> out == EntryStep::Done(
                0,
                Err(
                    ExecutionError::ExchangeError(
                        Fault::BelowCostMin { pair, cost, costmin: m.costmin },
                    ),
                ),
            )
        }),
{
    let m = t.pair_meta[pair];
    let r = t.rounded_volume(pair, quantity);
    assert(larger(price, least_price()) == price);
    let out = entry_start(t, pair, side, quantity, Some(price));
    if let StepView::Call(_, _, CallView::Private(_, p)) = out {
        assert(p[2] == ("volume"@, fixed(r, m.lot_decimals)));
        assert(p[4] == ("price"@, fixed(price, m.price_decimals)));
        assert(p[5] == ("oflags"@, "post"@));
    }
}

/// The same over values: a volume above zero that is at least the least one,
/// and that at the price costs at least the least cost, is not refused; and
/// what is refused for its cost does cost less, at that price.
pub proof fn law_entry_is_held_to_its_own_price_by_value(
    t: TraderView,
    pair: Seq<char>,
    side: Side,
    quantity: Double,
    price: Double,
)
    requires
        at_most(least_price(), price),
        side == Side::Long || t.allow_shorts,
        t.pair_meta.contains_key(pair),
        t.pair_meta[pair].ordermin.finite(),
        t.pair_meta[pair].costmin.finite(),
        t.rounded_volume(pair, quantity).finite(),
        product(t.rounded_volume(pair, quantity), price).finite(),
    ensures
        ({
            let m = t.pair_meta[pair];
            let r = t.rounded_volume(pair, quantity);
            let cost = product(r, price);
            let out = entry_start(t, pair, side, quantity, Some(price));
            &&& r.value() > 0 && r.value() >= m.ordermin.value() && cost.value()
                >= m.costmin.value() ==> out is Call
            &&& (out matches StepView::Done(
                _,
                Err(
                    ExecutionError::ExchangeError(
                        Fault::BelowCostMin { pair: _, cost: c, costmin: _ },
                    ),
                ),
            ) ==> c == cost && cost.value() < m.costmin.value())
            &&& out is Call ==> r.value() > 0
        }),
{
    let m = t.pair_meta[pair];
    let r = t.rounded_volume(pair, quantity);
    let cost = product(r, price);
    law_entry_is_held_to_its_own_price(t, pair, side, quantity, price);
    law_comparison_covers_all_numbers(r, zero());
    law_comparison_covers_all_numbers(m.ordermin, r);
    law_comparison_covers_all_numbers(r, m.ordermin);
    law_comparison_covers_all_numbers(m.costmin, cost);
    law_comparison_covers_all_numbers(cost, m.costmin);
}

/// An entry of a pair of which nothing is known, at such a price, goes on
/// exactly where its rounded volume is above zero.
pub proof fn law_entry_of_an_unknown_pair(
    t: TraderView,
    pair: Seq<char>,
    side: Side,
    quantity: Double,
    price: Double,
)
    requires
        at_most(least_price(), price),
        side == Side::Long || t.allow_shorts,
        !t.pair_meta.contains_key(pair),
    ensures
        entry_start(t, pair, side, quantity, Some(price)) is Call <==> !at_most(
            t.rounded_volume(pair, quantity),
            zero(),
        ),
{
}

/// An entry at a price above zero but below one millionth is held against the
/// minimums at one millionth.
pub proof fn law_entry_at_a_tiny_price(
    t: TraderView,
    pair: Seq<char>,
    side: Side,
    quantity: Double,
    price: Double,
)
    requires
        positive(price),
        less_than(price, least_price()),
        side == Side::Long || t.allow_shorts,
    ensures
        entry_start(t, pair, side, quantity, Some(price)) is Call <==> t.validated(
            pair,
            quantity,
            least_price(),
        ) is Ok,
{
}

/// An entry without a price is held against the minimums at the price of the
/// position of that name, or at one millionth where that is more or there is
/// none, and goes to the market.
pub proof fn law_entry_without_a_price(
    t: TraderView,
    pair: Seq<char>,
    side: Side,
    quantity: Double,
)
    requires
        side == Side::Long || t.allow_shorts,
    ensures
        ({
            let known = t.positions.contains_key(pair) && less_than(
                least_price(),
                t.positions[pair].current_price,
            );
            let price = if known {
                t.positions[pair].current_price
            } else {
                least_price()
            };
            let out = entry_start(t, pair, side, quantity, None);
            &&& out is Call <==> t.validated(pair, quantity, price) is Ok
            &&& out matches StepView::Call(_, v, CallView::Private(endpoint, params)) ==> {
                &&& endpoint == "AddOrder"@
                &&& params.contains(("ordertype"@, "market"@))
                &&& v matches PlaceOrder::Adding(e, Route::Market)
                &&& e.volume == t.rounded_volume(pair, quantity)
                &&& e.pair == pair
                &&& e.side == side
            }
            &&& out matches StepView::Done(_, r) ==> r is Err && t.validated(
                pair,
                quantity,
                price,
            ) is Err && r->Err_0 == t.validated(pair, quantity, price)->Err_0
        }),
{
    let out = entry_start(t, pair, side, quantity, None);
    if t.positions.contains_key(pair) {
        let now = t.positions[pair].current_price;
        law_comparison_covers_all_numbers(least_price(), now);
        if !less_than(least_price(), now) {
            assert(larger(now, least_price()) == least_price());
        }
    } else {
        assert(larger(zero(), least_price()) == least_price());
    }
    if let StepView::Call(_, _, CallView::Private(_, p)) = out {
        assert(p[3] == ("ordertype"@, "market"@));
    }
}

/// The least price is one millionth, to within half of the distance between
/// neighbouring numbers there.
pub proof fn law_least_price_is_one_millionth()
    ensures
        least_price().finite(),
        !least_price().negative(),
        2 * (least_price().value() * 1000000 - one_in_units()) <= 1000000 * two_to(1002),
        -1000000 * two_to(1002) <= 2 * (least_price().value() * 1000000 - one_in_units()),
{
    let k: nat = 0x3eb0_c6f7_a0b5_ed8d;
    let b: nat = 0x10_0000_0000_0000;
    assert(least_price().pattern() == k);
    assert(k / b == 1003 && k % b == 0xc6f7_a0b5_ed8d);
    let t = two_to(1002);
    assert(units(k) == (0xc6f7_a0b5_ed8d + b) * t);
    lemma_two_to_adds(72, 1002);
    lemma_two_to_adds(36, 36);
    assert(two_to(36) == 0x10_0000_0000) by {
        reveal_with_fuel(two_to, 37);
    }
    assert(two_to(72) == 0x100_0000_0000_0000_0000);
    assert(units(k) == 0x10_c6f7_a0b5_ed8d * t);
    assert(one_in_units() == 0x100_0000_0000_0000_0000 * t);
}

/// A marketable entry asks for the market price first, and its limit is that
/// price and the allowed slippage beyond it: above for a long, below for a
/// short. Without a market price it is counted from the price of the entry.
pub proof fn law_marketable_limit_is_market_and_slippage(
    t: TraderView,
    e: Entry<Seq<char>>,
    sent: Result<Json, String>,
    created: Timestamp,
    filled: Timestamp,
)
    ensures
        ({
            let market = if ticker_price(sent) is Ok {
                ticker_price(sent)->Ok_0
            } else {
                e.ref_price
            };
            let limit = if e.side == Side::Long {
                product(market, sum(one(), t.max_entry_slippage))
            } else {
                product(market, difference(one(), t.max_entry_slippage))
            };
            let out = entry_step(t, PlaceOrder::Pricing(e), sent, created, filled);
            &&& out.0 == t
            &&& out.1 matches StepView::Call(pause, v, CallView::Private(endpoint, params))
            &&& pause == 0
            &&& v == PlaceOrder::Adding(e, Route::Marketable(limit))
            &&& endpoint == "AddOrder"@
            &&& params.contains(
                ("price"@, price_in(t, e.pair, limit)),
            )
        }),
{
    let out = entry_step(t, PlaceOrder::Pricing(e), sent, created, filled);
    if let StepView::Call(_, _, CallView::Private(_, p)) = out.1 {
        assert(p[4].0 == "price"@);
        assert(p.contains(p[4]));
    }
}

/// Once an entry order is filed it is watched by the name that it was given:
/// a market order twice a second, a limit order once a second for
/// twenty-five seconds where it is to rest, for eight where it is to cross.
pub proof fn law_filed_entry_is_watched(
    t: TraderView,
    e: Entry<Seq<char>>,
    route: Route,
    body: Json,
    created: Timestamp,
    filled: Timestamp,
)
    requires
        reply(Ok(body)) is Ok,
    ensures
        ({
            let txid = if filed_as(body) is Some {
                filed_as(body)->Some_0
            } else {
                "unknown"@
            };
            let asked = CallView::Private("QueryOrders"@, seq![("txid"@, txid)]);
            let out = entry_step(t, PlaceOrder::Adding(e, route), Ok(body), created, filled);
            &&& out.0 == t
            &&& out.1 == match route {
                Route::Market => EntryStep::Call(
                    0,
                    PlaceOrder::Confirming(e, ConfirmFill { txid, attempt: 0 }),
                    asked,
                ),
                Route::PostOnly(limit) => EntryStep::Call(
                    1000,
                    PlaceOrder::Watching(e, limit, LimitFill { txid, left: 25 }),
                    asked,
                ),
                Route::Marketable(limit) => EntryStep::Call(
                    1000,
                    PlaceOrder::Watching(e, limit, LimitFill { txid, left: 8 }),
                    asked,
                ),
            }
        }),
{
}

/// A limit entry that is told to be closed with something executed ends with
/// an order for just that: pair and side of the entry, price and volume of the
/// fill.
pub proof fn law_executed_limit_entry_ends(
    t: TraderView,
    e: Entry<Seq<char>>,
    limit: Double,
    w: LimitFill<Seq<char>>,
    sent: Result<Json, String>,
    created: Timestamp,
    filled: Timestamp,
    fill: Fill,
)
    requires
        told(sent, w.txid) == Some(Report { status: "closed"@, fill }),
        positive(fill.volume),
    ensures
        ({
            let out = entry_step(t, PlaceOrder::Watching(e, limit, w), sent, created, filled);
            &&& out.0 == entered(t)
            &&& out.1 == EntryStep::Done(
                0,
                Ok(
                    Order {
                        id: w.txid,
                        pair: e.pair,
                        side: e.side,
                        order_type: OrderType::Limit,
                        price: Some(fill.price),
                        quantity: fill.volume,
                        status: OrderStatus::Filled,
                        created_at: created,
                        filled_at: Some(filled),
                        filled_price: Some(fill.price),
                    },
                ),
            )
        }),
{
}

/// The same of a market entry.
pub proof fn law_executed_market_entry_ends(
    t: TraderView,
    e: Entry<Seq<char>>,
    c: ConfirmFill<Seq<char>>,
    sent: Result<Json, String>,
    created: Timestamp,
    filled: Timestamp,
    fill: Fill,
)
    requires
        told(sent, c.txid) == Some(Report { status: "closed"@, fill }),
        positive(fill.volume),
    ensures
        ({
            let out = entry_step(t, PlaceOrder::Confirming(e, c), sent, created, filled);
            &&& out.0 == entered(t)
            &&& out.1 == EntryStep::Done(
                0,
                Ok(
                    Order {
                        id: c.txid,
                        pair: e.pair,
                        side: e.side,
                        order_type: OrderType::Market,
                        price: Some(fill.price),
                        quantity: fill.volume,
                        status: OrderStatus::Filled,
                        created_at: created,
                        filled_at: Some(filled),
                        filled_price: Some(fill.price),
                    },
                ),
            )
        }),
{
}

/// A limit entry that did not fill says so with its pair, and with its limit
/// as it was sent.
pub proof fn law_unfilled_entry_says_its_limit(
    t: TraderView,
    e: Entry<Seq<char>>,
    limit: Double,
    sent: Result<Json, String>,
    created: Timestamp,
    filled: Timestamp,
)
    ensures
        entry_step(t, PlaceOrder::Cancelling(e, limit), sent, created, filled) == (
            t,
            EntryStep::Done(
                0,
                Err(
                    ExecutionError::ExchangeError(
                        Fault::EntryNotFilled { pair: e.pair, limit: price_in(t, e.pair, limit) },
                    ),
                ),
            ),
        ),
{
}

/// An entry order that is refused ends the entry with that refusal.
pub proof fn law_refused_entry_ends(
    t: TraderView,
    e: Entry<Seq<char>>,
    route: Route,
    sent: Result<Json, String>,
    created: Timestamp,
    filled: Timestamp,
)
    requires
        reply(sent) is Err,
    ensures
        entry_step(t, PlaceOrder::Adding(e, route), sent, created, filled) == (
            t,
            EntryStep::Done(
                0,
                Err(
                    ExecutionError::ExchangeError(Fault::EntryNotPlaced(reply(sent)->Err_0)),
                ),
            ),
        ),
{
}

/// The order that an entry gives back is what was executed: its name, pair and
/// side those of the entry, price and quantity those of the fill.
pub proof fn law_entry_gives_back_what_was_executed(
    e: Entry<Seq<char>>,
    txid: Seq<char>,
    order_type: OrderType,
    fill: Fill,
    created: Timestamp,
    filled: Timestamp,
)
    ensures
        ({
            let o = entry_order(e, txid, order_type, fill, created, filled);
            &&& o.id == txid
            &&& o.pair == e.pair
            &&& o.side == e.side
            &&& o.order_type == order_type
            &&& o.price == Some(fill.price)
            &&& o.filled_price == Some(fill.price)
            &&& o.quantity == fill.volume
            &&& o.status == OrderStatus::Filled
            &&& o.created_at == created
            &&& o.filled_at == Some(filled)
        }),
{
}

/// The order that a close gives back is the other way, for what the trade
/// says: its pair, exit price and quantity.
pub proof fn law_close_gives_back_the_other_way(
    number: u64,
    trade: TradeView,
    created: Timestamp,
    filled: Timestamp,
)
    ensures
        ({
            let o = closing_order(number, trade, created, filled);
            &&& o.id == "live-close-"@ + decimal(number as nat)
            &&& o.pair == trade.pair
            &&& o.side != trade.side
            &&& o.order_type == OrderType::Market
            &&& o.price == Some(trade.exit_price)
            &&& o.filled_price == Some(trade.exit_price)
            &&& o.quantity == trade.quantity
            &&& o.status == OrderStatus::Filled
            &&& o.created_at == created
            &&& o.filled_at == Some(filled)
        }),
{
}

/// Closing a position gives the order in place of the trade where it ends with
/// one, and is otherwise the same.
pub proof fn law_close_gives_the_order_of_its_trade(
    next: (TraderView, CloseStep),
    created: Timestamp,
    filled: Timestamp,
)
    ensures
        ({
            let out = with_order(next, created, filled);
            &&& out.0 == next.0
            &&& match next.1 {
                StepView::Call(pause, inner, call) => out.1
                    == OrderStep::<ClosePosition<Seq<char>>>::Call(
                    pause,
                    ClosePosition { inner },
                    call,
                ),
                StepView::Done(pause, Err(e)) => out.1
                    == OrderStep::<ClosePosition<Seq<char>>>::Done(pause, Err(e)),
                StepView::Done(pause, Ok(trade)) => {
                    &&& out.1 matches StepView::Done(p, Ok(o))
                    &&& p == pause
                    &&& o.pair == trade.pair
                    &&& o.side != trade.side
                    &&& o.quantity == trade.quantity
                    &&& o.filled_price == Some(trade.exit_price)
                    &&& o.id == "live-close-"@ + decimal(next.0.order_counter as nat)
                },
            }
        }),
{
}

} // verus!
