//! What the orders and questions say that are sent.
use crate::bracket::{
    adjust_start, adjust_step, leg_end, leg_start, sell_all_start, AdjustStep, AdjustStop,
    AdjustView, PlaceLeg,
};
use crate::clock::Timestamp;
use crate::close::{close_sell, close_start, close_step, CloseStep, CloseTrade, CloseTurn, Closing};
use crate::crypto::{base64_of, hmac_sha512_of, sha256_of};
use crate::decimal::fixed;
use crate::double::{at_most, less_than, positive, product, zero, Double};
use crate::entry::{entry_add, Entry, Route};
use crate::error::{ExecutionError, Fault};
use crate::json::Json;
use crate::request::{
    assigned, cancellation_of, filed_as, form, query_of, refusals, CallView, Pairs, StepView,
};
use crate::text::{decimal, without_slashes};
use crate::trader::TraderView;
use crate::types::{Leg, Side};
use vstd::prelude::*;
use vstd::utf8::encode_utf8;

verus! {

/// Whether an order has exactly these parameters, each of them once.
pub open spec fn says(call: CallView, endpoint: Seq<char>, params: Pairs) -> bool {
    match call {
        CallView::Private(e, p) => e == endpoint && p == params,
        CallView::Public(_, _) => false,
    }
}

/// The exchange's name of a pair: the one that is known, or the pair's own
/// without its slashes.
pub open spec fn exchange_name(t: TraderView, pair: Seq<char>) -> Seq<char> {
    if t.pair_meta.contains_key(pair) {
        t.pair_meta[pair].altname
    } else {
        pair.filter(|c: char| c != '/')
    }
}

/// A price with the decimal places of the pair's prices, or with five.
pub open spec fn price_in(t: TraderView, pair: Seq<char>, price: Double) -> Seq<char> {
    if t.pair_meta.contains_key(pair) {
        fixed(price, t.pair_meta[pair].price_decimals)
    } else {
        fixed(price, 5)
    }
}

/// A volume with the decimal places of the pair's lots, or with eight.
pub open spec fn volume_in(t: TraderView, pair: Seq<char>, volume: Double) -> Seq<char> {
    if t.pair_meta.contains_key(pair) {
        fixed(volume, t.pair_meta[pair].lot_decimals)
    } else {
        fixed(volume, 8)
    }
}

/// Prices and volumes are written with the places of their pair, and pairs by
/// the exchange's name.
pub proof fn law_written_as_the_pair_asks(t: TraderView, pair: Seq<char>, d: Double)
    ensures
        t.kraken_pair(pair) == exchange_name(t, pair),
        t.price_text(pair, d) == price_in(t, pair, d),
        t.volume_text(pair, d) == volume_in(t, pair, d),
{
    lemma_slashes(pair);
}

/// A resting order says which pair, which way, at which level and how much: the
/// level with exactly the decimal places of that pair's prices, the volume with
/// those of its lots. It is filed where both are above zero, and for no other
/// level or volume.
pub proof fn law_resting_order_says_its_level(
    t: TraderView,
    leg: Leg,
    pair: Seq<char>,
    side: Side,
    quantity: Double,
    level: Double,
    id: Seq<char>,
)
    ensures
        leg_start(t, leg, pair, side, quantity, level, id) is Done <==> at_most(level, zero())
            || at_most(t.rounded_volume(pair, quantity), zero()),
        leg_start(t, leg, pair, side, quantity, level, id) matches StepView::Call(pause, v, call)
            ==> {
            &&& pause == 0
            &&& v == (PlaceLeg { leg, id })
            &&& says(
                call,
                "AddOrder"@,
                seq![
                    ("pair"@, exchange_name(t, pair)),
                    (
                        "type"@,
                        if side == Side::Long {
                            "sell"@
                        } else {
                            "buy"@
                        },
                    ),
                    (
                        "ordertype"@,
                        if leg == Leg::Stop {
                            "stop-loss"@
                        } else {
                            "take-profit"@
                        },
                    ),
                    ("price"@, price_in(t, pair, level)),
                    ("volume"@, volume_in(t, pair, t.rounded_volume(pair, quantity))),
                ],
            )
        },
{
    lemma_slashes(pair);
}

/// Adjusting a stop files one order for the position's own pair, side and
/// quantity, whose level is the new one, written with the decimal places of
/// the pair: at once where no stop rests, else once the old one is cancelled.
pub proof fn law_adjusted_stop_says_the_new_level(
    t: TraderView,
    id: Seq<char>,
    stop: Double,
    answer: Result<Json, String>,
)
    requires
        t.positions.contains_key(id),
        !at_most(stop, zero()),
        !at_most(t.rounded_volume(t.positions[id].pair, t.positions[id].quantity), zero()),
    ensures
        ({
            let pos = t.positions[id];
            let first = adjust_start(t, id, stop);
            let out = if t.stop_orders.contains_key(id) {
                adjust_step(
                    first.0,
                    AdjustView::Cancelling(id, pos.pair, pos.side, pos.quantity, stop),
                    answer,
                )
            } else {
                first
            };
            &&& t.stop_orders.contains_key(id) ==> first.1 == AdjustStep::Call(
                0,
                AdjustView::Cancelling(id, pos.pair, pos.side, pos.quantity, stop),
                CallView::Private("CancelOrder"@, seq![("txid"@, t.stop_orders[id])]),
            )
            &&& out.0.positions.contains_key(id)
            &&& out.0.positions[id].stop_loss == stop
            &&& out.1 matches StepView::Call(_, AdjustStop::Placing(p, _), call) && {
                &&& p == (PlaceLeg { leg: Leg::Stop, id })
                &&& says(
                    call,
                    "AddOrder"@,
                    seq![
                        ("pair"@, exchange_name(t, pos.pair)),
                        (
                            "type"@,
                            if pos.side == Side::Long {
                                "sell"@
                            } else {
                                "buy"@
                            },
                        ),
                        ("ordertype"@, "stop-loss"@),
                        ("price"@, price_in(t, pos.pair, stop)),
                        (
                            "volume"@,
                            volume_in(t, pos.pair, t.rounded_volume(pos.pair, pos.quantity)),
                        ),
                    ],
                )
            }
        }),
{
    let pos = t.positions[id];
    let first = adjust_start(t, id, stop);
    let out = if t.stop_orders.contains_key(id) {
        adjust_step(
            first.0,
            AdjustView::Cancelling(id, pos.pair, pos.side, pos.quantity, stop),
            answer,
        )
    } else {
        first
    };
    assert(out.0.pair_meta == t.pair_meta);
    assert(out.0.rounded_volume(pos.pair, pos.quantity) == t.rounded_volume(
        pos.pair,
        pos.quantity,
    ));
    law_resting_order_says_its_level(
        out.0,
        Leg::Stop,
        pos.pair,
        pos.side,
        pos.quantity,
        stop,
        id,
    );
}

/// A stop that was adjusted leaves everything else of the trader as it was but
/// for the cancelled order: no other position, level, order or trade changes.
pub proof fn law_adjusting_a_stop_changes_only_that_stop(
    t: TraderView,
    id: Seq<char>,
    stop: Double,
    other: Seq<char>,
)
    requires
        other != id,
    ensures
        ({
            let after = adjust_start(t, id, stop).0;
            &&& after.positions.dom() =~= t.positions.dom()
            &&& after.positions[other] == t.positions[other]
            &&& after.stop_orders.contains_key(other) == t.stop_orders.contains_key(other)
            &&& after.stop_orders[other] == t.stop_orders[other]
            &&& after.tp_orders == t.tp_orders
            &&& after.closed_trades == t.closed_trades
            &&& after.account == t.account
            &&& after.order_counter == t.order_counter
            &&& after.positions[id].take_profit_1 == t.positions[id].take_profit_1
            &&& after.positions[id].entry_price == t.positions[id].entry_price
            &&& after.positions[id].quantity == t.positions[id].quantity
        }),
{
}

/// Whether an answer gives an order this name.
pub open spec fn is_name(body: Json, txid: Seq<char>) -> bool {
    filed_as(body) == Some(txid)
}

/// An order that was filed is remembered under its position, as the leg that
/// it is, by the name that the exchange gave; nothing is remembered where the
/// order was refused or got no name.
pub proof fn law_filed_leg_is_remembered(
    t: TraderView,
    v: PlaceLeg<Seq<char>>,
    body: Json,
    other: Seq<char>,
)
    ensures
        ({
            let after = leg_end(t, v, Ok(body));
            let (mine, theirs) = match v.leg {
                Leg::Stop => (after.stop_orders, after.tp_orders),
                Leg::Target => (after.tp_orders, after.stop_orders),
            };
            let (mine_before, theirs_before) = match v.leg {
                Leg::Stop => (t.stop_orders, t.tp_orders),
                Leg::Target => (t.tp_orders, t.stop_orders),
            };
            &&& after.positions == t.positions
            &&& theirs == theirs_before
            &&& other != v.id ==> mine.contains_key(other) == mine_before.contains_key(other)
                && mine[other] == mine_before[other]
            &&& forall|txid: Seq<char>|
                refusals(body).len() == 0 && txid.len() > 0 && #[trigger] is_name(body, txid)
                    ==> mine.contains_key(v.id) && mine[v.id] == txid
            &&& refusals(body).len() > 0 || filed_as(body) is None || filed_as(body) == Some(
                Seq::<char>::empty(),
            ) ==> after == t
        }),
{
    reveal_strlit("");
    assert(""@ =~= Seq::<char>::empty());
}

/// Selling a volume off says the pair, that it is sold at the market, and as
/// many whole lots as fit into the volume.
pub proof fn law_selling_off_says_the_volume(t: TraderView, pair: Seq<char>, volume: Double)
    ensures
        sell_all_start(t, pair, volume) is Done <==> at_most(
            t.rounded_volume(pair, volume),
            zero(),
        ),
        sell_all_start(t, pair, volume) matches StepView::Call(_, _, call) ==> says(
            call,
            "AddOrder"@,
            seq![
                ("pair"@, exchange_name(t, pair)),
                ("type"@, "sell"@),
                ("ordertype"@, "market"@),
                ("volume"@, volume_in(t, pair, t.rounded_volume(pair, volume))),
            ],
        ),
{
    lemma_slashes(pair);
}

/// The order that closes a position is a market order the other way, for the
/// whole quantity of the position in lots.
pub proof fn law_closing_order_is_the_other_way(t: TraderView, c: Closing<Seq<char>>)
    ensures
        close_sell(t, c) matches Ok((v, call)) ==> {
            let pos = c.pos;
            let vol = t.rounded_volume(pos.pair, pos.quantity);
            let word = if pos.side == Side::Long {
                "sell"@
            } else {
                "buy"@
            };
            &&& v == CloseTrade::Selling(c)
            &&& says(
                call,
                "AddOrder"@,
                seq![
                    ("pair"@, exchange_name(t, pos.pair)),
                    ("type"@, word),
                    ("ordertype"@, "market"@),
                    ("volume"@, volume_in(t, pos.pair, vol)),
                ],
            )
        },
{
    lemma_slashes(c.pos.pair);
}

/// The order that closes a position is held against the pair's minimums at the
/// price that the position was last marked at, and for its whole quantity:
/// where it does not meet them, why is told and no order is filed.
pub proof fn law_close_is_held_to_the_market_price(t: TraderView, c: Closing<Seq<char>>)
    requires
        t.pair_meta.contains_key(c.pos.pair),
    ensures
        ({
            let m = t.pair_meta[c.pos.pair];
            let r = t.rounded_volume(c.pos.pair, c.pos.quantity);
            let cost = product(r, c.pos.current_price);
            let nothing = at_most(r, zero());
            let little = positive(m.ordermin) && less_than(r, m.ordermin);
            let cheap = positive(m.costmin) && less_than(cost, m.costmin);
            let out = close_sell(t, c);
            &&& out is Ok <==> !nothing && !little && !cheap
            &&& nothing ==> out == CloseTurn::Err(
                ExecutionError::ExchangeError(
                    Fault::RoundsToZero {
                        pair: c.pos.pair,
                        volume: c.pos.quantity,
                        lot_decimals: m.lot_decimals,
                    },
                ),
            )
            &&& !nothing && little ==> out == CloseTurn::Err(
                ExecutionError::ExchangeError(
                    Fault::BelowOrderMin { pair: c.pos.pair, volume: r, ordermin: m.ordermin },
                ),
            )
            &&& !nothing && !little && cheap ==> out == CloseTurn::Err(
                ExecutionError::ExchangeError(
                    Fault::BelowCostMin { pair: c.pos.pair, cost, costmin: m.costmin },
                ),
            )
        }),
{
}

/// Whatever the exchange answers to a cancellation, closing goes on: with the
/// take-profit that still rests, by its own name, else with the order that
/// closes the position as it was when closing began.
pub proof fn law_closing_goes_on_after_a_cancellation(
    t: TraderView,
    c: Closing<Seq<char>>,
    sent: Result<Json, String>,
    now: Timestamp,
)
    ensures
        ({
            let out = close_step(t, CloseTrade::CancellingStop(c), sent, now);
            let filed = match close_sell(t, c) {
                Ok((v, call)) => CloseStep::Call(0, v, call),
                Err(e) => CloseStep::Done(0, Err(e)),
            };
            &&& t.tp_orders.contains_key(c.id) ==> out == (
                TraderView { tp_orders: t.tp_orders.remove(c.id), ..t },
                CloseStep::Call(
                    0,
                    CloseTrade::CancellingTarget(c),
                    CallView::Private("CancelOrder"@, seq![("txid"@, t.tp_orders[c.id])]),
                ),
            )
            &&& !t.tp_orders.contains_key(c.id) ==> out == (t, filed)
            &&& close_step(t, CloseTrade::CancellingTarget(c), sent, now) == (t, filed)
        }),
{
}

/// Closing a position first cancels what rests for it, the stop before the
/// target, and each by its own name; the order that closes it comes only when
/// nothing rests.
pub proof fn law_closing_cancels_what_rests(t: TraderView, id: Seq<char>, note: Seq<char>)
    requires
        t.positions.contains_key(id),
    ensures
        ({
            let c = Closing { id, note, pos: t.positions[id] };
            let out = close_start(t, id, note);
            &&& out.0.positions == t.positions
            &&& t.stop_orders.contains_key(id) ==> out.1 == CloseTurn::Ok(
                (
                    CloseTrade::CancellingStop(c),
                    CallView::Private("CancelOrder"@, seq![("txid"@, t.stop_orders[id])]),
                ),
            ) && !out.0.stop_orders.contains_key(id) && out.0.tp_orders == t.tp_orders
            &&& !t.stop_orders.contains_key(id) && t.tp_orders.contains_key(id) ==> out.1
                == CloseTurn::Ok(
                (
                    CloseTrade::CancellingTarget(c),
                    CallView::Private("CancelOrder"@, seq![("txid"@, t.tp_orders[id])]),
                ),
            ) && !out.0.tp_orders.contains_key(id)
            &&& !t.stop_orders.contains_key(id) && !t.tp_orders.contains_key(id) ==> out.0 == t
                && out.1 == close_sell(t, c)
        }),
{
}

/// An order that opens a position says the pair, which way, how much and, for
/// a limit order, the limit with the decimal places of the pair's prices. Only
/// one that is to rest is marked so.
pub proof fn law_entry_order_says_what_was_asked(t: TraderView, e: Entry<Seq<char>>, route: Route)
    ensures
        ({
            let word = if e.side == Side::Long {
                "buy"@
            } else {
                "sell"@
            };
            let volume = volume_in(t, e.pair, e.volume);
            entry_add(t, e, route) matches StepView::Call(_, _, call) && match route {
                Route::Market => says(
                    call,
                    "AddOrder"@,
                    seq![
                        ("pair"@, exchange_name(t, e.pair)),
                        ("type"@, word),
                        ("volume"@, volume),
                        ("ordertype"@, "market"@),
                    ],
                ),
                Route::PostOnly(limit) => says(
                    call,
                    "AddOrder"@,
                    seq![
                        ("pair"@, exchange_name(t, e.pair)),
                        ("type"@, word),
                        ("volume"@, volume),
                        ("ordertype"@, "limit"@),
                        ("price"@, price_in(t, e.pair, limit)),
                        ("oflags"@, "post"@),
                    ],
                ),
                Route::Marketable(limit) => says(
                    call,
                    "AddOrder"@,
                    seq![
                        ("pair"@, exchange_name(t, e.pair)),
                        ("type"@, word),
                        ("volume"@, volume),
                        ("ordertype"@, "limit"@),
                        ("price"@, price_in(t, e.pair, limit)),
                    ],
                ),
            }
        }),
{
    lemma_slashes(e.pair);
    let word = if e.side == Side::Long {
        "buy"@
    } else {
        "sell"@
    };
    let volume = volume_in(t, e.pair, e.volume);
    if let StepView::Call(_, _, CallView::Private(_, p)) = entry_add(t, e, route) {
        match route {
            Route::Market => {
                assert(p =~= seq![
                    ("pair"@, exchange_name(t, e.pair)),
                    ("type"@, word),
                    ("volume"@, volume),
                    ("ordertype"@, "market"@),
                ]);
            },
            Route::PostOnly(limit) => {
                assert(p =~= seq![
                    ("pair"@, exchange_name(t, e.pair)),
                    ("type"@, word),
                    ("volume"@, volume),
                    ("ordertype"@, "limit"@),
                    ("price"@, price_in(t, e.pair, limit)),
                    ("oflags"@, "post"@),
                ]);
            },
            Route::Marketable(limit) => {
                assert(p =~= seq![
                    ("pair"@, exchange_name(t, e.pair)),
                    ("type"@, word),
                    ("volume"@, volume),
                    ("ordertype"@, "limit"@),
                    ("price"@, price_in(t, e.pair, limit)),
                ]);
            },
        }
    }
}

/// Questions about an order, and its cancellation, name the order and nothing
/// else; a price is asked for by the exchange's name of the pair.
pub proof fn law_questions_name_their_subject(t: TraderView, txid: Seq<char>, pair: Seq<char>)
    ensures
        query_of(txid) == CallView::Private("QueryOrders"@, seq![("txid"@, txid)]),
        cancellation_of(txid) == CallView::Private("CancelOrder"@, seq![("txid"@, txid)]),
        t.ticker_call(pair) == CallView::Public(
            "Ticker"@,
            seq![("pair"@, exchange_name(t, pair))],
        ),
{
    lemma_slashes(pair);
}

proof fn lemma_slashes(pair: Seq<char>)
    ensures
        without_slashes(pair) == pair.filter(|c: char| c != '/'),
{
}

/// A form lists all its fields, in order: that of two parts is the one form,
/// an ampersand and the other.
pub proof fn law_form_joins_its_parts(p: Pairs, q: Pairs)
    requires
        p.len() > 0,
        q.len() > 0,
    ensures
        form(p + q) == form(p) + "&"@ + form(q),
        q.len() == 1 ==> form(q) == q[0].0 + "="@ + q[0].1,
    decreases q.len(),
{
    let all = p + q;
    let last = q.last().0 + "="@ + q.last().1;
    assert(all.last() == q.last());
    assert(all.drop_last() =~= p + q.drop_last());
    if q.len() == 1 {
        assert(all.drop_last() =~= p);
    } else {
        law_form_joins_its_parts(p, q.drop_last());
        assert(form(p) + "&"@ + form(q) =~= form(p) + "&"@ + form(q.drop_last()) + "&"@ + last);
    }
}

/// Setting a field gives it that value and leaves the others, in their places:
/// a new name comes last.
pub proof fn law_setting_a_field_keeps_the_others(p: Pairs, name: Seq<char>, value: Seq<char>)
    ensures
        (forall|i: int| 0 <= i < p.len() ==> (#[trigger] p[i]).0 != name) ==> assigned(
            p,
            name,
            value,
        ) == p.push((name, value)),
        forall|i: int|
            0 <= i < p.len() && (#[trigger] p[i]).0 == name && (forall|j: int|
                0 <= j < i ==> (#[trigger] p[j]).0 != name) ==> assigned(p, name, value)
                == p.update(i, (name, value)),
    decreases p.len(),
{
    if p.len() == 0 {
        assert(seq![(name, value)] =~= p.push((name, value)));
    } else {
        let rest = p.skip(1);
        law_setting_a_field_keeps_the_others(rest, name, value);
        if forall|i: int| 0 <= i < p.len() ==> (#[trigger] p[i]).0 != name {
            assert forall|i: int| 0 <= i < rest.len() implies (#[trigger] rest[i]).0 != name by {
                assert(rest[i] == p[i + 1]);
            }
            assert(p[0].0 != name);
            assert(seq![p[0]] + rest.push((name, value)) =~= p.push((name, value)));
        }
        assert forall|i: int|
            0 <= i < p.len() && (#[trigger] p[i]).0 == name && (forall|j: int|
                0 <= j < i ==> (#[trigger] p[j]).0 != name) implies assigned(p, name, value)
            == p.update(i, (name, value)) by {
            if i == 0 {
                assert(seq![(name, value)] + rest =~= p.update(0, (name, value)));
            } else {
                assert(p[0].0 != name);
                assert(rest[i - 1].0 == name);
                assert forall|j: int| 0 <= j < i - 1 implies (#[trigger] rest[j]).0 != name by {
                    assert(rest[j] == p[j + 1]);
                }
                assert(seq![p[0]] + rest.update(i - 1, (name, value)) =~= p.update(
                    i,
                    (name, value),
                ));
            }
        }
    }
}

/// A private request goes to the endpoint's path below the exchange's address,
/// carries all parameters and the nonce, and is signed: the keyed hash, under
/// the secret, of the path and of the hash of the nonce and what is sent.
pub proof fn law_request_is_signed(t: TraderView, endpoint: Seq<char>, params: Pairs, nonce: nat)
    requires
        forall|i: int| 0 <= i < params.len() ==> (#[trigger] params[i]).0 != "nonce"@,
    ensures
        ({
            let r = t.signed(endpoint, params, nonce);
            let path = "/0/private/"@ + endpoint;
            let nonce_field = "nonce="@ + decimal(nonce);
            &&& r.url == t.rest_url + "/0/private/"@ + endpoint
            &&& r.api_key == t.api_key
            &&& r.content_type == "application/x-www-form-urlencoded"@
            &&& params.len() == 0 ==> r.body == nonce_field
            &&& params.len() > 0 ==> r.body == form(params) + "&"@ + nonce_field
            &&& r.api_sign == base64_of(
                hmac_sha512_of(
                    t.api_secret,
                    encode_utf8(path) + sha256_of(
                        encode_utf8(decimal(nonce)) + encode_utf8(r.body),
                    ),
                ),
            )
        }),
{
    let field = ("nonce"@, decimal(nonce));
    law_setting_a_field_keeps_the_others(params, "nonce"@, decimal(nonce));
    let all = params.push(field);
    assert(all =~= params + seq![field]);
    reveal_strlit("nonce");
    reveal_strlit("=");
    reveal_strlit("nonce=");
    assert("nonce"@ + "="@ =~= "nonce="@);
    assert(t.rest_url + ("/0/private/"@ + endpoint) =~= t.rest_url + "/0/private/"@ + endpoint);
    if params.len() > 0 {
        law_form_joins_its_parts(params, seq![field]);
    } else {
        assert(all =~= seq![field]);
    }
}

} // verus!
