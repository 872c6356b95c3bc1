//! Entries, exits and the orders that protect a position.
use crate::bracket::{adjust_start, adjust_step, leg_end, PlaceLeg};
use crate::clock::Timestamp;
use crate::close::{close_start, close_step, closing_of, CloseTrade, CloseTurn};
use crate::double::{positive, Double};
use crate::entry::{entered, entry_start, entry_step, EntryStep, PlaceOrder, Route};
use crate::error::{ErrorView, ExecutionError, Fault};
use crate::exits::{
    after_stops, after_targets, close_next, due, exit_note, exits_start, exits_step,
    CheckedView, ExitsStep, ExitsView,
};
use crate::fill::{any_fill, told, Report, CONFIRM_ATTEMPTS};
use crate::json::Json;
use crate::reconcile::{listed, tracking, ReconcileStep, ReconcileView};
use crate::request::{
    assigned, cancellation_of, filed_or, query_of, reply, CallView, Pairs, StepView,
};
use crate::table::enumerates;
use crate::trader::{hits_stop, hits_target, TradeView, TraderView};
use crate::types::{Fill, Leg, Position, Side};
use vstd::prelude::*;

verus! {

/// Where short orders are disabled, one is refused before anything is asked of
/// the exchange.
pub proof fn law_short_is_refused(
    t: TraderView,
    pair: Seq<char>,
    quantity: Double,
    price: Option<Double>,
)
    requires
        !t.allow_shorts,
    ensures
        entry_start(t, pair, Side::Short, quantity, price) == EntryStep::Done(
            0,
            Err(ExecutionError::ExchangeError(Fault::ShortsDisabled)),
        ),
{
}

/// A market entry goes out only where no price was supplied.
pub proof fn law_market_entry_has_no_price(
    t: TraderView,
    pair: Seq<char>,
    side: Side,
    quantity: Double,
    price: Option<Double>,
)
    ensures
        entry_start(t, pair, side, quantity, price) matches StepView::Call(
            _,
            PlaceOrder::Adding(_, Route::Market),
            _,
        ) ==> price is None,
{
}

/// Once an entry has begun, no answer turns it into a market entry.
pub proof fn law_entry_never_turns_to_the_market(
    t: TraderView,
    v: PlaceOrder<Seq<char>>,
    sent: Result<Json, String>,
    created: Timestamp,
    filled: Timestamp,
)
    ensures
        !(entry_step(t, v, sent, created, filled).1 matches StepView::Call(
            _,
            PlaceOrder::Adding(_, Route::Market),
            _,
        )),
{
}

/// A supplied price that is not above zero is refused without a request.
pub proof fn law_entry_needs_a_positive_price(
    t: TraderView,
    pair: Seq<char>,
    side: Side,
    quantity: Double,
    price: Double,
)
    requires
        !positive(price),
    ensures
        entry_start(t, pair, side, quantity, Some(price)) matches StepView::Done(_, Err(_)),
{
}

/// A post-only entry is a limit order at the planned price that may not take
/// from the market.
pub proof fn law_post_only_entry_keeps_the_price(
    t: TraderView,
    pair: Seq<char>,
    side: Side,
    quantity: Double,
    price: Option<Double>,
)
    ensures
        entry_start(t, pair, side, quantity, price) matches StepView::Call(
            _,
            PlaceOrder::Adding(_, Route::PostOnly(limit)),
            CallView::Private(endpoint, params),
        ) ==> {
            &&& price == Some(limit)
            &&& endpoint == "AddOrder"@
            &&& params.contains(("ordertype"@, "limit"@))
            &&& params.contains(("price"@, t.price_text(pair, limit)))
            &&& params.contains(("oflags"@, "post"@))
        },
{
    match entry_start(t, pair, side, quantity, price) {
        StepView::Call(
            _,
            PlaceOrder::Adding(e, Route::PostOnly(limit)),
            CallView::Private(endpoint, params),
        ) => {
            assert(params[3] == ("ordertype"@, "limit"@));
            assert(params[4] == ("price"@, t.price_text(pair, limit)));
            assert(params[5] == ("oflags"@, "post"@));
        },
        _ => {},
    }
}

/// The only thing that an entry changes is the count of orders, by one, and
/// that only where it ends with an order. No position is recorded.
pub proof fn law_entry_changes_only_the_count(
    t: TraderView,
    v: PlaceOrder<Seq<char>>,
    sent: Result<Json, String>,
    created: Timestamp,
    filled: Timestamp,
)
    ensures
        ({
            let next = entry_step(t, v, sent, created, filled);
            next.0 == if next.1 matches StepView::Done(_, Ok(_)) {
                entered(t)
            } else {
                t
            }
        }),
{
}

/// An entry ends with an order only where the exchange said that something was
/// executed, and the order says how much and at which price.
pub proof fn law_entry_fill_is_real(
    t: TraderView,
    v: PlaceOrder<Seq<char>>,
    sent: Result<Json, String>,
    created: Timestamp,
    filled: Timestamp,
)
    ensures
        entry_step(t, v, sent, created, filled).1 matches StepView::Done(_, Ok(order)) ==> {
            &&& positive(order.quantity)
            &&& told(sent, order.id) matches Some(r) && r.fill.volume == order.quantity
                && order.filled_price == Some(r.fill.price)
        },
{
}

/// A limit entry of which nothing was filled when its window is over is
/// cancelled, whatever the answer to that, and ends with an error.
pub proof fn law_unfilled_entry_is_cancelled(
    t: TraderView,
    v: PlaceOrder<Seq<char>>,
    sent: Result<Json, String>,
    then: Result<Json, String>,
    created: Timestamp,
    filled: Timestamp,
)
    requires
        v matches PlaceOrder::Watching(_, _, w) && w.left == 0 && any_fill(
            told(sent, w.txid),
        ) is None,
    ensures
        v matches PlaceOrder::Watching(e, limit, w) && {
            let asked = PlaceOrder::Cancelling(e, limit);
            &&& entry_step(t, v, sent, created, filled) == (
                t,
                EntryStep::Call(0, asked, cancellation_of(w.txid)),
            )
            &&& entry_step(t, asked, then, created, filled) == (
                t,
                EntryStep::Done(
                    0,
                    Err(
                        ExecutionError::ExchangeError(
                            Fault::EntryNotFilled {
                                pair: e.pair,
                                limit: t.price_text(e.pair, limit),
                            },
                        ),
                    ),
                ),
            )
        },
{
}

/// Where placing a resting order fails, nothing changes. Where the exchange
/// names the order, exactly that is remembered against the position.
pub proof fn law_resting_order_is_remembered(
    t: TraderView,
    v: PlaceLeg<Seq<char>>,
    sent: Result<Json, String>,
)
    ensures
        reply(sent) is Err ==> leg_end(t, v, sent) == t,
        reply(sent) matches Ok(body) ==> filed_or(body, Seq::empty()).len() > 0 ==> {
            let after = leg_end(t, v, sent);
            &&& after.legs(v.leg) == t.legs(v.leg).insert(v.id, filed_or(body, Seq::empty()))
            &&& after.legs(v.leg.sibling()) == t.legs(v.leg.sibling())
            &&& after == t.with_legs(v.leg, after.legs(v.leg))
        },
{
    reveal_strlit("");
    assert(""@ =~= Seq::empty());
}

/// The trader when moving a stop has ended, with these answers.
pub open spec fn adjust_run(
    t: TraderView,
    id: Seq<char>,
    stop: Double,
    first: Result<Json, String>,
    second: Result<Json, String>,
) -> TraderView {
    let s0 = adjust_start(t, id, stop);
    match s0.1 {
        StepView::Done(_, _) => s0.0,
        StepView::Call(_, v, _) => {
            let s1 = adjust_step(s0.0, v, first);
            match s1.1 {
                StepView::Done(_, _) => s1.0,
                StepView::Call(_, w, _) => adjust_step(s1.0, w, second).0,
            }
        },
    }
}

/// Moving a stop ends after two answers at most.
pub proof fn law_adjusting_ends(
    t: TraderView,
    id: Seq<char>,
    stop: Double,
    first: Result<Json, String>,
    second: Result<Json, String>,
)
    ensures
        adjust_start(t, id, stop).1 matches StepView::Call(_, v, _) ==> adjust_step(
            adjust_start(t, id, stop).0,
            v,
            first,
        ).1 matches StepView::Call(_, w, _) ==> adjust_step(
            adjust_step(adjust_start(t, id, stop).0, v, first).0,
            w,
            second,
        ).1 is Done,
{
}

/// Whatever the exchange answers, a position whose stop was moved is never
/// left naked: it has the new stop, nothing else of it changes, and where no
/// stop rests on the exchange, reaching the new one closes the position
/// locally.
pub proof fn law_adjusted_stop_covers(
    t: TraderView,
    id: Seq<char>,
    stop: Double,
    first: Result<Json, String>,
    second: Result<Json, String>,
    prices: Map<Seq<char>, Double>,
)
    requires
        t.positions.contains_key(id),
    ensures
        ({
            let end = adjust_run(t, id, stop, first, second);
            &&& end.positions == t.positions.insert(
                id,
                Position { stop_loss: stop, ..t.positions[id] },
            )
            &&& end.stop_orders.remove(id) == t.stop_orders.remove(id)
            &&& end.tp_orders == t.tp_orders
            &&& end.stop_orders.contains_key(id) || (prices.contains_key(t.positions[id].pair)
                && hits_stop(end.positions[id], prices[t.positions[id].pair])
                ==> end.local_exit(prices, id) is Some)
        }),
{
    let end = adjust_run(t, id, stop, first, second);
    assert(t.stop_orders.remove(id).remove(id) =~= t.stop_orders.remove(id));
    assert forall|txid: Seq<char>|
        #[trigger] t.stop_orders.insert(id, txid).remove(id) == t.stop_orders.remove(id) by {
        assert(t.stop_orders.insert(id, txid).remove(id) =~= t.stop_orders.remove(id));
    }
    assert forall|txid: Seq<char>|
        #[trigger] t.stop_orders.remove(id).insert(id, txid).remove(id) == t.stop_orders.remove(
            id,
        ) by {
        assert(t.stop_orders.remove(id).insert(id, txid).remove(id) =~= t.stop_orders.remove(id));
    }
}

/// A stop that was moved is never the old one on the exchange: the old one is
/// cancelled first, if there was one.
pub proof fn law_adjusting_cancels_first(t: TraderView, id: Seq<char>, stop: Double)
    requires
        t.positions.contains_key(id),
        t.stop_orders.contains_key(id),
    ensures
        adjust_start(t, id, stop).1 matches StepView::Call(_, _, call) && call == cancellation_of(
            t.stop_orders[id],
        ),
        !adjust_start(t, id, stop).0.stop_orders.contains_key(id),
{
}

/// What a trader no longer remembers once closing a position is at `v`: first
/// the stop, then the take-profit too.
pub open spec fn nothing_rests(t: TraderView, v: CloseTrade<Seq<char>>) -> bool {
    match v {
        CloseTrade::CancellingStop(c) => !t.stop_orders.contains_key(c.id),
        CloseTrade::CancellingTarget(c) => !t.stop_orders.contains_key(c.id)
            && !t.tp_orders.contains_key(c.id),
        CloseTrade::Selling(c) => !t.stop_orders.contains_key(c.id)
            && !t.tp_orders.contains_key(c.id),
        CloseTrade::Confirming(c, _) => !t.stop_orders.contains_key(c.id)
            && !t.tp_orders.contains_key(c.id),
    }
}

/// Whether the resting orders that are forgotten from `t` to `after` are
/// cancelled by `call`, and no others are.
pub open spec fn forgotten_is_cancelled(t: TraderView, after: TraderView, call: CallView) -> bool {
    &&& forall|id: Seq<char>|
        #![trigger t.stop_orders.contains_key(id)]
        t.stop_orders.contains_key(id) && !after.stop_orders.contains_key(id) ==> call
            == cancellation_of(t.stop_orders[id])
    &&& forall|id: Seq<char>|
        #![trigger t.tp_orders.contains_key(id)]
        t.tp_orders.contains_key(id) && !after.tp_orders.contains_key(id) ==> call
            == cancellation_of(t.tp_orders[id])
}

/// Closing a position begins by cancelling the orders that rest for it: the
/// order that closes it goes out at once only where none does.
pub proof fn law_closing_begins_with_cancelling(t: TraderView, id: Seq<char>, note: Seq<char>)
    ensures
        close_start(t, id, note).1 matches Ok((v, call)) ==> {
            &&& nothing_rests(close_start(t, id, note).0, v)
            &&& forgotten_is_cancelled(t, close_start(t, id, note).0, call)
            &&& (v is Selling <==> !t.stop_orders.contains_key(id) && !t.tp_orders.contains_key(id))
        },
{
}

/// Closing a position goes on by cancelling the orders that rest for it, so
/// that none of them can also sell once the order that closes it is out.
pub proof fn law_closing_cancels_before_selling(
    t: TraderView,
    v: CloseTrade<Seq<char>>,
    sent: Result<Json, String>,
    now: Timestamp,
)
    requires
        nothing_rests(t, v),
    ensures
        ({
            let next = close_step(t, v, sent, now);
            next.1 matches StepView::Call(_, w, call) ==> nothing_rests(next.0, w)
                && forgotten_is_cancelled(t, next.0, call)
        }),
{
}

/// A position that was closed is gone: nothing rests for it, and closing it
/// again finds nothing and asks nothing of the exchange.
pub proof fn law_closed_position_is_gone(
    t: TraderView,
    v: CloseTrade<Seq<char>>,
    sent: Result<Json, String>,
    now: Timestamp,
    note: Seq<char>,
)
    requires
        nothing_rests(t, v),
        close_step(t, v, sent, now).1 matches StepView::Done(_, Ok(_)),
    ensures
        v matches CloseTrade::Confirming(c, _) && {
            let after = close_step(t, v, sent, now).0;
            &&& !after.positions.contains_key(c.id)
            &&& !after.stop_orders.contains_key(c.id)
            &&& !after.tp_orders.contains_key(c.id)
            &&& close_start(after, c.id, note) == (
                after,
                CloseTurn::Err(ErrorView::PositionNotFound(c.id)),
            )
        },
{
}

/// When a resting order has filled, it and its sibling are forgotten; a
/// sibling that rested is cancelled before anything else is asked.
pub proof fn law_one_fill_cancels_the_other(
    t: TraderView,
    v: ReconcileView,
    report: Report<Seq<char>>,
    now: Timestamp,
)
    requires
        v.rest.len() > 0,
        report.closed(),
    ensures
        ({
            let id = v.rest[0].0;
            let sibling = v.leg.sibling();
            let next = v.heard(t, report, now);
            &&& !next.0.stop_orders.contains_key(id)
            &&& !next.0.tp_orders.contains_key(id)
            &&& t.legs(sibling).contains_key(id) ==> next.1 == ReconcileStep::Call(
                0,
                ReconcileView { filled: Some(report.fill), ..v },
                cancellation_of(t.legs(sibling)[id]),
            )
            &&& !t.legs(sibling).contains_key(id) ==> !next.0.positions.contains_key(id)
        }),
{
}

/// Once a fill is settled the position is gone: closing it finds nothing and
/// asks nothing of the exchange, so what the exchange has sold is never sold
/// again.
pub proof fn law_settled_position_is_never_sold_again(
    t: TraderView,
    v: ReconcileView,
    fill: Fill,
    now: Timestamp,
    note: Seq<char>,
)
    requires
        v.rest.len() > 0,
    ensures
        ({
            let id = v.rest[0].0;
            let after = v.settle(t, fill, now).0;
            &&& !after.positions.contains_key(id)
            &&& close_start(after, id, note) == (
                after,
                CloseTurn::Err(ErrorView::PositionNotFound(id)),
            )
        }),
{
}

/// An order that was ended early is no longer owned, and nothing else changes.
pub proof fn law_ended_order_is_forgotten(
    t: TraderView,
    v: ReconcileView,
    report: Report<Seq<char>>,
    now: Timestamp,
)
    requires
        v.rest.len() > 0,
        report.ended(),
    ensures
        v.heard(t, report, now).0 == t.without_leg(v.leg, v.rest[0].0),
{
    reveal_strlit("closed");
    reveal_strlit("canceled");
    reveal_strlit("expired");
    assert("closed"@.len() == 6 && "canceled"@.len() == 8 && "expired"@.len() == 7);
}

proof fn lemma_due(
    t: TraderView,
    prices: Map<Seq<char>, Double>,
    names: Seq<Seq<char>>,
    i: int,
)
    requires
        names.no_duplicates(),
        0 <= i < due(t, prices, names).len(),
    ensures
        ({
            let (id, note) = due(t, prices, names)[i];
            &&& names.contains(id)
            &&& t.local_exit(prices, id) matches Some(leg) && note == exit_note(leg)
            &&& forall|j: int| 0 <= j < due(t, prices, names).len() && j != i ==> (#[trigger] due(
                t,
                prices,
                names,
            )[j]).0 != id
        }),
    decreases names.len(),
{
    let all = due(t, prices, names);
    let less = names.drop_last();
    let part = due(t, prices, less);
    let last = names.last();
    assert(names[names.len() - 1] == last);
    assert forall|j: int| 0 <= j < part.len() implies less.contains((#[trigger] part[j]).0) by {
        lemma_due(t, prices, less, j);
    }
    assert forall|k: Seq<char>| less.contains(k) implies names.contains(k) && k != last by {
        let j = choose|j: int| 0 <= j < less.len() && less[j] == k;
        assert(names[j] == k);
    }
    if i < part.len() {
        lemma_due(t, prices, less, i);
        assert(all[i] == part[i]);
        assert forall|j: int| 0 <= j < all.len() && j != i implies (#[trigger] all[j]).0
            != all[i].0 by {
            if j < part.len() {
                assert(all[j] == part[j]);
            }
        }
    } else {
        assert forall|j: int| 0 <= j < all.len() && j != i implies (#[trigger] all[j]).0
            != all[i].0 by {
            assert(all[j] == part[j]);
        }
    }
}

/// The trader closes a position itself only where a level is reached that no
/// resting order takes care of, and closes none twice.
pub proof fn law_local_exit_only_where_nothing_rests(
    t: TraderView,
    prices: Map<Seq<char>, Double>,
    order: Seq<Seq<char>>,
    i: int,
)
    requires
        enumerates(order, t.positions.dom()),
        0 <= i < due(t, prices, order).len(),
    ensures
        ({
            let (id, note) = due(t, prices, order)[i];
            let pos = t.positions[id];
            &&& t.positions.contains_key(id)
            &&& prices.contains_key(pos.pair)
            &&& {
                ||| note == exit_note(Leg::Target) && !t.tp_orders.contains_key(id) && hits_target(
                    pos,
                    prices[pos.pair],
                )
                ||| note == exit_note(Leg::Stop) && !t.stop_orders.contains_key(id) && hits_stop(
                    pos,
                    prices[pos.pair],
                )
            }
            &&& forall|j: int| 0 <= j < due(t, prices, order).len() && j != i ==> (#[trigger] due(
                t,
                prices,
                order,
            )[j]).0 != id
        }),
{
    lemma_due(t, prices, order, i);
    let id = due(t, prices, order)[i].0;
    assert(order.to_set().contains(id));
}

/// Filled stops are looked for first: while any stop rests, checking begins by
/// asking for one of them, and nothing has changed yet.
pub proof fn law_stops_are_reconciled_first(
    t: TraderView,
    prices: Map<Seq<char>, Double>,
    out: (TraderView, ExitsStep),
    id: Seq<char>,
)
    requires
        exits_start(t, prices, out),
        t.stop_orders.contains_key(id),
    ensures
        out.0 == t,
        out.1 matches StepView::Call(_, _, call) && exists|k: Seq<char>|
            #[trigger] t.stop_orders.contains_key(k) && call == query_of(t.stop_orders[k]),
{
    let order = choose|order: Seq<Seq<char>>|
        #[trigger] enumerates(order, t.stop_orders.dom()) && after_stops(
            t,
            prices,
            tracking(t, Leg::Stop, order).ask(),
            out,
        );
    assert(order.to_set().contains(id));
    assert(order.len() > 0);
    assert(order.to_set().contains(order[0]));
    assert(t.stop_orders.contains_key(order[0]));
    assert(listed(t.stop_orders, order)[0] == (order[0], t.stop_orders[order[0]]));
}

/// A request carries one nonce, whatever its parameters were.
pub proof fn law_one_nonce(p: Pairs, name: Seq<char>, value: Seq<char>, i: int)
    requires
        forall|a: int, b: int| 0 <= a < b < p.len() ==> (#[trigger] p[a]).0 != (#[trigger] p[b]).0,
        0 <= i < assigned(p, name, value).len(),
    ensures
        assigned(p, name, value).contains((name, value)),
        assigned(p, name, value)[i].0 == name ==> assigned(p, name, value)[i].1 == value,
    decreases p.len(),
{
    let all = assigned(p, name, value);
    if p.len() == 0 {
        assert(all[0] == (name, value));
    } else if p[0].0 == name {
        assert(all[0] == (name, value));
        if i > 0 {
            assert(all[i] == p[i]);
            assert(p[0].0 != p[i].0);
        }
    } else {
        let rest = p.skip(1);
        let tail = assigned(rest, name, value);
        assert(tail.len() > 0) by {
            assert(rest.len() >= 0);
        }
        assert forall|a: int, b: int| 0 <= a < b < rest.len() implies (#[trigger] rest[a]).0 != (
        #[trigger] rest[b]).0 by {
            assert(p[a + 1].0 != p[b + 1].0);
        }
        if i == 0 {
            law_one_nonce(rest, name, value, 0);
        } else {
            law_one_nonce(rest, name, value, i - 1);
            assert(all[i] == tail[i - 1]);
        }
        let j = choose|j: int| 0 <= j < tail.len() && tail[j] == (name, value);
        assert(all[j + 1] == (name, value));
    }
}

/// Looking for filled orders ends: each answer leaves fewer orders to ask
/// for, or the same number and a sibling to cancel.
pub proof fn law_reconciling_ends(
    t: TraderView,
    v: ReconcileView,
    sent: Result<Json, String>,
    now: Timestamp,
)
    requires
        v.rest.len() > 0,
    ensures
        v.step(t, sent, now).1 matches StepView::Call(_, w, _) ==> {
            ||| 0 < w.rest.len() < v.rest.len() && w.filled is None
            ||| w.rest == v.rest && v.filled is None && w.filled is Some
        },
{
}

/// How many more answers closing a position can take at most.
pub open spec fn close_left(v: CloseTrade<Seq<char>>) -> int {
    match v {
        CloseTrade::CancellingStop(_) => 15,
        CloseTrade::CancellingTarget(_) => 14,
        CloseTrade::Selling(_) => 13,
        CloseTrade::Confirming(_, f) => CONFIRM_ATTEMPTS - f.attempt,
    }
}

/// Closing a position ends: every answer leaves fewer to come.
pub proof fn law_closing_ends(
    t: TraderView,
    v: CloseTrade<Seq<char>>,
    sent: Result<Json, String>,
    now: Timestamp,
)
    ensures
        close_step(t, v, sent, now).1 matches StepView::Call(_, w, _) ==> 0 < close_left(w)
            < close_left(v),
{
}

/// How many more answers placing an entry order can take at most.
pub open spec fn entry_left(v: PlaceOrder<Seq<char>>) -> int {
    match v {
        PlaceOrder::Pricing(_) => 29,
        PlaceOrder::Adding(_, _) => 28,
        PlaceOrder::Watching(_, _, w) => w.left + 2,
        PlaceOrder::Confirming(_, c) => CONFIRM_ATTEMPTS - c.attempt,
        PlaceOrder::Cancelling(_, _) => 1,
    }
}

/// Placing an entry order ends: every answer leaves fewer to come.
pub proof fn law_entering_ends(
    t: TraderView,
    v: PlaceOrder<Seq<char>>,
    sent: Result<Json, String>,
    created: Timestamp,
    filled: Timestamp,
)
    ensures
        entry_step(t, v, sent, created, filled).1 matches StepView::Call(_, w, _) ==> 0
            < entry_left(w) < entry_left(v),
{
}

/// How far checking stops and targets is from its end: what it is at, how many
/// orders or positions are left there, and how many answers the current one
/// can take.
pub open spec fn exits_left(v: ExitsView) -> (nat, nat, int) {
    match v {
        ExitsView::Stops(_, r) => (2, r.rest.len(), reconcile_left(r)),
        ExitsView::Targets(_, _, r) => (1, r.rest.len(), reconcile_left(r)),
        ExitsView::Closing(rest, _, c) => (0, rest.len(), close_left(c)),
    }
}

/// How many answers the current order can take: that of the question for it,
/// and that of cancelling its sibling.
pub open spec fn reconcile_left(v: ReconcileView) -> int {
    if v.filled is Some {
        1
    } else {
        2
    }
}

/// Whether `a` is nearer to the end than `b`.
pub open spec fn nearer(a: (nat, nat, int), b: (nat, nat, int)) -> bool {
    ||| a.0 < b.0
    ||| a.0 == b.0 && a.1 < b.1
    ||| a.0 == b.0 && a.1 == b.1 && 0 < a.2 < b.2
}

proof fn lemma_close_next_left(t: TraderView, rest: Pairs, closed: CheckedView)
    ensures
        close_next(t, rest, closed).1 matches StepView::Call(_, w, _) ==> exits_left(w).0 == 0
            && exits_left(w).1 < rest.len(),
    decreases rest.len(),
{
    if rest.len() > 0 {
        let begun = close_start(t, rest[0].0, rest[0].1);
        if let Err(e) = begun.1 {
            lemma_close_next_left(begun.0, rest.skip(1), closed.with(rest[0].0, Err(e)));
        }
    }
}

proof fn lemma_after_targets_left(
    t: TraderView,
    prices: Map<Seq<char>, Double>,
    before: Seq<TradeView>,
    s: ReconcileStep,
    out: (TraderView, ExitsStep),
)
    requires
        after_targets(t, prices, before, s, out),
        s is Done,
    ensures
        out.1 matches StepView::Call(_, w, _) ==> exits_left(w).0 == 0,
{
    if let StepView::Done(_, r) = s {
        let all = CheckedView { closed: before + r, failed: Seq::empty() };
        let order = choose|order: Seq<Seq<char>>|
            #[trigger] enumerates(order, t.positions.dom()) && out == close_next(
                t,
                due(t, prices, order),
                all,
            );
        lemma_close_next_left(t, due(t, prices, order), all);
    }
}

proof fn lemma_after_stops_left(
    t: TraderView,
    prices: Map<Seq<char>, Double>,
    s: ReconcileStep,
    out: (TraderView, ExitsStep),
)
    requires
        after_stops(t, prices, s, out),
        s is Done,
    ensures
        out.1 matches StepView::Call(_, w, _) ==> exits_left(w).0 < 2,
{
    if let StepView::Done(_, r) = s {
        let order = choose|order: Seq<Seq<char>>|
            #[trigger] enumerates(order, t.tp_orders.dom()) && after_targets(
                t,
                prices,
                r,
                tracking(t, Leg::Target, order).ask(),
                out,
            );
        let next = tracking(t, Leg::Target, order).ask();
        if next is Done {
            lemma_after_targets_left(t, prices, r, next, out);
        }
    }
}

/// Checking stops and targets ends: every answer brings it nearer.
pub proof fn law_checking_ends(
    t: TraderView,
    v: ExitsView,
    sent: Result<Json, String>,
    now: Timestamp,
    out: (TraderView, ExitsStep),
)
    requires
        v matches ExitsView::Stops(_, r) ==> r.rest.len() > 0,
        v matches ExitsView::Targets(_, _, r) ==> r.rest.len() > 0,
        exits_step(t, v, sent, now, out),
    ensures
        out.1 matches StepView::Call(_, w, _) ==> nearer(exits_left(w), exits_left(v)),
{
    match v {
        ExitsView::Stops(prices, r) => {
            law_reconciling_ends(t, r, sent, now);
            let next = r.step(t, sent, now);
            if next.1 is Done {
                lemma_after_stops_left(next.0, prices, next.1, out);
            }
        },
        ExitsView::Targets(prices, before, r) => {
            law_reconciling_ends(t, r, sent, now);
            let next = r.step(t, sent, now);
            if next.1 is Done {
                lemma_after_targets_left(next.0, prices, before, next.1, out);
            }
        },
        ExitsView::Closing(rest, closed, c) => {
            law_closing_ends(t, c, sent, now);
            let next = close_step(t, c, sent, now);
            if let StepView::Done(_, r) = next.1 {
                lemma_close_next_left(next.0, rest, closed.with(closing_of(c).id, r));
            }
        },
    }
}

} // verus!
