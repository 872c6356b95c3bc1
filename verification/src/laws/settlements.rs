//! How resting orders and closes are settled.
use crate::bracket::{acknowledged, adjust_start, adjust_step, AdjustStep, AdjustStop, PlaceLeg};
use crate::clock::Timestamp;
use crate::close::{close_step, CloseStep, CloseTrade, Closing};
use crate::double::{difference, positive, product, sum, Double};
use crate::error::{ErrorView, ExecutionError, Fault};
use crate::fill::{told, ConfirmFill, Report};
use crate::json::Json;
use crate::reconcile::{tracking, ReconcileStep, ReconcileView};
use crate::request::{filed_as, reply, CallView, StepView};
use crate::table::enumerates;
use crate::text::decimal;
use crate::trader::{TradeView, TraderView};
use crate::types::{Fill, Leg, Side};
use vstd::prelude::*;

verus! {

/// Whether a trade is the close of this position by this fill, for this
/// reason.
pub open spec fn closes_by(
    trade: TradeView,
    t: TraderView,
    id: Seq<char>,
    fill: Fill,
    note: Seq<char>,
    now: Timestamp,
) -> bool {
    let pos = t.positions[id];
    &&& trade.id == "live-"@ + decimal(t.order_counter as nat)
    &&& trade.pair == pos.pair
    &&& trade.side == pos.side
    &&& trade.entry_price == pos.entry_price
    &&& trade.exit_price == fill.price
    &&& trade.quantity == fill.volume
    &&& trade.closed_at == now
    &&& trade.notes == note
    &&& pos.side == Side::Long ==> trade.pnl == difference(
        product(difference(fill.price, pos.entry_price), fill.volume),
        fill.fee,
    )
    &&& pos.side == Side::Short ==> trade.pnl == difference(
        product(difference(pos.entry_price, fill.price), fill.volume),
        fill.fee,
    )
}

/// Every resting order of the leg is asked about, each once, by the name that
/// it rests under; with none there is nothing to ask and nothing found.
pub proof fn law_every_resting_order_is_asked_about(
    t: TraderView,
    leg: Leg,
    order: Seq<Seq<char>>,
    id: Seq<char>,
)
    requires
        enumerates(order, t.legs(leg).dom()),
    ensures
        ({
            let m = if leg == Leg::Stop {
                t.stop_orders
            } else {
                t.tp_orders
            };
            let v = tracking(t, leg, order);
            &&& v.leg == leg
            &&& v.filled is None
            &&& v.closed.len() == 0
            &&& v.rest.len() == order.len()
            &&& m.contains_key(id) <==> exists|i: int|
                0 <= i < v.rest.len() && #[trigger] v.rest[i] == (id, m[id])
            &&& forall|i: int, j: int|
                0 <= i < j < v.rest.len() ==> (#[trigger] v.rest[i]).0 != (
                #[trigger] v.rest[j]).0
            &&& v.rest.len() == 0 ==> v.ask() == ReconcileStep::Done(0, Seq::empty())
            &&& v.rest.len() > 0 ==> v.ask() == ReconcileStep::Call(
                0,
                v,
                CallView::Private("QueryOrders"@, seq![("txid"@, v.rest[0].1)]),
            )
        }),
{
    let m = t.legs(leg);
    let v = tracking(t, leg, order);
    if m.contains_key(id) {
        assert(order.to_set().contains(id));
        let i = choose|i: int| 0 <= i < order.len() && order[i] == id;
        assert(v.rest[i] == (id, m[id]));
    }
    if exists|i: int| 0 <= i < v.rest.len() && #[trigger] v.rest[i] == (id, m[id]) {
        let i = choose|i: int| 0 <= i < v.rest.len() && #[trigger] v.rest[i] == (id, m[id]);
        assert(order[i] == id);
        assert(order.to_set().contains(id));
    }
    assert(v.closed =~= Seq::empty());
}

/// What comes after an order that was asked about: the next of the leg, or the
/// end with all trades found.
pub open spec fn goes_on(s: ReconcileStep, v: ReconcileView, closed: Seq<TradeView>) -> bool {
    if v.rest.len() == 1 {
        s == ReconcileStep::Done(0, closed)
    } else {
        s == ReconcileStep::Call(
            0,
            ReconcileView { leg: v.leg, rest: v.rest.skip(1), closed, filled: None },
            CallView::Private("QueryOrders"@, seq![("txid"@, v.rest[1].1)]),
        )
    }
}

/// A resting order that the exchange tells is closed with something executed,
/// and whose position has no other order resting, closes its position at once:
/// by price, volume and fee of what was executed, noted as this leg's. It and
/// the position are forgotten, the gain is credited, and the next order is
/// asked about.
pub proof fn law_filled_resting_order_closes_its_position(
    t: TraderView,
    v: ReconcileView,
    sent: Result<Json, String>,
    now: Timestamp,
    fill: Fill,
)
    requires
        v.rest.len() > 0,
        v.filled is None,
        told(sent, v.rest[0].1) == Some(Report { status: "closed"@, fill }),
        positive(fill.volume),
        t.positions.contains_key(v.rest[0].0),
        v.leg == Leg::Stop ==> !t.tp_orders.contains_key(v.rest[0].0),
        v.leg == Leg::Target ==> !t.stop_orders.contains_key(v.rest[0].0),
    ensures
        ({
            let id = v.rest[0].0;
            let out = v.step(t, sent, now);
            let trade = out.0.closed_trades.last();
            let note = if v.leg == Leg::Stop {
                "Resting stop-loss filled"@
            } else {
                "Take-profit filled"@
            };
            &&& out.0.closed_trades == t.closed_trades.push(trade)
            &&& closes_by(trade, t, id, fill, note, now)
            &&& out.0.positions == t.positions.remove(id)
            &&& out.0.stop_orders == t.stop_orders.remove(id)
            &&& out.0.tp_orders == t.tp_orders.remove(id)
            &&& out.0.account.balance == sum(t.account.balance, trade.pnl)
            &&& out.0.account.daily_pnl == sum(t.account.daily_pnl, trade.pnl)
            &&& goes_on(out.1, v, v.closed.push(trade))
        }),
{
    let id = v.rest[0].0;
    let out = v.step(t, sent, now);
    assert(out.0.stop_orders =~= t.stop_orders.remove(id));
    assert(out.0.tp_orders =~= t.tp_orders.remove(id));
    assert(out.0.closed_trades =~= t.closed_trades.push(out.0.closed_trades.last()));
    if v.rest.len() > 1 {
        assert(v.rest.skip(1)[0] == v.rest[1]);
    }
}

/// Where the position's other order rests, that is cancelled first, by its own
/// name, and both are forgotten; the position then closes by the same fill,
/// whatever the answer to the cancellation.
pub proof fn law_filled_resting_order_cancels_the_other(
    t: TraderView,
    v: ReconcileView,
    sent: Result<Json, String>,
    answer: Result<Json, String>,
    now: Timestamp,
    later: Timestamp,
    fill: Fill,
    other: Seq<char>,
)
    requires
        v.rest.len() > 0,
        v.filled is None,
        told(sent, v.rest[0].1) == Some(Report { status: "closed"@, fill }),
        positive(fill.volume),
        t.positions.contains_key(v.rest[0].0),
        v.leg == Leg::Stop ==> t.tp_orders.contains_key(v.rest[0].0)
            && t.tp_orders[v.rest[0].0] == other,
        v.leg == Leg::Target ==> t.stop_orders.contains_key(v.rest[0].0)
            && t.stop_orders[v.rest[0].0] == other,
    ensures
        ({
            let id = v.rest[0].0;
            let first = v.step(t, sent, now);
            let waiting = ReconcileView { filled: Some(fill), ..v };
            let out = waiting.step(first.0, answer, later);
            let trade = out.0.closed_trades.last();
            let note = if v.leg == Leg::Stop {
                "Resting stop-loss filled"@
            } else {
                "Take-profit filled"@
            };
            &&& first.1 == ReconcileStep::Call(
                0,
                waiting,
                CallView::Private("CancelOrder"@, seq![("txid"@, other)]),
            )
            &&& first.0.positions == t.positions
            &&& first.0.closed_trades == t.closed_trades
            &&& first.0.stop_orders == t.stop_orders.remove(id)
            &&& first.0.tp_orders == t.tp_orders.remove(id)
            &&& out.0.closed_trades == t.closed_trades.push(trade)
            &&& closes_by(trade, t, id, fill, note, later)
            &&& out.0.positions == t.positions.remove(id)
            &&& goes_on(out.1, v, v.closed.push(trade))
        }),
{
    let id = v.rest[0].0;
    let first = v.step(t, sent, now);
    let waiting = ReconcileView { filled: Some(fill), ..v };
    let out = waiting.step(first.0, answer, later);
    assert(first.0.stop_orders =~= t.stop_orders.remove(id));
    assert(first.0.tp_orders =~= t.tp_orders.remove(id));
    assert(out.0.closed_trades =~= t.closed_trades.push(out.0.closed_trades.last()));
    if v.rest.len() > 1 {
        assert(v.rest.skip(1)[0] == v.rest[1]);
    }
}

/// An order that still rests, or of which nothing is told, stays as it is, and
/// the next one is asked about. One that the exchange cancelled or let expire
/// is forgotten, and its position stays.
pub proof fn law_order_that_rests_stays(
    t: TraderView,
    v: ReconcileView,
    sent: Result<Json, String>,
    now: Timestamp,
    status: Seq<char>,
    fill: Fill,
)
    requires
        v.rest.len() > 0,
        v.filled is None,
    ensures
        ({
            let id = v.rest[0].0;
            let out = v.step(t, sent, now);
            &&& told(sent, v.rest[0].1) is None ==> out.0 == t && goes_on(out.1, v, v.closed)
            &&& told(sent, v.rest[0].1) == Some(Report { status, fill }) ==> {
                let over = status == "canceled"@ || status == "expired"@;
                &&& !over && !(status == "closed"@ && positive(fill.volume)) ==> out.0 == t
                    && goes_on(out.1, v, v.closed)
                &&& over && v.leg == Leg::Stop ==> out.0 == (TraderView {
                    stop_orders: t.stop_orders.remove(id),
                    ..t
                }) && goes_on(out.1, v, v.closed)
                &&& over && v.leg == Leg::Target ==> out.0 == (TraderView {
                    tp_orders: t.tp_orders.remove(id),
                    ..t
                }) && goes_on(out.1, v, v.closed)
            }
        }),
{
    reveal_strlit("closed");
    reveal_strlit("canceled");
    reveal_strlit("expired");
    assert("closed"@.len() == 6 && "canceled"@.len() == 8 && "expired"@.len() == 7);
    if v.rest.len() > 1 {
        assert(v.rest.skip(1)[0] == v.rest[1]);
    }
}

/// A close that was filed is confirmed by the name that it was given; one that
/// was refused ends with that refusal, and nothing changes.
pub proof fn law_filed_close_is_confirmed(
    t: TraderView,
    c: Closing<Seq<char>>,
    sent: Result<Json, String>,
    now: Timestamp,
)
    ensures
        close_step(t, CloseTrade::Selling(c), sent, now) == (
            t,
            match reply(sent) {
                Err(e) => CloseStep::Done(
                    0,
                    Err(ExecutionError::ExchangeError(Fault::Request(e))),
                ),
                Ok(body) => {
                    let txid = match filed_as(body) {
                        Some(s) => s,
                        None => "unknown"@,
                    };
                    CloseStep::Call(
                        0,
                        CloseTrade::Confirming(c, ConfirmFill { txid, attempt: 0 }),
                        CallView::Private("QueryOrders"@, seq![("txid"@, txid)]),
                    )
                },
            },
        ),
{
}

/// A close that is seen to be executed closes the position by that fill, with
/// the note that was given.
pub proof fn law_executed_close_is_booked(
    t: TraderView,
    c: Closing<Seq<char>>,
    f: ConfirmFill<Seq<char>>,
    sent: Result<Json, String>,
    now: Timestamp,
    fill: Fill,
)
    requires
        told(sent, f.txid) == Some(Report { status: "closed"@, fill }),
        positive(fill.volume),
        t.positions.contains_key(c.id),
        t.positions[c.id] == c.pos,
    ensures
        ({
            let out = close_step(t, CloseTrade::Confirming(c, f), sent, now);
            let trade = out.0.closed_trades.last();
            &&& out.1 == CloseStep::Done(0, Ok(trade))
            &&& out.0.closed_trades == t.closed_trades.push(trade)
            &&& closes_by(trade, t, c.id, fill, c.note, now)
            &&& out.0.positions == t.positions.remove(c.id)
            &&& out.0.account.balance == sum(t.account.balance, trade.pnl)
            &&& out.0.account.daily_pnl == sum(t.account.daily_pnl, trade.pnl)
        }),
{
    let out = close_step(t, CloseTrade::Confirming(c, f), sent, now);
    assert(out.0.closed_trades =~= t.closed_trades.push(out.0.closed_trades.last()));
}

/// An answer acknowledges exactly where it is no refusal, and a refusal is
/// told as it came.
pub proof fn law_refusal_is_no_acknowledgement(sent: Result<Json, String>)
    ensures
        reply(sent) is Ok ==> acknowledged(sent) == Result::<(), ErrorView>::Ok(()),
        reply(sent) matches Err(e) ==> acknowledged(sent) == Result::<(), ErrorView>::Err(
            ExecutionError::ExchangeError(Fault::Request(e)),
        ),
{
}

/// Adjusting a stop tells what went wrong on the way, and nothing where
/// nothing did: a cancellation that was refused, then an order that was.
pub proof fn law_adjusting_tells_what_went_wrong(
    t: TraderView,
    p: PlaceLeg<Seq<char>>,
    before: Seq<ErrorView>,
    sent: Result<Json, String>,
)
    ensures
        ({
            let out = adjust_step(t, AdjustStop::Placing(p, before), sent).1;
            &&& reply(sent) is Ok ==> out == AdjustStep::Done(0, before)
            &&& reply(sent) matches Err(e) ==> out == AdjustStep::Done(
                0,
                before.push(ExecutionError::ExchangeError(Fault::Request(e))),
            )
        }),
{
    assert(before + Seq::<ErrorView>::empty() =~= before);
    if let Err(e) = reply(sent) {
        let err: ErrorView = ExecutionError::ExchangeError(Fault::Request(e));
        assert(before + seq![err] =~= before.push(err));
    }
}

/// When the old stop was cancelled, or could not be, the new one is placed all
/// the same, and a refusal is kept to be told.
pub proof fn law_refused_cancellation_is_kept(
    t: TraderView,
    id: Seq<char>,
    pair: Seq<char>,
    side: Side,
    quantity: Double,
    stop: Double,
    sent: Result<Json, String>,
)
    ensures
        ({
            let told = match reply(sent) {
                Ok(_) => Seq::<ErrorView>::empty(),
                Err(e) => seq![ExecutionError::ExchangeError(Fault::Request(e))],
            };
            match adjust_step(t, AdjustStop::Cancelling(id, pair, side, quantity, stop), sent).1 {
                StepView::Call(_, AdjustStop::Placing(_, before), _) => before == told,
                StepView::Call(_, _, _) => false,
                StepView::Done(_, errors) => errors == told,
            }
        }),
{
}

/// Once all orders are cancelled, none rests for any position; positions,
/// trades and account stay.
pub proof fn law_nothing_rests_once_all_is_cancelled(t: TraderView, id: Seq<char>)
    ensures
        !t.unprotected().stop_orders.contains_key(id),
        !t.unprotected().tp_orders.contains_key(id),
        t.unprotected().positions == t.positions,
        t.unprotected().closed_trades == t.closed_trades,
        t.unprotected().account == t.account,
        t.unprotected().order_counter == t.order_counter,
{
}


/// A resting order that has filled for a position that is no longer there
/// books nothing.
pub proof fn law_fill_without_a_position_books_nothing(
    t: TraderView,
    v: ReconcileView,
    fill: Fill,
    answer: Result<Json, String>,
    now: Timestamp,
)
    requires
        v.rest.len() > 0,
        v.filled == Some(fill),
        !t.positions.contains_key(v.rest[0].0),
    ensures
        v.step(t, answer, now).0 == t,
        goes_on(v.step(t, answer, now).1, v, v.closed),
{
    if v.rest.len() > 1 {
        assert(v.rest.skip(1)[0] == v.rest[1]);
    }
}

/// Adjusting the stop of a position that is not there does nothing.
pub proof fn law_no_position_no_adjusting(t: TraderView, id: Seq<char>, stop: Double)
    requires
        !t.positions.contains_key(id),
    ensures
        adjust_start(t, id, stop).0 == t,
        adjust_start(t, id, stop).1 matches StepView::Done(_, errors) && errors.len() == 0,
{
}

} // verus!
