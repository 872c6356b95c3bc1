//! The books: every trade that an operation gives back is booked, once, and
//! nothing else is.
use crate::clock::Timestamp;
use crate::close::{close_start, close_step, closing_of, CloseStep, CloseTrade};
use crate::double::{positive, product, sum, zero, Double};
use crate::exits::{
    after_stops, after_targets, close_next, due, exits_start, exits_step, CheckedView,
    ExitsStep, ExitsView,
};
use crate::fill::{confirm_step, told};
use crate::json::Json;
use crate::market::{
    counted, is_dollar, result_members, ticker_price, total_next, total_step, Amounts, TotalView,
};
use crate::pairs::pair_load_end;
use crate::reconcile::{tracking, ReconcileStep, ReconcileView};
use crate::request::{Pairs, StepView};
use crate::table::enumerates;
use crate::text::{decimal, digit_char};
use crate::trader::{trade_of, PositionView, TradeView, TraderView};
use crate::types::{Fill, Leg};
use vstd::prelude::*;

verus! {

/// What an amount becomes when trades are credited to it, one after the other.
pub open spec fn credited(start: Double, trades: Seq<TradeView>) -> Double
    decreases trades.len(),
{
    if trades.len() == 0 {
        start
    } else {
        sum(credited(start, trades.drop_last()), trades.last().pnl)
    }
}

/// Whether two traders have the same credentials, settings and knowledge of
/// the pairs.
pub open spec fn same_settings(a: TraderView, b: TraderView) -> bool {
    &&& a.rest_url == b.rest_url
    &&& a.api_key == b.api_key
    &&& a.api_secret == b.api_secret
    &&& a.fee_rate == b.fee_rate
    &&& a.pair_meta == b.pair_meta
    &&& a.allow_shorts == b.allow_shorts
    &&& a.entry_mode == b.entry_mode
    &&& a.max_entry_slippage == b.max_entry_slippage
}

/// Whether `b` is what `a` becomes by booking exactly these trades: they are
/// numbered on from where `a` was, they are at the end of the closed trades,
/// and what they gained is credited to balance and day. Positions and resting
/// orders only ever leave.
pub open spec fn books(a: TraderView, b: TraderView, trades: Seq<TradeView>) -> bool {
    &&& same_settings(a, b)
    &&& b.closed_trades == a.closed_trades + trades
    &&& b.order_counter == a.order_counter + trades.len()
    &&& forall|i: int|
        0 <= i < trades.len() ==> (#[trigger] trades[i]).id == "live-"@ + decimal(
            (a.order_counter + i) as nat,
        )
    &&& b.account.balance == credited(a.account.balance, trades)
    &&& b.account.daily_pnl == credited(a.account.daily_pnl, trades)
    &&& b.account.equity == a.account.equity
    &&& b.positions.submap_of(a.positions)
    &&& b.stop_orders.submap_of(a.stop_orders)
    &&& b.tp_orders.submap_of(a.tp_orders)
    &&& if trades.len() == 0 {
        b.positions == a.positions && b.account.open_positions == a.account.open_positions
    } else {
        b.account.open_positions == b.positions.len() as usize
    }
}

/// Nothing was booked yet.
proof fn lemma_books_begin(t: TraderView)
    ensures
        books(t, t, Seq::empty()),
{
}

proof fn lemma_books_forget(
    a: TraderView,
    b: TraderView,
    trades: Seq<TradeView>,
    leg: Leg,
    id: Seq<char>,
)
    requires
        books(a, b, trades),
    ensures
        books(a, b.without_leg(leg, id), trades),
{
}

proof fn lemma_books_one_more(
    a: TraderView,
    b: TraderView,
    trades: Seq<TradeView>,
    id: Seq<char>,
    pos: PositionView,
    fill: Fill,
    note: Seq<char>,
    now: Timestamp,
)
    requires
        books(a, b, trades),
        b.order_counter < u64::MAX,
    ensures
        books(
            a,
            b.booked(id, pos, fill, note, now),
            trades.push(trade_of(b.order_counter, pos, fill, note, now)),
        ),
{
    let trade = trade_of(b.order_counter, pos, fill, note, now);
    let all = trades.push(trade);
    let c = b.booked(id, pos, fill, note, now);
    assert(all.drop_last() =~= trades);
    assert(a.closed_trades + all =~= (a.closed_trades + trades).push(trade));
    assert forall|i: int| 0 <= i < all.len() implies (#[trigger] all[i]).id == "live-"@ + decimal(
        (a.order_counter + i) as nat,
    ) by {
        if i < trades.len() {
            assert(all[i] == trades[i]);
        }
    }
}

/// The trades that a step of looking for filled orders has found.
pub open spec fn found(s: ReconcileStep) -> Seq<TradeView> {
    match s {
        StepView::Call(_, v, _) => v.closed,
        StepView::Done(_, r) => r,
    }
}

proof fn lemma_settle(
    a: TraderView,
    t: TraderView,
    before: Seq<TradeView>,
    v: ReconcileView,
    fill: Fill,
    now: Timestamp,
)
    requires
        v.rest.len() > 0,
        books(a, t, before + v.closed),
        t.order_counter < u64::MAX,
    ensures
        books(a, v.settle(t, fill, now).0, before + found(v.settle(t, fill, now).1)),
{
    let id = v.rest[0].0;
    if t.positions.contains_key(id) {
        let pos = t.positions[id];
        let note = v.leg.fill_note();
        let trade = trade_of(t.order_counter, pos, fill, note, now);
        lemma_books_one_more(a, t, before + v.closed, id, pos, fill, note, now);
        assert((before + v.closed).push(trade) =~= before + v.closed.push(trade));
    }
}

proof fn lemma_reconcile(
    a: TraderView,
    t: TraderView,
    before: Seq<TradeView>,
    v: ReconcileView,
    sent: Result<Json, String>,
    now: Timestamp,
)
    requires
        v.rest.len() > 0,
        books(a, t, before + v.closed),
        t.order_counter < u64::MAX,
    ensures
        books(a, v.step(t, sent, now).0, before + found(v.step(t, sent, now).1)),
{
    let id = v.rest[0].0;
    let sibling = v.leg.sibling();
    match v.filled {
        Some(fill) => {
            lemma_settle(a, t, before, v, fill, now);
        },
        None => match told(sent, v.rest[0].1) {
            Some(report) => {
                let forgotten = t.without_leg(v.leg, id);
                lemma_books_forget(a, t, before + v.closed, v.leg, id);
                lemma_books_forget(a, forgotten, before + v.closed, sibling, id);
                lemma_settle(a, forgotten, before, v, report.fill, now);
            },
            None => {},
        },
    }
}

/// Looking for filled orders books each trade that it finds, once, and nothing
/// else: what holds before an answer holds after it, and at the end of what is
/// given back.
pub proof fn law_reconciling_books_what_it_finds(
    a: TraderView,
    t: TraderView,
    v: ReconcileView,
    sent: Result<Json, String>,
    now: Timestamp,
)
    requires
        v.rest.len() > 0,
        books(a, t, v.closed),
        t.order_counter < u64::MAX,
    ensures
        books(a, v.step(t, sent, now).0, found(v.step(t, sent, now).1)),
{
    let none = Seq::<TradeView>::empty();
    assert(none + v.closed =~= v.closed);
    lemma_reconcile(a, t, none, v, sent, now);
    let after = found(v.step(t, sent, now).1);
    assert(none + after =~= after);
}

/// Looking for filled orders begins with nothing booked.
pub proof fn law_reconciling_begins_with_clean_books(t: TraderView, leg: Leg, order: Seq<Seq<char>>)
    ensures
        books(t, t, found(tracking(t, leg, order).ask())),
{
    lemma_books_begin(t);
}

/// Every trade that is found by looking for filled orders has a volume that
/// the exchange said was executed.
pub proof fn law_found_trades_are_real(
    t: TraderView,
    v: ReconcileView,
    sent: Result<Json, String>,
    now: Timestamp,
)
    requires
        v.rest.len() > 0,
        v.filled matches Some(f) ==> positive(f.volume),
        forall|i: int| 0 <= i < v.closed.len() ==> positive((#[trigger] v.closed[i]).quantity),
    ensures
        ({
            let after = found(v.step(t, sent, now).1);
            forall|i: int| 0 <= i < after.len() ==> positive((#[trigger] after[i]).quantity)
        }),
        v.step(t, sent, now).1 matches StepView::Call(_, w, _) ==> w.filled matches Some(f)
            ==> positive(f.volume),
{
}

proof fn lemma_close_start(
    a: TraderView,
    t: TraderView,
    trades: Seq<TradeView>,
    id: Seq<char>,
    note: Seq<char>,
)
    requires
        books(a, t, trades),
    ensures
        books(a, close_start(t, id, note).0, trades),
{
    lemma_books_forget(a, t, trades, Leg::Stop, id);
    lemma_books_forget(a, t, trades, Leg::Target, id);
}

/// The trade that a step of closing a position has made.
pub open spec fn made(s: CloseStep) -> Seq<TradeView> {
    match s {
        StepView::Done(_, Ok(trade)) => seq![trade],
        _ => Seq::empty(),
    }
}

proof fn lemma_close_step(
    a: TraderView,
    t: TraderView,
    trades: Seq<TradeView>,
    v: CloseTrade<Seq<char>>,
    sent: Result<Json, String>,
    now: Timestamp,
)
    requires
        books(a, t, trades),
        t.order_counter < u64::MAX,
    ensures
        books(a, close_step(t, v, sent, now).0, trades + made(close_step(t, v, sent, now).1)),
{
    let next = close_step(t, v, sent, now);
    assert(trades + Seq::empty() =~= trades);
    match v {
        CloseTrade::CancellingStop(c) => {
            lemma_books_forget(a, t, trades, Leg::Target, c.id);
        },
        CloseTrade::Confirming(c, f) => {
            match confirm_step(f, sent) {
                StepView::Done(_, Ok(fill)) => {
                    let trade = trade_of(t.order_counter, c.pos, fill, c.note, now);
                    lemma_books_one_more(a, t, trades, c.id, c.pos, fill, c.note, now);
                    assert(trades.push(trade) =~= trades + seq![trade]);
                },
                _ => {},
            }
        },
        _ => {},
    }
}

/// Closing a position books the one trade that it ends with, and nothing
/// before that.
pub proof fn law_closing_books_its_trade(
    t: TraderView,
    v: CloseTrade<Seq<char>>,
    sent: Result<Json, String>,
    now: Timestamp,
)
    requires
        t.order_counter < u64::MAX,
    ensures
        books(t, close_step(t, v, sent, now).0, made(close_step(t, v, sent, now).1)),
{
    lemma_books_begin(t);
    lemma_close_step(t, t, Seq::empty(), v, sent, now);
    let trades = made(close_step(t, v, sent, now).1);
    assert(Seq::<TradeView>::empty() + trades =~= trades);
}

/// Closing a position ends with a trade only where the exchange said that
/// something was executed, and the trade says how much and at which price.
pub proof fn law_closed_trade_is_real(
    t: TraderView,
    v: CloseTrade<Seq<char>>,
    sent: Result<Json, String>,
    now: Timestamp,
)
    ensures
        close_step(t, v, sent, now).1 matches StepView::Done(_, Ok(trade)) ==> {
            &&& positive(trade.quantity)
            &&& v matches CloseTrade::Confirming(_, f) && told(sent, f.txid) matches Some(r)
                && r.fill.volume == trade.quantity && r.fill.price == trade.exit_price
        },
{
}

/// Where closing a position fails, that changes nothing: the position stays and
/// no trade is booked.
pub proof fn law_failed_close_books_nothing(
    t: TraderView,
    v: CloseTrade<Seq<char>>,
    sent: Result<Json, String>,
    now: Timestamp,
)
    ensures
        close_step(t, v, sent, now).1 matches StepView::Done(_, Err(_)) ==> close_step(
            t,
            v,
            sent,
            now,
        ).0 == t,
{
}

/// The trades that checking stops and targets has made.
pub open spec fn so_far(v: ExitsView) -> Seq<TradeView> {
    match v {
        ExitsView::Stops(_, r) => r.closed,
        ExitsView::Targets(_, before, r) => before + r.closed,
        ExitsView::Closing(_, closed, _) => closed.closed,
    }
}

/// The trades that a step of checking stops and targets has made.
pub open spec fn exited(s: ExitsStep) -> Seq<TradeView> {
    match s {
        StepView::Call(_, v, _) => so_far(v),
        StepView::Done(_, r) => r.closed,
    }
}

proof fn lemma_close_next(a: TraderView, t: TraderView, rest: Pairs, closed: CheckedView)
    requires
        books(a, t, closed.closed),
    ensures
        books(a, close_next(t, rest, closed).0, exited(close_next(t, rest, closed).1)),
    decreases rest.len(),
{
    if rest.len() > 0 {
        lemma_close_start(a, t, closed.closed, rest[0].0, rest[0].1);
        let begun = close_start(t, rest[0].0, rest[0].1);
        if let Err(e) = begun.1 {
            lemma_close_next(a, begun.0, rest.skip(1), closed.with(rest[0].0, Err(e)));
        }
    }
}

proof fn lemma_after_targets(
    a: TraderView,
    t: TraderView,
    prices: Map<Seq<char>, Double>,
    before: Seq<TradeView>,
    s: ReconcileStep,
    out: (TraderView, ExitsStep),
)
    requires
        books(a, t, before + found(s)),
        after_targets(t, prices, before, s, out),
    ensures
        books(a, out.0, exited(out.1)),
{
    match s {
        StepView::Call(_, r, _) => {},
        StepView::Done(_, r) => {
            let all = CheckedView { closed: before + r, failed: Seq::empty() };
            let order = choose|order: Seq<Seq<char>>|
                #[trigger] enumerates(order, t.positions.dom()) && out == close_next(
                    t,
                    due(t, prices, order),
                    all,
                );
            lemma_close_next(a, t, due(t, prices, order), all);
        },
    }
}

proof fn lemma_after_stops(
    a: TraderView,
    t: TraderView,
    prices: Map<Seq<char>, Double>,
    s: ReconcileStep,
    out: (TraderView, ExitsStep),
)
    requires
        books(a, t, found(s)),
        after_stops(t, prices, s, out),
    ensures
        books(a, out.0, exited(out.1)),
{
    match s {
        StepView::Call(_, r, _) => {},
        StepView::Done(_, r) => {
            let order = choose|order: Seq<Seq<char>>|
                #[trigger] enumerates(order, t.tp_orders.dom()) && after_targets(
                    t,
                    prices,
                    r,
                    tracking(t, Leg::Target, order).ask(),
                    out,
                );
            let next = tracking(t, Leg::Target, order).ask();
            assert(r + found(next) =~= r);
            lemma_after_targets(a, t, prices, r, next, out);
        },
    }
}

/// Checking stops and targets begins with clean books, also where it has
/// forgotten resting orders in order to cancel them.
pub proof fn law_checking_begins_with_clean_books(
    t: TraderView,
    prices: Map<Seq<char>, Double>,
    out: (TraderView, ExitsStep),
)
    requires
        exits_start(t, prices, out),
    ensures
        books(t, out.0, exited(out.1)),
{
    lemma_books_begin(t);
    let order = choose|order: Seq<Seq<char>>|
        #[trigger] enumerates(order, t.stop_orders.dom()) && after_stops(
            t,
            prices,
            tracking(t, Leg::Stop, order).ask(),
            out,
        );
    lemma_after_stops(t, t, prices, tracking(t, Leg::Stop, order).ask(), out);
}

/// Checking stops and targets books each trade that it gives back, once, and
/// nothing else: what holds before an answer holds after it.
pub proof fn law_checking_books_what_it_gives(
    a: TraderView,
    t: TraderView,
    v: ExitsView,
    sent: Result<Json, String>,
    now: Timestamp,
    out: (TraderView, ExitsStep),
)
    requires
        v matches ExitsView::Stops(_, r) ==> r.rest.len() > 0,
        v matches ExitsView::Targets(_, _, r) ==> r.rest.len() > 0,
        books(a, t, so_far(v)),
        t.order_counter < u64::MAX,
        exits_step(t, v, sent, now, out),
    ensures
        books(a, out.0, exited(out.1)),
{
    match v {
        ExitsView::Stops(prices, r) => {
            law_reconciling_books_what_it_finds(a, t, r, sent, now);
            let next = r.step(t, sent, now);
            lemma_after_stops(a, next.0, prices, next.1, out);
        },
        ExitsView::Targets(prices, before, r) => {
            lemma_reconcile(a, t, before, r, sent, now);
            let next = r.step(t, sent, now);
            lemma_after_targets(a, next.0, prices, before, next.1, out);
        },
        ExitsView::Closing(rest, closed, c) => {
            lemma_close_step(a, t, closed.closed, c, sent, now);
            let next = close_step(t, c, sent, now);
            assert(closed.closed + Seq::empty() =~= closed.closed);
            match next.1 {
                StepView::Call(_, _, _) => {},
                StepView::Done(_, r) => {
                    let all = closed.with(closing_of(c).id, r);
                    assert(all.closed =~= closed.closed + made(next.1));
                    lemma_close_next(a, next.0, rest, all);
                },
            }
        },
    }
}

proof fn lemma_digits_differ(i: nat, j: nat)
    requires
        i < 10,
        j < 10,
        digit_char(i) == digit_char(j),
    ensures
        i == j,
{
}

proof fn lemma_decimal_nonempty(n: nat)
    ensures
        decimal(n).len() > 0,
    decreases n,
{
    if n >= 10 {
        lemma_decimal_nonempty(n / 10);
    }
}

proof fn lemma_decimal_injective(i: nat, j: nat)
    requires
        decimal(i) == decimal(j),
    ensures
        i == j,
    decreases i + j,
{
    let s = decimal(i);
    let u = decimal(j);
    if i < 10 && j < 10 {
        assert(s[0] == digit_char(i) && u[0] == digit_char(j));
        lemma_digits_differ(i, j);
    } else if i >= 10 && j >= 10 {
        assert(s.drop_last() =~= decimal(i / 10));
        assert(u.drop_last() =~= decimal(j / 10));
        assert(s.last() == digit_char(i % 10) && u.last() == digit_char(j % 10));
        lemma_decimal_injective(i / 10, j / 10);
        lemma_digits_differ(i % 10, j % 10);
    } else if i >= 10 {
        lemma_decimal_nonempty(i / 10);
        assert(s.len() == decimal(i / 10).len() + 1 && u.len() == 1);
    } else {
        lemma_decimal_nonempty(j / 10);
        assert(u.len() == decimal(j / 10).len() + 1 && s.len() == 1);
    }
}

/// Trades that are booked one after the other have different names.
pub proof fn law_trades_have_different_names(
    a: TraderView,
    b: TraderView,
    trades: Seq<TradeView>,
    i: int,
    j: int,
)
    requires
        books(a, b, trades),
        0 <= i < j < trades.len(),
    ensures
        trades[i].id != trades[j].id,
{
    let m = (a.order_counter + i) as nat;
    let n = (a.order_counter + j) as nat;
    if trades[i].id == trades[j].id {
        let head = "live-"@;
        assert(trades[i].id.skip(head.len() as int) =~= decimal(m));
        assert(trades[j].id.skip(head.len() as int) =~= decimal(n));
        lemma_decimal_injective(m, n);
    }
}

/// Where loading what is known of the pairs fails, what is known stays.
pub proof fn law_failed_load_changes_nothing(t: TraderView, sent: Result<Json, String>)
    requires
        pair_load_end(t, sent).1 is Err,
    ensures
        pair_load_end(t, sent).0 == t,
{
}

proof fn lemma_total_next(t: TraderView, rest: Amounts, total: Double)
    ensures
        match total_next(t, rest, total) {
            (after, StepView::Done(_, Ok(d))) => after.account.balance == d && after.account.equity
                == d,
            (after, StepView::Done(_, Err(_))) => false,
            (after, StepView::Call(_, _, _)) => after == t,
        },
    decreases rest.len(),
{
    if rest.len() > 0 && is_dollar(rest[0].0) {
        lemma_total_next(t, rest.skip(1), sum(total, rest[0].1));
    }
}

/// The total that is given back is the balance and the equity from then on.
/// Before the end, and where it fails, nothing changes.
pub proof fn law_total_becomes_the_balance(t: TraderView, v: TotalView, sent: Result<Json, String>)
    ensures
        match total_step(t, v, sent) {
            (after, StepView::Done(_, Ok(d))) => after.account.balance == d && after.account.equity
                == d,
            (after, StepView::Done(_, Err(_))) => after == t,
            (after, StepView::Call(_, _, _)) => after == t,
        },
{
    match v {
        TotalView::Listing => match result_members(sent) {
            Ok(m) => {
                lemma_total_next(t, counted(m), zero());
            },
            Err(_) => {},
        },
        TotalView::Pricing(rest, total) => match ticker_price(sent) {
            Ok(price) => {
                lemma_total_next(t, rest.skip(1), sum(total, product(rest[0].1, price)));
            },
            Err(_) => {
                lemma_total_next(t, rest.skip(1), total);
            },
        },
    }
}

} // verus!
