//! Closing a position at the market.
use crate::bracket::{market_call, market_params};
use crate::clock::{utc_now, Timestamp};
use crate::error::{ErrorView, ExecutionError, Fault};
use crate::fill::{confirm_fill, confirm_start, confirm_step, ConfirmFill, ConfirmStep};
use crate::json::Json;
use crate::request::{
    cancel_call, cancellation_of, filed_or, read_reply, read_txid, reply, outcome_step, Call,
    CallView, Next, Step, StepView,
};
use crate::text::{decimal, decimal_text, join};
use crate::trader::{trade_of, KrakenTrader, TradeView, TraderView};
use crate::types::{Fill, Leg, Order, OrderStatus, OrderType, Position, Side, TradeRecord};
use vstd::prelude::*;
use vstd::string::*;

verus! {

/// What is being closed.
#[derive(Debug)]
pub struct Closing<T = String> {
    /// The position.
    pub id: T,
    /// Why.
    pub note: T,
    /// The position as it was.
    pub pos: Position<T>,
}

impl View for Closing<String> {
    type V = Closing<Seq<char>>;

    open spec fn view(&self) -> Closing<Seq<char>> {
        Closing { id: self.id@, note: self.note@, pos: self.pos@ }
    }
}

/// Closing a position.
#[derive(Debug)]
pub enum CloseTrade<T = String> {
    /// Waiting for CancelOrder of the resting stop.
    CancellingStop(Closing<T>),
    /// Waiting for CancelOrder of the resting take-profit.
    CancellingTarget(Closing<T>),
    /// Waiting for AddOrder.
    Selling(Closing<T>),
    /// Confirming the order.
    Confirming(Closing<T>, ConfirmFill<T>),
}

impl View for CloseTrade<String> {
    type V = CloseTrade<Seq<char>>;

    open spec fn view(&self) -> CloseTrade<Seq<char>> {
        match self {
            CloseTrade::CancellingStop(c) => CloseTrade::CancellingStop(c@),
            CloseTrade::CancellingTarget(c) => CloseTrade::CancellingTarget(c@),
            CloseTrade::Selling(c) => CloseTrade::Selling(c@),
            CloseTrade::Confirming(c, f) => CloseTrade::Confirming(c@, f@),
        }
    }
}

/// What is being closed.
pub open spec fn closing_of(v: CloseTrade<Seq<char>>) -> Closing<Seq<char>> {
    match v {
        CloseTrade::CancellingStop(c) => c,
        CloseTrade::CancellingTarget(c) => c,
        CloseTrade::Selling(c) => c,
        CloseTrade::Confirming(c, _) => c,
    }
}

/// Steps of closing a position, in contracts.
pub type CloseStep = StepView<CloseTrade<Seq<char>>, Result<TradeView, ErrorView>>;

/// How a part of closing ends that makes no trade yet: with a call, or with an
/// error.
pub type CloseTurn = Result<(CloseTrade<Seq<char>>, CallView), ErrorView>;

/// Once nothing rests for the position: the order that closes it, where it
/// meets the pair's minimums.
pub open spec fn close_sell(t: TraderView, c: Closing<Seq<char>>) -> CloseTurn {
    match t.validated(c.pos.pair, c.pos.quantity, c.pos.current_price) {
        Ok(vol) => Ok(
            (
                CloseTrade::Selling(c),
                CallView::Private(
                    "AddOrder"@,
                    market_params(
                        t.kraken_pair(c.pos.pair),
                        c.pos.side.closing(),
                        t.volume_text(c.pos.pair, vol),
                    ),
                ),
            ),
        ),
        Err(e) => Err(e),
    }
}

/// Once no stop rests for the position: the resting take-profit is cancelled.
pub open spec fn close_target(t: TraderView, c: Closing<Seq<char>>) -> (TraderView, CloseTurn) {
    if t.tp_orders.contains_key(c.id) {
        (
            t.without_leg(Leg::Target, c.id),
            Ok((CloseTrade::CancellingTarget(c), cancellation_of(t.tp_orders[c.id]))),
        )
    } else {
        (t, close_sell(t, c))
    }
}

/// What closing a position begins with: the resting stop is cancelled.
pub open spec fn close_start(t: TraderView, id: Seq<char>, note: Seq<char>) -> (
    TraderView,
    CloseTurn,
) {
    if !t.positions.contains_key(id) {
        (t, Err(ExecutionError::PositionNotFound(id)))
    } else {
        let c = Closing { id, note, pos: t.positions[id] };
        if t.stop_orders.contains_key(id) {
            (
                t.without_leg(Leg::Stop, id),
                Ok((CloseTrade::CancellingStop(c), cancellation_of(t.stop_orders[id]))),
            )
        } else {
            close_target(t, c)
        }
    }
}

/// The step that such a part comes to.
pub open spec fn turn_step(turn: CloseTurn) -> CloseStep {
    match turn {
        Ok((v, call)) => StepView::Call(0, v, call),
        Err(e) => StepView::Done(0, Err(e)),
    }
}

/// What confirming the order leads to: the end, with the trade booked where
/// something was executed; else nothing is booked and the position stays.
pub open spec fn close_confirm(
    t: TraderView,
    c: Closing<Seq<char>>,
    s: ConfirmStep,
    now: Timestamp,
) -> (TraderView, CloseStep) {
    match s {
        StepView::Call(pause, f, call) => (
            t,
            StepView::Call(pause, CloseTrade::Confirming(c, f), call),
        ),
        StepView::Done(pause, Ok(fill)) => (
            t.booked(c.id, c.pos, fill, c.note, now),
            StepView::Done(pause, Ok(trade_of(t.order_counter, c.pos, fill, c.note, now))),
        ),
        StepView::Done(pause, Err(e)) => (t, StepView::Done(pause, Err(e))),
    }
}

/// What follows an answer. Whether a resting order could be cancelled makes no
/// difference.
pub open spec fn close_step(
    t: TraderView,
    v: CloseTrade<Seq<char>>,
    sent: Result<Json, String>,
    now: Timestamp,
) -> (TraderView, CloseStep) {
    match v {
        CloseTrade::CancellingStop(c) => {
            let next = close_target(t, c);
            (next.0, turn_step(next.1))
        },
        CloseTrade::CancellingTarget(c) => (t, turn_step(close_sell(t, c))),
        CloseTrade::Selling(c) => match reply(sent) {
            Ok(body) => close_confirm(t, c, confirm_start(filed_or(body, "unknown"@)), now),
            Err(e) => (t, StepView::Done(0, Err(ExecutionError::ExchangeError(Fault::Request(e))))),
        },
        CloseTrade::Confirming(c, f) => close_confirm(t, c, confirm_step(f, sent), now),
    }
}

/// What such a part is in contracts.
pub open spec fn turned(r: Result<(CloseTrade, Call), ExecutionError>) -> CloseTurn {
    match r {
        Ok((v, call)) => Ok((v@, call@)),
        Err(e) => Err(e@),
    }
}

fn sell(trader: &KrakenTrader, c: Closing) -> (r: Result<(CloseTrade, Call), ExecutionError>)
    ensures
        turned(r) == close_sell(trader@, c@),
{
    let pair: &str = c.pos.pair.as_str();
    match trader.validate_order(pair, c.pos.quantity, c.pos.current_price) {
        Ok(vol) => {
            let call = market_call(
                trader.kraken_pair(pair).as_str(),
                c.pos.side.closing_word(),
                trader.fmt_volume(pair, vol).as_str(),
            );
            Ok((CloseTrade::Selling(c), call))
        },
        Err(e) => Err(e),
    }
}

fn cancel_target(trader: &mut KrakenTrader, c: Closing) -> (r: Result<
    (CloseTrade, Call),
    ExecutionError,
>)
    ensures
        (final(trader)@, turned(r)) == close_target(old(trader)@, c@),
{
    let ghost start = trader@;
    match trader.take_leg(Leg::Target, c.id.as_str()) {
        Some(txid) => Ok((CloseTrade::CancellingTarget(c), cancel_call(txid.as_str()))),
        None => {
            assert(start.tp_orders.remove(c.id@) =~= start.tp_orders);
            sell(trader, c)
        },
    }
}

fn take_turn(r: Result<(CloseTrade, Call), ExecutionError>) -> (s: Step<
    CloseTrade,
    Result<TradeRecord, ExecutionError>,
>)
    ensures
        outcome_step(s) == turn_step(turned(r)),
{
    match r {
        Ok((v, call)) => Step::call(v, call),
        Err(e) => Step::done(Err(e)),
    }
}

fn confirm(
    trader: &mut KrakenTrader,
    c: Closing,
    s: Step<ConfirmFill, Result<Fill, ExecutionError>>,
    now: Timestamp,
) -> (r: Step<CloseTrade, Result<TradeRecord, ExecutionError>>)
    requires
        s.next is Done ==> old(trader)@.order_counter < u64::MAX,
    ensures
        (final(trader)@, outcome_step(r)) == close_confirm(
            old(trader)@,
            c@,
            outcome_step(s),
            now,
        ),
{
    let Step { pause, next } = s;
    match next {
        Next::Call(f, call) => Step { pause, next: Next::Call(CloseTrade::Confirming(c, f), call) },
        Next::Done(Ok(fill)) => {
            let trade: TradeRecord = trader.book(
                c.id.as_str(),
                &c.pos,
                fill,
                c.note.as_str(),
                now,
            );
            Step { pause, next: Next::Done(Ok(trade)) }
        },
        Next::Done(Err(e)) => Step { pause, next: Next::Done(Err(e)) },
    }
}

impl KrakenTrader {
    /// Begin to close a position at the market.
    pub(crate) fn begin_close(&mut self, position_id: &str, note: &str) -> (r: Result<
        (CloseTrade, Call),
        ExecutionError,
    >)
        ensures
            (final(self)@, turned(r)) == close_start(old(self)@, position_id@, note@),
    {
        let pos: Position = match self.positions().get(position_id) {
            Some(p) => p.copy(),
            None => {
                return Err(ExecutionError::PositionNotFound(position_id.to_owned()));
            },
        };
        let c: Closing = Closing { id: position_id.to_owned(), note: note.to_owned(), pos };
        let ghost start = self@;
        match self.take_leg(Leg::Stop, position_id) {
            Some(txid) => Ok((CloseTrade::CancellingStop(c), cancel_call(txid.as_str()))),
            None => {
                assert(start.stop_orders.remove(position_id@) =~= start.stop_orders);
                cancel_target(self, c)
            },
        }
    }

    /// Close a position at the market, and note why.
    pub fn close_position_with_note(&mut self, position_id: &str, note: &str) -> (s: Step<
        CloseTrade,
        Result<TradeRecord, ExecutionError>,
    >)
        ensures
            final(self)@ == close_start(old(self)@, position_id@, note@).0,
            outcome_step(s) == turn_step(
                close_start(old(self)@, position_id@, note@).1,
            ),
    {
        take_turn(self.begin_close(position_id, note))
    }
}

impl CloseTrade<String> {
    /// The position that is being closed.
    pub(crate) fn id(&self) -> (s: String)
        ensures
            s@ == closing_of(self@).id,
    {
        match self {
            CloseTrade::CancellingStop(c) => c.id.clone(),
            CloseTrade::CancellingTarget(c) => c.id.clone(),
            CloseTrade::Selling(c) => c.id.clone(),
            CloseTrade::Confirming(c, _) => c.id.clone(),
        }
    }

    /// Take in an answer that came at `now`.
    pub fn resume_at(
        self,
        trader: &mut KrakenTrader,
        sent: Result<Json, String>,
        now: Timestamp,
    ) -> (s: Step<CloseTrade, Result<TradeRecord, ExecutionError>>)
        requires
            self@ is Confirming ==> old(trader)@.order_counter < u64::MAX,
        ensures
            (final(trader)@, outcome_step(s))
                == close_step(old(trader)@, self@, sent, now),
    {
        match self {
            CloseTrade::CancellingStop(c) => take_turn(cancel_target(trader, c)),
            CloseTrade::CancellingTarget(c) => take_turn(sell(trader, c)),
            CloseTrade::Selling(c) => match read_reply(sent) {
                Ok(body) => {
                    let txid: String = read_txid(&body, "unknown");
                    confirm(trader, c, confirm_fill(txid.as_str()), now)
                },
                Err(e) => Step::done(Err(ExecutionError::ExchangeError(Fault::Request(e)))),
            },
            CloseTrade::Confirming(c, f) => confirm(trader, c, f.resume(sent), now),
        }
    }

    /// Take in an answer.
    pub fn resume(self, trader: &mut KrakenTrader, sent: Result<Json, String>) -> (s: Step<
        CloseTrade,
        Result<TradeRecord, ExecutionError>,
    >)
        requires
            self@ is Confirming ==> old(trader)@.order_counter < u64::MAX,
        ensures
            exists|now: Timestamp|
                now.proper() && (final(trader)@, outcome_step(s))
                    == #[trigger] close_step(old(trader)@, self@, sent, now),
    {
        let now: Timestamp = utc_now();
        self.resume_at(trader, sent, now)
    }
}

/// Closing a position, for the order that closed it.
#[derive(Debug)]
pub struct ClosePosition<T = String> {
    /// How far it is.
    pub inner: CloseTrade<T>,
}

impl View for ClosePosition<String> {
    type V = ClosePosition<Seq<char>>;

    open spec fn view(&self) -> ClosePosition<Seq<char>> {
        ClosePosition { inner: self.inner@ }
    }
}

/// Steps of closing a position, in contracts.
pub type OrderStep<S> = StepView<S, Result<Order<Seq<char>>, ErrorView>>;

/// The order that closed a position.
pub open spec fn closing_order(
    number: u64,
    trade: TradeView,
    created: Timestamp,
    filled: Timestamp,
) -> Order<Seq<char>> {
    Order {
        id: "live-close-"@ + decimal(number as nat),
        pair: trade.pair,
        side: trade.side.other(),
        order_type: OrderType::Market,
        price: Some(trade.exit_price),
        quantity: trade.quantity,
        status: OrderStatus::Filled,
        created_at: created,
        filled_at: Some(filled),
        filled_price: Some(trade.exit_price),
    }
}

/// The step that a part comes to that makes no trade yet.
pub open spec fn order_turn(turn: CloseTurn) -> OrderStep<ClosePosition<Seq<char>>> {
    match turn {
        Ok((inner, call)) => StepView::Call(0, ClosePosition { inner }, call),
        Err(e) => StepView::Done(0, Err(e)),
    }
}

/// A step of closing a position, with the order in place of the trade.
pub open spec fn with_order(
    next: (TraderView, CloseStep),
    created: Timestamp,
    filled: Timestamp,
) -> (TraderView, OrderStep<ClosePosition<Seq<char>>>) {
    (
        next.0,
        match next.1 {
            StepView::Call(pause, inner, call) => StepView::Call(
                pause,
                ClosePosition { inner },
                call,
            ),
            StepView::Done(pause, r) => StepView::Done(
                pause,
                match r {
                    Ok(trade) => Ok(closing_order(next.0.order_counter, trade, created, filled)),
                    Err(e) => Err(e),
                },
            ),
        },
    )
}

fn give_order(
    trader: &KrakenTrader,
    s: Step<CloseTrade, Result<TradeRecord, ExecutionError>>,
    created: Timestamp,
    filled: Timestamp,
) -> (r: Step<ClosePosition, Result<Order, ExecutionError>>)
    ensures
        (trader@, outcome_step(r)) == with_order(
            (trader@, outcome_step(s)),
            created,
            filled,
        ),
{
    let Step { pause, next } = s;
    match next {
        Next::Call(inner, call) => Step { pause, next: Next::Call(ClosePosition { inner }, call) },
        Next::Done(r) => {
            let out: Result<Order, ExecutionError> = match r {
                Ok(trade) => Ok(
                    Order {
                        id: join("live-close-", decimal_text(trader.order_counter()).as_str()),
                        pair: trade.pair,
                        side: match trade.side {
                            Side::Long => Side::Short,
                            Side::Short => Side::Long,
                        },
                        order_type: OrderType::Market,
                        price: Some(trade.exit_price),
                        quantity: trade.quantity,
                        status: OrderStatus::Filled,
                        created_at: created,
                        filled_at: Some(filled),
                        filled_price: Some(trade.exit_price),
                    },
                ),
                Err(e) => Err(e),
            };
            Step { pause, next: Next::Done(out) }
        },
    }
}

impl KrakenTrader {
    /// Close a position at the market.
    pub fn close_position(&mut self, position_id: &str) -> (s: Step<
        ClosePosition,
        Result<Order, ExecutionError>,
    >)
        ensures
            final(self)@ == close_start(old(self)@, position_id@, "Closed"@).0,
            outcome_step(s) == order_turn(
                close_start(old(self)@, position_id@, "Closed"@).1,
            ),
    {
        match self.begin_close(position_id, "Closed") {
            Ok((inner, call)) => Step::call(ClosePosition { inner }, call),
            Err(e) => Step::done(Err(e)),
        }
    }
}

impl ClosePosition<String> {
    /// Take in an answer, when a trade is closed at `closed` and its order
    /// recorded at `created` and `filled`.
    pub fn resume_at(
        self,
        trader: &mut KrakenTrader,
        sent: Result<Json, String>,
        closed: Timestamp,
        created: Timestamp,
        filled: Timestamp,
    ) -> (s: Step<ClosePosition, Result<Order, ExecutionError>>)
        requires
            self@.inner is Confirming ==> old(trader)@.order_counter < u64::MAX,
        ensures
            (final(trader)@, outcome_step(s))
                == with_order(
                close_step(old(trader)@, self@.inner, sent, closed),
                created,
                filled,
            ),
    {
        let s: Step<CloseTrade, Result<TradeRecord, ExecutionError>> = self.inner.resume_at(
            trader,
            sent,
            closed,
        );
        give_order(trader, s, created, filled)
    }

    /// Take in an answer.
    pub fn resume(self, trader: &mut KrakenTrader, sent: Result<Json, String>) -> (s: Step<
        ClosePosition,
        Result<Order, ExecutionError>,
    >)
        requires
            self@.inner is Confirming ==> old(trader)@.order_counter < u64::MAX,
        ensures
            exists|closed: Timestamp, created: Timestamp, filled: Timestamp|
                closed.proper() && created.proper() && filled.proper() && (
                    final(trader)@,
                    outcome_step(s),
                )
                    == #[trigger] with_order(
                    close_step(old(trader)@, self@.inner, sent, closed),
                    created,
                    filled,
                ),
    {
        let closed: Timestamp = utc_now();
        let created: Timestamp = utc_now();
        let filled: Timestamp = utc_now();
        self.resume_at(trader, sent, closed, created, filled)
    }
}

} // verus!
