//! Opening a position.
use crate::clock::{utc_now, Timestamp};
use crate::close::OrderStep;
use crate::double::{difference, larger, one, positive, product, sum, zero, Double};
use crate::error::{ExecutionError, Fault};
use crate::fill::{
    confirm_fill, confirm_start, confirm_step, limit_start, limit_step, wait_for_limit_fill,
    ConfirmFill, ConfirmStep, LimitFill, LimitStep,
};
use crate::json::Json;
use crate::market::{read_ticker_price, ticker_price};
use crate::request::{
    cancel_call, cancellation_of, filed_or, outcome_step, plain_step, read_reply, read_txid,
    reply, Call, CallView, Next, Pairs, Params, Step, StepView,
};
use crate::text::same;
use crate::trader::{KrakenTrader, TraderView};
use crate::types::{Fill, Order, OrderStatus, OrderType, Side};
use vstd::prelude::*;
use vstd::string::*;

verus! {

/// What is to be bought or sold.
#[derive(Debug)]
pub struct Entry<T = String> {
    /// "BTC/USD" form.
    pub pair: T,
    /// The direction.
    pub side: Side,
    /// How much, rounded to the pair's lot precision.
    pub volume: Double,
    /// The planned price.
    pub ref_price: Double,
}

impl View for Entry<String> {
    type V = Entry<Seq<char>>;

    open spec fn view(&self) -> Entry<Seq<char>> {
        Entry {
            pair: self.pair@,
            side: self.side,
            volume: self.volume,
            ref_price: self.ref_price,
        }
    }
}

/// How an entry order is sent.
#[derive(Debug, Clone, Copy)]
pub enum Route {
    /// At the market.
    Market,
    /// At this limit, as a maker or not at all.
    PostOnly(Double),
    /// At this limit, crossing the market.
    Marketable(Double),
}

impl Route {
    /// How many seconds an order may take to fill.
    pub open spec fn window(self) -> u64 {
        match self {
            Route::Marketable(_) => 8,
            _ => 25,
        }
    }

    fn seconds(self) -> (n: u64)
        ensures
            n == self.window(),
    {
        match self {
            Route::Marketable(_) => 8,
            _ => 25,
        }
    }
}

/// Placing an entry order.
#[derive(Debug)]
pub enum PlaceOrder<T = String> {
    /// Waiting for Ticker.
    Pricing(Entry<T>),
    /// Waiting for AddOrder.
    Adding(Entry<T>, Route),
    /// Waiting for an order at this limit to fill.
    Watching(Entry<T>, Double, LimitFill<T>),
    /// Waiting for CancelOrder of an order at this limit.
    Cancelling(Entry<T>, Double),
    /// Confirming a market order.
    Confirming(Entry<T>, ConfirmFill<T>),
}

impl View for PlaceOrder<String> {
    type V = PlaceOrder<Seq<char>>;

    open spec fn view(&self) -> PlaceOrder<Seq<char>> {
        match self {
            PlaceOrder::Pricing(e) => PlaceOrder::Pricing(e@),
            PlaceOrder::Adding(e, route) => PlaceOrder::Adding(e@, *route),
            PlaceOrder::Watching(e, limit, w) => PlaceOrder::Watching(e@, *limit, w@),
            PlaceOrder::Cancelling(e, limit) => PlaceOrder::Cancelling(e@, *limit),
            PlaceOrder::Confirming(e, c) => PlaceOrder::Confirming(e@, c@),
        }
    }
}

/// Steps of placing an entry order, in contracts.
pub type EntryStep = OrderStep<PlaceOrder<Seq<char>>>;

/// The planned price: the one given, else the last one of a position of that
/// name, else none.
pub open spec fn reference_price(t: TraderView, pair: Seq<char>, price: Option<Double>) -> Double {
    match price {
        Some(p) => p,
        None => if t.positions.contains_key(pair) {
            t.positions[pair].current_price
        } else {
            zero()
        },
    }
}

/// The price that an order without a planned price is held against: one
/// millionth.
pub open spec fn least_price() -> Double {
    Double { bits: 0x3eb0_c6f7_a0b5_ed8d }
}

/// The limit of a marketable entry: the market, and as much slippage as is
/// allowed.
pub open spec fn crossing_limit(t: TraderView, side: Side, market: Double) -> Double {
    match side {
        Side::Long => product(market, sum(one(), t.max_entry_slippage)),
        Side::Short => product(market, difference(one(), t.max_entry_slippage)),
    }
}

/// The entry order, in contracts.
pub open spec fn entry_params(t: TraderView, e: Entry<Seq<char>>, route: Route) -> Pairs {
    let what = seq![
        ("pair"@, t.kraken_pair(e.pair)),
        ("type"@, e.side.opening()),
        ("volume"@, t.volume_text(e.pair, e.volume)),
    ];
    match route {
        Route::Market => what + seq![("ordertype"@, "market"@)],
        Route::PostOnly(limit) => what + seq![
            ("ordertype"@, "limit"@),
            ("price"@, t.price_text(e.pair, limit)),
            ("oflags"@, "post"@),
        ],
        Route::Marketable(limit) => what + seq![
            ("ordertype"@, "limit"@),
            ("price"@, t.price_text(e.pair, limit)),
        ],
    }
}

/// Send the entry order.
pub open spec fn entry_add(t: TraderView, e: Entry<Seq<char>>, route: Route) -> EntryStep {
    StepView::Call(
        0,
        PlaceOrder::Adding(e, route),
        CallView::Private("AddOrder"@, entry_params(t, e, route)),
    )
}

/// What placing an entry order begins with. A short one is refused where those
/// are disabled, then one below the pair's minimums, then one at a price that
/// is not above zero. With a planned price it is a limit order, as a maker at
/// that price, or crossing the market, which is then asked for first. Only
/// without one it goes to the market.
pub open spec fn entry_start(
    t: TraderView,
    pair: Seq<char>,
    side: Side,
    quantity: Double,
    price: Option<Double>,
) -> EntryStep {
    let ref_price = reference_price(t, pair, price);
    if side == Side::Short && !t.allow_shorts {
        StepView::Done(0, Err(ExecutionError::ExchangeError(Fault::ShortsDisabled)))
    } else {
        match t.validated(pair, quantity, larger(ref_price, least_price())) {
            Err(e) => StepView::Done(0, Err(e)),
            Ok(volume) => {
                let e = Entry { pair, side, volume, ref_price };
                if price is None {
                    entry_add(t, e, Route::Market)
                } else if !positive(ref_price) {
                    StepView::Done(0, Err(ExecutionError::ExchangeError(Fault::InvalidPrice)))
                } else if t.entry_mode == "marketable"@ {
                    StepView::Call(0, PlaceOrder::Pricing(e), t.ticker_call(pair))
                } else {
                    entry_add(t, e, Route::PostOnly(ref_price))
                }
            },
        }
    }
}

/// The order that a fill makes.
pub open spec fn entry_order(
    e: Entry<Seq<char>>,
    txid: Seq<char>,
    order_type: OrderType,
    fill: Fill,
    created: Timestamp,
    filled: Timestamp,
) -> Order<Seq<char>> {
    Order {
        id: txid,
        pair: e.pair,
        side: e.side,
        order_type,
        price: Some(fill.price),
        quantity: fill.volume,
        status: OrderStatus::Filled,
        created_at: created,
        filled_at: Some(filled),
        filled_price: Some(fill.price),
    }
}

/// The trader after an entry order was filled.
pub open spec fn entered(t: TraderView) -> TraderView {
    TraderView { order_counter: (t.order_counter + 1) as u64, ..t }
}

/// What waiting for a limit order leads to: the order, or that it is
/// cancelled.
pub open spec fn entry_watch(
    t: TraderView,
    e: Entry<Seq<char>>,
    limit: Double,
    txid: Seq<char>,
    s: LimitStep,
    created: Timestamp,
    filled: Timestamp,
) -> (TraderView, EntryStep) {
    match s {
        StepView::Call(pause, w, call) => (
            t,
            StepView::Call(pause, PlaceOrder::Watching(e, limit, w), call),
        ),
        StepView::Done(pause, Some(fill)) => (
            entered(t),
            StepView::Done(
                pause,
                Ok(entry_order(e, txid, OrderType::Limit, fill, created, filled)),
            ),
        ),
        StepView::Done(pause, None) => (
            t,
            StepView::Call(pause, PlaceOrder::Cancelling(e, limit), cancellation_of(txid)),
        ),
    }
}

/// What confirming a market order leads to: the order, or the error.
pub open spec fn entry_confirm(
    t: TraderView,
    e: Entry<Seq<char>>,
    txid: Seq<char>,
    s: ConfirmStep,
    created: Timestamp,
    filled: Timestamp,
) -> (TraderView, EntryStep) {
    match s {
        StepView::Call(pause, c, call) => (
            t,
            StepView::Call(pause, PlaceOrder::Confirming(e, c), call),
        ),
        StepView::Done(pause, Ok(fill)) => (
            entered(t),
            StepView::Done(
                pause,
                Ok(entry_order(e, txid, OrderType::Market, fill, created, filled)),
            ),
        ),
        StepView::Done(pause, Err(err)) => (t, StepView::Done(pause, Err(err))),
    }
}

/// What follows an answer. Without a market price the planned one stands in.
/// Whether the order could be cancelled makes no difference.
pub open spec fn entry_step(
    t: TraderView,
    v: PlaceOrder<Seq<char>>,
    sent: Result<Json, String>,
    created: Timestamp,
    filled: Timestamp,
) -> (TraderView, EntryStep) {
    match v {
        PlaceOrder::Pricing(e) => {
            let market = match ticker_price(sent) {
                Ok(p) => p,
                Err(_) => e.ref_price,
            };
            (t, entry_add(t, e, Route::Marketable(crossing_limit(t, e.side, market))))
        },
        PlaceOrder::Adding(e, route) => match reply(sent) {
            Err(err) => (
                t,
                StepView::Done(0, Err(ExecutionError::ExchangeError(Fault::EntryNotPlaced(err)))),
            ),
            Ok(body) => {
                let txid = filed_or(body, "unknown"@);
                match route {
                    Route::Market => entry_confirm(
                        t,
                        e,
                        txid,
                        confirm_start(txid),
                        created,
                        filled,
                    ),
                    Route::PostOnly(limit) | Route::Marketable(limit) => entry_watch(
                        t,
                        e,
                        limit,
                        txid,
                        limit_start(txid, route.window()),
                        created,
                        filled,
                    ),
                }
            },
        },
        PlaceOrder::Watching(e, limit, w) => entry_watch(
            t,
            e,
            limit,
            w.txid,
            limit_step(w, sent),
            created,
            filled,
        ),
        PlaceOrder::Cancelling(e, limit) => (
            t,
            StepView::Done(
                0,
                Err(
                    ExecutionError::ExchangeError(
                        Fault::EntryNotFilled { pair: e.pair, limit: t.price_text(e.pair, limit) },
                    ),
                ),
            ),
        ),
        PlaceOrder::Confirming(e, c) => entry_confirm(
            t,
            e,
            c.txid,
            confirm_step(c, sent),
            created,
            filled,
        ),
    }
}

fn send_entry(trader: &KrakenTrader, e: Entry, route: Route) -> (s: Step<
    PlaceOrder,
    Result<Order, ExecutionError>,
>)
    ensures
        outcome_step(s) == entry_add(trader@, e@, route),
{
    let pair: &str = e.pair.as_str();
    let mut params: Params = Params::new();
    params.push("pair", trader.kraken_pair(pair).as_str());
    params.push("type", e.side.opening_word());
    params.push("volume", trader.fmt_volume(pair, e.volume).as_str());
    match route {
        Route::Market => {
            params.push("ordertype", "market");
        },
        Route::PostOnly(limit) => {
            params.push("ordertype", "limit");
            params.push("price", trader.fmt_price(pair, limit).as_str());
            params.push("oflags", "post");
        },
        Route::Marketable(limit) => {
            params.push("ordertype", "limit");
            params.push("price", trader.fmt_price(pair, limit).as_str());
        },
    }
    assert(params@ =~= entry_params(trader@, e@, route));
    Step::call(
        PlaceOrder::Adding(e, route),
        Call::Private { endpoint: "AddOrder".to_owned(), params },
    )
}

fn give_order(
    e: Entry,
    txid: String,
    order_type: OrderType,
    fill: Fill,
    created: Timestamp,
    filled: Timestamp,
) -> (o: Order)
    ensures
        o@ == entry_order(e@, txid@, order_type, fill, created, filled),
{
    Order {
        id: txid,
        pair: e.pair,
        side: e.side,
        order_type,
        price: Some(fill.price),
        quantity: fill.volume,
        status: OrderStatus::Filled,
        created_at: created,
        filled_at: Some(filled),
        filled_price: Some(fill.price),
    }
}

fn watch(
    trader: &mut KrakenTrader,
    e: Entry,
    limit: Double,
    txid: String,
    s: Step<LimitFill, Option<Fill>>,
    created: Timestamp,
    filled: Timestamp,
) -> (r: Step<PlaceOrder, Result<Order, ExecutionError>>)
    requires
        s.next is Done ==> old(trader)@.order_counter < u64::MAX,
    ensures
        (final(trader)@, outcome_step(r)) == entry_watch(
            old(trader)@,
            e@,
            limit,
            txid@,
            plain_step(s),
            created,
            filled,
        ),
{
    let Step { pause, next } = s;
    match next {
        Next::Call(w, call) => Step {
            pause,
            next: Next::Call(PlaceOrder::Watching(e, limit, w), call),
        },
        Next::Done(Some(fill)) => {
            trader.count_order();
            let order: Order = give_order(e, txid, OrderType::Limit, fill, created, filled);
            Step { pause, next: Next::Done(Ok(order)) }
        },
        Next::Done(None) => Step {
            pause,
            next: Next::Call(PlaceOrder::Cancelling(e, limit), cancel_call(txid.as_str())),
        },
    }
}

fn confirm(
    trader: &mut KrakenTrader,
    e: Entry,
    txid: String,
    s: Step<ConfirmFill, Result<Fill, ExecutionError>>,
    created: Timestamp,
    filled: Timestamp,
) -> (r: Step<PlaceOrder, Result<Order, ExecutionError>>)
    requires
        s.next is Done ==> old(trader)@.order_counter < u64::MAX,
    ensures
        (final(trader)@, outcome_step(r)) == entry_confirm(
            old(trader)@,
            e@,
            txid@,
            outcome_step(s),
            created,
            filled,
        ),
{
    let Step { pause, next } = s;
    match next {
        Next::Call(c, call) => Step { pause, next: Next::Call(PlaceOrder::Confirming(e, c), call) },
        Next::Done(Ok(fill)) => {
            trader.count_order();
            let order: Order = give_order(e, txid, OrderType::Market, fill, created, filled);
            Step { pause, next: Next::Done(Ok(order)) }
        },
        Next::Done(Err(err)) => Step { pause, next: Next::Done(Err(err)) },
    }
}

impl KrakenTrader {
    /// Place a LIVE entry order and confirm the real fill: with a planned
    /// price a limit order, which fills within its window or is cancelled;
    /// without one a market order. A stop is placed separately, with
    /// [`KrakenTrader::place_stop`].
    pub fn place_order(
        &self,
        pair: &str,
        side: Side,
        quantity: Double,
        price: Option<Double>,
        _stop_loss: Option<Double>,
    ) -> (s: Step<PlaceOrder, Result<Order, ExecutionError>>)
        ensures
            outcome_step(s) == entry_start(self@, pair@, side, quantity, price),
    {
        if side == Side::Short && !self.allows_shorts() {
            return Step::done(Err(ExecutionError::ExchangeError(Fault::ShortsDisabled)));
        }
        let ref_price: Double = match price {
            Some(p) => p,
            None => match self.positions().get(pair) {
                Some(p) => p.current_price,
                None => Double::zero(),
            },
        };
        let least: Double = Double { bits: 0x3eb0_c6f7_a0b5_ed8d };
        let volume: Double = match self.validate_order(pair, quantity, ref_price.max(least)) {
            Ok(v) => v,
            Err(e) => {
                return Step::done(Err(e));
            },
        };
        let e: Entry = Entry { pair: pair.to_owned(), side, volume, ref_price };
        if price.is_none() {
            send_entry(self, e, Route::Market)
        } else if !ref_price.is_positive() {
            Step::done(Err(ExecutionError::ExchangeError(Fault::InvalidPrice)))
        } else if same(self.entry_mode(), "marketable") {
            Step::call(PlaceOrder::Pricing(e), self.ticker_request(pair))
        } else {
            send_entry(self, e, Route::PostOnly(ref_price))
        }
    }
}

impl PlaceOrder<String> {
    /// Take in an answer, when an order is recorded at `created` and `filled`.
    pub fn resume_at(
        self,
        trader: &mut KrakenTrader,
        sent: Result<Json, String>,
        created: Timestamp,
        filled: Timestamp,
    ) -> (s: Step<PlaceOrder, Result<Order, ExecutionError>>)
        requires
            self@ is Watching || self@ is Confirming ==> old(trader)@.order_counter < u64::MAX,
        ensures
            (final(trader)@, outcome_step(s)) == entry_step(
                old(trader)@,
                self@,
                sent,
                created,
                filled,
            ),
    {
        match self {
            PlaceOrder::Pricing(e) => {
                let market: Double = match read_ticker_price(sent) {
                    Ok(p) => p,
                    Err(_) => e.ref_price,
                };
                let slippage: Double = trader.max_entry_slippage();
                let limit: Double = match e.side {
                    Side::Long => market.times(Double::one().plus(slippage)),
                    Side::Short => market.times(Double::one().minus(slippage)),
                };
                send_entry(trader, e, Route::Marketable(limit))
            },
            PlaceOrder::Adding(e, route) => match read_reply(sent) {
                Err(err) => Step::done(
                    Err(ExecutionError::ExchangeError(Fault::EntryNotPlaced(err))),
                ),
                Ok(body) => {
                    let txid: String = read_txid(&body, "unknown");
                    match route {
                        Route::Market => {
                            let s: Step<ConfirmFill, Result<Fill, ExecutionError>> = confirm_fill(
                                txid.as_str(),
                            );
                            confirm(trader, e, txid, s, created, filled)
                        },
                        Route::PostOnly(limit) | Route::Marketable(limit) => {
                            let s: Step<LimitFill, Option<Fill>> = wait_for_limit_fill(
                                txid.as_str(),
                                route.seconds(),
                            );
                            watch(trader, e, limit, txid, s, created, filled)
                        },
                    }
                },
            },
            PlaceOrder::Watching(e, limit, w) => {
                let txid: String = w.txid.clone();
                watch(trader, e, limit, txid, w.resume(sent), created, filled)
            },
            PlaceOrder::Cancelling(e, limit) => {
                let limit: String = trader.fmt_price(e.pair.as_str(), limit);
                Step::done(
                    Err(
                        ExecutionError::ExchangeError(
                            Fault::EntryNotFilled { pair: e.pair, limit },
                        ),
                    ),
                )
            },
            PlaceOrder::Confirming(e, c) => {
                let txid: String = c.txid.clone();
                confirm(trader, e, txid, c.resume(sent), created, filled)
            },
        }
    }

    /// Take in an answer.
    pub fn resume(self, trader: &mut KrakenTrader, sent: Result<Json, String>) -> (s: Step<
        PlaceOrder,
        Result<Order, ExecutionError>,
    >)
        requires
            self@ is Watching || self@ is Confirming ==> old(trader)@.order_counter < u64::MAX,
        ensures
            exists|created: Timestamp, filled: Timestamp|
                created.proper() && filled.proper() && (
                    final(trader)@,
                    outcome_step(s),
                ) == #[trigger] entry_step(
                    old(trader)@,
                    self@,
                    sent,
                    created,
                    filled,
                ),
    {
        let created: Timestamp = utc_now();
        let filled: Timestamp = utc_now();
        self.resume_at(trader, sent, created, filled)
    }
}

} // verus!
