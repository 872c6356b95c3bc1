//! Cancelling orders, selling out, and the resting orders that protect a
//! position.
use crate::double::{at_most, zero, Double};
use crate::error::{error_views, outcome, ErrorView, ExecutionError, Fault};
use crate::json::Json;
use crate::request::{
    cancel_call, cancellation_of, errors_step, filed_or, outcome_step, read_reply, read_txid, reply,
    Call, CallView, Next, Pairs, Params, Step, StepView,
};
use crate::trader::{KrakenTrader, TraderView};
use crate::types::{Leg, Side};
use vstd::prelude::*;
use vstd::string::*;

verus! {

/// What the answer to a request comes to of which only success matters.
pub open spec fn acknowledged(sent: Result<Json, String>) -> Result<(), ErrorView> {
    match reply(sent) {
        Ok(_) => Ok(()),
        Err(e) => Err(ExecutionError::ExchangeError(Fault::Request(e))),
    }
}

fn read_acknowledgement(sent: Result<Json, String>) -> (r: Result<(), ExecutionError>)
    ensures
        outcome(r) == acknowledged(sent),
{
    match read_reply(sent) {
        Ok(_) => Ok(()),
        Err(e) => Err(ExecutionError::ExchangeError(Fault::Request(e))),
    }
}

/// A request of which only success matters: waiting for its answer.
#[derive(Debug)]
pub struct Acknowledgement;

impl View for Acknowledgement {
    type V = Acknowledgement;

    open spec fn view(&self) -> Acknowledgement {
        *self
    }
}

impl Acknowledgement {
    /// Take in the answer.
    pub fn resume(self, sent: Result<Json, String>) -> (s: Step<
        Acknowledgement,
        Result<(), ExecutionError>,
    >)
        ensures
            outcome_step(s) == StepView::<
                Acknowledgement,
                Result<(), ErrorView>,
            >::Done(0, acknowledged(sent)),
    {
        Step::done(read_acknowledgement(sent))
    }
}

/// Cancelling every order: waiting for CancelAll.
#[derive(Debug)]
pub struct CancelAll;

impl View for CancelAll {
    type V = CancelAll;

    open spec fn view(&self) -> CancelAll {
        *self
    }
}

impl CancelAll {
    /// Take in the answer. Where it is a success, no order rests any more.
    pub fn resume(self, trader: &mut KrakenTrader, sent: Result<Json, String>) -> (s: Step<
        CancelAll,
        Result<(), ExecutionError>,
    >)
        ensures
            final(trader)@ == if acknowledged(sent) is Ok {
                old(trader)@.unprotected()
            } else {
                old(trader)@
            },
            outcome_step(s) == StepView::<
                CancelAll,
                Result<(), ErrorView>,
            >::Done(0, acknowledged(sent)),
    {
        let r: Result<(), ExecutionError> = read_acknowledgement(sent);
        match r {
            Ok(_) => {
                trader.forget_legs();
            },
            Err(_) => {},
        }
        Step::done(r)
    }
}

/// A market order, in contracts.
pub open spec fn market_params(pair: Seq<char>, word: Seq<char>, volume: Seq<char>) -> Pairs {
    seq![("pair"@, pair), ("type"@, word), ("ordertype"@, "market"@), ("volume"@, volume)]
}

/// Place a market order.
pub(crate) fn market_call(pair: &str, word: &str, volume: &str) -> (c: Call)
    ensures
        c@ == CallView::Private("AddOrder"@, market_params(pair@, word@, volume@)),
{
    let mut params: Params = Params::new();
    params.push("pair", pair);
    params.push("type", word);
    params.push("ordertype", "market");
    params.push("volume", volume);
    assert(params@ =~= market_params(pair@, word@, volume@));
    Call::Private { endpoint: "AddOrder".to_owned(), params }
}

/// What selling a whole balance begins with: nothing where the volume is
/// nothing, else a market order.
pub open spec fn sell_all_start(t: TraderView, pair: Seq<char>, volume: Double) -> StepView<
    Acknowledgement,
    Result<(), ErrorView>,
> {
    let vol = t.rounded_volume(pair, volume);
    if at_most(vol, zero()) {
        StepView::Done(0, Ok(()))
    } else {
        StepView::Call(
            0,
            Acknowledgement,
            CallView::Private(
                "AddOrder"@,
                market_params(t.kraken_pair(pair), "sell"@, t.volume_text(pair, vol)),
            ),
        )
    }
}

/// The order that protects a position, in contracts.
pub open spec fn leg_params(
    t: TraderView,
    leg: Leg,
    pair: Seq<char>,
    side: Side,
    vol: Double,
    price: Double,
) -> Pairs {
    seq![
        ("pair"@, t.kraken_pair(pair)),
        ("type"@, side.closing()),
        ("ordertype"@, leg.order_word()),
        ("price"@, t.price_text(pair, price)),
        ("volume"@, t.volume_text(pair, vol)),
    ]
}

/// Placing a resting order: waiting for AddOrder.
#[derive(Debug)]
pub struct PlaceLeg<T = String> {
    /// The kind of order.
    pub leg: Leg,
    /// The position.
    pub id: T,
}

impl View for PlaceLeg<String> {
    type V = PlaceLeg<Seq<char>>;

    open spec fn view(&self) -> PlaceLeg<Seq<char>> {
        PlaceLeg { leg: self.leg, id: self.id@ }
    }
}

/// What placing a resting order begins with: nothing where the level or the
/// volume is nothing, else a trigger order on the closing side.
pub open spec fn leg_start(
    t: TraderView,
    leg: Leg,
    pair: Seq<char>,
    side: Side,
    quantity: Double,
    price: Double,
    id: Seq<char>,
) -> StepView<PlaceLeg<Seq<char>>, Result<(), ErrorView>> {
    let vol = t.rounded_volume(pair, quantity);
    if at_most(price, zero()) || at_most(vol, zero()) {
        StepView::Done(0, Ok(()))
    } else {
        StepView::Call(
            0,
            PlaceLeg { leg, id },
            CallView::Private("AddOrder"@, leg_params(t, leg, pair, side, vol, price)),
        )
    }
}

/// The trader after the answer: where that names the order, it is remembered.
pub open spec fn leg_end(
    t: TraderView,
    v: PlaceLeg<Seq<char>>,
    sent: Result<Json, String>,
) -> TraderView {
    match reply(sent) {
        Ok(body) => {
            let txid = filed_or(body, ""@);
            if txid.len() == 0 {
                t
            } else {
                t.with_legs(v.leg, t.legs(v.leg).insert(v.id, txid))
            }
        },
        Err(_) => t,
    }
}

impl KrakenTrader {
    /// Cancel a single order.
    pub fn cancel_order(&self, txid: &str) -> (s: Step<Acknowledgement, Result<(), ExecutionError>>)
        ensures
            outcome_step(s) == StepView::<
                Acknowledgement,
                Result<(), ErrorView>,
            >::Call(0, Acknowledgement, cancellation_of(txid@)),
    {
        Step::call(Acknowledgement, cancel_call(txid))
    }

    /// Real kill-switch: cancel every open order on the account.
    pub fn cancel_all(&self) -> (s: Step<CancelAll, Result<(), ExecutionError>>)
        ensures
            outcome_step(s) == StepView::<
                CancelAll,
                Result<(), ErrorView>,
            >::Call(0, CancelAll, CallView::Private("CancelAll"@, Pairs::empty())),
    {
        Step::call(
            CancelAll,
            Call::Private { endpoint: "CancelAll".to_owned(), params: Params::new() },
        )
    }

    /// Market-sell an entire asset balance.
    pub fn market_sell_all(&self, pair: &str, volume: Double) -> (s: Step<
        Acknowledgement,
        Result<(), ExecutionError>,
    >)
        ensures
            outcome_step(s) == sell_all_start(
                self@,
                pair@,
                volume,
            ),
    {
        let vol: Double = self.round_volume(pair, volume);
        if vol.le(Double::zero()) {
            return Step::done(Ok(()));
        }
        Step::call(
            Acknowledgement,
            market_call(
                self.kraken_pair(pair).as_str(),
                "sell",
                self.fmt_volume(pair, vol).as_str(),
            ),
        )
    }

    /// Place a resting order that protects a position.
    pub(crate) fn place_leg(
        &self,
        leg: Leg,
        pair: &str,
        side: Side,
        quantity: Double,
        price: Double,
        id: &str,
    ) -> (s: Step<PlaceLeg, Result<(), ExecutionError>>)
        ensures
            outcome_step(s) == leg_start(self@, leg, pair@, side, quantity, price, id@),
    {
        if price.le(Double::zero()) {
            return Step::done(Ok(()));
        }
        let vol: Double = self.round_volume(pair, quantity);
        if vol.le(Double::zero()) {
            return Step::done(Ok(()));
        }
        let mut params: Params = Params::new();
        params.push("pair", self.kraken_pair(pair).as_str());
        params.push("type", side.closing_word());
        params.push("ordertype", leg.word());
        params.push("price", self.fmt_price(pair, price).as_str());
        params.push("volume", self.fmt_volume(pair, vol).as_str());
        assert(params@ =~= leg_params(self@, leg, pair@, side, vol, price));
        Step::call(
            PlaceLeg { leg, id: id.to_owned() },
            Call::Private { endpoint: "AddOrder".to_owned(), params },
        )
    }

    /// Place a resting stop-loss order on the exchange and remember it against
    /// the position. Best-effort: a failure is only told, and changes nothing.
    pub fn place_stop(
        &self,
        pair: &str,
        side: Side,
        quantity: Double,
        stop_price: Double,
        position_id: &str,
    ) -> (s: Step<PlaceLeg, Result<(), ExecutionError>>)
        ensures
            outcome_step(s) == leg_start(
                self@,
                Leg::Stop,
                pair@,
                side,
                quantity,
                stop_price,
                position_id@,
            ),
    {
        self.place_leg(Leg::Stop, pair, side, quantity, stop_price, position_id)
    }

    /// Place a resting take-profit order as the bracket sibling of the stop.
    /// Best-effort: a failure is only told, and changes nothing.
    pub fn place_tp(
        &self,
        pair: &str,
        side: Side,
        quantity: Double,
        tp_price: Double,
        position_id: &str,
    ) -> (s: Step<PlaceLeg, Result<(), ExecutionError>>)
        ensures
            outcome_step(s) == leg_start(
                self@,
                Leg::Target,
                pair@,
                side,
                quantity,
                tp_price,
                position_id@,
            ),
    {
        self.place_leg(Leg::Target, pair, side, quantity, tp_price, position_id)
    }
}

impl PlaceLeg<String> {
    /// Take in the answer.
    pub fn resume(self, trader: &mut KrakenTrader, sent: Result<Json, String>) -> (s: Step<
        PlaceLeg,
        Result<(), ExecutionError>,
    >)
        ensures
            final(trader)@ == leg_end(old(trader)@, self@, sent),
            outcome_step(s) == StepView::<PlaceLeg<Seq<char>>, Result<(), ErrorView>>::Done(
                0,
                acknowledged(sent),
            ),
    {
        match read_reply(sent) {
            Ok(body) => {
                let txid: String = read_txid(&body, "");
                if txid.as_str().unicode_len() > 0 {
                    trader.put_leg(self.leg, self.id.as_str(), txid);
                }
                Step::done(Ok(()))
            },
            Err(e) => Step::done(Err(ExecutionError::ExchangeError(Fault::Request(e)))),
        }
    }
}

/// The failures among results of which only success matters.
pub open spec fn failure(r: Result<(), ErrorView>) -> Seq<ErrorView> {
    match r {
        Ok(_) => Seq::empty(),
        Err(e) => seq![e],
    }
}

/// Moving the stop of a position.
#[derive(Debug)]
pub enum AdjustStop<T = String, E = Vec<ExecutionError>> {
    /// Waiting for CancelOrder, with the position, its pair, side and size as
    /// they were, and the new level.
    Cancelling(T, T, Side, Double, Double),
    /// Waiting for AddOrder, with the failures before it.
    Placing(PlaceLeg<T>, E),
}

/// [`AdjustStop`] in contracts.
pub type AdjustView = AdjustStop<Seq<char>, Seq<ErrorView>>;

impl View for AdjustStop<String, Vec<ExecutionError>> {
    type V = AdjustView;

    open spec fn view(&self) -> AdjustView {
        match self {
            AdjustStop::Cancelling(id, pair, side, quantity, stop) => AdjustStop::Cancelling(
                id@,
                pair@,
                *side,
                *quantity,
                *stop,
            ),
            AdjustStop::Placing(p, before) => AdjustStop::Placing(p@, error_views(before@)),
        }
    }
}

/// Steps of moving a stop, in contracts. They end with what failed.
pub type AdjustStep = StepView<AdjustView, Seq<ErrorView>>;

/// What is done once no stop rests: the local stop moves, and a fresh one is
/// placed.
pub open spec fn adjust_place(
    t: TraderView,
    id: Seq<char>,
    pair: Seq<char>,
    side: Side,
    quantity: Double,
    stop: Double,
    before: Seq<ErrorView>,
) -> (TraderView, AdjustStep) {
    let moved = t.stopped_at(id, stop);
    (
        moved,
        match leg_start(moved, Leg::Stop, pair, side, quantity, stop, id) {
            StepView::Call(pause, p, call) => StepView::Call(
                pause,
                AdjustStop::Placing(p, before),
                call,
            ),
            StepView::Done(pause, _) => StepView::Done(pause, before),
        },
    )
}

/// What moving a stop begins with: nothing where there is no such position;
/// the old resting stop is cancelled first.
pub open spec fn adjust_start(t: TraderView, id: Seq<char>, stop: Double) -> (
    TraderView,
    AdjustStep,
) {
    if !t.positions.contains_key(id) {
        (t, StepView::Done(0, Seq::empty()))
    } else {
        let pos = t.positions[id];
        if t.stop_orders.contains_key(id) {
            (
                t.without_leg(Leg::Stop, id),
                StepView::Call(
                    0,
                    AdjustStop::Cancelling(id, pos.pair, pos.side, pos.quantity, stop),
                    cancellation_of(t.stop_orders[id]),
                ),
            )
        } else {
            adjust_place(t, id, pos.pair, pos.side, pos.quantity, stop, Seq::empty())
        }
    }
}

/// What follows an answer. Where the old stop could not be cancelled, or the
/// new one not placed, that is told at the end, and makes no other difference.
pub open spec fn adjust_step(t: TraderView, v: AdjustView, sent: Result<Json, String>) -> (
    TraderView,
    AdjustStep,
) {
    match v {
        AdjustStop::Cancelling(id, pair, side, quantity, stop) => adjust_place(
            t,
            id,
            pair,
            side,
            quantity,
            stop,
            failure(acknowledged(sent)),
        ),
        AdjustStop::Placing(p, before) => (
            leg_end(t, p, sent),
            StepView::Done(0, before + failure(acknowledged(sent))),
        ),
    }
}

fn adjust_go_on(
    trader: &mut KrakenTrader,
    id: &str,
    pair: &str,
    side: Side,
    quantity: Double,
    stop: Double,
    before: Vec<ExecutionError>,
) -> (s: Step<AdjustStop, Vec<ExecutionError>>)
    ensures
        (final(trader)@, errors_step(s)) == adjust_place(
            old(trader)@,
            id@,
            pair@,
            side,
            quantity,
            stop,
            error_views(before@),
        ),
{
    trader.set_stop(id, stop);
    let Step { pause, next } = trader.place_leg(Leg::Stop, pair, side, quantity, stop, id);
    match next {
        Next::Call(p, call) => Step {
            pause,
            next: Next::Call(AdjustStop::Placing(p, before), call),
        },
        Next::Done(_) => Step { pause, next: Next::Done(before) },
    }
}

impl KrakenTrader {
    /// Move the stop-loss of an open position: cancel the old resting stop,
    /// update the local stop, and place a fresh resting stop at the new price.
    /// Ends with what failed of that.
    pub fn adjust_stop(&mut self, position_id: &str, new_stop: Double) -> (s: Step<
        AdjustStop,
        Vec<ExecutionError>,
    >)
        ensures
            (final(self)@, errors_step(s)) == adjust_start(old(self)@, position_id@, new_stop),
    {
        let none: Vec<ExecutionError> = Vec::new();
        assert(error_views(none@) =~= Seq::empty());
        let (pair, side, quantity) = match self.positions().get(position_id) {
            Some(p) => (p.pair.clone(), p.side, p.quantity),
            None => {
                return Step::done(none);
            },
        };
        let ghost start = self@;
        match self.take_leg(Leg::Stop, position_id) {
            Some(txid) => Step::call(
                AdjustStop::Cancelling(position_id.to_owned(), pair, side, quantity, new_stop),
                cancel_call(txid.as_str()),
            ),
            None => {
                assert(start.stop_orders.remove(position_id@) =~= start.stop_orders);
                adjust_go_on(self, position_id, pair.as_str(), side, quantity, new_stop, none)
            },
        }
    }
}

impl AdjustStop<String, Vec<ExecutionError>> {
    /// Take in an answer.
    pub fn resume(self, trader: &mut KrakenTrader, sent: Result<Json, String>) -> (s: Step<
        AdjustStop,
        Vec<ExecutionError>,
    >)
        ensures
            (final(trader)@, errors_step(s)) == adjust_step(old(trader)@, self@, sent),
    {
        match self {
            AdjustStop::Cancelling(id, pair, side, quantity, stop) => {
                let mut before: Vec<ExecutionError> = Vec::new();
                if let Err(e) = read_acknowledgement(sent) {
                    before.push(e);
                }
                assert(error_views(before@) =~= failure(acknowledged(sent)));
                adjust_go_on(trader, id.as_str(), pair.as_str(), side, quantity, stop, before)
            },
            AdjustStop::Placing(p, before) => {
                let mut all: Vec<ExecutionError> = before;
                let ghost earlier = all@;
                let Step { pause: _, next } = p.resume(trader, sent);
                if let Next::Done(Err(e)) = next {
                    all.push(e);
                }
                assert(error_views(all@) =~= error_views(earlier) + failure(acknowledged(sent)));
                Step::done(all)
            },
        }
    }
}

} // verus!
