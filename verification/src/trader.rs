//! The trader: its book, its settings, and the rules that use them.
use crate::clock::Timestamp;
use crate::crypto::{base64_decode, base64_of, unbase64_of};
use crate::decimal::fixed;
use crate::double::{
    at_most, below, difference, floor_of, hundred, larger, less_than, positive, product, quotient,
    sum, ten_power, zero, Double,
};
use crate::error::{outcome, ErrorView, ExecutionError, Fault};
use crate::laws::volumes::{
    law_volume_is_rounded_down, law_volume_is_whole_lots, usable_places, whole_lots,
};
use crate::request::{assigned, form, sign, signature, CallView, Pairs, Params, SignedRequest};
use crate::table::{enumerates, texts, Table};
use crate::text::{decimal, decimal_text, decimal_text_wide, join, strip_slashes, without_slashes};
use crate::types::{
    trade_views, AccountState, Fill, Leg, PairMeta, Position, Side, TradeRecord,
};
use vstd::prelude::*;
use vstd::string::*;

verus! {

/// Trades on one Kraken spot account.
pub struct KrakenTrader {
    rest_url: String,
    api_key: String,
    api_secret: Vec<u8>,
    positions: Table<Position>,
    closed_trades: Vec<TradeRecord>,
    account: AccountState,
    order_counter: u64,
    fee_rate: Double,
    /// "BTC/USD" -> PairMeta.
    pair_meta: Table<PairMeta>,
    /// Spot accounts cannot short. Disabled at first.
    allow_shorts: bool,
    /// Position -> resting stop-loss order.
    stop_orders: Table<String>,
    /// Position -> resting take-profit order, the bracket sibling of the stop.
    tp_orders: Table<String>,
    /// "post_only" or "marketable".
    entry_mode: String,
    /// Largest slippage of marketable entries, as a fraction.
    max_entry_slippage: Double,
}

/// A position in contracts.
pub type PositionView = Position<Seq<char>>;

/// A trade in contracts.
pub type TradeView = TradeRecord<Seq<char>>;

/// The metadata of a pair in contracts.
pub type MetaView = PairMeta<Seq<char>>;

/// [`KrakenTrader`] in contracts.
pub struct TraderView {
    /// Where the exchange is.
    pub rest_url: Seq<char>,
    /// The public half of the credentials.
    pub api_key: Seq<char>,
    /// The secret half of the credentials.
    pub api_secret: Seq<u8>,
    /// Open positions by name.
    pub positions: Map<Seq<char>, PositionView>,
    /// Closed positions, the last one last.
    pub closed_trades: Seq<TradeView>,
    /// The account.
    pub account: AccountState,
    /// How many orders and trades were numbered.
    pub order_counter: u64,
    /// The fee, as a fraction of what is traded.
    pub fee_rate: Double,
    /// Metadata by pair.
    pub pair_meta: Map<Seq<char>, MetaView>,
    /// Whether short orders are allowed.
    pub allow_shorts: bool,
    /// Resting stop-loss orders by position.
    pub stop_orders: Map<Seq<char>, Seq<char>>,
    /// Resting take-profit orders by position.
    pub tp_orders: Map<Seq<char>, Seq<char>>,
    /// How entries are placed.
    pub entry_mode: Seq<char>,
    /// Largest slippage of marketable entries, as a fraction.
    pub max_entry_slippage: Double,
}

impl View for KrakenTrader {
    type V = TraderView;

    closed spec fn view(&self) -> TraderView {
        TraderView {
            rest_url: self.rest_url@,
            api_key: self.api_key@,
            api_secret: self.api_secret@,
            positions: self.positions@,
            closed_trades: trade_views(self.closed_trades@),
            account: self.account,
            order_counter: self.order_counter,
            fee_rate: self.fee_rate,
            pair_meta: self.pair_meta@,
            allow_shorts: self.allow_shorts,
            stop_orders: self.stop_orders@,
            tp_orders: self.tp_orders@,
            entry_mode: self.entry_mode@,
            max_entry_slippage: self.max_entry_slippage,
        }
    }
}

/// The slippage that marketable entries may have unless it is set: 0.15 percent.
pub open spec fn default_slippage() -> Double {
    Double { bits: 0x3f58_9374_bc6a_7efa }
}

/// The slippage, as a fraction, where this percentage is asked for: never
/// below zero.
pub open spec fn slippage_of(percent: Double) -> Double {
    larger(quotient(percent, hundred()), zero())
}

/// The secret that a configuration text stands for: nothing where the text
/// does not decode.
pub open spec fn secret_bytes(decoded: Option<Seq<u8>>) -> Seq<u8> {
    match decoded {
        Some(b) => b,
        None => Seq::empty(),
    }
}

/// A trader that has done nothing yet: nothing is open, nothing is known of
/// the pairs, entries are post-only and short orders are not allowed.
pub open spec fn unused_trader(
    rest_url: Seq<char>,
    api_key: Seq<char>,
    api_secret: Seq<u8>,
    balance: Double,
    fee_rate: Double,
) -> TraderView {
    TraderView {
        rest_url,
        api_key,
        api_secret,
        positions: Map::empty(),
        closed_trades: Seq::empty(),
        account: AccountState { balance, equity: balance, daily_pnl: zero(), open_positions: 0 },
        order_counter: 0,
        fee_rate,
        pair_meta: Map::empty(),
        allow_shorts: false,
        stop_orders: Map::empty(),
        tp_orders: Map::empty(),
        entry_mode: "post_only"@,
        max_entry_slippage: default_slippage(),
    }
}

/// What a position on `side` gains from `from` to `to` on `volume`.
pub open spec fn gain(side: Side, from: Double, to: Double, volume: Double) -> Double {
    match side {
        Side::Long => product(difference(to, from), volume),
        Side::Short => product(difference(from, to), volume),
    }
}

/// What closing at `fill` a position opened at `entry` gains, fee deducted.
pub open spec fn realized(side: Side, entry: Double, fill: Fill) -> Double {
    difference(gain(side, entry, fill.price, fill.volume), fill.fee)
}

/// `pnl` in percent of what `volume` cost at `entry`.
pub open spec fn percent(pnl: Double, entry: Double, volume: Double) -> Double {
    let cost = product(entry, volume);
    if positive(cost) {
        product(quotient(pnl, cost), hundred())
    } else {
        zero()
    }
}

/// The record of a position closed at `fill`.
pub open spec fn trade_of(
    number: u64,
    pos: PositionView,
    fill: Fill,
    note: Seq<char>,
    now: Timestamp,
) -> TradeView {
    let pnl = realized(pos.side, pos.entry_price, fill);
    TradeRecord {
        id: "live-"@ + decimal(number as nat),
        pair: pos.pair,
        side: pos.side,
        entry_price: pos.entry_price,
        exit_price: fill.price,
        quantity: fill.volume,
        pnl,
        pnl_pct: percent(pnl, pos.entry_price, fill.volume),
        strategy_name: pos.strategy_name,
        opened_at: pos.opened_at,
        closed_at: now,
        notes: note,
    }
}

/// `pos` at the last price of its pair, where `prices` has one.
pub open spec fn marked(pos: PositionView, prices: Map<Seq<char>, Double>) -> PositionView {
    if prices.contains_key(pos.pair) {
        let price = prices[pos.pair];
        Position {
            current_price: price,
            unrealized_pnl: gain(pos.side, pos.entry_price, price, pos.quantity),
            ..pos
        }
    } else {
        pos
    }
}

/// Unrealized gain and cost basis of the positions that have a price, added up
/// in this order.
pub open spec fn totals(
    positions: Map<Seq<char>, PositionView>,
    prices: Map<Seq<char>, Double>,
    order: Seq<Seq<char>>,
) -> (Double, Double)
    decreases order.len(),
{
    if order.len() == 0 {
        (zero(), zero())
    } else {
        let so_far = totals(positions, prices, order.drop_last());
        let pos = positions[order.last()];
        if prices.contains_key(pos.pair) {
            (
                sum(so_far.0, marked(pos, prices).unrealized_pnl),
                sum(so_far.1, product(pos.entry_price, pos.quantity)),
            )
        } else {
            so_far
        }
    }
}

/// `positions`, those among `names` at the last price.
spec fn marked_first(
    positions: Map<Seq<char>, PositionView>,
    prices: Map<Seq<char>, Double>,
    names: Seq<Seq<char>>,
) -> Map<Seq<char>, PositionView> {
    Map::new(
        |k: Seq<char>| positions.contains_key(k),
        |k: Seq<char>|
            if names.contains(k) {
                marked(positions[k], prices)
            } else {
                positions[k]
            },
    )
}

/// Whether `t` is what the positions add up to, in some order.
pub open spec fn adds_up(
    positions: Map<Seq<char>, PositionView>,
    prices: Map<Seq<char>, Double>,
    t: (Double, Double),
) -> bool {
    exists|order: Seq<Seq<char>>|
        #[trigger] enumerates(order, positions.dom()) && totals(positions, prices, order) == t
}

/// Whether `price` has reached the stop of `pos`.
pub open spec fn hits_stop(pos: PositionView, price: Double) -> bool {
    positive(pos.stop_loss) && match pos.side {
        Side::Long => at_most(price, pos.stop_loss),
        Side::Short => at_most(pos.stop_loss, price),
    }
}

/// Whether `price` has reached the target of `pos`.
pub open spec fn hits_target(pos: PositionView, price: Double) -> bool {
    positive(pos.take_profit_1) && match pos.side {
        Side::Long => at_most(pos.take_profit_1, price),
        Side::Short => at_most(price, pos.take_profit_1),
    }
}

impl TraderView {
    /// The metadata of a pair.
    pub open spec fn meta(self, pair: Seq<char>) -> Option<MetaView> {
        if self.pair_meta.contains_key(pair) {
            Some(self.pair_meta[pair])
        } else {
            None
        }
    }

    /// The order endpoint's name for a pair: the official one where it is
    /// known, else the pair without its slash.
    pub open spec fn kraken_pair(self, pair: Seq<char>) -> Seq<char> {
        match self.meta(pair) {
            Some(m) => m.altname,
            None => without_slashes(pair),
        }
    }

    /// Decimal places allowed in prices of a pair.
    pub open spec fn price_decimals(self, pair: Seq<char>) -> u32 {
        match self.meta(pair) {
            Some(m) => m.price_decimals,
            None => 5,
        }
    }

    /// Decimal places allowed in volumes of a pair.
    pub open spec fn lot_decimals(self, pair: Seq<char>) -> u32 {
        match self.meta(pair) {
            Some(m) => m.lot_decimals,
            None => 8,
        }
    }

    /// A price as it is sent.
    pub open spec fn price_text(self, pair: Seq<char>, price: Double) -> Seq<char> {
        fixed(price, self.price_decimals(pair))
    }

    /// A volume as it is sent.
    pub open spec fn volume_text(self, pair: Seq<char>, volume: Double) -> Seq<char> {
        fixed(volume, self.lot_decimals(pair))
    }

    /// How many whole lots of a pair a volume is, at most: where scaling has
    /// rounded up past the volume, the next smaller number of lots.
    pub open spec fn lots(self, pair: Seq<char>, volume: Double) -> Double {
        let factor = ten_power(self.lot_decimals(pair));
        let whole = floor_of(product(volume, factor));
        if less_than(volume, quotient(whole, factor)) {
            floor_of(below(whole))
        } else {
            whole
        }
    }

    /// A volume, rounded down to the pair's lot precision.
    pub open spec fn rounded_volume(self, pair: Seq<char>, volume: Double) -> Double {
        quotient(self.lots(pair, volume), ten_power(self.lot_decimals(pair)))
    }

    /// What is wrong with an order of this volume at this price: nothing, or
    /// the first of the pair's minimums that it misses. The volume is the
    /// rounded one.
    pub open spec fn validated(
        self,
        pair: Seq<char>,
        volume: Double,
        price: Double,
    ) -> Result<Double, ErrorView> {
        let r = self.rounded_volume(pair, volume);
        if at_most(r, zero()) {
            Err(
                ExecutionError::ExchangeError(
                    Fault::RoundsToZero { pair, volume, lot_decimals: self.lot_decimals(pair) },
                ),
            )
        } else {
            match self.meta(pair) {
                Some(m) => {
                    let cost = product(r, price);
                    if positive(m.ordermin) && less_than(r, m.ordermin) {
                        Err(
                            ExecutionError::ExchangeError(
                                Fault::BelowOrderMin { pair, volume: r, ordermin: m.ordermin },
                            ),
                        )
                    } else if positive(m.costmin) && less_than(cost, m.costmin) {
                        Err(
                            ExecutionError::ExchangeError(
                                Fault::BelowCostMin { pair, cost, costmin: m.costmin },
                            ),
                        )
                    } else {
                        Ok(r)
                    }
                },
                None => Ok(r),
            }
        }
    }

    /// The resting orders of one kind, by position.
    pub open spec fn legs(self, leg: Leg) -> Map<Seq<char>, Seq<char>> {
        match leg {
            Leg::Stop => self.stop_orders,
            Leg::Target => self.tp_orders,
        }
    }

    /// This trader, with these resting orders of one kind.
    pub open spec fn with_legs(self, leg: Leg, m: Map<Seq<char>, Seq<char>>) -> TraderView {
        match leg {
            Leg::Stop => TraderView { stop_orders: m, ..self },
            Leg::Target => TraderView { tp_orders: m, ..self },
        }
    }

    /// This trader, with no resting order of this kind for a position.
    pub open spec fn without_leg(self, leg: Leg, id: Seq<char>) -> TraderView {
        self.with_legs(leg, self.legs(leg).remove(id))
    }

    /// This trader, with no resting orders at all.
    pub open spec fn unprotected(self) -> TraderView {
        TraderView { stop_orders: Map::empty(), tp_orders: Map::empty(), ..self }
    }

    /// This trader, with the stop of a position moved.
    pub open spec fn stopped_at(self, id: Seq<char>, stop: Double) -> TraderView {
        if self.positions.contains_key(id) {
            TraderView {
                positions: self.positions.insert(
                    id,
                    Position { stop_loss: stop, ..self.positions[id] },
                ),
                ..self
            }
        } else {
            self
        }
    }

    /// This trader, after position `id`, which was `pos`, was closed at `fill`.
    pub open spec fn booked(
        self,
        id: Seq<char>,
        pos: PositionView,
        fill: Fill,
        note: Seq<char>,
        now: Timestamp,
    ) -> TraderView {
        let trade = trade_of(self.order_counter, pos, fill, note, now);
        TraderView {
            positions: self.positions.remove(id),
            closed_trades: self.closed_trades.push(trade),
            account: AccountState {
                balance: sum(self.account.balance, trade.pnl),
                daily_pnl: sum(self.account.daily_pnl, trade.pnl),
                open_positions: self.positions.remove(id).len() as usize,
                ..self.account
            },
            order_counter: (self.order_counter + 1) as u64,
            ..self
        }
    }

    /// Why a position is to be closed at these prices by the trader itself: a
    /// level is reached that no order on the exchange takes care of.
    pub open spec fn local_exit(
        self,
        prices: Map<Seq<char>, Double>,
        id: Seq<char>,
    ) -> Option<Leg> {
        let pos = self.positions[id];
        if !prices.contains_key(pos.pair) {
            None
        } else {
            let price = prices[pos.pair];
            if hits_target(pos, price) && !self.tp_orders.contains_key(id) {
                Some(Leg::Target)
            } else if hits_stop(pos, price) && !self.stop_orders.contains_key(id) {
                Some(Leg::Stop)
            } else {
                None
            }
        }
    }

    /// The signed form of a private request.
    pub open spec fn signed(
        self,
        endpoint: Seq<char>,
        params: Pairs,
        nonce: nat,
    ) -> SignedRequest<Seq<char>> {
        let path = "/0/private/"@ + endpoint;
        let body = form(assigned(params, "nonce"@, decimal(nonce)));
        SignedRequest {
            url: self.rest_url + path,
            api_key: self.api_key,
            api_sign: signature(self.api_secret, path, decimal(nonce), body),
            content_type: "application/x-www-form-urlencoded"@,
            body,
        }
    }

    /// The request for the last price of a pair.
    pub open spec fn ticker_call(self, pair: Seq<char>) -> CallView {
        CallView::Public("Ticker"@, seq![("pair"@, self.kraken_pair(pair))])
    }
}

impl KrakenTrader {
    /// A trader whose secret is what `decoded` holds, or nothing.
    pub fn with_secret(
        rest_url: &str,
        api_key: &str,
        decoded: Option<Vec<u8>>,
        starting_balance: Double,
        fee_rate: Double,
    ) -> (t: KrakenTrader)
        ensures
            t@ == unused_trader(
                rest_url@,
                api_key@,
                secret_bytes(
                    match decoded {
                        Some(b) => Some(b@),
                        None => None,
                    },
                ),
                starting_balance,
                fee_rate,
            ),
    {
        let t: KrakenTrader = KrakenTrader {
            rest_url: rest_url.to_owned(),
            api_key: api_key.to_owned(),
            api_secret: match decoded {
                Some(b) => b,
                None => Vec::new(),
            },
            positions: Table::new(),
            closed_trades: Vec::new(),
            account: AccountState::new(starting_balance),
            order_counter: 0,
            fee_rate,
            pair_meta: Table::new(),
            allow_shorts: false,
            stop_orders: Table::new(),
            tp_orders: Table::new(),
            entry_mode: "post_only".to_owned(),
            max_entry_slippage: Double { bits: 0x3f58_9374_bc6a_7efa },
        };
        assert(t@.closed_trades =~= Seq::empty());
        t
    }

    /// A trader with these credentials: `api_secret` is in base64.
    pub fn new(
        rest_url: &str,
        api_key: &str,
        api_secret: &str,
        starting_balance: Double,
        fee_rate: Double,
    ) -> (t: KrakenTrader)
        ensures
            t@ == unused_trader(
                rest_url@,
                api_key@,
                secret_bytes(unbase64_of(api_secret@)),
                starting_balance,
                fee_rate,
            ),
            unbase64_of(api_secret@) is Some ==> base64_of(t@.api_secret) == api_secret@,
    {
        KrakenTrader::with_secret(
            rest_url,
            api_key,
            base64_decode(api_secret),
            starting_balance,
            fee_rate,
        )
    }

    /// Allow short orders, or do not.
    pub fn set_allow_shorts(&mut self, allow: bool)
        ensures
            final(self)@ == (TraderView { allow_shorts: allow, ..old(self)@ }),
    {
        self.allow_shorts = allow;
    }

    /// Choose how entries are placed, and how much slippage, in percent, a
    /// marketable one may have.
    pub fn set_entry_mode(&mut self, mode: &str, max_slippage_pct: Double)
        ensures
            final(self)@ == (TraderView {
                entry_mode: mode@,
                max_entry_slippage: slippage_of(max_slippage_pct),
                ..old(self)@
            }),
    {
        self.entry_mode = mode.to_owned();
        self.max_entry_slippage = max_slippage_pct.over(Double::hundred()).max(Double::zero());
    }

    /// The signed form of a private request, made this many nanoseconds after
    /// the beginning of 1970.
    pub fn private_request(&self, endpoint: &str, params: Params, nanos: u128) -> (r: SignedRequest)
        ensures
            r@ == self@.signed(endpoint@, params@, nanos as nat),
            r.api_sign@.len() == 88,
    {
        let nonce: String = decimal_text_wide(nanos);
        let mut params: Params = params;
        params.assign("nonce", nonce.as_str());
        let body: String = params.form_body();
        let path: String = join("/0/private/", endpoint);
        let api_sign: String = self.sign(path.as_str(), nonce.as_str(), body.as_str());
        SignedRequest {
            url: join(self.rest_url.as_str(), path.as_str()),
            api_key: self.api_key.clone(),
            api_sign,
            content_type: "application/x-www-form-urlencoded".to_owned(),
            body,
        }
    }

    /// Where a public endpoint is.
    pub fn public_url(&self, endpoint: &str) -> (s: String)
        ensures
            s@ == self@.rest_url + ("/0/public/"@ + endpoint@),
    {
        join(self.rest_url.as_str(), join("/0/public/", endpoint).as_str())
    }

    /// Kraken's signature of a request.
    pub fn sign(&self, url_path: &str, nonce: &str, post_data: &str) -> (s: String)
        ensures
            s@ == signature(self@.api_secret, url_path@, nonce@, post_data@),
            s@.len() == 88,
    {
        sign(&self.api_secret, url_path, nonce, post_data)
    }

    /// The metadata of a pair.
    pub fn meta(&self, pair: &str) -> (r: Option<&PairMeta>)
        ensures
            match r {
                Some(m) => self@.meta(pair@) == Some(m@),
                None => self@.meta(pair@) is None,
            },
    {
        self.pair_meta.get(pair)
    }

    /// Kraken's order-endpoint name of a pair: the official one where it is
    /// known, else the pair without its slash.
    pub fn kraken_pair(&self, pair: &str) -> (s: String)
        ensures
            s@ == self@.kraken_pair(pair@),
    {
        match self.meta(pair) {
            Some(m) => m.altname.clone(),
            None => strip_slashes(pair),
        }
    }

    /// Decimal places allowed in prices of a pair.
    pub fn price_decimals(&self, pair: &str) -> (n: u32)
        ensures
            n == self@.price_decimals(pair@),
    {
        match self.meta(pair) {
            Some(m) => m.price_decimals,
            None => 5,
        }
    }

    /// Decimal places allowed in volumes of a pair.
    pub fn lot_decimals(&self, pair: &str) -> (n: u32)
        ensures
            n == self@.lot_decimals(pair@),
    {
        match self.meta(pair) {
            Some(m) => m.lot_decimals,
            None => 8,
        }
    }

    /// A price as it is sent.
    pub fn fmt_price(&self, pair: &str, price: Double) -> (s: String)
        ensures
            s@ == self@.price_text(pair@, price),
    {
        price.to_fixed(self.price_decimals(pair))
    }

    /// A volume, rounded DOWN to the pair's lot precision, so that what is sent
    /// never exceeds what is held.
    pub fn round_volume(&self, pair: &str, vol: Double) -> (r: Double)
        ensures
            r == self@.rounded_volume(pair@, vol),
            usable_places(self@.lot_decimals(pair@)) && vol.finite() && at_most(zero(), vol) ==> {
                &&& at_most(zero(), r)
                &&& at_most(r, vol)
                &&& whole_lots(r, self@.lot_decimals(pair@))
            },
    {
        proof {
            if usable_places(self@.lot_decimals(pair@)) && vol.finite() && at_most(zero(), vol) {
                law_volume_is_rounded_down(self@, pair@, vol);
                law_volume_is_whole_lots(self@, pair@, vol);
            }
        }
        let factor: Double = Double::power_of_ten(self.lot_decimals(pair));
        let whole: Double = vol.times(factor).floor();
        let r: Double = whole.over(factor);
        if vol.lt(r) {
            whole.next_below().floor().over(factor)
        } else {
            r
        }
    }

    /// A volume as it is sent.
    pub fn fmt_volume(&self, pair: &str, vol: Double) -> (s: String)
        ensures
            s@ == self@.volume_text(pair@, vol),
    {
        vol.to_fixed(self.lot_decimals(pair))
    }

    /// Hold an order against the pair's minimums. Returns the lot-rounded
    /// volume.
    pub fn validate_order(&self, pair: &str, vol: Double, price: Double) -> (r: Result<
        Double,
        ExecutionError,
    >)
        ensures
            outcome(r) == self@.validated(pair@, vol, price),
    {
        let rounded: Double = self.round_volume(pair, vol);
        if rounded.le(Double::zero()) {
            return Err(
                ExecutionError::ExchangeError(
                    Fault::RoundsToZero {
                        pair: pair.to_owned(),
                        volume: vol,
                        lot_decimals: self.lot_decimals(pair),
                    },
                ),
            );
        }
        match self.meta(pair) {
            Some(m) => {
                if m.ordermin.is_positive() && rounded.lt(m.ordermin) {
                    return Err(
                        ExecutionError::ExchangeError(
                            Fault::BelowOrderMin {
                                pair: pair.to_owned(),
                                volume: rounded,
                                ordermin: m.ordermin,
                            },
                        ),
                    );
                }
                let cost: Double = rounded.times(price);
                if m.costmin.is_positive() && cost.lt(m.costmin) {
                    return Err(
                        ExecutionError::ExchangeError(
                            Fault::BelowCostMin {
                                pair: pair.to_owned(),
                                cost,
                                costmin: m.costmin,
                            },
                        ),
                    );
                }
                Ok(rounded)
            },
            None => Ok(rounded),
        }
    }

    /// The account.
    pub fn account(&self) -> (r: &AccountState)
        ensures
            *r == self@.account,
    {
        &self.account
    }

    /// Set the balance, and the equity with it.
    pub fn set_balance(&mut self, balance: Double)
        ensures
            final(self)@ == (TraderView {
                account: AccountState { balance, equity: balance, ..old(self)@.account },
                ..old(self)@
            }),
    {
        self.account.balance = balance;
        self.account.equity = balance;
    }

    /// Set the equity.
    pub fn set_equity(&mut self, equity: Double)
        ensures
            final(self)@ == (TraderView {
                account: AccountState { equity, ..old(self)@.account },
                ..old(self)@
            }),
    {
        self.account.equity = equity;
    }

    /// The closed positions, the last one last.
    pub fn closed_trades(&self) -> (r: &[TradeRecord])
        ensures
            trade_views(r@) == self@.closed_trades,
    {
        self.closed_trades.as_slice()
    }

    /// The open positions by name.
    pub fn positions(&self) -> (r: &Table<Position>)
        ensures
            r@ == self@.positions,
    {
        &self.positions
    }

    /// The open positions by name, to be changed.
    pub fn positions_mut(&mut self) -> (r: &mut Table<Position>)
        ensures
            r@ == old(self)@.positions,
            final(self)@ == (TraderView { positions: final(r)@, ..old(self)@ }),
    {
        &mut self.positions
    }

    /// How many orders and trades were numbered.
    pub fn order_counter(&self) -> (n: u64)
        ensures
            n == self@.order_counter,
    {
        self.order_counter
    }

    /// The balance.
    pub fn balance(&self) -> (r: Double)
        ensures
            r == self@.account.balance,
    {
        self.account.balance
    }

    /// Give the positions that have a price that price. Returns what they
    /// would gain and what they cost, added up: what the equity follows from.
    pub fn update_prices(&mut self, prices: &Table<Double>) -> (t: (Double, Double))
        ensures
            final(self)@ == (TraderView {
                positions: old(self)@.positions.map_values(
                    |pos: PositionView| marked(pos, prices@),
                ),
                ..old(self)@
            }),
            adds_up(old(self)@.positions, prices@, t),
    {
        let ghost start = self@;
        let names: Vec<String> = self.positions.keys();
        let ghost order = texts(names@);
        let mut unrealized: Double = Double::zero();
        let mut cost: Double = Double::zero();
        let mut i: usize = 0;
        assert(order.take(0) =~= Seq::empty());
        while i < names.len()
            invariant
                i <= names@.len(),
                order == texts(names@),
                enumerates(order, start.positions.dom()),
                self@ == (TraderView { positions: self@.positions, ..start }),
                self@.positions == marked_first(start.positions, prices@, order.take(i as int)),
                (unrealized, cost) == totals(start.positions, prices@, order.take(i as int)),
            decreases names@.len() - i,
        {
            let ghost done = order.take(i as int);
            let ghost more = order.take(i as int + 1);
            let ghost before = self@.positions;
            proof {
                assert(more.drop_last() =~= done);
                assert(order.to_set().contains(order[i as int]));
                assert(!done.contains(order[i as int]));
                assert forall|k: Seq<char>| #[trigger] more.contains(k) <==> (done.contains(k) || k
                    == order[i as int]) by {
                    if done.contains(k) {
                        let j = choose|j: int| 0 <= j < done.len() && done[j] == k;
                        assert(more[j] == k);
                    }
                    assert(more[i as int] == order[i as int]);
                }
            }
            let name: &String = &names[i];
            match self.positions.get(name.as_str()) {
                Some(p) => {
                    match prices.get(p.pair.as_str()) {
                        Some(price) => {
                            let mut pos: Position = p.copy();
                            pos.current_price = *price;
                            pos.unrealized_pnl = match pos.side {
                                Side::Long => price.minus(pos.entry_price).times(pos.quantity),
                                Side::Short => pos.entry_price.minus(*price).times(pos.quantity),
                            };
                            unrealized = unrealized.plus(pos.unrealized_pnl);
                            cost = cost.plus(pos.entry_price.times(pos.quantity));
                            assert(pos@ == marked(start.positions[name@], prices@));
                            self.positions.insert(name.clone(), pos);
                        },
                        None => {},
                    }
                },
                None => {},
            }
            assert(self@.positions =~= marked_first(start.positions, prices@, more));
            i = i + 1;
        }
        proof {
            assert(order.take(order.len() as int) =~= order);
            assert forall|k: Seq<char>| start.positions.contains_key(k) implies order.contains(
                k,
            ) by {
                assert(order.to_set().contains(k));
            }
            assert(self@.positions =~= start.positions.map_values(
                |pos: PositionView| marked(pos, prices@),
            ));
        }
        (unrealized, cost)
    }

    /// The open positions.
    pub fn open_positions(&self) -> (v: Vec<&Position>)
        ensures
            exists|order: Seq<Seq<char>>|
                #[trigger] enumerates(order, self@.positions.dom()) && v@.len() == order.len()
                    && forall|i: int| 0 <= i < v@.len() ==> (#[trigger] v@[i])@
                    == self@.positions[order[i]],
    {
        let names: Vec<String> = self.positions.keys();
        let ghost order = texts(names@);
        let mut v: Vec<&Position> = Vec::new();
        let mut i: usize = 0;
        while i < names.len()
            invariant
                i <= names@.len(),
                i == v@.len(),
                order == texts(names@),
                enumerates(order, self@.positions.dom()),
                forall|j: int| 0 <= j < i ==> (#[trigger] v@[j])@ == self@.positions[order[j]],
            decreases names@.len() - i,
        {
            assert(order.to_set().contains(order[i as int]));
            match self.positions.get(names[i].as_str()) {
                Some(p) => {
                    v.push(p);
                },
                None => {},
            }
            i = i + 1;
        }
        v
    }

    /// How entries are placed.
    pub(crate) fn entry_mode(&self) -> (s: &str)
        ensures
            s@ == self@.entry_mode,
    {
        self.entry_mode.as_str()
    }

    /// Largest slippage of marketable entries, as a fraction.
    pub(crate) fn max_entry_slippage(&self) -> (d: Double)
        ensures
            d == self@.max_entry_slippage,
    {
        self.max_entry_slippage
    }

    /// The fee, as a fraction of what is traded, that the trader was made with.
    pub fn fee_rate(&self) -> (d: Double)
        ensures
            d == self@.fee_rate,
    {
        self.fee_rate
    }

    /// Whether short orders are allowed.
    pub(crate) fn allows_shorts(&self) -> (b: bool)
        ensures
            b == self@.allow_shorts,
    {
        self.allow_shorts
    }

    /// The resting orders of one kind, by position.
    pub fn resting(&self, leg: Leg) -> (r: &Table<String>)
        ensures
            r@ == self@.legs(leg),
    {
        match leg {
            Leg::Stop => &self.stop_orders,
            Leg::Target => &self.tp_orders,
        }
    }

    /// Forget the resting order of one kind of a position, and say which it was.
    pub(crate) fn take_leg(&mut self, leg: Leg, id: &str) -> (r: Option<String>)
        ensures
            final(self)@ == old(self)@.without_leg(leg, id@),
            match r {
                Some(txid) => old(self)@.legs(leg).contains_key(id@) && old(self)@.legs(leg)[id@]
                    == txid@,
                None => !old(self)@.legs(leg).contains_key(id@),
            },
    {
        match leg {
            Leg::Stop => self.stop_orders.remove(id),
            Leg::Target => self.tp_orders.remove(id),
        }
    }

    /// Remember the resting order of one kind of a position.
    pub(crate) fn put_leg(&mut self, leg: Leg, id: &str, txid: String)
        ensures
            final(self)@ == old(self)@.with_legs(leg, old(self)@.legs(leg).insert(id@, txid@)),
    {
        match leg {
            Leg::Stop => self.stop_orders.insert(id.to_owned(), txid),
            Leg::Target => self.tp_orders.insert(id.to_owned(), txid),
        }
    }

    /// Forget all resting orders.
    pub(crate) fn forget_legs(&mut self)
        ensures
            final(self)@ == old(self)@.unprotected(),
    {
        self.stop_orders.clear();
        self.tp_orders.clear();
    }

    /// Move the stop of a position, if there is such a position.
    pub(crate) fn set_stop(&mut self, id: &str, stop: Double)
        ensures
            final(self)@ == old(self)@.stopped_at(id@, stop),
    {
        let ghost start = self@;
        match self.positions.remove(id) {
            Some(p) => {
                let mut pos: Position = p;
                pos.stop_loss = stop;
                self.positions.insert(id.to_owned(), pos);
                assert(self@.positions =~= start.stopped_at(id@, stop).positions);
            },
            None => {
                assert(self@.positions =~= start.positions);
            },
        }
    }

    /// Add to what is known of the pairs.
    pub(crate) fn learn_pair(&mut self, name: String, meta: PairMeta)
        ensures
            final(self)@ == (TraderView {
                pair_meta: old(self)@.pair_meta.insert(name@, meta@),
                ..old(self)@
            }),
    {
        self.pair_meta.insert(name, meta);
    }

    /// Number one more order.
    pub(crate) fn count_order(&mut self)
        requires
            old(self)@.order_counter < u64::MAX,
        ensures
            final(self)@ == (TraderView {
                order_counter: (old(self)@.order_counter + 1) as u64,
                ..old(self)@
            }),
    {
        self.order_counter = self.order_counter + 1;
    }

    /// Record that position `id`, which was `pos`, was closed at `fill`.
    pub(crate) fn book(
        &mut self,
        id: &str,
        pos: &Position,
        fill: Fill,
        note: &str,
        now: Timestamp,
    ) -> (trade: TradeRecord)
        requires
            old(self)@.order_counter < u64::MAX,
        ensures
            trade@ == trade_of(old(self)@.order_counter, pos@, fill, note@, now),
            final(self)@ == old(self)@.booked(id@, pos@, fill, note@, now),
    {
        let ghost start = self@;
        let gross: Double = match pos.side {
            Side::Long => fill.price.minus(pos.entry_price).times(fill.volume),
            Side::Short => pos.entry_price.minus(fill.price).times(fill.volume),
        };
        let pnl: Double = gross.minus(fill.fee);
        let cost: Double = pos.entry_price.times(fill.volume);
        let pnl_pct: Double = if cost.is_positive() {
            pnl.over(cost).times(Double::hundred())
        } else {
            Double::zero()
        };
        let trade: TradeRecord = TradeRecord {
            id: join("live-", decimal_text(self.order_counter).as_str()),
            pair: pos.pair.clone(),
            side: pos.side,
            entry_price: pos.entry_price,
            exit_price: fill.price,
            quantity: fill.volume,
            pnl,
            pnl_pct,
            strategy_name: pos.strategy_name.clone(),
            opened_at: pos.opened_at,
            closed_at: now,
            notes: note.to_owned(),
        };
        self.order_counter = self.order_counter + 1;
        self.account.balance = self.account.balance.plus(pnl);
        self.account.daily_pnl = self.account.daily_pnl.plus(pnl);
        let _ = self.positions.remove(id);
        self.account.open_positions = self.positions.len();
        let ghost before = self.closed_trades@;
        self.closed_trades.push(trade.copy());
        assert(trade_views(self.closed_trades@) =~= trade_views(before).push(trade@));
        trade
    }
}

} // verus!
