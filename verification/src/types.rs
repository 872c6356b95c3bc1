//! Positions, trades, orders and the account.
//!
//! A type that holds text is generic over it: `String` when the program runs,
//! a sequence of characters in contracts.
use crate::clock::Timestamp;
use crate::double::{zero, Double};
use vstd::prelude::*;

verus! {

/// The direction of a position or an order.
#[derive(Debug, Clone, Copy, PartialEq, Eq, Structural)]
pub enum Side {
    /// Bought, to be sold.
    Long,
    /// Sold, to be bought back.
    Short,
}

impl Side {
    /// The other direction.
    pub open spec fn other(self) -> Side {
        match self {
            Side::Long => Side::Short,
            Side::Short => Side::Long,
        }
    }

    /// What an order that opens a position on this side does.
    pub open spec fn opening(self) -> Seq<char> {
        match self {
            Side::Long => "buy"@,
            Side::Short => "sell"@,
        }
    }

    /// What an order that closes a position on this side does.
    pub open spec fn closing(self) -> Seq<char> {
        match self {
            Side::Long => "sell"@,
            Side::Short => "buy"@,
        }
    }

    /// What an order that opens a position on this side does.
    pub fn opening_word(self) -> (s: &'static str)
        ensures
            s@ == self.opening(),
    {
        match self {
            Side::Long => "buy",
            Side::Short => "sell",
        }
    }

    /// What an order that closes a position on this side does.
    pub fn closing_word(self) -> (s: &'static str)
        ensures
            s@ == self.closing(),
    {
        match self {
            Side::Long => "sell",
            Side::Short => "buy",
        }
    }
}

/// Per-pair trading metadata from Kraken's public AssetPairs endpoint.
#[derive(Debug, Clone)]
pub struct PairMeta<T = String> {
    /// Kraken order endpoint name, e.g. "XBTUSD".
    pub altname: T,
    /// Decimal places allowed in the price field.
    pub price_decimals: u32,
    /// Decimal places allowed in the volume (lot) field.
    pub lot_decimals: u32,
    /// Minimum order size in base units.
    pub ordermin: Double,
    /// Minimum order cost (notional) in quote currency. Zero if unspecified.
    pub costmin: Double,
}

impl View for PairMeta<String> {
    type V = PairMeta<Seq<char>>;

    open spec fn view(&self) -> PairMeta<Seq<char>> {
        PairMeta {
            altname: self.altname@,
            price_decimals: self.price_decimals,
            lot_decimals: self.lot_decimals,
            ordermin: self.ordermin,
            costmin: self.costmin,
        }
    }
}

/// An open position.
#[derive(Debug, Clone)]
pub struct Position<T = String> {
    /// "BTC/USD" form.
    pub pair: T,
    /// Its direction.
    pub side: Side,
    /// The price it was opened at.
    pub entry_price: Double,
    /// Its size in base units.
    pub quantity: Double,
    /// The last price seen.
    pub current_price: Double,
    /// What closing it at the last price would gain.
    pub unrealized_pnl: Double,
    /// Where it is to be stopped out; zero for nowhere.
    pub stop_loss: Double,
    /// Where its profit is to be taken; zero for nowhere.
    pub take_profit_1: Double,
    /// What opened it.
    pub strategy_name: T,
    /// When it was opened.
    pub opened_at: Timestamp,
}

impl View for Position<String> {
    type V = Position<Seq<char>>;

    open spec fn view(&self) -> Position<Seq<char>> {
        Position {
            pair: self.pair@,
            side: self.side,
            entry_price: self.entry_price,
            quantity: self.quantity,
            current_price: self.current_price,
            unrealized_pnl: self.unrealized_pnl,
            stop_loss: self.stop_loss,
            take_profit_1: self.take_profit_1,
            strategy_name: self.strategy_name@,
            opened_at: self.opened_at,
        }
    }
}

impl Position<String> {
    /// The same position again.
    pub fn copy(&self) -> (r: Position)
        ensures
            r@ == self@,
    {
        Position {
            pair: self.pair.clone(),
            side: self.side,
            entry_price: self.entry_price,
            quantity: self.quantity,
            current_price: self.current_price,
            unrealized_pnl: self.unrealized_pnl,
            stop_loss: self.stop_loss,
            take_profit_1: self.take_profit_1,
            strategy_name: self.strategy_name.clone(),
            opened_at: self.opened_at,
        }
    }
}

/// A position that was closed.
#[derive(Debug, Clone)]
pub struct TradeRecord<T = String> {
    /// "live-" and a number.
    pub id: T,
    /// "BTC/USD" form.
    pub pair: T,
    /// The direction of the position.
    pub side: Side,
    /// The price it was opened at.
    pub entry_price: Double,
    /// The price it was closed at.
    pub exit_price: Double,
    /// The volume that was closed.
    pub quantity: Double,
    /// What it gained, fee deducted.
    pub pnl: Double,
    /// What it gained, in percent of what it had cost.
    pub pnl_pct: Double,
    /// What opened it.
    pub strategy_name: T,
    /// When it was opened.
    pub opened_at: Timestamp,
    /// When it was closed.
    pub closed_at: Timestamp,
    /// Why it was closed.
    pub notes: T,
}

impl View for TradeRecord<String> {
    type V = TradeRecord<Seq<char>>;

    open spec fn view(&self) -> TradeRecord<Seq<char>> {
        TradeRecord {
            id: self.id@,
            pair: self.pair@,
            side: self.side,
            entry_price: self.entry_price,
            exit_price: self.exit_price,
            quantity: self.quantity,
            pnl: self.pnl,
            pnl_pct: self.pnl_pct,
            strategy_name: self.strategy_name@,
            opened_at: self.opened_at,
            closed_at: self.closed_at,
            notes: self.notes@,
        }
    }
}

impl TradeRecord<String> {
    /// The same trade again.
    pub fn copy(&self) -> (r: TradeRecord)
        ensures
            r@ == self@,
    {
        TradeRecord {
            id: self.id.clone(),
            pair: self.pair.clone(),
            side: self.side,
            entry_price: self.entry_price,
            exit_price: self.exit_price,
            quantity: self.quantity,
            pnl: self.pnl,
            pnl_pct: self.pnl_pct,
            strategy_name: self.strategy_name.clone(),
            opened_at: self.opened_at,
            closed_at: self.closed_at,
            notes: self.notes.clone(),
        }
    }
}

/// The trades of `s`.
pub open spec fn trade_views(s: Seq<TradeRecord>) -> Seq<TradeRecord<Seq<char>>> {
    Seq::new(s.len(), |i: int| s[i]@)
}

/// How an order is executed.
#[derive(Debug, Clone, Copy, PartialEq, Eq, Structural)]
pub enum OrderType {
    /// At the market.
    Market,
    /// At a limit.
    Limit,
}

/// What became of an order.
#[derive(Debug, Clone, Copy, PartialEq, Eq, Structural)]
pub enum OrderStatus {
    /// It was executed.
    Filled,
}

/// An order that was executed.
#[derive(Debug, Clone)]
pub struct Order<T = String> {
    /// The exchange's name for it.
    pub id: T,
    /// "BTC/USD" form.
    pub pair: T,
    /// Its direction.
    pub side: Side,
    /// How it was executed.
    pub order_type: OrderType,
    /// The price of the fill.
    pub price: Option<Double>,
    /// The volume of the fill.
    pub quantity: Double,
    /// What became of it.
    pub status: OrderStatus,
    /// When it was recorded.
    pub created_at: Timestamp,
    /// When its fill was recorded.
    pub filled_at: Option<Timestamp>,
    /// The price of the fill.
    pub filled_price: Option<Double>,
}

impl View for Order<String> {
    type V = Order<Seq<char>>;

    open spec fn view(&self) -> Order<Seq<char>> {
        Order {
            id: self.id@,
            pair: self.pair@,
            side: self.side,
            order_type: self.order_type,
            price: self.price,
            quantity: self.quantity,
            status: self.status,
            created_at: self.created_at,
            filled_at: self.filled_at,
            filled_price: self.filled_price,
        }
    }
}

/// The part of the account that trading changes.
#[derive(Debug, Clone, Copy)]
pub struct AccountState {
    /// Cash.
    pub balance: Double,
    /// Cash and what the positions are worth.
    pub equity: Double,
    /// What was gained today.
    pub daily_pnl: Double,
    /// How many positions are open.
    pub open_positions: usize,
}

impl AccountState {
    /// An account with this balance and nothing open.
    pub fn new(starting_balance: Double) -> (r: AccountState)
        ensures
            r.balance == starting_balance,
            r.equity == starting_balance,
            r.daily_pnl == zero(),
            r.open_positions == 0,
    {
        AccountState {
            balance: starting_balance,
            equity: starting_balance,
            daily_pnl: Double::zero(),
            open_positions: 0,
        }
    }
}

/// What an execution came to.
#[derive(Debug, Clone, Copy)]
pub struct Fill {
    /// The average price.
    pub price: Double,
    /// The volume.
    pub volume: Double,
    /// The fee.
    pub fee: Double,
}

impl View for Fill {
    type V = Fill;

    open spec fn view(&self) -> Fill {
        *self
    }
}

/// One of the two orders that rest on the exchange to protect a position.
#[derive(Debug, Clone, Copy, PartialEq, Eq, Structural)]
pub enum Leg {
    /// The stop-loss.
    Stop,
    /// The take-profit.
    Target,
}

impl Leg {
    /// The one that is cancelled when this one fills.
    pub open spec fn sibling(self) -> Leg {
        match self {
            Leg::Stop => Leg::Target,
            Leg::Target => Leg::Stop,
        }
    }

    /// Kraken's name for such an order.
    pub open spec fn order_word(self) -> Seq<char> {
        match self {
            Leg::Stop => "stop-loss"@,
            Leg::Target => "take-profit"@,
        }
    }

    /// What a trade is noted to have been closed by.
    pub open spec fn fill_note(self) -> Seq<char> {
        match self {
            Leg::Stop => "Resting stop-loss filled"@,
            Leg::Target => "Take-profit filled"@,
        }
    }

    /// The one that is cancelled when this one fills.
    pub fn other(self) -> (r: Leg)
        ensures
            r == self.sibling(),
    {
        match self {
            Leg::Stop => Leg::Target,
            Leg::Target => Leg::Stop,
        }
    }

    /// Kraken's name for such an order.
    pub fn word(self) -> (s: &'static str)
        ensures
            s@ == self.order_word(),
    {
        match self {
            Leg::Stop => "stop-loss",
            Leg::Target => "take-profit",
        }
    }

    /// What a trade is noted to have been closed by.
    pub fn note(self) -> (s: &'static str)
        ensures
            s@ == self.fill_note(),
    {
        match self {
            Leg::Stop => "Resting stop-loss filled",
            Leg::Target => "Take-profit filled",
        }
    }
}

} // verus!
