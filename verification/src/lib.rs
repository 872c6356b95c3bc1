//! Live order execution on the Kraken spot exchange.
//!
//! The library decides; it does no input or output. An operation such as
//! [`KrakenTrader::place_order`] begins with a [`Step`]: wait, then make a
//! [`Call`] to the exchange and hand what came back to `resume`, which gives
//! the next step, until one says [`Next::Done`].
mod bracket;
mod clock;
mod close;
mod crypto;
mod decimal;
mod double;
mod entry;
mod error;
mod exits;
mod fill;
mod json;
pub mod laws;
mod market;
mod natural;
mod pairs;
mod reconcile;
mod request;
mod table;
mod text;
mod trader;
mod types;

pub use bracket::{Acknowledgement, AdjustStop, CancelAll, PlaceLeg};
pub use clock::Timestamp;
pub use close::{ClosePosition, CloseTrade};
pub use decimal::parse_double;
pub use double::Double;
pub use entry::{PlaceOrder, Route};
pub use error::{refusal_text, ExecutionError, Fault, RequestError};
pub use exits::{CheckStops, Checked};
pub use fill::{confirm_fill, wait_for_limit_fill, ConfirmFill, LimitFill, Report};
pub use json::Json;
pub use market::{BalanceTotal, RawBalance, TickerPrice};
pub use pairs::PairLoad;
pub use reconcile::Reconcile;
pub use request::{read_refusals, Call, Next, Params, SignedRequest, Step};
pub use table::Table;
pub use text::canonical_base;
pub use trader::KrakenTrader;
pub use types::{
    AccountState, Fill, Leg, Order, OrderStatus, OrderType, PairMeta, Position, Side, TradeRecord,
};
