//! What can go wrong.
use crate::decimal::fixed;
use crate::double::Double;
use crate::table::texts;
use crate::text::join;
use vstd::prelude::*;
use vstd::string::*;

verus! {

/// Why a request has no answer.
#[derive(Debug)]
pub enum RequestError {
    /// It could not be sent, or what came back could not be read.
    Transport(String),
    /// Kraken answered with these errors.
    Refused(Vec<String>),
}

/// [`RequestError`] in contracts.
pub enum RequestErrorView {
    /// It could not be sent, or what came back could not be read.
    Transport(Seq<char>),
    /// Kraken answered with these errors.
    Refused(Seq<Seq<char>>),
}

impl View for RequestError {
    type V = RequestErrorView;

    open spec fn view(&self) -> RequestErrorView {
        match self {
            RequestError::Transport(s) => RequestErrorView::Transport(s@),
            RequestError::Refused(v) => RequestErrorView::Refused(texts(v@)),
        }
    }
}

/// What the exchange did, or what it would refuse.
#[derive(Debug)]
pub enum Fault<T = String, R = RequestError> {
    /// A request has no answer.
    Request(R),
    /// The answer of AssetPairs has no result.
    NoAssetPairs,
    /// An answer has no result.
    MissingResult,
    /// The answer of Ticker names no pair.
    NoTicker,
    /// The ticker's price is not a number, or the price of an entry is not above
    /// zero.
    InvalidPrice,
    /// The volume is nothing at the pair's lot precision.
    RoundsToZero {
        /// The pair.
        pair: T,
        /// The volume asked for.
        volume: Double,
        /// Decimal places allowed in it.
        lot_decimals: u32,
    },
    /// The volume is below the pair's minimum.
    BelowOrderMin {
        /// The pair.
        pair: T,
        /// The volume, rounded.
        volume: Double,
        /// The least that is allowed.
        ordermin: Double,
    },
    /// The cost is below the pair's minimum.
    BelowCostMin {
        /// The pair.
        pair: T,
        /// What the order would cost.
        cost: Double,
        /// The least that is allowed.
        costmin: Double,
    },
    /// The order ended with nothing executed.
    NoFill {
        /// The order.
        txid: T,
        /// How it ended.
        status: T,
    },
    /// The order was not seen to be executed in time.
    NotConfirmed {
        /// The order.
        txid: T,
    },
    /// Short orders are not allowed.
    ShortsDisabled,
    /// The entry order was not accepted.
    EntryNotPlaced(R),
    /// The entry order did not fill in time and was cancelled.
    EntryNotFilled {
        /// The pair.
        pair: T,
        /// The limit, as it was sent.
        limit: T,
    },
}

/// Why an operation failed.
#[derive(Debug)]
pub enum ExecutionError<T = String, R = RequestError> {
    /// The exchange did not do what was asked, or would not.
    ExchangeError(Fault<T, R>),
    /// There is no position of this name.
    PositionNotFound(T),
}

/// [`Fault`] in contracts.
pub type FaultView = Fault<Seq<char>, RequestErrorView>;

/// [`ExecutionError`] in contracts.
pub type ErrorView = ExecutionError<Seq<char>, RequestErrorView>;

impl View for Fault<String, RequestError> {
    type V = FaultView;

    open spec fn view(&self) -> FaultView {
        match self {
            Fault::Request(e) => Fault::Request(e@),
            Fault::NoAssetPairs => Fault::NoAssetPairs,
            Fault::MissingResult => Fault::MissingResult,
            Fault::NoTicker => Fault::NoTicker,
            Fault::InvalidPrice => Fault::InvalidPrice,
            Fault::RoundsToZero { pair, volume, lot_decimals } => Fault::RoundsToZero {
                pair: pair@,
                volume: *volume,
                lot_decimals: *lot_decimals,
            },
            Fault::BelowOrderMin { pair, volume, ordermin } => Fault::BelowOrderMin {
                pair: pair@,
                volume: *volume,
                ordermin: *ordermin,
            },
            Fault::BelowCostMin { pair, cost, costmin } => Fault::BelowCostMin {
                pair: pair@,
                cost: *cost,
                costmin: *costmin,
            },
            Fault::NoFill { txid, status } => Fault::NoFill { txid: txid@, status: status@ },
            Fault::NotConfirmed { txid } => Fault::NotConfirmed { txid: txid@ },
            Fault::ShortsDisabled => Fault::ShortsDisabled,
            Fault::EntryNotPlaced(e) => Fault::EntryNotPlaced(e@),
            Fault::EntryNotFilled { pair, limit } => Fault::EntryNotFilled {
                pair: pair@,
                limit: limit@,
            },
        }
    }
}

impl View for ExecutionError<String, RequestError> {
    type V = ErrorView;

    open spec fn view(&self) -> ErrorView {
        match self {
            ExecutionError::ExchangeError(f) => ExecutionError::ExchangeError(f@),
            ExecutionError::PositionNotFound(s) => ExecutionError::PositionNotFound(s@),
        }
    }
}

/// A list of texts as `Debug` writes it.
pub uninterp spec fn listed_text(texts: Seq<Seq<char>>) -> Seq<char>;

/// std's `Debug` of a list of strings: what it writes depends on the texts in
/// the list and their order alone.
#[verifier::external_body]
fn list_texts(list: &Vec<String>) -> (s: String)
    ensures
        s@ == listed_text(texts(list@)),
{
    format!("{:?}", list)
}

/// What is said where Kraken has answered with errors, which are listed as
/// `listed`.
pub fn refusal_text(listed: &str) -> (s: String)
    ensures
        s@ == "Kraken: "@ + listed@,
{
    join("Kraken: ", listed)
}

/// What is said of a fault. Nothing here where a number is to be shown with as
/// few digits as tell it apart, or where another error is quoted.
pub open spec fn fault_text(f: FaultView) -> Option<Seq<char>> {
    match f {
        Fault::Request(RequestErrorView::Transport(s)) => Some(s),
        Fault::Request(RequestErrorView::Refused(errors)) => Some(
            "Kraken: "@ + listed_text(errors),
        ),
        Fault::NoAssetPairs => Some("AssetPairs missing result"@),
        Fault::MissingResult => Some("Missing result"@),
        Fault::NoTicker => Some("No ticker"@),
        Fault::InvalidPrice => Some("Invalid price"@),
        Fault::RoundsToZero { .. } => None,
        Fault::BelowOrderMin { .. } => None,
        Fault::BelowCostMin { pair, cost, costmin } => Some(
            pair + ": cost $"@ + fixed(cost, 2) + " below costmin $"@ + fixed(costmin, 2),
        ),
        Fault::NoFill { txid, status } => Some(
            "Order "@ + txid + " "@ + status + " with no fill"@,
        ),
        Fault::NotConfirmed { txid } => Some(
            "Order "@ + txid + " not confirmed filled within timeout"@,
        ),
        Fault::ShortsDisabled => Some("Short orders disabled (spot account is long-only)"@),
        Fault::EntryNotPlaced(_) => None,
        Fault::EntryNotFilled { pair, limit } => Some(
            "Limit entry for "@ + pair + " did not fill at "@ + limit
                + " within window \u{2014} cancelled"@,
        ),
    }
}

impl Fault<String, RequestError> {
    /// What is said of the fault, where that needs no shortest form of a number
    /// and quotes no other error.
    pub fn text(&self) -> (r: Option<String>)
        ensures
            match r {
                Some(s) => fault_text(self@) == Some(s@),
                None => fault_text(self@) is None,
            },
    {
        match self {
            Fault::Request(RequestError::Transport(s)) => Some(s.clone()),
            Fault::Request(RequestError::Refused(errors)) => {
                Some(refusal_text(list_texts(errors).as_str()))
            },
            Fault::NoAssetPairs => Some("AssetPairs missing result".to_owned()),
            Fault::MissingResult => Some("Missing result".to_owned()),
            Fault::NoTicker => Some("No ticker".to_owned()),
            Fault::InvalidPrice => Some("Invalid price".to_owned()),
            Fault::RoundsToZero { .. } => None,
            Fault::BelowOrderMin { .. } => None,
            Fault::BelowCostMin { pair, cost, costmin } => {
                let mut s: String = pair.clone();
                s.append(": cost $");
                s.append(cost.to_fixed(2).as_str());
                s.append(" below costmin $");
                s.append(costmin.to_fixed(2).as_str());
                Some(s)
            },
            Fault::NoFill { txid, status } => {
                let mut s: String = join("Order ", txid.as_str());
                s.append(" ");
                s.append(status.as_str());
                s.append(" with no fill");
                Some(s)
            },
            Fault::NotConfirmed { txid } => {
                let mut s: String = join("Order ", txid.as_str());
                s.append(" not confirmed filled within timeout");
                Some(s)
            },
            Fault::ShortsDisabled => Some(
                "Short orders disabled (spot account is long-only)".to_owned(),
            ),
            Fault::EntryNotPlaced(_) => None,
            Fault::EntryNotFilled { pair, limit } => {
                let mut s: String = join("Limit entry for ", pair.as_str());
                s.append(" did not fill at ");
                s.append(limit.as_str());
                s.append(" within window \u{2014} cancelled");
                Some(s)
            },
        }
    }
}

/// Errors in contracts.
pub open spec fn error_views(s: Seq<ExecutionError>) -> Seq<ErrorView> {
    Seq::new(s.len(), |i: int| s[i]@)
}

/// What a result is in contracts.
pub open spec fn outcome<V: View>(r: Result<V, ExecutionError>) -> Result<V::V, ErrorView> {
    match r {
        Ok(v) => Ok(v@),
        Err(e) => Err(e@),
    }
}

} // verus!
