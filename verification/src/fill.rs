//! Waiting for an order to be executed.
use crate::double::positive;
use crate::error::{ErrorView, ExecutionError, Fault};
use crate::json::Json;
use crate::request::{
    query_call, query_of, read_reply, reply, outcome_step, plain_step, Next, Step, StepView,
};
use crate::text::same;
use crate::types::Fill;
use vstd::prelude::*;
use vstd::string::*;

verus! {

/// What the exchange says of an order.
#[derive(Debug)]
pub struct Report<T = String> {
    /// Its status.
    pub status: T,
    /// What was executed so far.
    pub fill: Fill,
}

impl View for Report<String> {
    type V = Report<Seq<char>>;

    open spec fn view(&self) -> Report<Seq<char>> {
        Report { status: self.status@, fill: self.fill }
    }
}

/// What an answer of QueryOrders says of an order.
pub open spec fn report_of(body: Json, txid: Seq<char>) -> Option<Report<Seq<char>>> {
    match body.at("result"@).member(txid) {
        Some(order) => Some(
            Report {
                status: match order.at("status"@).text() {
                    Some(s) => s,
                    None => ""@,
                },
                fill: Fill {
                    price: order.number_at("price"@),
                    volume: order.number_at("vol_exec"@),
                    fee: order.number_at("fee"@),
                },
            },
        ),
        None => None,
    }
}

/// What the answer to a query says of an order; nothing where the request
/// failed.
pub open spec fn told(sent: Result<Json, String>, txid: Seq<char>) -> Option<Report<Seq<char>>> {
    match reply(sent) {
        Ok(body) => report_of(body, txid),
        Err(_) => None,
    }
}

impl Report<Seq<char>> {
    /// Whether the order ran to its end and something was executed.
    pub open spec fn closed(self) -> bool {
        self.status == "closed"@ && positive(self.fill.volume)
    }

    /// Whether the order was ended early.
    pub open spec fn ended(self) -> bool {
        self.status == "canceled"@ || self.status == "expired"@
    }
}

impl Report<String> {
    /// Whether the order ran to its end and something was executed.
    pub fn is_closed(&self) -> (b: bool)
        ensures
            b == self@.closed(),
    {
        same(self.status.as_str(), "closed") && self.fill.volume.is_positive()
    }

    /// Whether the order was ended early.
    pub fn is_ended(&self) -> (b: bool)
        ensures
            b == self@.ended(),
    {
        same(self.status.as_str(), "canceled") || same(self.status.as_str(), "expired")
    }
}

/// What the answer to a query says of an order.
pub(crate) fn read_report(sent: Result<Json, String>, txid: &str) -> (r: Option<Report>)
    ensures
        match r {
            Some(report) => told(sent, txid@) == Some(report@),
            None => told(sent, txid@) is None,
        },
{
    let body: Json = match read_reply(sent) {
        Ok(b) => b,
        Err(_) => {
            return None;
        },
    };
    match body.get("result") {
        Some(result) => match result.get(txid) {
            Some(order) => Some(
                Report {
                    status: match order.text_at("status") {
                        Some(s) => s.clone(),
                        None => "".to_owned(),
                    },
                    fill: Fill {
                        price: order.read_number("price"),
                        volume: order.read_number("vol_exec"),
                        fee: order.read_number("fee"),
                    },
                },
            ),
            None => None,
        },
        None => None,
    }
}

/// How often an order is asked for before it counts as not confirmed.
pub const CONFIRM_ATTEMPTS: u64 = 12;

/// How long to wait between two such questions, in milliseconds.
pub const CONFIRM_PAUSE: u64 = 500;

/// Confirming that an order was executed: waiting for QueryOrders.
#[derive(Debug)]
pub struct ConfirmFill<T = String> {
    /// The order.
    pub txid: T,
    /// How many questions were answered before.
    pub attempt: u64,
}

impl View for ConfirmFill<String> {
    type V = ConfirmFill<Seq<char>>;

    open spec fn view(&self) -> ConfirmFill<Seq<char>> {
        ConfirmFill { txid: self.txid@, attempt: self.attempt }
    }
}

/// Steps of confirming an order, in contracts.
pub type ConfirmStep = StepView<ConfirmFill<Seq<char>>, Result<Fill, ErrorView>>;

/// Where confirming an order begins.
pub open spec fn confirm_start(txid: Seq<char>) -> ConfirmStep {
    StepView::Call(0, ConfirmFill { txid, attempt: 0 }, query_of(txid))
}

/// What a report settles: a fill, that there will be none, or nothing yet.
pub open spec fn settled(told: Option<Report<Seq<char>>>, txid: Seq<char>) -> Option<
    Result<Fill, ErrorView>,
> {
    match told {
        Some(r) => if r.closed() {
            Some(Ok(r.fill))
        } else if r.ended() {
            if positive(r.fill.volume) {
                Some(Ok(r.fill))
            } else {
                Some(
                    Err(ExecutionError::ExchangeError(Fault::NoFill { txid, status: r.status })),
                )
            }
        } else {
            None
        },
        None => None,
    }
}

/// What follows an answer: the end where it settles the matter or was the
/// last, else another question after a pause.
pub open spec fn confirm_step(
    c: ConfirmFill<Seq<char>>,
    sent: Result<Json, String>,
) -> ConfirmStep {
    match settled(told(sent, c.txid), c.txid) {
        Some(r) => StepView::Done(0, r),
        None => if c.attempt + 1 < CONFIRM_ATTEMPTS {
            StepView::Call(
                CONFIRM_PAUSE as nat,
                ConfirmFill { txid: c.txid, attempt: (c.attempt + 1) as u64 },
                query_of(c.txid),
            )
        } else {
            StepView::Done(
                CONFIRM_PAUSE as nat,
                Err(ExecutionError::ExchangeError(Fault::NotConfirmed { txid: c.txid })),
            )
        },
    }
}

/// Begin to confirm an order: ask until it has closed or time is up, and give
/// the real average price, executed volume and fee.
pub fn confirm_fill(txid: &str) -> (s: Step<ConfirmFill, Result<Fill, ExecutionError>>)
    ensures
        outcome_step(s) == confirm_start(txid@),
{
    Step::call(ConfirmFill { txid: txid.to_owned(), attempt: 0 }, query_call(txid))
}

impl ConfirmFill<String> {
    /// Take in an answer.
    pub fn resume(self, sent: Result<Json, String>) -> (s: Step<
        ConfirmFill,
        Result<Fill, ExecutionError>,
    >)
        ensures
            outcome_step(s) == confirm_step(self@, sent),
    {
        match read_report(sent, self.txid.as_str()) {
            Some(report) => {
                if report.is_closed() {
                    return Step::done(Ok(report.fill));
                }
                if report.is_ended() {
                    if report.fill.volume.is_positive() {
                        return Step::done(Ok(report.fill));
                    }
                    return Step::done(
                        Err(
                            ExecutionError::ExchangeError(
                                Fault::NoFill { txid: self.txid, status: report.status },
                            ),
                        ),
                    );
                }
            },
            None => {},
        }
        if self.attempt < CONFIRM_ATTEMPTS - 1 {
            let call = query_call(self.txid.as_str());
            Step {
                pause: CONFIRM_PAUSE,
                next: Next::Call(
                    ConfirmFill { txid: self.txid, attempt: self.attempt + 1 },
                    call,
                ),
            }
        } else {
            Step {
                pause: CONFIRM_PAUSE,
                next: Next::Done(
                    Err(ExecutionError::ExchangeError(Fault::NotConfirmed { txid: self.txid })),
                ),
            }
        }
    }
}

/// How long to wait before each question for a limit order, in milliseconds.
pub const LIMIT_PAUSE: u64 = 1000;

/// Waiting for a limit order to fill: waiting for QueryOrders.
#[derive(Debug)]
pub struct LimitFill<T = String> {
    /// The order.
    pub txid: T,
    /// How many questions are left in the window, this one included; none
    /// when this is the last look after it.
    pub left: u64,
}

impl View for LimitFill<String> {
    type V = LimitFill<Seq<char>>;

    open spec fn view(&self) -> LimitFill<Seq<char>> {
        LimitFill { txid: self.txid@, left: self.left }
    }
}

/// Steps of waiting for a limit order, in contracts.
pub type LimitStep = StepView<LimitFill<Seq<char>>, Option<Fill>>;

/// Where a wait with this much of its window left goes on.
pub open spec fn limit_start(txid: Seq<char>, left: u64) -> LimitStep {
    StepView::Call(
        if left > 0 {
            LIMIT_PAUSE as nat
        } else {
            0
        },
        LimitFill { txid, left },
        query_of(txid),
    )
}

/// The fill that a report shows, however the order stands.
pub open spec fn any_fill(told: Option<Report<Seq<char>>>) -> Option<Fill> {
    match told {
        Some(r) => if positive(r.fill.volume) {
            Some(r.fill)
        } else {
            None
        },
        None => None,
    }
}

/// What follows an answer: within the window, the end where it settles the
/// matter, else another question; after it, whatever was filled.
pub open spec fn limit_step(c: LimitFill<Seq<char>>, sent: Result<Json, String>) -> LimitStep {
    if c.left > 0 {
        match settled(told(sent, c.txid), c.txid) {
            Some(Ok(fill)) => StepView::Done(0, Some(fill)),
            Some(Err(_)) => StepView::Done(0, None),
            None => limit_start(c.txid, (c.left - 1) as u64),
        }
    } else {
        StepView::Done(0, any_fill(told(sent, c.txid)))
    }
}

/// Begin to wait up to `max_secs` seconds for a limit order to fill, asking
/// once per second. Gives the real fill if anything was executed.
pub fn wait_for_limit_fill(txid: &str, max_secs: u64) -> (s: Step<LimitFill, Option<Fill>>)
    ensures
        plain_step(s) == limit_start(txid@, max_secs),
{
    Step {
        pause: if max_secs > 0 {
            LIMIT_PAUSE
        } else {
            0
        },
        next: Next::Call(
            LimitFill { txid: txid.to_owned(), left: max_secs },
            query_call(txid),
        ),
    }
}

impl LimitFill<String> {
    /// Take in an answer.
    pub fn resume(self, sent: Result<Json, String>) -> (s: Step<LimitFill, Option<Fill>>)
        ensures
            plain_step(s) == limit_step(self@, sent),
    {
        let report: Option<Report> = read_report(sent, self.txid.as_str());
        if self.left > 0 {
            match report {
                Some(r) => {
                    if r.is_closed() {
                        return Step::done(Some(r.fill));
                    }
                    if r.is_ended() {
                        return Step::done(
                            if r.fill.volume.is_positive() {
                                Some(r.fill)
                            } else {
                                None
                            },
                        );
                    }
                },
                None => {},
            }
            wait_for_limit_fill(self.txid.as_str(), self.left - 1)
        } else {
            Step::done(
                match report {
                    Some(r) => if r.fill.volume.is_positive() {
                        Some(r.fill)
                    } else {
                        None
                    },
                    None => None,
                },
            )
        }
    }
}

} // verus!
