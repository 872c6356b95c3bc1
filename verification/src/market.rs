//! Prices and balances.
use crate::decimal::{parse_double, parsed};
use crate::double::{at_most, positive, product, sum, zero, Double};
use crate::error::{outcome, ErrorView, ExecutionError, Fault, RequestError, RequestErrorView};
use crate::json::{number_or_zero, Json};
use crate::request::{
    outcome_step, read_reply, reply, Call, CallView, Pairs, Params, Step, StepView,
};
use crate::table::Table;
use crate::text::{canonical, canonical_base, same, trim_front, trimmed};
use crate::trader::{KrakenTrader, TraderView};
use crate::types::AccountState;
use vstd::prelude::*;
use vstd::string::*;

verus! {

/// The result of an answer, which must be an object.
pub open spec fn result_members(sent: Result<Json, String>) -> Result<
    Seq<(String, Json)>,
    ErrorView,
> {
    match reply(sent) {
        Ok(body) => match body.at("result"@).members() {
            Some(m) => Ok(m),
            None => Err(ExecutionError::ExchangeError(Fault::MissingResult)),
        },
        Err(e) => Err(ExecutionError::ExchangeError(Fault::Request(e))),
    }
}

/// The last price that the entry of a pair in an answer of Ticker writes.
pub open spec fn last_price_text(entry: Json) -> Seq<char> {
    match entry.at("c"@).first() {
        Some(j) => match j.text() {
            Some(s) => s,
            None => "0"@,
        },
        None => "0"@,
    }
}

/// The last price that an answer of Ticker gives: that of its first entry.
pub open spec fn ticker_price(sent: Result<Json, String>) -> Result<Double, ErrorView> {
    match sent {
        Ok(body) => match body.at("result"@).members() {
            Some(m) => if m.len() == 0 {
                Err(ExecutionError::ExchangeError(Fault::NoTicker))
            } else {
                match parsed(last_price_text(m[0].1)) {
                    Some(d) => Ok(d),
                    None => Err(ExecutionError::ExchangeError(Fault::InvalidPrice)),
                }
            },
            None => Err(ExecutionError::ExchangeError(Fault::MissingResult)),
        },
        Err(e) => Err(
            ExecutionError::ExchangeError(Fault::Request(RequestErrorView::Transport(e@))),
        ),
    }
}

fn read_last_price(entry: &Json) -> (r: Option<Double>)
    ensures
        r == parsed(last_price_text(*entry)),
{
    match entry.get("c") {
        Some(c) => match c {
            Json::Array(v) => if v.len() > 0 {
                match v[0].as_text() {
                    Some(s) => parse_double(s.as_str()),
                    None => parse_double("0"),
                }
            } else {
                parse_double("0")
            },
            _ => parse_double("0"),
        },
        None => parse_double("0"),
    }
}

/// The last price that an answer of Ticker gives.
pub(crate) fn read_ticker_price(sent: Result<Json, String>) -> (r: Result<Double, ExecutionError>)
    ensures
        outcome(r) == ticker_price(sent),
{
    match sent {
        Ok(body) => match body.get("result") {
            Some(result) => match result {
                Json::Object(m) => if m.len() == 0 {
                    Err(ExecutionError::ExchangeError(Fault::NoTicker))
                } else {
                    match read_last_price(&m[0].1) {
                        Some(d) => Ok(d),
                        None => Err(ExecutionError::ExchangeError(Fault::InvalidPrice)),
                    }
                },
                _ => Err(ExecutionError::ExchangeError(Fault::MissingResult)),
            },
            None => Err(ExecutionError::ExchangeError(Fault::MissingResult)),
        },
        Err(e) => Err(ExecutionError::ExchangeError(Fault::Request(RequestError::Transport(e)))),
    }
}

/// Asking for a price: waiting for Ticker.
#[derive(Debug)]
pub struct TickerPrice;

impl View for TickerPrice {
    type V = TickerPrice;

    open spec fn view(&self) -> TickerPrice {
        *self
    }
}

/// Asking for the balances: waiting for Balance.
#[derive(Debug)]
pub struct RawBalance;

impl View for RawBalance {
    type V = RawBalance;

    open spec fn view(&self) -> RawBalance {
        *self
    }
}

/// The request for the balances.
pub open spec fn balance_request() -> CallView {
    CallView::Private("Balance"@, Pairs::empty())
}

/// The positive balances, by asset.
pub open spec fn holdings(members: Seq<(String, Json)>) -> Map<Seq<char>, Double>
    decreases members.len(),
{
    if members.len() == 0 {
        Map::empty()
    } else {
        let so_far = holdings(members.drop_last());
        let amount = number_or_zero(members.last().1.text());
        if positive(amount) {
            so_far.insert(members.last().0@, amount)
        } else {
            so_far
        }
    }
}

/// The positive balances that an answer of Balance gives.
pub open spec fn raw_balance_end(sent: Result<Json, String>) -> Result<
    Map<Seq<char>, Double>,
    ErrorView,
> {
    match result_members(sent) {
        Ok(m) => Ok(holdings(m)),
        Err(e) => Err(e),
    }
}

fn read_amount(j: &Json) -> (d: Double)
    ensures
        d == number_or_zero(j.text()),
{
    match j.as_text() {
        Some(s) => match parse_double(s.as_str()) {
            Some(d) => d,
            None => Double::zero(),
        },
        None => Double::zero(),
    }
}

fn balance_call() -> (c: Call)
    ensures
        c@ == balance_request(),
{
    Call::Private { endpoint: "Balance".to_owned(), params: Params::new() }
}

impl KrakenTrader {
    /// Ask for the last price of a pair.
    pub(crate) fn ticker_request(&self, pair: &str) -> (c: Call)
        ensures
            c@ == self@.ticker_call(pair@),
    {
        let mut query: Params = Params::new();
        query.push("pair", self.kraken_pair(pair).as_str());
        assert(query@ =~= seq![("pair"@, self@.kraken_pair(pair@))]);
        Call::Public { endpoint: "Ticker".to_owned(), query }
    }

    /// Ask for the last price of a pair.
    pub fn get_ticker_price(&self, pair: &str) -> (s: Step<
        TickerPrice,
        Result<Double, ExecutionError>,
    >)
        ensures
            outcome_step(s) == StepView::<
                TickerPrice,
                Result<Double, ErrorView>,
            >::Call(0, TickerPrice, self@.ticker_call(pair@)),
    {
        Step::call(TickerPrice, self.ticker_request(pair))
    }

    /// Ask for the balances of all assets.
    pub fn fetch_balance_raw(&self) -> (s: Step<RawBalance, Result<Table<Double>, ExecutionError>>)
        ensures
            outcome_step(s) == StepView::<
                RawBalance,
                Result<Map<Seq<char>, Double>, ErrorView>,
            >::Call(0, RawBalance, balance_request()),
    {
        Step::call(RawBalance, balance_call())
    }
}

impl TickerPrice {
    /// Take in the answer.
    pub fn resume(self, sent: Result<Json, String>) -> (s: Step<
        TickerPrice,
        Result<Double, ExecutionError>,
    >)
        ensures
            outcome_step(s) == StepView::<
                TickerPrice,
                Result<Double, ErrorView>,
            >::Done(0, ticker_price(sent)),
    {
        Step::done(read_ticker_price(sent))
    }
}

impl RawBalance {
    /// Take in the answer.
    pub fn resume(self, sent: Result<Json, String>) -> (s: Step<
        RawBalance,
        Result<Table<Double>, ExecutionError>,
    >)
        ensures
            outcome_step(s) == StepView::<
                RawBalance,
                Result<Map<Seq<char>, Double>, ErrorView>,
            >::Done(0, raw_balance_end(sent)),
    {
        let body: Json = match read_reply(sent) {
            Ok(b) => b,
            Err(e) => {
                return Step::done(Err(ExecutionError::ExchangeError(Fault::Request(e))));
            },
        };
        match body.get("result") {
            Some(result) => match result {
                Json::Object(m) => {
                    let mut assets: Table<Double> = Table::new();
                    let mut i: usize = 0;
                    assert(m@.take(0) =~= Seq::empty());
                    while i < m.len()
                        invariant
                            i <= m@.len(),
                            assets@ == holdings(m@.take(i as int)),
                        decreases m@.len() - i,
                    {
                        assert(m@.take(i as int + 1).drop_last() =~= m@.take(i as int));
                        let amount: Double = read_amount(&m[i].1);
                        if amount.is_positive() {
                            assets.insert(m[i].0.clone(), amount);
                        }
                        i = i + 1;
                    }
                    assert(m@.take(m@.len() as int) =~= m@);
                    Step::done(Ok(assets))
                },
                _ => Step::done(Err(ExecutionError::ExchangeError(Fault::MissingResult))),
            },
            None => Step::done(Err(ExecutionError::ExchangeError(Fault::MissingResult))),
        }
    }
}

/// Assets and how much of each is held.
pub type Amounts = Seq<(Seq<char>, Double)>;

/// The balances that count towards the total, in the order of the answer: all
/// but those that are zero or less.
pub open spec fn counted(members: Seq<(String, Json)>) -> Amounts
    decreases members.len(),
{
    if members.len() == 0 {
        Seq::empty()
    } else {
        let so_far = counted(members.drop_last());
        let amount = number_or_zero(members.last().1.text());
        if at_most(amount, zero()) {
            so_far
        } else {
            so_far.push((members.last().0@, amount))
        }
    }
}

/// Whether an asset is US dollars.
pub open spec fn is_dollar(asset: Seq<char>) -> bool {
    asset == "ZUSD"@ || asset == "USD"@
}

/// The pair under which an asset's price in US dollars is asked for.
///
/// Bitcoin and Ether are known by their names. Of every other asset all X's
/// and then all Z's at the start are taken off before its canonical name is
/// looked up, so that one whose own name begins with such a letter is asked
/// for under a shortened name: XXDG as DG/USD, XTZ as TZ/USD, XXRP as RP/USD,
/// ZRX as RX/USD.
pub open spec fn dollar_pair(asset: Seq<char>) -> Seq<char> {
    if asset == "XXBT"@ || asset == "XBT"@ {
        "BTC/USD"@
    } else if asset == "XETH"@ || asset == "ETH"@ {
        "ETH/USD"@
    } else {
        canonical(trimmed(trimmed(asset, 'X'), 'Z')) + "/USD"@
    }
}

/// Adding up the balances in US dollars: waiting for Balance, or for the price
/// of the first of the assets that are left.
pub enum TotalView {
    /// Waiting for Balance.
    Listing,
    /// Waiting for Ticker, with what is left and the total so far.
    Pricing(Amounts, Double),
}

/// What is done with the assets that are left: dollars are added, at the end
/// the total becomes the balance, and anything else is priced first.
pub open spec fn total_next(t: TraderView, rest: Amounts, total: Double) -> (
    TraderView,
    StepView<TotalView, Result<Double, ErrorView>>,
)
    decreases rest.len(),
{
    if rest.len() == 0 {
        (
            TraderView {
                account: AccountState { balance: total, equity: total, ..t.account },
                ..t
            },
            StepView::Done(0, Ok(total)),
        )
    } else if is_dollar(rest[0].0) {
        total_next(t, rest.skip(1), sum(total, rest[0].1))
    } else {
        (
            t,
            StepView::Call(
                0,
                TotalView::Pricing(rest, total),
                t.ticker_call(dollar_pair(rest[0].0)),
            ),
        )
    }
}

/// What follows an answer. An asset without a price is left out.
pub open spec fn total_step(t: TraderView, v: TotalView, sent: Result<Json, String>) -> (
    TraderView,
    StepView<TotalView, Result<Double, ErrorView>>,
) {
    match v {
        TotalView::Listing => match result_members(sent) {
            Ok(m) => total_next(t, counted(m), zero()),
            Err(e) => (t, StepView::Done(0, Err(e))),
        },
        TotalView::Pricing(rest, total) => match ticker_price(sent) {
            Ok(price) => total_next(t, rest.skip(1), sum(total, product(rest[0].1, price))),
            Err(_) => total_next(t, rest.skip(1), total),
        },
    }
}

/// Adding up the balances in US dollars.
#[derive(Debug)]
pub struct BalanceTotal {
    assets: Option<Vec<(String, Double)>>,
    at: usize,
    total: Double,
}

/// The assets of `v` from `at` on.
spec fn amounts_from(v: Seq<(String, Double)>, at: int) -> Amounts {
    Seq::new((v.len() - at) as nat, |i: int| (v[at + i].0@, v[at + i].1))
}

impl View for BalanceTotal {
    type V = TotalView;

    closed spec fn view(&self) -> TotalView {
        match self.assets {
            Some(v) => TotalView::Pricing(amounts_from(v@, self.at as int), self.total),
            None => TotalView::Listing,
        }
    }
}

impl BalanceTotal {
    #[verifier::type_invariant]
    spec fn sound(self) -> bool {
        match self.assets {
            Some(v) => self.at < v@.len(),
            None => true,
        }
    }
}

fn is_dollar_name(asset: &str) -> (b: bool)
    ensures
        b == is_dollar(asset@),
{
    same(asset, "ZUSD") || same(asset, "USD")
}

fn dollar_pair_name(asset: &str) -> (s: String)
    ensures
        s@ == dollar_pair(asset@),
{
    if same(asset, "XXBT") || same(asset, "XBT") {
        "BTC/USD".to_owned()
    } else if same(asset, "XETH") || same(asset, "ETH") {
        "ETH/USD".to_owned()
    } else {
        let clean: String = trim_front(trim_front(asset, 'X').as_str(), 'Z');
        let mut s: String = canonical_base(clean.as_str());
        s.append("/USD");
        s
    }
}

fn total_go_on(
    trader: &mut KrakenTrader,
    assets: Vec<(String, Double)>,
    from: usize,
    so_far: Double,
) -> (s: Step<BalanceTotal, Result<Double, ExecutionError>>)
    requires
        from <= assets@.len(),
    ensures
        (final(trader)@, outcome_step(s))
            == total_next(old(trader)@, amounts_from(assets@, from as int), so_far),
{
    let mut at: usize = from;
    let mut total: Double = so_far;
    while at < assets.len()
        invariant
            at <= assets@.len(),
            trader@ == old(trader)@,
            total_next(old(trader)@, amounts_from(assets@, from as int), so_far) == total_next(
                old(trader)@,
                amounts_from(assets@, at as int),
                total,
            ),
        decreases assets@.len() - at,
    {
        let ghost rest = amounts_from(assets@, at as int);
        assert(rest.skip(1) =~= amounts_from(assets@, at as int + 1));
        if !is_dollar_name(assets[at].0.as_str()) {
            let pair: String = dollar_pair_name(assets[at].0.as_str());
            let call: Call = trader.ticker_request(pair.as_str());
            return Step::call(BalanceTotal { assets: Some(assets), at, total }, call);
        }
        total = total.plus(assets[at].1);
        at = at + 1;
    }
    trader.set_balance(total);
    Step::done(Ok(total))
}

impl KrakenTrader {
    /// Add up all balances in US dollars, and make that the balance.
    pub fn fetch_balance(&self) -> (s: Step<BalanceTotal, Result<Double, ExecutionError>>)
        ensures
            outcome_step(s) == StepView::<
                TotalView,
                Result<Double, ErrorView>,
            >::Call(0, TotalView::Listing, balance_request()),
    {
        Step::call(BalanceTotal { assets: None, at: 0, total: Double::zero() }, balance_call())
    }
}

impl BalanceTotal {
    /// Take in an answer.
    pub fn resume(self, trader: &mut KrakenTrader, sent: Result<Json, String>) -> (s: Step<
        BalanceTotal,
        Result<Double, ExecutionError>,
    >)
        ensures
            (final(trader)@, outcome_step(s))
                == total_step(old(trader)@, self@, sent),
    {
        proof {
            use_type_invariant(&self);
        }
        let BalanceTotal { assets, at, total } = self;
        match assets {
            Some(list) => {
                proof {
                    let rest = amounts_from(list@, at as int);
                    assert(at < list.len());
                    assert(rest.skip(1) =~= amounts_from(list@, at as int + 1));
                    assert(rest[0] == (list@[at as int].0@, list@[at as int].1));
                }
                match read_ticker_price(sent) {
                    Ok(price) => {
                        let more: Double = total.plus(list[at].1.times(price));
                        total_go_on(trader, list, at + 1, more)
                    },
                    Err(_) => total_go_on(trader, list, at + 1, total),
                }
            },
            None => {
                let body: Json = match read_reply(sent) {
                    Ok(b) => b,
                    Err(e) => {
                        return Step::done(Err(ExecutionError::ExchangeError(Fault::Request(e))));
                    },
                };
                match body.get("result") {
                    Some(result) => match result {
                        Json::Object(m) => {
                            let list: Vec<(String, Double)> = read_counted(m);
                            total_go_on(trader, list, 0, Double::zero())
                        },
                        _ => Step::done(Err(ExecutionError::ExchangeError(Fault::MissingResult))),
                    },
                    None => Step::done(Err(ExecutionError::ExchangeError(Fault::MissingResult))),
                }
            },
        }
    }
}

fn read_counted(m: &Vec<(String, Json)>) -> (list: Vec<(String, Double)>)
    ensures
        amounts_from(list@, 0) == counted(m@),
{
    let mut list: Vec<(String, Double)> = Vec::new();
    let mut i: usize = 0;
    assert(m@.take(0) =~= Seq::empty());
    assert(amounts_from(list@, 0) =~= Seq::empty());
    while i < m.len()
        invariant
            i <= m@.len(),
            amounts_from(list@, 0) == counted(m@.take(i as int)),
        decreases m@.len() - i,
    {
        assert(m@.take(i as int + 1).drop_last() =~= m@.take(i as int));
        let ghost before = list@;
        let amount: Double = read_amount(&m[i].1);
        if !amount.le(Double::zero()) {
            list.push((m[i].0.clone(), amount));
            assert(amounts_from(list@, 0) =~= amounts_from(before, 0).push(
                (m@[i as int].0@, amount),
            ));
        }
        i = i + 1;
    }
    assert(m@.take(m@.len() as int) =~= m@);
    list
}

} // verus!
