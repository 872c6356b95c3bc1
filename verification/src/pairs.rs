//! What is known of the pairs: names, precisions, minimums.
use crate::error::{ErrorView, ExecutionError, Fault, RequestError, RequestErrorView};
use crate::json::Json;
use crate::request::{outcome_step, Call, CallView, Pairs, Params, Step, StepView};
use crate::text::{canonical, canonical_base, halves, split_pair, trim_front, trimmed};
use crate::trader::{KrakenTrader, MetaView, TraderView};
use crate::types::PairMeta;
use vstd::prelude::*;
use vstd::string::*;

verus! {

/// The pair that an entry of AssetPairs is about, in "BTC/USD" form: from
/// `wsname` where there is one, which must have exactly one slash, else from
/// `base` and `quote`.
pub open spec fn pair_name(val: Json) -> Option<Seq<char>> {
    match val.at("wsname"@).text() {
        Some(ws) => match halves(ws) {
            Some(h) => Some(canonical(h.0) + "/"@ + h.1),
            None => None,
        },
        None => Some(
            canonical(text_or_empty(val.at("base"@))) + "/"@ + trimmed(
                text_or_empty(val.at("quote"@)),
                'Z',
            ),
        ),
    }
}

/// The text of a string, or nothing.
pub open spec fn text_or_empty(j: Json) -> Seq<char> {
    match j.text() {
        Some(s) => s,
        None => Seq::empty(),
    }
}

/// The name and the metadata that an entry of AssetPairs gives.
pub open spec fn pair_entry(val: Json) -> Option<(Seq<char>, MetaView)> {
    match val.at("altname"@).text() {
        Some(altname) => match pair_name(val) {
            Some(name) => Some(
                (
                    name,
                    PairMeta {
                        altname,
                        price_decimals: (val.uint_at("pair_decimals"@, 5) % 0x1_0000_0000) as u32,
                        lot_decimals: (val.uint_at("lot_decimals"@, 8) % 0x1_0000_0000) as u32,
                        ordermin: val.number_at("ordermin"@),
                        costmin: val.number_at("costmin"@),
                    },
                ),
            ),
            None => None,
        },
        None => None,
    }
}

/// `known` with the entries of AssetPairs, a later one in place of an earlier
/// one of the same name, and how many there were.
pub open spec fn pairs_loaded(
    known: Map<Seq<char>, MetaView>,
    members: Seq<(String, Json)>,
) -> (Map<Seq<char>, MetaView>, nat)
    decreases members.len(),
{
    if members.len() == 0 {
        (known, 0)
    } else {
        let so_far = pairs_loaded(known, members.drop_last());
        match pair_entry(members.last().1) {
            Some(e) => (so_far.0.insert(e.0, e.1), so_far.1 + 1),
            None => so_far,
        }
    }
}

fn read_pair_name(val: &Json) -> (r: Option<String>)
    ensures
        match r {
            Some(s) => pair_name(*val) == Some(s@),
            None => pair_name(*val) is None,
        },
{
    match val.text_at("wsname") {
        Some(ws) => match split_pair(ws.as_str()) {
            Some(h) => {
                let mut s: String = canonical_base(h.0.as_str());
                s.append("/");
                s.append(h.1.as_str());
                Some(s)
            },
            None => None,
        },
        None => {
            let base: String = match val.text_at("base") {
                Some(b) => b.clone(),
                None => String::new(),
            };
            let quote: String = match val.text_at("quote") {
                Some(q) => q.clone(),
                None => String::new(),
            };
            let mut s: String = canonical_base(base.as_str());
            s.append("/");
            s.append(trim_front(quote.as_str(), 'Z').as_str());
            Some(s)
        },
    }
}

fn read_pair_entry(val: &Json) -> (r: Option<(String, PairMeta)>)
    ensures
        match r {
            Some(e) => pair_entry(*val) == Some((e.0@, e.1@)),
            None => pair_entry(*val) is None,
        },
{
    match val.text_at("altname") {
        Some(altname) => match read_pair_name(val) {
            Some(name) => {
                let meta: PairMeta = PairMeta {
                    altname: altname.clone(),
                    price_decimals: (val.read_uint("pair_decimals", 5) % 0x1_0000_0000) as u32,
                    lot_decimals: (val.read_uint("lot_decimals", 8) % 0x1_0000_0000) as u32,
                    ordermin: val.read_number("ordermin"),
                    costmin: val.read_number("costmin"),
                };
                Some((name, meta))
            },
            None => None,
        },
        None => None,
    }
}

/// Loading what is known of the pairs: waiting for AssetPairs.
#[derive(Debug)]
pub struct PairLoad;

impl View for PairLoad {
    type V = PairLoad;

    open spec fn view(&self) -> PairLoad {
        *self
    }
}

/// What a trader knows after an answer of AssetPairs, and how many entries
/// that had. An answer without result leaves everything as it is.
pub open spec fn pair_load_end(t: TraderView, sent: Result<Json, String>) -> (
    TraderView,
    Result<usize, ErrorView>,
) {
    match sent {
        Ok(body) => match body.at("result"@).members() {
            Some(m) => {
                let loaded = pairs_loaded(t.pair_meta, m);
                (TraderView { pair_meta: loaded.0, ..t }, Ok(loaded.1 as usize))
            },
            None => (t, Err(ExecutionError::ExchangeError(Fault::NoAssetPairs))),
        },
        Err(e) => (
            t,
            Err(ExecutionError::ExchangeError(Fault::Request(RequestErrorView::Transport(e@)))),
        ),
    }
}

impl KrakenTrader {
    /// Fetch per-pair trading metadata (decimals, minimums, altname) from
    /// Kraken's public AssetPairs endpoint.
    pub fn load_pair_meta(&self) -> (s: Step<PairLoad, Result<usize, ExecutionError>>)
        ensures
            outcome_step(s) == StepView::<
                PairLoad,
                Result<usize, ErrorView>,
            >::Call(0, PairLoad, CallView::Public("AssetPairs"@, Pairs::empty())),
    {
        Step::call(
            PairLoad,
            Call::Public { endpoint: "AssetPairs".to_owned(), query: Params::new() },
        )
    }
}

impl PairLoad {
    /// Take in the answer.
    pub fn resume(self, trader: &mut KrakenTrader, sent: Result<Json, String>) -> (s: Step<
        PairLoad,
        Result<usize, ExecutionError>,
    >)
        ensures
            final(trader)@ == pair_load_end(old(trader)@, sent).0,
            outcome_step(s) == StepView::<
                PairLoad,
                Result<usize, ErrorView>,
            >::Done(0, pair_load_end(old(trader)@, sent).1),
    {
        let body: Json = match sent {
            Ok(b) => b,
            Err(e) => {
                return Step::done(
                    Err(ExecutionError::ExchangeError(Fault::Request(RequestError::Transport(e)))),
                );
            },
        };
        match body.get("result") {
            Some(result) => match result {
                Json::Object(m) => {
                    let ghost start = trader@;
                    let mut count: usize = 0;
                    let mut i: usize = 0;
                    assert(m@.take(0) =~= Seq::empty());
                    while i < m.len()
                        invariant
                            i <= m@.len(),
                            count <= i,
                            count == pairs_loaded(start.pair_meta, m@.take(i as int)).1,
                            trader@ == (TraderView {
                                pair_meta: pairs_loaded(start.pair_meta, m@.take(i as int)).0,
                                ..start
                            }),
                        decreases m@.len() - i,
                    {
                        assert(m@.take(i as int + 1).drop_last() =~= m@.take(i as int));
                        match read_pair_entry(&m[i].1) {
                            Some(e) => {
                                trader.learn_pair(e.0, e.1);
                                count = count + 1;
                            },
                            None => {},
                        }
                        i = i + 1;
                    }
                    assert(m@.take(m@.len() as int) =~= m@);
                    Step::done(Ok(count))
                },
                _ => Step::done(Err(ExecutionError::ExchangeError(Fault::NoAssetPairs))),
            },
            None => Step::done(Err(ExecutionError::ExchangeError(Fault::NoAssetPairs))),
        }
    }
}

} // verus!
