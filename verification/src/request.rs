//! Requests to the exchange, and what comes back.
use crate::crypto::{base64_encode, base64_of, hmac_sha512, hmac_sha512_of, sha256, sha256_of};
use crate::error::{error_views, outcome, ErrorView, ExecutionError, RequestError, RequestErrorView};
use crate::json::Json;
use crate::table::texts;
use crate::text::same;
use crate::types::{trade_views, TradeRecord};
use vstd::prelude::*;
use vstd::string::*;
use vstd::utf8::encode_utf8;

verus! {

/// Named values, in the order in which they are sent.
pub type Pairs = Seq<(Seq<char>, Seq<char>)>;

/// The parameters of a request.
#[derive(Debug)]
pub struct Params {
    items: Vec<(String, String)>,
}

impl View for Params {
    type V = Pairs;

    closed spec fn view(&self) -> Pairs {
        Seq::new(self.items@.len(), |i: int| (self.items@[i].0@, self.items@[i].1@))
    }
}

/// `p` with the value of `name` set to `value`.
pub open spec fn assigned(p: Pairs, name: Seq<char>, value: Seq<char>) -> Pairs
    decreases p.len(),
{
    if p.len() == 0 {
        seq![(name, value)]
    } else if p[0].0 == name {
        seq![(name, value)] + p.skip(1)
    } else {
        seq![p[0]] + assigned(p.skip(1), name, value)
    }
}

/// `p` as the body of a form: `name=value`, joined by `&`.
pub open spec fn form(p: Pairs) -> Seq<char>
    decreases p.len(),
{
    if p.len() == 0 {
        Seq::empty()
    } else {
        let last = p.last().0 + "="@ + p.last().1;
        if p.len() == 1 {
            last
        } else {
            form(p.drop_last()) + "&"@ + last
        }
    }
}

impl Params {
    /// No parameters.
    pub fn new() -> (p: Params)
        ensures
            p@ == Pairs::empty(),
    {
        let p: Params = Params { items: Vec::new() };
        assert(p@ =~= Pairs::empty());
        p
    }

    /// One more parameter, at the end.
    pub fn push(&mut self, name: &str, value: &str)
        ensures
            final(self)@ == old(self)@.push((name@, value@)),
    {
        let ghost before = self@;
        self.items.push((name.to_owned(), value.to_owned()));
        assert(self@ =~= before.push((name@, value@)));
    }

    /// Set the value of `name`.
    pub fn assign(&mut self, name: &str, value: &str)
        ensures
            final(self)@ == assigned(old(self)@, name@, value@),
    {
        let ghost before = self@;
        let mut i: usize = 0;
        assert(before.skip(0) =~= before);
        assert(before.take(0) + assigned(before, name@, value@) =~= assigned(
            before,
            name@,
            value@,
        ));
        while i < self.items.len()
            invariant
                i <= self.items@.len(),
                self@ == before,
                before == old(self)@,
                assigned(before, name@, value@) == before.take(i as int) + assigned(
                    before.skip(i as int),
                    name@,
                    value@,
                ),
            decreases self.items@.len() - i,
        {
            let ghost rest = before.skip(i as int);
            assert(rest[0] == before[i as int]);
            assert(rest.skip(1) =~= before.skip(i as int + 1));
            if same(self.items[i].0.as_str(), name) {
                self.items.set(i, (name.to_owned(), value.to_owned()));
                assert(self@ =~= before.take(i as int) + (seq![(name@, value@)] + rest.skip(1)));
                return;
            }
            proof {
                let tail = assigned(rest.skip(1), name@, value@);
                assert(before.take(i as int) + (seq![rest[0]] + tail) =~= before.take(i as int + 1)
                    + tail);
            }
            i = i + 1;
        }
        assert(before.skip(i as int) =~= Pairs::empty());
        self.items.push((name.to_owned(), value.to_owned()));
        assert(self@ =~= before.take(i as int) + seq![(name@, value@)]);
    }

    /// How many there are.
    pub fn len(&self) -> (n: usize)
        ensures
            n == self@.len(),
    {
        self.items.len()
    }

    /// The name and the value of parameter `i`.
    pub fn item(&self, i: usize) -> (r: (&String, &String))
        requires
            i < self@.len(),
        ensures
            (r.0@, r.1@) == self@[i as int],
    {
        (&self.items[i].0, &self.items[i].1)
    }

    /// The body of a form that holds them.
    pub fn form_body(&self) -> (s: String)
        ensures
            s@ == form(self@),
    {
        let mut s: String = String::new();
        let mut i: usize = 0;
        assert(self@.take(0) =~= Pairs::empty());
        while i < self.items.len()
            invariant
                i <= self.items@.len(),
                s@ == form(self@.take(i as int)),
            decreases self.items@.len() - i,
        {
            let ghost so_far = s@;
            if i > 0 {
                s.append("&");
            }
            s.append(self.items[i].0.as_str());
            s.append("=");
            s.append(self.items[i].1.as_str());
            proof {
                let t = self@.take(i as int + 1);
                assert(t.drop_last() =~= self@.take(i as int));
                let last = t.last().0 + "="@ + t.last().1;
                if i > 0 {
                    assert(s@ =~= so_far + "&"@ + last);
                } else {
                    assert(s@ =~= last);
                }
            }
            i = i + 1;
        }
        assert(self@.take(self@.len() as int) =~= self@);
        s
    }
}

/// What is to be asked of the exchange.
#[derive(Debug)]
pub enum Call {
    /// A signed request to a private endpoint.
    Private {
        /// The endpoint.
        endpoint: String,
        /// Its parameters, without the nonce.
        params: Params,
    },
    /// A request to a public endpoint.
    Public {
        /// The endpoint.
        endpoint: String,
        /// The query.
        query: Params,
    },
}

/// [`Call`] in contracts.
pub enum CallView {
    /// A signed request to a private endpoint.
    Private(Seq<char>, Pairs),
    /// A request to a public endpoint.
    Public(Seq<char>, Pairs),
}

impl View for Call {
    type V = CallView;

    open spec fn view(&self) -> CallView {
        match self {
            Call::Private { endpoint, params } => CallView::Private(endpoint@, params@),
            Call::Public { endpoint, query } => CallView::Public(endpoint@, query@),
        }
    }
}

/// The request that asks for the state of an order, or to cancel it.
pub open spec fn about_order(endpoint: Seq<char>, txid: Seq<char>) -> CallView {
    CallView::Private(endpoint, seq![("txid"@, txid)])
}

/// The request that asks for the state of an order.
pub open spec fn query_of(txid: Seq<char>) -> CallView {
    about_order("QueryOrders"@, txid)
}

/// The request that cancels an order.
pub open spec fn cancellation_of(txid: Seq<char>) -> CallView {
    about_order("CancelOrder"@, txid)
}

fn order_call(endpoint: &str, txid: &str) -> (c: Call)
    ensures
        c@ == about_order(endpoint@, txid@),
{
    let mut params: Params = Params::new();
    params.push("txid", txid);
    assert(params@ =~= seq![("txid"@, txid@)]);
    Call::Private { endpoint: endpoint.to_owned(), params }
}

/// Ask for the state of an order.
pub fn query_call(txid: &str) -> (c: Call)
    ensures
        c@ == query_of(txid@),
{
    order_call("QueryOrders", txid)
}

/// Cancel an order.
pub fn cancel_call(txid: &str) -> (c: Call)
    ensures
        c@ == cancellation_of(txid@),
{
    order_call("CancelOrder", txid)
}

/// What an operation does next.
#[derive(Debug)]
pub struct Step<S, R> {
    /// How long it waits first, in milliseconds.
    pub pause: u64,
    /// What it does then.
    pub next: Next<S, R>,
}

/// What an operation does next, after its pause.
#[derive(Debug)]
pub enum Next<S, R> {
    /// It makes a call, and goes on from this state with what comes back.
    Call(S, Call),
    /// It is done.
    Done(R),
}

/// [`Step`] in contracts.
pub enum StepView<S, R> {
    /// Wait, then call, and go on from this state.
    Call(nat, S, CallView),
    /// Wait, then be done.
    Done(nat, R),
}

/// What a step is in contracts, where its result has no text in it.
pub open spec fn plain_step<S: View, R>(s: Step<S, R>) -> StepView<S::V, R> {
    match s.next {
        Next::Call(state, call) => StepView::Call(s.pause as nat, state@, call@),
        Next::Done(r) => StepView::Done(s.pause as nat, r),
    }
}

/// What a step is in contracts, where it may fail.
pub open spec fn outcome_step<S: View, V: View>(s: Step<S, Result<V, ExecutionError>>) -> StepView<
    S::V,
    Result<V::V, ErrorView>,
> {
    match s.next {
        Next::Call(state, call) => StepView::Call(s.pause as nat, state@, call@),
        Next::Done(r) => StepView::Done(s.pause as nat, outcome(r)),
    }
}

/// What a step is in contracts, where it gives errors.
pub open spec fn errors_step<S: View>(s: Step<S, Vec<ExecutionError>>) -> StepView<
    S::V,
    Seq<ErrorView>,
> {
    match s.next {
        Next::Call(state, call) => StepView::Call(s.pause as nat, state@, call@),
        Next::Done(r) => StepView::Done(s.pause as nat, error_views(r@)),
    }
}

/// What a step is in contracts, where it gives trades.
pub open spec fn trades_step<S: View>(s: Step<S, Vec<TradeRecord>>) -> StepView<
    S::V,
    Seq<TradeRecord<Seq<char>>>,
> {
    match s.next {
        Next::Call(state, call) => StepView::Call(s.pause as nat, state@, call@),
        Next::Done(r) => StepView::Done(s.pause as nat, trade_views(r@)),
    }
}

impl<S, R> Step<S, R> {
    /// Make a call at once.
    pub fn call(state: S, call: Call) -> (s: Step<S, R>)
        ensures
            s.pause == 0,
            s.next == Next::<S, R>::Call(state, call),
    {
        Step { pause: 0, next: Next::Call(state, call) }
    }

    /// Be done at once.
    pub fn done(r: R) -> (s: Step<S, R>)
        ensures
            s.pause == 0,
            s.next == Next::<S, R>::Done(r),
    {
        Step { pause: 0, next: Next::Done(r) }
    }
}

/// The texts among `v`.
pub open spec fn text_items(v: Seq<Json>) -> Seq<Seq<char>>
    decreases v.len(),
{
    if v.len() == 0 {
        Seq::empty()
    } else {
        match v.last().text() {
            Some(s) => text_items(v.drop_last()).push(s),
            None => text_items(v.drop_last()),
        }
    }
}

/// The errors that an answer names.
pub open spec fn refusals(body: Json) -> Seq<Seq<char>> {
    match body.at("error"@).items() {
        Some(v) => text_items(v),
        None => Seq::empty(),
    }
}

/// What the answer to a private request comes to.
pub open spec fn reply(sent: Result<Json, String>) -> Result<Json, RequestErrorView> {
    match sent {
        Ok(body) => if refusals(body).len() > 0 {
            Err(RequestErrorView::Refused(refusals(body)))
        } else {
            Ok(body)
        },
        Err(e) => Err(RequestErrorView::Transport(e@)),
    }
}

/// The errors that an answer names.
pub fn read_refusals(body: &Json) -> (r: Vec<String>)
    ensures
        texts(r@) == refusals(*body),
{
    let mut r: Vec<String> = Vec::new();
    assert(texts(r@) =~= Seq::empty());
    match body.get("error") {
        Some(j) => match j {
            Json::Array(v) => {
                let mut i: usize = 0;
                assert(v@.take(0) =~= Seq::empty());
                while i < v.len()
                    invariant
                        i <= v@.len(),
                        texts(r@) == text_items(v@.take(i as int)),
                    decreases v@.len() - i,
                {
                    let ghost before = r@;
                    assert(v@.take(i as int + 1).drop_last() =~= v@.take(i as int));
                    match v[i].as_text() {
                        Some(s) => {
                            r.push(s.clone());
                            assert(texts(r@) =~= texts(before).push(s@));
                        },
                        None => {},
                    }
                    i = i + 1;
                }
                assert(v@.take(v@.len() as int) =~= v@);
            },
            _ => {},
        },
        None => {},
    }
    r
}

/// What the answer to a private request comes to.
pub fn read_reply(sent: Result<Json, String>) -> (r: Result<Json, RequestError>)
    ensures
        match r {
            Ok(body) => reply(sent) == Ok::<Json, RequestErrorView>(body),
            Err(e) => reply(sent) == Err::<Json, RequestErrorView>(e@),
        },
{
    match sent {
        Ok(body) => {
            let errors: Vec<String> = read_refusals(&body);
            if errors.len() > 0 {
                Err(RequestError::Refused(errors))
            } else {
                Ok(body)
            }
        },
        Err(e) => Err(RequestError::Transport(e)),
    }
}

/// The name under which the exchange filed an order, if it gives one.
pub open spec fn filed_as(body: Json) -> Option<Seq<char>> {
    match body.at("result"@).at("txid"@).first() {
        Some(j) => j.text(),
        None => None,
    }
}

/// The name under which the exchange filed an order, or `fallback`.
pub open spec fn filed_or(body: Json, fallback: Seq<char>) -> Seq<char> {
    match filed_as(body) {
        Some(s) => s,
        None => fallback,
    }
}

/// The name under which the exchange filed an order, or `fallback`.
pub fn read_txid(body: &Json, fallback: &str) -> (s: String)
    ensures
        s@ == filed_or(*body, fallback@),
{
    match body.get("result") {
        Some(result) => match result.get("txid") {
            Some(j) => match j {
                Json::Array(v) => if v.len() > 0 {
                    match v[0].as_text() {
                        Some(s) => s.clone(),
                        None => fallback.to_owned(),
                    }
                } else {
                    fallback.to_owned()
                },
                _ => fallback.to_owned(),
            },
            None => fallback.to_owned(),
        },
        None => fallback.to_owned(),
    }
}

/// A signed request, ready to be posted.
pub struct SignedRequest<T = String> {
    /// Where to.
    pub url: T,
    /// The header `API-Key`.
    pub api_key: T,
    /// The header `API-Sign`.
    pub api_sign: T,
    /// The header `Content-Type`.
    pub content_type: T,
    /// The body.
    pub body: T,
}

impl View for SignedRequest<String> {
    type V = SignedRequest<Seq<char>>;

    open spec fn view(&self) -> SignedRequest<Seq<char>> {
        SignedRequest {
            url: self.url@,
            api_key: self.api_key@,
            api_sign: self.api_sign@,
            content_type: self.content_type@,
            body: self.body@,
        }
    }
}

/// Kraken's signature: the HMAC, under the secret, of the path and the digest
/// of nonce and body, in base64.
pub open spec fn signature(
    secret: Seq<u8>,
    url_path: Seq<char>,
    nonce: Seq<char>,
    post_data: Seq<char>,
) -> Seq<char> {
    base64_of(
        hmac_sha512_of(
            secret,
            encode_utf8(url_path) + sha256_of(encode_utf8(nonce) + encode_utf8(post_data)),
        ),
    )
}

fn joined(a: &[u8], b: &[u8]) -> (v: Vec<u8>)
    ensures
        v@ == a@ + b@,
{
    let mut v: Vec<u8> = Vec::new();
    let mut i: usize = 0;
    while i < a.len()
        invariant
            i <= a@.len(),
            v@ =~= a@.take(i as int),
        decreases a@.len() - i,
    {
        v.push(a[i]);
        i = i + 1;
    }
    let mut j: usize = 0;
    while j < b.len()
        invariant
            j <= b@.len(),
            v@ =~= a@ + b@.take(j as int),
        decreases b@.len() - j,
    {
        v.push(b[j]);
        j = j + 1;
    }
    assert(v@ =~= a@ + b@);
    v
}

/// Kraken's signature of a request: 88 characters.
pub fn sign(secret: &Vec<u8>, url_path: &str, nonce: &str, post_data: &str) -> (s: String)
    ensures
        s@ == signature(secret@, url_path@, nonce@, post_data@),
        s@.len() == 88,
{
    let digest: Vec<u8> = sha256(joined(nonce.as_bytes(), post_data.as_bytes()).as_slice());
    let message: Vec<u8> = joined(url_path.as_bytes(), digest.as_slice());
    base64_encode(hmac_sha512(secret.as_slice(), message.as_slice()).as_slice())
}

} // verus!
