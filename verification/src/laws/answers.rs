//! What is read out of the exchange's answers.
use crate::decimal::{fixed, parsed};
use crate::double::{lemma_units_increase, one_in_units, positive, units, zero, Double, INFINITE};
use crate::error::{fault_text, ErrorView, ExecutionError, Fault, RequestErrorView};
use crate::fill::{
    confirm_step, limit_start, limit_step, report_of, settled, told, ConfirmFill, ConfirmStep,
    LimitFill,
    LimitStep, Report,
};
use crate::json::{lookup, Json};
use crate::laws::balances::{led_by, lemma_trimmed};
use crate::laws::beginnings::counted_up;
use crate::laws::texts::{law_written_number_is_read_as_the_nearest, sign_text, written};
use crate::market::{result_members, ticker_price};
use crate::natural::ten_to;
use crate::pairs::{pair_entry, pair_load_end, pairs_loaded};
use crate::request::{filed_as, reply, text_items, CallView};
use crate::text::{canonical, halves, only_slash_at, trimmed};
use crate::trader::{MetaView, TraderView};
use crate::types::Fill;
use vstd::prelude::*;

verus! {

/// Whether an object has `v` under a name, first of all its members of that
/// name.
pub open spec fn holds(j: Json, name: Seq<char>, v: Json) -> bool {
    match j {
        Json::Object(m) => exists|i: int|
            {
                &&& 0 <= i < m@.len()
                &&& (#[trigger] m@[i]).0@ == name
                &&& m@[i].1 == v
                &&& forall|k: int| 0 <= k < i ==> (#[trigger] m@[k]).0@ != name
            },
        _ => false,
    }
}

/// Whether there is nothing under a name, as in what is no object.
pub open spec fn lacks(j: Json, name: Seq<char>) -> bool {
    match j {
        Json::Object(m) => forall|i: int| 0 <= i < m@.len() ==> (#[trigger] m@[i]).0@ != name,
        _ => true,
    }
}

/// A member is found by its name exactly where it is there; where two have the
/// name, the first.
pub proof fn law_member_is_found_by_name(j: Json, name: Seq<char>, v: Json)
    ensures
        j.member(name) == Some(v) <==> holds(j, name, v),
        j.member(name) is None <==> lacks(j, name),
        holds(j, name, v) ==> j.at(name) == v,
        lacks(j, name) ==> j.at(name) == Json::Null,
{
    if let Json::Object(m) = j {
        lemma_lookup(m@, name, v);
    }
}

proof fn lemma_lookup(m: Seq<(String, Json)>, name: Seq<char>, v: Json)
    ensures
        lookup(m, name) == Some(v) <==> exists|i: int|
            {
                &&& 0 <= i < m.len()
                &&& (#[trigger] m[i]).0@ == name
                &&& m[i].1 == v
                &&& forall|k: int| 0 <= k < i ==> (#[trigger] m[k]).0@ != name
            },
        lookup(m, name) is None <==> forall|i: int|
            0 <= i < m.len() ==> (#[trigger] m[i]).0@ != name,
    decreases m.len(),
{
    if m.len() > 0 {
        let rest = m.skip(1);
        lemma_lookup(rest, name, v);
        if m[0].0@ == name {
            assert forall|i: int|
                0 <= i < m.len() && (#[trigger] m[i]).0@ == name && (forall|k: int|
                    0 <= k < i ==> (#[trigger] m[k]).0@ != name) implies i == 0 by {
                if i > 0 {
                    assert(m[0].0@ != name);
                }
            }
        } else {
            assert forall|i: int| 0 <= i < rest.len() implies #[trigger] rest[i] == m[i + 1] by {}
            if lookup(rest, name) == Some(v) {
                let i = choose|i: int|
                    {
                        &&& 0 <= i < rest.len()
                        &&& (#[trigger] rest[i]).0@ == name
                        &&& rest[i].1 == v
                        &&& forall|k: int| 0 <= k < i ==> (#[trigger] rest[k]).0@ != name
                    };
                assert forall|k: int| 0 <= k < i + 1 implies (#[trigger] m[k]).0@ != name by {
                    if k > 0 {
                        assert(rest[k - 1].0@ != name);
                    }
                }
                assert(m[i + 1].0@ == name && m[i + 1].1 == v);
            }
            if exists|i: int|
                {
                    &&& 0 <= i < m.len()
                    &&& (#[trigger] m[i]).0@ == name
                    &&& m[i].1 == v
                    &&& forall|k: int| 0 <= k < i ==> (#[trigger] m[k]).0@ != name
                } {
                let i = choose|i: int|
                    {
                        &&& 0 <= i < m.len()
                        &&& (#[trigger] m[i]).0@ == name
                        &&& m[i].1 == v
                        &&& forall|k: int| 0 <= k < i ==> (#[trigger] m[k]).0@ != name
                    };
                assert(rest[i - 1] == m[i]);
                assert forall|k: int| 0 <= k < i - 1 implies (#[trigger] rest[k]).0@ != name by {
                    assert(m[k + 1].0@ != name);
                }
            }
            if lookup(rest, name) is None {
                assert forall|i: int| 0 <= i < m.len() implies (#[trigger] m[i]).0@ != name by {
                    if i > 0 {
                        assert(rest[i - 1].0@ != name);
                    }
                }
            }
            if forall|i: int| 0 <= i < m.len() ==> (#[trigger] m[i]).0@ != name {
                assert forall|i: int| 0 <= i < rest.len() implies (#[trigger] rest[i]).0@
                    != name by {
                    assert(m[i + 1].0@ != name);
                }
            }
        }
    }
}

/// An answer is a refusal exactly where its list of errors has a text in it; it
/// then tells every one of them. Without such a list, or with one that has no
/// text in it, the answer stands as it is. No answer is a failure to send.
pub proof fn law_answer_with_an_error_is_a_refusal(body: Json, errors: Vec<Json>, why: String)
    ensures
        holds(body, "error"@, Json::Array(errors)) ==> {
            &&& reply(Ok(body)) is Err <==> exists|i: int|
                0 <= i < errors@.len() && #[trigger] errors@[i] is Text
            &&& reply(Ok(body)) matches Err(e) ==> e == RequestErrorView::Refused(
                text_items(errors@),
            )
            &&& reply(Ok(body)) matches Ok(b) ==> b == body
        },
        lacks(body, "error"@) || !(body.at("error"@) is Array) ==> reply(Ok(body)) == Result::<
            Json,
            RequestErrorView,
        >::Ok(body),
        reply(Err(why)) == Result::<Json, RequestErrorView>::Err(
            RequestErrorView::Transport(why@),
        ),
{
    law_member_is_found_by_name(body, "error"@, Json::Array(errors));
    lemma_any_text(errors@);
}

proof fn lemma_any_text(v: Seq<Json>)
    ensures
        text_items(v).len() > 0 <==> exists|i: int| 0 <= i < v.len() && #[trigger] v[i] is Text,
    decreases v.len(),
{
    if v.len() > 0 {
        let rest = v.drop_last();
        lemma_any_text(rest);
        if v.last() is Text {
            assert(v[v.len() - 1] is Text);
        } else {
            if exists|i: int| 0 <= i < rest.len() && #[trigger] rest[i] is Text {
                let i = choose|i: int| 0 <= i < rest.len() && #[trigger] rest[i] is Text;
                assert(v[i] is Text);
            }
            if exists|i: int| 0 <= i < v.len() && #[trigger] v[i] is Text {
                let i = choose|i: int| 0 <= i < v.len() && #[trigger] v[i] is Text;
                assert(rest[i] is Text);
            }
        }
    }
}

/// The texts of a list are those of its parts, in order; a text is itself, and
/// what is no text is left out.
pub proof fn law_texts_are_told_in_order(a: Seq<Json>, b: Seq<Json>, s: String, other: Json)
    ensures
        text_items(a + b) == text_items(a) + text_items(b),
        text_items(seq![Json::Text(s)]) == seq![s@],
        !(other is Text) ==> text_items(seq![other]).len() == 0,
    decreases b.len(),
{
    let one = seq![Json::Text(s)];
    reveal_with_fuel(text_items, 2);
    assert(one.drop_last() =~= Seq::empty());
    assert(text_items(one) =~= seq![s@]);
    assert(seq![other].drop_last() =~= Seq::empty());
    if b.len() == 0 {
        assert(a + b =~= a);
        assert(text_items(a) + text_items(b) =~= text_items(a));
    } else {
        assert((a + b).drop_last() =~= a + b.drop_last());
        law_texts_are_told_in_order(a, b.drop_last(), s, other);
        assert(text_items(a + b) =~= text_items(a) + text_items(b));
    }
}

/// The name of an order that was filed is the first of those under `txid` in
/// the result; where there is none, or it is no text, the order has no name.
pub proof fn law_filed_order_is_named_by_txid(body: Json, result: Json, names: Vec<Json>)
    requires
        holds(body, "result"@, result),
    ensures
        holds(result, "txid"@, Json::Array(names)) ==> filed_as(body) == if names@.len() > 0 {
            match names@[0] {
                Json::Text(s) => Some(s@),
                _ => None,
            }
        } else {
            None
        },
        lacks(result, "txid"@) ==> filed_as(body) is None,
{
    law_member_is_found_by_name(body, "result"@, result);
    law_member_is_found_by_name(result, "txid"@, Json::Array(names));
}

/// Whether an order has this number under a name: the number that the text
/// there reads as, or zero where there is no text or it reads as none.
pub open spec fn numbered(order: Json, name: Seq<char>, d: Double) -> bool {
    ||| exists|s: String|
        #![trigger holds(order, name, Json::Text(s))]
        holds(order, name, Json::Text(s)) && parsed(s@) == Some(d)
    ||| d == zero() && exists|s: String|
        #![trigger holds(order, name, Json::Text(s))]
        holds(order, name, Json::Text(s)) && parsed(s@) is None
    ||| d == zero() && lacks(order, name)
    ||| d == zero() && exists|v: Json|
        #![trigger holds(order, name, v)]
        holds(order, name, v) && !(v is Text)
}

proof fn lemma_numbered(order: Json, name: Seq<char>)
    ensures
        numbered(order, name, order.number_at(name)),
{
    let v = order.at(name);
    law_member_is_found_by_name(order, name, v);
    if holds(order, name, v) {
        if let Json::Text(s) = v {
            assert(holds(order, name, Json::Text(s)));
        }
    }
}

/// What is told of an order is read from what stands under its own name in the
/// result: its status, its price, the volume executed and the fee, each from
/// the member of that name. An order that is not there is not told of.
pub proof fn law_report_is_read_by_name(body: Json, result: Json, txid: Seq<char>, order: Json)
    requires
        holds(body, "result"@, result),
    ensures
        lacks(result, txid) ==> report_of(body, txid) is None,
        holds(result, txid, order) ==> (report_of(body, txid) matches Some(r) && {
            &&& numbered(order, "price"@, r.fill.price)
            &&& numbered(order, "vol_exec"@, r.fill.volume)
            &&& numbered(order, "fee"@, r.fill.fee)
            &&& forall|s: String|
                #![trigger holds(order, "status"@, Json::Text(s))]
                holds(order, "status"@, Json::Text(s)) ==> r.status == s@
            &&& lacks(order, "status"@) ==> r.status.len() == 0
        }),
{
    law_member_is_found_by_name(body, "result"@, result);
    law_member_is_found_by_name(result, txid, order);
    lemma_numbered(order, "price"@);
    lemma_numbered(order, "vol_exec"@);
    lemma_numbered(order, "fee"@);
    law_member_is_found_by_name(order, "status"@, Json::Null);
    reveal_strlit("");
    assert forall|s: String|
        #![trigger holds(order, "status"@, Json::Text(s))]
        holds(order, "status"@, Json::Text(s)) implies order.at("status"@) == Json::Text(s) by {
        law_member_is_found_by_name(order, "status"@, Json::Text(s));
    }
}

/// An order is settled by its status and what was executed: a closed one with
/// something executed, and a cancelled or expired one with something executed,
/// by that fill; a cancelled or expired one with nothing executed by an error
/// that says how it ended. Any other is open.
pub proof fn law_order_is_settled_by_its_status(txid: Seq<char>, status: Seq<char>, fill: Fill)
    ensures
        ({
            let out = settled(Some(Report { status, fill }), txid);
            let ended = status == "canceled"@ || status == "expired"@;
            &&& (status == "closed"@ || ended) && positive(fill.volume) ==> out == Some(
                Result::<Fill, ErrorView>::Ok(fill),
            )
            &&& ended && !positive(fill.volume) ==> out == Some(
                Result::<Fill, ErrorView>::Err(
                    ExecutionError::ExchangeError(Fault::NoFill { txid, status }),
                ),
            )
            &&& !ended && !(status == "closed"@ && positive(fill.volume)) ==> out is None
            &&& settled(None, txid) is None
        }),
{
    reveal_strlit("closed");
    reveal_strlit("canceled");
    reveal_strlit("expired");
    assert("closed"@.len() == 6 && "canceled"@.len() == 8 && "expired"@.len() == 7);
}

/// Confirming an order asks again half a second later while it is open, and
/// gives up after twelve answers; what settles it ends it at once.
pub proof fn law_confirming_asks_twelve_times(
    c: ConfirmFill<Seq<char>>,
    sent: Result<Json, String>,
)
    requires
        c.attempt < 12,
    ensures
        ({
            let out = confirm_step(c, sent);
            let open = settled(told(sent, c.txid), c.txid) is None;
            &&& open && c.attempt < 11 ==> out == ConfirmStep::Call(
                500,
                ConfirmFill { txid: c.txid, attempt: (c.attempt + 1) as u64 },
                CallView::Private("QueryOrders"@, seq![("txid"@, c.txid)]),
            )
            &&& open && c.attempt == 11 ==> out == ConfirmStep::Done(
                500,
                Err(ExecutionError::ExchangeError(Fault::NotConfirmed { txid: c.txid })),
            )
            &&& !open ==> out == ConfirmStep::Done(
                0,
                settled(told(sent, c.txid), c.txid)->Some_0,
            )
        }),
{
}

/// Waiting for a limit order asks once a second while it is open and time is
/// left. The last answer is taken for what was executed by then, however the
/// order stands.
pub proof fn law_waiting_takes_what_was_executed(
    c: LimitFill<Seq<char>>,
    sent: Result<Json, String>,
)
    ensures
        ({
            let out = limit_step(c, sent);
            let report = told(sent, c.txid);
            &&& c.left > 1 && settled(report, c.txid) is None ==> out == LimitStep::Call(
                1000,
                LimitFill { txid: c.txid, left: (c.left - 1) as u64 },
                CallView::Private("QueryOrders"@, seq![("txid"@, c.txid)]),
            )
            &&& c.left == 1 && settled(report, c.txid) is None ==> out == LimitStep::Call(
                0,
                LimitFill { txid: c.txid, left: 0 },
                CallView::Private("QueryOrders"@, seq![("txid"@, c.txid)]),
            )
            &&& c.left > 0 && settled(report, c.txid) is Some ==> out == LimitStep::Done(
                0,
                if positive(report->Some_0.fill.volume) {
                    Some(report->Some_0.fill)
                } else {
                    None
                },
            )
            &&& c.left == 0 ==> out == LimitStep::Done(
                0,
                if report is Some && positive(report->Some_0.fill.volume) {
                    Some(report->Some_0.fill)
                } else {
                    None
                },
            )
        }),
{
}

/// The last traded price is the first entry of the list `c` of the first pair
/// in the result.
pub proof fn law_ticker_price_is_the_last_trade(
    body: Json,
    pairs: Vec<(String, Json)>,
    last: Vec<Json>,
    s: String,
)
    requires
        holds(body, "result"@, Json::Object(pairs)),
        pairs@.len() > 0,
        holds(pairs@[0].1, "c"@, Json::Array(last)),
        last@.len() > 0,
        last@[0] == Json::Text(s),
    ensures
        match parsed(s@) {
            Some(d) => ticker_price(Ok(body)) == Result::<Double, ErrorView>::Ok(d),
            None => ticker_price(Ok(body)) == Result::<Double, ErrorView>::Err(
                ExecutionError::ExchangeError(Fault::InvalidPrice),
            ),
        },
{
    law_member_is_found_by_name(body, "result"@, Json::Object(pairs));
    law_member_is_found_by_name(pairs@[0].1, "c"@, Json::Array(last));
}

/// Without a result there is no price, nor with a result that names no pair.
pub proof fn law_ticker_without_a_result(body: Json, pairs: Vec<(String, Json)>, why: String)
    ensures
        lacks(body, "result"@) ==> ticker_price(Ok(body)) == Result::<Double, ErrorView>::Err(
            ExecutionError::ExchangeError(Fault::MissingResult),
        ),
        holds(body, "result"@, Json::Object(pairs)) && pairs@.len() == 0 ==> ticker_price(
            Ok(body),
        ) == Result::<Double, ErrorView>::Err(ExecutionError::ExchangeError(Fault::NoTicker)),
        ticker_price(Err(why)) == Result::<Double, ErrorView>::Err(
            ExecutionError::ExchangeError(Fault::Request(RequestErrorView::Transport(why@))),
        ),
{
    law_member_is_found_by_name(body, "result"@, Json::Object(pairs));
}

/// What an answer lists are the members of its result, where it is no refusal;
/// else there is nothing, and why is told.
pub proof fn law_listed_are_the_members_of_the_result(body: Json, m: Vec<(String, Json)>)
    ensures
        reply(Ok(body)) is Ok && holds(body, "result"@, Json::Object(m)) ==> result_members(
            Ok(body),
        ) == Result::<Seq<(String, Json)>, ErrorView>::Ok(m@),
        reply(Ok(body)) is Ok && lacks(body, "result"@) ==> result_members(Ok(body)) == Result::<
            Seq<(String, Json)>,
            ErrorView,
        >::Err(ExecutionError::ExchangeError(Fault::MissingResult)),
        reply(Ok(body)) matches Err(e) ==> result_members(Ok(body)) == Result::<
            Seq<(String, Json)>,
            ErrorView,
        >::Err(ExecutionError::ExchangeError(Fault::Request(e))),
{
    law_member_is_found_by_name(body, "result"@, Json::Object(m));
}

/// Whether an entry has this many places under a name: the integer there, or
/// the usual number where there is none. Only its lower half counts.
pub open spec fn placed(val: Json, name: Seq<char>, usual: u64, places: u32) -> bool {
    ||| exists|n: u64|
        #![trigger holds(val, name, Json::UInt(n))]
        holds(val, name, Json::UInt(n)) && places == n % 0x1_0000_0000
    ||| places == usual && lacks(val, name)
    ||| places == usual && exists|v: Json|
        #![trigger holds(val, name, v)]
        holds(val, name, v) && !(v is UInt)
}

proof fn lemma_placed(val: Json, name: Seq<char>, usual: u64)
    requires
        usual < 0x1_0000_0000,
    ensures
        placed(val, name, usual, (val.uint_at(name, usual) % 0x1_0000_0000) as u32),
{
    let v = val.at(name);
    law_member_is_found_by_name(val, name, v);
    if holds(val, name, v) {
        if let Json::UInt(n) = v {
            assert(holds(val, name, Json::UInt(n)));
        }
    }
}

/// The metadata of a pair is read from the members of those names, with five
/// places for prices and eight for lots where the answer does not say; a pair
/// without the exchange's name for it is passed over.
pub proof fn law_metadata_is_read_by_name(val: Json, altname: String)
    ensures
        lacks(val, "altname"@) || !(val.at("altname"@) is Text) ==> pair_entry(val) is None,
        holds(val, "altname"@, Json::Text(altname)) && pair_entry(val) is Some ==> {
            let m = pair_entry(val)->Some_0.1;
            &&& m.altname == altname@
            &&& placed(val, "pair_decimals"@, 5, m.price_decimals)
            &&& placed(val, "lot_decimals"@, 8, m.lot_decimals)
            &&& numbered(val, "ordermin"@, m.ordermin)
            &&& numbered(val, "costmin"@, m.costmin)
        },
{
    law_member_is_found_by_name(val, "altname"@, Json::Text(altname));
    lemma_placed(val, "pair_decimals"@, 5);
    lemma_placed(val, "lot_decimals"@, 8);
    lemma_numbered(val, "ordermin"@);
    lemma_numbered(val, "costmin"@);
}

/// A pair is known by the two sides of its display name, the first of them as
/// it is commonly written; one whose display name does not have exactly two
/// sides is passed over.
pub proof fn law_pair_is_known_by_its_display_name(
    val: Json,
    altname: String,
    shown: String,
    base: Seq<char>,
    quote: Seq<char>,
)
    requires
        holds(val, "altname"@, Json::Text(altname)),
        holds(val, "wsname"@, Json::Text(shown)),
    ensures
        shown@ == base + "/"@ + quote && !base.contains('/') && !quote.contains('/') ==> (
        pair_entry(val) matches Some(e) && e.0 == canonical(base) + "/"@ + quote),
        halves(shown@) is None ==> pair_entry(val) is None,
{
    law_member_is_found_by_name(val, "altname"@, Json::Text(altname));
    law_member_is_found_by_name(val, "wsname"@, Json::Text(shown));
    reveal_strlit("/");
    assert("/"@ =~= seq!['/']);
    if shown@ == base + "/"@ + quote && !base.contains('/') && !quote.contains('/') {
        lemma_two_sides(shown@, base, quote);
    }
}

/// A pair without a display name is known by its base, as it is commonly
/// written, and its quote without the letters Z that lead it.
pub proof fn law_pair_is_known_by_base_and_quote(
    val: Json,
    altname: String,
    base: String,
    quote: String,
)
    requires
        holds(val, "altname"@, Json::Text(altname)),
        lacks(val, "wsname"@) || !(val.at("wsname"@) is Text),
        holds(val, "base"@, Json::Text(base)),
        holds(val, "quote"@, Json::Text(quote)),
    ensures
        pair_entry(val) matches Some(e) && exists|i: nat, name: Seq<char>|
            {
                &&& quote@ == #[trigger] led_by(0, i, name)
                &&& name.len() > 0 ==> name[0] != 'Z'
                &&& e.0 == canonical(base@) + "/"@ + name
            },
{
    law_member_is_found_by_name(val, "altname"@, Json::Text(altname));
    law_member_is_found_by_name(val, "wsname"@, Json::Null);
    law_member_is_found_by_name(val, "base"@, Json::Text(base));
    law_member_is_found_by_name(val, "quote"@, Json::Text(quote));
    lemma_trimmed(quote@, 'Z');
    let name = trimmed(quote@, 'Z');
    let i = (quote@.len() - name.len()) as nat;
    assert(quote@ =~= led_by(0, i, name));
}

/// Bitcoin and dogecoin are commonly written otherwise than the exchange
/// writes them; every other asset is written as it is.
pub proof fn law_common_names(sym: Seq<char>)
    ensures
        sym == "XBT"@ || sym == "XXBT"@ ==> canonical(sym) == "BTC"@,
        sym == "XDG"@ || sym == "XXDG"@ ==> canonical(sym) == "DOGE"@,
        sym != "XBT"@ && sym != "XXBT"@ && sym != "XDG"@ && sym != "XXDG"@ ==> canonical(sym)
            == sym,
{
    reveal_strlit("XBT");
    reveal_strlit("XXBT");
    reveal_strlit("XDG");
    reveal_strlit("XXDG");
    assert("XBT"@[1] == 'B' && "XDG"@[1] == 'D');
    assert("XXBT"@[2] == 'B' && "XXDG"@[2] == 'D');
}

proof fn lemma_two_sides(s: Seq<char>, base: Seq<char>, quote: Seq<char>)
    requires
        s == base + seq!['/'] + quote,
        !base.contains('/'),
        !quote.contains('/'),
    ensures
        halves(s) == Some((base, quote)),
{
    let at = base.len() as int;
    assert(s[at] == '/');
    assert forall|j: int| 0 <= j < s.len() && j != at implies s[j] != '/' by {
        if j < at {
            assert(base.contains(base[j]));
        } else {
            assert(quote.contains(quote[j - at - 1]));
        }
    }
    assert(only_slash_at(s, at));
    let i = choose|i: int| only_slash_at(s, i);
    assert(i == at);
    assert(s.take(at) =~= base);
    assert(s.skip(at + 1) =~= quote);
}

/// Loading goes entry by entry: every entry that can be read is counted and
/// replaces what was known under its name, and one that cannot changes
/// nothing.
pub proof fn law_pairs_are_loaded_one_by_one(
    known: Map<Seq<char>, MetaView>,
    a: Seq<(String, Json)>,
    b: Seq<(String, Json)>,
    one: (String, Json),
)
    ensures
        ({
            let first = pairs_loaded(known, a);
            let second = pairs_loaded(first.0, b);
            pairs_loaded(known, a + b) == (second.0, first.1 + second.1)
        }),
        pair_entry(one.1) matches Some(e) ==> pairs_loaded(known, seq![one]) == (
            known.insert(e.0, e.1),
            1nat,
        ),
        pair_entry(one.1) is None ==> pairs_loaded(known, seq![one]) == (known, 0nat),
    decreases b.len(),
{
    reveal_with_fuel(pairs_loaded, 2);
    assert(seq![one].drop_last() =~= Seq::empty());
    if b.len() == 0 {
        assert(a + b =~= a);
    } else {
        assert((a + b).drop_last() =~= a + b.drop_last());
        law_pairs_are_loaded_one_by_one(known, a, b.drop_last(), one);
    }
}

/// Every pair of the answer that can be read is known afterwards as its last
/// entry says, and what was known of other pairs stays.
pub proof fn law_loaded_pair_is_known(
    known: Map<Seq<char>, MetaView>,
    members: Seq<(String, Json)>,
    i: int,
    name: Seq<char>,
    meta: MetaView,
)
    requires
        0 <= i < members.len(),
        pair_entry(members[i].1) == Some((name, meta)),
        forall|k: int|
            i < k < members.len() ==> (pair_entry((#[trigger] members[k]).1) matches Some(e)
                ==> e.0 != name),
    ensures
        pairs_loaded(known, members).0.contains_key(name),
        pairs_loaded(known, members).0[name] == meta,
    decreases members.len(),
{
    let rest = members.drop_last();
    if i < rest.len() {
        assert(rest[i] == members[i]);
        assert forall|k: int| i < k < rest.len() implies (pair_entry(
            (#[trigger] rest[k]).1,
        ) matches Some(e) ==> e.0 != name) by {
            assert(rest[k] == members[k]);
        }
        law_loaded_pair_is_known(known, rest, i, name, meta);
        assert(pair_entry(members[members.len() - 1].1) matches Some(e) ==> e.0 != name);
    }
}

/// A pair that the answer has no entry for is known as before.
pub proof fn law_other_pairs_stay_known(
    known: Map<Seq<char>, MetaView>,
    members: Seq<(String, Json)>,
    name: Seq<char>,
)
    requires
        forall|k: int|
            0 <= k < members.len() ==> (pair_entry((#[trigger] members[k]).1) matches Some(e)
                ==> e.0 != name),
    ensures
        pairs_loaded(known, members).0.contains_key(name) == known.contains_key(name),
        pairs_loaded(known, members).0[name] == known[name],
    decreases members.len(),
{
    if members.len() > 0 {
        let rest = members.drop_last();
        assert forall|k: int| 0 <= k < rest.len() implies (pair_entry(
            (#[trigger] rest[k]).1,
        ) matches Some(e) ==> e.0 != name) by {
            assert(rest[k] == members[k]);
        }
        law_other_pairs_stay_known(known, rest, name);
        assert(pair_entry(members[members.len() - 1].1) matches Some(e) ==> e.0 != name);
    }
}

/// Loading pairs changes what is known of the pairs and nothing else.
pub proof fn law_loading_changes_only_the_pairs(t: TraderView, body: Json, m: Vec<(String, Json)>)
    requires
        holds(body, "result"@, Json::Object(m)),
    ensures
        pair_load_end(t, Ok(body)).0 == (TraderView {
            pair_meta: pairs_loaded(t.pair_meta, m@).0,
            ..t
        }),
        pair_load_end(t, Ok(body)).1 == Result::<usize, ErrorView>::Ok(
            pairs_loaded(t.pair_meta, m@).1 as usize,
        ),
{
    law_member_is_found_by_name(body, "result"@, Json::Object(m));
}


/// A pair in the result without a last price counts as traded at zero.
pub proof fn law_ticker_without_a_price(body: Json, pairs: Vec<(String, Json)>)
    requires
        holds(body, "result"@, Json::Object(pairs)),
        pairs@.len() > 0,
        lacks(pairs@[0].1, "c"@),
    ensures
        ticker_price(Ok(body)) == Result::<Double, ErrorView>::Ok(zero()),
{
    law_member_is_found_by_name(body, "result"@, Json::Object(pairs));
    law_member_is_found_by_name(pairs@[0].1, "c"@, Json::Null);
    lemma_nothing_is_read_as_zero();
}

proof fn lemma_nothing_is_read_as_zero()
    ensures
        parsed("0"@) == Some(zero()),
{
    reveal_strlit("0");
    let s = seq!['0'];
    assert("0"@ =~= sign_text(false) + written(s, Seq::empty()));
    law_written_number_is_read_as_the_nearest(false, s, Seq::empty(), zero());
    let d = parsed("0"@)->Some_0;
    assert(s + Seq::<char>::empty() =~= s);
    assert(s.drop_last() =~= Seq::empty());
    reveal_with_fuel(counted_up, 2);
    assert(counted_up(s) == 0);
    assert(ten_to(0) == 1);
    assert(0 * one_in_units() == 0);
    lemma_units_increase(0, INFINITE as nat);
    let most = (units((INFINITE - 1) as nat) + units(INFINITE as nat)) as int;
    let steps = ten_to(Seq::<char>::empty().len()) as int;
    assert(steps == 1);
    assert(most * steps > 0) by (nonlinear_arith)
        requires
            most > 0,
            steps == 1,
    ;
    assert(d.finite());
    assert(d.value() * steps == d.value()) by (nonlinear_arith)
        requires
            steps == 1,
    ;
    assert(0 * steps == 0);
    assert(zero().value() == 0);
    assert(d.value() == 0);
    if d.pattern() > 0 {
        lemma_units_increase(0, d.pattern());
    }
}

/// Without a list of pairs in the answer nothing is loaded, and that is said.
pub proof fn law_load_without_a_result(t: TraderView, body: Json, why: String)
    ensures
        lacks(body, "result"@) ==> pair_load_end(t, Ok(body)) == (
            t,
            Result::<usize, ErrorView>::Err(ExecutionError::ExchangeError(Fault::NoAssetPairs)),
        ),
        pair_load_end(t, Err(why)) == (
            t,
            Result::<usize, ErrorView>::Err(
                ExecutionError::ExchangeError(Fault::Request(RequestErrorView::Transport(why@))),
            ),
        ),
{
    law_member_is_found_by_name(body, "result"@, Json::Null);
}

/// What is told of an order comes from an answer that is no refusal.
pub proof fn law_refusal_tells_nothing(sent: Result<Json, String>, txid: Seq<char>)
    ensures
        reply(sent) is Err ==> told(sent, txid) is None,
        reply(sent) matches Ok(body) ==> told(sent, txid) == report_of(body, txid),
{
}

/// Waiting begins a second before the first question where there is time, at
/// once where there is none.
pub proof fn law_waiting_begins(txid: Seq<char>, window: u64)
    ensures
        limit_start(txid, window) == LimitStep::Call(
            if window == 0 {
                0
            } else {
                1000
            },
            LimitFill { txid, left: window },
            CallView::Private("QueryOrders"@, seq![("txid"@, txid)]),
        ),
{
}

/// What is said of a fault names what it is about: of a cost the pair, the cost
/// and the least cost, each to two places; of an order its name and status; of
/// an entry its pair and limit.
pub proof fn law_faults_say_what_they_are_about(
    pair: Seq<char>,
    txid: Seq<char>,
    status: Seq<char>,
    limit: Seq<char>,
    why: Seq<char>,
    cost: Double,
    costmin: Double,
)
    ensures
        fault_text(Fault::BelowCostMin { pair, cost, costmin }) == Some(
            pair + ": cost $"@ + fixed(cost, 2) + " below costmin $"@ + fixed(costmin, 2),
        ),
        fault_text(Fault::NoFill { txid, status }) == Some(
            "Order "@ + txid + " "@ + status + " with no fill"@,
        ),
        fault_text(Fault::NotConfirmed { txid }) == Some(
            "Order "@ + txid + " not confirmed filled within timeout"@,
        ),
        fault_text(Fault::EntryNotFilled { pair, limit }) == Some(
            "Limit entry for "@ + pair + " did not fill at "@ + limit
                + " within window \u{2014} cancelled"@,
        ),
        fault_text(Fault::Request(RequestErrorView::Transport(why))) == Some(why),
        fault_text(Fault::ShortsDisabled) == Some(
            "Short orders disabled (spot account is long-only)"@,
        ),
        fault_text(Fault::NoAssetPairs) == Some("AssetPairs missing result"@),
        fault_text(Fault::MissingResult) == Some("Missing result"@),
        fault_text(Fault::NoTicker) == Some("No ticker"@),
        fault_text(Fault::InvalidPrice) == Some("Invalid price"@),
{
}

} // verus!
