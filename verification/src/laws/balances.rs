//! What the account holds and what it is worth.
use crate::decimal::parsed;
use crate::double::{at_most, positive, product, sum, zero, Double};
use crate::error::ErrorView;
use crate::json::Json;
use crate::laws::fills::Answers;
use crate::market::{
    counted, dollar_pair, holdings, raw_balance_end, result_members, ticker_price, total_next,
    total_step, Amounts,
    TotalView,
};
use crate::request::{CallView, Pairs, StepView};
use crate::text::{canonical, trimmed};
use crate::trader::TraderView;
use vstd::prelude::*;

verus! {

/// Whether a member of an answer gives this amount.
pub open spec fn amounts_to(member: (String, Json), d: Double) -> bool {
    member.1.text() matches Some(s) && parsed(s) == Some(d)
}

/// Whether a member of an answer gives no amount.
pub open spec fn no_amount(member: (String, Json)) -> bool {
    match member.1.text() {
        Some(s) => parsed(s) is None,
        None => true,
    }
}

/// What is counted of a list is what is counted of its parts, in order. Of one
/// member it is its amount under its name where that is not zero or less, and
/// nothing where it is, or where the member gives no amount.
pub proof fn law_counting_goes_member_by_member(
    a: Seq<(String, Json)>,
    b: Seq<(String, Json)>,
    one: (String, Json),
    d: Double,
)
    ensures
        counted(a + b) == counted(a) + counted(b),
        amounts_to(one, d) && !at_most(d, zero()) ==> counted(seq![one]) == seq![(one.0@, d)],
        amounts_to(one, d) && at_most(d, zero()) ==> counted(seq![one]).len() == 0,
        no_amount(one) ==> counted(seq![one]).len() == 0,
{
    lemma_counted_parts(a, b);
    assert(seq![one].drop_last() =~= Seq::empty());
    reveal_with_fuel(counted, 2);
    if amounts_to(one, d) && !at_most(d, zero()) {
        assert(counted(seq![one]) =~= seq![(one.0@, d)]);
    }
}

proof fn lemma_counted_parts(a: Seq<(String, Json)>, b: Seq<(String, Json)>)
    ensures
        counted(a + b) == counted(a) + counted(b),
    decreases b.len(),
{
    if b.len() == 0 {
        assert(a + b =~= a);
        assert(counted(a) + counted(b) =~= counted(a));
    } else {
        assert((a + b).drop_last() =~= a + b.drop_last());
        lemma_counted_parts(a, b.drop_last());
        assert(counted(a + b) =~= counted(a) + counted(b));
    }
}

/// Every member of the answer with an amount above zero is counted, once, with
/// that amount, between what comes before and after it.
pub proof fn law_every_holding_is_counted(
    members: Seq<(String, Json)>,
    i: int,
    d: Double,
)
    requires
        0 <= i < members.len(),
        amounts_to(members[i], d),
        positive(d),
    ensures
        counted(members) == counted(members.take(i)) + seq![(members[i].0@, d)] + counted(
            members.skip(i + 1),
        ),
        counted(members).contains((members[i].0@, d)),
{
    let (before, after) = (members.take(i), members.skip(i + 1));
    let one = seq![members[i]];
    assert(members =~= before + one + after);
    law_counting_goes_member_by_member(before, one, members[i], d);
    law_counting_goes_member_by_member(before + one, after, members[i], d);
    let all = counted(members);
    assert(all[counted(before).len() as int] == (members[i].0@, d));
}

/// Nothing else is counted: each amount in the list is that of a member of its
/// name, and it is not zero or less.
pub proof fn law_only_holdings_are_counted(members: Seq<(String, Json)>, j: int)
    requires
        0 <= j < counted(members).len(),
    ensures
        exists|i: int|
            0 <= i < members.len() && #[trigger] members[i].0@ == counted(members)[j].0
                && amounts_to(members[i], counted(members)[j].1),
        !at_most(counted(members)[j].1, zero()),
    decreases members.len(),
{
    let last = members.len() - 1;
    let rest = members.drop_last();
    if j < counted(rest).len() {
        assert(counted(members)[j] == counted(rest)[j]);
        law_only_holdings_are_counted(rest, j);
        let i = choose|i: int|
            0 <= i < rest.len() && #[trigger] rest[i].0@ == counted(rest)[j].0 && amounts_to(
                rest[i],
                counted(rest)[j].1,
            );
        assert(members[i] == rest[i]);
    } else {
        assert(counted(members)[j].0 == members[last].0@);
        assert(amounts_to(members[last], counted(members)[j].1));
    }
}

/// Where no asset is named twice, what an asset holds is its amount exactly
/// where that is above zero; an asset that the answer does not name, or that
/// it names with no such amount, holds nothing.
pub proof fn law_holdings_are_the_amounts(members: Seq<(String, Json)>, i: int, d: Double)
    requires
        0 <= i < members.len(),
        forall|j: int, k: int|
            0 <= j < k < members.len() ==> (#[trigger] members[j]).0@ != (
            #[trigger] members[k]).0@,
    ensures
        amounts_to(members[i], d) && positive(d) ==> holdings(members).contains_key(
            members[i].0@,
        ) && holdings(members)[members[i].0@] == d,
        amounts_to(members[i], d) && !positive(d) ==> !holdings(members).contains_key(
            members[i].0@,
        ),
        no_amount(members[i]) ==> !holdings(members).contains_key(members[i].0@),
    decreases members.len(),
{
    let rest = members.drop_last();
    let last = members.len() - 1;
    assert forall|j: int, k: int| 0 <= j < k < rest.len() implies (#[trigger] rest[j]).0@ != (
    #[trigger] rest[k]).0@ by {
        assert(rest[j] == members[j] && rest[k] == members[k]);
    }
    if i < last {
        assert(rest[i] == members[i]);
        assert(members[i].0@ != members[last].0@);
        law_holdings_are_the_amounts(rest, i, d);
    } else {
        assert forall|j: int| 0 <= j < rest.len() implies (#[trigger] rest[j]).0@
            != members[last].0@ by {
            assert(rest[j] == members[j]);
        }
        law_unnamed_asset_holds_nothing(rest, members[last].0@);
    }
}

/// An asset that the answer does not name holds nothing.
pub proof fn law_unnamed_asset_holds_nothing(members: Seq<(String, Json)>, asset: Seq<char>)
    requires
        forall|j: int| 0 <= j < members.len() ==> (#[trigger] members[j]).0@ != asset,
    ensures
        !holdings(members).contains_key(asset),
    decreases members.len(),
{
    if members.len() > 0 {
        let rest = members.drop_last();
        assert forall|j: int| 0 <= j < rest.len() implies (#[trigger] rest[j]).0@ != asset by {
            assert(rest[j] == members[j]);
        }
        assert(members[members.len() - 1].0@ != asset);
        law_unnamed_asset_holds_nothing(rest, asset);
    }
}

/// What each asset is quoted at in dollars, where it is.
pub type Quotes = spec_fn(Seq<char>) -> Option<Double>;

/// What amounts are worth together: dollars as they are, every other asset
/// with a quote by amount times quote.
pub open spec fn worth(list: Amounts, quotes: Quotes) -> Double
    decreases list.len(),
{
    if list.len() == 0 {
        zero()
    } else {
        let so_far = worth(list.drop_last(), quotes);
        let (asset, amount) = list.last();
        if asset == "ZUSD"@ || asset == "USD"@ {
            sum(so_far, amount)
        } else if quotes(asset) is Some {
            sum(so_far, product(amount, quotes(asset)->Some_0))
        } else {
            so_far
        }
    }
}

/// Steps of finding the total.
pub type TotalStep = StepView<TotalView, Result<Double, ErrorView>>;

/// Whether a trace goes on from its step `i` by an answer.
pub open spec fn total_follows(
    trace: Seq<(TraderView, TotalStep)>,
    answers: Answers,
    i: int,
) -> bool {
    match trace[i].1 {
        StepView::Call(_, v, _) => trace[i + 1] == total_step(trace[i].0, v, answers(i as nat)),
        StepView::Done(_, _) => false,
    }
}

/// Whether a step that asks for a price is answered by the quote of the asset.
pub open spec fn answered(s: TotalStep, sent: Result<Json, String>, quotes: Quotes) -> bool {
    match s {
        StepView::Call(_, TotalView::Pricing(rest, _), _) => match ticker_price(sent) {
            Ok(price) => quotes(rest[0].0) == Some(price),
            Err(_) => quotes(rest[0].0) is None,
        },
        _ => true,
    }
}

/// Whether `trace` is a whole call that finds the total, in which every price
/// that is asked for is answered by the quote.
pub open spec fn total_run(
    t: TraderView,
    trace: Seq<(TraderView, TotalStep)>,
    answers: Answers,
    quotes: Quotes,
) -> bool {
    &&& trace.len() > 1
    &&& trace[0] == (
        t,
        TotalStep::Call(0, TotalView::Listing, CallView::Private("Balance"@, Pairs::empty())),
    )
    &&& forall|i: int| 0 <= i < trace.len() - 1 ==> #[trigger] total_follows(trace, answers, i)
    &&& forall|i: int|
        0 <= i < trace.len() ==> answered((#[trigger] trace[i]).1, answers(i as nat), quotes)
    &&& trace.last().1 is Done
}

/// Whether finding the total stands between what was added up and the rest of
/// all amounts, or is done with them.
spec fn half_way(s: (TraderView, TotalStep), all: Amounts, quotes: Quotes) -> bool {
    match s.1 {
        StepView::Call(_, TotalView::Pricing(rest, total), call) => {
            &&& 0 < rest.len() <= all.len()
            &&& rest == all.skip(all.len() - rest.len())
            &&& total == worth(all.take(all.len() - rest.len()), quotes)
            &&& rest[0].0 != "ZUSD"@ && rest[0].0 != "USD"@
            &&& call == s.0.ticker_call(dollar_pair(rest[0].0))
        },
        StepView::Call(_, _, _) => false,
        StepView::Done(_, r) => {
            &&& r == Result::<Double, ErrorView>::Ok(worth(all, quotes))
            &&& s.0.account.balance == worth(all, quotes)
            &&& s.0.account.equity == worth(all, quotes)
        },
    }
}

proof fn lemma_total_next(t: TraderView, all: Amounts, at: int, quotes: Quotes)
    requires
        0 <= at <= all.len(),
    ensures
        half_way(total_next(t, all.skip(at), worth(all.take(at), quotes)), all, quotes),
    decreases all.len() - at,
{
    let rest = all.skip(at);
    if at == all.len() {
        assert(all.take(at) =~= all);
    } else {
        assert(rest[0] == all[at]);
        if rest[0].0 == "ZUSD"@ || rest[0].0 == "USD"@ {
            assert(all.take(at + 1).drop_last() =~= all.take(at));
            assert(rest.skip(1) =~= all.skip(at + 1));
            lemma_total_next(t, all, at + 1, quotes);
        }
    }
}

proof fn lemma_half_way(
    t: TraderView,
    trace: Seq<(TraderView, TotalStep)>,
    answers: Answers,
    quotes: Quotes,
    members: Seq<(String, Json)>,
    i: int,
)
    requires
        total_run(t, trace, answers, quotes),
        result_members(answers(0)) == Result::<Seq<(String, Json)>, ErrorView>::Ok(members),
        0 < i < trace.len(),
    ensures
        half_way(trace[i], counted(members), quotes),
    decreases i,
{
    let all = counted(members);
    assert(total_follows(trace, answers, i - 1));
    if i == 1 {
        assert(all.take(0) =~= Seq::empty());
        assert(all.skip(0) =~= all);
        lemma_total_next(t, all, 0, quotes);
    } else {
        lemma_half_way(t, trace, answers, quotes, members, i - 1);
        assert(answered(trace[i - 1].1, answers((i - 1) as nat), quotes));
        match trace[i - 1].1 {
            StepView::Call(_, TotalView::Pricing(rest, total), _) => {
                let at = all.len() - rest.len();
                assert(rest[0] == all[at]);
                assert(all.take(at + 1).drop_last() =~= all.take(at));
                assert(rest.skip(1) =~= all.skip(at + 1));
                lemma_total_next(trace[i - 1].0, all, at + 1, quotes);
            },
            _ => {},
        }
    }
}

/// The total that a whole call comes to is what all amounts above zero are
/// worth together, and it becomes the balance and the equity. Each asset that
/// is not dollars is asked for by its dollar pair, in turn.
pub proof fn law_total_is_what_all_is_worth(
    t: TraderView,
    trace: Seq<(TraderView, TotalStep)>,
    answers: Answers,
    quotes: Quotes,
    members: Seq<(String, Json)>,
)
    requires
        total_run(t, trace, answers, quotes),
        result_members(answers(0)) == Result::<Seq<(String, Json)>, ErrorView>::Ok(members),
    ensures
        trace.last().1 matches StepView::Done(_, Ok(total)) && {
            &&& total == worth(counted(members), quotes)
            &&& trace.last().0.account.balance == total
            &&& trace.last().0.account.equity == total
        },
        forall|i: int|
            #![trigger trace[i]]
            0 < i < trace.len() ==> (trace[i].1 matches StepView::Call(
                _,
                TotalView::Pricing(rest, _),
                call,
            ) ==> call == trace[i].0.ticker_call(dollar_pair(rest[0].0))),
{
    lemma_half_way(t, trace, answers, quotes, members, trace.len() - 1);
    assert forall|i: int|
        #![trigger trace[i]]
        0 < i < trace.len() implies (trace[i].1 matches StepView::Call(
        _,
        TotalView::Pricing(rest, _),
        call,
    ) ==> call == trace[i].0.ticker_call(dollar_pair(rest[0].0))) by {
        lemma_half_way(t, trace, answers, quotes, members, i);
    }
}

/// The dollar pair of bitcoin and of ether, under each of their names, is the
/// one that is traded; that of every other asset is its name without the
/// exchange's leading letters, against the dollar.
pub proof fn law_dollar_pair_of_an_asset(asset: Seq<char>)
    ensures
        asset == "XXBT"@ || asset == "XBT"@ ==> dollar_pair(asset) == "BTC/USD"@,
        asset == "XETH"@ || asset == "ETH"@ ==> dollar_pair(asset) == "ETH/USD"@,
        asset != "XXBT"@ && asset != "XBT"@ && asset != "XETH"@ && asset != "ETH"@ ==> exists|
            i: nat,
            j: nat,
            name: Seq<char>,
        |
            {
                &&& asset == #[trigger] led_by(i, j, name)
                &&& name.len() > 0 ==> name[0] != 'Z'
                &&& j == 0 && name.len() > 0 ==> name[0] != 'X'
                &&& dollar_pair(asset) == canonical(name) + "/USD"@
            },
{
    reveal_strlit("XXBT");
    reveal_strlit("XBT");
    reveal_strlit("XETH");
    reveal_strlit("ETH");
    assert("XXBT"@[1] == 'X' && "XETH"@[1] == 'E');
    assert("XBT"@[0] == 'X' && "ETH"@[0] == 'E');
    lemma_trimmed(asset, 'X');
    let rest = trimmed(asset, 'X');
    lemma_trimmed(rest, 'Z');
    let name = trimmed(rest, 'Z');
    let i = (asset.len() - rest.len()) as nat;
    let j = (rest.len() - name.len()) as nat;
    assert(asset =~= led_by(i, j, name));
}

/// `i` times X, `j` times Z, then the name.
pub open spec fn led_by(i: nat, j: nat, name: Seq<char>) -> Seq<char> {
    Seq::new(i, |k: int| 'X') + Seq::new(j, |k: int| 'Z') + name
}

pub proof fn lemma_trimmed(s: Seq<char>, c: char)
    ensures
        trimmed(s, c).len() <= s.len(),
        s == Seq::new((s.len() - trimmed(s, c).len()) as nat, |k: int| c) + trimmed(s, c),
        trimmed(s, c).len() > 0 ==> trimmed(s, c)[0] != c,
    decreases s.len(),
{
    if s.len() > 0 && s[0] == c {
        lemma_trimmed(s.skip(1), c);
        let rest = trimmed(s, c);
        let n = (s.len() - rest.len()) as nat;
        let short = Seq::new((n - 1) as nat, |k: int| c) + rest;
        assert(s.skip(1) == short);
        assert(s =~= Seq::new(n, |k: int| c) + rest) by {
            assert forall|k: int| 0 < k < s.len() implies s[k] == (Seq::new(n, |k: int| c)
                + rest)[k] by {
                assert(s[k] == s.skip(1)[k - 1]);
                assert(short[k - 1] == (Seq::new(n, |k: int| c) + rest)[k]);
            }
        }
    } else {
        assert(s =~= Seq::new(0, |k: int| c) + s);
    }
}


/// The raw balance is what the members of the answer hold; an answer without
/// members gives none, and says why.
pub proof fn law_raw_balance_is_what_the_answer_holds(sent: Result<Json, String>)
    ensures
        match result_members(sent) {
            Ok(m) => raw_balance_end(sent) == Result::<Map<Seq<char>, Double>, ErrorView>::Ok(
                holdings(m),
            ),
            Err(e) => raw_balance_end(sent) == Result::<Map<Seq<char>, Double>, ErrorView>::Err(e),
        },
{
}

/// Where the answer lists nothing that can be counted, finding the total ends
/// with why, and the balance stays.
pub proof fn law_total_without_a_listing(t: TraderView, sent: Result<Json, String>)
    ensures
        result_members(sent) matches Err(e) ==> total_step(t, TotalView::Listing, sent) == (
            t,
            TotalStep::Done(0, Err(e)),
        ),
{
}

} // verus!
