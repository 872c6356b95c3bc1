//! Whole calls, from the first step to the result.
use crate::clock::Timestamp;
use crate::close::{close_start, close_step, closing_of, CloseTrade};
use crate::double::{positive, Double};
use crate::error::ErrorView;
use crate::exits::{
    after_stops, after_targets, close_next, due, exits_start, exits_step, CheckedView,
    ExitsStep, ExitsView,
};
use crate::json::Json;
use crate::laws::books::{
    books, exited, found, law_checking_begins_with_clean_books, law_checking_books_what_it_gives,
    law_found_trades_are_real, law_reconciling_begins_with_clean_books,
    law_reconciling_books_what_it_finds,
};
use crate::laws::fills::Answers;
use crate::laws::orders::law_local_exit_only_where_nothing_rests;
use crate::reconcile::{listed, tracking, ReconcileStep, ReconcileView};
use crate::request::{CallView, Pairs, StepView};
use crate::table::enumerates;
use crate::trader::{PositionView, TradeView, TraderView};
use crate::types::Leg;
use vstd::prelude::*;

verus! {

/// When each answer comes.
pub type Times = spec_fn(nat) -> Timestamp;

/// Positions by name.
pub type Positions = Map<Seq<char>, PositionView>;

/// Whether a trade tells of a position.
pub open spec fn tells_of(trade: TradeView, pos: PositionView) -> bool {
    &&& trade.pair == pos.pair
    &&& trade.side == pos.side
    &&& trade.entry_price == pos.entry_price
    &&& trade.strategy_name == pos.strategy_name
    &&& trade.opened_at == pos.opened_at
}

/// Whether exactly the positions `gone` have left from `before` to `after`,
/// none of them twice, and `trades` tells of each of them, in that order.
pub open spec fn closes(
    before: Positions,
    after: Positions,
    trades: Seq<TradeView>,
    gone: Seq<Seq<char>>,
) -> bool {
    &&& gone.no_duplicates()
    &&& gone.len() == trades.len()
    &&& forall|i: int|
        0 <= i < gone.len() ==> before.contains_key(#[trigger] gone[i]) && tells_of(
            trades[i],
            before[gone[i]],
        )
    &&& forall|id: Seq<char>| #[trigger]
        after.contains_key(id) <==> before.contains_key(id) && !gone.contains(id)
    &&& after.submap_of(before)
}

proof fn lemma_closes_none(p: Positions)
    ensures
        closes(p, p, Seq::empty(), Seq::empty()),
{
}

proof fn lemma_closes_one_more(
    before: Positions,
    after: Positions,
    trades: Seq<TradeView>,
    gone: Seq<Seq<char>>,
    id: Seq<char>,
    trade: TradeView,
)
    requires
        closes(before, after, trades, gone),
        after.contains_key(id),
        tells_of(trade, after[id]),
    ensures
        closes(before, after.remove(id), trades.push(trade), gone.push(id)),
{
    let all = trades.push(trade);
    let more = gone.push(id);
    assert(!gone.contains(id));
    assert forall|i: int, j: int|
        0 <= i < more.len() && 0 <= j < more.len() && i != j implies more[i] != more[j] by {
        if i < gone.len() && j == gone.len() {
            assert(gone.contains(gone[i]));
        } else if j < gone.len() && i == gone.len() {
            assert(gone.contains(gone[j]));
        }
    }
    assert forall|i: int| 0 <= i < more.len() implies before.contains_key(#[trigger] more[i])
        && tells_of(all[i], before[more[i]]) by {
        if i < gone.len() {
            assert(more[i] == gone[i]);
        }
    }
    assert forall|k: Seq<char>| #[trigger]
        after.remove(id).contains_key(k) <==> before.contains_key(k) && !more.contains(k) by {
        assert(more[gone.len() as int] == id);
        if gone.contains(k) {
            let i = choose|i: int| 0 <= i < gone.len() && gone[i] == k;
            assert(more[i] == k);
        }
        if more.contains(k) && k != id {
            let i = choose|i: int| 0 <= i < more.len() && more[i] == k;
            assert(gone[i] == k);
        }
    }
}

proof fn lemma_closes_count(
    before: Positions,
    after: Positions,
    trades: Seq<TradeView>,
    gone: Seq<Seq<char>>,
)
    requires
        closes(before, after, trades, gone),
        before.dom().finite(),
    ensures
        after.dom().finite(),
        after.len() + trades.len() == before.len(),
{
    gone.unique_seq_to_set();
    let left = gone.to_set();
    assert(left.subset_of(before.dom())) by {
        assert forall|k: Seq<char>| left.contains(k) implies before.dom().contains(k) by {
            let i = choose|i: int| 0 <= i < gone.len() && gone[i] == k;
            assert(before.contains_key(gone[i]));
        }
    }
    assert(after.dom() =~= before.dom().difference(left)) by {
        assert forall|k: Seq<char>|
            after.dom().contains(k) <==> before.dom().difference(left).contains(k) by {
            assert(after.contains_key(k) <==> before.contains_key(k) && !gone.contains(k));
        }
    }
    vstd::set_lib::lemma_set_difference_len(before.dom(), left);
    assert(before.dom().intersect(left) =~= left);
}

/// Whether a step of looking for filled orders follows from the one before it.
pub open spec fn reconcile_follows(
    trace: Seq<(TraderView, ReconcileStep)>,
    answers: Answers,
    times: Times,
    i: int,
) -> bool {
    match trace[i].1 {
        StepView::Call(_, v, _) => trace[i].0.order_counter < u64::MAX && trace[i + 1] == v.step(
            trace[i].0,
            answers(i as nat),
            times(i as nat),
        ),
        StepView::Done(_, _) => false,
    }
}

/// Whether `trace` is a whole call that looks for filled orders of one kind:
/// the trader and the step, at the start and after every answer.
pub open spec fn reconcile_run(
    t: TraderView,
    leg: Leg,
    trace: Seq<(TraderView, ReconcileStep)>,
    answers: Answers,
    times: Times,
) -> bool {
    &&& trace.len() > 0
    &&& exists|order: Seq<Seq<char>>|
        #[trigger] enumerates(order, t.legs(leg).dom()) && trace[0] == (
            t,
            tracking(t, leg, order).ask(),
        )
    &&& forall|i: int|
        0 <= i < trace.len() - 1 ==> #[trigger] reconcile_follows(trace, answers, times, i)
    &&& trace.last().1 is Done
}

/// Whether a call asks about orders or cancels them, and so places none.
pub open spec fn places_nothing(call: CallView) -> bool {
    call matches CallView::Private(endpoint, _) && endpoint != "AddOrder"@ && (endpoint
        == "QueryOrders"@ || endpoint == "CancelOrder"@)
}

/// What holds all along such a call.
spec fn reconcile_at(
    t: TraderView,
    leg: Leg,
    s: (TraderView, ReconcileStep),
    gone: Seq<Seq<char>>,
) -> bool {
    &&& books(t, s.0, found(s.1))
    &&& closes(t.positions, s.0.positions, found(s.1), gone)
    &&& forall|i: int| 0 <= i < gone.len() ==> t.legs(leg).contains_key(#[trigger] gone[i])
    &&& forall|i: int|
        0 <= i < found(s.1).len() ==> positive((#[trigger] found(s.1)[i]).quantity)
    &&& s.1 matches StepView::Call(_, v, call) ==> {
        &&& v.rest.len() > 0
        &&& forall|i: int|
            0 <= i < v.rest.len() ==> t.legs(leg).contains_key((#[trigger] v.rest[i]).0)
        &&& v.filled matches Some(f) ==> positive(f.volume)
        &&& places_nothing(call)
    }
}

proof fn lemma_endpoints()
    ensures
        "QueryOrders"@ != "AddOrder"@,
        "CancelOrder"@ != "AddOrder"@,
{
    reveal_strlit("QueryOrders");
    reveal_strlit("CancelOrder");
    reveal_strlit("AddOrder");
    assert("QueryOrders"@.len() != "AddOrder"@.len());
    assert("CancelOrder"@.len() != "AddOrder"@.len());
}

/// What an answer does to the positions while filled orders are looked for.
proof fn lemma_reconcile_closes(
    p: Positions,
    t: TraderView,
    before: Seq<TradeView>,
    v: ReconcileView,
    sent: Result<Json, String>,
    now: Timestamp,
    gone: Seq<Seq<char>>,
) -> (more: Seq<Seq<char>>)
    requires
        v.rest.len() > 0,
        closes(p, t.positions, before + v.closed, gone),
    ensures
        closes(p, v.step(t, sent, now).0.positions, before + found(v.step(t, sent, now).1), more),
        more == gone || more == gone.push(v.rest[0].0),
{
    let id = v.rest[0].0;
    let next = v.step(t, sent, now);
    if t.positions.contains_key(id) && !next.0.positions.contains_key(id) {
        let trade = found(next.1).last();
        assert(found(next.1) == v.closed.push(trade));
        assert((before + v.closed).push(trade) =~= before + v.closed.push(trade));
        assert(next.0.positions == t.positions.remove(id));
        lemma_closes_one_more(p, t.positions, before + v.closed, gone, id, trade);
        gone.push(id)
    } else {
        assert(found(next.1) == v.closed);
        assert(next.0.positions == t.positions);
        gone
    }
}

proof fn lemma_reconcile_step(
    t: TraderView,
    leg: Leg,
    s: (TraderView, ReconcileStep),
    sent: Result<Json, String>,
    now: Timestamp,
    gone: Seq<Seq<char>>,
) -> (more: Seq<Seq<char>>)
    requires
        reconcile_at(t, leg, s, gone),
        s.0.order_counter < u64::MAX,
        s.1 is Call,
    ensures
        s.1 matches StepView::Call(_, v, _) && reconcile_at(
            t,
            leg,
            v.step(s.0, sent, now),
            more,
        ),
{
    match s.1 {
        StepView::Call(_, v, _) => {
            let next = v.step(s.0, sent, now);
            let none = Seq::<TradeView>::empty();
            assert(none + v.closed =~= v.closed);
            assert(none + found(next.1) =~= found(next.1));
            law_reconciling_books_what_it_finds(t, s.0, v, sent, now);
            law_found_trades_are_real(s.0, v, sent, now);
            lemma_endpoints();
            let more = lemma_reconcile_closes(t.positions, s.0, none, v, sent, now, gone);
            assert(t.legs(leg).contains_key(v.rest[0].0));
            assert forall|i: int| 0 <= i < more.len() implies t.legs(leg).contains_key(
                #[trigger] more[i],
            ) by {
                if i < gone.len() {
                    assert(more[i] == gone[i]);
                }
            }
            match next.1 {
                StepView::Call(_, w, call) => {
                    assert(w.rest == v.rest || w.rest == v.rest.skip(1));
                    assert forall|i: int| 0 <= i < w.rest.len() implies t.legs(leg).contains_key(
                        (#[trigger] w.rest[i]).0,
                    ) by {
                        if w.rest == v.rest.skip(1) {
                            assert(w.rest[i] == v.rest[i + 1]);
                        }
                    }
                },
                StepView::Done(_, _) => {},
            }
            more
        },
        StepView::Done(_, _) => gone,
    }
}

proof fn lemma_reconcile_run(
    t: TraderView,
    leg: Leg,
    trace: Seq<(TraderView, ReconcileStep)>,
    answers: Answers,
    times: Times,
    i: int,
) -> (gone: Seq<Seq<char>>)
    requires
        reconcile_run(t, leg, trace, answers, times),
        0 <= i < trace.len(),
    ensures
        reconcile_at(t, leg, trace[i], gone),
    decreases i,
{
    if i == 0 {
        let order = choose|order: Seq<Seq<char>>|
            #[trigger] enumerates(order, t.legs(leg).dom()) && trace[0] == (
                t,
                tracking(t, leg, order).ask(),
            );
        law_reconciling_begins_with_clean_books(t, leg, order);
        lemma_closes_none(t.positions);
        lemma_endpoints();
        let rest = listed(t.legs(leg), order);
        assert forall|j: int| 0 <= j < rest.len() implies t.legs(leg).contains_key(
            (#[trigger] rest[j]).0,
        ) by {
            assert(order.to_set().contains(order[j]));
        }
        assert(found(trace[0].1) == Seq::<TradeView>::empty());
        Seq::empty()
    } else {
        let before = lemma_reconcile_run(t, leg, trace, answers, times, i - 1);
        assert(reconcile_follows(trace, answers, times, i - 1));
        lemma_reconcile_step(
            t,
            leg,
            trace[i - 1],
            answers((i - 1) as nat),
            times((i - 1) as nat),
            before,
        )
    }
}

/// A whole call that looks for filled orders of one kind. The trades that it
/// gives back are appended to the closed trades and numbered on from the
/// counter, and what they gained is credited to balance and day, one after the
/// other. Exactly as many positions leave, one for each trade, each of them one
/// for which such an order rested. Every trade has a volume that was executed.
/// No order is placed.
pub proof fn law_reconciling_as_a_whole(
    t: TraderView,
    leg: Leg,
    trace: Seq<(TraderView, ReconcileStep)>,
    answers: Answers,
    times: Times,
)
    requires
        reconcile_run(t, leg, trace, answers, times),
    ensures
        ({
            let end = trace.last().0;
            let result = found(trace.last().1);
            &&& books(t, end, result)
            &&& exists|gone: Seq<Seq<char>>|
                {
                    &&& #[trigger] closes(t.positions, end.positions, result, gone)
                    &&& forall|i: int|
                        0 <= i < gone.len() ==> t.legs(leg).contains_key(#[trigger] gone[i])
                }
            &&& t.positions.dom().finite() ==> end.positions.len() + result.len()
                == t.positions.len()
            &&& forall|i: int|
                0 <= i < result.len() ==> positive((#[trigger] result[i]).quantity)
        }),
        forall|i: int|
            0 <= i < trace.len() ==> ((#[trigger] trace[i]).1 matches StepView::Call(_, _, call)
                ==> places_nothing(call)),
{
    let n = trace.len() - 1;
    let gone = lemma_reconcile_run(t, leg, trace, answers, times, n);
    let end = trace.last().0;
    let result = found(trace.last().1);
    assert(closes(t.positions, end.positions, result, gone));
    if t.positions.dom().finite() {
        lemma_closes_count(t.positions, end.positions, result, gone);
    }
    assert forall|i: int| 0 <= i < trace.len() implies (
    (#[trigger] trace[i]).1 matches StepView::Call(_, _, call) ==> places_nothing(call)) by {
        let _ = lemma_reconcile_run(t, leg, trace, answers, times, i);
    }
}

/// Whether the names in a queue are different from each other and from `id`.
pub open spec fn queued_once(rest: Pairs, id: Seq<char>) -> bool {
    &&& forall|i: int| 0 <= i < rest.len() ==> (#[trigger] rest[i]).0 != id
    &&& names_differ(rest)
}

/// Whether the names in a queue are different from each other.
pub open spec fn names_differ(rest: Pairs) -> bool {
    forall|i: int, j: int|
        0 <= i < j < rest.len() ==> (#[trigger] rest[i]).0 != (#[trigger] rest[j]).0
}

/// Whether a step of checking stops and targets follows from the one before
/// it.
pub open spec fn exits_follows(
    trace: Seq<(TraderView, ExitsStep)>,
    answers: Answers,
    times: Times,
    i: int,
) -> bool {
    match trace[i].1 {
        StepView::Call(_, v, _) => trace[i].0.order_counter < u64::MAX && exits_step(
            trace[i].0,
            v,
            answers(i as nat),
            times(i as nat),
            trace[i + 1],
        ),
        StepView::Done(_, _) => false,
    }
}

/// Whether `trace` is a whole call that checks stops and targets: the trader
/// and the step, at the start and after every answer.
pub open spec fn exits_run(
    t: TraderView,
    prices: Map<Seq<char>, Double>,
    trace: Seq<(TraderView, ExitsStep)>,
    answers: Answers,
    times: Times,
) -> bool {
    &&& trace.len() > 0
    &&& exits_start(t, prices, trace[0])
    &&& forall|i: int|
        0 <= i < trace.len() - 1 ==> #[trigger] exits_follows(trace, answers, times, i)
    &&& trace.last().1 is Done
}

/// Whether the positions that a queue names are all there.
pub open spec fn all_there(p: Positions, rest: Pairs) -> bool {
    forall|i: int| 0 <= i < rest.len() ==> p.contains_key((#[trigger] rest[i]).0)
}

/// The positions that could not be closed so far, each with why.
pub open spec fn failed_of(s: ExitsStep) -> Seq<(Seq<char>, ErrorView)> {
    match s {
        StepView::Call(_, ExitsView::Closing(_, closed, _), _) => closed.failed,
        StepView::Call(_, _, _) => Seq::empty(),
        StepView::Done(_, r) => r.failed,
    }
}

/// Whether a position is there and, now that positions are closed locally, is
/// neither being closed nor in the queue.
pub open spec fn left_alone(s: (TraderView, ExitsStep), id: Seq<char>) -> bool {
    &&& s.0.positions.contains_key(id)
    &&& match s.1 {
        StepView::Call(_, ExitsView::Closing(rest, _, c), _) => {
            &&& closing_of(c).id != id
            &&& forall|i: int| 0 <= i < rest.len() ==> (#[trigger] rest[i]).0 != id
        },
        StepView::Call(_, _, _) => false,
        StepView::Done(_, _) => true,
    }
}

/// What is known of what such a call waits for.
spec fn in_order(s: (TraderView, ExitsStep)) -> bool {
    match s.1 {
        StepView::Call(_, ExitsView::Stops(_, r), _) => r.rest.len() > 0 && (r.filled matches Some(
            f,
        ) ==> positive(f.volume)),
        StepView::Call(_, ExitsView::Targets(_, _, r), _) => r.rest.len() > 0 && (
        r.filled matches Some(f) ==> positive(f.volume)),
        StepView::Call(_, ExitsView::Closing(rest, _, c), _) => {
            let id = closing_of(c).id;
            &&& s.0.positions.contains_key(id)
            &&& s.0.positions[id] == closing_of(c).pos
            &&& queued_once(rest, id)
            &&& all_there(s.0.positions, rest)
        },
        StepView::Done(_, _) => true,
    }
}

/// What holds all along such a call.
spec fn exits_at(t: TraderView, s: (TraderView, ExitsStep), gone: Seq<Seq<char>>) -> bool {
    &&& books(t, s.0, exited(s.1))
    &&& closes(t.positions, s.0.positions, exited(s.1), gone)
    &&& forall|i: int|
        0 <= i < exited(s.1).len() ==> positive((#[trigger] exited(s.1)[i]).quantity)
    &&& in_order(s)
    &&& failures_left_alone(s)
}

/// Whether the positions that could not be closed are there and are not tried
/// again.
spec fn failures_left_alone(s: (TraderView, ExitsStep)) -> bool {
    forall|i: int| 0 <= i < failed_of(s.1).len() ==> left_alone(s, (#[trigger] failed_of(s.1)[i]).0)
}

/// Beginning to close the next in the queue changes no position.
proof fn lemma_close_next(t: TraderView, rest: Pairs, closed: CheckedView)
    requires
        names_differ(rest),
        all_there(t.positions, rest),
        forall|i: int|
            0 <= i < closed.failed.len() ==> t.positions.contains_key(
                (#[trigger] closed.failed[i]).0,
            ) && not_in(rest, closed.failed[i].0),
    ensures
        ({
            let next = close_next(t, rest, closed);
            &&& next.0.positions == t.positions
            &&& exited(next.1) == closed.closed
            &&& in_order(next)
            &&& failures_left_alone(next)
            &&& forall|x: (Seq<char>, ErrorView)| #[trigger]
                closed.failed.contains(x) ==> failed_of(next.1).contains(x)
            &&& match next.1 {
                StepView::Call(_, ExitsView::Closing(less, _, c), _) => {
                    &&& less.len() < rest.len()
                    &&& less == rest.skip(rest.len() - less.len())
                    &&& closing_of(c).id == rest[rest.len() - less.len() - 1].0
                },
                StepView::Call(_, _, _) => false,
                StepView::Done(_, _) => true,
            }
        }),
    decreases rest.len(),
{
    if rest.len() > 0 {
        let id = rest[0].0;
        let begun = close_start(t, id, rest[0].1);
        let tail = rest.skip(1);
        assert forall|i: int| 0 <= i < tail.len() implies tail[i] == rest[i + 1] by {}
        assert(names_differ(tail)) by {
            assert forall|i: int, j: int|
                0 <= i < j < tail.len() implies (#[trigger] tail[i]).0 != (
            #[trigger] tail[j]).0 by {
                assert(rest[i + 1].0 != rest[j + 1].0);
            }
        }
        assert(all_there(t.positions, tail)) by {
            assert forall|i: int| 0 <= i < tail.len() implies t.positions.contains_key(
                (#[trigger] tail[i]).0,
            ) by {
                assert(t.positions.contains_key(rest[i + 1].0));
            }
        }
        assert(t.positions.contains_key(rest[0].0));
        assert(not_in(tail, id)) by {
            assert forall|i: int| 0 <= i < tail.len() implies (#[trigger] tail[i]).0 != id by {
                assert(rest[0].0 != rest[i + 1].0);
            }
        }
        assert forall|i: int| 0 <= i < closed.failed.len() implies not_in(
            tail,
            (#[trigger] closed.failed[i]).0,
        ) && closed.failed[i].0 != id by {
            assert(rest[0].0 != closed.failed[i].0);
            assert forall|j: int| 0 <= j < tail.len() implies (#[trigger] tail[j]).0
                != closed.failed[i].0 by {
                assert(rest[j + 1].0 != closed.failed[i].0);
            }
        }
        match begun.1 {
            Ok((c, _)) => {
                assert(closing_of(c).id == id);
            },
            Err(e) => {
                let more = closed.with(id, Err(e));
                assert forall|i: int| 0 <= i < more.failed.len() implies t.positions.contains_key(
                    (#[trigger] more.failed[i]).0,
                ) && not_in(tail, more.failed[i].0) by {
                    if i < closed.failed.len() {
                        assert(more.failed[i] == closed.failed[i]);
                    }
                }
                lemma_close_next(begun.0, tail, more);
                let next = close_next(begun.0, tail, more);
                assert forall|x: (Seq<char>, ErrorView)| #[trigger]
                    closed.failed.contains(x) implies failed_of(next.1).contains(x) by {
                    let i = choose|i: int| 0 <= i < closed.failed.len() && closed.failed[i] == x;
                    assert(more.failed[i] == x);
                    assert(more.failed.contains(x));
                }
                match next.1 {
                    StepView::Call(_, ExitsView::Closing(less, _, c), _) => {
                        assert(tail.skip(tail.len() - less.len()) =~= rest.skip(
                            rest.len() - less.len(),
                        ));
                    },
                    _ => {},
                }
            },
        }
    }
}

/// Whether a queue does not name `id`.
pub open spec fn not_in(rest: Pairs, id: Seq<char>) -> bool {
    forall|i: int| 0 <= i < rest.len() ==> (#[trigger] rest[i]).0 != id
}

proof fn lemma_due_names_differ(
    t: TraderView,
    prices: Map<Seq<char>, Double>,
    order: Seq<Seq<char>>,
)
    requires
        enumerates(order, t.positions.dom()),
    ensures
        names_differ(due(t, prices, order)),
        all_there(t.positions, due(t, prices, order)),
{
    let rest = due(t, prices, order);
    assert forall|i: int| 0 <= i < rest.len() implies t.positions.contains_key(
        (#[trigger] rest[i]).0,
    ) by {
        law_local_exit_only_where_nothing_rests(t, prices, order, i);
    }
    assert forall|i: int, j: int| 0 <= i < j < rest.len() implies (#[trigger] rest[i]).0 != (
    #[trigger] rest[j]).0 by {
        law_local_exit_only_where_nothing_rests(t, prices, order, i);
    }
}

proof fn lemma_after_targets(
    t: TraderView,
    prices: Map<Seq<char>, Double>,
    before: Seq<TradeView>,
    s: ReconcileStep,
    out: (TraderView, ExitsStep),
)
    requires
        after_targets(t, prices, before, s, out),
        s matches StepView::Call(_, v, _) ==> v.rest.len() > 0 && (v.filled matches Some(f)
            ==> positive(f.volume)),
    ensures
        out.0.positions == t.positions,
        exited(out.1) == before + found(s),
        in_order(out),
        failures_left_alone(out),
{
    match s {
        StepView::Call(_, _, _) => {},
        StepView::Done(_, r) => {
            let all = CheckedView { closed: before + r, failed: Seq::empty() };
            let order = choose|order: Seq<Seq<char>>|
                #[trigger] enumerates(order, t.positions.dom()) && out == close_next(
                    t,
                    due(t, prices, order),
                    all,
                );
            lemma_due_names_differ(t, prices, order);
            lemma_close_next(t, due(t, prices, order), all);
        },
    }
}

proof fn lemma_after_stops(
    t: TraderView,
    prices: Map<Seq<char>, Double>,
    s: ReconcileStep,
    out: (TraderView, ExitsStep),
)
    requires
        after_stops(t, prices, s, out),
        s matches StepView::Call(_, v, _) ==> v.rest.len() > 0 && (v.filled matches Some(f)
            ==> positive(f.volume)),
    ensures
        out.0.positions == t.positions,
        exited(out.1) == found(s),
        in_order(out),
        failures_left_alone(out),
{
    match s {
        StepView::Call(_, _, _) => {},
        StepView::Done(_, r) => {
            let order = choose|order: Seq<Seq<char>>|
                #[trigger] enumerates(order, t.tp_orders.dom()) && after_targets(
                    t,
                    prices,
                    r,
                    tracking(t, Leg::Target, order).ask(),
                    out,
                );
            let next = tracking(t, Leg::Target, order).ask();
            assert(r + found(next) =~= r);
            lemma_after_targets(t, prices, r, next, out);
        },
    }
}

/// What an answer does to the positions while one is closed: nothing, until
/// the trade that it ends with, which takes exactly that position away and has
/// a volume that was executed.
proof fn lemma_close_step(
    t: TraderView,
    v: CloseTrade<Seq<char>>,
    sent: Result<Json, String>,
    now: Timestamp,
)
    ensures
        ({
            let next = close_step(t, v, sent, now);
            let c = closing_of(v);
            match next.1 {
                StepView::Call(_, w, _) => next.0.positions == t.positions && closing_of(w) == c,
                StepView::Done(_, Ok(trade)) => {
                    &&& next.0.positions == t.positions.remove(c.id)
                    &&& tells_of(trade, c.pos)
                    &&& positive(trade.quantity)
                },
                StepView::Done(_, Err(_)) => next.0.positions == t.positions,
            }
        }),
{
}

proof fn lemma_exits_step(
    t: TraderView,
    s: (TraderView, ExitsStep),
    sent: Result<Json, String>,
    now: Timestamp,
    out: (TraderView, ExitsStep),
    gone: Seq<Seq<char>>,
) -> (more: Seq<Seq<char>>)
    requires
        exits_at(t, s, gone),
        s.0.order_counter < u64::MAX,
        s.1 matches StepView::Call(_, v, _) && exits_step(s.0, v, sent, now, out),
    ensures
        exits_at(t, out, more),
{
    match s.1 {
        StepView::Call(_, v, _) => {
            law_checking_books_what_it_gives(t, s.0, v, sent, now, out);
            match v {
                ExitsView::Stops(prices, r) => {
                    let next = r.step(s.0, sent, now);
                    let none = Seq::<TradeView>::empty();
                    assert(none + r.closed =~= r.closed);
                    assert(none + found(next.1) =~= found(next.1));
                    law_found_trades_are_real(s.0, r, sent, now);
                    lemma_rest_left(s.0, r, sent, now);
                    lemma_after_stops(next.0, prices, next.1, out);
                    lemma_reconcile_closes(t.positions, s.0, none, r, sent, now, gone)
                },
                ExitsView::Targets(prices, before, r) => {
                    let next = r.step(s.0, sent, now);
                    let all = before + r.closed;
                    assert forall|i: int| 0 <= i < r.closed.len() implies positive(
                        (#[trigger] r.closed[i]).quantity,
                    ) by {
                        assert(all[before.len() + i] == r.closed[i]);
                    }
                    law_found_trades_are_real(s.0, r, sent, now);
                    lemma_rest_left(s.0, r, sent, now);
                    lemma_after_targets(next.0, prices, before, next.1, out);
                    assert forall|i: int| 0 <= i < exited(out.1).len() implies positive(
                        (#[trigger] exited(out.1)[i]).quantity,
                    ) by {
                        if i < before.len() {
                            assert(all[i] == before[i]);
                        }
                    }
                    lemma_reconcile_closes(t.positions, s.0, before, r, sent, now, gone)
                },
                ExitsView::Closing(rest, closed, c) => {
                    let next = close_step(s.0, c, sent, now);
                    lemma_close_step(s.0, c, sent, now);
                    lemma_close_goes_on(s, sent, now, out);
                    match next.1 {
                        StepView::Done(_, Ok(trade)) => {
                            let id = closing_of(c).id;
                            lemma_closes_one_more(
                                t.positions,
                                s.0.positions,
                                closed.closed,
                                gone,
                                id,
                                trade,
                            );
                            gone.push(id)
                        },
                        _ => gone,
                    }
                },
            }
        },
        StepView::Done(_, _) => gone,
    }
}

/// What an answer leads to while a position is closed.
proof fn lemma_close_goes_on(
    s: (TraderView, ExitsStep),
    sent: Result<Json, String>,
    now: Timestamp,
    out: (TraderView, ExitsStep),
)
    requires
        in_order(s),
        failures_left_alone(s),
        s.1 matches StepView::Call(_, v, _) && v is Closing && exits_step(s.0, v, sent, now, out),
    ensures
        s.1 matches StepView::Call(_, ExitsView::Closing(rest, closed, c), _) && {
            let next = close_step(s.0, c, sent, now);
            &&& out.0.positions == next.0.positions
            &&& in_order(out)
            &&& failures_left_alone(out)
            &&& forall|x: (Seq<char>, ErrorView)| #[trigger]
                closed.failed.contains(x) ==> failed_of(out.1).contains(x)
            &&& forall|id: Seq<char>| #[trigger] left_alone(s, id) ==> left_alone(out, id)
            &&& match next.1 {
                StepView::Done(_, Ok(trade)) => exited(out.1) == closed.closed.push(trade),
                StepView::Done(_, Err(e)) => exited(out.1) == closed.closed && failed_of(
                    out.1,
                ).contains((closing_of(c).id, e)),
                StepView::Call(_, _, _) => exited(out.1) == closed.closed,
            }
        },
{
    match s.1 {
        StepView::Call(_, ExitsView::Closing(rest, closed, c), _) => {
            let next = close_step(s.0, c, sent, now);
            let id = closing_of(c).id;
            lemma_close_step(s.0, c, sent, now);
            match next.1 {
                StepView::Call(_, d, _) => {
                    assert forall|i: int| 0 <= i < failed_of(out.1).len() implies left_alone(
                        out,
                        (#[trigger] failed_of(out.1)[i]).0,
                    ) by {
                        assert(left_alone(s, failed_of(s.1)[i].0));
                    }
                },
                StepView::Done(_, r) => {
                    let all = closed.with(id, r);
                    assert forall|i: int| 0 <= i < rest.len() implies next.0.positions.contains_key(
                        (#[trigger] rest[i]).0,
                    ) by {
                        assert(s.0.positions.contains_key(rest[i].0));
                    }
                    assert forall|i: int| 0 <= i < all.failed.len() implies (
                    next.0.positions.contains_key((#[trigger] all.failed[i]).0) && not_in(
                        rest,
                        all.failed[i].0,
                    )) by {
                        if i < closed.failed.len() {
                            assert(all.failed[i] == failed_of(s.1)[i]);
                            assert(left_alone(s, failed_of(s.1)[i].0));
                        }
                    }
                    lemma_close_next(next.0, rest, all);
                    let then = close_next(next.0, rest, all);
                    assert forall|x: (Seq<char>, ErrorView)| #[trigger]
                        closed.failed.contains(x) implies failed_of(out.1).contains(x) by {
                        let i = choose|i: int|
                            0 <= i < closed.failed.len() && closed.failed[i] == x;
                        assert(all.failed[i] == x);
                        assert(all.failed.contains(x));
                    }
                    if let Err(e) = r {
                        assert(all.failed.last() == (id, e));
                        assert(all.failed.contains((id, e)));
                    }
                    assert forall|k: Seq<char>| #[trigger] left_alone(s, k) implies left_alone(
                        out,
                        k,
                    ) by {
                        lemma_skipped_names(rest, then, k);
                    }
                    assert forall|i: int| 0 <= i < failed_of(out.1).len() implies left_alone(
                        out,
                        (#[trigger] failed_of(out.1)[i]).0,
                    ) by {
                        assert(left_alone(then, failed_of(then.1)[i].0));
                    }
                },
            }
        },
        _ => {},
    }
}

/// While filled orders are looked for, some order is always waited for.
proof fn lemma_rest_left(
    t: TraderView,
    v: ReconcileView,
    sent: Result<Json, String>,
    now: Timestamp,
)
    requires
        v.rest.len() > 0,
    ensures
        v.step(t, sent, now).1 matches StepView::Call(_, w, _) ==> w.rest.len() > 0,
{
}

proof fn lemma_exits_run(
    t: TraderView,
    prices: Map<Seq<char>, Double>,
    trace: Seq<(TraderView, ExitsStep)>,
    answers: Answers,
    times: Times,
    i: int,
) -> (gone: Seq<Seq<char>>)
    requires
        exits_run(t, prices, trace, answers, times),
        0 <= i < trace.len(),
    ensures
        exits_at(t, trace[i], gone),
    decreases i,
{
    if i == 0 {
        law_checking_begins_with_clean_books(t, prices, trace[0]);
        lemma_closes_none(t.positions);
        let order = choose|order: Seq<Seq<char>>|
            #[trigger] enumerates(order, t.stop_orders.dom()) && after_stops(
                t,
                prices,
                tracking(t, Leg::Stop, order).ask(),
                trace[0],
            );
        lemma_after_stops(t, prices, tracking(t, Leg::Stop, order).ask(), trace[0]);
        assert(exited(trace[0].1) == Seq::<TradeView>::empty());
        Seq::empty()
    } else {
        let before = lemma_exits_run(t, prices, trace, answers, times, i - 1);
        assert(exits_follows(trace, answers, times, i - 1));
        lemma_exits_step(
            t,
            trace[i - 1],
            answers((i - 1) as nat),
            times((i - 1) as nat),
            trace[i],
            before,
        )
    }
}

/// A whole call that checks stops and targets. The trades that it gives back
/// are appended to the closed trades and numbered on from the counter, and
/// what they gained is credited to balance and day, one after the other.
/// Exactly as many positions leave, one for each trade, so that none is closed
/// twice, and a position that has no trade stays. Every trade has a volume that
/// was executed. Every position that is said to have failed to close is still
/// there.
pub proof fn law_checking_as_a_whole(
    t: TraderView,
    prices: Map<Seq<char>, Double>,
    trace: Seq<(TraderView, ExitsStep)>,
    answers: Answers,
    times: Times,
)
    requires
        exits_run(t, prices, trace, answers, times),
    ensures
        ({
            let end = trace.last().0;
            let result = exited(trace.last().1);
            &&& books(t, end, result)
            &&& exists|gone: Seq<Seq<char>>| #[trigger]
                closes(t.positions, end.positions, result, gone)
            &&& t.positions.dom().finite() ==> end.positions.len() + result.len()
                == t.positions.len()
            &&& forall|i: int|
                0 <= i < result.len() ==> positive((#[trigger] result[i]).quantity)
            &&& forall|i: int|
                0 <= i < failed_of(trace.last().1).len() ==> end.positions.contains_key(
                    (#[trigger] failed_of(trace.last().1)[i]).0,
                )
        }),
{
    let n = trace.len() - 1;
    let gone = lemma_exits_run(t, prices, trace, answers, times, n);
    let end = trace.last().0;
    let result = exited(trace.last().1);
    assert(closes(t.positions, end.positions, result, gone));
    if t.positions.dom().finite() {
        lemma_closes_count(t.positions, end.positions, result, gone);
    }
}

/// A position that is neither being closed nor in the queue any more, for one
/// because closing it could not begin, is there at the end.
pub proof fn law_position_that_is_left_alone_stays(
    t: TraderView,
    prices: Map<Seq<char>, Double>,
    trace: Seq<(TraderView, ExitsStep)>,
    answers: Answers,
    times: Times,
    i: int,
    id: Seq<char>,
)
    requires
        exits_run(t, prices, trace, answers, times),
        0 <= i < trace.len(),
        left_alone(trace[i], id),
    ensures
        trace.last().0.positions.contains_key(id),
    decreases trace.len() - i,
{
    if i < trace.len() - 1 {
        let _ = lemma_exits_run(t, prices, trace, answers, times, i);
        assert(exits_follows(trace, answers, times, i));
        lemma_close_goes_on(trace[i], answers(i as nat), times(i as nat), trace[i + 1]);
        law_position_that_is_left_alone_stays(t, prices, trace, answers, times, i + 1, id);
    }
}

/// What is being closed, where a position is.
pub open spec fn closing_of_step(s: ExitsStep) -> Option<CloseTrade<Seq<char>>> {
    match s {
        StepView::Call(_, ExitsView::Closing(_, _, c), _) => Some(c),
        _ => None,
    }
}

/// While positions are closed locally, an answer changes the positions as the
/// close that it belongs to does, and closing goes on or is done.
pub proof fn lemma_queue_moves(
    t: TraderView,
    prices: Map<Seq<char>, Double>,
    trace: Seq<(TraderView, ExitsStep)>,
    answers: Answers,
    times: Times,
    i: int,
)
    requires
        exits_run(t, prices, trace, answers, times),
        0 <= i < trace.len() - 1,
        closing_of_step(trace[i].1) is Some,
    ensures
        closing_of_step(trace[i].1) matches Some(c) && {
            let next = close_step(trace[i].0, c, answers(i as nat), times(i as nat));
            &&& trace[i + 1].0.positions == next.0.positions
            &&& trace[i + 1].1 is Done || closing_of_step(trace[i + 1].1) is Some
            &&& match next.1 {
                StepView::Call(_, d, _) => next.0.positions == trace[i].0.positions && closing_of(d)
                    == closing_of(c),
                StepView::Done(_, Ok(_)) => next.0.positions == trace[i].0.positions.remove(
                    closing_of(c).id,
                ),
                StepView::Done(_, Err(_)) => next.0.positions == trace[i].0.positions,
            }
        },
{
    let _ = lemma_exits_run(t, prices, trace, answers, times, i);
    assert(exits_follows(trace, answers, times, i));
    let (sent, now) = (answers(i as nat), times(i as nat));
    lemma_close_goes_on(trace[i], sent, now, trace[i + 1]);
    match trace[i].1 {
        StepView::Call(_, ExitsView::Closing(rest, closed, c), _) => {
            let next = close_step(trace[i].0, c, sent, now);
            lemma_close_step(trace[i].0, c, sent, now);
            if let StepView::Done(_, r) = next.1 {
                let all = closed.with(closing_of(c).id, r);
                lemma_only_closing(next.0, rest, all);
            }
        },
        _ => {},
    }
}

/// Closing what is left asks only for that.
pub proof fn lemma_only_closing(t: TraderView, rest: Pairs, closed: CheckedView)
    ensures
        close_next(t, rest, closed).1 is Done || closing_of_step(
            close_next(t, rest, closed).1,
        ) is Some,
    decreases rest.len(),
{
    if rest.len() > 0 {
        let begun = close_start(t, rest[0].0, rest[0].1);
        if let Err(e) = begun.1 {
            lemma_only_closing(begun.0, rest.skip(1), closed.with(rest[0].0, Err(e)));
        }
    }
}

/// What is said to have failed is said to the end.
proof fn lemma_failures_stay(
    t: TraderView,
    prices: Map<Seq<char>, Double>,
    trace: Seq<(TraderView, ExitsStep)>,
    answers: Answers,
    times: Times,
    i: int,
    x: (Seq<char>, ErrorView),
)
    requires
        exits_run(t, prices, trace, answers, times),
        0 <= i < trace.len(),
        failed_of(trace[i].1).contains(x),
    ensures
        failed_of(trace.last().1).contains(x),
    decreases trace.len() - i,
{
    if i < trace.len() - 1 {
        let _ = lemma_exits_run(t, prices, trace, answers, times, i);
        assert(exits_follows(trace, answers, times, i));
        lemma_close_goes_on(trace[i], answers(i as nat), times(i as nat), trace[i + 1]);
        lemma_failures_stay(t, prices, trace, answers, times, i + 1, x);
    }
}

/// A name that is not in a queue is not in what is left of it.
proof fn lemma_skipped_names(rest: Pairs, next: (TraderView, ExitsStep), id: Seq<char>)
    requires
        forall|i: int| 0 <= i < rest.len() ==> (#[trigger] rest[i]).0 != id,
        next.1 matches StepView::Call(_, ExitsView::Closing(less, _, c), _) ==> {
            &&& less.len() < rest.len()
            &&& less == rest.skip(rest.len() - less.len())
            &&& closing_of(c).id == rest[rest.len() - less.len() - 1].0
        },
    ensures
        next.1 matches StepView::Call(_, ExitsView::Closing(less, _, c), _) ==> {
            &&& closing_of(c).id != id
            &&& forall|i: int| 0 <= i < less.len() ==> (#[trigger] less[i]).0 != id
        },
{
    match next.1 {
        StepView::Call(_, ExitsView::Closing(less, _, c), _) => {
            assert forall|i: int| 0 <= i < less.len() implies (#[trigger] less[i]).0 != id by {
                assert(less[i] == rest[rest.len() - less.len() + i]);
            }
        },
        _ => {},
    }
}

/// A position whose local close fails is there at the end, so that no trade
/// that is given back tells of it, and is given back with the error.
pub proof fn law_failed_close_keeps_the_position(
    t: TraderView,
    prices: Map<Seq<char>, Double>,
    trace: Seq<(TraderView, ExitsStep)>,
    answers: Answers,
    times: Times,
    i: int,
    gone: Seq<Seq<char>>,
)
    requires
        exits_run(t, prices, trace, answers, times),
        0 <= i < trace.len() - 1,
        trace[i].1 matches StepView::Call(_, ExitsView::Closing(_, _, c), _) && close_step(
            trace[i].0,
            c,
            answers(i as nat),
            times(i as nat),
        ).1 matches StepView::Done(_, Err(_)),
        closes(t.positions, trace.last().0.positions, exited(trace.last().1), gone),
    ensures
        trace[i].1 matches StepView::Call(_, ExitsView::Closing(_, _, c), _) && close_step(
            trace[i].0,
            c,
            answers(i as nat),
            times(i as nat),
        ).1 matches StepView::Done(_, Err(e)) && {
            let id = closing_of(c).id;
            &&& trace.last().0.positions.contains_key(id)
            &&& !gone.contains(id)
            &&& failed_of(trace.last().1).contains((id, e))
        },
{
    let _ = lemma_exits_run(t, prices, trace, answers, times, i);
    assert(exits_follows(trace, answers, times, i));
    lemma_close_goes_on(trace[i], answers(i as nat), times(i as nat), trace[i + 1]);
    match trace[i].1 {
        StepView::Call(_, ExitsView::Closing(_, _, c), _) => match close_step(
            trace[i].0,
            c,
            answers(i as nat),
            times(i as nat),
        ).1 {
            StepView::Done(_, Err(e)) => {
                let x = (closing_of(c).id, e);
                let after = trace[i + 1];
                let k = choose|k: int|
                    0 <= k < failed_of(after.1).len() && failed_of(after.1)[k] == x;
                assert(left_alone(after, failed_of(after.1)[k].0));
                law_position_that_is_left_alone_stays(t, prices, trace, answers, times, i + 1, x.0);
                lemma_failures_stay(t, prices, trace, answers, times, i + 1, x);
            },
            _ => {},
        },
        _ => {},
    }
}

} // verus!
