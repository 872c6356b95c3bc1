//! When the trader itself closes a position.
use crate::clock::Timestamp;
use crate::close::{close_start, close_step, closing_of, CloseTrade};
use crate::double::{at_most, positive, Double};
use crate::error::ErrorView;
use crate::exits::{
    after_stops, after_targets, close_next, due, exits_start, exits_step, CheckedView,
    ExitsStep, ExitsView,
};
use crate::json::Json;
use crate::laws::fills::Answers;
use crate::laws::numbers::law_comparison_covers_all_numbers;
use crate::laws::runs::{
    closing_of_step, exits_follows, exits_run, failed_of, lemma_only_closing,
    lemma_queue_moves, Times,
};
use crate::reconcile::{tracking, ReconcileView};
use crate::request::{Pairs, StepView};
use crate::table::enumerates;
use crate::trader::{TradeView, TraderView};
use crate::types::{Leg, Side};
use vstd::prelude::*;

verus! {

/// The target of a position calls for a local close exactly where it is set,
/// no take-profit rests for it, and the market price is at or beyond it: above
/// for a long, below for a short. The stop calls for one exactly where the
/// target does not, it is set, no stop rests, and the price is at or beyond
/// it on the other side. Without a price nothing does.
pub proof fn law_level_that_is_reached_calls_for_an_exit(
    t: TraderView,
    prices: Map<Seq<char>, Double>,
    id: Seq<char>,
)
    ensures
        !prices.contains_key(t.positions[id].pair) ==> t.local_exit(prices, id) is None,
        prices.contains_key(t.positions[id].pair) ==> {
            let pos = t.positions[id];
            let price = prices[pos.pair];
            &&& t.local_exit(prices, id) == Some(Leg::Target) <==> {
                &&& !t.tp_orders.contains_key(id)
                &&& positive(pos.take_profit_1)
                &&& pos.side == Side::Long ==> at_most(pos.take_profit_1, price)
                &&& pos.side == Side::Short ==> at_most(price, pos.take_profit_1)
            }
            &&& t.local_exit(prices, id) == Some(Leg::Stop) <==> {
                &&& t.local_exit(prices, id) != Some(Leg::Target)
                &&& !t.stop_orders.contains_key(id)
                &&& positive(pos.stop_loss)
                &&& pos.side == Side::Long ==> at_most(price, pos.stop_loss)
                &&& pos.side == Side::Short ==> at_most(pos.stop_loss, price)
            }
        },
{
}

/// The same for a long, over values: with nothing resting it takes its profit
/// exactly from the target on, and is stopped out exactly from the stop down.
pub proof fn law_long_exits_by_value(
    t: TraderView,
    prices: Map<Seq<char>, Double>,
    id: Seq<char>,
)
    requires
        t.positions[id].side == Side::Long,
        prices.contains_key(t.positions[id].pair),
        prices[t.positions[id].pair].finite(),
        t.positions[id].take_profit_1.finite(),
        t.positions[id].stop_loss.finite(),
    ensures
        ({
            let pos = t.positions[id];
            let price = prices[pos.pair].value();
            let (target, stop) = (pos.take_profit_1.value(), pos.stop_loss.value());
            &&& target > 0 && price >= target && !t.tp_orders.contains_key(id) ==> t.local_exit(
                prices,
                id,
            ) == Some(Leg::Target)
            &&& price < target || target <= 0 ==> t.local_exit(prices, id) != Some(Leg::Target)
            &&& stop > 0 && price <= stop && !t.stop_orders.contains_key(id) ==> t.local_exit(
                prices,
                id,
            ) is Some
            &&& price > stop || stop <= 0 ==> t.local_exit(prices, id) != Some(Leg::Stop)
        }),
{
    let pos = t.positions[id];
    law_comparison_covers_all_numbers(pos.take_profit_1, prices[pos.pair]);
    law_comparison_covers_all_numbers(prices[pos.pair], pos.stop_loss);
    law_comparison_covers_all_numbers(pos.stop_loss, pos.stop_loss);
}

/// The same for a short, over values: it takes its profit exactly from the
/// target down, and is stopped out exactly from the stop on.
pub proof fn law_short_exits_by_value(
    t: TraderView,
    prices: Map<Seq<char>, Double>,
    id: Seq<char>,
)
    requires
        t.positions[id].side == Side::Short,
        prices.contains_key(t.positions[id].pair),
        prices[t.positions[id].pair].finite(),
        t.positions[id].take_profit_1.finite(),
        t.positions[id].stop_loss.finite(),
    ensures
        ({
            let pos = t.positions[id];
            let price = prices[pos.pair].value();
            let (target, stop) = (pos.take_profit_1.value(), pos.stop_loss.value());
            &&& target > 0 && price <= target && !t.tp_orders.contains_key(id) ==> t.local_exit(
                prices,
                id,
            ) == Some(Leg::Target)
            &&& price > target || target <= 0 ==> t.local_exit(prices, id) != Some(Leg::Target)
            &&& stop > 0 && price >= stop && !t.stop_orders.contains_key(id) ==> t.local_exit(
                prices,
                id,
            ) is Some
            &&& price < stop || stop <= 0 ==> t.local_exit(prices, id) != Some(Leg::Stop)
        }),
{
    let pos = t.positions[id];
    law_comparison_covers_all_numbers(prices[pos.pair], pos.take_profit_1);
    law_comparison_covers_all_numbers(pos.stop_loss, prices[pos.pair]);
    law_comparison_covers_all_numbers(pos.take_profit_1, pos.take_profit_1);
}

/// Every position whose level calls for an exit is to be closed, with a note
/// of which level it was.
pub proof fn law_every_exit_is_due(
    t: TraderView,
    prices: Map<Seq<char>, Double>,
    names: Seq<Seq<char>>,
    id: Seq<char>,
)
    requires
        names.contains(id),
        t.local_exit(prices, id) is Some,
    ensures
        exists|i: int|
            0 <= i < due(t, prices, names).len() && #[trigger] due(t, prices, names)[i] == (
                id,
                if t.local_exit(prices, id) == Some(Leg::Target) {
                    "Take profit 1 hit"@
                } else {
                    "Stop loss hit"@
                },
            ),
    decreases names.len(),
{
    let all = due(t, prices, names);
    let part = due(t, prices, names.drop_last());
    let i = choose|i: int| 0 <= i < names.len() && names[i] == id;
    if names.last() == id {
        assert(all[part.len() as int].0 == id);
    } else {
        assert(names.drop_last()[i] == id);
        law_every_exit_is_due(t, prices, names.drop_last(), id);
        let j = choose|j: int| 0 <= j < part.len() && (#[trigger] part[j]).0 == id && part[j] == (
            id,
            if t.local_exit(prices, id) == Some(Leg::Target) {
                "Take profit 1 hit"@
            } else {
                "Stop loss hit"@
            },
        );
        assert(all[j] == part[j]);
    }
}

/// Whether a queue names a position.
pub open spec fn queued(rest: Pairs, id: Seq<char>) -> bool {
    exists|i: int| 0 <= i < rest.len() && (#[trigger] rest[i]).0 == id
}

/// Whether a position is told to have failed.
pub open spec fn told_failed(failed: Seq<(Seq<char>, ErrorView)>, id: Seq<char>) -> bool {
    exists|i: int| 0 <= i < failed.len() && (#[trigger] failed[i]).0 == id
}

/// Whether a position is being closed or in the queue, was closed, or is told
/// to have failed.
pub open spec fn taken_up(s: (TraderView, ExitsStep), id: Seq<char>) -> bool {
    ||| !s.0.positions.contains_key(id)
    ||| told_failed(failed_of(s.1), id)
    ||| match s.1 {
        StepView::Call(_, ExitsView::Closing(rest, _, c), _) => closing_of(c).id == id || queued(
            rest,
            id,
        ),
        _ => false,
    }
}

proof fn lemma_queue_is_taken_up(
    t: TraderView,
    rest: Pairs,
    closed: CheckedView,
    id: Seq<char>,
)
    requires
        queued(rest, id),
    ensures
        taken_up(close_next(t, rest, closed), id),
    decreases rest.len(),
{
    let i = choose|i: int| 0 <= i < rest.len() && (#[trigger] rest[i]).0 == id;
    let begun = close_start(t, rest[0].0, rest[0].1);
    let tail = rest.skip(1);
    match begun.1 {
        Ok((c, call)) => {
            let out = close_next(t, rest, closed);
            assert(closing_of(c).id == rest[0].0);
            assert(out.1 == ExitsStep::Call(0, ExitsView::Closing(tail, closed, c), call));
            if i > 0 {
                assert(tail[i - 1].0 == id);
            }
            assert(taken_up(out, id));
        },
        Err(e) => {
            let more = closed.with(rest[0].0, Err(e));
            if i > 0 {
                assert(tail[i - 1].0 == id);
                lemma_queue_is_taken_up(begun.0, tail, more, id);
            } else {
                assert(more.failed[closed.failed.len() as int] == (id, e));
                lemma_failure_is_kept(begun.0, tail, more, closed.failed.len() as int);
            }
        },
    }
}

proof fn lemma_failure_is_kept(t: TraderView, rest: Pairs, closed: CheckedView, i: int)
    requires
        0 <= i < closed.failed.len(),
    ensures
        i < failed_of(close_next(t, rest, closed).1).len(),
        failed_of(close_next(t, rest, closed).1)[i] == closed.failed[i],
    decreases rest.len(),
{
    if rest.len() > 0 {
        let begun = close_start(t, rest[0].0, rest[0].1);
        if let Err(e) = begun.1 {
            lemma_failure_is_kept(begun.0, rest.skip(1), closed.with(rest[0].0, Err(e)), i);
        }
    }
}

/// Once all resting orders were asked about, every position whose level calls
/// for an exit is taken up.
pub proof fn law_reached_levels_are_taken_up(
    t: TraderView,
    prices: Map<Seq<char>, Double>,
    before: Seq<TradeView>,
    found: Seq<TradeView>,
    pause: nat,
    out: (TraderView, ExitsStep),
    id: Seq<char>,
)
    requires
        after_targets(t, prices, before, StepView::Done(pause, found), out),
        t.positions.contains_key(id),
        t.local_exit(prices, id) is Some,
    ensures
        taken_up(out, id),
        out.1 is Done || closing_of_step(out.1) is Some,
{
    let all = CheckedView { closed: before + found, failed: Seq::empty() };
    let order = choose|order: Seq<Seq<char>>|
        #[trigger] enumerates(order, t.positions.dom()) && out == close_next(
            t,
            due(t, prices, order),
            all,
        );
    assert(order.to_set().contains(id));
    law_every_exit_is_due(t, prices, order, id);
    let rest = due(t, prices, order);
    assert(queued(rest, id));
    lemma_queue_is_taken_up(t, rest, all, id);
    lemma_only_closing(t, rest, all);
}

/// With nothing resting on the exchange, checking begins at once with the
/// positions whose level is reached: each of them is taken up.
pub proof fn law_reached_levels_are_taken_up_at_once(
    t: TraderView,
    prices: Map<Seq<char>, Double>,
    out: (TraderView, ExitsStep),
    id: Seq<char>,
)
    requires
        exits_start(t, prices, out),
        t.stop_orders == Map::<Seq<char>, Seq<char>>::empty(),
        t.tp_orders == Map::<Seq<char>, Seq<char>>::empty(),
        t.positions.contains_key(id),
        t.local_exit(prices, id) is Some,
    ensures
        taken_up(out, id),
        out.1 is Done || closing_of_step(out.1) is Some,
{
    let order = choose|order: Seq<Seq<char>>|
        #[trigger] enumerates(order, t.stop_orders.dom()) && after_stops(
            t,
            prices,
            tracking(t, Leg::Stop, order).ask(),
            out,
        );
    lemma_nothing_to_list(order, t.stop_orders);
    let other = choose|other: Seq<Seq<char>>|
        #[trigger] enumerates(other, t.tp_orders.dom()) && after_targets(
            t,
            prices,
            Seq::empty(),
            tracking(t, Leg::Target, other).ask(),
            out,
        );
    lemma_nothing_to_list(other, t.tp_orders);
    law_reached_levels_are_taken_up(t, prices, Seq::empty(), Seq::empty(), 0, out, id);
}

proof fn lemma_nothing_to_list(order: Seq<Seq<char>>, m: Map<Seq<char>, Seq<char>>)
    requires
        enumerates(order, m.dom()),
        m == Map::<Seq<char>, Seq<char>>::empty(),
    ensures
        order.len() == 0,
{
    if order.len() > 0 {
        assert(order.to_set().contains(order[0]));
    }
}

/// A position that is taken up is closed in the end, or told to have failed.
pub proof fn law_what_is_taken_up_is_closed_or_told(
    t: TraderView,
    prices: Map<Seq<char>, Double>,
    trace: Seq<(TraderView, ExitsStep)>,
    answers: Answers,
    times: Times,
    i: int,
    id: Seq<char>,
)
    requires
        exits_run(t, prices, trace, answers, times),
        0 <= i < trace.len(),
        trace[i].1 is Done || closing_of_step(trace[i].1) is Some,
        taken_up(trace[i], id),
    ensures
        !trace.last().0.positions.contains_key(id) || told_failed(failed_of(trace.last().1), id),
    decreases trace.len() - i,
{
    if i < trace.len() - 1 {
        assert(exits_follows(trace, answers, times, i));
        let (sent, now) = (answers(i as nat), times(i as nat));
        lemma_queue_moves(t, prices, trace, answers, times, i);
        match trace[i].1 {
            StepView::Call(_, ExitsView::Closing(rest, closed, c), _) => {
                let next = close_step(trace[i].0, c, sent, now);
                if let StepView::Call(pause, d, call) = next.1 {
                    assert(trace[i + 1].1 == ExitsStep::Call(
                        pause,
                        ExitsView::Closing(rest, closed, d),
                        call,
                    ));
                    assert(taken_up(trace[i + 1], id));
                }
                if let StepView::Done(_, r) = next.1 {
                    let all = closed.with(closing_of(c).id, r);
                    let out = close_next(next.0, rest, all);
                    if queued(rest, id) {
                        lemma_queue_is_taken_up(next.0, rest, all, id);
                    } else if told_failed(closed.failed, id) {
                        let k = choose|k: int|
                            0 <= k < closed.failed.len() && (#[trigger] closed.failed[k]).0 == id;
                        assert(all.failed[k] == closed.failed[k]);
                        lemma_failure_is_kept(next.0, rest, all, k);
                        assert(failed_of(out.1)[k].0 == id);
                    } else if closing_of(c).id == id {
                        if let Err(e) = r {
                            let k = closed.failed.len() as int;
                            assert(all.failed[k] == (id, e));
                            lemma_failure_is_kept(next.0, rest, all, k);
                            assert(failed_of(out.1)[k].0 == id);
                        }
                    }
                    assert(taken_up(out, id));
                    assert(failed_of(trace[i + 1].1) == failed_of(out.1));
                }
                assert(taken_up(trace[i + 1], id));
                law_what_is_taken_up_is_closed_or_told(
                    t,
                    prices,
                    trace,
                    answers,
                    times,
                    i + 1,
                    id,
                );
            },
            _ => {},
        }
    }
}


/// Positions are closed in turn, each with the note that says why, as it is
/// when its turn comes.
pub proof fn law_positions_are_closed_in_turn(t: TraderView, rest: Pairs, closed: CheckedView)
    requires
        rest.len() > 0,
    ensures
        ({
            let begun = close_start(t, rest[0].0, rest[0].1);
            let out = close_next(t, rest, closed);
            &&& begun.1 matches Ok((c, call)) ==> {
                &&& out == (
                    begun.0,
                    ExitsStep::Call(0, ExitsView::Closing(rest.skip(1), closed, c), call),
                )
                &&& closing_of(c).id == rest[0].0
                &&& closing_of(c).note == rest[0].1
                &&& closing_of(c).pos == t.positions[rest[0].0]
            }
            &&& begun.1 matches Err(e) ==> out == close_next(
                begun.0,
                rest.skip(1),
                CheckedView { closed: closed.closed, failed: closed.failed.push((rest[0].0, e)) },
            )
        }),
{
}

/// When nothing is left to be closed, checking ends with what came of it.
pub proof fn law_checking_ends_with_what_came_of_it(t: TraderView, closed: CheckedView)
    ensures
        close_next(t, Seq::empty(), closed) == (t, ExitsStep::Done(0, closed)),
{
}


/// When one close has ended, the next begins: what came of the one is kept,
/// its trade or why it failed, and its pause comes first.
pub proof fn law_one_close_follows_another(
    t: TraderView,
    rest: Pairs,
    closed: CheckedView,
    c: CloseTrade<Seq<char>>,
    sent: Result<Json, String>,
    now: Timestamp,
    out: (TraderView, ExitsStep),
)
    requires
        exits_step(t, ExitsView::Closing(rest, closed, c), sent, now, out),
        close_step(t, c, sent, now).1 is Done,
    ensures
        close_step(t, c, sent, now) matches (after, StepView::Done(pause, r)) && {
            let all = match r {
                Ok(trade) => CheckedView {
                    closed: closed.closed.push(trade),
                    failed: closed.failed,
                },
                Err(e) => CheckedView {
                    closed: closed.closed,
                    failed: closed.failed.push((closing_of(c).id, e)),
                },
            };
            let next = close_next(after, rest, all);
            &&& out.0 == next.0
            &&& match next.1 {
                StepView::Call(p, v, call) => out.1 == ExitsStep::Call(pause + p, v, call),
                StepView::Done(p, came) => out.1 == ExitsStep::Done(pause + p, came),
            }
        },
{
}

/// While a close, or the search for filled orders, still asks the exchange,
/// checking asks the same, after the same pause, and keeps what it has.
pub proof fn law_checking_asks_what_its_parts_ask(
    t: TraderView,
    v: ExitsView,
    sent: Result<Json, String>,
    now: Timestamp,
    out: (TraderView, ExitsStep),
)
    requires
        exits_step(t, v, sent, now, out),
    ensures
        match v {
            ExitsView::Stops(prices, r) => match r.step(t, sent, now) {
                (after, StepView::Call(p, q, call)) => out == (
                    after,
                    ExitsStep::Call(p, ExitsView::Stops(prices, q), call),
                ),
                _ => true,
            },
            ExitsView::Targets(prices, before, r) => match r.step(t, sent, now) {
                (after, StepView::Call(p, q, call)) => out == (
                    after,
                    ExitsStep::Call(p, ExitsView::Targets(prices, before, q), call),
                ),
                _ => true,
            },
            ExitsView::Closing(rest, closed, c) => match close_step(t, c, sent, now) {
                (after, StepView::Call(p, d, call)) => out == (
                    after,
                    ExitsStep::Call(p, ExitsView::Closing(rest, closed, d), call),
                ),
                _ => true,
            },
        },
{
}

proof fn lemma_trades_are_kept(t: TraderView, rest: Pairs, closed: CheckedView)
    ensures
        trades_of(close_next(t, rest, closed).1) == closed.closed,
    decreases rest.len(),
{
    if rest.len() > 0 {
        let begun = close_start(t, rest[0].0, rest[0].1);
        if let Err(e) = begun.1 {
            lemma_trades_are_kept(begun.0, rest.skip(1), closed.with(rest[0].0, Err(e)));
        }
    }
}

/// The trades that were made so far, once positions are closed locally.
pub open spec fn trades_of(s: ExitsStep) -> Seq<TradeView> {
    match s {
        StepView::Call(_, ExitsView::Closing(_, closed, _), _) => closed.closed,
        StepView::Call(_, _, _) => Seq::empty(),
        StepView::Done(_, r) => r.closed,
    }
}

/// When all resting orders were asked about, the trades that were found are
/// kept: those of the stops, then those of the targets.
pub proof fn law_found_trades_are_kept(
    t: TraderView,
    prices: Map<Seq<char>, Double>,
    before: Seq<TradeView>,
    found: Seq<TradeView>,
    pause: nat,
    out: (TraderView, ExitsStep),
)
    requires
        after_targets(t, prices, before, StepView::Done(pause, found), out),
    ensures
        trades_of(out.1) == before + found,
{
    let all = CheckedView { closed: before + found, failed: Seq::empty() };
    let order = choose|order: Seq<Seq<char>>|
        #[trigger] enumerates(order, t.positions.dom()) && out == close_next(
            t,
            due(t, prices, order),
            all,
        );
    lemma_trades_are_kept(t, due(t, prices, order), all);
}


/// Where no order rests on the exchange, a whole check closes every position
/// whose level is reached, or tells why it could not.
pub proof fn law_reached_level_is_closed_or_told(
    t: TraderView,
    prices: Map<Seq<char>, Double>,
    trace: Seq<(TraderView, ExitsStep)>,
    answers: Answers,
    times: Times,
    id: Seq<char>,
)
    requires
        exits_run(t, prices, trace, answers, times),
        t.stop_orders == Map::<Seq<char>, Seq<char>>::empty(),
        t.tp_orders == Map::<Seq<char>, Seq<char>>::empty(),
        t.positions.contains_key(id),
        t.local_exit(prices, id) is Some,
    ensures
        !trace.last().0.positions.contains_key(id) || told_failed(failed_of(trace.last().1), id),
{
    law_reached_levels_are_taken_up_at_once(t, prices, trace[0], id);
    law_what_is_taken_up_is_closed_or_told(t, prices, trace, answers, times, 0, id);
}

/// Where orders rested, the same holds once the last of them was asked about,
/// of every position that is there then and whose level is reached with
/// nothing resting for it.
pub proof fn law_reached_level_is_closed_or_told_later(
    t: TraderView,
    prices: Map<Seq<char>, Double>,
    trace: Seq<(TraderView, ExitsStep)>,
    answers: Answers,
    times: Times,
    i: int,
    before: Seq<TradeView>,
    r: ReconcileView,
    after: TraderView,
    id: Seq<char>,
)
    requires
        exits_run(t, prices, trace, answers, times),
        0 <= i < trace.len() - 1,
        trace[i].1 matches StepView::Call(_, v, _) && v == ExitsView::Targets(prices, before, r),
        r.step(trace[i].0, answers(i as nat), times(i as nat)).0 == after,
        r.step(trace[i].0, answers(i as nat), times(i as nat)).1 is Done,
        after.positions.contains_key(id),
        after.local_exit(prices, id) is Some,
    ensures
        !trace.last().0.positions.contains_key(id) || told_failed(failed_of(trace.last().1), id),
{
    assert(exits_follows(trace, answers, times, i));
    if let StepView::Done(pause, found) = r.step(
        trace[i].0,
        answers(i as nat),
        times(i as nat),
    ).1 {
        law_reached_levels_are_taken_up(after, prices, before, found, pause, trace[i + 1], id);
        law_what_is_taken_up_is_closed_or_told(t, prices, trace, answers, times, i + 1, id);
    }
}

} // verus!
