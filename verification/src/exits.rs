//! Exits that the trader drives itself.
use crate::clock::{utc_now, Timestamp};
use crate::close::{close_start, close_step, closing_of, CloseTrade};
use crate::error::{ErrorView, ExecutionError};
use crate::double::Double;
use crate::json::Json;
use crate::reconcile::{tracking, Reconcile, ReconcileStep, ReconcileView};
use crate::request::{trades_step, Call, Next, Pairs, Step, StepView};
use crate::table::{enumerates, texts, Table};
use crate::trader::{hits_stop, hits_target, KrakenTrader, TradeView, TraderView};
use crate::types::{trade_views, Leg, Position, Side, TradeRecord};
use vstd::prelude::*;
use vstd::string::*;

verus! {

/// What checking stops and targets comes to.
#[derive(Debug)]
pub struct Checked {
    /// The trades that were made.
    pub closed: Vec<TradeRecord>,
    /// The positions that could not be closed, each with why.
    pub failed: Vec<(String, ExecutionError)>,
}

/// [`Checked`] in contracts.
pub struct CheckedView {
    /// The trades that were made.
    pub closed: Seq<TradeView>,
    /// The positions that could not be closed, each with why.
    pub failed: Seq<(Seq<char>, ErrorView)>,
}

/// The positions that could not be closed, in contracts.
pub open spec fn failed_views(s: Seq<(String, ExecutionError)>) -> Seq<(Seq<char>, ErrorView)> {
    Seq::new(s.len(), |i: int| (s[i].0@, s[i].1@))
}

impl View for Checked {
    type V = CheckedView;

    open spec fn view(&self) -> CheckedView {
        CheckedView { closed: trade_views(self.closed@), failed: failed_views(self.failed@) }
    }
}

impl CheckedView {
    /// One more position was tried to be closed, and this came of it.
    pub open spec fn with(self, id: Seq<char>, r: Result<TradeView, ErrorView>) -> CheckedView {
        match r {
            Ok(trade) => CheckedView { closed: self.closed.push(trade), ..self },
            Err(e) => CheckedView { failed: self.failed.push((id, e)), ..self },
        }
    }
}

impl Checked {
    fn add_trade(&mut self, trade: TradeRecord)
        ensures
            final(self)@ == (CheckedView {
                closed: old(self)@.closed.push(trade@),
                ..old(self)@
            }),
    {
        let ghost before = self.closed@;
        self.closed.push(trade);
        assert(trade_views(self.closed@) =~= trade_views(before).push(trade@));
    }

    fn add_failure(&mut self, id: String, e: ExecutionError)
        ensures
            final(self)@ == old(self)@.with(id@, Err(e@)),
    {
        let ghost before = self.failed@;
        self.failed.push((id, e));
        assert(failed_views(self.failed@) =~= failed_views(before).push((id@, e@)));
    }
}

/// Checking stops and targets, in contracts.
pub enum ExitsView {
    /// Looking for filled stop-loss orders.
    Stops(Map<Seq<char>, Double>, ReconcileView),
    /// Looking for filled take-profit orders, with the trades found before.
    Targets(Map<Seq<char>, Double>, Seq<TradeView>, ReconcileView),
    /// Closing a position, with those that are left to be closed and what came
    /// of the ones before.
    Closing(Pairs, CheckedView, CloseTrade<Seq<char>>),
}

impl ExitsView {
    /// Whether the next answer may lead to a trade.
    pub open spec fn may_book(self) -> bool {
        match self {
            ExitsView::Closing(_, _, c) => c is Confirming,
            _ => true,
        }
    }
}

/// Steps of checking stops and targets, in contracts.
pub type ExitsStep = StepView<ExitsView, CheckedView>;

/// What a step of checking stops and targets is in contracts.
pub open spec fn exits_view(s: Step<CheckStops, Checked>) -> ExitsStep {
    match s.next {
        Next::Call(state, call) => StepView::Call(s.pause as nat, state@, call@),
        Next::Done(r) => StepView::Done(s.pause as nat, r@),
    }
}

/// What is noted when the trader itself acts on a level.
pub open spec fn exit_note(leg: Leg) -> Seq<char> {
    match leg {
        Leg::Stop => "Stop loss hit"@,
        Leg::Target => "Take profit 1 hit"@,
    }
}

/// Those among `names` that the trader itself is to close at these prices,
/// each with why.
pub open spec fn due(
    t: TraderView,
    prices: Map<Seq<char>, Double>,
    names: Seq<Seq<char>>,
) -> Pairs
    decreases names.len(),
{
    if names.len() == 0 {
        Seq::empty()
    } else {
        let so_far = due(t, prices, names.drop_last());
        match t.local_exit(prices, names.last()) {
            Some(leg) => so_far.push((names.last(), exit_note(leg))),
            None => so_far,
        }
    }
}

/// Closing the positions that are left, one after the other. One that cannot
/// be closed is noted and passed over.
pub open spec fn close_next(t: TraderView, rest: Pairs, closed: CheckedView) -> (
    TraderView,
    ExitsStep,
)
    decreases rest.len(),
{
    if rest.len() == 0 {
        (t, StepView::Done(0, closed))
    } else {
        let begun = close_start(t, rest[0].0, rest[0].1);
        match begun.1 {
            Ok((c, call)) => (
                begun.0,
                StepView::Call(0, ExitsView::Closing(rest.skip(1), closed, c), call),
            ),
            Err(e) => close_next(begun.0, rest.skip(1), closed.with(rest[0].0, Err(e))),
        }
    }
}

/// `out` is where looking for filled take-profit orders leads.
pub open spec fn after_targets(
    t: TraderView,
    prices: Map<Seq<char>, Double>,
    before: Seq<TradeView>,
    s: ReconcileStep,
    out: (TraderView, ExitsStep),
) -> bool {
    match s {
        StepView::Call(pause, r, call) => out == (
            t,
            ExitsStep::Call(
                pause,
                ExitsView::Targets(prices, before, r),
                call,
            ),
        ),
        StepView::Done(_, found) => exists|order: Seq<Seq<char>>|
            #[trigger] enumerates(order, t.positions.dom()) && out == close_next(
                t,
                due(t, prices, order),
                CheckedView { closed: before + found, failed: Seq::empty() },
            ),
    }
}

/// `out` is where looking for filled stop-loss orders leads.
pub open spec fn after_stops(
    t: TraderView,
    prices: Map<Seq<char>, Double>,
    s: ReconcileStep,
    out: (TraderView, ExitsStep),
) -> bool {
    match s {
        StepView::Call(pause, r, call) => out == (
            t,
            ExitsStep::Call(pause, ExitsView::Stops(prices, r), call),
        ),
        StepView::Done(_, found) => exists|order: Seq<Seq<char>>|
            #[trigger] enumerates(order, t.tp_orders.dom()) && after_targets(
                t,
                prices,
                found,
                tracking(t, Leg::Target, order).ask(),
                out,
            ),
    }
}

/// `out` is where checking stops and targets begins.
pub open spec fn exits_start(
    t: TraderView,
    prices: Map<Seq<char>, Double>,
    out: (TraderView, ExitsStep),
) -> bool {
    exists|order: Seq<Seq<char>>|
        #[trigger] enumerates(order, t.stop_orders.dom()) && after_stops(
            t,
            prices,
            tracking(t, Leg::Stop, order).ask(),
            out,
        )
}

/// A step that waits longer first.
pub open spec fn delayed(pause: nat, s: ExitsStep) -> ExitsStep {
    match s {
        StepView::Call(p, v, call) => StepView::Call(pause + p, v, call),
        StepView::Done(p, r) => StepView::Done(pause + p, r),
    }
}

/// `out` is what follows an answer.
pub open spec fn exits_step(
    t: TraderView,
    v: ExitsView,
    sent: Result<Json, String>,
    now: Timestamp,
    out: (TraderView, ExitsStep),
) -> bool {
    match v {
        ExitsView::Stops(prices, r) => {
            let next = r.step(t, sent, now);
            after_stops(next.0, prices, next.1, out)
        },
        ExitsView::Targets(prices, before, r) => {
            let next = r.step(t, sent, now);
            after_targets(next.0, prices, before, next.1, out)
        },
        ExitsView::Closing(rest, closed, c) => {
            let next = close_step(t, c, sent, now);
            match next.1 {
                StepView::Call(pause, d, call) => out == (
                    next.0,
                    ExitsStep::Call(
                        pause,
                        ExitsView::Closing(rest, closed, d),
                        call,
                    ),
                ),
                StepView::Done(pause, r) => {
                    let then = close_next(next.0, rest, closed.with(closing_of(c).id, r));
                    out == (then.0, delayed(pause, then.1))
                },
            }
        },
    }
}

/// Named texts that are taken out one by one.
#[derive(Debug)]
pub struct Queue {
    items: Vec<(String, String)>,
    at: usize,
}

impl View for Queue {
    type V = Pairs;

    closed spec fn view(&self) -> Pairs {
        Seq::new(
            (self.items@.len() - self.at) as nat,
            |i: int| (self.items@[self.at + i].0@, self.items@[self.at + i].1@),
        )
    }
}

impl Queue {
    #[verifier::type_invariant]
    spec fn sound(self) -> bool {
        self.at <= self.items@.len()
    }

    fn new() -> (q: Queue)
        ensures
            q@ == Pairs::empty(),
    {
        let q: Queue = Queue { items: Vec::new(), at: 0 };
        assert(q@ =~= Pairs::empty());
        q
    }

    fn push(&mut self, name: String, value: String)
        ensures
            final(self)@ == old(self)@.push((name@, value@)),
    {
        proof {
            use_type_invariant(&*self);
        }
        let ghost before = self@;
        let mut fresh: Queue = Queue { items: Vec::new(), at: 0 };
        std::mem::swap(self, &mut fresh);
        let Queue { mut items, at } = fresh;
        items.push((name, value));
        *self = Queue { items, at };
        assert(self@ =~= before.push((name@, value@)));
    }

    fn pop(&mut self) -> (r: Option<(String, String)>)
        ensures
            match r {
                Some(p) => old(self)@.len() > 0 && (p.0@, p.1@) == old(self)@[0] && final(self)@
                    == old(self)@.skip(1),
                None => old(self)@.len() == 0 && final(self)@ == old(self)@,
            },
    {
        proof {
            use_type_invariant(&*self);
        }
        if self.at < self.items.len() {
            let ghost before = self@;
            let r: (String, String) = (
                self.items[self.at].0.clone(),
                self.items[self.at].1.clone(),
            );
            self.at = self.at + 1;
            assert(self@ =~= before.skip(1));
            Some(r)
        } else {
            None
        }
    }
}

/// Checking stops and targets.
#[derive(Debug)]
pub enum CheckStops {
    /// Looking for filled stop-loss orders.
    Stops(Table<Double>, Reconcile),
    /// Looking for filled take-profit orders, with the trades found before.
    Targets(Table<Double>, Vec<TradeRecord>, Reconcile),
    /// Closing a position, with those that are left to be closed and what came
    /// of the ones before.
    Closing(Queue, Checked, CloseTrade),
}

impl View for CheckStops {
    type V = ExitsView;

    open spec fn view(&self) -> ExitsView {
        match self {
            CheckStops::Stops(prices, r) => ExitsView::Stops(prices@, r@),
            CheckStops::Targets(prices, before, r) => ExitsView::Targets(
                prices@,
                trade_views(before@),
                r@,
            ),
            CheckStops::Closing(rest, closed, c) => ExitsView::Closing(rest@, closed@, c@),
        }
    }
}

fn reached(pos: &Position, price: Double) -> (r: (bool, bool))
    ensures
        r.0 == hits_target(pos@, price),
        r.1 == hits_stop(pos@, price),
{
    let hit_stop: bool = pos.stop_loss.is_positive() && match pos.side {
        Side::Long => price.le(pos.stop_loss),
        Side::Short => pos.stop_loss.le(price),
    };
    let hit_tp: bool = pos.take_profit_1.is_positive() && match pos.side {
        Side::Long => pos.take_profit_1.le(price),
        Side::Short => price.le(pos.take_profit_1),
    };
    (hit_tp, hit_stop)
}

fn exit_due(trader: &KrakenTrader, prices: &Table<Double>, id: &str) -> (r: Option<Leg>)
    requires
        trader@.positions.contains_key(id@),
    ensures
        r == trader@.local_exit(prices@, id@),
{
    match trader.positions().get(id) {
        Some(pos) => match prices.get(pos.pair.as_str()) {
            Some(price) => {
                let (hit_tp, hit_stop) = reached(pos, *price);
                if hit_tp && !trader.resting(Leg::Target).contains_key(id) {
                    Some(Leg::Target)
                } else if hit_stop && !trader.resting(Leg::Stop).contains_key(id) {
                    Some(Leg::Stop)
                } else {
                    None
                }
            },
            None => None,
        },
        None => None,
    }
}

fn exits_due(trader: &KrakenTrader, prices: &Table<Double>) -> (q: Queue)
    ensures
        exists|order: Seq<Seq<char>>|
            #[trigger] enumerates(order, trader@.positions.dom()) && q@ == due(
                trader@,
                prices@,
                order,
            ),
{
    let names: Vec<String> = trader.positions().keys();
    let ghost order = texts(names@);
    let mut q: Queue = Queue::new();
    let mut i: usize = 0;
    assert(order.take(0) =~= Seq::empty());
    while i < names.len()
        invariant
            i <= names@.len(),
            order == texts(names@),
            enumerates(order, trader@.positions.dom()),
            q@ == due(trader@, prices@, order.take(i as int)),
        decreases names@.len() - i,
    {
        assert(order.take(i as int + 1).drop_last() =~= order.take(i as int));
        assert(order.to_set().contains(order[i as int]));
        match exit_due(trader, prices, names[i].as_str()) {
            Some(leg) => {
                let note: &str = match leg {
                    Leg::Stop => "Stop loss hit",
                    Leg::Target => "Take profit 1 hit",
                };
                q.push(names[i].clone(), note.to_owned());
            },
            None => {},
        }
        i = i + 1;
    }
    assert(order.take(order.len() as int) =~= order);
    q
}

fn close_rest(trader: &mut KrakenTrader, queue: Queue, so_far: Checked, pause: u64) -> (s: Step<
    CheckStops,
    Checked,
>)
    ensures
        final(trader)@ == close_next(old(trader)@, queue@, so_far@).0,
        exits_view(s) == delayed(pause as nat, close_next(old(trader)@, queue@, so_far@).1),
{
    let mut rest: Queue = queue;
    let mut closed: Checked = so_far;
    loop
        invariant
            close_next(old(trader)@, queue@, so_far@) == close_next(trader@, rest@, closed@),
        decreases rest@.len(),
    {
        match rest.pop() {
            Some((id, note)) => match trader.begin_close(id.as_str(), note.as_str()) {
                Ok((c, call)) => {
                    return Step {
                        pause,
                        next: Next::Call(CheckStops::Closing(rest, closed, c), call),
                    };
                },
                Err(e) => {
                    closed.add_failure(id, e);
                },
            },
            None => {
                return Step { pause, next: Next::Done(closed) };
            },
        }
    }
}

fn go_after_targets(
    trader: &mut KrakenTrader,
    prices: Table<Double>,
    before: Vec<TradeRecord>,
    s: Step<Reconcile, Vec<TradeRecord>>,
) -> (r: Step<CheckStops, Checked>)
    ensures
        after_targets(
            old(trader)@,
            prices@,
            trade_views(before@),
            trades_step(s),
            (final(trader)@, exits_view(r)),
        ),
{
    let Step { pause, next } = s;
    match next {
        Next::Call(r, call) => Step {
            pause,
            next: Next::Call(CheckStops::Targets(prices, before, r), call),
        },
        Next::Done(found) => {
            let mut found: Vec<TradeRecord> = found;
            let mut all: Vec<TradeRecord> = before;
            let ghost b = all@;
            let ghost f = found@;
            all.append(&mut found);
            assert(trade_views(all@) =~= trade_views(b) + trade_views(f));
            let queue: Queue = exits_due(trader, &prices);
            let none: Vec<(String, ExecutionError)> = Vec::new();
            assert(failed_views(none@) =~= Seq::empty());
            close_rest(trader, queue, Checked { closed: all, failed: none }, 0)
        },
    }
}

fn go_after_stops(
    trader: &mut KrakenTrader,
    prices: Table<Double>,
    s: Step<Reconcile, Vec<TradeRecord>>,
) -> (r: Step<CheckStops, Checked>)
    ensures
        after_stops(
            old(trader)@,
            prices@,
            trades_step(s),
            (final(trader)@, exits_view(r)),
        ),
{
    let Step { pause, next } = s;
    match next {
        Next::Call(r, call) => Step { pause, next: Next::Call(CheckStops::Stops(prices, r), call) },
        Next::Done(found) => {
            let s: Step<Reconcile, Vec<TradeRecord>> = trader.reconcile_filled_tps();
            go_after_targets(trader, prices, found, s)
        },
    }
}

impl KrakenTrader {
    /// Drive exits: first the resting stops and take-profits that have filled,
    /// then the levels that are reached and that no resting order takes care
    /// of.
    pub fn check_stops_live(&mut self, prices: Table<Double>) -> (s: Step<
        CheckStops,
        Checked,
    >)
        ensures
            exits_start(
                old(self)@,
                prices@,
                (final(self)@, exits_view(s)),
            ),
    {
        let s: Step<Reconcile, Vec<TradeRecord>> = self.reconcile_filled_stops();
        go_after_stops(self, prices, s)
    }
}

impl CheckStops {
    /// Take in an answer that came at `now`.
    pub fn resume_at(
        self,
        trader: &mut KrakenTrader,
        sent: Result<Json, String>,
        now: Timestamp,
    ) -> (s: Step<CheckStops, Checked>)
        requires
            self@.may_book() ==> old(trader)@.order_counter < u64::MAX,
        ensures
            exits_step(
                old(trader)@,
                self@,
                sent,
                now,
                (final(trader)@, exits_view(s)),
            ),
    {
        match self {
            CheckStops::Stops(prices, r) => {
                let s: Step<Reconcile, Vec<TradeRecord>> = r.resume_at(trader, sent, now);
                go_after_stops(trader, prices, s)
            },
            CheckStops::Targets(prices, before, r) => {
                let s: Step<Reconcile, Vec<TradeRecord>> = r.resume_at(trader, sent, now);
                go_after_targets(trader, prices, before, s)
            },
            CheckStops::Closing(rest, closed, c) => {
                let id: String = c.id();
                let Step { pause, next } = c.resume_at(trader, sent, now);
                match next {
                    Next::Call(d, call) => Step {
                        pause,
                        next: Next::Call(CheckStops::Closing(rest, closed, d), call),
                    },
                    Next::Done(r) => {
                        let mut all: Checked = closed;
                        match r {
                            Ok(trade) => {
                                all.add_trade(trade);
                            },
                            Err(e) => {
                                all.add_failure(id, e);
                            },
                        }
                        close_rest(trader, rest, all, pause)
                    },
                }
            },
        }
    }

    /// Take in an answer.
    pub fn resume(self, trader: &mut KrakenTrader, sent: Result<Json, String>) -> (s: Step<
        CheckStops,
        Checked,
    >)
        requires
            self@.may_book() ==> old(trader)@.order_counter < u64::MAX,
        ensures
            exists|now: Timestamp|
                now.proper() && #[trigger] exits_step(
                    old(trader)@,
                    self@,
                    sent,
                    now,
                    (final(trader)@, exits_view(s)),
                ),
    {
        let now: Timestamp = utc_now();
        self.resume_at(trader, sent, now)
    }
}

} // verus!
