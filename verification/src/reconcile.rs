//! Catching up with what happened on the exchange, and exits that the trader
//! drives itself.
use crate::clock::{utc_now, Timestamp};
use crate::fill::{read_report, told, Report};
use crate::json::Json;
use crate::request::{
    cancel_call, cancellation_of, query_call, query_of, trades_step, Call, Pairs, Step, StepView,
};
use crate::table::{enumerates, texts, Table};
use crate::trader::{trade_of, KrakenTrader, TradeView, TraderView};
use crate::types::{trade_views, Fill, Leg, Position, TradeRecord};
use vstd::prelude::*;
use vstd::string::*;

verus! {

/// Looking for resting orders that have filled, in contracts.
pub struct ReconcileView {
    /// The kind of order.
    pub leg: Leg,
    /// The positions and orders that are left, the current one first.
    pub rest: Pairs,
    /// The trades found so far.
    pub closed: Seq<TradeView>,
    /// While the sibling of the current order is cancelled: what that order
    /// came to. Else QueryOrders is waited for.
    pub filled: Option<Fill>,
}

/// Steps of looking for filled orders, in contracts.
pub type ReconcileStep = StepView<ReconcileView, Seq<TradeView>>;

impl ReconcileView {
    /// Done with the current order.
    pub open spec fn passed(self) -> ReconcileView {
        ReconcileView { rest: self.rest.skip(1), filled: None, ..self }
    }

    /// Ask for the current order, or be done where there is none.
    pub open spec fn ask(self) -> ReconcileStep {
        if self.rest.len() == 0 {
            StepView::Done(0, self.closed)
        } else {
            StepView::Call(0, self, query_of(self.rest[0].1))
        }
    }

    /// Once the current order has filled and no order rests for its position:
    /// the trade is booked, where the position is still there.
    pub open spec fn settle(self, t: TraderView, fill: Fill, now: Timestamp) -> (
        TraderView,
        ReconcileStep,
    ) {
        let id = self.rest[0].0;
        if t.positions.contains_key(id) {
            let pos = t.positions[id];
            let note = self.leg.fill_note();
            let trade = trade_of(t.order_counter, pos, fill, note, now);
            (
                t.booked(id, pos, fill, note, now),
                ReconcileView { closed: self.closed.push(trade), ..self.passed() }.ask(),
            )
        } else {
            (t, self.passed().ask())
        }
    }

    /// What a report of the current order leads to. A filled order and its
    /// sibling are forgotten, the sibling is cancelled. An order that was
    /// ended early is forgotten.
    pub open spec fn heard(self, t: TraderView, report: Report<Seq<char>>, now: Timestamp) -> (
        TraderView,
        ReconcileStep,
    ) {
        let id = self.rest[0].0;
        let sibling = self.leg.sibling();
        if report.closed() {
            let forgotten = t.without_leg(self.leg, id);
            if forgotten.legs(sibling).contains_key(id) {
                (
                    forgotten.without_leg(sibling, id),
                    StepView::Call(
                        0,
                        ReconcileView { filled: Some(report.fill), ..self },
                        cancellation_of(forgotten.legs(sibling)[id]),
                    ),
                )
            } else {
                self.settle(forgotten, report.fill, now)
            }
        } else if report.ended() {
            (t.without_leg(self.leg, id), self.passed().ask())
        } else {
            (t, self.passed().ask())
        }
    }

    /// What follows an answer. Whether the sibling could be cancelled makes no
    /// difference; an order of which nothing is heard is passed over.
    pub open spec fn step(self, t: TraderView, sent: Result<Json, String>, now: Timestamp) -> (
        TraderView,
        ReconcileStep,
    ) {
        match self.filled {
            Some(fill) => self.settle(t, fill, now),
            None => match told(sent, self.rest[0].1) {
                Some(report) => self.heard(t, report, now),
                None => (t, self.passed().ask()),
            },
        }
    }
}

/// The resting orders `m` in this order.
pub open spec fn listed(m: Map<Seq<char>, Seq<char>>, order: Seq<Seq<char>>) -> Pairs {
    Seq::new(order.len(), |i: int| (order[i], m[order[i]]))
}

/// Looking for filled orders among those of one kind, asked for in this order.
pub open spec fn tracking(t: TraderView, leg: Leg, order: Seq<Seq<char>>) -> ReconcileView {
    ReconcileView {
        leg,
        rest: listed(t.legs(leg), order),
        closed: Seq::empty(),
        filled: None,
    }
}

/// Looking for resting orders that have filled.
#[derive(Debug)]
pub struct Reconcile {
    leg: Leg,
    watched: Vec<(String, String)>,
    at: usize,
    closed: Vec<TradeRecord>,
    filled: Option<Fill>,
}

/// The pairs of `v` from `at` on.
spec fn pairs_from(v: Seq<(String, String)>, at: int) -> Pairs {
    Seq::new((v.len() - at) as nat, |i: int| (v[at + i].0@, v[at + i].1@))
}

impl View for Reconcile {
    type V = ReconcileView;

    closed spec fn view(&self) -> ReconcileView {
        ReconcileView {
            leg: self.leg,
            rest: pairs_from(self.watched@, self.at as int),
            closed: trade_views(self.closed@),
            filled: self.filled,
        }
    }
}

impl Reconcile {
    #[verifier::type_invariant]
    spec fn sound(self) -> bool {
        self.at < self.watched@.len()
    }

    fn ask(
        leg: Leg,
        watched: Vec<(String, String)>,
        at: usize,
        closed: Vec<TradeRecord>,
    ) -> (s: Step<Reconcile, Vec<TradeRecord>>)
        requires
            at <= watched@.len(),
        ensures
            trades_step(s) == (ReconcileView {
                leg,
                rest: pairs_from(watched@, at as int),
                closed: trade_views(closed@),
                filled: None,
            }).ask(),
    {
        if at >= watched.len() {
            Step::done(closed)
        } else {
            let call: Call = query_call(watched[at].1.as_str());
            Step::call(Reconcile { leg, watched, at, closed, filled: None }, call)
        }
    }

    fn pass(self) -> (s: Step<Reconcile, Vec<TradeRecord>>)
        ensures
            trades_step(s) == self@.passed().ask(),
    {
        proof {
            use_type_invariant(&self);
        }
        let ghost v = self@;
        let Reconcile { leg, watched, at, closed, filled: _ } = self;
        assert(at < watched.len());
        assert(pairs_from(watched@, at as int + 1) =~= v.rest.skip(1));
        Reconcile::ask(leg, watched, at + 1, closed)
    }

    fn settle(self, trader: &mut KrakenTrader, fill: Fill, now: Timestamp) -> (s: Step<
        Reconcile,
        Vec<TradeRecord>,
    >)
        requires
            old(trader)@.order_counter < u64::MAX,
        ensures
            (final(trader)@, trades_step(s)) == self@.settle(
                old(trader)@,
                fill,
                now,
            ),
    {
        proof {
            use_type_invariant(&self);
        }
        let ghost v = self@;
        let pos: Position = match trader.positions().get(self.watched[self.at].0.as_str()) {
            Some(p) => p.copy(),
            None => {
                return self.pass();
            },
        };
        let trade: TradeRecord = trader.book(
            self.watched[self.at].0.as_str(),
            &pos,
            fill,
            self.leg.note(),
            now,
        );
        let Reconcile { leg, watched, at, mut closed, filled: _ } = self;
        let ghost before = closed@;
        closed.push(trade);
        assert(trade_views(closed@) =~= trade_views(before).push(trade@));
        assert(at < watched.len());
        assert(pairs_from(watched@, at as int + 1) =~= v.rest.skip(1));
        Reconcile::ask(leg, watched, at + 1, closed)
    }

    fn hear(self, trader: &mut KrakenTrader, report: Report, now: Timestamp) -> (s: Step<
        Reconcile,
        Vec<TradeRecord>,
    >)
        requires
            old(trader)@.order_counter < u64::MAX,
        ensures
            (final(trader)@, trades_step(s)) == self@.heard(
                old(trader)@,
                report@,
                now,
            ),
    {
        proof {
            use_type_invariant(&self);
        }
        let id: String = self.watched[self.at].0.clone();
        if report.is_closed() {
            let _ = trader.take_leg(self.leg, id.as_str());
            let ghost forgotten = trader@;
            match trader.take_leg(self.leg.other(), id.as_str()) {
                Some(txid) => {
                    let Reconcile { leg, watched, at, closed, filled: _ } = self;
                    Step::call(
                        Reconcile { leg, watched, at, closed, filled: Some(report.fill) },
                        cancel_call(txid.as_str()),
                    )
                },
                None => {
                    let ghost sibling = self.leg.sibling();
                    assert(forgotten.legs(sibling).remove(id@) =~= forgotten.legs(sibling));
                    assert(trader@ == forgotten);
                    self.settle(trader, report.fill, now)
                },
            }
        } else if report.is_ended() {
            let _ = trader.take_leg(self.leg, id.as_str());
            self.pass()
        } else {
            self.pass()
        }
    }

    /// Take in an answer that came at `now`.
    pub fn resume_at(
        self,
        trader: &mut KrakenTrader,
        sent: Result<Json, String>,
        now: Timestamp,
    ) -> (s: Step<Reconcile, Vec<TradeRecord>>)
        requires
            old(trader)@.order_counter < u64::MAX,
        ensures
            (final(trader)@, trades_step(s)) == self@.step(
                old(trader)@,
                sent,
                now,
            ),
    {
        proof {
            use_type_invariant(&self);
        }
        match self.filled {
            Some(fill) => self.settle(trader, fill, now),
            None => match read_report(sent, self.watched[self.at].1.as_str()) {
                Some(report) => self.hear(trader, report, now),
                None => self.pass(),
            },
        }
    }

    /// Take in an answer.
    pub fn resume(self, trader: &mut KrakenTrader, sent: Result<Json, String>) -> (s: Step<
        Reconcile,
        Vec<TradeRecord>,
    >)
        requires
            old(trader)@.order_counter < u64::MAX,
        ensures
            exists|now: Timestamp|
                now.proper() && (final(trader)@, trades_step(s))
                    == #[trigger] self@.step(old(trader)@, sent, now),
    {
        let now: Timestamp = utc_now();
        self.resume_at(trader, sent, now)
    }
}

impl KrakenTrader {
    /// Begin to look for filled orders of one kind.
    pub(crate) fn reconcile(&self, leg: Leg) -> (s: Step<Reconcile, Vec<TradeRecord>>)
        ensures
            exists|order: Seq<Seq<char>>|
                #[trigger] enumerates(order, self@.legs(leg).dom()) && trades_step(s) == tracking(
                    self@,
                    leg,
                    order,
                ).ask(),
    {
        let table: &Table<String> = self.resting(leg);
        let names: Vec<String> = table.keys();
        let ghost order = texts(names@);
        let mut watched: Vec<(String, String)> = Vec::new();
        let mut i: usize = 0;
        while i < names.len()
            invariant
                i <= names@.len(),
                i == watched@.len(),
                order == texts(names@),
                table@ == self@.legs(leg),
                enumerates(order, table@.dom()),
                forall|j: int|
                    0 <= j < i ==> (#[trigger] watched@[j]).0@ == order[j] && watched@[j].1@
                        == table@[order[j]],
            decreases names@.len() - i,
        {
            assert(order.to_set().contains(order[i as int]));
            match table.get(names[i].as_str()) {
                Some(txid) => {
                    watched.push((names[i].clone(), txid.clone()));
                },
                None => {},
            }
            i = i + 1;
        }
        let closed: Vec<TradeRecord> = Vec::new();
        assert(pairs_from(watched@, 0) =~= listed(self@.legs(leg), order));
        assert(trade_views(closed@) =~= Seq::empty());
        Reconcile::ask(leg, watched, 0, closed)
    }

    /// Look for resting stop-loss orders that have filled: each one's trade is
    /// booked, its sibling take-profit cancelled, and the position dropped.
    pub fn reconcile_filled_stops(&self) -> (s: Step<Reconcile, Vec<TradeRecord>>)
        ensures
            exists|order: Seq<Seq<char>>|
                #[trigger] enumerates(order, self@.stop_orders.dom()) && trades_step(s) == tracking(
                    self@,
                    Leg::Stop,
                    order,
                ).ask(),
    {
        self.reconcile(Leg::Stop)
    }

    /// Look for resting take-profit orders that have filled: each one's trade
    /// is booked, its sibling stop cancelled, and the position dropped.
    pub fn reconcile_filled_tps(&self) -> (s: Step<Reconcile, Vec<TradeRecord>>)
        ensures
            exists|order: Seq<Seq<char>>|
                #[trigger] enumerates(order, self@.tp_orders.dom()) && trades_step(s) == tracking(
                    self@,
                    Leg::Target,
                    order,
                ).ask(),
    {
        self.reconcile(Leg::Target)
    }
}

} // verus!
