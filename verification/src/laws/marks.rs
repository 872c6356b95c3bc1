//! What positions and trades are worth.
use crate::clock::Timestamp;
use crate::double::{difference, hundred, positive, product, quotient, sum, zero, Double};
use crate::laws::arithmetic::{law_difference_has_the_sign_of_the_move, law_signs_multiply};
use crate::text::decimal;
use crate::table::enumerates;
use crate::trader::{adds_up, marked, totals, trade_of, PositionView, TraderView};
use crate::types::{Fill, Position, Side};
use vstd::prelude::*;

verus! {

/// Positions, at new market prices.
pub open spec fn at_prices(
    positions: Map<Seq<char>, PositionView>,
    prices: Map<Seq<char>, Double>,
) -> Map<Seq<char>, PositionView> {
    positions.map_values(|pos: PositionView| marked(pos, prices))
}

/// A position whose pair has a price is marked at that price, and its gain is
/// counted from where it was entered: price less entry for a long, entry less
/// price for a short, times the quantity. What it was marked at before has no
/// part in it, and nothing else of it changes. Without a price it stays.
pub proof fn law_gain_is_counted_from_the_entry(
    positions: Map<Seq<char>, PositionView>,
    prices: Map<Seq<char>, Double>,
    id: Seq<char>,
)
    requires
        positions.contains_key(id),
    ensures
        at_prices(positions, prices).dom() == positions.dom(),
        ({
            let pos = positions[id];
            let after = at_prices(positions, prices)[id];
            &&& !prices.contains_key(pos.pair) ==> after == pos
            &&& prices.contains_key(pos.pair) ==> {
                let price = prices[pos.pair];
                &&& after.current_price == price
                &&& pos.side == Side::Long ==> after.unrealized_pnl == product(
                    difference(price, pos.entry_price),
                    pos.quantity,
                )
                &&& pos.side == Side::Short ==> after.unrealized_pnl == product(
                    difference(pos.entry_price, price),
                    pos.quantity,
                )
                &&& after == (Position {
                    current_price: after.current_price,
                    unrealized_pnl: after.unrealized_pnl,
                    ..pos
                })
            }
        }),
{
    assert(at_prices(positions, prices).dom() =~= positions.dom());
}

/// Two positions that differ only in what they were marked at before are the
/// same after a new price.
pub proof fn law_earlier_marks_have_no_part(
    a: PositionView,
    b: PositionView,
    prices: Map<Seq<char>, Double>,
)
    requires
        b == (Position {
            current_price: b.current_price,
            unrealized_pnl: b.unrealized_pnl,
            ..a
        }),
        prices.contains_key(a.pair),
    ensures
        marked(a, prices) == marked(b, prices),
{
}

/// Marking twice is marking once with the later prices, where these cover the
/// pairs.
pub proof fn law_later_prices_replace_earlier(
    positions: Map<Seq<char>, PositionView>,
    earlier: Map<Seq<char>, Double>,
    later: Map<Seq<char>, Double>,
)
    requires
        forall|id: Seq<char>| #[trigger]
            positions.contains_key(id) ==> later.contains_key(positions[id].pair),
    ensures
        at_prices(at_prices(positions, earlier), later) == at_prices(positions, later),
{
    let once = at_prices(positions, later);
    let twice = at_prices(at_prices(positions, earlier), later);
    assert(once =~= twice);
}

/// The totals are of nothing where there is no position; one more position
/// with a price adds its gain since it was entered, and what it was entered
/// for. One without a price adds nothing.
pub proof fn law_totals_count_every_position(
    positions: Map<Seq<char>, PositionView>,
    prices: Map<Seq<char>, Double>,
    order: Seq<Seq<char>>,
    id: Seq<char>,
)
    ensures
        totals(positions, prices, Seq::empty()) == (zero(), zero()),
        ({
            let before = totals(positions, prices, order);
            let after = totals(positions, prices, order.push(id));
            let pos = positions[id];
            &&& !prices.contains_key(pos.pair) ==> after == before
            &&& prices.contains_key(pos.pair) ==> {
                let price = prices[pos.pair];
                &&& pos.side == Side::Long ==> after.0 == sum(
                    before.0,
                    product(difference(price, pos.entry_price), pos.quantity),
                )
                &&& pos.side == Side::Short ==> after.0 == sum(
                    before.0,
                    product(difference(pos.entry_price, price), pos.quantity),
                )
                &&& after.1 == sum(before.1, product(pos.entry_price, pos.quantity))
            }
        }),
{
    assert(order.push(id).drop_last() =~= order);
}

/// The totals are of the positions as they were entered: marking them, at
/// whatever prices, does not change what a later price makes of them.
pub proof fn law_totals_do_not_depend_on_earlier_marks(
    positions: Map<Seq<char>, PositionView>,
    earlier: Map<Seq<char>, Double>,
    prices: Map<Seq<char>, Double>,
    order: Seq<Seq<char>>,
)
    requires
        forall|i: int| 0 <= i < order.len() ==> positions.contains_key(#[trigger] order[i]),
    ensures
        totals(at_prices(positions, earlier), prices, order) == totals(positions, prices, order),
    decreases order.len(),
{
    if order.len() > 0 {
        let rest = order.drop_last();
        assert forall|i: int| 0 <= i < rest.len() implies positions.contains_key(
            #[trigger] rest[i],
        ) by {
            assert(rest[i] == order[i]);
        }
        law_totals_do_not_depend_on_earlier_marks(positions, earlier, prices, rest);
        assert(positions.contains_key(order[order.len() - 1]));
    }
}

/// Of a position that is closed, the trade says the pair, side, entry, name
/// and time of opening of the position, and price, volume of what was
/// executed. Its gain is that of the volume executed, from entry to exit, less
/// the fee.
pub proof fn law_trade_tells_of_position_and_fill(
    t: TraderView,
    pos: PositionView,
    fill: Fill,
    note: Seq<char>,
    now: Timestamp,
)
    ensures
        ({
            let trade = trade_of(t.order_counter, pos, fill, note, now);
            &&& trade.id == "live-"@ + decimal(t.order_counter as nat)
            &&& trade.pair == pos.pair
            &&& trade.side == pos.side
            &&& trade.entry_price == pos.entry_price
            &&& trade.strategy_name == pos.strategy_name
            &&& trade.opened_at == pos.opened_at
            &&& trade.closed_at == now
            &&& trade.notes == note
            &&& trade.exit_price == fill.price
            &&& trade.quantity == fill.volume
            &&& pos.side == Side::Long ==> trade.pnl == difference(
                product(difference(fill.price, pos.entry_price), fill.volume),
                fill.fee,
            )
            &&& pos.side == Side::Short ==> trade.pnl == difference(
                product(difference(pos.entry_price, fill.price), fill.volume),
                fill.fee,
            )
        }),
{
}

/// The gain in percent is the gain over what was paid for the volume executed,
/// times a hundred; it is zero where nothing was paid.
pub proof fn law_percentage_is_of_what_was_paid(
    t: TraderView,
    pos: PositionView,
    fill: Fill,
    note: Seq<char>,
    now: Timestamp,
)
    ensures
        ({
            let trade = trade_of(t.order_counter, pos, fill, note, now);
            let paid = product(pos.entry_price, fill.volume);
            &&& positive(paid) ==> trade.pnl_pct == product(quotient(trade.pnl, paid), hundred())
            &&& !positive(paid) ==> trade.pnl_pct == zero()
        }),
{
}

/// Booking a fill takes the position away and no other, appends one trade,
/// credits its gain to balance and day, and counts it. What rests on the
/// exchange, the equity and the settings stay.
pub proof fn law_booking_changes_the_books_once(
    t: TraderView,
    id: Seq<char>,
    pos: PositionView,
    fill: Fill,
    note: Seq<char>,
    now: Timestamp,
    other: Seq<char>,
)
    requires
        t.order_counter < u64::MAX,
        t.positions.dom().finite(),
        t.positions.len() <= usize::MAX,
    ensures
        ({
            let after = t.booked(id, pos, fill, note, now);
            let trade = trade_of(t.order_counter, pos, fill, note, now);
            &&& !after.positions.contains_key(id)
            &&& other != id ==> after.positions.contains_key(other) == t.positions.contains_key(
                other,
            )
            &&& other != id && t.positions.contains_key(other) ==> after.positions[other]
                == t.positions[other]
            &&& after.closed_trades == t.closed_trades.push(trade)
            &&& after.account.balance == sum(t.account.balance, trade.pnl)
            &&& after.account.daily_pnl == sum(t.account.daily_pnl, trade.pnl)
            &&& after.account.equity == t.account.equity
            &&& after.account.open_positions == t.positions.len() - if t.positions.contains_key(
                id,
            ) {
                1int
            } else {
                0
            }
            &&& after.order_counter == t.order_counter + 1
            &&& after.stop_orders == t.stop_orders
            &&& after.tp_orders == t.tp_orders
            &&& after.pair_meta == t.pair_meta
        }),
{
    assert(t.positions.remove(id).dom() =~= t.positions.dom().remove(id));
}


/// The totals that marking gives back are over all positions, each once: gains
/// first, then what was paid.
pub proof fn law_totals_are_over_all_positions(
    positions: Map<Seq<char>, PositionView>,
    prices: Map<Seq<char>, Double>,
    t: (Double, Double),
)
    requires
        adds_up(positions, prices, t),
    ensures
        exists|order: Seq<Seq<char>>|
            {
                &&& #[trigger] order.no_duplicates()
                &&& order.to_set() == positions.dom()
                &&& t.0 == totals(positions, prices, order).0
                &&& t.1 == totals(positions, prices, order).1
            },
{
    let order = choose|order: Seq<Seq<char>>|
        #[trigger] enumerates(order, positions.dom()) && totals(positions, prices, order) == t;
    assert(order.no_duplicates());
}


/// A long gains where the price is above its entry and loses where it is
/// below, a short the other way round, whatever either was marked at before.
pub proof fn law_gain_has_the_sign_of_the_move(
    pos: PositionView,
    prices: Map<Seq<char>, Double>,
)
    requires
        prices.contains_key(pos.pair),
        prices[pos.pair].finite(),
        pos.entry_price.finite(),
        pos.quantity.finite(),
        !pos.quantity.negative(),
        difference(prices[pos.pair], pos.entry_price).finite(),
        difference(pos.entry_price, prices[pos.pair]).finite(),
    ensures
        ({
            let (price, entry) = (prices[pos.pair].value(), pos.entry_price.value());
            let after = marked(pos, prices).unrealized_pnl;
            &&& price > entry ==> after.negative() == (pos.side == Side::Short)
            &&& price < entry ==> after.negative() == (pos.side == Side::Long)
        }),
{
    let (price, entry) = (prices[pos.pair], pos.entry_price);
    law_difference_has_the_sign_of_the_move(price, entry);
    law_difference_has_the_sign_of_the_move(entry, price);
    law_signs_multiply(difference(price, entry), pos.quantity);
    law_signs_multiply(difference(entry, price), pos.quantity);
}

} // verus!
