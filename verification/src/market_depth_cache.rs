//! The aggregated-depth cache: per side, a mapping from a coarsened price
//! level to the total resting quantity there, fed solely by the events the
//! book publishes.

use vstd::prelude::*;

use crate::order_book::OrderBook;
use crate::types::AggregatedDepthMap;
use crate::types::Order;
use crate::types::OrderEvent;
use crate::types::Price;
use crate::types::Side;

verus! {

/// Addition of quantities that stops at `u64::MAX` instead of wrapping.
/// For every total a book can realistically hold the result is the plain
/// sum.
pub open spec fn sat_add(a: u64, b: u64) -> u64 {
    if a + b <= u64::MAX {
        (a + b) as u64
    } else {
        u64::MAX
    }
}

/// The total quantity a depth mapping stores at a level; 0 if the level
/// has never been touched.
pub open spec fn level_total(m: Map<Price, u64>, level: Price) -> u64 {
    if m.dom().contains(level) {
        m[level]
    } else {
        0
    }
}

/// How one event changes a depth mapping: its quantity delta is added to
/// the total at the event's aggregated level, creating the entry if
/// absent.
pub open spec fn depth_insert(m: Map<Price, u64>, e: OrderEvent) -> Map<Price, u64> {
    m.insert(
        e.price.aggregated(),
        sat_add(level_total(m, e.price.aggregated()), e.quantity_delta),
    )
}

/// One step of a side's evolution: events of the other side leave it
/// untouched.
pub open spec fn depth_step(side: Side) -> spec_fn(Map<Price, u64>, OrderEvent) -> Map<
    Price,
    u64,
> {
    |m: Map<Price, u64>, e: OrderEvent| if e.side == side {
        depth_insert(m, e)
    } else {
        m
    }
}

/// The state of one side of a cache that started empty and processed the
/// given events in the given order.
pub open spec fn depth_after(events: Seq<OrderEvent>, side: Side) -> Map<Price, u64> {
    events.fold_left(Map::<Price, u64>::empty(), depth_step(side))
}

/// The sum of the quantity deltas of the events of a side whose exact
/// price aggregates to the level.
pub open spec fn sum_deltas(events: Seq<OrderEvent>, side: Side, level: Price) -> int
    decreases events.len(),
{
    if events.len() == 0 {
        0
    } else {
        sum_deltas(events.drop_last(), side, level) + if events.last().side == side
            && events.last().price.aggregated() == level {
            events.last().quantity_delta as int
        } else {
            0
        }
    }
}

/// The depth cache. It owns its two sides exclusively and never reads the
/// book's storage: the only information reaching it is the `OrderEvent`
/// value a caller hands to `process_order_event`.
///
/// Totals accumulate with saturating addition: a total that would pass
/// `u64::MAX` stays at `u64::MAX` instead of overflowing, so processing
/// an event can never fail.
///
/// The cache holds no lock of its own, and since events commute
/// (`lemma_apply_commutes`) a program sharing depth across threads may
/// keep one cache per side, each behind its own reader-writer lock, so
/// that a write to the bid side never blocks a read of the ask side.
#[derive(Debug)]
pub struct MarketDepthCache {
    /// Aggregated bid depth: coarsened price level, to total quantity.
    aggregated_bid_depth: AggregatedDepthMap,
    /// Aggregated ask depth: coarsened price level, to total quantity.
    aggregated_ask_depth: AggregatedDepthMap,
}

/// Adds the event's quantity delta to the total at its aggregated level.
fn accumulate(depth: &mut AggregatedDepthMap, event: &OrderEvent)
    ensures
        final(depth)@ == depth_insert(old(depth)@, *event),
{
    let level = OrderBook::aggregate_price_to_level(event.price);
    let current: u64 = match depth.get(level) {
        Some(q) => *q,
        None => 0,
    };
    let updated: u64 = if event.quantity_delta > u64::MAX - current {
        u64::MAX
    } else {
        current + event.quantity_delta
    };
    let _ = depth.put(level, updated);
}

impl MarketDepthCache {
    /// The bid side: coarsened price level, to total resting quantity.
    pub closed spec fn bid_depth(self) -> Map<Price, u64> {
        self.aggregated_bid_depth@
    }

    /// The ask side: coarsened price level, to total resting quantity.
    pub closed spec fn ask_depth(self) -> Map<Price, u64> {
        self.aggregated_ask_depth@
    }

    /// The mapping of the given side.
    pub open spec fn depth(self, side: Side) -> Map<Price, u64> {
        match side {
            Side::Bid => self.bid_depth(),
            Side::Ask => self.ask_depth(),
        }
    }

    /// Creates a new empty market depth cache.
    pub fn new() -> (cache: Self)
        ensures
            cache.bid_depth() == Map::<Price, u64>::empty(),
            cache.ask_depth() == Map::<Price, u64>::empty(),
    {
        MarketDepthCache {
            aggregated_bid_depth: AggregatedDepthMap::new(),
            aggregated_ask_depth: AggregatedDepthMap::new(),
        }
    }

    /// Processes one order event: the event's quantity delta is added to
    /// the stored total at its aggregated price level on its side,
    /// creating the entry with that delta if absent. The other side is
    /// untouched.
    pub fn process_order_event(&mut self, event: OrderEvent)
        ensures
            event.side == Side::Bid ==> final(self).bid_depth() == depth_insert(
                old(self).bid_depth(),
                event,
            ) && final(self).ask_depth() == old(self).ask_depth(),
            event.side == Side::Ask ==> final(self).ask_depth() == depth_insert(
                old(self).ask_depth(),
                event,
            ) && final(self).bid_depth() == old(self).bid_depth(),
    {
        match event.side {
            Side::Bid => accumulate(&mut self.aggregated_bid_depth, &event),
            Side::Ask => accumulate(&mut self.aggregated_ask_depth, &event),
        }
    }

    /// An independent copy of both sides' current state, safe to read
    /// and iterate after the call returns regardless of later events.
    /// Two calls with no event processed in between return equal
    /// mappings, both equal to the cache's state.
    pub fn get_aggregated_market_depth(&self) -> (r: (AggregatedDepthMap, AggregatedDepthMap))
        ensures
            r.0@ == self.bid_depth(),
            r.1@ == self.ask_depth(),
    {
        (self.aggregated_bid_depth.duplicate(), self.aggregated_ask_depth.duplicate())
    }

    /// The total quantity at an aggregated price level, or 0 if the
    /// level has never been touched.
    pub fn get_quantity_at_level(&self, aggregated_level: Price, side: Side) -> (r: u64)
        ensures
            r == level_total(self.depth(side), aggregated_level),
    {
        let depth = match side {
            Side::Bid => &self.aggregated_bid_depth,
            Side::Ask => &self.aggregated_ask_depth,
        };
        match depth.get(aggregated_level) {
            Some(q) => *q,
            None => 0,
        }
    }

    /// The number of aggregated price levels on the bid side.
    pub fn bid_levels_count(&self) -> (r: usize)
        ensures
            self.bid_depth().dom().finite(),
            r == self.bid_depth().dom().len(),
    {
        self.aggregated_bid_depth.len()
    }

    /// The number of aggregated price levels on the ask side.
    pub fn ask_levels_count(&self) -> (r: usize)
        ensures
            self.ask_depth().dom().finite(),
            r == self.ask_depth().dom().len(),
    {
        self.aggregated_ask_depth.len()
    }

    /// Clears both sides to empty, as on construction.
    pub fn clear(&mut self)
        ensures
            final(self).bid_depth() == Map::<Price, u64>::empty(),
            final(self).ask_depth() == Map::<Price, u64>::empty(),
    {
        self.aggregated_bid_depth.clear();
        self.aggregated_ask_depth.clear();
    }
}

impl Default for MarketDepthCache {
    /// An empty market depth cache.
    fn default() -> (cache: Self)
        ensures
            cache.bid_depth() == Map::<Price, u64>::empty(),
            cache.ask_depth() == Map::<Price, u64>::empty(),
    {
        Self::new()
    }
}

/// Aggregation correctness: after a side of a cache that started empty
/// has processed a sequence of events, the total it stores at a level is
/// the sum of the quantity deltas of that side's events aggregating to
/// that level, capped at `u64::MAX`. Whenever the sum fits in a `u64` —
/// every realistic history — the stored total is exactly that sum.
pub proof fn lemma_aggregation_correctness(events: Seq<OrderEvent>, side: Side, level: Price)
    ensures
        sum_deltas(events, side, level) >= 0,
        level_total(depth_after(events, side), level) as int == if sum_deltas(
            events,
            side,
            level,
        ) <= u64::MAX {
            sum_deltas(events, side, level)
        } else {
            u64::MAX as int
        },
    decreases events.len(),
{
    if events.len() > 0 {
        lemma_aggregation_correctness(events.drop_last(), side, level);
    }
}

/// The event `insert_order` publishes for an order: the order's exact
/// price, its quantity as the delta, and its side.
pub open spec fn event_of(o: Order) -> OrderEvent {
    OrderEvent { price: o.price, quantity_delta: o.quantity, side: o.side }
}

/// The events a book publishes for a sequence of insertions, in order.
pub open spec fn events_of(orders: Seq<Order>) -> Seq<OrderEvent> {
    orders.map_values(|o: Order| event_of(o))
}

/// The sum of the quantities of the orders of a side whose exact price
/// aggregates to the level.
pub open spec fn sum_quantities(orders: Seq<Order>, side: Side, level: Price) -> int
    decreases orders.len(),
{
    if orders.len() == 0 {
        0
    } else {
        sum_quantities(orders.drop_last(), side, level) + if orders.last().side == side
            && orders.last().price.aggregated() == level {
            orders.last().quantity as int
        } else {
            0
        }
    }
}

/// Aggregation correctness, stated over the insertions themselves: after
/// every event resulting from a sequence of inserted orders has been fed
/// to a cache, the total stored at a level is the sum of the quantities
/// of that side's orders whose exact price truncates to that level,
/// capped at `u64::MAX`.
pub proof fn lemma_insertions_aggregate(orders: Seq<Order>, side: Side, level: Price)
    ensures
        level_total(depth_after(events_of(orders), side), level) as int == if sum_quantities(
            orders,
            side,
            level,
        ) <= u64::MAX {
            sum_quantities(orders, side, level)
        } else {
            u64::MAX as int
        },
{
    lemma_sum_quantities_matches(orders, side, level);
    lemma_aggregation_correctness(events_of(orders), side, level);
}

/// The order-based and event-based sums agree.
proof fn lemma_sum_quantities_matches(orders: Seq<Order>, side: Side, level: Price)
    ensures
        sum_quantities(orders, side, level) == sum_deltas(events_of(orders), side, level),
    decreases orders.len(),
{
    if orders.len() > 0 {
        lemma_sum_quantities_matches(orders.drop_last(), side, level);
        assert(events_of(orders).drop_last() =~= events_of(orders.drop_last()));
        assert(events_of(orders).last() == event_of(orders.last()));
    }
}

/// Order independence (commutativity): feeding a cache the same multiset
/// of events in any order leaves a side with the same final totals,
/// because each event's effect is a pure per-level addition.
pub proof fn lemma_apply_commutes(a: Seq<OrderEvent>, b: Seq<OrderEvent>, side: Side)
    requires
        a.to_multiset() == b.to_multiset(),
    ensures
        depth_after(a, side) == depth_after(b, side),
{
    let f = depth_step(side);
    assert forall|x: OrderEvent, y: OrderEvent, v: Map<Price, u64>| #[trigger]
        f(f(v, x), y) == f(f(v, y), x) by {
        lemma_depth_step_commutes(v, x, y, side);
    }
    vstd::seq_lib::lemma_fold_left_permutation(a, b, f, Map::<Price, u64>::empty());
}

/// Two events change a side's mapping to the same state in either order.
proof fn lemma_depth_step_commutes(v: Map<Price, u64>, x: OrderEvent, y: OrderEvent, side: Side)
    ensures
        depth_step(side)(depth_step(side)(v, x), y) == depth_step(side)(
            depth_step(side)(v, y),
            x,
        ),
{
    let f = depth_step(side);
    if x.side == side && y.side == side {
        let lx = x.price.aggregated();
        let ly = y.price.aggregated();
        if lx == ly {
            assert(f(f(v, x), y) =~= f(f(v, y), x));
        } else {
            assert(f(f(v, x), y) =~= f(f(v, y), x));
        }
    }
}

} // verus!
