//! The core order book: two price-sorted sides of resting orders with
//! price-time priority, publishing an event for every insertion.

use vstd::prelude::*;

use crate::types::Order;
use crate::types::OrderEvent;
use crate::types::Price;
use crate::types::PriceLevelMap;
use crate::types::Side;
use crate::types::TICKS_PER_UNIT;

verus! {

/// The orders resting at a price of a side, earliest first; empty if the
/// side has no orders at that price.
pub open spec fn side_orders(m: Map<Price, Seq<Order>>, price: Price) -> Seq<Order> {
    if m.dom().contains(price) {
        m[price]
    } else {
        Seq::empty()
    }
}

/// How one insertion changes a side: the order is appended at the end of
/// its price's sequence, so ties at a price keep arrival order.
pub open spec fn side_insert(m: Map<Price, Seq<Order>>, order: Order) -> Map<Price, Seq<Order>> {
    m.insert(order.price, side_orders(m, order.price).push(order))
}

/// Whether an order belongs to the given side at the given exact price.
pub open spec fn at_level(side: Side, price: Price) -> spec_fn(Order) -> bool {
    |o: Order| o.side == side && o.price == price
}

/// One step of the side's evolution: orders of the other side leave it
/// untouched.
pub open spec fn side_step(side: Side) -> spec_fn(Map<Price, Seq<Order>>, Order) -> Map<
    Price,
    Seq<Order>,
> {
    |m: Map<Price, Seq<Order>>, o: Order| if o.side == side {
        side_insert(m, o)
    } else {
        m
    }
}

/// The state of one side of a book that started empty and had the given
/// orders inserted in the given arrival order.
pub open spec fn side_after(orders: Seq<Order>, side: Side) -> Map<Price, Seq<Order>> {
    orders.fold_left(Map::<Price, Seq<Order>>::empty(), side_step(side))
}

/// The mapping of a side seen through the views of its order vectors.
spec fn seq_view_map(m: Map<Price, Vec<Order>>) -> Map<Price, Seq<Order>> {
    Map::new(|p: Price| m.dom().contains(p), |p: Price| m[p]@)
}

/// The order book: accepts orders, maintains two price-sorted,
/// time-ordered sides, and answers best-price and occupancy queries.
///
/// The book holds no lock of its own: a program sharing one instance
/// across threads wraps it in a reader-writer lock, taking the write
/// acquisition only for the brief `insert_order` call.
#[derive(Debug)]
pub struct OrderBook {
    /// Ask side (sell orders): the best ask is the least price present.
    ask_levels: PriceLevelMap,
    /// Bid side (buy orders): the best bid is the greatest price present.
    bid_levels: PriceLevelMap,
}

/// Appends the order at the end of its exact price's sequence, creating
/// the level if absent.
fn append_to_level(levels: &mut PriceLevelMap, order: Order)
    ensures
        seq_view_map(final(levels)@) == side_insert(seq_view_map(old(levels)@), order),
{
    let ghost m0 = old(levels)@;
    let price = order.price;
    let mut orders: Vec<Order> = match levels.put(price, Vec::new()) {
        Some(existing) => existing,
        None => Vec::new(),
    };
    orders.push(order);
    let _ = levels.put(price, orders);
    proof {
        assert(seq_view_map(levels@) =~= side_insert(seq_view_map(m0), order));
    }
}

impl OrderBook {
    /// The bid side: exact price, to the orders resting there in arrival
    /// order.
    pub closed spec fn bids(self) -> Map<Price, Seq<Order>> {
        seq_view_map(self.bid_levels@)
    }

    /// The ask side: exact price, to the orders resting there in arrival
    /// order.
    pub closed spec fn asks(self) -> Map<Price, Seq<Order>> {
        seq_view_map(self.ask_levels@)
    }

    /// The mapping of the given side.
    pub open spec fn side(self, side: Side) -> Map<Price, Seq<Order>> {
        match side {
            Side::Bid => self.bids(),
            Side::Ask => self.asks(),
        }
    }

    /// Creates a new empty order book.
    pub fn new() -> (book: Self)
        ensures
            book.bids() == Map::<Price, Seq<Order>>::empty(),
            book.asks() == Map::<Price, Seq<Order>>::empty(),
    {
        let book = OrderBook { ask_levels: PriceLevelMap::new(), bid_levels: PriceLevelMap::new() };
        proof {
            assert(book.bids() =~= Map::<Price, Seq<Order>>::empty());
            assert(book.asks() =~= Map::<Price, Seq<Order>>::empty());
        }
        book
    }

    /// Aggregates an exact price to its coarsened level by discarding the
    /// fractional part: 100.01, 100.25 and 100.99 all land on 100.
    ///
    /// Total over every representable price, and pure: it is the shared
    /// rule that the depth cache applies to every event.
    pub fn aggregate_price_to_level(price: Price) -> (level: Price)
        ensures
            level == price.aggregated(),
    {
        proof {
            assert((price.ticks / TICKS_PER_UNIT) * TICKS_PER_UNIT <= price.ticks)
                by (nonlinear_arith);
        }
        Price { ticks: (price.ticks / TICKS_PER_UNIT) * TICKS_PER_UNIT }
    }

    /// Inserts an order, appending it at the end of its exact price's
    /// sequence on its side, and returns the event describing the change.
    ///
    /// The event carries exactly the insertion's price, quantity and
    /// side; the opposite side of the book is untouched. Insertion of a
    /// structurally valid order cannot fail.
    pub fn insert_order(&mut self, order: Order) -> (event: OrderEvent)
        ensures
            event == (OrderEvent {
                price: order.price,
                quantity_delta: order.quantity,
                side: order.side,
            }),
            order.side == Side::Bid ==> final(self).bids() == side_insert(
                old(self).bids(),
                order,
            ) && final(self).asks() == old(self).asks(),
            order.side == Side::Ask ==> final(self).asks() == side_insert(
                old(self).asks(),
                order,
            ) && final(self).bids() == old(self).bids(),
    {
        let price = order.price;
        let quantity = order.quantity;
        let side = order.side;
        match side {
            Side::Bid => append_to_level(&mut self.bid_levels, order),
            Side::Ask => append_to_level(&mut self.ask_levels, order),
        }
        OrderEvent { price, quantity_delta: quantity, side }
    }

    /// The current best bid and best ask prices.
    ///
    /// The best bid is the greatest price present on the bid side, the
    /// best ask the least price present on the ask side; each is `None`
    /// exactly when that side is empty. A caller wanting the spread
    /// subtracts when both are present.
    pub fn compute_spread(&self) -> (r: (Option<Price>, Option<Price>))
        ensures
            match r.0 {
                Some(p) => self.bids().dom().contains(p) && forall|q: Price|
                    self.bids().dom().contains(q) ==> q.ticks <= p.ticks,
                None => self.bids() == Map::<Price, Seq<Order>>::empty(),
            },
            match r.1 {
                Some(p) => self.asks().dom().contains(p) && forall|q: Price|
                    self.asks().dom().contains(q) ==> p.ticks <= q.ticks,
                None => self.asks() == Map::<Price, Seq<Order>>::empty(),
            },
    {
        let best_bid = self.bid_levels.max_price();
        let best_ask = self.ask_levels.min_price();
        proof {
            assert(self.bids().dom() =~= self.bid_levels@.dom());
            assert(self.asks().dom() =~= self.ask_levels@.dom());
            if self.bid_levels@ == Map::<Price, Vec<Order>>::empty() {
                assert(self.bids() =~= Map::<Price, Seq<Order>>::empty());
            }
            if self.ask_levels@ == Map::<Price, Vec<Order>>::empty() {
                assert(self.asks() =~= Map::<Price, Seq<Order>>::empty());
            }
        }
        (best_bid, best_ask)
    }

    /// The number of distinct exact prices with at least one resting
    /// order on the bid side.
    pub fn bid_levels_count(&self) -> (r: usize)
        ensures
            self.bids().dom().finite(),
            r == self.bids().dom().len(),
    {
        proof {
            assert(self.bids().dom() =~= self.bid_levels@.dom());
        }
        self.bid_levels.len()
    }

    /// The number of distinct exact prices with at least one resting
    /// order on the ask side.
    pub fn ask_levels_count(&self) -> (r: usize)
        ensures
            self.asks().dom().finite(),
            r == self.asks().dom().len(),
    {
        proof {
            assert(self.asks().dom() =~= self.ask_levels@.dom());
        }
        self.ask_levels.len()
    }

    /// The number of resting orders whose exact price equals the
    /// argument on the given side; 0 if the price is absent.
    pub fn orders_at_price_level(&self, price: Price, side: Side) -> (r: usize)
        ensures
            r == side_orders(self.side(side), price).len(),
    {
        let levels = match side {
            Side::Bid => &self.bid_levels,
            Side::Ask => &self.ask_levels,
        };
        match levels.get(price) {
            Some(orders) => orders.len(),
            None => 0,
        }
    }
}

impl Default for OrderBook {
    /// An empty order book.
    fn default() -> (book: Self)
        ensures
            book.bids() == Map::<Price, Seq<Order>>::empty(),
            book.asks() == Map::<Price, Seq<Order>>::empty(),
    {
        Self::new()
    }
}

/// Price priority: a price is present on a side exactly when some order
/// of that side was inserted at it. Together with `compute_spread`'s
/// contract, the best bid of any insertion history is the greatest price
/// among the bid orders inserted so far, and the best ask the least
/// among the ask orders.
pub proof fn lemma_price_priority(orders: Seq<Order>, side: Side, price: Price)
    ensures
        side_after(orders, side).dom().contains(price) <==> (exists|i: int|
            0 <= i < orders.len() && orders[i].side == side && orders[i].price == price),
    decreases orders.len(),
{
    if orders.len() > 0 {
        lemma_price_priority(orders.drop_last(), side, price);
        let last = orders.last();
        if last.side == side && last.price == price {
            assert(0 <= orders.len() - 1 < orders.len() && orders[orders.len() - 1].side == side
                && orders[orders.len() - 1].price == price);
        } else {
            if exists|i: int|
                0 <= i < orders.len() && orders[i].side == side && orders[i].price == price {
                let i = choose|i: int|
                    0 <= i < orders.len() && orders[i].side == side && orders[i].price == price;
                assert(orders.drop_last()[i] == orders[i]);
            }
            if exists|i: int|
                0 <= i < orders.drop_last().len() && orders.drop_last()[i].side == side
                    && orders.drop_last()[i].price == price {
                let i = choose|i: int|
                    0 <= i < orders.drop_last().len() && orders.drop_last()[i].side == side
                        && orders.drop_last()[i].price == price;
                assert(orders[i] == orders.drop_last()[i]);
            }
        }
    }
}

/// Time priority: on any side of a book that started empty, the orders
/// resting at a price are exactly the orders inserted on that side at
/// that price, in arrival order (FIFO). In particular each insertion at
/// a price grows that level's count by exactly one.
pub proof fn lemma_time_priority(orders: Seq<Order>, side: Side, price: Price)
    ensures
        side_orders(side_after(orders, side), price) == orders.filter(at_level(side, price)),
    decreases orders.len(),
{
    if orders.len() == 0 {
        assert(orders.filter(at_level(side, price)) =~= Seq::<Order>::empty()) by {
            orders.lemma_filter_len(at_level(side, price));
        }
    } else {
        lemma_time_priority(orders.drop_last(), side, price);
        let last = orders.last();
        assert(orders =~= orders.drop_last().push(last));
        orders.drop_last().lemma_filter_push(last, at_level(side, price));
    }
}

} // verus!
