use order_book::{MarketDepthCache, Order, OrderBook, Price, Side};

/// The exact price `mantissa * 10^-scale`.
fn price(mantissa: u64, scale: u32) -> Price {
    Price::from_mantissa_scale(mantissa, scale).unwrap()
}

#[test]
/// Test the order of insertion and the computation of spread by running a workflow.
fn test_order_insertion_and_spread_computation() {
    let mut order_book = OrderBook::new();
    let mut market_depth_cache = MarketDepthCache::new();

    // Test 1: Insert a Bid (Buy) order
    let order = Order::new(price(9950, 2), 10, Side::Bid);
    let event = order_book.insert_order(order);
    market_depth_cache.process_order_event(event);
    let (best_bid, best_ask) = order_book.compute_spread();
    assert_eq!(best_bid, Some(price(9950, 2)), "Best bid should be 99.50");
    assert!(
        best_ask.is_none(),
        "Ask should be `None` (no sell orders yet)"
    );

    // Insert another Bid at a lower price
    let order = Order::new(price(9900, 2), 5, Side::Bid);
    let event = order_book.insert_order(order);
    market_depth_cache.process_order_event(event);
    let (best_bid, _) = order_book.compute_spread();
    assert_eq!(
        best_bid,
        Some(price(9950, 2)),
        "Best bid should still be 99.50 (price priority)"
    );

    // Insert an ask (sell) order
    let order = Order::new(price(10025, 2), 20, Side::Ask);
    let event = order_book.insert_order(order);
    market_depth_cache.process_order_event(event);
    let (best_bid, best_ask) = order_book.compute_spread();
    assert_eq!(best_bid, Some(price(9950, 2)), "Best bid should be 99.50");
    assert_eq!(best_ask, Some(price(10025, 2)), "Best ask should be 100.25");

    // Insert another ask at a lower price (becomes new best ask)
    let order = Order::new(price(10010, 2), 30, Side::Ask);
    let event = order_book.insert_order(order);
    market_depth_cache.process_order_event(event);
    let (_, best_ask) = order_book.compute_spread();
    assert_eq!(
        best_ask,
        Some(price(10010, 2)),
        "New best ask should be 100.10"
    );

    // Verify time priority within a price level
    assert_eq!(
        order_book.orders_at_price_level(price(10025, 2), Side::Ask),
        1,
        "Should have one order at 100.25"
    );
}

#[test]
/// Test market depth aggregation logic by inserting orders at different price levels.
fn test_market_depth_aggregation_logic() {
    let mut order_book = OrderBook::new();
    let mut market_depth_cache = MarketDepthCache::new();

    // Aggregating bids at level 99
    // Insert order at 99.50 (aggregates to 99)
    for (mantissa, quantity) in [(9950, 10), (9901, 5)] {
        let order = Order::new(price(mantissa, 2), quantity, Side::Bid);
        let event = order_book.insert_order(order);
        market_depth_cache.process_order_event(event);
    }
    // Total bid level 99 should be 10 + 5 = 15

    // Aggregating asks at level 100
    for (mantissa, quantity) in [(10025, 20), (10099, 3)] {
        let order = Order::new(price(mantissa, 2), quantity, Side::Ask);
        let event = order_book.insert_order(order);
        market_depth_cache.process_order_event(event);
    }
    // Total ask level 100 should be 20 + 3 = 23

    // Running a cross-level check at level 101
    let order = Order::new(price(10100, 2), 50, Side::Ask);
    let event = order_book.insert_order(order);
    market_depth_cache.process_order_event(event);

    let (bid_depth, ask_depth) = market_depth_cache.get_aggregated_market_depth();

    // Check Bid Depth
    assert_eq!(
        *bid_depth.get(price(99, 0)).unwrap(),
        15,
        "Bid depth at 99.0 should be 15"
    );
    assert!(
        bid_depth.get(price(100, 0)).is_none(),
        "No bids should be aggregated at level 100"
    );

    // Check Ask Depth
    assert_eq!(
        *ask_depth.get(price(100, 0)).unwrap(),
        23,
        "Ask depth at 100.0 should be 23"
    );
    assert_eq!(
        *ask_depth.get(price(101, 0)).unwrap(),
        50,
        "Ask depth at 101.0 should be 50"
    );

    // Ensure no other unexpected levels exist
    assert!(bid_depth.get(price(98, 0)).is_none());
}

#[test]
/// Test that the market depth cache correctly aggregates orders at the same price level.
fn test_decimal_precision() {
    let mut order_book = OrderBook::new();
    let mut market_depth_cache = MarketDepthCache::new();

    // Test prices that would be hazardous as binary floating point but
    // must be exact with the fixed-point representation
    for (mantissa, quantity) in [(10000, 1), (10001, 2), (9999, 3)] {
        let order = Order::new(price(mantissa, 2), quantity, Side::Bid);
        let event = order_book.insert_order(order);
        market_depth_cache.process_order_event(event);
    }

    let (best_bid, _) = order_book.compute_spread();
    // 100.01 is the highest price
    assert_eq!(
        best_bid,
        Some(price(10001, 2)),
        "Best Bid must be 100.01 due to exact decimal precision"
    );

    // Check aggregation logic on these precise values
    let (bid_depth, _) = market_depth_cache.get_aggregated_market_depth();
    // 100.00 and 100.01 aggregate to 100.0, with depth 1 + 2 = 3
    // 99.99 aggregates to 99.0, with depth 3

    assert_eq!(
        *bid_depth.get(price(100, 0)).unwrap(),
        3,
        "Bid depth at 100.0 should be 3 (100.00 + 100.01)"
    );
    assert_eq!(
        *bid_depth.get(price(99, 0)).unwrap(),
        3,
        "Bid depth at 99.0 should be 3 (99.99)"
    );
}

#[test]
/// Test what happens when the order book is empty.
fn test_empty_order_book() {
    let order_book = OrderBook::new();

    let (best_bid, best_ask) = order_book.compute_spread();
    assert!(
        best_bid.is_none(),
        "Best bid should be `None` for empty book"
    );
    assert!(
        best_ask.is_none(),
        "Best ask should be `None` for empty book"
    );

    assert_eq!(order_book.bid_levels_count(), 0);
    assert_eq!(order_book.ask_levels_count(), 0);
}

#[test]
/// Test different cache level queries results.
fn test_cache_level_queries() {
    let mut order_book = OrderBook::new();
    let mut market_depth_cache = MarketDepthCache::new();

    for (mantissa, quantity, side) in [(9950, 10, Side::Bid), (10025, 20, Side::Ask)] {
        let order = Order::new(price(mantissa, 2), quantity, side);
        let event = order_book.insert_order(order);
        market_depth_cache.process_order_event(event);
    }

    // Test individual level queries
    assert_eq!(
        market_depth_cache.get_quantity_at_level(price(99, 0), Side::Bid),
        10,
        "Bid quantity at level 99 should be 10"
    );
    assert_eq!(
        market_depth_cache.get_quantity_at_level(price(100, 0), Side::Ask),
        20,
        "Ask quantity at level 100 should be 20"
    );
    assert_eq!(
        market_depth_cache.get_quantity_at_level(price(98, 0), Side::Bid),
        0,
        "Non-existent level should return 0"
    );
}

#[test]
/// Test when multiple orders are inserted at the same price level.
fn test_multiple_orders_same_price_level() {
    let mut order_book = OrderBook::new();
    let mut market_depth_cache = MarketDepthCache::new();

    // Insert multiple orders at the same price level
    for quantity in [10, 20, 30] {
        let order = Order::new(price(10000, 2), quantity, Side::Bid);
        let event = order_book.insert_order(order);
        market_depth_cache.process_order_event(event);
    }

    // Verify the order book maintains all orders
    assert_eq!(
        order_book.orders_at_price_level(price(10000, 2), Side::Bid),
        3,
        "Should have 3 orders at price level 100.00"
    );

    // Verify the cache aggregates correctly
    assert_eq!(
        market_depth_cache.get_quantity_at_level(price(100, 0), Side::Bid),
        60,
        "Aggregated quantity should be 10 + 20 + 30 = 60"
    );
}

#[test]
/// Test if clearing the cache works as expected.
fn test_cache_clear() {
    let mut order_book = OrderBook::new();
    let mut market_depth_cache = MarketDepthCache::new();

    for (mantissa, quantity, side) in [(9950, 10, Side::Bid), (10025, 20, Side::Ask)] {
        let order = Order::new(price(mantissa, 2), quantity, side);
        let event = order_book.insert_order(order);
        market_depth_cache.process_order_event(event);
    }

    assert_eq!(market_depth_cache.bid_levels_count(), 1);
    assert_eq!(market_depth_cache.ask_levels_count(), 1);

    market_depth_cache.clear();

    assert_eq!(market_depth_cache.bid_levels_count(), 0);
    assert_eq!(market_depth_cache.ask_levels_count(), 0);
}

#[test]
/// Test the price aggregation by taking some boundary cases.
fn test_price_aggregation_boundary_cases() {
    let mut order_book = OrderBook::new();
    let mut market_depth_cache = MarketDepthCache::new();

    // Test boundary cases for aggregation
    for (mantissa, quantity) in [(9900, 1), (9999, 2), (10000, 3), (10001, 4)] {
        let order = Order::new(price(mantissa, 2), quantity, Side::Bid);
        let event = order_book.insert_order(order);
        market_depth_cache.process_order_event(event);
    }

    let (bid_depth, _) = market_depth_cache.get_aggregated_market_depth();

    // 99.00 and 99.99 should aggregate to 99
    assert_eq!(
        *bid_depth.get(price(99, 0)).unwrap(),
        3,
        "Level 99 should have 1 + 2 = 3"
    );

    // 100.00 and 100.01 should aggregate to 100
    assert_eq!(
        *bid_depth.get(price(100, 0)).unwrap(),
        7,
        "Level 100 should have 3 + 4 = 7"
    );
}
