use litebook::book::ticks_for;
use litebook::clock::timestamp_of;
use litebook::order::price_of;
use litebook::{Fill, Order, OrderStatus, OrderType, ValidationError};

fn order(id: u128, side: OrderType, price_in_ticks: i64, quantity: u64) -> Order {
    Order::with_identity(id, 1_000, side, price_in_ticks, quantity).unwrap()
}

#[test]
fn new_order_is_open_with_the_fields_given() {
    let o = Order::new(OrderType::Buy, 10_000, 7).unwrap();
    assert_eq!(o.side(), OrderType::Buy);
    assert_eq!(o.price_in_ticks(), 10_000);
    assert_eq!(o.quantity(), 7);
    assert_eq!(o.status(), OrderStatus::Open);
    assert!(o.is_open());
}

#[test]
fn new_order_gets_a_random_version_four_identifier() {
    let a = Order::new(OrderType::Buy, 1, 1).unwrap();
    let b = Order::new(OrderType::Buy, 1, 1).unwrap();
    assert_ne!(a.id(), b.id());
    for o in [a, b] {
        assert_eq!((o.id() >> 76) & 0xf, 4);
        assert_eq!((o.id() >> 62) & 0x3, 2);
    }
}

#[test]
fn new_order_is_stamped_after_the_epoch() {
    let o = Order::new(OrderType::Sell, 1, 1).unwrap();
    assert!(o.timestamp() > 0);
}

#[test]
fn new_order_rejects_a_price_that_is_not_positive() {
    assert_eq!(
        Order::new(OrderType::Buy, 0, 5).unwrap_err(),
        ValidationError::NonPositiveTicks
    );
    assert_eq!(
        Order::new(OrderType::Sell, -3, 5).unwrap_err(),
        ValidationError::NonPositiveTicks
    );
    assert_eq!(
        Order::with_identity(9, 9, OrderType::Sell, i64::MIN, 5).unwrap_err(),
        ValidationError::NonPositiveTicks
    );
}

#[test]
fn new_order_rejects_a_quantity_of_zero() {
    assert_eq!(
        Order::new(OrderType::Buy, 5, 0).unwrap_err(),
        ValidationError::NonPositiveQuantity
    );
    assert_eq!(
        Order::with_identity(9, 9, OrderType::Buy, 5, 0).unwrap_err(),
        ValidationError::NonPositiveQuantity
    );
}

#[test]
fn a_bad_price_is_reported_before_a_bad_quantity() {
    assert_eq!(
        Order::new(OrderType::Buy, 0, 0).unwrap_err(),
        ValidationError::NonPositiveTicks
    );
}

#[test]
fn with_identity_keeps_identifier_and_timestamp() {
    let o = Order::with_identity(42, 77, OrderType::Sell, 3, 9).unwrap();
    assert_eq!(o.id(), 42);
    assert_eq!(o.timestamp(), 77);
    assert_eq!(o.side(), OrderType::Sell);
    assert_eq!(o.price_in_ticks(), 3);
    assert_eq!(o.quantity(), 9);
    assert_eq!(o.status(), OrderStatus::Open);
}

#[test]
fn can_match_needs_opposite_sides() {
    let a = order(1, OrderType::Buy, 100, 1);
    let b = order(2, OrderType::Buy, 90, 1);
    assert!(!a.can_match(&b));
    assert!(!b.can_match(&a));
    let c = order(3, OrderType::Sell, 100, 1);
    let d = order(4, OrderType::Sell, 90, 1);
    assert!(!c.can_match(&d));
}

#[test]
fn can_match_needs_the_bid_to_reach_the_ask() {
    let buy = order(1, OrderType::Buy, 100, 1);
    let cheap = order(2, OrderType::Sell, 99, 1);
    let equal = order(3, OrderType::Sell, 100, 1);
    let dear = order(4, OrderType::Sell, 101, 1);
    assert!(buy.can_match(&cheap));
    assert!(buy.can_match(&equal));
    assert!(!buy.can_match(&dear));
}

#[test]
fn can_match_is_symmetric() {
    let prices = [1i64, 99, 100, 101];
    let mut id = 0u128;
    for p in prices {
        for q in prices {
            for (s, t) in [
                (OrderType::Buy, OrderType::Sell),
                (OrderType::Sell, OrderType::Buy),
                (OrderType::Buy, OrderType::Buy),
                (OrderType::Sell, OrderType::Sell),
            ] {
                id += 2;
                let a = order(id, s, p, 1);
                let b = order(id + 1, t, q, 1);
                assert_eq!(a.can_match(&b), b.can_match(&a));
            }
        }
    }
}

#[test]
fn fill_takes_the_smaller_quantity_from_both() {
    let mut resting = order(1, OrderType::Sell, 10_000, 5);
    let mut incoming = order(2, OrderType::Buy, 10_000, 3);
    let fill = resting.fill_at(&mut incoming, 100, 555).unwrap();
    assert_eq!(fill.quantity(), 3);
    assert_eq!(fill.price(), 1_000_000);
    assert_eq!(fill.buy_id(), 2);
    assert_eq!(fill.sell_id(), 1);
    assert_eq!(fill.timestamp(), 555);
    assert_eq!(resting.quantity(), 2);
    assert_eq!(resting.status(), OrderStatus::Open);
    assert_eq!(incoming.quantity(), 0);
    assert_eq!(incoming.status(), OrderStatus::Filled);
}

#[test]
fn fill_of_equal_quantities_fills_both() {
    let mut resting = order(1, OrderType::Buy, 50, 4);
    let mut incoming = order(2, OrderType::Sell, 50, 4);
    let fill = resting.fill_at(&mut incoming, 1, 0).unwrap();
    assert_eq!(fill.quantity(), 4);
    assert_eq!(resting.status(), OrderStatus::Filled);
    assert_eq!(incoming.status(), OrderStatus::Filled);
    assert_eq!(resting.quantity(), 0);
    assert_eq!(incoming.quantity(), 0);
}

#[test]
fn fill_executes_at_the_sellers_price() {
    // The seller rests lower than the buyer bids: the buyer pays the ask.
    let mut resting = order(1, OrderType::Sell, 100, 1);
    let mut incoming = order(2, OrderType::Buy, 105, 1);
    let fill = resting.fill_at(&mut incoming, 10, 0).unwrap();
    assert_eq!(fill.price(), 1_000);
    assert_eq!((fill.buy_id(), fill.sell_id()), (2, 1));

    // The buyer rests higher than the seller asks: the trade is at the ask.
    let mut resting = order(3, OrderType::Buy, 105, 1);
    let mut incoming = order(4, OrderType::Sell, 100, 1);
    let fill = resting.fill_at(&mut incoming, 10, 0).unwrap();
    assert_eq!(fill.price(), 1_000);
    assert_eq!((fill.buy_id(), fill.sell_id()), (3, 4));
}

#[test]
fn fill_of_orders_that_do_not_match_changes_nothing() {
    let mut resting = order(1, OrderType::Sell, 101, 5);
    let mut incoming = order(2, OrderType::Buy, 100, 3);
    assert!(resting.fill_at(&mut incoming, 100, 0).is_none());
    assert!(resting.fill(&mut incoming, 100).is_none());
    assert_eq!(resting.quantity(), 5);
    assert_eq!(incoming.quantity(), 3);
    assert_eq!(resting.status(), OrderStatus::Open);
    assert_eq!(incoming.status(), OrderStatus::Open);

    let mut same = order(3, OrderType::Sell, 1, 3);
    assert!(resting.fill_at(&mut same, 100, 0).is_none());
}

#[test]
fn fill_stamps_with_the_clock() {
    let mut resting = order(1, OrderType::Sell, 10, 5);
    let mut incoming = order(2, OrderType::Buy, 10, 5);
    let fill = resting.fill(&mut incoming, 3).unwrap();
    assert!(fill.timestamp() > 0);
    assert_eq!(fill.quantity(), 5);
    assert_eq!(fill.price(), 30);
}

#[test]
fn fill_record_keeps_what_it_is_given() {
    let f = Fill::new(3, 1_000_000, 11, 22, 33);
    assert_eq!(f.quantity(), 3);
    assert_eq!(f.price(), 1_000_000);
    assert_eq!(f.buy_id(), 11);
    assert_eq!(f.sell_id(), 22);
    assert_eq!(f.timestamp(), 33);
}

#[test]
fn price_of_multiplies_ticks_by_tick_size() {
    assert_eq!(price_of(0, 100), 0);
    assert_eq!(price_of(10_000, 100), 1_000_000);
    assert_eq!(
        price_of(i64::MAX, u64::MAX),
        (i64::MAX as u128) * (u64::MAX as u128)
    );
}

#[test]
fn ticks_round_to_the_nearest_and_halves_up() {
    assert_eq!(ticks_for(1_000_000, 100), 10_000);
    assert_eq!(ticks_for(149, 100), 1);
    assert_eq!(ticks_for(150, 100), 2);
    assert_eq!(ticks_for(151, 100), 2);
    assert_eq!(ticks_for(49, 100), 0);
    assert_eq!(ticks_for(50, 100), 1);
    assert_eq!(ticks_for(7, 1), 7);
    assert_eq!(ticks_for(i64::MAX, 1), i64::MAX);
    assert_eq!(ticks_for(i64::MAX, u64::MAX), 0);
    assert_eq!(ticks_for(1, u64::MAX), 0);
}

#[test]
fn timestamp_is_the_low_half_of_the_reading() {
    assert_eq!(timestamp_of(None), 0);
    assert_eq!(timestamp_of(Some(0)), 0);
    assert_eq!(timestamp_of(Some(1_700_000_000_000_000_000)), 1_700_000_000_000_000_000);
    assert_eq!(timestamp_of(Some((1u128 << 64) + 5)), 5);
    assert_eq!(timestamp_of(Some(u128::MAX)), u64::MAX);
}

#[test]
fn opposite_side() {
    assert_eq!(OrderType::Buy.opposite(), OrderType::Sell);
    assert_eq!(OrderType::Sell.opposite(), OrderType::Buy);
}

#[test]
fn every_error_has_its_message() {
    assert_eq!(ValidationError::NonPositivePrice.message(), "price must be positive");
    assert_eq!(ValidationError::NonPositiveQuantity.message(), "quantity must be positive");
    assert_eq!(ValidationError::NonPositiveTicks.message(), "price_in_ticks must be positive");
    assert_eq!(
        ValidationError::DuplicateOrder.message(),
        "order is already known to the book"
    );
}
