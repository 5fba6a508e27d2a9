use litebook::{
    Fill, Order, OrderBook, OrderStatus, OrderType, ValidationError, DEFAULT_TICK_SIZE,
    PRICE_SCALE,
};

/// A price given in hundredths of a whole, in price units.
fn cents(c: i64) -> i64 {
    c * (PRICE_SCALE as i64) / 100
}

fn submit(book: &mut OrderBook, side: OrderType, price: i64, quantity: u64) -> (u128, Vec<Fill>) {
    let order = book.create_order(side, price, quantity).unwrap();
    let id = order.id();
    (id, book.add(order).unwrap())
}

fn rest(book: &mut OrderBook, side: OrderType, price: i64, quantity: u64) -> u128 {
    let (id, fills) = submit(book, side, price, quantity);
    assert!(fills.is_empty());
    id
}

fn summary(fills: &[Fill]) -> Vec<(u64, u128)> {
    fills.iter().map(|f| (f.quantity(), f.price())).collect()
}

fn ids(orders: &[Order]) -> Vec<u128> {
    orders.iter().map(|o| o.id()).collect()
}

fn not_crossed(book: &OrderBook) -> bool {
    match (book.best_bid(), book.best_ask()) {
        (Some((bid, _)), Some((ask, _))) => bid < ask,
        _ => true,
    }
}

#[test]
fn smaller_buy_leaves_the_sell_resting() {
    let mut book = OrderBook::new(100);
    let sell = rest(&mut book, OrderType::Sell, cents(10_000), 5);
    let (buy, fills) = submit(&mut book, OrderType::Buy, cents(10_000), 3);
    assert_eq!(fills.len(), 1);
    assert_eq!(fills[0].quantity(), 3);
    assert_eq!(fills[0].price(), 1_000_000);
    assert_eq!(fills[0].buy_id(), buy);
    assert_eq!(fills[0].sell_id(), sell);
    let resting = book.get_order(sell).unwrap();
    assert_eq!(resting.status(), OrderStatus::Open);
    assert_eq!(resting.quantity(), 2);
    let done = book.get_order(buy).unwrap();
    assert_eq!(done.status(), OrderStatus::Filled);
    assert_eq!(done.quantity(), 0);
    assert_eq!(ids(&book.get_sell_orders()), vec![sell]);
    assert!(book.get_buy_orders().is_empty());
}

#[test]
fn buy_sweeps_two_levels() {
    let mut book = OrderBook::new(100);
    let near = rest(&mut book, OrderType::Sell, cents(10_000), 4);
    let far = rest(&mut book, OrderType::Sell, cents(10_050), 10);
    let (buy, fills) = submit(&mut book, OrderType::Buy, cents(10_100), 10);
    assert_eq!(summary(&fills), vec![(4, 1_000_000), (6, 1_005_000)]);
    assert_eq!(fills[0].sell_id(), near);
    assert_eq!(fills[1].sell_id(), far);
    assert_eq!(fills[0].buy_id(), buy);
    assert_eq!(fills[1].buy_id(), buy);
    assert_eq!(book.get_order(buy).unwrap().status(), OrderStatus::Filled);
    assert_eq!(book.get_order(near).unwrap().status(), OrderStatus::Filled);
    let left = book.get_order(far).unwrap();
    assert_eq!(left.quantity(), 4);
    assert_eq!(left.status(), OrderStatus::Open);
    assert_eq!(book.best_ask(), Some((10_050, 4)));
    assert_eq!(book.best_bid(), None);
}

#[test]
fn spread_of_a_two_sided_book() {
    let mut book = OrderBook::new(100);
    assert_eq!(book.spread(), None);
    rest(&mut book, OrderType::Buy, cents(9_900), 1);
    assert_eq!(book.spread(), None);
    rest(&mut book, OrderType::Sell, cents(10_100), 1);
    assert_eq!(book.spread(), Some(20_000));
    assert_eq!(book.spread().unwrap(), 2 * PRICE_SCALE as u128);
}

#[test]
fn spread_is_absent_with_one_side_only() {
    let mut book = OrderBook::new(1);
    rest(&mut book, OrderType::Sell, 10, 1);
    assert_eq!(book.spread(), None);
}

#[test]
fn default_book_ticks_in_hundredths() {
    let book = OrderBook::default();
    assert_eq!(book.tick_size(), DEFAULT_TICK_SIZE);
    assert_eq!(book.tick_size() * 100, PRICE_SCALE);
    assert_eq!(OrderBook::new(5).tick_size(), 5);
}

#[test]
fn empty_book_has_nothing() {
    let book = OrderBook::new(100);
    assert_eq!(book.best_bid(), None);
    assert_eq!(book.best_ask(), None);
    assert_eq!(book.buy_volume(), 0);
    assert_eq!(book.sell_volume(), 0);
    assert!(book.get_buy_orders().is_empty());
    assert!(book.get_sell_orders().is_empty());
    assert!(book.get_order(1).is_none());
}

#[test]
fn create_order_converts_the_price_to_ticks() {
    let book = OrderBook::new(100);
    let o = book.create_order(OrderType::Buy, 1_000_000, 5).unwrap();
    assert_eq!(o.price_in_ticks(), 10_000);
    assert_eq!(o.quantity(), 5);
    assert_eq!(o.side(), OrderType::Buy);
    assert_eq!(o.status(), OrderStatus::Open);
    assert_eq!(book.create_order(OrderType::Sell, 149, 1).unwrap().price_in_ticks(), 1);
    assert_eq!(book.create_order(OrderType::Sell, 150, 1).unwrap().price_in_ticks(), 2);
    assert_eq!(book.create_order(OrderType::Sell, 50, 1).unwrap().price_in_ticks(), 1);
}

#[test]
fn create_order_does_not_touch_the_book() {
    let book = OrderBook::new(100);
    let o = book.create_order(OrderType::Buy, 1_000_000, 5).unwrap();
    assert!(book.get_order(o.id()).is_none());
    assert_eq!(book.best_bid(), None);
}

#[test]
fn create_order_rejects_what_is_not_positive() {
    let book = OrderBook::new(100);
    assert_eq!(
        book.create_order(OrderType::Buy, 0, 5).unwrap_err(),
        ValidationError::NonPositivePrice
    );
    assert_eq!(
        book.create_order(OrderType::Buy, -100, 5).unwrap_err(),
        ValidationError::NonPositivePrice
    );
    assert_eq!(
        book.create_order(OrderType::Buy, 0, 0).unwrap_err(),
        ValidationError::NonPositivePrice
    );
    assert_eq!(
        book.create_order(OrderType::Sell, 100, 0).unwrap_err(),
        ValidationError::NonPositiveQuantity
    );
}

#[test]
fn create_order_rejects_a_price_that_rounds_to_no_tick() {
    let book = OrderBook::new(100);
    assert_eq!(
        book.create_order(OrderType::Buy, 49, 5).unwrap_err(),
        ValidationError::NonPositiveTicks
    );
    assert_eq!(
        book.create_order(OrderType::Buy, 1, 5).unwrap_err(),
        ValidationError::NonPositiveTicks
    );
}

#[test]
fn add_rejects_an_order_it_already_knows() {
    let mut book = OrderBook::new(100);
    let order = book.create_order(OrderType::Buy, 1_000, 5).unwrap();
    assert!(book.add(order).unwrap().is_empty());
    assert_eq!(book.add(order).unwrap_err(), ValidationError::DuplicateOrder);
    assert_eq!(ids(&book.get_buy_orders()), vec![order.id()]);
    assert_eq!(book.buy_volume(), 5);

    // A filled order stays known, so its snapshot is turned away too.
    let (sell, fills) = submit(&mut book, OrderType::Sell, 1_000, 5);
    assert_eq!(fills.len(), 1);
    let snapshot = book.get_order(sell).unwrap();
    assert_eq!(book.add(snapshot).unwrap_err(), ValidationError::DuplicateOrder);
    assert_eq!(book.best_bid(), None);
    assert_eq!(book.best_ask(), None);
}

#[test]
fn orders_that_do_not_cross_rest() {
    let mut book = OrderBook::new(1);
    let bid = rest(&mut book, OrderType::Buy, 99, 3);
    let ask = rest(&mut book, OrderType::Sell, 100, 4);
    assert_eq!(book.best_bid(), Some((99, 3)));
    assert_eq!(book.best_ask(), Some((100, 4)));
    assert_eq!(book.get_order(bid).unwrap().status(), OrderStatus::Open);
    assert_eq!(book.get_order(ask).unwrap().status(), OrderStatus::Open);
    assert_eq!(book.spread(), Some(1));
}

#[test]
fn incoming_sell_sweeps_bids_from_the_highest() {
    let mut book = OrderBook::new(10);
    let low = rest(&mut book, OrderType::Buy, 980, 5);
    let high = rest(&mut book, OrderType::Buy, 1_000, 2);
    let mid = rest(&mut book, OrderType::Buy, 990, 3);
    let (sell, fills) = submit(&mut book, OrderType::Sell, 985, 10);
    // Each trade is at the seller's quote, whatever the bid was.
    assert_eq!(summary(&fills), vec![(2, 990), (3, 990)]);
    assert_eq!(fills[0].buy_id(), high);
    assert_eq!(fills[1].buy_id(), mid);
    assert_eq!(fills[0].sell_id(), sell);
    let resting = book.get_order(sell).unwrap();
    assert_eq!(resting.status(), OrderStatus::Open);
    assert_eq!(resting.quantity(), 5);
    assert_eq!(book.best_ask(), Some((99, 5)));
    assert_eq!(book.best_bid(), Some((98, 5)));
    assert_eq!(book.get_order(low).unwrap().quantity(), 5);
    assert!(not_crossed(&book));
}

#[test]
fn buyer_gets_price_improvement() {
    let mut book = OrderBook::new(100);
    rest(&mut book, OrderType::Sell, cents(10_000), 1);
    let (_, fills) = submit(&mut book, OrderType::Buy, cents(10_500), 1);
    assert_eq!(summary(&fills), vec![(1, 1_000_000)]);
}

#[test]
fn same_price_trades_oldest_first() {
    let mut book = OrderBook::new(1);
    let first = rest(&mut book, OrderType::Sell, 100, 3);
    let second = rest(&mut book, OrderType::Sell, 100, 3);
    let third = rest(&mut book, OrderType::Sell, 100, 3);
    let (_, fills) = submit(&mut book, OrderType::Buy, 100, 4);
    assert_eq!(fills.len(), 2);
    assert_eq!((fills[0].sell_id(), fills[0].quantity()), (first, 3));
    assert_eq!((fills[1].sell_id(), fills[1].quantity()), (second, 1));
    assert_eq!(book.get_order(first).unwrap().status(), OrderStatus::Filled);
    assert_eq!(book.get_order(second).unwrap().quantity(), 2);
    assert_eq!(book.get_order(third).unwrap().quantity(), 3);
    assert_eq!(ids(&book.get_sell_orders()), vec![second, third]);
}

#[test]
fn partly_filled_order_keeps_its_place() {
    let mut book = OrderBook::new(1);
    let first = rest(&mut book, OrderType::Buy, 100, 5);
    let second = rest(&mut book, OrderType::Buy, 100, 5);
    submit(&mut book, OrderType::Sell, 100, 2);
    assert_eq!(ids(&book.get_buy_orders()), vec![first, second]);
    assert_eq!(book.best_bid(), Some((100, 3)));
    let (_, fills) = submit(&mut book, OrderType::Sell, 100, 4);
    assert_eq!(fills.len(), 2);
    assert_eq!((fills[0].buy_id(), fills[0].quantity()), (first, 3));
    assert_eq!((fills[1].buy_id(), fills[1].quantity()), (second, 1));
}

#[test]
fn best_reports_the_front_order_not_the_level() {
    let mut book = OrderBook::new(1);
    rest(&mut book, OrderType::Buy, 100, 2);
    rest(&mut book, OrderType::Buy, 100, 7);
    rest(&mut book, OrderType::Buy, 99, 11);
    assert_eq!(book.best_bid(), Some((100, 2)));
    assert_eq!(book.best(OrderType::Buy), Some((100, 2)));
    assert_eq!(book.buy_volume(), 20);
    rest(&mut book, OrderType::Sell, 101, 4);
    rest(&mut book, OrderType::Sell, 101, 5);
    rest(&mut book, OrderType::Sell, 103, 6);
    assert_eq!(book.best_ask(), Some((101, 4)));
    assert_eq!(book.best(OrderType::Sell), Some((101, 4)));
    assert_eq!(book.sell_volume(), 15);
    assert_eq!(book.volume(OrderType::Sell), 15);
}

#[test]
fn volume_counts_what_is_left() {
    let mut book = OrderBook::new(1);
    rest(&mut book, OrderType::Sell, 100, 10);
    rest(&mut book, OrderType::Sell, 101, 10);
    submit(&mut book, OrderType::Buy, 100, 4);
    assert_eq!(book.sell_volume(), 16);
    assert_eq!(book.buy_volume(), 0);
    let (_, fills) = submit(&mut book, OrderType::Buy, 102, 30);
    assert_eq!(fills.len(), 2);
    assert_eq!(book.sell_volume(), 0);
    assert_eq!(book.buy_volume(), 14);
}

#[test]
fn volume_of_large_quantities_does_not_wrap() {
    let mut book = OrderBook::new(1);
    rest(&mut book, OrderType::Buy, 5, u64::MAX);
    rest(&mut book, OrderType::Buy, 5, u64::MAX);
    rest(&mut book, OrderType::Buy, 4, u64::MAX);
    assert_eq!(book.buy_volume(), 3 * (u64::MAX as u128));
}

#[test]
fn listings_go_by_rising_price_then_arrival() {
    let mut book = OrderBook::new(1);
    let b2 = rest(&mut book, OrderType::Buy, 98, 1);
    let b3 = rest(&mut book, OrderType::Buy, 99, 1);
    let b1 = rest(&mut book, OrderType::Buy, 97, 1);
    let b4 = rest(&mut book, OrderType::Buy, 99, 1);
    let s3 = rest(&mut book, OrderType::Sell, 103, 1);
    let s1 = rest(&mut book, OrderType::Sell, 101, 1);
    let s2 = rest(&mut book, OrderType::Sell, 101, 1);
    let s4 = rest(&mut book, OrderType::Sell, 105, 1);
    assert_eq!(ids(&book.get_buy_orders()), vec![b1, b2, b3, b4]);
    assert_eq!(ids(&book.get_sell_orders()), vec![s1, s2, s3, s4]);
    let prices: Vec<i64> = book.get_sell_orders().iter().map(|o| o.price_in_ticks()).collect();
    assert_eq!(prices, vec![101, 101, 103, 105]);
}

#[test]
fn cancel_removes_the_order_for_good() {
    let mut book = OrderBook::new(1);
    let a = rest(&mut book, OrderType::Buy, 100, 5);
    let b = rest(&mut book, OrderType::Buy, 100, 6);
    assert!(book.cancel(a));
    assert!(book.get_order(a).is_none());
    assert!(!book.cancel(a));
    assert!(!book.cancel(a));
    assert_eq!(ids(&book.get_buy_orders()), vec![b]);
    assert_eq!(book.best_bid(), Some((100, 6)));
    assert_eq!(book.buy_volume(), 6);
}

#[test]
fn cancel_of_an_unknown_order_changes_nothing() {
    let mut book = OrderBook::new(1);
    let a = rest(&mut book, OrderType::Sell, 100, 5);
    assert!(!book.cancel(a ^ 1));
    assert!(!book.cancel(a ^ 1));
    assert_eq!(ids(&book.get_sell_orders()), vec![a]);
    assert_eq!(book.get_order(a).unwrap().quantity(), 5);
}

#[test]
fn cancel_of_the_last_order_drops_the_level() {
    let mut book = OrderBook::new(1);
    let best = rest(&mut book, OrderType::Sell, 100, 5);
    rest(&mut book, OrderType::Sell, 102, 7);
    assert!(book.cancel(best));
    assert_eq!(book.best_ask(), Some((102, 7)));
    let mid = rest(&mut book, OrderType::Sell, 101, 1);
    assert_eq!(book.best_ask(), Some((101, 1)));
    assert!(book.cancel(mid));
    assert_eq!(book.best_ask(), Some((102, 7)));
}

#[test]
fn cancel_from_the_middle_of_a_queue() {
    let mut book = OrderBook::new(1);
    let a = rest(&mut book, OrderType::Sell, 100, 1);
    let b = rest(&mut book, OrderType::Sell, 100, 2);
    let c = rest(&mut book, OrderType::Sell, 100, 3);
    assert!(book.cancel(b));
    assert_eq!(ids(&book.get_sell_orders()), vec![a, c]);
    let (_, fills) = submit(&mut book, OrderType::Buy, 100, 4);
    assert_eq!(fills.len(), 2);
    assert_eq!(fills[0].sell_id(), a);
    assert_eq!(fills[1].sell_id(), c);
}

#[test]
fn filled_orders_stay_known_and_cancelled_ones_do_not() {
    let mut book = OrderBook::new(1);
    let sell = rest(&mut book, OrderType::Sell, 100, 5);
    let (buy, _) = submit(&mut book, OrderType::Buy, 100, 5);
    assert_eq!(book.get_order(sell).unwrap().status(), OrderStatus::Filled);
    assert_eq!(book.get_order(buy).unwrap().status(), OrderStatus::Filled);
    // Cancelling a filled order forgets it.
    assert!(book.cancel(sell));
    assert!(book.get_order(sell).is_none());
    assert!(!book.cancel(sell));
    assert!(book.get_order(buy).is_some());
}

#[test]
fn cancelled_order_no_longer_trades() {
    let mut book = OrderBook::new(1);
    let a = rest(&mut book, OrderType::Sell, 100, 5);
    assert!(book.cancel(a));
    let (buy, fills) = submit(&mut book, OrderType::Buy, 100, 5);
    assert!(fills.is_empty());
    assert_eq!(book.best_bid(), Some((100, 5)));
    assert_eq!(book.get_order(buy).unwrap().status(), OrderStatus::Open);
}

#[test]
fn book_is_never_left_crossed() {
    let mut book = OrderBook::new(1);
    let steps = [
        (OrderType::Buy, 100, 5u64),
        (OrderType::Sell, 105, 5),
        (OrderType::Buy, 105, 2),
        (OrderType::Sell, 100, 9),
        (OrderType::Buy, 103, 1),
        (OrderType::Sell, 99, 1),
        (OrderType::Buy, 110, 20),
        (OrderType::Sell, 90, 3),
        (OrderType::Sell, 111, 3),
        (OrderType::Buy, 111, 3),
    ];
    for (side, price, quantity) in steps {
        submit(&mut book, side, price, quantity);
        assert!(not_crossed(&book));
        for bid in book.get_buy_orders() {
            for ask in book.get_sell_orders() {
                assert!(bid.price_in_ticks() < ask.price_in_ticks());
            }
        }
    }
}

#[test]
fn quantity_is_conserved() {
    let mut book = OrderBook::new(1);
    let mut submitted: Vec<(u128, u64)> = Vec::new();
    let mut fills: Vec<Fill> = Vec::new();
    let steps = [
        (OrderType::Sell, 100, 4u64),
        (OrderType::Sell, 101, 10),
        (OrderType::Buy, 99, 7),
        (OrderType::Buy, 101, 9),
        (OrderType::Sell, 98, 12),
        (OrderType::Buy, 100, 1),
    ];
    for (side, price, quantity) in steps {
        let (id, made) = submit(&mut book, side, price, quantity);
        submitted.push((id, quantity));
        fills.extend(made);
    }
    for (id, quantity) in submitted {
        let traded: u64 = fills
            .iter()
            .filter(|f| f.buy_id() == id || f.sell_id() == id)
            .map(|f| f.quantity())
            .sum();
        let left = book.get_order(id).unwrap().quantity();
        assert_eq!(traded + left, quantity);
    }
    for f in &fills {
        assert!(f.quantity() > 0);
    }
}

#[test]
fn every_fill_names_one_buyer_and_one_seller() {
    let mut book = OrderBook::new(1);
    let s = rest(&mut book, OrderType::Sell, 100, 4);
    let (b, fills) = submit(&mut book, OrderType::Buy, 100, 4);
    assert_eq!(fills[0].buy_id(), b);
    assert_eq!(fills[0].sell_id(), s);
    let b2 = rest(&mut book, OrderType::Buy, 90, 4);
    let (s2, fills) = submit(&mut book, OrderType::Sell, 90, 4);
    assert_eq!(fills[0].buy_id(), b2);
    assert_eq!(fills[0].sell_id(), s2);
}

#[test]
fn the_index_shows_the_latest_state() {
    let mut book = OrderBook::new(1);
    let s = rest(&mut book, OrderType::Sell, 100, 10);
    submit(&mut book, OrderType::Buy, 100, 3);
    assert_eq!(book.get_order(s).unwrap().quantity(), 7);
    assert_eq!(book.get_sell_orders()[0].quantity(), 7);
    submit(&mut book, OrderType::Buy, 100, 3);
    assert_eq!(book.get_order(s).unwrap().quantity(), 4);
    assert_eq!(book.best_ask(), Some((100, 4)));
}

#[test]
fn well_formed_can_always_be_called() {
    let mut book = OrderBook::new(3);
    book.well_formed();
    rest(&mut book, OrderType::Sell, 100, 10);
    book.well_formed();
}

#[test]
fn filled_orders_are_left_alone() {
    let mut book = OrderBook::new(1);
    let sell = rest(&mut book, OrderType::Sell, 100, 5);
    submit(&mut book, OrderType::Buy, 100, 5);
    let before = book.get_order(sell).unwrap();
    submit(&mut book, OrderType::Buy, 100, 5);
    submit(&mut book, OrderType::Sell, 100, 2);
    submit(&mut book, OrderType::Sell, 90, 9);
    let after = book.get_order(sell).unwrap();
    assert_eq!(after.status(), OrderStatus::Filled);
    assert_eq!(after.quantity(), before.quantity());
    assert_eq!(after.price_in_ticks(), before.price_in_ticks());
    assert_eq!(after.timestamp(), before.timestamp());
}

#[test]
fn a_sweep_takes_the_line_from_its_head() {
    let mut book = OrderBook::new(1);
    let c = rest(&mut book, OrderType::Sell, 102, 1);
    let a = rest(&mut book, OrderType::Sell, 100, 1);
    let d = rest(&mut book, OrderType::Sell, 102, 1);
    let b = rest(&mut book, OrderType::Sell, 101, 1);
    let e = rest(&mut book, OrderType::Sell, 103, 1);
    let (_, fills) = submit(&mut book, OrderType::Buy, 102, 10);
    let makers: Vec<u128> = fills.iter().map(|f| f.sell_id()).collect();
    assert_eq!(makers, vec![a, b, c, d]);
    assert_eq!(summary(&fills), vec![(1, 100), (1, 101), (1, 102), (1, 102)]);
    assert_eq!(ids(&book.get_sell_orders()), vec![e]);
    assert_eq!(book.best_bid(), Some((102, 6)));
}

#[test]
fn an_order_made_by_hand_trades_like_any_other() {
    let mut book = OrderBook::new(100);
    let sell = Order::with_identity(7, 1, OrderType::Sell, 10, 5).unwrap();
    let buy = Order::with_identity(8, 2, OrderType::Buy, 10, 5).unwrap();
    assert!(book.add(sell).unwrap().is_empty());
    let fills = book.add(buy).unwrap();
    assert_eq!(fills.len(), 1);
    assert_eq!(fills[0].buy_id(), 8);
    assert_eq!(fills[0].sell_id(), 7);
    assert_eq!(fills[0].price(), 1_000);
    assert_eq!(fills[0].quantity(), 5);
}
