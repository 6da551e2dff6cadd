use matching_engine::book::OrderBook;
use matching_engine::order::{OptionType, Order, OrderType};
use matching_engine::price::Price;

fn order(id: u64, order_type: OrderType, micros: u64, quantity: u32) -> Order {
    Order {
        id,
        user_id: 7,
        option: OptionType::Yes,
        order_type,
        price: Price::from_micros(micros),
        quantity,
        timestamp: 1_700_000_000,
    }
}

#[test]
fn new_book_is_empty() {
    let book = OrderBook::new(OptionType::No);
    assert_eq!(book.option(), OptionType::No);
    assert_eq!(book.best_bid_tick(), None);
    assert_eq!(book.best_ask_tick(), None);
    assert!(book.snapshot(OrderType::Buy).is_empty());
    assert!(book.snapshot(OrderType::Sell).is_empty());
}

#[test]
fn add_order_creates_and_extends_levels() {
    let mut book = OrderBook::new(OptionType::Yes);
    book.add_order(order(1, OrderType::Buy, 5_000_000, 30));
    book.add_order(order(2, OrderType::Buy, 5_000_000, 40));
    book.add_order(order(3, OrderType::Buy, 4_900_000, 5));
    book.add_order(order(4, OrderType::Sell, 6_000_000, 11));
    book.add_order(order(5, OrderType::Sell, 6_100_000, 12));
    let bids = book.snapshot(OrderType::Buy);
    assert_eq!(bids.len(), 2);
    assert_eq!(bids.get(&500), Some(&70u128));
    assert_eq!(bids.get(&490), Some(&5u128));
    let asks = book.snapshot(OrderType::Sell);
    assert_eq!(asks.len(), 2);
    assert_eq!(asks.get(&600), Some(&11u128));
    assert_eq!(asks.get(&610), Some(&12u128));
    assert_eq!(book.best_bid_tick(), Some(500));
    assert_eq!(book.best_ask_tick(), Some(600));
    assert_eq!(book.best_tick(OrderType::Buy), Some(500));
    assert_eq!(book.best_tick(OrderType::Sell), Some(600));
}

#[test]
fn remove_order_takes_one_order_and_drops_empty_levels() {
    let mut book = OrderBook::new(OptionType::Yes);
    book.add_order(order(1, OrderType::Buy, 5_000_000, 30));
    book.add_order(order(2, OrderType::Buy, 5_000_000, 40));
    book.remove_order(OrderType::Buy, Price::from_micros(5_000_000), 1);
    assert_eq!(book.snapshot(OrderType::Buy).get(&500), Some(&40u128));
    book.remove_order(OrderType::Buy, Price::from_micros(5_000_000), 2);
    assert_eq!(book.best_bid_tick(), None);
    assert!(book.snapshot(OrderType::Buy).is_empty());
}

#[test]
fn remove_order_ignores_what_is_not_there() {
    let mut book = OrderBook::new(OptionType::Yes);
    book.add_order(order(1, OrderType::Buy, 5_000_000, 30));
    // wrong id, wrong side, wrong price
    book.remove_order(OrderType::Buy, Price::from_micros(5_000_000), 9);
    book.remove_order(OrderType::Sell, Price::from_micros(5_000_000), 1);
    book.remove_order(OrderType::Buy, Price::from_micros(5_100_000), 1);
    assert_eq!(book.snapshot(OrderType::Buy).get(&500), Some(&30u128));
    assert_eq!(book.snapshot(OrderType::Buy).len(), 1);
}

#[test]
fn remove_order_locates_the_level_by_tick() {
    let mut book = OrderBook::new(OptionType::Yes);
    book.add_order(order(1, OrderType::Buy, 5_000_000, 30));
    // 5.004 rounds to the same tick as 5.00
    book.remove_order(OrderType::Buy, Price::from_micros(5_004_000), 1);
    assert_eq!(book.best_bid_tick(), None);
}

#[test]
fn pop_head_serves_oldest_first() {
    let mut book = OrderBook::new(OptionType::Yes);
    book.add_order(order(1, OrderType::Sell, 6_000_000, 10));
    book.add_order(order(2, OrderType::Sell, 6_000_000, 20));
    assert_eq!(book.pop_head(OrderType::Sell, 600), Some(order(1, OrderType::Sell, 6_000_000, 10)));
    assert_eq!(book.pop_head(OrderType::Sell, 600), Some(order(2, OrderType::Sell, 6_000_000, 20)));
    assert_eq!(book.pop_head(OrderType::Sell, 600), None);
    assert_eq!(book.best_ask_tick(), None);
}

#[test]
fn push_head_goes_before_the_queue() {
    let mut book = OrderBook::new(OptionType::Yes);
    book.add_order(order(1, OrderType::Sell, 6_000_000, 10));
    book.add_order(order(2, OrderType::Sell, 6_000_000, 20));
    let head = book.pop_head(OrderType::Sell, 600).unwrap();
    book.push_head(head.with_quantity(4));
    assert_eq!(book.snapshot(OrderType::Sell).get(&600), Some(&24u128));
    assert_eq!(book.pop_head(OrderType::Sell, 600), Some(order(1, OrderType::Sell, 6_000_000, 4)));
    assert_eq!(book.pop_head(OrderType::Sell, 600), Some(order(2, OrderType::Sell, 6_000_000, 20)));
}

#[test]
fn push_head_recreates_a_level_that_went_away() {
    let mut book = OrderBook::new(OptionType::Yes);
    book.add_order(order(1, OrderType::Buy, 5_000_000, 10));
    let head = book.pop_head(OrderType::Buy, 500).unwrap();
    assert_eq!(book.best_bid_tick(), None);
    book.push_head(head.with_quantity(3));
    assert_eq!(book.best_bid_tick(), Some(500));
    assert_eq!(book.snapshot(OrderType::Buy).get(&500), Some(&3u128));
}

#[test]
fn snapshot_does_not_overflow_on_large_quantities() {
    let mut book = OrderBook::new(OptionType::Yes);
    book.add_order(order(1, OrderType::Buy, 5_000_000, u32::MAX));
    book.add_order(order(2, OrderType::Buy, 5_000_000, u32::MAX));
    assert_eq!(book.snapshot(OrderType::Buy).get(&500), Some(&(2 * (u32::MAX as u128))));
}
