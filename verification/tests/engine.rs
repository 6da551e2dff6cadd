use matching_engine::book::OrderBook;
use matching_engine::engine::MatchingEngine;
use matching_engine::order::{OptionType, Order, OrderType, Trade};
use matching_engine::price::Price;

const NOW: u64 = 1_700_000_000;

fn price(hundredths: u64) -> Price {
    Price::from_micros(hundredths * 10_000)
}

fn trade(buy: u64, sell: u64, option: OptionType, hundredths: u64, quantity: u32) -> Trade {
    Trade { buy_order_id: buy, sell_order_id: sell, option, price: price(hundredths), quantity }
}

fn traded(trades: &[Trade]) -> u64 {
    let mut sum = 0u64;
    for t in trades {
        sum += t.quantity as u64;
    }
    sum
}

#[test]
fn new_engine_is_empty_and_starts_at_one() {
    let engine = MatchingEngine::new();
    assert_eq!(engine.next_order_id(), 1);
    assert_eq!(engine.commission_bps(), 223);
    assert!(!engine.market_maker());
    assert_eq!(engine.get_market_price(OptionType::Yes), (None, None));
    assert_eq!(engine.get_market_price(OptionType::No), (None, None));
    let (bids, asks) = engine.get_order_book(OptionType::Yes);
    assert!(bids.is_empty() && asks.is_empty());
}

#[test]
fn simple_cross_on_the_same_contract() {
    let mut engine = MatchingEngine::new();
    let (first, trades) =
        engine.place_order(1, OptionType::Yes, OrderType::Buy, price(730), 150, NOW);
    assert_eq!(
        first,
        Order {
            id: 1,
            user_id: 1,
            option: OptionType::Yes,
            order_type: OrderType::Buy,
            price: price(730),
            quantity: 150,
            timestamp: NOW,
        }
    );
    assert!(trades.is_empty());
    assert_eq!(engine.get_order_book(OptionType::Yes).0.get(&730), Some(&150u128));

    let (second, trades) =
        engine.place_order(2, OptionType::Yes, OrderType::Sell, price(730), 80, NOW + 1);
    assert_eq!(second.id, 2);
    assert_eq!(second.quantity, 0);
    assert_eq!(trades, vec![trade(1, 2, OptionType::Yes, 730, 80)]);
    assert_eq!(engine.get_market_price(OptionType::Yes), (Some(price(730)), None));
    let (bids, asks) = engine.get_order_book(OptionType::Yes);
    assert_eq!(bids.len(), 1);
    assert_eq!(bids.get(&730), Some(&70u128));
    assert!(asks.is_empty());
}

#[test]
fn cross_against_the_other_contract_at_the_complement() {
    let mut engine = MatchingEngine::new();
    let (first, trades) =
        engine.place_order(1, OptionType::Yes, OrderType::Buy, price(730), 150, NOW);
    assert_eq!(first.quantity, 150);
    assert!(trades.is_empty());

    let (second, trades) =
        engine.place_order(2, OptionType::No, OrderType::Sell, price(270), 500, NOW);
    // the incoming order sells, so it is the seller and the resting bid the buyer
    assert_eq!(trades, vec![trade(1, 2, OptionType::No, 270, 150)]);
    assert_eq!(second.id, 2);
    assert_eq!(second.quantity, 350);
    let (yes_bids, yes_asks) = engine.get_order_book(OptionType::Yes);
    assert!(yes_bids.is_empty() && yes_asks.is_empty());
    let (no_bids, no_asks) = engine.get_order_book(OptionType::No);
    assert!(no_bids.is_empty());
    assert_eq!(no_asks.len(), 1);
    assert_eq!(no_asks.get(&270), Some(&350u128));
    assert_eq!(engine.get_market_price(OptionType::No), (None, Some(price(270))));
}

#[test]
fn price_out_of_range_is_rejected() {
    let mut engine = MatchingEngine::new();
    let (order, trades) =
        engine.place_order(3, OptionType::Yes, OrderType::Buy, price(40), 10, NOW);
    assert_eq!(order.quantity, 0);
    assert_eq!(order.id, 1);
    assert_eq!(order.user_id, 3);
    assert_eq!(order.price, price(40));
    assert!(trades.is_empty());
    let (bids, asks) = engine.get_order_book(OptionType::Yes);
    assert!(bids.is_empty() && asks.is_empty());
    let (bids, asks) = engine.get_order_book(OptionType::No);
    assert!(bids.is_empty() && asks.is_empty());
}

#[test]
fn cancelled_order_does_not_match() {
    let mut engine = MatchingEngine::new();
    engine.place_order(1, OptionType::Yes, OrderType::Buy, price(730), 150, NOW);
    engine.cancel_order(OptionType::Yes, OrderType::Buy, price(730), 1);
    assert_eq!(engine.get_market_price(OptionType::Yes), (None, None));

    let (order, trades) =
        engine.place_order(4, OptionType::No, OrderType::Sell, price(730), 80, NOW);
    assert!(trades.is_empty());
    assert_eq!(order.id, 2);
    assert_eq!(order.quantity, 80);
    let (no_bids, no_asks) = engine.get_order_book(OptionType::No);
    assert!(no_bids.is_empty());
    assert_eq!(no_asks.get(&730), Some(&80u128));
    assert_eq!(no_asks.len(), 1);
}

#[test]
fn earlier_order_at_a_price_fills_first() {
    let mut engine = MatchingEngine::new();
    let (a, _) = engine.place_order(1, OptionType::Yes, OrderType::Buy, price(500), 30, NOW);
    let (b, _) = engine.place_order(2, OptionType::Yes, OrderType::Buy, price(500), 40, NOW);
    let (c, trades) = engine.place_order(3, OptionType::Yes, OrderType::Sell, price(500), 50, NOW);
    assert_eq!(
        trades,
        vec![
            trade(a.id, c.id, OptionType::Yes, 500, 30),
            trade(b.id, c.id, OptionType::Yes, 500, 20),
        ]
    );
    assert_eq!(c.quantity, 0);
    assert_eq!(engine.get_order_book(OptionType::Yes).0.get(&500), Some(&20u128));
    // what is left of the second order is still first in line
    let (d, trades) = engine.place_order(4, OptionType::Yes, OrderType::Sell, price(500), 5, NOW);
    assert_eq!(trades, vec![trade(b.id, d.id, OptionType::Yes, 500, 5)]);
}

#[test]
fn partial_fill_executes_at_the_resting_price() {
    let mut engine = MatchingEngine::new();
    engine.place_order(1, OptionType::Yes, OrderType::Sell, price(600), 100, NOW);
    let (buy, trades) = engine.place_order(2, OptionType::Yes, OrderType::Buy, price(700), 40, NOW);
    assert_eq!(trades, vec![trade(2, 1, OptionType::Yes, 600, 40)]);
    assert_eq!(buy.quantity, 0);
    let (bids, asks) = engine.get_order_book(OptionType::Yes);
    assert!(bids.is_empty());
    assert_eq!(asks.get(&600), Some(&60u128));
    assert_eq!(engine.get_market_price(OptionType::Yes), (None, Some(price(600))));
}

#[test]
fn a_session_with_crosses_and_a_cancellation() {
    let mut engine = MatchingEngine::new();
    let (o1, t1) = engine.place_order(1, OptionType::Yes, OrderType::Buy, price(730), 150, NOW);
    assert_eq!((o1.id, o1.quantity, t1.len()), (1, 150, 0));
    assert_eq!(engine.get_market_price(OptionType::Yes), (Some(price(730)), None));

    // 2.90 on NO corresponds to 7.10 on YES: the bid at 7.30 is within reach
    let (o2, t2) = engine.place_order(2, OptionType::No, OrderType::Sell, price(290), 500, NOW);
    assert_eq!(t2, vec![trade(1, 2, OptionType::No, 290, 150)]);
    assert_eq!(o2.quantity, 350);

    let (o3, t3) = engine.place_order(3, OptionType::No, OrderType::Sell, price(270), 500, NOW);
    assert!(t3.is_empty());
    assert_eq!(o3.quantity, 500);
    let (_, no_asks) = engine.get_order_book(OptionType::No);
    assert_eq!(no_asks.get(&290), Some(&350u128));
    assert_eq!(no_asks.get(&270), Some(&500u128));

    engine.cancel_order(OptionType::Yes, OrderType::Buy, price(730), 1);
    let (o4, t4) = engine.place_order(4, OptionType::No, OrderType::Sell, price(730), 80, NOW);
    assert!(t4.is_empty());
    assert_eq!((o4.id, o4.quantity), (4, 80));
    assert_eq!(engine.get_market_price(OptionType::No), (None, Some(price(270))));
}

#[test]
fn admission_bounds_are_inclusive_and_taken_on_the_price() {
    let mut engine = MatchingEngine::new();
    let (low, _) = engine.place_order(1, OptionType::Yes, OrderType::Buy, price(50), 1, NOW);
    assert_eq!(low.quantity, 1);
    let (high, _) = engine.place_order(1, OptionType::Yes, OrderType::Sell, price(950), 1, NOW);
    assert_eq!(high.quantity, 1);
    // 0.499999 rounds to tick 50 and is below 0.5 all the same
    let (under, t) =
        engine.place_order(1, OptionType::Yes, OrderType::Buy, Price::from_micros(499_999), 1, NOW);
    assert_eq!((under.quantity, t.len()), (0, 0));
    let (over, t) = engine.place_order(
        1,
        OptionType::Yes,
        OrderType::Sell,
        Price::from_micros(9_500_001),
        1,
        NOW,
    );
    assert_eq!((over.quantity, t.len()), (0, 0));
    let (bids, asks) = engine.get_order_book(OptionType::Yes);
    assert_eq!(bids.len(), 1);
    assert_eq!(bids.get(&50), Some(&1u128));
    assert_eq!(asks.len(), 1);
    assert_eq!(asks.get(&950), Some(&1u128));
}

#[test]
fn zero_quantity_is_rejected() {
    let mut engine = MatchingEngine::new();
    engine.place_order(1, OptionType::Yes, OrderType::Sell, price(600), 10, NOW);
    let (order, trades) = engine.place_order(2, OptionType::Yes, OrderType::Buy, price(600), 0, NOW);
    assert_eq!(order.quantity, 0);
    assert!(trades.is_empty());
    assert_eq!(engine.get_order_book(OptionType::Yes).1.get(&600), Some(&10u128));
    assert!(engine.get_order_book(OptionType::Yes).0.is_empty());
}

#[test]
fn ids_go_up_by_one_whatever_the_outcome() {
    let mut engine = MatchingEngine::new();
    let (a, _) = engine.place_order(1, OptionType::Yes, OrderType::Buy, price(500), 10, NOW);
    let (b, _) = engine.place_order(1, OptionType::Yes, OrderType::Buy, price(10), 10, NOW);
    let (c, _) = engine.place_order(1, OptionType::No, OrderType::Sell, price(500), 0, NOW);
    let (d, _) = engine.place_order(1, OptionType::No, OrderType::Sell, price(500), 10, NOW);
    assert_eq!((a.id, b.id, c.id, d.id), (1, 2, 3, 4));
    assert_eq!(engine.next_order_id(), 5);
    assert_eq!(engine.generate_order_id(), 5);
    assert_eq!(engine.next_order_id(), 6);
}

#[test]
fn quantity_is_conserved() {
    let mut engine = MatchingEngine::new();
    engine.place_order(1, OptionType::Yes, OrderType::Sell, price(600), 10, NOW);
    engine.place_order(1, OptionType::Yes, OrderType::Sell, price(610), 20, NOW);
    engine.place_order(1, OptionType::No, OrderType::Sell, price(350), 5, NOW);
    engine.place_order(1, OptionType::No, OrderType::Sell, price(390), 7, NOW);
    let (order, trades) =
        engine.place_order(2, OptionType::Yes, OrderType::Buy, price(620), 100, NOW);
    // own book: 10 at 6.00 and 20 at 6.10; other book down to 3.80: 5 at 3.50
    assert_eq!(
        trades,
        vec![
            trade(5, 1, OptionType::Yes, 600, 10),
            trade(5, 2, OptionType::Yes, 610, 20),
            trade(5, 3, OptionType::Yes, 620, 5),
        ]
    );
    assert_eq!(traded(&trades) + order.quantity as u64, 100);
    assert_eq!(order.quantity, 65);
    assert_eq!(engine.get_order_book(OptionType::Yes).0.get(&620), Some(&65u128));
    assert_eq!(engine.get_order_book(OptionType::No).1.get(&390), Some(&7u128));
    assert_eq!(engine.get_order_book(OptionType::No).1.len(), 1);
}

#[test]
fn best_price_goes_first_and_own_book_before_the_other() {
    let mut engine = MatchingEngine::new();
    engine.place_order(1, OptionType::Yes, OrderType::Buy, price(500), 10, NOW);
    engine.place_order(1, OptionType::Yes, OrderType::Buy, price(520), 10, NOW);
    engine.place_order(1, OptionType::Yes, OrderType::Buy, price(510), 10, NOW);
    engine.place_order(1, OptionType::No, OrderType::Buy, price(600), 10, NOW);
    let (order, trades) =
        engine.place_order(2, OptionType::Yes, OrderType::Sell, price(400), 35, NOW);
    assert_eq!(
        trades,
        vec![
            trade(2, 5, OptionType::Yes, 520, 10),
            trade(3, 5, OptionType::Yes, 510, 10),
            trade(1, 5, OptionType::Yes, 500, 10),
            trade(4, 5, OptionType::Yes, 400, 5),
        ]
    );
    assert_eq!(order.quantity, 0);
    assert_eq!(engine.get_order_book(OptionType::No).0.get(&600), Some(&5u128));
    assert!(engine.get_order_book(OptionType::Yes).0.is_empty());
}

#[test]
fn levels_beyond_the_limit_are_left_alone() {
    let mut engine = MatchingEngine::new();
    engine.place_order(1, OptionType::Yes, OrderType::Sell, price(600), 10, NOW);
    engine.place_order(1, OptionType::Yes, OrderType::Sell, price(700), 10, NOW);
    let (order, trades) = engine.place_order(2, OptionType::Yes, OrderType::Buy, price(650), 30, NOW);
    assert_eq!(trades, vec![trade(3, 1, OptionType::Yes, 600, 10)]);
    assert_eq!(order.quantity, 20);
    assert_eq!(
        engine.get_market_price(OptionType::Yes),
        (Some(price(650)), Some(price(700)))
    );
}

#[test]
fn cancellation_is_idempotent() {
    let mut engine = MatchingEngine::new();
    engine.place_order(1, OptionType::Yes, OrderType::Buy, price(500), 10, NOW);
    engine.place_order(1, OptionType::Yes, OrderType::Buy, price(500), 20, NOW);
    engine.cancel_order(OptionType::Yes, OrderType::Buy, price(500), 1);
    let once = engine.get_order_book(OptionType::Yes);
    engine.cancel_order(OptionType::Yes, OrderType::Buy, price(500), 1);
    engine.cancel_order(OptionType::Yes, OrderType::Buy, price(500), 1);
    assert_eq!(engine.get_order_book(OptionType::Yes), once);
    assert_eq!(once.0.get(&500), Some(&20u128));
    // an order that never existed, and one that was filled
    engine.cancel_order(OptionType::No, OrderType::Sell, price(500), 77);
    engine.place_order(1, OptionType::Yes, OrderType::Sell, price(500), 20, NOW);
    engine.cancel_order(OptionType::Yes, OrderType::Buy, price(500), 2);
    assert!(engine.get_order_book(OptionType::Yes).0.is_empty());
    assert!(engine.get_order_book(OptionType::Yes).1.is_empty());
}

#[test]
fn market_maker_takes_what_is_left() {
    let mut engine = MatchingEngine::new();
    engine.place_order(1, OptionType::Yes, OrderType::Sell, price(600), 10, NOW);
    engine.set_market_maker(true);
    assert!(engine.market_maker());
    let (order, trades) = engine.place_order(2, OptionType::Yes, OrderType::Buy, price(650), 30, NOW);
    assert_eq!(
        trades,
        vec![trade(2, 1, OptionType::Yes, 600, 10), trade(2, 0, OptionType::Yes, 650, 20)]
    );
    assert_eq!(order.quantity, 0);
    assert_eq!(traded(&trades), 30);
    let (bids, asks) = engine.get_order_book(OptionType::Yes);
    assert!(bids.is_empty() && asks.is_empty());

    let (order, trades) = engine.place_order(2, OptionType::No, OrderType::Sell, price(300), 4, NOW);
    assert_eq!(trades, vec![trade(0, 3, OptionType::No, 300, 4)]);
    assert_eq!(order.quantity, 0);

    engine.set_market_maker(false);
    let (order, trades) = engine.place_order(2, OptionType::No, OrderType::Sell, price(300), 4, NOW);
    assert!(trades.is_empty());
    assert_eq!(order.quantity, 4);
}

#[test]
fn prices_are_compared_on_ticks() {
    let mut engine = MatchingEngine::new();
    // 6.004 rests at tick 600
    engine.place_order(1, OptionType::Yes, OrderType::Sell, Price::from_micros(6_004_000), 10, NOW);
    assert_eq!(engine.get_market_price(OptionType::Yes), (None, Some(price(600))));
    // a bid at 6.00 reaches it, and the trade carries the resting order's price
    let (order, trades) = engine.place_order(2, OptionType::Yes, OrderType::Buy, price(600), 10, NOW);
    assert_eq!(order.quantity, 0);
    assert_eq!(
        trades,
        vec![Trade {
            buy_order_id: 2,
            sell_order_id: 1,
            option: OptionType::Yes,
            price: Price::from_micros(6_004_000),
            quantity: 10,
        }]
    );
}

#[test]
fn match_phases_can_be_run_one_by_one() {
    let resting = |id: u64, option: OptionType, hundredths: u64, quantity: u32| Order {
        id,
        user_id: 9,
        option,
        order_type: OrderType::Sell,
        price: price(hundredths),
        quantity,
        timestamp: NOW,
    };
    let mut yes = OrderBook::new(OptionType::Yes);
    yes.add_order(resting(1, OptionType::Yes, 600, 10));
    yes.add_order(resting(2, OptionType::Yes, 640, 10));
    let mut no = OrderBook::new(OptionType::No);
    no.add_order(resting(3, OptionType::No, 300, 10));
    no.add_order(resting(4, OptionType::No, 400, 10));
    let taker = Order {
        id: 5,
        user_id: 1,
        option: OptionType::Yes,
        order_type: OrderType::Buy,
        price: price(620),
        quantity: 50,
        timestamp: NOW,
    };
    let mut trades = Vec::new();
    let left = MatchingEngine::match_with_book(&mut yes, &taker, 50, &mut trades);
    assert_eq!(left, 40);
    assert_eq!(trades, vec![trade(5, 1, OptionType::Yes, 600, 10)]);
    let left = MatchingEngine::match_with_counter_book(&mut no, &taker, left, 380, &mut trades);
    assert_eq!(left, 30);
    assert_eq!(
        trades,
        vec![trade(5, 1, OptionType::Yes, 600, 10), trade(5, 3, OptionType::Yes, 620, 10)]
    );
    assert_eq!(yes.best_ask_tick(), Some(640));
    assert_eq!(no.best_ask_tick(), Some(400));
    let left = MatchingEngine::sweep_side(&mut no, &taker, 400, false, 4, &mut trades);
    assert_eq!(left, 0);
    assert_eq!(trades.len(), 3);
    assert_eq!(trades[2], trade(5, 4, OptionType::Yes, 620, 4));
    assert_eq!(no.snapshot(OrderType::Sell).get(&400), Some(&6u128));
}

#[test]
fn match_order_rests_what_is_left() {
    let mut engine = MatchingEngine::new();
    engine.place_order(1, OptionType::Yes, OrderType::Buy, price(500), 10, NOW);
    let id = engine.generate_order_id();
    let mut order = Order {
        id,
        user_id: 2,
        option: OptionType::Yes,
        order_type: OrderType::Sell,
        price: price(450),
        quantity: 25,
        timestamp: NOW,
    };
    let trades = engine.match_order(&mut order);
    assert_eq!(trades, vec![trade(1, 2, OptionType::Yes, 500, 10)]);
    assert_eq!(order.quantity, 15);
    assert_eq!(engine.get_market_price(OptionType::Yes), (None, Some(price(450))));
    assert_eq!(engine.get_order_book(OptionType::Yes).1.get(&450), Some(&15u128));
}
