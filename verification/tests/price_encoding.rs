use matching_engine::price::{complement_tick, price_to_tick, tick_to_price, Price};

#[test]
fn price_rounds_to_nearest_tick() {
    assert_eq!(price_to_tick(Price::from_micros(7_300_000)), 730);
    assert_eq!(price_to_tick(Price::from_micros(7_304_999)), 730);
    assert_eq!(price_to_tick(Price::from_micros(7_305_000)), 731);
    assert_eq!(price_to_tick(Price::from_micros(7_295_000)), 730);
    assert_eq!(price_to_tick(Price::from_micros(7_294_999)), 729);
    assert_eq!(price_to_tick(Price::from_micros(0)), 0);
    assert_eq!(price_to_tick(Price::from_micros(4_999)), 0);
    assert_eq!(price_to_tick(Price::from_micros(5_000)), 1);
}

#[test]
fn tick_gives_back_its_price() {
    assert_eq!(tick_to_price(730), Price::from_micros(7_300_000));
    assert_eq!(tick_to_price(0), Price::from_micros(0));
    assert_eq!(tick_to_price(1_000), Price::from_micros(10_000_000));
}

#[test]
fn complement_is_taken_on_ticks() {
    assert_eq!(complement_tick(270), 730);
    assert_eq!(complement_tick(730), 270);
    assert_eq!(complement_tick(0), 1_000);
    assert_eq!(complement_tick(1_000), 0);
}
