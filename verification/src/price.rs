//! Exact prices.
//!
//! A [`Price`] is a non-negative decimal held as a whole number of millionths.
//! The books never order or compare prices themselves: they work on *ticks*,
//! whole hundredths, obtained by rounding to the nearest hundredth with halves
//! rounded up.

use vstd::prelude::*;

verus! {

/// Price units (millionths) in one tick (one hundredth).
pub const UNITS_PER_TICK: u64 = 10_000;

/// Half a tick, in price units.
pub const HALF_TICK: u64 = 5_000;

/// The tick of the price to which the prices of the two contracts sum (10.00).
pub const P_MAX_TICK: u64 = 1_000;

/// The lowest price a submission may carry (0.50), in price units.
pub const MIN_PRICE_UNITS: u64 = 500_000;

/// The highest price a submission may carry (9.50), in price units.
pub const MAX_PRICE_UNITS: u64 = 9_500_000;

/// The largest tick whose price fits a [`Price`].
pub const MAX_TICK: u64 = 1_844_674_407_370_955;

/// A non-negative decimal price, in millionths.
#[derive(Clone, Copy, Debug, PartialEq, Eq, Hash, Structural)]
pub struct Price {
    pub micros: u64,
}

impl Price {
    /// The price of `micros` millionths.
    pub fn from_micros(micros: u64) -> (price: Price)
        ensures
            price.micros == micros,
    {
        Price { micros }
    }

    /// Whether the price has no more than two fractional digits.
    pub open spec fn on_tick(self) -> bool {
        self.micros % UNITS_PER_TICK == 0
    }

    /// Whether the price lies in the range that submissions may use,
    /// 0.50 to 9.50 with both ends included.
    pub open spec fn spec_is_admissible(self) -> bool {
        MIN_PRICE_UNITS <= self.micros <= MAX_PRICE_UNITS
    }

    #[verifier::when_used_as_spec(spec_is_admissible)]
    pub fn is_admissible(self) -> (ok: bool)
        ensures
            ok == self.spec_is_admissible(),
    {
        MIN_PRICE_UNITS <= self.micros && self.micros <= MAX_PRICE_UNITS
    }
}

/// The tick nearest to a price; a price halfway between two ticks goes up.
pub open spec fn spec_price_to_tick(price: Price) -> u64 {
    ((price.micros + HALF_TICK) / (UNITS_PER_TICK as int)) as u64
}

/// The price of a tick.
pub open spec fn spec_tick_to_price(tick: u64) -> Price {
    Price { micros: (tick * UNITS_PER_TICK) as u64 }
}

/// Rounds a price to its tick.
#[verifier::when_used_as_spec(spec_price_to_tick)]
pub fn price_to_tick(price: Price) -> (tick: u64)
    ensures
        tick == spec_price_to_tick(price),
        tick * UNITS_PER_TICK <= price.micros + HALF_TICK < (tick + 1) * UNITS_PER_TICK,
        tick <= MAX_TICK,
{
    let whole: u64 = price.micros / UNITS_PER_TICK;
    let rest: u64 = price.micros % UNITS_PER_TICK;
    if rest >= HALF_TICK {
        whole + 1
    } else {
        whole
    }
}

/// The price that a tick stands for.
#[verifier::when_used_as_spec(spec_tick_to_price)]
pub fn tick_to_price(tick: u64) -> (price: Price)
    requires
        tick <= MAX_TICK,
    ensures
        price == spec_tick_to_price(tick),
        price.micros == tick * UNITS_PER_TICK,
{
    Price { micros: tick * UNITS_PER_TICK }
}

/// The tick on the other contract that corresponds to `tick` on this one.
pub open spec fn spec_complement_tick(tick: u64) -> u64 {
    (P_MAX_TICK - tick) as u64
}

/// The complement of a tick: what remains of the fixed sum of the two
/// contracts' prices.
#[verifier::when_used_as_spec(spec_complement_tick)]
pub fn complement_tick(tick: u64) -> (other: u64)
    requires
        tick <= P_MAX_TICK,
    ensures
        other == spec_complement_tick(tick),
        other + tick == P_MAX_TICK,
{
    P_MAX_TICK - tick
}

/// A price with at most two fractional digits survives the trip to its tick
/// and back unchanged.
pub proof fn lemma_tick_round_trip(price: Price)
    requires
        price.on_tick(),
    ensures
        tick_to_price(price_to_tick(price)) == price,
{
}

/// Every tick whose price is representable is the tick of its own price.
pub proof fn lemma_price_round_trip(tick: u64)
    requires
        tick <= MAX_TICK,
    ensures
        price_to_tick(tick_to_price(tick)) == tick,
        tick_to_price(tick).on_tick(),
{
}

/// An admissible price rounds to a tick between 50 and 950.
pub proof fn lemma_admissible_tick_range(price: Price)
    requires
        price.is_admissible(),
    ensures
        50 <= price_to_tick(price) <= 950,
{
}

} // verus!
