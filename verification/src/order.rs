//! Orders, trades and the two tags that classify them.

use vstd::prelude::*;
use crate::price::{price_to_tick, spec_price_to_tick, Price};

verus! {

/// One of the two linked contracts of the market.
#[derive(Clone, Copy, Debug, PartialEq, Eq, Hash, Structural)]
pub enum OptionType {
    Yes,
    No,
}

impl OptionType {
    /// The linked contract.
    pub open spec fn spec_other(self) -> OptionType {
        match self {
            OptionType::Yes => OptionType::No,
            OptionType::No => OptionType::Yes,
        }
    }

    /// The linked contract.
    #[verifier::when_used_as_spec(spec_other)]
    pub fn other(self) -> (linked: OptionType)
        ensures
            linked == self.spec_other(),
    {
        match self {
            OptionType::Yes => OptionType::No,
            OptionType::No => OptionType::Yes,
        }
    }
}

/// The side of an order.
#[derive(Clone, Copy, Debug, PartialEq, Eq, Hash, Structural)]
pub enum OrderType {
    Buy,
    Sell,
}

impl OrderType {
    /// The side an order of this side trades against.
    pub open spec fn spec_opposite(self) -> OrderType {
        match self {
            OrderType::Buy => OrderType::Sell,
            OrderType::Sell => OrderType::Buy,
        }
    }

    /// The side an order of this side trades against.
    #[verifier::when_used_as_spec(spec_opposite)]
    pub fn opposite(self) -> (against: OrderType)
        ensures
            against == self.spec_opposite(),
    {
        match self {
            OrderType::Buy => OrderType::Sell,
            OrderType::Sell => OrderType::Buy,
        }
    }
}

/// A limit order. Everything but `quantity` is fixed when the order is
/// submitted; `quantity` is what is still unfilled.
#[derive(Clone, Copy, Debug, PartialEq, Eq, Hash, Structural)]
pub struct Order {
    pub id: u64,
    pub user_id: u32,
    pub option: OptionType,
    pub order_type: OrderType,
    pub price: Price,
    pub quantity: u32,
    pub timestamp: u64,
}

impl Order {
    /// The tick at which the order rests and is compared.
    pub open spec fn spec_tick(self) -> u64 {
        spec_price_to_tick(self.price)
    }

    /// The tick at which the order rests and is compared.
    #[verifier::when_used_as_spec(spec_tick)]
    pub fn tick(self) -> (tick: u64)
        ensures
            tick == self.spec_tick(),
    {
        price_to_tick(self.price)
    }

    /// The same order with `quantity` left unfilled.
    pub open spec fn spec_with_quantity(self, quantity: u32) -> Order {
        Order { quantity, ..self }
    }

    /// The same order with `quantity` left unfilled.
    #[verifier::when_used_as_spec(spec_with_quantity)]
    pub fn with_quantity(self, quantity: u32) -> (order: Order)
        ensures
            order == self.spec_with_quantity(quantity),
    {
        Order { quantity, ..self }
    }
}

/// An execution between a buy order and a sell order. An id of zero names a
/// synthetic counterparty rather than an order.
#[derive(Clone, Copy, Debug, PartialEq, Eq, Hash, Structural)]
pub struct Trade {
    pub buy_order_id: u64,
    pub sell_order_id: u64,
    pub option: OptionType,
    pub price: Price,
    pub quantity: u32,
}

/// The sum of the quantities of a sequence of trades.
pub open spec fn total_quantity(trades: Seq<Trade>) -> nat
    decreases trades.len(),
{
    if trades.len() == 0 {
        0
    } else {
        total_quantity(trades.drop_last()) + trades.last().quantity as nat
    }
}

/// The quantity of a concatenation is the sum of the quantities of its parts.
pub proof fn lemma_total_quantity_concat(left: Seq<Trade>, right: Seq<Trade>)
    ensures
        total_quantity(left + right) == total_quantity(left) + total_quantity(right),
    decreases right.len(),
{
    if right.len() == 0 {
        assert(left + right =~= left);
    } else {
        assert((left + right).drop_last() =~= left + right.drop_last());
        lemma_total_quantity_concat(left, right.drop_last());
    }
}

} // verus!
