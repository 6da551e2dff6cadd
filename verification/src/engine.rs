//! The matching engine: the books of the two contracts, the counter that
//! numbers the orders, and the three phases through which every admitted
//! order goes.

use std::collections::BTreeMap;
use vstd::prelude::*;
use crate::book::{
    lemma_add_keeps_sound, lemma_cancel_twice, lemma_with_thinned_side, BookView, OrderBook,
};
use crate::ladder::{
    cancel_from, depth, is_best, is_level, lemma_cancel_from_keeps, lemma_cancel_from_wf,
    level_at,
};
use crate::matching::{
    crosses, fill_head, lemma_fill_head_by_pop_and_push, lemma_sweep_conserves,
    lemma_sweep_keeps, next_fill, sweep, trade_between,
};
use crate::order::{
    lemma_total_quantity_concat, total_quantity, Order, OptionType, OrderType, Trade,
};
use crate::price::{
    complement_tick, lemma_admissible_tick_range, price_to_tick, tick_to_price, Price,
};

verus! {

/// The commission of a new engine, in hundredths of a percent (2.23 %).
/// The engine stores the rate and never applies it.
pub const DEFAULT_COMMISSION_BPS: u32 = 223;

/// The id that stands for the synthetic counterparty of a market-maker trade.
pub const MARKET_MAKER_ID: u64 = 0;

/// Whether a submission is admitted: its price lies in the admissible range
/// and it asks for at least one unit.
pub open spec fn spec_admits(price: Price, quantity: u32) -> bool {
    price.is_admissible() && quantity > 0
}

/// Whether a submission is admitted.
#[verifier::when_used_as_spec(spec_admits)]
pub fn admits(price: Price, quantity: u32) -> (admitted: bool)
    ensures
        admitted == spec_admits(price, quantity),
{
    price.is_admissible() && quantity > 0
}

/// The trade by which the market maker takes what an order could not fill:
/// the order on its own side, the synthetic counterparty on the other, at
/// the order's own price.
pub open spec fn spec_maker_trade(order: Order, quantity: u32) -> Trade {
    Trade {
        buy_order_id: if order.order_type is Buy {
            order.id
        } else {
            MARKET_MAKER_ID
        },
        sell_order_id: if order.order_type is Buy {
            MARKET_MAKER_ID
        } else {
            order.id
        },
        option: order.option,
        price: order.price,
        quantity,
    }
}

/// The trade by which the market maker takes what an order could not fill.
#[verifier::when_used_as_spec(spec_maker_trade)]
pub fn maker_trade(order: Order, quantity: u32) -> (trade: Trade)
    ensures
        trade == spec_maker_trade(order, quantity),
{
    let (buy_order_id, sell_order_id) = match order.order_type {
        OrderType::Buy => (order.id, MARKET_MAKER_ID),
        OrderType::Sell => (MARKET_MAKER_ID, order.id),
    };
    Trade { buy_order_id, sell_order_id, option: order.option, price: order.price, quantity }
}

/// What a [`MatchingEngine`] holds, as mathematics.
#[verifier::ext_equal]
pub struct EngineView {
    pub yes_book: BookView,
    pub no_book: BookView,
    pub next_order_id: u64,
    pub commission_bps: u32,
    pub market_maker: bool,
}

/// What a submission leads to: the engine afterwards, the order as it is
/// returned, and the trades.
pub struct Placement {
    pub engine: EngineView,
    pub order: Order,
    pub trades: Seq<Trade>,
}

impl EngineView {
    /// The engine with two empty books, as it is made.
    pub open spec fn fresh() -> EngineView {
        EngineView {
            yes_book: BookView::empty(OptionType::Yes),
            no_book: BookView::empty(OptionType::No),
            next_order_id: 1,
            commission_bps: DEFAULT_COMMISSION_BPS,
            market_maker: false,
        }
    }

    /// The book of a contract.
    pub open spec fn book(self, option: OptionType) -> BookView {
        match option {
            OptionType::Yes => self.yes_book,
            OptionType::No => self.no_book,
        }
    }

    /// The engine with the book of a contract replaced.
    pub open spec fn with_book(self, option: OptionType, book: BookView) -> EngineView {
        match option {
            OptionType::Yes => EngineView { yes_book: book, ..self },
            OptionType::No => EngineView { no_book: book, ..self },
        }
    }

    /// Whether every resting order of both books has an id below `bound`.
    pub open spec fn ids_below(self, bound: u64) -> bool {
        &&& self.yes_book.ids_below(bound)
        &&& self.no_book.ids_below(bound)
    }

    /// The invariant of the engine. Each book is the book of its contract,
    /// has no empty level and holds every order where it belongs; in each
    /// book every bid is below every ask; ids start at one, and every
    /// resting order carries an id that was already handed out.
    pub open spec fn wf(self) -> bool {
        &&& self.yes_book.option == OptionType::Yes
        &&& self.no_book.option == OptionType::No
        &&& self.yes_book.wf()
        &&& self.no_book.wf()
        &&& self.yes_book.is_uncrossed()
        &&& self.no_book.is_uncrossed()
        &&& self.next_order_id >= 1
        &&& self.ids_below(self.next_order_id)
    }

    /// The engine after it has handed out one id.
    pub open spec fn counted(self) -> EngineView {
        EngineView { next_order_id: (self.next_order_id + 1) as u64, ..self }
    }

    /// The three phases for an admitted `order` whose `quantity` is what it
    /// asks for. The first phase sweeps the opposite side of the order's own
    /// book down to the order's tick. The second sweeps the same side of the
    /// other contract's book down to the complement of that tick. The third
    /// disposes of what is left: it comes to rest at the tail of the order's
    /// level, or, where the market maker is engaged, is traded against it.
    pub open spec fn matched(self, order: Order) -> Placement {
        let against = order.order_type.opposite();
        let own_book = self.book(order.option);
        let other_book = self.book(order.option.other());
        let first = sweep(
            own_book.side(against),
            against,
            order.tick(),
            order,
            true,
            order.quantity,
        );
        let second = sweep(
            other_book.side(against),
            against,
            complement_tick(order.tick()),
            order,
            false,
            first.remaining,
        );
        let swept = self.with_book(order.option, own_book.with_side(against, first.ladder)).with_book(
            order.option.other(),
            other_book.with_side(against, second.ladder),
        );
        let left = order.with_quantity(second.remaining);
        if second.remaining == 0 {
            Placement { engine: swept, order: left, trades: first.trades + second.trades }
        } else if self.market_maker {
            Placement {
                engine: swept,
                order: order.with_quantity(0),
                trades: first.trades + second.trades + seq![maker_trade(order, second.remaining)],
            }
        } else {
            Placement {
                engine: swept.with_book(order.option, swept.book(order.option).add(left)),
                order: left,
                trades: first.trades + second.trades,
            }
        }
    }

    /// What a submission leads to. The order takes the next id whether it is
    /// admitted or not. A submission that is not admitted changes nothing
    /// else: it comes back with quantity zero and without trades.
    pub open spec fn place(
        self,
        user_id: u32,
        option: OptionType,
        order_type: OrderType,
        price: Price,
        quantity: u32,
        timestamp: u64,
    ) -> Placement {
        let order = Order {
            id: self.next_order_id,
            user_id,
            option,
            order_type,
            price,
            quantity,
            timestamp,
        };
        if admits(price, quantity) {
            self.counted().matched(order)
        } else {
            Placement {
                engine: self.counted(),
                order: order.with_quantity(0),
                trades: Seq::empty(),
            }
        }
    }

    /// The engine after a cancellation.
    pub open spec fn cancel(
        self,
        option: OptionType,
        order_type: OrderType,
        price: Price,
        order_id: u64,
    ) -> EngineView {
        self.with_book(
            option,
            self.book(option).cancel(order_type, price_to_tick(price), order_id),
        )
    }
}

/// The matching engine of one YES/NO market.
#[derive(Debug)]
pub struct MatchingEngine {
    yes_book: OrderBook,
    no_book: OrderBook,
    next_order_id: u64,
    commission_bps: u32,
    market_maker: bool,
}

impl View for MatchingEngine {
    type V = EngineView;

    closed spec fn view(&self) -> EngineView {
        EngineView {
            yes_book: self.yes_book@,
            no_book: self.no_book@,
            next_order_id: self.next_order_id,
            commission_bps: self.commission_bps,
            market_maker: self.market_maker,
        }
    }
}

impl MatchingEngine {
    /// An engine with two empty books, whose first order will be order 1.
    /// What an order cannot fill comes to rest; the market maker is not
    /// engaged.
    pub fn new() -> (engine: MatchingEngine)
        ensures
            engine@ == EngineView::fresh(),
            engine@.wf(),
    {
        MatchingEngine {
            yes_book: OrderBook::new(OptionType::Yes),
            no_book: OrderBook::new(OptionType::No),
            next_order_id: 1,
            commission_bps: DEFAULT_COMMISSION_BPS,
            market_maker: false,
        }
    }

    /// Engages or disengages the market maker, which takes what an order
    /// cannot fill instead of letting it rest.
    pub fn set_market_maker(&mut self, engaged: bool)
        ensures
            final(self)@ == (EngineView { market_maker: engaged, ..old(self)@ }),
            old(self)@.wf() ==> final(self)@.wf(),
    {
        self.market_maker = engaged;
    }

    /// Whether the market maker is engaged.
    pub fn market_maker(&self) -> (engaged: bool)
        ensures
            engaged == self@.market_maker,
    {
        self.market_maker
    }

    /// The commission rate, in hundredths of a percent.
    pub fn commission_bps(&self) -> (rate: u32)
        ensures
            rate == self@.commission_bps,
    {
        self.commission_bps
    }

    /// The id that the next submission will take.
    pub fn next_order_id(&self) -> (id: u64)
        ensures
            id == self@.next_order_id,
    {
        self.next_order_id
    }

    /// Hands out the next id.
    pub fn generate_order_id(&mut self) -> (id: u64)
        requires
            old(self)@.next_order_id < u64::MAX,
        ensures
            id == old(self)@.next_order_id,
            final(self)@ == old(self)@.counted(),
            old(self)@.wf() ==> final(self)@.wf() && final(self)@.ids_below(id),
    {
        let id: u64 = self.next_order_id;
        self.next_order_id = self.next_order_id + 1;
        id
    }

    /// Sweeps one side of `book` with what is left of `order`: serves the
    /// head of the best level on the side opposite to the order's while that
    /// level is within `limit` and quantity remains. Appends one trade per
    /// fill and returns the quantity still unfilled.
    pub fn sweep_side(
        book: &mut OrderBook,
        order: &Order,
        limit: u64,
        own_book: bool,
        remaining_quantity: u32,
        trades: &mut Vec<Trade>,
    ) -> (remaining: u32)
        requires
            old(book)@.wf(),
        ensures
            final(book)@.wf(),
            ({
                let against = order.order_type.opposite();
                let swept = sweep(
                    old(book)@.side(against),
                    against,
                    limit,
                    *order,
                    own_book,
                    remaining_quantity,
                );
                &&& final(book)@ == old(book)@.with_side(against, swept.ladder)
                &&& final(trades)@ == old(trades)@ + swept.trades
                &&& remaining == swept.remaining
            }),
    {
        let against = order.order_type.opposite();
        let mut remaining: u32 = remaining_quantity;
        let ghost target = sweep(
            book@.side(against),
            against,
            limit,
            *order,
            own_book,
            remaining_quantity,
        );
        assert(book@ =~= old(book)@.with_side(against, book@.side(against)));
        assert(trades@ =~= old(trades)@ + Seq::<Trade>::empty());
        while remaining > 0
            invariant
                against == order.order_type.opposite(),
                book@.wf(),
                book@ == old(book)@.with_side(against, book@.side(against)),
                target == sweep(
                    old(book)@.side(against),
                    against,
                    limit,
                    *order,
                    own_book,
                    remaining_quantity,
                ),
                ({
                    let rest = sweep(
                        book@.side(against),
                        against,
                        limit,
                        *order,
                        own_book,
                        remaining,
                    );
                    &&& target.ladder == rest.ladder
                    &&& target.remaining == rest.remaining
                    &&& old(trades)@ + target.trades == trades@ + rest.trades
                }),
            ensures
                next_fill(book@.side(against), against, limit, remaining) is None,
            decreases remaining,
        {
            let ghost ladder = book@.side(against);
            let ghost done = trades@;
            let tick: u64 = match book.best_tick(against) {
                Some(tick) => tick,
                None => {
                    break ;
                },
            };
            if !crosses(against, tick, limit) {
                break ;
            }
            proof {
                assert(is_best(ladder, against, tick));
                assert(ladder.contains_key(tick));
                assert(is_level(ladder[tick], book@.option, against, tick));
            }
            let head: Order = match book.pop_head(against, tick) {
                Some(head) => head,
                None => {
                    break ;
                },
            };
            let fill: u32 = if remaining <= head.quantity {
                remaining
            } else {
                head.quantity
            };
            proof {
                assert(next_fill(ladder, against, limit, remaining) == Some((tick, fill)));
            }
            trades.push(trade_between(*order, head, own_book, fill));
            remaining = remaining - fill;
            if head.quantity > fill {
                proof {
                    lemma_fill_head_by_pop_and_push(ladder, book@.option, against, tick, fill);
                    assert(book@.accepts_at_head(head.with_quantity((head.quantity - fill) as u32)))
                        by {
                        let left = head.with_quantity((head.quantity - fill) as u32);
                        let behind = level_at(book@.side(against), tick);
                        assert forall|i: int| 0 <= i < behind.len() implies left.id < (
                        #[trigger] behind[i]).id by {
                            assert(behind[i] == ladder[tick][i + 1]);
                            assert(ladder[tick][0].id < ladder[tick][i + 1].id);
                        }
                    }
                }
                book.push_head(head.with_quantity(head.quantity - fill));
            }
            proof {
                assert(book@.side(against) == fill_head(ladder, tick, fill));
                assert(book@ =~= old(book)@.with_side(against, book@.side(against)));
                let step = sweep(ladder, against, limit, *order, own_book, (remaining + fill) as u32);
                let rest = sweep(
                    book@.side(against),
                    against,
                    limit,
                    *order,
                    own_book,
                    remaining,
                );
                let trade = trade_between(*order, head, own_book, fill);
                assert(step.trades == seq![trade] + rest.trades);
                assert(trades@ + rest.trades =~= done + (seq![trade] + rest.trades));
            }
        }
        proof {
            let rest = sweep(book@.side(against), against, limit, *order, own_book, remaining);
            assert(rest.trades =~= Seq::<Trade>::empty());
            assert(trades@ + rest.trades =~= trades@);
            assert(trades@ == old(trades)@ + target.trades);
        }
        remaining
    }

    /// The first phase: crosses `order` against the opposite side of its
    /// own book. A buy takes the lowest asks priced at or below its tick, a
    /// sell the highest bids priced at or above it. Each trade executes at
    /// the resting order's price.
    pub fn match_with_book(
        book: &mut OrderBook,
        order: &Order,
        remaining_quantity: u32,
        trades: &mut Vec<Trade>,
    ) -> (remaining: u32)
        requires
            old(book)@.wf(),
        ensures
            final(book)@.wf(),
            ({
                let against = order.order_type.opposite();
                let swept = sweep(
                    old(book)@.side(against),
                    against,
                    order.tick(),
                    *order,
                    true,
                    remaining_quantity,
                );
                &&& final(book)@ == old(book)@.with_side(against, swept.ladder)
                &&& final(trades)@ == old(trades)@ + swept.trades
                &&& remaining == swept.remaining
            }),
    {
        let limit: u64 = order.tick();
        Self::sweep_side(book, order, limit, true, remaining_quantity, trades)
    }

    /// The second phase: crosses `order` against the other contract's book
    /// at the complement of its price. A buy takes that book's asks priced
    /// at or below `counter_tick`, a sell its bids priced at or above it.
    /// Each trade is reported on the order's own contract at the order's own
    /// price.
    pub fn match_with_counter_book(
        counter_book: &mut OrderBook,
        order: &Order,
        remaining_quantity: u32,
        counter_tick: u64,
        trades: &mut Vec<Trade>,
    ) -> (remaining: u32)
        requires
            old(counter_book)@.wf(),
        ensures
            final(counter_book)@.wf(),
            ({
                let against = order.order_type.opposite();
                let swept = sweep(
                    old(counter_book)@.side(against),
                    against,
                    counter_tick,
                    *order,
                    false,
                    remaining_quantity,
                );
                &&& final(counter_book)@ == old(counter_book)@.with_side(against, swept.ladder)
                &&& final(trades)@ == old(trades)@ + swept.trades
                &&& remaining == swept.remaining
            }),
    {
        Self::sweep_side(counter_book, order, counter_tick, false, remaining_quantity, trades)
    }

    /// Runs the three phases for an admitted order that already carries its
    /// id. On return `order.quantity` is what came to rest, which is zero
    /// when the order was filled or the market maker took the rest.
    pub fn match_order(&mut self, order: &mut Order) -> (trades: Vec<Trade>)
        requires
            old(self)@.wf(),
            old(order).price.is_admissible(),
            old(order).id < old(self)@.next_order_id,
            old(self)@.ids_below(old(order).id),
        ensures
            final(self)@.wf(),
            final(self)@ == old(self)@.matched(*old(order)).engine,
            *final(order) == old(self)@.matched(*old(order)).order,
            trades@ == old(self)@.matched(*old(order)).trades,
            total_quantity(trades@) + final(order).quantity == old(order).quantity,
    {
        let taker: Order = *order;
        let limit: u64 = taker.tick();
        proof {
            lemma_admissible_tick_range(taker.price);
            lemma_matched(self@, taker);
        }
        let counter_tick: u64 = complement_tick(limit);
        let mut trades: Vec<Trade> = Vec::new();
        let first: u32 = match taker.option {
            OptionType::Yes => Self::match_with_book(
                &mut self.yes_book,
                &taker,
                taker.quantity,
                &mut trades,
            ),
            OptionType::No => Self::match_with_book(
                &mut self.no_book,
                &taker,
                taker.quantity,
                &mut trades,
            ),
        };
        let second: u32 = match taker.option {
            OptionType::Yes => Self::match_with_counter_book(
                &mut self.no_book,
                &taker,
                first,
                counter_tick,
                &mut trades,
            ),
            OptionType::No => Self::match_with_counter_book(
                &mut self.yes_book,
                &taker,
                first,
                counter_tick,
                &mut trades,
            ),
        };
        proof {
            let against = taker.order_type.opposite();
            let swept_first = sweep(
                old(self)@.book(taker.option).side(against),
                against,
                limit,
                taker,
                true,
                taker.quantity,
            );
            let swept_second = sweep(
                old(self)@.book(taker.option.other()).side(against),
                against,
                counter_tick,
                taker,
                false,
                first,
            );
            assert(trades@ =~= swept_first.trades + swept_second.trades);
        }
        if second == 0 {
            order.quantity = 0;
        } else if self.market_maker {
            trades.push(maker_trade(taker, second));
            order.quantity = 0;
        } else {
            order.quantity = second;
            match taker.option {
                OptionType::Yes => self.yes_book.add_order(*order),
                OptionType::No => self.no_book.add_order(*order),
            }
        }
        assert(self@ =~= old(self)@.matched(taker).engine);
        assert(trades@ =~= old(self)@.matched(taker).trades);
        trades
    }

    /// Takes a submission made at the time `timestamp`, in seconds since the
    /// epoch. The order gets the next id whether it is admitted or not. A
    /// price outside the admissible range or a quantity of zero is not
    /// admitted: the order comes back with quantity zero, without trades, and
    /// the books stay as they are. An admitted order goes through the three
    /// phases; it comes back with the quantity that came to rest, together
    /// with its trades in the order in which they happened.
    pub fn place_order(
        &mut self,
        user_id: u32,
        option: OptionType,
        order_type: OrderType,
        price: Price,
        quantity: u32,
        timestamp: u64,
    ) -> (placed: (Order, Vec<Trade>))
        requires
            old(self)@.wf(),
            old(self)@.next_order_id < u64::MAX,
        ensures
            final(self)@.wf(),
            ({
                let placement = old(self)@.place(
                    user_id,
                    option,
                    order_type,
                    price,
                    quantity,
                    timestamp,
                );
                &&& final(self)@ == placement.engine
                &&& placed.0 == placement.order
                &&& placed.1@ == placement.trades
            }),
            placed.0.id == old(self)@.next_order_id,
            final(self)@.next_order_id == old(self)@.next_order_id + 1,
            admits(price, quantity) ==> total_quantity(placed.1@) + placed.0.quantity == quantity,
            !admits(price, quantity) ==> placed.0.quantity == 0 && placed.1@.len() == 0
                && final(self)@ == old(self)@.counted(),
    {
        let id: u64 = self.generate_order_id();
        let mut order = Order { id, user_id, option, order_type, price, quantity, timestamp };
        if !admits(price, quantity) {
            order.quantity = 0;
            return (order, Vec::new());
        }
        let trades = self.match_order(&mut order);
        (order, trades)
    }

    /// Cancels the order `order_id` resting on the book of `option`, on the
    /// given side, at the tick of `price`. Nothing happens when no such order
    /// rests there: it was filled, cancelled before, or never existed.
    pub fn cancel_order(
        &mut self,
        option: OptionType,
        order_type: OrderType,
        price: Price,
        order_id: u64,
    )
        requires
            old(self)@.wf(),
        ensures
            final(self)@.wf(),
            final(self)@ == old(self)@.cancel(option, order_type, price, order_id),
    {
        proof {
            lemma_cancel_wf(self@, option, order_type, price, order_id);
        }
        match option {
            OptionType::Yes => self.yes_book.remove_order(order_type, price, order_id),
            OptionType::No => self.no_book.remove_order(order_type, price, order_id),
        }
        assert(self@ =~= old(self)@.cancel(option, order_type, price, order_id));
    }

    /// The prices of the best bid and of the best ask of a contract, each
    /// absent when that side of the book is empty.
    pub fn get_market_price(&self, option: OptionType) -> (prices: (Option<Price>, Option<Price>))
        requires
            self@.wf(),
        ensures
            prices.0 == (match self@.book(option).best_bid_tick() {
                Some(tick) => Some(tick_to_price(tick)),
                None => None,
            }),
            prices.1 == (match self@.book(option).best_ask_tick() {
                Some(tick) => Some(tick_to_price(tick)),
                None => None,
            }),
    {
        let book = match option {
            OptionType::Yes => &self.yes_book,
            OptionType::No => &self.no_book,
        };
        let bid = match book.best_bid_tick() {
            Some(tick) => {
                proof {
                    assert(is_level(book@.bids[tick], book@.option, OrderType::Buy, tick));
                    assert(book@.bids[tick][0].tick() == tick);
                }
                Some(tick_to_price(tick))
            },
            None => None,
        };
        let ask = match book.best_ask_tick() {
            Some(tick) => {
                proof {
                    assert(is_level(book@.asks[tick], book@.option, OrderType::Sell, tick));
                    assert(book@.asks[tick][0].tick() == tick);
                }
                Some(tick_to_price(tick))
            },
            None => None,
        };
        (bid, ask)
    }

    /// The total resting quantity at each occupied tick of a contract's
    /// book: the bids first, then the asks.
    pub fn get_order_book(&self, option: OptionType) -> (totals: (
        BTreeMap<u64, u128>,
        BTreeMap<u64, u128>,
    ))
        ensures
            totals.0@ == depth(self@.book(option).bids),
            totals.1@ == depth(self@.book(option).asks),
    {
        let book = match option {
            OptionType::Yes => &self.yes_book,
            OptionType::No => &self.no_book,
        };
        (book.snapshot(OrderType::Buy), book.snapshot(OrderType::Sell))
    }
}

/// The three phases keep the invariant of the engine and conserve quantity:
/// after them no book is crossed, no level is empty, and what was traded and
/// what came to rest add up to what the order asked for.
pub proof fn lemma_matched(engine: EngineView, order: Order)
    requires
        engine.wf(),
        order.price.is_admissible(),
        order.id < engine.next_order_id,
        engine.ids_below(order.id),
    ensures
        engine.matched(order).engine.wf(),
        engine.matched(order).engine.next_order_id == engine.next_order_id,
        total_quantity(engine.matched(order).trades) + engine.matched(order).order.quantity
            == order.quantity,
{
    let against = order.order_type.opposite();
    let own_book = engine.book(order.option);
    let other_book = engine.book(order.option.other());
    let limit = order.tick();
    let counter = complement_tick(limit);
    let first = sweep(own_book.side(against), against, limit, order, true, order.quantity);
    let second = sweep(other_book.side(against), against, counter, order, false, first.remaining);
    let bound = engine.next_order_id;
    lemma_sweep_keeps(
        own_book.side(against),
        own_book.option,
        against,
        limit,
        order,
        true,
        order.quantity,
        bound,
    );
    lemma_sweep_keeps(
        other_book.side(against),
        other_book.option,
        against,
        counter,
        order,
        false,
        first.remaining,
        bound,
    );
    lemma_sweep_conserves(own_book.side(against), against, limit, order, true, order.quantity);
    lemma_sweep_conserves(
        other_book.side(against),
        against,
        counter,
        order,
        false,
        first.remaining,
    );
    lemma_total_quantity_concat(first.trades, second.trades);
    let own_swept = own_book.with_side(against, first.ladder);
    let other_swept = other_book.with_side(against, second.ladder);
    lemma_with_thinned_side(own_book, against, first.ladder, bound);
    lemma_with_thinned_side(other_book, against, second.ladder, bound);
    if second.remaining == 0 {
    } else if engine.market_maker {
        let last = seq![maker_trade(order, second.remaining)];
        lemma_total_quantity_concat(first.trades + second.trades, last);
        assert(total_quantity(last) == second.remaining) by {
            assert(last.drop_last() =~= Seq::<Trade>::empty());
            reveal_with_fuel(total_quantity, 2);
        }
    } else {
        let left = order.with_quantity(second.remaining);
        let same = own_swept.side(order.order_type);
        assert(same == own_book.side(order.order_type));
        assert(own_swept.accepts(left)) by {
            assert forall|i: int| 0 <= i < level_at(same, left.tick()).len() implies (
            #[trigger] level_at(same, left.tick())[i]).id < left.id by {
                assert(same[left.tick()][i].id < order.id);
            }
        }
        lemma_add_keeps_sound(own_swept, left, bound);
    }
}

/// A cancellation keeps the invariant of the engine.
pub proof fn lemma_cancel_wf(
    engine: EngineView,
    option: OptionType,
    order_type: OrderType,
    price: Price,
    order_id: u64,
)
    requires
        engine.wf(),
    ensures
        engine.cancel(option, order_type, price, order_id).wf(),
{
    let book = engine.book(option);
    let tick = price_to_tick(price);
    let before = book.side(order_type);
    let after = cancel_from(before, tick, order_id);
    lemma_cancel_from_wf(before, book.option, order_type, tick, order_id);
    lemma_cancel_from_keeps(before, tick, order_id, engine.next_order_id);
}

/// What a caller hands in with a submission.
pub struct Submission {
    pub user_id: u32,
    pub option: OptionType,
    pub order_type: OrderType,
    pub price: Price,
    pub quantity: u32,
    pub timestamp: u64,
}

impl EngineView {
    /// What a submission leads to.
    pub open spec fn submit(self, submission: Submission) -> Placement {
        self.place(
            submission.user_id,
            submission.option,
            submission.order_type,
            submission.price,
            submission.quantity,
            submission.timestamp,
        )
    }
}

/// Every submission keeps the invariant of the engine: afterwards no book is
/// crossed and no level is empty. An admitted submission conserves quantity:
/// what was traded and what came to rest add up to what was asked for.
pub proof fn lemma_submit_keeps_invariant(engine: EngineView, submission: Submission)
    requires
        engine.wf(),
        engine.next_order_id < u64::MAX,
    ensures
        engine.submit(submission).engine.wf(),
        admits(submission.price, submission.quantity) ==> total_quantity(
            engine.submit(submission).trades,
        ) + engine.submit(submission).order.quantity == submission.quantity,
{
    if admits(submission.price, submission.quantity) {
        let order = Order {
            id: engine.next_order_id,
            user_id: submission.user_id,
            option: submission.option,
            order_type: submission.order_type,
            price: submission.price,
            quantity: submission.quantity,
            timestamp: submission.timestamp,
        };
        lemma_matched(engine.counted(), order);
    }
}

/// Monotonic ids: of two submissions in a row the second gets the id that
/// follows the id of the first, whether either is admitted or not.
pub proof fn lemma_successive_ids(engine: EngineView, first: Submission, second: Submission)
    requires
        engine.next_order_id < u64::MAX,
    ensures
        engine.submit(first).order.id == engine.next_order_id,
        engine.submit(first).engine.submit(second).order.id == engine.submit(first).order.id + 1,
{
}

/// Cancellation is idempotent: a second cancellation with the same arguments
/// leaves the engine as the first left it.
pub proof fn lemma_cancel_idempotent(
    engine: EngineView,
    option: OptionType,
    order_type: OrderType,
    price: Price,
    order_id: u64,
)
    requires
        engine.wf(),
    ensures
        engine.cancel(option, order_type, price, order_id).cancel(
            option,
            order_type,
            price,
            order_id,
        ) == engine.cancel(option, order_type, price, order_id),
{
    lemma_cancel_twice(engine.book(option), order_type, price_to_tick(price), order_id);
    let once = engine.cancel(option, order_type, price, order_id);
    assert(once.cancel(option, order_type, price, order_id) =~= once);
}

} // verus!
