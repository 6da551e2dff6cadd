//! The order book of one contract: a ladder of bids and a ladder of asks.

use std::collections::BTreeMap;
use vstd::prelude::*;
use crate::ladder::{
    add_to, best_tick, cancel_from, depth, ids_below, is_best, is_level, ladder_wf,
    lemma_add_to_wf, lemma_best_tick, lemma_best_tick_is, lemma_cancel_from_twice,
    lemma_cancel_from_wf, lemma_pop_from_wf, lemma_push_front_wf, level_at, may_join, may_lead,
    pop_from, push_front, uncrossed, Ladder,
};
use crate::level::{aggregate, PriceLevel};
use crate::matching::spec_crosses;
use crate::order::{Order, OptionType, OrderType};
use crate::price::{price_to_tick, Price};
use crate::tree::{greatest_key, least_key};

verus! {

/// What an [`OrderBook`] holds, as mathematics.
#[verifier::ext_equal]
pub struct BookView {
    pub option: OptionType,
    pub bids: Ladder,
    pub asks: Ladder,
}

impl BookView {
    /// The book of `option` in which nothing rests.
    pub open spec fn empty(option: OptionType) -> BookView {
        BookView { option, bids: Map::empty(), asks: Map::empty() }
    }

    /// The ladder of one side: the bids for `Buy`, the asks for `Sell`.
    pub open spec fn side(self, order_type: OrderType) -> Ladder {
        match order_type {
            OrderType::Buy => self.bids,
            OrderType::Sell => self.asks,
        }
    }

    /// The book with the ladder of one side replaced.
    pub open spec fn with_side(self, order_type: OrderType, ladder: Ladder) -> BookView {
        match order_type {
            OrderType::Buy => BookView { bids: ladder, ..self },
            OrderType::Sell => BookView { asks: ladder, ..self },
        }
    }

    /// Whether no level is empty and every resting order sits where it
    /// belongs: on the book of its contract, on its side, at its tick, with
    /// something left to fill, behind the orders that came before it.
    pub open spec fn wf(self) -> bool {
        &&& ladder_wf(self.bids, self.option, OrderType::Buy)
        &&& ladder_wf(self.asks, self.option, OrderType::Sell)
    }

    /// Whether every bid is below every ask.
    pub open spec fn is_uncrossed(self) -> bool {
        uncrossed(self.bids, self.asks)
    }

    /// Whether every resting order has an id below `bound`.
    pub open spec fn ids_below(self, bound: u64) -> bool {
        &&& ids_below(self.bids, bound)
        &&& ids_below(self.asks, bound)
    }

    /// The highest tick with a resting bid.
    pub open spec fn best_bid_tick(self) -> Option<u64> {
        best_tick(self.bids, OrderType::Buy)
    }

    /// The lowest tick with a resting ask.
    pub open spec fn best_ask_tick(self) -> Option<u64> {
        best_tick(self.asks, OrderType::Sell)
    }

    /// Whether `order` may rest at the tail of its level.
    pub open spec fn accepts(self, order: Order) -> bool {
        may_join(self.side(order.order_type), self.option, order.order_type, order)
    }

    /// Whether `order` may be put back at the head of its level.
    pub open spec fn accepts_at_head(self, order: Order) -> bool {
        may_lead(self.side(order.order_type), self.option, order.order_type, order)
    }

    /// The book after `order` has come to rest at the tail of its level.
    pub open spec fn add(self, order: Order) -> BookView {
        self.with_side(order.order_type, add_to(self.side(order.order_type), order))
    }

    /// The book after the order `id` has been taken from the level at `tick`
    /// on one side. The same book when no such order rests there.
    pub open spec fn cancel(self, order_type: OrderType, tick: u64, id: u64) -> BookView {
        self.with_side(order_type, cancel_from(self.side(order_type), tick, id))
    }

    /// The book after the head of the level at `tick` on one side has left.
    pub open spec fn pop(self, order_type: OrderType, tick: u64) -> BookView {
        self.with_side(order_type, pop_from(self.side(order_type), tick))
    }

    /// The book after `order` has been put at the head of its level.
    pub open spec fn push_head(self, order: Order) -> BookView {
        self.with_side(order.order_type, push_front(self.side(order.order_type), order))
    }
}

/// Replacing one side of a sound book by a well-formed ladder that has no
/// tick and no order of its own keeps the book sound.
pub proof fn lemma_with_thinned_side(
    book: BookView,
    order_type: OrderType,
    ladder: Ladder,
    bound: u64,
)
    requires
        book.wf(),
        book.is_uncrossed(),
        book.ids_below(bound),
        ladder_wf(ladder, book.option, order_type),
        forall|tick: u64| ladder.contains_key(tick) ==> book.side(order_type).contains_key(tick),
        ids_below(ladder, bound),
    ensures
        book.with_side(order_type, ladder).wf(),
        book.with_side(order_type, ladder).is_uncrossed(),
        book.with_side(order_type, ladder).ids_below(bound),
        book.with_side(order_type, ladder).option == book.option,
{
    let after = book.with_side(order_type, ladder);
    match order_type {
        OrderType::Buy => {
            assert forall|bid: u64, ask: u64|
                #[trigger] after.bids.contains_key(bid) && #[trigger] after.asks.contains_key(
                    ask,
                ) implies bid < ask by {
                assert(book.bids.contains_key(bid));
            }
        },
        OrderType::Sell => {
            assert forall|bid: u64, ask: u64|
                #[trigger] after.bids.contains_key(bid) && #[trigger] after.asks.contains_key(
                    ask,
                ) implies bid < ask by {
                assert(book.asks.contains_key(ask));
            }
        },
    }
}

/// An order that comes to rest where the opposite side has nothing within
/// its tick keeps a sound book sound.
pub proof fn lemma_add_keeps_sound(book: BookView, order: Order, bound: u64)
    requires
        book.wf(),
        book.is_uncrossed(),
        book.ids_below(bound),
        book.accepts(order),
        order.id < bound,
        forall|tick: u64|
            book.side(order.order_type.opposite()).contains_key(tick) ==> !spec_crosses(
                order.order_type.opposite(),
                tick,
                order.tick(),
            ),
    ensures
        book.add(order).wf(),
        book.add(order).is_uncrossed(),
        book.add(order).ids_below(bound),
        book.add(order).option == book.option,
{
    let before = book.side(order.order_type);
    let after = add_to(before, order);
    lemma_add_to_wf(before, book.option, order.order_type, order);
    assert(ids_below(after, bound)) by {
        assert forall|t: u64, i: int| after.contains_key(t) && 0 <= i < after[t].len() implies (
        #[trigger] after[t][i]).id < bound by {
            if t == order.tick() {
                if i < level_at(before, t).len() {
                    assert(before[t][i].id < bound);
                }
            } else {
                assert(before[t][i].id < bound);
            }
        }
    }
    let rested = book.add(order);
    match order.order_type {
        OrderType::Buy => {
            assert forall|bid: u64, ask: u64|
                #[trigger] rested.bids.contains_key(bid) && #[trigger] rested.asks.contains_key(
                    ask,
                ) implies bid < ask by {
                if bid == order.tick() {
                    assert(!spec_crosses(OrderType::Sell, ask, order.tick()));
                } else {
                    assert(book.bids.contains_key(bid));
                }
            }
        },
        OrderType::Sell => {
            assert forall|bid: u64, ask: u64|
                #[trigger] rested.bids.contains_key(bid) && #[trigger] rested.asks.contains_key(
                    ask,
                ) implies bid < ask by {
                if ask == order.tick() {
                    assert(!spec_crosses(OrderType::Buy, bid, order.tick()));
                } else {
                    assert(book.asks.contains_key(ask));
                }
            }
        },
    }
}

/// No crossed book: where every bid is below every ask, the best bid, if
/// there is one, is below the best ask, if there is one.
pub proof fn lemma_best_bid_below_best_ask(book: BookView)
    requires
        book.is_uncrossed(),
    ensures
        book.best_bid_tick() matches Some(bid) ==> (book.best_ask_tick() matches Some(ask)
            ==> bid < ask),
{
    lemma_best_tick(book.bids, OrderType::Buy);
    lemma_best_tick(book.asks, OrderType::Sell);
}

/// No empty levels: every level of a well-formed book holds an order.
pub proof fn lemma_no_empty_level(book: BookView, order_type: OrderType, tick: u64)
    requires
        book.wf(),
        book.side(order_type).contains_key(tick),
    ensures
        book.side(order_type)[tick].len() >= 1,
{
    assert(is_level(book.side(order_type)[tick], book.option, order_type, tick));
}

/// Cancelling the same order on a book a second time changes nothing.
pub proof fn lemma_cancel_twice(book: BookView, order_type: OrderType, tick: u64, id: u64)
    requires
        book.wf(),
    ensures
        book.cancel(order_type, tick, id).cancel(order_type, tick, id) == book.cancel(
            order_type,
            tick,
            id,
        ),
{
    lemma_cancel_from_twice(book.side(order_type), book.option, order_type, tick, id);
}

/// The book of one contract.
#[derive(Debug)]
pub struct OrderBook {
    option: OptionType,
    bids: BTreeMap<u64, PriceLevel>,
    asks: BTreeMap<u64, PriceLevel>,
}

/// The ladder that a map of levels stands for.
pub open spec fn ladder_of(levels: Map<u64, PriceLevel>) -> Ladder {
    Map::new(|tick: u64| levels.contains_key(tick), |tick: u64| levels[tick]@)
}

impl View for OrderBook {
    type V = BookView;

    closed spec fn view(&self) -> BookView {
        BookView {
            option: self.option,
            bids: ladder_of(self.bids@),
            asks: ladder_of(self.asks@),
        }
    }
}

/// Appends `order` to the level at its tick, making the level if need be.
fn enqueue_at(levels: &mut BTreeMap<u64, PriceLevel>, order: Order)
    ensures
        ladder_of(final(levels)@) == add_to(ladder_of(old(levels)@), order),
{
    let tick: u64 = order.tick();
    let mut level = match levels.remove(&tick) {
        Some(level) => level,
        None => PriceLevel::new(),
    };
    level.enqueue(order);
    levels.insert(tick, level);
    assert(ladder_of(levels@) =~= add_to(ladder_of(old(levels)@), order));
}

/// Takes the order `id` out of the level at `tick` and drops the level if
/// that empties it.
fn cancel_at(levels: &mut BTreeMap<u64, PriceLevel>, tick: u64, id: u64)
    ensures
        ladder_of(final(levels)@) == cancel_from(ladder_of(old(levels)@), tick, id),
{
    match levels.remove(&tick) {
        None => {},
        Some(level) => {
            let mut level = level;
            level.remove_by_id(id);
            if !level.is_empty() {
                levels.insert(tick, level);
            }
        },
    }
    assert(ladder_of(levels@) =~= cancel_from(ladder_of(old(levels)@), tick, id));
}

/// Takes the head of the level at `tick` and drops the level if that empties
/// it.
fn pop_at(levels: &mut BTreeMap<u64, PriceLevel>, tick: u64) -> (head: Option<Order>)
    ensures
        ladder_of(final(levels)@) == pop_from(ladder_of(old(levels)@), tick),
        head == (if level_at(ladder_of(old(levels)@), tick).len() > 0 {
            Some(level_at(ladder_of(old(levels)@), tick)[0])
        } else {
            None
        }),
{
    let head = match levels.remove(&tick) {
        None => None,
        Some(level) => {
            let mut level = level;
            let head = level.pop_head();
            if !level.is_empty() {
                levels.insert(tick, level);
            }
            head
        },
    };
    assert(ladder_of(levels@) =~= pop_from(ladder_of(old(levels)@), tick));
    head
}

/// Puts `order` in front of the level at its tick, making the level if need
/// be.
fn push_front_at(levels: &mut BTreeMap<u64, PriceLevel>, order: Order)
    ensures
        ladder_of(final(levels)@) == push_front(ladder_of(old(levels)@), order),
{
    let tick: u64 = order.tick();
    let mut level = match levels.remove(&tick) {
        Some(level) => level,
        None => PriceLevel::new(),
    };
    level.push_head(order);
    levels.insert(tick, level);
    assert(ladder_of(levels@) =~= push_front(ladder_of(old(levels)@), order));
}

/// Sums up every level.
fn depth_of(levels: &BTreeMap<u64, PriceLevel>) -> (totals: BTreeMap<u64, u128>)
    ensures
        totals@ == depth(ladder_of(levels@)),
{
    let mut totals: BTreeMap<u64, u128> = BTreeMap::new();
    for entry in it: levels.iter()
        invariant
            forall|tick: u64| #[trigger]
                totals@.contains_key(tick) ==> levels@.contains_key(tick) && totals@[tick]
                    == aggregate(levels@[tick]@),
            forall|i: int| 0 <= i < it.index() ==> totals@.contains_key(*(#[trigger] it.seq()[i]).0),
    {
        let (tick, level) = entry;
        let total: u128 = level.aggregate_quantity();
        totals.insert(*tick, total);
    }
    assert(totals@ =~= depth(ladder_of(levels@)));
    totals
}

impl OrderBook {
    /// The empty book of a contract.
    pub fn new(option: OptionType) -> (book: OrderBook)
        ensures
            book@ == BookView::empty(option),
            book@.wf(),
            book@.is_uncrossed(),
    {
        let book = OrderBook { option, bids: BTreeMap::new(), asks: BTreeMap::new() };
        assert(book@ =~= BookView::empty(option));
        book
    }

    /// The contract whose orders the book holds.
    pub fn option(&self) -> (option: OptionType)
        ensures
            option == self@.option,
    {
        self.option
    }

    /// Rests `order` at the tail of the level of its side and tick, which
    /// comes into being if nothing rested there.
    pub fn add_order(&mut self, order: Order)
        requires
            old(self)@.wf(),
            old(self)@.accepts(order),
        ensures
            final(self)@ == old(self)@.add(order),
            final(self)@.wf(),
    {
        proof {
            lemma_add_to_wf(
                self@.side(order.order_type),
                self@.option,
                order.order_type,
                order,
            );
        }
        match order.order_type {
            OrderType::Buy => enqueue_at(&mut self.bids, order),
            OrderType::Sell => enqueue_at(&mut self.asks, order),
        }
    }

    /// Cancels the order `order_id` resting on one side at the tick of
    /// `price`. The level goes when its last order goes. Nothing happens when
    /// no such order rests there.
    pub fn remove_order(&mut self, order_type: OrderType, price: Price, order_id: u64)
        requires
            old(self)@.wf(),
        ensures
            final(self)@ == old(self)@.cancel(order_type, price_to_tick(price), order_id),
            final(self)@.wf(),
            old(self)@.is_uncrossed() ==> final(self)@.is_uncrossed(),
    {
        let tick: u64 = price_to_tick(price);
        proof {
            lemma_cancel_from_wf(
                self@.side(order_type),
                self@.option,
                order_type,
                tick,
                order_id,
            );
        }
        match order_type {
            OrderType::Buy => cancel_at(&mut self.bids, tick, order_id),
            OrderType::Sell => cancel_at(&mut self.asks, tick, order_id),
        }
    }

    /// The best tick of one side: the highest bid or the lowest ask.
    pub fn best_tick(&self, order_type: OrderType) -> (tick: Option<u64>)
        ensures
            tick == best_tick(self@.side(order_type), order_type),
            tick matches Some(best) ==> is_best(self@.side(order_type), order_type, best),
            tick is None ==> forall|any: u64| !self@.side(order_type).contains_key(any),
    {
        let tick = match order_type {
            OrderType::Buy => greatest_key(&self.bids),
            OrderType::Sell => least_key(&self.asks),
        };
        proof {
            lemma_best_tick(self@.side(order_type), order_type);
            if let Some(best) = tick {
                assert(is_best(self@.side(order_type), order_type, best));
                lemma_best_tick_is(self@.side(order_type), order_type, best);
            }
        }
        tick
    }

    /// The highest tick at which a bid rests.
    pub fn best_bid_tick(&self) -> (tick: Option<u64>)
        ensures
            tick == self@.best_bid_tick(),
            tick matches Some(best) ==> is_best(self@.bids, OrderType::Buy, best),
            tick is None ==> forall|any: u64| !self@.bids.contains_key(any),
    {
        self.best_tick(OrderType::Buy)
    }

    /// The lowest tick at which an ask rests.
    pub fn best_ask_tick(&self) -> (tick: Option<u64>)
        ensures
            tick == self@.best_ask_tick(),
            tick matches Some(best) ==> is_best(self@.asks, OrderType::Sell, best),
            tick is None ==> forall|any: u64| !self@.asks.contains_key(any),
    {
        self.best_tick(OrderType::Sell)
    }

    /// Takes the order at the head of the level at `tick` on one side. The
    /// level goes when its last order goes.
    pub fn pop_head(&mut self, order_type: OrderType, tick: u64) -> (head: Option<Order>)
        requires
            old(self)@.wf(),
        ensures
            final(self)@ == old(self)@.pop(order_type, tick),
            final(self)@.wf(),
            head == (if old(self)@.side(order_type).contains_key(tick) {
                Some(old(self)@.side(order_type)[tick][0])
            } else {
                None
            }),
    {
        proof {
            lemma_pop_from_wf(self@.side(order_type), self@.option, order_type, tick);
            if self@.side(order_type).contains_key(tick) {
                assert(is_level(self@.side(order_type)[tick], self@.option, order_type, tick));
            }
        }
        match order_type {
            OrderType::Buy => pop_at(&mut self.bids, tick),
            OrderType::Sell => pop_at(&mut self.asks, tick),
        }
    }

    /// Puts the unfilled rest of an order back at the head of its level.
    pub fn push_head(&mut self, order: Order)
        requires
            old(self)@.wf(),
            old(self)@.accepts_at_head(order),
        ensures
            final(self)@ == old(self)@.push_head(order),
            final(self)@.wf(),
    {
        proof {
            lemma_push_front_wf(
                self@.side(order.order_type),
                self@.option,
                order.order_type,
                order,
            );
        }
        match order.order_type {
            OrderType::Buy => push_front_at(&mut self.bids, order),
            OrderType::Sell => push_front_at(&mut self.asks, order),
        }
    }

    /// The total resting quantity at each occupied tick of one side.
    pub fn snapshot(&self, order_type: OrderType) -> (totals: BTreeMap<u64, u128>)
        ensures
            totals@ == depth(self@.side(order_type)),
    {
        match order_type {
            OrderType::Buy => depth_of(&self.bids),
            OrderType::Sell => depth_of(&self.asks),
        }
    }
}

} // verus!
