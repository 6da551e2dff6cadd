//! The mathematical model of matching: how an incoming order sweeps one side
//! of a book, and what is true of every sweep.
//!
//! A sweep serves the head of the best level while the level is within the
//! incoming order's limit and the incoming order has quantity left. Each step
//! fills as much as both orders allow and records one trade.

use vstd::prelude::*;
use crate::ladder::{
    best_tick, ids_below, is_best, is_level, ladder_wf, lemma_best_tick, lemma_pop_from_wf,
    lemma_with_level_wf, level_at, pop_from, push_front, Ladder,
};
use crate::order::{
    lemma_total_quantity_concat, total_quantity, Order, OptionType, OrderType, Trade,
};

verus! {

/// Whether a level at `tick` on the resting side is within `limit`: an ask
/// no higher than it, or a bid no lower.
pub open spec fn spec_crosses(resting_side: OrderType, tick: u64, limit: u64) -> bool {
    match resting_side {
        OrderType::Sell => tick <= limit,
        OrderType::Buy => tick >= limit,
    }
}

/// Whether a level at `tick` on the resting side is within `limit`.
#[verifier::when_used_as_spec(spec_crosses)]
pub fn crosses(resting_side: OrderType, tick: u64, limit: u64) -> (within: bool)
    ensures
        within == spec_crosses(resting_side, tick, limit),
{
    match resting_side {
        OrderType::Sell => tick <= limit,
        OrderType::Buy => tick >= limit,
    }
}

/// The trade between an incoming order and a resting order. The buyer and
/// the seller are told apart by the side of the incoming order. The trade is
/// reported on the incoming order's contract; on the incoming order's own
/// book it executes at the resting order's price, on the other book at the
/// incoming order's price.
pub open spec fn spec_trade_between(
    taker: Order,
    resting: Order,
    own_book: bool,
    quantity: u32,
) -> Trade {
    Trade {
        buy_order_id: if taker.order_type is Buy {
            taker.id
        } else {
            resting.id
        },
        sell_order_id: if taker.order_type is Buy {
            resting.id
        } else {
            taker.id
        },
        option: taker.option,
        price: if own_book {
            resting.price
        } else {
            taker.price
        },
        quantity,
    }
}

/// The trade between an incoming order and a resting order.
#[verifier::when_used_as_spec(spec_trade_between)]
pub fn trade_between(taker: Order, resting: Order, own_book: bool, quantity: u32) -> (trade:
    Trade)
    ensures
        trade == spec_trade_between(taker, resting, own_book, quantity),
{
    let (buy_order_id, sell_order_id) = match taker.order_type {
        OrderType::Buy => (taker.id, resting.id),
        OrderType::Sell => (resting.id, taker.id),
    };
    let price = if own_book {
        resting.price
    } else {
        taker.price
    };
    Trade { buy_order_id, sell_order_id, option: taker.option, price, quantity }
}

/// The ladder after `fill` units of the head of the level at `tick` have
/// been filled: the head stays in place with what is left of it, or leaves
/// when nothing is left.
pub open spec fn fill_head(ladder: Ladder, tick: u64, fill: u32) -> Ladder {
    let head = ladder[tick][0];
    if head.quantity > fill {
        ladder.insert(
            tick,
            ladder[tick].update(0, head.with_quantity((head.quantity - fill) as u32)),
        )
    } else {
        pop_from(ladder, tick)
    }
}

/// The next step of a sweep: the tick whose head is served and the quantity
/// filled, or `None` when the sweep is over. A sweep is over when the
/// incoming quantity is used up, when the resting side is empty, or when its
/// best level is beyond the limit. The quantity filled is the smaller of what
/// the incoming order still asks for and what the head has left. (A best
/// level without a head that has something left, which no well-formed ladder
/// has, ends the sweep as well.)
pub open spec fn next_fill(
    ladder: Ladder,
    resting_side: OrderType,
    limit: u64,
    quantity: u32,
) -> Option<(u64, u32)> {
    if quantity == 0 {
        None
    } else {
        match best_tick(ladder, resting_side) {
            Some(tick) => if crosses(resting_side, tick, limit) && ladder[tick].len() > 0
                && ladder[tick][0].quantity > 0 {
                Some(
                    (
                        tick,
                        if quantity <= ladder[tick][0].quantity {
                            quantity
                        } else {
                            ladder[tick][0].quantity
                        },
                    ),
                )
            } else {
                None
            },
            None => None,
        }
    }
}

/// The outcome of a sweep.
pub struct Sweep {
    /// The resting side after the sweep.
    pub ladder: Ladder,
    /// The trades of the sweep, in the order in which they happened.
    pub trades: Seq<Trade>,
    /// What is left of the incoming quantity.
    pub remaining: u32,
}

/// The sweep of `quantity` units of the incoming order `taker` through the
/// ladder of the resting side, down to `limit`.
pub open spec fn sweep(
    ladder: Ladder,
    resting_side: OrderType,
    limit: u64,
    taker: Order,
    own_book: bool,
    quantity: u32,
) -> Sweep
    decreases quantity,
{
    match next_fill(ladder, resting_side, limit, quantity) {
        None => Sweep { ladder, trades: Seq::empty(), remaining: quantity },
        Some((tick, fill)) => {
            let rest = sweep(
                fill_head(ladder, tick, fill),
                resting_side,
                limit,
                taker,
                own_book,
                (quantity - fill) as u32,
            );
            Sweep {
                ladder: rest.ladder,
                trades: seq![trade_between(taker, ladder[tick][0], own_book, fill)] + rest.trades,
                remaining: rest.remaining,
            }
        },
    }
}

/// Filling the head in place is the same as taking it off and putting what
/// is left of it back in front.
pub proof fn lemma_fill_head_by_pop_and_push(
    ladder: Ladder,
    option: OptionType,
    side: OrderType,
    tick: u64,
    fill: u32,
)
    requires
        ladder_wf(ladder, option, side),
        ladder.contains_key(tick),
        fill < ladder[tick][0].quantity,
    ensures
        fill_head(ladder, tick, fill) == push_front(
            pop_from(ladder, tick),
            ladder[tick][0].with_quantity((ladder[tick][0].quantity - fill) as u32),
        ),
{
    let level = ladder[tick];
    let head = level[0];
    let left = head.with_quantity((head.quantity - fill) as u32);
    assert(is_level(level, option, side, tick));
    assert(left.tick() == tick);
    let popped = pop_from(ladder, tick);
    assert(seq![left] + level_at(popped, tick) =~= level.update(0, left));
    assert(fill_head(ladder, tick, fill) =~= push_front(popped, left));
}

/// One step of a sweep keeps the ladder well formed, adds no tick and no
/// order, and leaves every other level as it was.
pub proof fn lemma_fill_head_keeps(
    ladder: Ladder,
    option: OptionType,
    side: OrderType,
    tick: u64,
    fill: u32,
    bound: u64,
)
    requires
        ladder_wf(ladder, option, side),
        ladder.contains_key(tick),
        0 < fill <= ladder[tick][0].quantity,
    ensures
        ladder_wf(fill_head(ladder, tick, fill), option, side),
        forall|t: u64| fill_head(ladder, tick, fill).contains_key(t) ==> ladder.contains_key(t),
        forall|t: u64|
            t != tick ==> level_at(fill_head(ladder, tick, fill), t) == level_at(ladder, t),
        ids_below(ladder, bound) ==> ids_below(fill_head(ladder, tick, fill), bound),
{
    let level = ladder[tick];
    let head = level[0];
    let after = fill_head(ladder, tick, fill);
    assert(is_level(level, option, side, tick));
    if head.quantity > fill {
        let left = head.with_quantity((head.quantity - fill) as u32);
        let served = level.update(0, left);
        assert(is_level(served, option, side, tick)) by {
            assert forall|i: int, j: int| 0 <= i < j < served.len() implies served[i].id
                < served[j].id by {
                assert(level[i].id < level[j].id);
            }
        }
        lemma_with_level_wf(ladder, option, side, tick, served);
        if ids_below(ladder, bound) {
            assert forall|t: u64, i: int|
                after.contains_key(t) && 0 <= i < after[t].len() implies (
            #[trigger] after[t][i]).id < bound by {
                if t == tick {
                    assert(level[i].id < bound);
                } else {
                    assert(ladder[t][i].id < bound);
                }
            }
        }
    } else {
        lemma_pop_from_wf(ladder, option, side, tick);
        if ids_below(ladder, bound) {
            assert forall|t: u64, i: int|
                after.contains_key(t) && 0 <= i < after[t].len() implies (
            #[trigger] after[t][i]).id < bound by {
                if t == tick {
                    assert(after[t][i] == level[i + 1]);
                    assert(ladder[tick][i + 1].id < bound);
                } else {
                    assert(ladder[t][i].id < bound);
                }
            }
        }
    }
}

/// A sweep that is over with quantity left has left nothing within the limit.
pub proof fn lemma_no_fill_means_exhausted(
    ladder: Ladder,
    option: OptionType,
    resting_side: OrderType,
    limit: u64,
    quantity: u32,
)
    requires
        ladder_wf(ladder, option, resting_side),
        next_fill(ladder, resting_side, limit, quantity) is None,
        quantity > 0,
    ensures
        forall|t: u64| ladder.contains_key(t) ==> !crosses(resting_side, t, limit),
{
    lemma_best_tick(ladder, resting_side);
    match best_tick(ladder, resting_side) {
        None => {},
        Some(best) => {
            assert(is_best(ladder, resting_side, best));
            assert(is_level(ladder[best], option, resting_side, best));
            assert(ladder[best][0].quantity > 0);
            assert(!crosses(resting_side, best, limit));
        },
    }
}

/// What every sweep of a well-formed ladder keeps and achieves: the ladder
/// stays well formed; no tick and no order is added; what is left of the
/// incoming quantity does not exceed what came in; and if anything is left,
/// no level within the limit is.
pub proof fn lemma_sweep_keeps(
    ladder: Ladder,
    option: OptionType,
    resting_side: OrderType,
    limit: u64,
    taker: Order,
    own_book: bool,
    quantity: u32,
    bound: u64,
)
    requires
        ladder_wf(ladder, option, resting_side),
    ensures
        ({
            let swept = sweep(ladder, resting_side, limit, taker, own_book, quantity);
            &&& ladder_wf(swept.ladder, option, resting_side)
            &&& forall|t: u64| swept.ladder.contains_key(t) ==> ladder.contains_key(t)
            &&& ids_below(ladder, bound) ==> ids_below(swept.ladder, bound)
            &&& swept.remaining <= quantity
            &&& swept.remaining > 0 ==> forall|t: u64|
                swept.ladder.contains_key(t) ==> !crosses(resting_side, t, limit)
        }),
    decreases quantity,
{
    match next_fill(ladder, resting_side, limit, quantity) {
        None => {
            if quantity > 0 {
                lemma_no_fill_means_exhausted(ladder, option, resting_side, limit, quantity);
            }
        },
        Some((tick, fill)) => {
            lemma_best_tick(ladder, resting_side);
            lemma_fill_head_keeps(ladder, option, resting_side, tick, fill, bound);
            lemma_sweep_keeps(
                fill_head(ladder, tick, fill),
                option,
                resting_side,
                limit,
                taker,
                own_book,
                (quantity - fill) as u32,
                bound,
            );
        },
    }
}

/// Quantity is conserved: what a sweep trades and what it leaves add up to
/// what came in.
pub proof fn lemma_sweep_conserves(
    ladder: Ladder,
    resting_side: OrderType,
    limit: u64,
    taker: Order,
    own_book: bool,
    quantity: u32,
)
    ensures
        ({
            let swept = sweep(ladder, resting_side, limit, taker, own_book, quantity);
            total_quantity(swept.trades) + swept.remaining == quantity
        }),
    decreases quantity,
{
    match next_fill(ladder, resting_side, limit, quantity) {
        None => {},
        Some((tick, fill)) => {
            let rest = sweep(
                fill_head(ladder, tick, fill),
                resting_side,
                limit,
                taker,
                own_book,
                (quantity - fill) as u32,
            );
            lemma_sweep_conserves(
                fill_head(ladder, tick, fill),
                resting_side,
                limit,
                taker,
                own_book,
                (quantity - fill) as u32,
            );
            let first = seq![trade_between(taker, ladder[tick][0], own_book, fill)];
            lemma_total_quantity_concat(first, rest.trades);
            assert(total_quantity(first) == fill) by {
                assert(first.drop_last() =~= Seq::<Trade>::empty());
                reveal_with_fuel(total_quantity, 2);
            }
        },
    }
}

/// Whether `after` is what is left of the queue `before` once it has been
/// served from the head: the first `gone` orders have left, the order behind
/// them has at most lost quantity, and every order further back is exactly
/// as it was.
pub open spec fn served_from_head(before: Seq<Order>, after: Seq<Order>, gone: int) -> bool {
    &&& 0 <= gone <= before.len()
    &&& after.len() == before.len() - gone
    &&& forall|i: int| 1 <= i < after.len() ==> after[i] == before[gone + i]
    &&& after.len() > 0 ==> {
        &&& after[0] == before[gone].with_quantity(after[0].quantity)
        &&& 0 < after[0].quantity <= before[gone].quantity
    }
}

/// Whether an order with `id` is in the queue.
pub open spec fn rests(orders: Seq<Order>, id: u64) -> bool {
    exists|i: int| 0 <= i < orders.len() && (#[trigger] orders[i]).id == id
}

/// Whether `order` is in the queue exactly as given.
pub open spec fn rests_untouched(orders: Seq<Order>, order: Order) -> bool {
    exists|i: int| 0 <= i < orders.len() && #[trigger] orders[i] == order
}

/// Whether a tick is strictly better than another on the resting side: a
/// lower ask, or a higher bid.
pub open spec fn better(resting_side: OrderType, tick: u64, than: u64) -> bool {
    match resting_side {
        OrderType::Sell => tick < than,
        OrderType::Buy => tick > than,
    }
}

/// A sweep serves every level from its head.
pub proof fn lemma_sweep_serves_heads(
    ladder: Ladder,
    option: OptionType,
    resting_side: OrderType,
    limit: u64,
    taker: Order,
    own_book: bool,
    quantity: u32,
    tick: u64,
)
    requires
        ladder_wf(ladder, option, resting_side),
        ladder.contains_key(tick),
    ensures
        exists|gone: int|
            served_from_head(
                ladder[tick],
                level_at(
                    sweep(ladder, resting_side, limit, taker, own_book, quantity).ladder,
                    tick,
                ),
                gone,
            ),
    decreases quantity,
{
    let before = ladder[tick];
    let swept = sweep(ladder, resting_side, limit, taker, own_book, quantity);
    let after = level_at(swept.ladder, tick);
    assert(is_level(before, option, resting_side, tick));
    match next_fill(ladder, resting_side, limit, quantity) {
        None => {
            assert(served_from_head(before, after, 0));
        },
        Some((first, fill)) => {
            lemma_best_tick(ladder, resting_side);
            let next = fill_head(ladder, first, fill);
            let left = (quantity - fill) as u32;
            lemma_fill_head_keeps(ladder, option, resting_side, first, fill, 0);
            lemma_sweep_keeps(next, option, resting_side, limit, taker, own_book, left, 0);
            if next.contains_key(tick) {
                lemma_sweep_serves_heads(
                    next,
                    option,
                    resting_side,
                    limit,
                    taker,
                    own_book,
                    left,
                    tick,
                );
                let between = next[tick];
                let gone = choose|gone: int| served_from_head(between, after, gone);
                if tick != first {
                    assert(between == level_at(ladder, tick));
                    assert(served_from_head(before, after, gone));
                } else if before[0].quantity > fill {
                    assert(served_from_head(before, after, gone));
                } else {
                    assert(between == before.drop_first());
                    assert(served_from_head(before, after, gone + 1));
                }
            } else {
                assert(tick == first);
                assert(!swept.ladder.contains_key(tick));
                assert(served_from_head(before, after, before.len() as int));
            }
        },
    }
}

/// Time priority: of two orders at the same tick of the resting side, the
/// later one is not touched while anything of the earlier one rests.
pub proof fn lemma_sweep_time_priority(
    ladder: Ladder,
    option: OptionType,
    resting_side: OrderType,
    limit: u64,
    taker: Order,
    own_book: bool,
    quantity: u32,
    tick: u64,
    earlier: int,
    later: int,
)
    requires
        ladder_wf(ladder, option, resting_side),
        ladder.contains_key(tick),
        0 <= earlier < later < ladder[tick].len(),
    ensures
        ({
            let after = level_at(
                sweep(ladder, resting_side, limit, taker, own_book, quantity).ladder,
                tick,
            );
            rests(after, ladder[tick][earlier].id) ==> rests_untouched(after, ladder[tick][later])
        }),
{
    let before = ladder[tick];
    let after = level_at(
        sweep(ladder, resting_side, limit, taker, own_book, quantity).ladder,
        tick,
    );
    lemma_sweep_serves_heads(
        ladder,
        option,
        resting_side,
        limit,
        taker,
        own_book,
        quantity,
        tick,
    );
    let gone = choose|gone: int| served_from_head(before, after, gone);
    assert(is_level(before, option, resting_side, tick));
    if rests(after, before[earlier].id) {
        let at = choose|i: int| 0 <= i < after.len() && (#[trigger] after[i]).id
            == before[earlier].id;
        assert(after[at].id == before[gone + at].id);
        if gone + at < earlier {
            assert(before[gone + at].id < before[earlier].id);
        } else if gone + at > earlier {
            assert(before[earlier].id < before[gone + at].id);
        }
        assert(after[later - gone] == before[later]);
    }
}

/// Price priority: a level of the resting side is not touched while a
/// strictly better level has anything left.
pub proof fn lemma_sweep_price_priority(
    ladder: Ladder,
    option: OptionType,
    resting_side: OrderType,
    limit: u64,
    taker: Order,
    own_book: bool,
    quantity: u32,
    good: u64,
    worse: u64,
)
    requires
        ladder_wf(ladder, option, resting_side),
        ladder.contains_key(good),
        ladder.contains_key(worse),
        better(resting_side, good, worse),
    ensures
        ({
            let swept = sweep(ladder, resting_side, limit, taker, own_book, quantity);
            swept.ladder.contains_key(good) ==> level_at(swept.ladder, worse) == ladder[worse]
        }),
    decreases quantity,
{
    let swept = sweep(ladder, resting_side, limit, taker, own_book, quantity);
    match next_fill(ladder, resting_side, limit, quantity) {
        None => {},
        Some((first, fill)) => {
            lemma_best_tick(ladder, resting_side);
            assert(is_best(ladder, resting_side, first));
            assert(worse != first);
            let next = fill_head(ladder, first, fill);
            let left = (quantity - fill) as u32;
            lemma_fill_head_keeps(ladder, option, resting_side, first, fill, 0);
            lemma_sweep_keeps(next, option, resting_side, limit, taker, own_book, left, 0);
            assert(level_at(next, worse) == level_at(ladder, worse));
            assert(next.contains_key(worse)) by {
                assert(is_level(ladder[worse], option, resting_side, worse));
                if !next.contains_key(worse) {
                    assert(level_at(next, worse).len() == 0);
                }
            }
            if next.contains_key(good) {
                if good == first && ladder[first][0].quantity > fill {
                    assert(left == 0);
                } else {
                    lemma_sweep_price_priority(
                        next,
                        option,
                        resting_side,
                        limit,
                        taker,
                        own_book,
                        left,
                        good,
                        worse,
                    );
                }
            }
        },
    }
}

} // verus!
