//! The mathematical model of one side of a book.
//!
//! A *ladder* maps each tick that holds resting orders to the queue of those
//! orders, oldest first. A tick without orders is not a key of the ladder.

use vstd::prelude::*;
use crate::level::{aggregate, is_first_with_id, lemma_without_id_twice, without_id};
use crate::order::{Order, OptionType, OrderType};
use crate::tree::{
    is_greatest_key, is_least_key, lemma_greatest_key_exists, lemma_least_key_exists,
};

verus! {

/// One side of a book: the queue of resting orders at each occupied tick.
pub type Ladder = Map<u64, Seq<Order>>;

/// The queue at `tick`; empty when nothing rests there.
pub open spec fn level_at(ladder: Ladder, tick: u64) -> Seq<Order> {
    if ladder.contains_key(tick) {
        ladder[tick]
    } else {
        Seq::empty()
    }
}

/// The ladder with the queue at `tick` replaced by `level`. An empty queue
/// takes the tick out of the ladder.
pub open spec fn with_level(ladder: Ladder, tick: u64, level: Seq<Order>) -> Ladder {
    if level.len() == 0 {
        ladder.remove(tick)
    } else {
        ladder.insert(tick, level)
    }
}

/// Whether `orders` is a proper queue for the given contract, side and tick:
/// it is not empty, every order belongs there and has something left to fill,
/// and the orders stand in the order in which their ids were handed out.
pub open spec fn is_level(
    orders: Seq<Order>,
    option: OptionType,
    side: OrderType,
    tick: u64,
) -> bool {
    &&& orders.len() > 0
    &&& forall|i: int|
        0 <= i < orders.len() ==> {
            let order = #[trigger] orders[i];
            &&& order.option == option
            &&& order.order_type == side
            &&& order.tick() == tick
            &&& order.quantity > 0
        }
    &&& forall|i: int, j: int| 0 <= i < j < orders.len() ==> orders[i].id < orders[j].id
}

/// Whether every queue of the ladder is a proper queue for its tick.
pub open spec fn ladder_wf(ladder: Ladder, option: OptionType, side: OrderType) -> bool {
    forall|tick: u64| #[trigger]
        ladder.contains_key(tick) ==> is_level(ladder[tick], option, side, tick)
}

/// Whether every order of the ladder has an id below `bound`.
pub open spec fn ids_below(ladder: Ladder, bound: u64) -> bool {
    forall|tick: u64, i: int|
        ladder.contains_key(tick) && 0 <= i < ladder[tick].len() ==> (
        #[trigger] ladder[tick][i]).id < bound
}

/// Whether no bid meets or exceeds an ask.
pub open spec fn uncrossed(bids: Ladder, asks: Ladder) -> bool {
    forall|bid: u64, ask: u64|
        #[trigger] bids.contains_key(bid) && #[trigger] asks.contains_key(ask) ==> bid < ask
}

/// Whether `tick` is the best tick of a ladder of the given side: the
/// highest for bids, the lowest for asks.
pub open spec fn is_best(ladder: Ladder, side: OrderType, tick: u64) -> bool {
    match side {
        OrderType::Buy => is_greatest_key(ladder, tick),
        OrderType::Sell => is_least_key(ladder, tick),
    }
}

/// The best tick of a ladder of the given side, if the ladder has a tick.
pub open spec fn best_tick(ladder: Ladder, side: OrderType) -> Option<u64> {
    if exists|tick: u64| is_best(ladder, side, tick) {
        Some(choose|tick: u64| is_best(ladder, side, tick))
    } else {
        None
    }
}

/// The ladder after `order` has joined the tail of the queue at its tick.
pub open spec fn add_to(ladder: Ladder, order: Order) -> Ladder {
    ladder.insert(order.tick(), level_at(ladder, order.tick()).push(order))
}

/// The ladder after the first order with `id` has left the queue at `tick`.
pub open spec fn cancel_from(ladder: Ladder, tick: u64, id: u64) -> Ladder {
    if ladder.contains_key(tick) {
        with_level(ladder, tick, without_id(ladder[tick], id))
    } else {
        ladder
    }
}

/// The ladder after the head of the queue at `tick` has left.
pub open spec fn pop_from(ladder: Ladder, tick: u64) -> Ladder {
    if level_at(ladder, tick).len() > 1 {
        ladder.insert(tick, ladder[tick].drop_first())
    } else {
        ladder.remove(tick)
    }
}

/// The ladder after `order` has been put in front of the queue at its tick.
pub open spec fn push_front(ladder: Ladder, order: Order) -> Ladder {
    ladder.insert(order.tick(), seq![order] + level_at(ladder, order.tick()))
}

/// The total unfilled quantity at each occupied tick.
pub open spec fn depth(ladder: Ladder) -> Map<u64, u128> {
    Map::new(|tick: u64| ladder.contains_key(tick), |tick: u64| aggregate(ladder[tick]) as u128)
}

/// Whether `order` may join the tail of its queue in a ladder of the given
/// contract and side: it belongs there, has something to fill, and is newer
/// than everything already queued at its tick.
pub open spec fn may_join(ladder: Ladder, option: OptionType, side: OrderType, order: Order) -> bool {
    &&& order.option == option
    &&& order.order_type == side
    &&& order.quantity > 0
    &&& forall|i: int|
        0 <= i < level_at(ladder, order.tick()).len() ==> (#[trigger] level_at(
            ladder,
            order.tick(),
        )[i]).id < order.id
}

/// Whether `order` may be put in front of its queue in a ladder of the given
/// contract and side: it belongs there, has something to fill, and is older
/// than everything queued at its tick.
pub open spec fn may_lead(ladder: Ladder, option: OptionType, side: OrderType, order: Order) -> bool {
    &&& order.option == option
    &&& order.order_type == side
    &&& order.quantity > 0
    &&& forall|i: int|
        0 <= i < level_at(ladder, order.tick()).len() ==> order.id < (#[trigger] level_at(
            ladder,
            order.tick(),
        )[i]).id
}

/// A ladder has at most one best tick.
pub proof fn lemma_best_is_unique(ladder: Ladder, side: OrderType, first: u64, second: u64)
    requires
        is_best(ladder, side, first),
        is_best(ladder, side, second),
    ensures
        first == second,
{
}

/// A tick that is best is the best tick.
pub proof fn lemma_best_tick_is(ladder: Ladder, side: OrderType, tick: u64)
    requires
        is_best(ladder, side, tick),
    ensures
        best_tick(ladder, side) == Some(tick),
{
    let chosen = choose|tick: u64| is_best(ladder, side, tick);
    lemma_best_is_unique(ladder, side, tick, chosen);
}

/// A ladder has a best tick exactly when it has a tick, and its best tick is
/// one of its ticks that no other tick beats.
pub proof fn lemma_best_tick(ladder: Ladder, side: OrderType)
    ensures
        best_tick(ladder, side) is None <==> forall|tick: u64| !ladder.contains_key(tick),
        best_tick(ladder, side) matches Some(best) ==> is_best(ladder, side, best),
{
    if exists|tick: u64| ladder.contains_key(tick) {
        let tick = choose|tick: u64| ladder.contains_key(tick);
        match side {
            OrderType::Buy => {
                lemma_greatest_key_exists(ladder, tick);
                let best = choose|best: u64| is_greatest_key(ladder, best);
                assert(is_best(ladder, side, best));
            },
            OrderType::Sell => {
                lemma_least_key_exists(ladder, tick);
                let best = choose|best: u64| is_least_key(ladder, best);
                assert(is_best(ladder, side, best));
            },
        }
    }
}

/// Joining the tail keeps a ladder well formed.
pub proof fn lemma_add_to_wf(ladder: Ladder, option: OptionType, side: OrderType, order: Order)
    requires
        ladder_wf(ladder, option, side),
        may_join(ladder, option, side, order),
    ensures
        ladder_wf(add_to(ladder, order), option, side),
{
    let tick = order.tick();
    let before = level_at(ladder, tick);
    let after = before.push(order);
    assert(is_level(after, option, side, tick)) by {
        if ladder.contains_key(tick) {
            assert(is_level(ladder[tick], option, side, tick));
        }
        assert forall|i: int, j: int| 0 <= i < j < after.len() implies after[i].id
            < after[j].id by {
            if j < before.len() {
                assert(before[i].id < before[j].id);
            } else {
                assert(before[i].id < order.id);
            }
        }
    }
    assert forall|t: u64| #[trigger] add_to(ladder, order).contains_key(t) implies is_level(
        add_to(ladder, order)[t],
        option,
        side,
        t,
    ) by {
        if t != tick {
            assert(ladder.contains_key(t));
        }
    }
}

/// Losing its head keeps a queue proper, unless it was the only order.
pub proof fn lemma_drop_first_is_level(
    orders: Seq<Order>,
    option: OptionType,
    side: OrderType,
    tick: u64,
)
    requires
        is_level(orders, option, side, tick),
        orders.len() > 1,
    ensures
        is_level(orders.drop_first(), option, side, tick),
{
    let rest = orders.drop_first();
    assert forall|i: int| 0 <= i < rest.len() implies {
        let order = #[trigger] rest[i];
        &&& order.option == option
        &&& order.order_type == side
        &&& order.tick() == tick
        &&& order.quantity > 0
    } by {
        assert(rest[i] == orders[i + 1]);
    }
    assert forall|i: int, j: int| 0 <= i < j < rest.len() implies rest[i].id < rest[j].id by {
        assert(orders[i + 1].id < orders[j + 1].id);
    }
}

/// Losing one order keeps a queue proper, unless it was the only order.
pub proof fn lemma_remove_is_level(
    orders: Seq<Order>,
    option: OptionType,
    side: OrderType,
    tick: u64,
    at: int,
)
    requires
        is_level(orders, option, side, tick),
        0 <= at < orders.len(),
        orders.len() > 1,
    ensures
        is_level(orders.remove(at), option, side, tick),
{
    let rest = orders.remove(at);
    assert forall|i: int| 0 <= i < rest.len() implies {
        let order = #[trigger] rest[i];
        &&& order.option == option
        &&& order.order_type == side
        &&& order.tick() == tick
        &&& order.quantity > 0
    } by {
        if i < at {
            assert(rest[i] == orders[i]);
        } else {
            assert(rest[i] == orders[i + 1]);
        }
    }
    assert forall|i: int, j: int| 0 <= i < j < rest.len() implies rest[i].id < rest[j].id by {
        let from_i = if i < at { i } else { i + 1 };
        let from_j = if j < at { j } else { j + 1 };
        assert(rest[i] == orders[from_i]);
        assert(rest[j] == orders[from_j]);
        assert(orders[from_i].id < orders[from_j].id);
    }
}

/// Replacing the queue at a tick by a proper queue, or by nothing, keeps a
/// ladder well formed.
pub proof fn lemma_with_level_wf(
    ladder: Ladder,
    option: OptionType,
    side: OrderType,
    tick: u64,
    level: Seq<Order>,
)
    requires
        ladder_wf(ladder, option, side),
        level.len() > 0 ==> is_level(level, option, side, tick),
    ensures
        ladder_wf(with_level(ladder, tick, level), option, side),
{
    let after = with_level(ladder, tick, level);
    assert forall|t: u64| #[trigger] after.contains_key(t) implies is_level(
        after[t],
        option,
        side,
        t,
    ) by {
        if t != tick {
            assert(ladder.contains_key(t));
        }
    }
}

/// A cancellation keeps a ladder well formed.
pub proof fn lemma_cancel_from_wf(
    ladder: Ladder,
    option: OptionType,
    side: OrderType,
    tick: u64,
    id: u64,
)
    requires
        ladder_wf(ladder, option, side),
    ensures
        ladder_wf(cancel_from(ladder, tick, id), option, side),
{
    if ladder.contains_key(tick) {
        let orders = ladder[tick];
        assert(is_level(orders, option, side, tick));
        let rest = without_id(orders, id);
        if exists|i: int| is_first_with_id(orders, id, i) {
            let at = choose|i: int| is_first_with_id(orders, id, i);
            if orders.len() > 1 {
                lemma_remove_is_level(orders, option, side, tick, at);
            }
        }
        lemma_with_level_wf(ladder, option, side, tick, rest);
    }
}

/// Taking the head of a queue keeps a ladder well formed.
pub proof fn lemma_pop_from_wf(ladder: Ladder, option: OptionType, side: OrderType, tick: u64)
    requires
        ladder_wf(ladder, option, side),
    ensures
        ladder_wf(pop_from(ladder, tick), option, side),
{
    let orders = level_at(ladder, tick);
    if orders.len() > 1 {
        assert(is_level(orders, option, side, tick));
        lemma_drop_first_is_level(orders, option, side, tick);
        lemma_with_level_wf(ladder, option, side, tick, orders.drop_first());
    } else {
        lemma_with_level_wf(ladder, option, side, tick, Seq::empty());
    }
}

/// Putting an order in front of its queue keeps a ladder well formed.
pub proof fn lemma_push_front_wf(ladder: Ladder, option: OptionType, side: OrderType, order: Order)
    requires
        ladder_wf(ladder, option, side),
        may_lead(ladder, option, side, order),
    ensures
        ladder_wf(push_front(ladder, order), option, side),
{
    let tick = order.tick();
    let before = level_at(ladder, tick);
    let after = seq![order] + before;
    assert(is_level(after, option, side, tick)) by {
        if ladder.contains_key(tick) {
            assert(is_level(ladder[tick], option, side, tick));
        }
        assert forall|i: int| 0 <= i < after.len() implies {
            let o = #[trigger] after[i];
            &&& o.option == option
            &&& o.order_type == side
            &&& o.tick() == tick
            &&& o.quantity > 0
        } by {
            if i > 0 {
                assert(after[i] == before[i - 1]);
            }
        }
        assert forall|i: int, j: int| 0 <= i < j < after.len() implies after[i].id
            < after[j].id by {
            assert(after[j] == before[j - 1]);
            if i > 0 {
                assert(after[i] == before[i - 1]);
                assert(before[i - 1].id < before[j - 1].id);
            } else {
                assert(order.id < before[j - 1].id);
            }
        }
    }
    lemma_with_level_wf(ladder, option, side, tick, after);
}

/// A cancellation adds no tick and no order.
pub proof fn lemma_cancel_from_keeps(ladder: Ladder, tick: u64, id: u64, bound: u64)
    ensures
        forall|t: u64| cancel_from(ladder, tick, id).contains_key(t) ==> ladder.contains_key(t),
        ids_below(ladder, bound) ==> ids_below(cancel_from(ladder, tick, id), bound),
{
    let after = cancel_from(ladder, tick, id);
    if ladder.contains_key(tick) && ids_below(ladder, bound) {
        let orders = ladder[tick];
        assert forall|t: u64, i: int|
            after.contains_key(t) && 0 <= i < after[t].len() implies (#[trigger] after[t][i]).id
            < bound by {
            if t == tick {
                if exists|k: int| is_first_with_id(orders, id, k) {
                    let at = choose|k: int| is_first_with_id(orders, id, k);
                    if i < at {
                        assert(after[t][i] == orders[i]);
                    } else {
                        assert(after[t][i] == orders[i + 1]);
                    }
                } else {
                    assert(after[t][i] == orders[i]);
                }
            } else {
                assert(ladder[t][i].id < bound);
            }
        }
    }
}

/// Cancelling the same order a second time changes nothing.
pub proof fn lemma_cancel_from_twice(
    ladder: Ladder,
    option: OptionType,
    side: OrderType,
    tick: u64,
    id: u64,
)
    requires
        ladder_wf(ladder, option, side),
    ensures
        cancel_from(cancel_from(ladder, tick, id), tick, id) == cancel_from(ladder, tick, id),
{
    let once = cancel_from(ladder, tick, id);
    if ladder.contains_key(tick) {
        let orders = ladder[tick];
        assert(is_level(orders, option, side, tick));
        assert forall|i: int, j: int| 0 <= i < j < orders.len() implies orders[i].id
            != orders[j].id by {
            assert(orders[i].id < orders[j].id);
        }
        lemma_without_id_twice(orders, id);
        assert(cancel_from(once, tick, id) =~= once);
    }
}

} // verus!
