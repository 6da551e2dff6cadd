//! The queue of orders that rest at one tick on one side of a book.
//!
//! Orders join at the tail and are served from the head. The unfilled part of
//! a partly served head goes back to the head, so it keeps its place before
//! everything that arrived after it.

use std::collections::VecDeque;
use vstd::prelude::*;
use crate::order::Order;

verus! {

/// The sum of the unfilled quantities of a sequence of orders.
pub open spec fn aggregate(orders: Seq<Order>) -> nat
    decreases orders.len(),
{
    if orders.len() == 0 {
        0
    } else {
        aggregate(orders.drop_last()) + orders.last().quantity as nat
    }
}

/// Whether `i` is the position of the first order that carries `id`.
pub open spec fn is_first_with_id(orders: Seq<Order>, id: u64, i: int) -> bool {
    &&& 0 <= i < orders.len()
    &&& orders[i].id == id
    &&& forall|j: int| 0 <= j < i ==> orders[j].id != id
}

/// The first order that carries `id`, if there is one.
pub open spec fn find_id(orders: Seq<Order>, id: u64) -> Option<Order> {
    if exists|i: int| is_first_with_id(orders, id, i) {
        Some(orders[choose|i: int| is_first_with_id(orders, id, i)])
    } else {
        None
    }
}

/// The sequence without the first order that carries `id`; the sequence
/// itself if no order carries it.
pub open spec fn without_id(orders: Seq<Order>, id: u64) -> Seq<Order> {
    if exists|i: int| is_first_with_id(orders, id, i) {
        orders.remove(choose|i: int| is_first_with_id(orders, id, i))
    } else {
        orders
    }
}

/// The position of the first order with a given id is unique.
pub proof fn lemma_first_with_id_unique(orders: Seq<Order>, id: u64, i: int, j: int)
    requires
        is_first_with_id(orders, id, i),
        is_first_with_id(orders, id, j),
    ensures
        i == j,
{
    if i < j {
        assert(orders[i].id != id);
    } else if j < i {
        assert(orders[j].id != id);
    }
}

/// A sequence in which no order carries `id` loses nothing.
pub proof fn lemma_without_absent_id(orders: Seq<Order>, id: u64)
    requires
        forall|i: int| 0 <= i < orders.len() ==> orders[i].id != id,
    ensures
        without_id(orders, id) == orders,
        find_id(orders, id) is None,
{
    assert forall|i: int| !is_first_with_id(orders, id, i) by {
        if 0 <= i < orders.len() {
            assert(orders[i].id != id);
        }
    }
}

/// Where no two orders share an id, nothing carries `id` once the first
/// order that carried it is gone: a second removal changes nothing.
pub proof fn lemma_without_id_twice(orders: Seq<Order>, id: u64)
    requires
        forall|i: int, j: int| 0 <= i < j < orders.len() ==> orders[i].id != orders[j].id,
    ensures
        without_id(without_id(orders, id), id) == without_id(orders, id),
{
    let rest = without_id(orders, id);
    if exists|i: int| is_first_with_id(orders, id, i) {
        let at = choose|i: int| is_first_with_id(orders, id, i);
        assert forall|i: int| 0 <= i < rest.len() implies rest[i].id != id by {
            if i < at {
                assert(rest[i] == orders[i]);
            } else {
                assert(rest[i] == orders[i + 1]);
                assert(orders[at].id != orders[i + 1].id);
            }
        }
        lemma_without_absent_id(rest, id);
    }
}

/// The aggregate of a sequence extended by one order.
pub proof fn lemma_aggregate_push(orders: Seq<Order>, order: Order)
    ensures
        aggregate(orders.push(order)) == aggregate(orders) + order.quantity,
{
    assert(orders.push(order).drop_last() =~= orders);
}

/// The orders resting at one tick on one side, oldest first.
#[derive(Debug)]
pub struct PriceLevel {
    orders: VecDeque<Order>,
}

impl View for PriceLevel {
    type V = Seq<Order>;

    closed spec fn view(&self) -> Seq<Order> {
        self.orders@
    }
}

impl PriceLevel {
    /// An empty queue.
    pub fn new() -> (level: PriceLevel)
        ensures
            level@ == Seq::<Order>::empty(),
    {
        PriceLevel { orders: VecDeque::new() }
    }

    /// Whether no order is queued.
    pub fn is_empty(&self) -> (empty: bool)
        ensures
            empty == (self@.len() == 0),
    {
        self.orders.len() == 0
    }

    /// Appends an order at the tail.
    pub fn enqueue(&mut self, order: Order)
        ensures
            final(self)@ == old(self)@.push(order),
    {
        self.orders.push_back(order);
    }

    /// The order at the head, which is served next.
    pub fn peek_head(&self) -> (head: Option<Order>)
        ensures
            head == (if self@.len() > 0 {
                Some(self@[0])
            } else {
                None
            }),
    {
        if self.orders.len() > 0 {
            Some(self.orders[0])
        } else {
            None
        }
    }

    /// Removes and returns the order at the head.
    pub fn pop_head(&mut self) -> (head: Option<Order>)
        ensures
            old(self)@.len() > 0 ==> head == Some(old(self)@[0]) && final(self)@ == old(
                self,
            )@.drop_first(),
            old(self)@.len() == 0 ==> head is None && final(self)@ == old(self)@,
    {
        self.orders.pop_front()
    }

    /// Puts an order in front of the head.
    pub fn push_head(&mut self, order: Order)
        ensures
            final(self)@ == seq![order] + old(self)@,
    {
        self.orders.push_front(order);
    }

    /// Removes the first order that carries `id` and returns it; leaves the
    /// queue as it is when no order carries it.
    pub fn remove_by_id(&mut self, id: u64) -> (removed: Option<Order>)
        ensures
            final(self)@ == without_id(old(self)@, id),
            removed == find_id(old(self)@, id),
    {
        let n: usize = self.orders.len();
        let mut i: usize = 0;
        while i < n
            invariant
                self@ == old(self)@,
                n == self@.len(),
                i <= n,
                forall|j: int| 0 <= j < i ==> self@[j].id != id,
            decreases n - i,
        {
            if self.orders[i].id == id {
                let removed = self.orders.remove(i);
                proof {
                    assert(is_first_with_id(old(self)@, id, i as int));
                    let first = choose|k: int| is_first_with_id(old(self)@, id, k);
                    lemma_first_with_id_unique(old(self)@, id, i as int, first);
                }
                return removed;
            }
            i += 1;
        }
        proof {
            lemma_without_absent_id(old(self)@, id);
        }
        None
    }

    /// The total unfilled quantity queued at this level.
    pub fn aggregate_quantity(&self) -> (total: u128)
        ensures
            total == aggregate(self@),
    {
        let n: usize = self.orders.len();
        let mut total: u128 = 0;
        let mut i: usize = 0;
        while i < n
            invariant
                n == self@.len(),
                i <= n,
                total == aggregate(self@.take(i as int)),
                total <= i * 0xffff_ffff,
            decreases n - i,
        {
            proof {
                let upto = self@.take(i as int);
                lemma_aggregate_push(upto, self@[i as int]);
                assert(upto.push(self@[i as int]) =~= self@.take(i + 1));
            }
            let quantity: u32 = self.orders[i].quantity;
            total = total + quantity as u128;
            i += 1;
        }
        proof {
            assert(self@.take(n as int) =~= self@);
        }
        total
    }
}

} // verus!
