//! One price level as the engine stores it: the queue of resting orders and
//! the running totals kept beside it.

use vstd::prelude::*;
use crate::ladder::{
    better, by_remaining, calm, crosses, depth_within, drop_front, fill_front, holds,
    insert_order, ladder_wf, Level, level_wf, lookup, order_count, quantity_at, remove_order,
    remove_slot, resident, rests_at, snapshot, total_remaining,
};
use crate::ladder_lemmas::{
    lemma_depth_within_grows, lemma_depth_within_prefix, lemma_fill_front_count,
    lemma_fill_front_holds, lemma_fill_front_wf, lemma_insert_order_holds,
    lemma_insert_order_sums, lemma_insert_order_wf, lemma_lookup_finds, lemma_quantity_at_absent,
    lemma_quantity_at_level, lemma_rank_from_is, lemma_remove_order_is_slot,
    lemma_remove_slot_best, lemma_remove_slot_calm, lemma_remove_slot_count,
    lemma_remove_slot_holds, lemma_remove_slot_wf,
};
use crate::order::Order;
use crate::sums::{lemma_sum_concat, lemma_sum_remove, lemma_sum_single, lemma_sum_update};
use crate::types::{LevelInfo, OrderId, Price, Quantity, Side};

verus! {

/// What happened to an order of a level.
#[derive(Debug, Clone, Copy, PartialEq, Eq, Structural)]
pub enum LevelAction {
    /// An order joined the level.
    Add,
    /// An order left the level.
    Remove,
    /// An order of the level was matched in part and stays.
    Match,
}

/// The running totals of one price level.
#[derive(Debug, Clone, Copy, PartialEq, Eq, Structural)]
pub struct LevelData {
    pub quantity: Quantity,
    pub count: usize,
}

impl LevelData {
    /// The totals after `action` on an order that accounts for `quantity`.
    /// Taking off never goes below zero.
    pub open spec fn after(self, quantity: Quantity, action: LevelAction) -> LevelData {
        match action {
            LevelAction::Add => LevelData {
                quantity: (self.quantity + quantity) as Quantity,
                count: (self.count + 1) as usize,
            },
            LevelAction::Remove => LevelData {
                quantity: if self.quantity >= quantity {
                    (self.quantity - quantity) as Quantity
                } else {
                    0
                },
                count: if self.count >= 1 {
                    (self.count - 1) as usize
                } else {
                    0
                },
            },
            LevelAction::Match => LevelData {
                quantity: if self.quantity >= quantity {
                    (self.quantity - quantity) as Quantity
                } else {
                    0
                },
                count: self.count,
            },
        }
    }

    /// The totals of a level without orders.
    pub fn new() -> (data: Self)
        ensures
            data == (LevelData { quantity: 0, count: 0 }),
    {
        Self { quantity: 0, count: 0 }
    }

    /// Applies `action` for an order that accounts for `quantity`.
    pub fn update_level_data(&mut self, quantity: Quantity, action: LevelAction)
        requires
            action == LevelAction::Add ==> old(self).quantity + quantity <= Quantity::MAX && old(
                self,
            ).count < usize::MAX,
        ensures
            *final(self) == old(self).after(quantity, action),
    {
        match action {
            LevelAction::Add => {
                self.count = self.count + 1;
                self.quantity = self.quantity + quantity;
            },
            LevelAction::Remove => {
                self.count = if self.count >= 1 { self.count - 1 } else { 0 };
                self.quantity = if self.quantity >= quantity { self.quantity - quantity } else { 0 };
            },
            LevelAction::Match => {
                self.quantity = if self.quantity >= quantity { self.quantity - quantity } else { 0 };
            },
        }
    }

    /// Accounts for an unfilled order that joins the level.
    pub fn on_order_added(&mut self, order: &Order)
        requires
            old(self).quantity + order.quantity <= Quantity::MAX,
            old(self).count < usize::MAX,
        ensures
            *final(self) == old(self).after(order.quantity, LevelAction::Add),
    {
        self.update_level_data(order.get_initial_quantity(), LevelAction::Add);
    }

    /// Accounts for an order that is withdrawn with what is still open on it.
    pub fn on_order_cancelled(&mut self, order: &Order)
        ensures
            *final(self) == old(self).after(order.remaining() as Quantity, LevelAction::Remove),
    {
        self.update_level_data(order.get_remaining_quantity(), LevelAction::Remove);
    }

    /// Accounts for a match of `quantity` on an order of the level, which
    /// leaves the level when the match filled it.
    pub fn on_order_matched(&mut self, quantity: Quantity, is_fully_filled: bool)
        ensures
            *final(self) == old(self).after(
                quantity,
                if is_fully_filled {
                    LevelAction::Remove
                } else {
                    LevelAction::Match
                },
            ),
    {
        let action: LevelAction = if is_fully_filled {
            LevelAction::Remove
        } else {
            LevelAction::Match
        };
        self.update_level_data(quantity, action);
    }
}

/// A price level: its price, its orders oldest first, and its running totals.
#[derive(Debug)]
pub struct PriceLevel {
    pub price: Price,
    pub orders: Vec<Order>,
    pub data: LevelData,
}

impl View for PriceLevel {
    type V = Level;

    open spec fn view(&self) -> Level {
        Level { price: self.price, orders: self.orders@ }
    }
}

impl PriceLevel {
    /// The running totals agree with the queue: the quantity is what is still
    /// open over the resting orders, the count is their number.
    pub open spec fn consistent(&self) -> bool {
        &&& self.data.quantity == total_remaining(self.orders@)
        &&& self.data.count == self.orders@.len()
    }

    /// The level that a single unfilled order opens.
    pub fn new(order: Order) -> (level: Self)
        requires
            order.filled_quantity == 0,
        ensures
            level@ == Level::single(order),
            level.consistent(),
    {
        let mut data = LevelData::new();
        data.on_order_added(&order);
        let mut orders: Vec<Order> = Vec::new();
        orders.push(order);
        proof {
            assert(orders@ =~= seq![order]);
            lemma_sum_single(order, by_remaining());
        }
        PriceLevel { price: order.price, orders, data }
    }

    /// Appends an unfilled order behind the orders already resting.
    pub fn push_back(&mut self, order: Order)
        requires
            old(self).consistent(),
            order.filled_quantity == 0,
            old(self)@.quantity() + order.quantity <= Quantity::MAX,
        ensures
            final(self)@ == old(self)@.push(order),
            final(self).consistent(),
    {
        self.orders.push(order);
        let queued: usize = self.orders.len();
        assert(self.orders@.drop_last() =~= old(self).orders@);
        self.data.on_order_added(&order);
    }

    /// Fills the order at the head by `amount`. A filled order leaves the
    /// level, which may then be empty; the result says whether it left.
    pub fn fill_front(&mut self, amount: Quantity) -> (filled: bool)
        requires
            old(self).consistent(),
            old(self).orders@.len() > 0,
            amount <= old(self).orders@[0].remaining(),
        ensures
            filled == old(self).orders@[0].fill_by(amount as nat).filled(),
            final(self).price == old(self).price,
            filled ==> final(self).orders@ == old(self).orders@.remove(0),
            !filled ==> final(self).orders@ == old(self).orders@.update(
                0,
                old(self).orders@[0].fill_by(amount as nat),
            ),
            final(self).consistent(),
    {
        let ghost before = old(self).orders@;
        let ghost after = before[0].fill_by(amount as nat);
        proof {
            lemma_sum_update(before, 0, after, by_remaining());
            lemma_sum_remove(before, 0, by_remaining());
            assert(after.remaining() + amount == before[0].remaining());
            assert(total_remaining(before.update(0, after)) + amount == total_remaining(before));
        }
        let head = &mut self.orders[0];
        head.fill(amount);
        let filled = head.is_filled();
        assert(self.orders@ == before.update(0, after));
        self.data.on_order_matched(amount, filled);
        assert(self.data.quantity == total_remaining(before) - amount);
        if filled {
            self.orders.remove(0);
            assert(after.remaining() == 0);
            assert(self.orders@ == before.remove(0));
        }
        filled
    }

    /// What is still open over the resting orders, summed afresh.
    pub fn open_quantity(&self) -> (quantity: Quantity)
        requires
            self@.quantity() <= Quantity::MAX,
        ensures
            quantity == self@.quantity(),
    {
        let mut total: Quantity = 0;
        let mut at: usize = 0;
        assert(self.orders@.take(0) =~= Seq::<Order>::empty());
        while at < self.orders.len()
            invariant
                at <= self.orders@.len(),
                total == total_remaining(self.orders@.take(at as int)),
                total_remaining(self.orders@) <= Quantity::MAX,
            decreases self.orders@.len() - at,
        {
            proof {
                assert(self.orders@.take(at + 1).drop_last() =~= self.orders@.take(at as int));
                assert(self.orders@ =~= self.orders@.take(at + 1) + self.orders@.skip(at + 1));
                lemma_sum_concat(
                    self.orders@.take(at + 1),
                    self.orders@.skip(at + 1),
                    by_remaining(),
                );
            }
            total = total + self.orders[at].get_remaining_quantity();
            at = at + 1;
        }
        assert(self.orders@.take(at as int) =~= self.orders@);
        total
    }

    /// The place in the queue of the first order that carries `id`, if one
    /// does.
    pub fn position(&self, id: OrderId) -> (found: Option<usize>)
        ensures
            match found {
                Some(at) => {
                    &&& at < self.orders@.len()
                    &&& self.orders@[at as int].id == id
                    &&& forall|j: int| 0 <= j < at ==> (#[trigger] self.orders@[j]).id != id
                },
                None => forall|j: int| 0 <= j < self.orders@.len() ==> (#[trigger] self.orders@[j]).id
                    != id,
            },
    {
        let mut at: usize = 0;
        while at < self.orders.len()
            invariant
                at <= self.orders@.len(),
                forall|j: int| 0 <= j < at ==> (#[trigger] self.orders@[j]).id != id,
            decreases self.orders@.len() - at,
        {
            if self.orders[at].id == id {
                return Some(at);
            }
            at = at + 1;
        }
        None
    }

    /// Takes the order at place `at` out of the queue, which may then be empty.
    pub fn remove_at(&mut self, at: usize) -> (order: Order)
        requires
            old(self).consistent(),
            at < old(self).orders@.len(),
        ensures
            order == old(self).orders@[at as int],
            final(self).price == old(self).price,
            final(self).orders@ == old(self).orders@.remove(at as int),
            final(self).consistent(),
    {
        let order = self.orders.remove(at);
        proof {
            lemma_sum_remove(old(self).orders@, at as int, by_remaining());
        }
        self.data.on_order_cancelled(&order);
        order
    }
}

/// True when price `p` has priority over price `q` on a ladder of `side`.
pub fn has_priority(side: Side, p: Price, q: Price) -> (first: bool)
    ensures
        first == better(side, p, q),
{
    match side {
        Side::Buy => p > q,
        Side::Sell => p < q,
    }
}

/// True when an order of `side` with limit `limit` can trade against an order
/// resting at `resting` on the opposite side.
pub fn can_trade(side: Side, limit: Price, resting: Price) -> (reaches: bool)
    ensures
        reaches == crosses(side, limit, resting),
{
    match side {
        Side::Buy => limit >= resting,
        Side::Sell => limit <= resting,
    }
}

/// The view of a sequence of stored levels.
pub open spec fn levels_view(levels: Seq<PriceLevel>) -> Seq<Level> {
    Seq::new(levels.len(), |i: int| levels[i]@)
}

/// One side of the book as the engine stores it: its levels, best price first.
#[derive(Debug)]
pub struct BookSide {
    side: Side,
    levels: Vec<PriceLevel>,
}

impl View for BookSide {
    type V = Seq<Level>;

    closed spec fn view(&self) -> Seq<Level> {
        levels_view(self.levels@)
    }
}

impl BookSide {
    /// The side whose orders rest here.
    pub closed spec fn side(&self) -> Side {
        self.side
    }

    /// The running totals of every level agree with its queue.
    pub closed spec fn consistent(&self) -> bool {
        forall|i: int| 0 <= i < self.levels@.len() ==> (#[trigger] self.levels@[i]).consistent()
    }

    /// The ladder is well formed and every level's totals are right.
    pub open spec fn wf(&self) -> bool {
        &&& ladder_wf(self@, self.side())
        &&& self.consistent()
    }

    /// An empty side.
    pub fn new(side: Side) -> (book_side: Self)
        ensures
            book_side.side() == side,
            book_side@ == Seq::<Level>::empty(),
            book_side.wf(),
    {
        let book_side = BookSide { side, levels: Vec::new() };
        assert(book_side@ =~= Seq::<Level>::empty());
        book_side
    }

    pub fn is_empty(&self) -> (empty: bool)
        ensures
            empty == (self@.len() == 0),
    {
        self.levels.len() == 0
    }

    /// The price of the best level.
    pub fn best_price(&self) -> (price: Option<Price>)
        ensures
            price == (if self@.len() > 0 {
                Some(self@[0].price)
            } else {
                None
            }),
    {
        if self.levels.len() > 0 {
            Some(self.levels[0].price)
        } else {
            None
        }
    }

    /// The price of the level with the least priority.
    pub fn worst_price(&self) -> (price: Option<Price>)
        ensures
            price == (if self@.len() > 0 {
                Some(self@.last().price)
            } else {
                None
            }),
    {
        let n = self.levels.len();
        if n > 0 {
            Some(self.levels[n - 1].price)
        } else {
            None
        }
    }

    /// The order at the head of the best level.
    pub fn front(&self) -> (order: Order)
        requires
            self@.len() > 0,
            self@[0].orders.len() > 0,
        ensures
            order == self@[0].orders[0],
    {
        self.levels[0].orders[0]
    }

    /// The place of the level with `price`, if there is one.
    fn level_of(&self, price: Price) -> (found: Option<usize>)
        ensures
            match found {
                Some(at) => at < self@.len() && self@[at as int].price == price,
                None => forall|i: int| 0 <= i < self@.len() ==> (#[trigger] self@[i]).price != price,
            },
    {
        let mut at: usize = 0;
        while at < self.levels.len()
            invariant
                at <= self.levels@.len(),
                forall|i: int| 0 <= i < at ==> (#[trigger] self@[i]).price != price,
            decreases self.levels@.len() - at,
        {
            if self.levels[at].price == price {
                return Some(at);
            }
            at = at + 1;
        }
        None
    }

    /// The running totals of the level at `price`, if there is one. They are
    /// read as stored, and they agree with the orders of the level: the
    /// quantity is what is still open over them, the count is their number,
    /// and no level is kept without orders.
    pub fn level_data(&self, price: Price) -> (found: Option<LevelData>)
        requires
            self.wf(),
        ensures
            match found {
                Some(data) => {
                    &&& data.quantity == quantity_at(self@, price)
                    &&& data.count > 0
                    &&& exists|i: int|
                        0 <= i < self@.len() && (#[trigger] self@[i]).price == price
                            && data.quantity == self@[i].quantity() && data.count
                            == self@[i].orders.len()
                },
                None => {
                    &&& quantity_at(self@, price) == 0
                    &&& forall|i: int| 0 <= i < self@.len() ==> (#[trigger] self@[i]).price != price
                },
            },
    {
        match self.level_of(price) {
            Some(at) => {
                proof {
                    lemma_quantity_at_level(self@, self.side, at as int);
                    assert(level_wf(self@[at as int], self.side));
                }
                Some(self.levels[at].data)
            },
            None => {
                proof {
                    lemma_quantity_at_absent(self@, price);
                }
                None
            },
        }
    }

    /// The place of the order that carries `id` at `price`, if one rests
    /// there: its level and its place in the queue.
    fn locate(&self, id: OrderId, price: Price) -> (found: Option<(usize, usize)>)
        requires
            self.wf(),
        ensures
            match found {
                Some((level, at)) => {
                    &&& level < self@.len()
                    &&& at < self@[level as int].orders.len()
                    &&& self@[level as int].price == price
                    &&& self@[level as int].orders[at as int].id == id
                    &&& holds(self@, id, price)
                    &&& lookup(self@, id) == self@[level as int].orders[at as int]
                },
                None => !holds(self@, id, price),
            },
    {
        let level = match self.level_of(price) {
            Some(level) => level,
            None => {
                return None;
            },
        };
        match self.levels[level].position(id) {
            Some(at) => {
                proof {
                    lemma_lookup_finds(self@, self.side, self@[level as int].orders[at as int]);
                }
                Some((level, at))
            },
            None => {
                proof {
                    assert forall|i: int, j: int|
                        0 <= i < self@.len() && 0 <= j < self@[i].orders.len() && self@[i].price
                            == price implies (#[trigger] self@[i].orders[j]).id != id by {
                        if i < level {
                            assert(better(self.side, self@[i].price, self@[level as int].price));
                        } else if i > level {
                            assert(better(self.side, self@[level as int].price, self@[i].price));
                        }
                    }
                }
                None
            },
        }
    }

    /// The order that carries `id` at `price`, if one rests there.
    pub fn find(&self, id: OrderId, price: Price) -> (found: Option<Order>)
        requires
            self.wf(),
        ensures
            found == (if holds(self@, id, price) {
                Some(lookup(self@, id))
            } else {
                None
            }),
    {
        match self.locate(id, price) {
            Some((level, at)) => Some(self.levels[level].orders[at]),
            None => None,
        }
    }

    /// Puts an unfilled order on the ladder: behind the orders at its price,
    /// or in a level of its own.
    pub fn insert(&mut self, order: Order)
        requires
            old(self).wf(),
            rests_at(order, old(self).side(), order.price),
            order.filled_quantity == 0,
            !resident(old(self)@, order.id),
            quantity_at(old(self)@, order.price) + order.quantity <= Quantity::MAX,
        ensures
            final(self).side() == old(self).side(),
            final(self)@ == insert_order(old(self)@, old(self).side(), order),
            final(self).wf(),
            order_count(final(self)@) == order_count(old(self)@) + 1,
            forall|id: OrderId, price: Price| #[trigger]
                holds(final(self)@, id, price) <==> holds(old(self)@, id, price) || (id == order.id
                    && price == order.price),
    {
        proof {
            lemma_insert_order_sums(old(self)@, old(self).side(), order);
            lemma_insert_order_holds(old(self)@, old(self).side(), order);
        }
        let mut at: usize = 0;
        while at < self.levels.len() && has_priority(self.side, self.levels[at].price, order.price)
            invariant
                at <= self.levels@.len(),
                forall|k: int| 0 <= k < at ==> better(self.side, (#[trigger] self@[k]).price, order.price),
            decreases self.levels@.len() - at,
        {
            at = at + 1;
        }
        proof {
            lemma_rank_from_is(self@, self.side, order.price, 0, at as int);
            lemma_insert_order_wf(self@, self.side, order);
        }
        if at < self.levels.len() && self.levels[at].price == order.price {
            proof {
                lemma_quantity_at_level(self@, self.side, at as int);
            }
            let level = &mut self.levels[at];
            level.push_back(order);
        } else {
            let level = PriceLevel::new(order);
            self.levels.insert(at, level);
        }
        assert(self@ =~= insert_order(old(self)@, old(self).side(), order));
    }

    /// Takes the order at place `at` of level `level` off the ladder, and the
    /// level with it when that leaves it empty.
    fn take(&mut self, level: usize, at: usize) -> (order: Order)
        requires
            old(self).wf(),
            level < old(self)@.len(),
            at < old(self)@[level as int].orders.len(),
        ensures
            order == old(self)@[level as int].orders[at as int],
            final(self).side() == old(self).side(),
            final(self)@ == remove_slot(old(self)@, level as int, at as int),
            final(self).wf(),
            final(self)@.len() > 0 ==> !better(
                old(self).side(),
                final(self)@[0].price,
                old(self)@[0].price,
            ),
            calm(old(self)@) ==> calm(final(self)@),
    {
        proof {
            lemma_remove_slot_calm(self@, level as int, at as int);
            lemma_remove_slot_wf(self@, self.side, level as int, at as int);
            lemma_remove_slot_best(self@, self.side, level as int, at as int);
        }
        let slot = &mut self.levels[level];
        let order = slot.remove_at(at);
        if self.levels[level].orders.len() == 0 {
            self.levels.remove(level);
        }
        assert(self@ =~= remove_slot(old(self)@, level as int, at as int));
        order
    }

    /// Takes the order that carries `id` off the level at `price`, if one
    /// rests there, and hands it out.
    pub fn remove(&mut self, id: OrderId, price: Price) -> (removed: Option<Order>)
        requires
            old(self).wf(),
        ensures
            final(self).side() == old(self).side(),
            final(self).wf(),
            match removed {
                Some(order) => {
                    &&& order == lookup(old(self)@, id)
                    &&& order.id == id
                    &&& holds(old(self)@, id, price)
                    &&& final(self)@ == remove_order(old(self)@, id)
                    &&& order_count(final(self)@) + 1 == order_count(old(self)@)
                    &&& final(self)@.len() > 0 ==> !better(
                        old(self).side(),
                        final(self)@[0].price,
                        old(self)@[0].price,
                    )
                    &&& calm(old(self)@) ==> calm(final(self)@)
                    &&& forall|other: OrderId, at: Price| #[trigger]
                        holds(final(self)@, other, at) <==> holds(old(self)@, other, at) && other
                            != id
                },
                None => !holds(old(self)@, id, price) && final(self)@ == old(self)@,
            },
    {
        match self.locate(id, price) {
            Some((level, at)) => {
                proof {
                    lemma_remove_order_is_slot(self@, self.side, level as int, at as int);
                    lemma_remove_slot_holds(self@, self.side, level as int, at as int);
                    lemma_remove_slot_count(self@, level as int, at as int);
                }
                Some(self.take(level, at))
            },
            None => None,
        }
    }

    /// Fills the order at the head of the best level by `amount`; a filled
    /// order leaves the ladder. The result says whether it left.
    pub fn fill_front(&mut self, amount: Quantity) -> (filled: bool)
        requires
            old(self).wf(),
            old(self)@.len() > 0,
            amount <= old(self)@[0].orders[0].remaining(),
        ensures
            filled == old(self)@[0].orders[0].fill_by(amount as nat).filled(),
            final(self).side() == old(self).side(),
            final(self)@ == fill_front(old(self)@, amount as nat),
            final(self).wf(),
            order_count(final(self)@) + (if filled { 1nat } else { 0nat }) == order_count(old(self)@),
            forall|id: OrderId, price: Price| #[trigger]
                holds(final(self)@, id, price) <==> holds(old(self)@, id, price) && !(filled && id
                    == old(self)@[0].orders[0].id),
    {
        proof {
            lemma_fill_front_count(self@, amount as nat);
            lemma_fill_front_holds(self@, self.side, amount as nat);
            lemma_fill_front_wf(self@, self.side, amount as nat);
            assert(level_wf(self@[0], self.side));
        }
        let level = &mut self.levels[0];
        let filled = level.fill_front(amount);
        if filled && self.levels[0].orders.len() == 0 {
            self.levels.remove(0);
        }
        assert(self@ =~= fill_front(old(self)@, amount as nat));
        filled
    }

    /// Takes the order at the head of the best level off the ladder.
    pub fn drop_front(&mut self) -> (order: Order)
        requires
            old(self).wf(),
            old(self)@.len() > 0,
        ensures
            order == old(self)@[0].orders[0],
            final(self).side() == old(self).side(),
            final(self)@ == drop_front(old(self)@),
            final(self).wf(),
            order_count(final(self)@) + 1 == order_count(old(self)@),
            forall|id: OrderId, price: Price| #[trigger]
                holds(final(self)@, id, price) <==> holds(old(self)@, id, price) && id != old(self)@[0].orders[0].id,
    {
        proof {
            assert(level_wf(self@[0], self.side));
            lemma_remove_slot_count(self@, 0, 0);
            lemma_remove_slot_holds(self@, self.side, 0, 0);
        }
        self.take(0, 0)
    }

    /// True when the levels that an order of the opposite side with limit
    /// `limit` can trade against hold at least `quantity` between them. The
    /// walk goes from the best price outward over the running totals and
    /// stops as soon as the quantity is reached.
    pub fn depth_reaches(&self, limit: Price, quantity: Quantity) -> (enough: bool)
        requires
            self.wf(),
        ensures
            enough == (depth_within(self@, self.side().opposite(), limit) >= quantity),
    {
        let taker = match self.side {
            Side::Buy => Side::Sell,
            Side::Sell => Side::Buy,
        };
        let mut total: u64 = 0;
        let mut at: usize = 0;
        assert(self@.take(0) =~= Seq::<Level>::empty());
        while at < self.levels.len() && total < quantity as u64 && can_trade(
            taker,
            limit,
            self.levels[at].price,
        )
            invariant
                self.wf(),
                taker == self.side().opposite(),
                at <= self.levels@.len(),
                total == depth_within(self@.take(at as int), taker, limit),
                total <= at * Quantity::MAX,
            decreases self.levels@.len() - at,
        {
            proof {
                assert(self@.take(at + 1).drop_last() =~= self@.take(at as int));
                assert(level_wf(self@[at as int], self.side));
                lemma_depth_within_grows(self@, taker, limit, at as int);
                lemma_depth_within_grows(self@, taker, limit, at + 1);
            }
            if total + self.levels[at].data.quantity as u64 >= quantity as u64 {
                return true;
            }
            total = total + self.levels[at].data.quantity as u64;
            at = at + 1;
        }
        proof {
            lemma_depth_within_grows(self@, taker, limit, at as int);
            if total < quantity {
                lemma_depth_within_prefix(self@, taker, limit, at as int);
            }
        }
        total >= quantity as u64
    }

    /// The snapshot of this side: price and quantity of each level, best
    /// first. The quantities are summed afresh from the resting orders.
    pub fn level_infos(&self) -> (infos: Vec<LevelInfo>)
        requires
            self.wf(),
        ensures
            infos@ == snapshot(self@),
    {
        let mut infos: Vec<LevelInfo> = Vec::new();
        let mut at: usize = 0;
        while at < self.levels.len()
            invariant
                self.wf(),
                at <= self.levels@.len(),
                infos@.len() == at,
                forall|i: int| 0 <= i < at ==> #[trigger] infos@[i] == snapshot(self@)[i],
            decreases self.levels@.len() - at,
        {
            proof {
                assert(level_wf(self@[at as int], self.side));
            }
            let quantity = self.levels[at].open_quantity();
            infos.push(LevelInfo { price: self.levels[at].price, quantity });
            at = at + 1;
        }
        assert(infos@ =~= snapshot(self@));
        infos
    }
}

} // verus!
