//! The mathematical model of one side of the book: a ladder of price levels,
//! best price first, each level a first-in-first-out queue of resting orders.

use vstd::prelude::*;
use crate::order::Order;
use crate::sums::sum_by;
use crate::types::{LevelInfo, OrderId, OrderType, Price, Quantity, Side};

verus! {

/// All orders resting at one price, oldest first.
pub struct Level {
    pub price: Price,
    pub orders: Seq<Order>,
}

/// Weighs an order by the quantity still open on it.
pub open spec fn by_remaining() -> spec_fn(Order) -> nat {
    |order: Order| order.remaining()
}

/// The quantity still open over a queue of orders.
pub open spec fn total_remaining(orders: Seq<Order>) -> nat {
    sum_by(orders, by_remaining())
}

impl Level {
    /// The aggregate quantity of the level: what is still open over its orders.
    pub open spec fn quantity(self) -> nat {
        total_remaining(self.orders)
    }

    /// The level with `order` appended behind every order already resting.
    pub open spec fn push(self, order: Order) -> Level {
        Level { price: self.price, orders: self.orders.push(order) }
    }

    /// The level that a single order opens.
    pub open spec fn single(order: Order) -> Level {
        Level { price: order.price, orders: seq![order] }
    }
}

/// True when price `p` has priority over price `q` on a ladder of `side`:
/// the higher price among bids, the lower price among asks.
pub open spec fn better(side: Side, p: Price, q: Price) -> bool {
    match side {
        Side::Buy => p > q,
        Side::Sell => p < q,
    }
}

/// True when an order of `side` with limit `limit` can trade against an order
/// resting at `resting` on the opposite side.
pub open spec fn crosses(side: Side, limit: Price, resting: Price) -> bool {
    match side {
        Side::Buy => limit >= resting,
        Side::Sell => limit <= resting,
    }
}

/// Levels stand in strict priority order, so no price occurs twice.
pub open spec fn sorted(levels: Seq<Level>, side: Side) -> bool {
    forall|i: int, j: int|
        0 <= i < j < levels.len() ==> better(side, #[trigger] levels[i].price, #[trigger] levels[j].price)
}

/// What holds of every order resting at `price` on the ladder of `side`.
pub open spec fn rests_at(order: Order, side: Side, price: Price) -> bool {
    &&& order.side == side
    &&& order.price == price
    &&& order.filled_quantity <= order.quantity
}

/// No identifier occurs twice on the ladder.
pub open spec fn unique_ids(levels: Seq<Level>) -> bool {
    forall|i: int, j: int, k: int, l: int|
        0 <= i < levels.len() && 0 <= j < levels[i].orders.len() && 0 <= k < levels.len() && 0 <= l
            < levels[k].orders.len() && (#[trigger] levels[i].orders[j]).id == (
        #[trigger] levels[k].orders[l]).id ==> i == k && j == l
}

/// No Fill-and-Kill order rests on the ladder.
pub open spec fn calm(levels: Seq<Level>) -> bool {
    forall|i: int, j: int|
        0 <= i < levels.len() && 0 <= j < levels[i].orders.len() ==> (
        #[trigger] levels[i].orders[j]).order_type != OrderType::FillAndKill
}

/// No Fill-and-Kill order rests on the ladder behind the head of the best
/// level. This is what holds while an order is being matched: the order that
/// just arrived may be Fill-and-Kill, and then it stands at the head.
pub open spec fn calm_behind_head(levels: Seq<Level>) -> bool {
    forall|i: int, j: int|
        0 <= i < levels.len() && 0 <= j < levels[i].orders.len() && (i > 0 || j > 0) ==> (
        #[trigger] levels[i].orders[j]).order_type != OrderType::FillAndKill
}

/// A level of a well-formed ladder is never empty, holds only orders of its
/// side and price, and has an aggregate quantity that fits a `Quantity`.
pub open spec fn level_wf(level: Level, side: Side) -> bool {
    &&& level.orders.len() > 0
    &&& level.quantity() <= u32::MAX
    &&& forall|j: int|
        0 <= j < level.orders.len() ==> rests_at(#[trigger] level.orders[j], side, level.price)
}

/// A well-formed ladder: strictly ordered by priority, every level well
/// formed, no identifier twice.
pub open spec fn ladder_wf(levels: Seq<Level>, side: Side) -> bool {
    &&& sorted(levels, side)
    &&& unique_ids(levels)
    &&& forall|i: int| 0 <= i < levels.len() ==> level_wf(#[trigger] levels[i], side)
}

/// True when an order with identifier `id` rests at `price` on the ladder.
pub open spec fn holds(levels: Seq<Level>, id: OrderId, price: Price) -> bool {
    exists|i: int, j: int|
        0 <= i < levels.len() && 0 <= j < levels[i].orders.len() && levels[i].price == price
            && (#[trigger] levels[i].orders[j]).id == id
}

/// True when an order with identifier `id` rests anywhere on the ladder.
pub open spec fn resident(levels: Seq<Level>, id: OrderId) -> bool {
    exists|i: int, j: int|
        0 <= i < levels.len() && 0 <= j < levels[i].orders.len()
            && (#[trigger] levels[i].orders[j]).id == id
}

/// Weighs a level by the number of its orders.
pub open spec fn by_count() -> spec_fn(Level) -> nat {
    |level: Level| level.orders.len()
}

/// Weighs a level by its aggregate quantity.
pub open spec fn by_quantity() -> spec_fn(Level) -> nat {
    |level: Level| level.quantity()
}

/// Weighs a level by its aggregate quantity where its price is `price`.
pub open spec fn by_quantity_at(price: Price) -> spec_fn(Level) -> nat {
    |level: Level| if level.price == price { level.quantity() } else { 0 }
}

/// Weighs a level by its aggregate quantity where an order of `side` with
/// limit `limit` can trade against it.
pub open spec fn by_quantity_within(side: Side, limit: Price) -> spec_fn(Level) -> nat {
    |level: Level| if crosses(side, limit, level.price) { level.quantity() } else { 0 }
}

/// The number of orders on the ladder.
pub open spec fn order_count(levels: Seq<Level>) -> nat {
    sum_by(levels, by_count())
}

/// The quantity still open over the whole ladder.
pub open spec fn ladder_quantity(levels: Seq<Level>) -> nat {
    sum_by(levels, by_quantity())
}

/// The aggregate quantity resting at `price`, zero where no level has that price.
pub open spec fn quantity_at(levels: Seq<Level>, price: Price) -> nat {
    sum_by(levels, by_quantity_at(price))
}

/// The depth an order of `side` with limit `limit` can reach on the opposite
/// ladder `levels`: the aggregate quantity of every level its limit crosses.
pub open spec fn depth_within(levels: Seq<Level>, side: Side, limit: Price) -> nat {
    sum_by(levels, by_quantity_within(side, limit))
}

/// The snapshot of a ladder: for each level, best first, its price and its
/// aggregate quantity.
pub open spec fn snapshot(levels: Seq<Level>) -> Seq<LevelInfo> {
    Seq::new(
        levels.len(),
        |i: int| LevelInfo { price: levels[i].price, quantity: levels[i].quantity() as Quantity },
    )
}

/// The number of leading levels, counted from `from`, whose price has strict
/// priority over `price`.
pub open spec fn rank_from(levels: Seq<Level>, side: Side, price: Price, from: int) -> int
    decreases levels.len() - from,
{
    if 0 <= from < levels.len() && better(side, levels[from].price, price) {
        rank_from(levels, side, price, from + 1)
    } else {
        from
    }
}

/// The place of `price` on the ladder: the number of levels with a strictly
/// better price.
pub open spec fn rank(levels: Seq<Level>, side: Side, price: Price) -> int {
    rank_from(levels, side, price, 0)
}

/// The ladder after `order` joined it: behind every order at its price where
/// the level exists, in a level of its own at its place otherwise.
pub open spec fn insert_order(levels: Seq<Level>, side: Side, order: Order) -> Seq<Level> {
    let at = rank(levels, side, order.price);
    if 0 <= at < levels.len() && levels[at].price == order.price {
        levels.update(at, levels[at].push(order))
    } else {
        levels.insert(at, Level::single(order))
    }
}

/// The ladder without the order at place `at` of level `level`; a level left
/// empty goes with it.
pub open spec fn remove_slot(levels: Seq<Level>, level: int, at: int) -> Seq<Level>
    recommends
        0 <= level < levels.len(),
        0 <= at < levels[level].orders.len(),
{
    if levels[level].orders.len() <= 1 {
        levels.remove(level)
    } else {
        levels.update(
            level,
            Level { price: levels[level].price, orders: levels[level].orders.remove(at) },
        )
    }
}

/// The ladder without the order at the head of its best level.
pub open spec fn drop_front(levels: Seq<Level>) -> Seq<Level>
    recommends
        levels.len() > 0,
        levels[0].orders.len() > 0,
{
    remove_slot(levels, 0, 0)
}

/// The ladder after `amount` was filled on the order at the head of its best
/// level. A filled order leaves the ladder; one that is not filled keeps its
/// place at the head.
pub open spec fn fill_front(levels: Seq<Level>, amount: nat) -> Seq<Level>
    recommends
        levels.len() > 0,
        levels[0].orders.len() > 0,
{
    let head = levels[0].orders[0].fill_by(amount);
    if head.filled() {
        drop_front(levels)
    } else {
        levels.update(0, Level { price: levels[0].price, orders: levels[0].orders.update(0, head) })
    }
}

/// Passes every order but those that carry `id`.
pub open spec fn other_than(id: OrderId) -> spec_fn(Order) -> bool {
    |order: Order| order.id != id
}

/// Takes the orders that carry `id` out of a level.
pub open spec fn without(id: OrderId) -> spec_fn(Level) -> Level {
    |level: Level| Level { price: level.price, orders: level.orders.filter(other_than(id)) }
}

/// Passes the levels that hold an order.
pub open spec fn occupied() -> spec_fn(Level) -> bool {
    |level: Level| level.orders.len() > 0
}

/// The ladder without any order that carries `id`, and without the levels that
/// this leaves empty.
pub open spec fn remove_order(levels: Seq<Level>, id: OrderId) -> Seq<Level> {
    levels.map_values(without(id)).filter(occupied())
}

/// The ladder without its first `taken` orders, counted in priority order.
pub open spec fn drop_many(levels: Seq<Level>, taken: nat) -> Seq<Level>
    decreases taken,
{
    if taken == 0 {
        levels
    } else {
        drop_many(drop_front(levels), (taken - 1) as nat)
    }
}

/// The ladder with `amount` more filled on the order at its head, which
/// keeps its place whatever the fill.
pub open spec fn touch(levels: Seq<Level>, amount: nat) -> Seq<Level> {
    if levels.len() > 0 && levels[0].orders.len() > 0 {
        levels.update(
            0,
            Level {
                price: levels[0].price,
                orders: levels[0].orders.update(0, levels[0].orders[0].fill_by(amount)),
            },
        )
    } else {
        levels
    }
}

/// The ladder after the sweep that follows matching: a Fill-and-Kill order at
/// the head of the best level is taken off.
pub open spec fn sweep(levels: Seq<Level>) -> Seq<Level> {
    if levels.len() > 0 && levels[0].orders.len() > 0 && levels[0].orders[0].order_type
        == OrderType::FillAndKill {
        drop_front(levels)
    } else {
        levels
    }
}

/// The order on the ladder that carries `id`.
pub open spec fn lookup(levels: Seq<Level>, id: OrderId) -> Order
    recommends
        resident(levels, id),
{
    let (i, j) = choose|i: int, j: int|
        0 <= i < levels.len() && 0 <= j < levels[i].orders.len() && (
        #[trigger] levels[i].orders[j]).id == id;
    levels[i].orders[j]
}

} // verus!
