//! What holds of the operations on a ladder: how each of them changes the
//! sums over the ladder, what rests on it, and that each keeps it well formed.

use vstd::prelude::*;
use crate::ladder::{
    better, by_count, by_quantity, by_quantity_at, by_quantity_within, by_remaining, calm,
    calm_behind_head, crosses, depth_within, drop_front, fill_front, holds, insert_order,
    ladder_quantity, ladder_wf, Level, level_wf, lookup, occupied, order_count, other_than,
    quantity_at, rank, rank_from, remove_order, remove_slot, resident, rests_at, sorted, sweep,
    without,
};
use crate::order::Order;
use crate::sums::{
    lemma_filter_drops_one, lemma_filter_keeps_all, lemma_sum_concat, lemma_sum_insert,
    lemma_sum_remove, lemma_sum_single, lemma_sum_update, lemma_sum_zero,
};
use crate::types::{OrderId, OrderType, Price, Side};

verus! {

/// The place counted from `from` is `at` when every level between the two has
/// a strictly better price and the level at `at`, if there is one, has not.
pub proof fn lemma_rank_from_is(levels: Seq<Level>, side: Side, price: Price, from: int, at: int)
    requires
        0 <= from <= at <= levels.len(),
        forall|k: int| from <= k < at ==> better(side, (#[trigger] levels[k]).price, price),
        at == levels.len() || !better(side, levels[at].price, price),
    ensures
        rank_from(levels, side, price, from) == at,
    decreases at - from,
{
    if from < at {
        lemma_rank_from_is(levels, side, price, from + 1, at);
    }
}

/// The place of a price lies within the ladder, behind every strictly better
/// level and before every other one.
pub proof fn lemma_rank_from_bounds(levels: Seq<Level>, side: Side, price: Price, from: int)
    requires
        0 <= from <= levels.len(),
    ensures
        from <= rank_from(levels, side, price, from) <= levels.len(),
        forall|k: int|
            from <= k < rank_from(levels, side, price, from) ==> better(
                side,
                (#[trigger] levels[k]).price,
                price,
            ),
        rank_from(levels, side, price, from) == levels.len() || !better(
            side,
            levels[rank_from(levels, side, price, from)].price,
            price,
        ),
    decreases levels.len() - from,
{
    if from < levels.len() && better(side, levels[from].price, price) {
        lemma_rank_from_bounds(levels, side, price, from + 1);
    }
}

/// On a sorted ladder the quantity at the price of a level is the quantity of
/// that level.
pub proof fn lemma_quantity_at_level(levels: Seq<Level>, side: Side, at: int)
    requires
        sorted(levels, side),
        0 <= at < levels.len(),
    ensures
        quantity_at(levels, levels[at].price) == levels[at].quantity(),
{
    let price = levels[at].price;
    let rest = levels.remove(at);
    lemma_sum_remove(levels, at, by_quantity_at(price));
    assert forall|i: int| 0 <= i < rest.len() implies by_quantity_at(price)(#[trigger] rest[i])
        == 0 by {
        if i < at {
            assert(rest[i] == levels[i]);
            assert(better(side, levels[i].price, levels[at].price));
        } else {
            assert(rest[i] == levels[i + 1]);
            assert(better(side, levels[at].price, levels[i + 1].price));
        }
    }
    lemma_sum_zero(rest, by_quantity_at(price));
}

/// Where no level has the price, nothing rests at it.
pub proof fn lemma_quantity_at_absent(levels: Seq<Level>, price: Price)
    requires
        forall|i: int| 0 <= i < levels.len() ==> (#[trigger] levels[i]).price != price,
    ensures
        quantity_at(levels, price) == 0,
{
    assert forall|i: int| 0 <= i < levels.len() implies by_quantity_at(price)(#[trigger] levels[i])
        == 0 by {}
    lemma_sum_zero(levels, by_quantity_at(price));
}

/// Taking an order off takes exactly one off the number of orders.
pub proof fn lemma_remove_slot_count(levels: Seq<Level>, level: int, at: int)
    requires
        0 <= level < levels.len(),
        0 <= at < levels[level].orders.len(),
    ensures
        order_count(remove_slot(levels, level, at)) + 1 == order_count(levels),
{
    if levels[level].orders.len() <= 1 {
        lemma_sum_remove(levels, level, by_count());
    } else {
        lemma_sum_update(
            levels,
            level,
            Level { price: levels[level].price, orders: levels[level].orders.remove(at) },
            by_count(),
        );
    }
}

/// Taking an order off takes what was open on it off the quantity of the
/// ladder.
pub proof fn lemma_remove_slot_quantity(levels: Seq<Level>, level: int, at: int)
    requires
        0 <= level < levels.len(),
        0 <= at < levels[level].orders.len(),
    ensures
        ladder_quantity(remove_slot(levels, level, at)) + levels[level].orders[at].remaining()
            == ladder_quantity(levels),
{
    let orders = levels[level].orders;
    lemma_sum_remove(orders, at, by_remaining());
    if orders.len() <= 1 {
        assert(orders.remove(at) =~= Seq::<Order>::empty());
        lemma_sum_remove(levels, level, by_quantity());
    } else {
        lemma_sum_update(
            levels,
            level,
            Level { price: levels[level].price, orders: orders.remove(at) },
            by_quantity(),
        );
    }
}

/// Filling the head order leaves the number of orders as it is, or takes one
/// off when the head is filled.
pub proof fn lemma_fill_front_count(levels: Seq<Level>, amount: nat)
    requires
        levels.len() > 0,
        levels[0].orders.len() > 0,
    ensures
        order_count(fill_front(levels, amount)) + (if levels[0].orders[0].fill_by(amount).filled() {
            1nat
        } else {
            0nat
        }) == order_count(levels),
{
    let head = levels[0].orders[0].fill_by(amount);
    if head.filled() {
        lemma_remove_slot_count(levels, 0, 0);
    } else {
        lemma_sum_update(
            levels,
            0,
            Level { price: levels[0].price, orders: levels[0].orders.update(0, head) },
            by_count(),
        );
    }
}

/// Filling the head order by no more than is open on it takes that amount
/// off the quantity of the ladder.
pub proof fn lemma_fill_front_quantity(levels: Seq<Level>, amount: nat)
    requires
        levels.len() > 0,
        levels[0].orders.len() > 0,
        amount <= levels[0].orders[0].remaining(),
    ensures
        ladder_quantity(fill_front(levels, amount)) + amount == ladder_quantity(levels),
{
    let head = levels[0].orders[0].fill_by(amount);
    if head.filled() {
        lemma_remove_slot_quantity(levels, 0, 0);
    } else {
        let orders = levels[0].orders;
        lemma_sum_update(orders, 0, head, by_remaining());
        lemma_sum_update(
            levels,
            0,
            Level { price: levels[0].price, orders: orders.update(0, head) },
            by_quantity(),
        );
    }
}

/// An order that joins the ladder adds one to the number of orders and what
/// is open on it to the quantity of the ladder.
pub proof fn lemma_insert_order_sums(levels: Seq<Level>, side: Side, order: Order)
    ensures
        order_count(insert_order(levels, side, order)) == order_count(levels) + 1,
        ladder_quantity(insert_order(levels, side, order)) == ladder_quantity(levels)
            + order.remaining(),
{
    let at = rank(levels, side, order.price);
    lemma_rank_from_bounds(levels, side, order.price, 0);
    if 0 <= at < levels.len() && levels[at].price == order.price {
        let level = levels[at].push(order);
        assert(level.orders.drop_last() =~= levels[at].orders);
        lemma_sum_update(levels, at, level, by_count());
        lemma_sum_update(levels, at, level, by_quantity());
    } else {
        lemma_sum_single(order, by_remaining());
        lemma_sum_insert(levels, at, Level::single(order), by_count());
        lemma_sum_insert(levels, at, Level::single(order), by_quantity());
    }
}

/// A well-formed ladder stays well formed when an order of its side joins it,
/// provided the identifier is new to the ladder and the level has room for
/// the quantity.
pub proof fn lemma_insert_order_wf(levels: Seq<Level>, side: Side, order: Order)
    requires
        ladder_wf(levels, side),
        rests_at(order, side, order.price),
        !resident(levels, order.id),
        quantity_at(levels, order.price) + order.remaining() <= u32::MAX,
    ensures
        ladder_wf(insert_order(levels, side, order), side),
{
    let at = rank(levels, side, order.price);
    let after = insert_order(levels, side, order);
    lemma_rank_from_bounds(levels, side, order.price, 0);
    if 0 <= at < levels.len() && levels[at].price == order.price {
        let level = levels[at].push(order);
        lemma_quantity_at_level(levels, side, at);
        assert(level.orders.drop_last() =~= levels[at].orders);
        assert(level_wf(levels[at], side));
        assert(level_wf(level, side));
        assert forall|i: int| 0 <= i < after.len() implies level_wf(#[trigger] after[i], side) by {
            if i != at {
                assert(after[i] == levels[i]);
            }
        }
        assert forall|i: int, j: int| 0 <= i < j < after.len() implies better(
            side,
            (#[trigger] after[i]).price,
            (#[trigger] after[j]).price,
        ) by {
            assert(after[i].price == levels[i].price);
            assert(after[j].price == levels[j].price);
        }
        assert forall|i: int, j: int, k: int, l: int|
            0 <= i < after.len() && 0 <= j < after[i].orders.len() && 0 <= k < after.len() && 0 <= l
                < after[k].orders.len() && (#[trigger] after[i].orders[j]).id == (
            #[trigger] after[k].orders[l]).id implies i == k && j == l by {
            let new_a = i == at && j == levels[at].orders.len();
            let new_b = k == at && l == levels[at].orders.len();
            if !new_a {
                assert(after[i].orders[j] == levels[i].orders[j]);
            }
            if !new_b {
                assert(after[k].orders[l] == levels[k].orders[l]);
            }
        }
    } else {
        let level = Level::single(order);
        lemma_sum_single(order, by_remaining());
        assert(level_wf(level, side));
        assert forall|i: int| 0 <= i < after.len() implies level_wf(#[trigger] after[i], side) by {
            if i < at {
                assert(after[i] == levels[i]);
            } else if i > at {
                assert(after[i] == levels[i - 1]);
            }
        }
        assert forall|i: int, j: int| 0 <= i < j < after.len() implies better(
            side,
            (#[trigger] after[i]).price,
            (#[trigger] after[j]).price,
        ) by {
            let pi = if i < at { i } else { i - 1 };
            let pj = if j < at { j } else { j - 1 };
            if i != at {
                assert(after[i] == levels[pi]);
            }
            if j != at {
                assert(after[j] == levels[pj]);
            }
            if i == at {
                assert(levels[at].price != order.price);
                if pj > at {
                    assert(better(side, levels[at].price, levels[pj].price));
                }
            } else if j == at {
                assert(better(side, levels[pi].price, order.price));
            } else {
                assert(better(side, levels[pi].price, levels[pj].price));
            }
        }
        assert forall|i: int, j: int, k: int, l: int|
            0 <= i < after.len() && 0 <= j < after[i].orders.len() && 0 <= k < after.len() && 0 <= l
                < after[k].orders.len() && (#[trigger] after[i].orders[j]).id == (
            #[trigger] after[k].orders[l]).id implies i == k && j == l by {
            let pi = if i < at { i } else { i - 1 };
            let pk = if k < at { k } else { k - 1 };
            if i != at {
                assert(after[i].orders[j] == levels[pi].orders[j]);
            }
            if k != at {
                assert(after[k].orders[l] == levels[pk].orders[l]);
            }
        }
    }
}

/// A well-formed ladder stays well formed when an order is taken off.
pub proof fn lemma_remove_slot_wf(levels: Seq<Level>, side: Side, level: int, at: int)
    requires
        ladder_wf(levels, side),
        0 <= level < levels.len(),
        0 <= at < levels[level].orders.len(),
    ensures
        ladder_wf(remove_slot(levels, level, at), side),
{
    let after = remove_slot(levels, level, at);
    assert(level_wf(levels[level], side));
    if levels[level].orders.len() <= 1 {
        assert forall|i: int| 0 <= i < after.len() implies level_wf(#[trigger] after[i], side) by {
            let pi = if i < level { i } else { i + 1 };
            assert(after[i] == levels[pi]);
        }
        assert forall|i: int, j: int| 0 <= i < j < after.len() implies better(
            side,
            (#[trigger] after[i]).price,
            (#[trigger] after[j]).price,
        ) by {
            let pi = if i < level { i } else { i + 1 };
            let pj = if j < level { j } else { j + 1 };
            assert(after[i] == levels[pi]);
            assert(after[j] == levels[pj]);
        }
        assert forall|i: int, j: int, k: int, l: int|
            0 <= i < after.len() && 0 <= j < after[i].orders.len() && 0 <= k < after.len() && 0 <= l
                < after[k].orders.len() && (#[trigger] after[i].orders[j]).id == (
            #[trigger] after[k].orders[l]).id implies i == k && j == l by {
            let pi = if i < level { i } else { i + 1 };
            let pk = if k < level { k } else { k + 1 };
            assert(after[i].orders[j] == levels[pi].orders[j]);
            assert(after[k].orders[l] == levels[pk].orders[l]);
        }
    } else {
        let left = after[level];
        lemma_sum_remove(levels[level].orders, at, by_remaining());
        assert forall|j: int| 0 <= j < left.orders.len() implies rests_at(
            #[trigger] left.orders[j],
            side,
            left.price,
        ) by {
            let pj = if j < at { j } else { j + 1 };
            assert(left.orders[j] == levels[level].orders[pj]);
        }
        assert(level_wf(left, side));
        assert forall|i: int| 0 <= i < after.len() implies level_wf(#[trigger] after[i], side) by {
            if i != level {
                assert(after[i] == levels[i]);
            }
        }
        assert forall|i: int, j: int| 0 <= i < j < after.len() implies better(
            side,
            (#[trigger] after[i]).price,
            (#[trigger] after[j]).price,
        ) by {
            assert(after[i].price == levels[i].price);
            assert(after[j].price == levels[j].price);
        }
        assert forall|i: int, j: int, k: int, l: int|
            0 <= i < after.len() && 0 <= j < after[i].orders.len() && 0 <= k < after.len() && 0 <= l
                < after[k].orders.len() && (#[trigger] after[i].orders[j]).id == (
            #[trigger] after[k].orders[l]).id implies i == k && j == l by {
            let pj = if i == level && j >= at { j + 1 } else { j };
            let pl = if k == level && l >= at { l + 1 } else { l };
            assert(after[i].orders[j] == levels[i].orders[pj]);
            assert(after[k].orders[l] == levels[k].orders[pl]);
        }
    }
}

/// A well-formed ladder stays well formed when its head order is filled.
pub proof fn lemma_fill_front_wf(levels: Seq<Level>, side: Side, amount: nat)
    requires
        ladder_wf(levels, side),
        levels.len() > 0,
    ensures
        ladder_wf(fill_front(levels, amount), side),
{
    let after = fill_front(levels, amount);
    let head = levels[0].orders[0].fill_by(amount);
    assert(level_wf(levels[0], side));
    if head.filled() {
        lemma_remove_slot_wf(levels, side, 0, 0);
    } else {
        let level = after[0];
        lemma_sum_update(levels[0].orders, 0, head, by_remaining());
        assert(rests_at(levels[0].orders[0], side, levels[0].price));
        assert forall|j: int| 0 <= j < level.orders.len() implies rests_at(
            #[trigger] level.orders[j],
            side,
            level.price,
        ) by {
            if j > 0 {
                assert(level.orders[j] == levels[0].orders[j]);
            }
        }
        assert(level_wf(level, side));
        assert forall|i: int| 0 <= i < after.len() implies level_wf(#[trigger] after[i], side) by {
            if i > 0 {
                assert(after[i] == levels[i]);
            }
        }
        assert forall|i: int, j: int| 0 <= i < j < after.len() implies better(
            side,
            (#[trigger] after[i]).price,
            (#[trigger] after[j]).price,
        ) by {
            assert(after[i].price == levels[i].price);
            assert(after[j].price == levels[j].price);
        }
        assert forall|i: int, j: int, k: int, l: int|
            0 <= i < after.len() && 0 <= j < after[i].orders.len() && 0 <= k < after.len() && 0 <= l
                < after[k].orders.len() && (#[trigger] after[i].orders[j]).id == (
            #[trigger] after[k].orders[l]).id implies i == k && j == l by {
            assert(after[i].orders[j].id == levels[i].orders[j].id);
            assert(after[k].orders[l].id == levels[k].orders[l].id);
        }
    }
}

/// On a well-formed ladder, removing by identifier takes off the one order
/// that carries it.
pub proof fn lemma_remove_order_is_slot(levels: Seq<Level>, side: Side, level: int, at: int)
    requires
        ladder_wf(levels, side),
        0 <= level < levels.len(),
        0 <= at < levels[level].orders.len(),
    ensures
        remove_order(levels, levels[level].orders[at].id) == remove_slot(levels, level, at),
{
    let id = levels[level].orders[at].id;
    let orders = levels[level].orders;
    let stripped = levels.map_values(without(id));
    let left = Level { price: levels[level].price, orders: orders.remove(at) };
    assert forall|j: int| 0 <= j < orders.len() && j != at implies other_than(id)(
        #[trigger] orders[j],
    ) by {
        assert(levels[level].orders[j].id != levels[level].orders[at].id);
    }
    lemma_filter_drops_one(orders, other_than(id), at);
    assert forall|i: int| 0 <= i < levels.len() && i != level implies #[trigger] stripped[i]
        == levels[i] by {
        assert forall|j: int| 0 <= j < levels[i].orders.len() implies other_than(id)(
            #[trigger] levels[i].orders[j],
        ) by {
            assert(levels[i].orders[j].id != levels[level].orders[at].id);
        }
        lemma_filter_keeps_all(levels[i].orders, other_than(id));
    }
    assert(stripped[level] == left);
    assert(stripped =~= levels.update(level, left));
    assert forall|i: int| 0 <= i < stripped.len() && i != level implies occupied()(
        #[trigger] stripped[i],
    ) by {
        assert(level_wf(levels[i], side));
    }
    if orders.len() <= 1 {
        lemma_filter_drops_one(stripped, occupied(), level);
        assert(stripped.remove(level) =~= levels.remove(level));
    } else {
        lemma_filter_keeps_all(stripped, occupied());
    }
}

/// Removing an identifier that rests nowhere leaves a ladder without empty
/// levels as it is.
pub proof fn lemma_remove_order_absent(levels: Seq<Level>, id: OrderId)
    requires
        forall|i: int| 0 <= i < levels.len() ==> (#[trigger] levels[i]).orders.len() > 0,
        !resident(levels, id),
    ensures
        remove_order(levels, id) == levels,
{
    let stripped = levels.map_values(without(id));
    assert forall|i: int| 0 <= i < levels.len() implies #[trigger] stripped[i] == levels[i] by {
        assert forall|j: int| 0 <= j < levels[i].orders.len() implies other_than(id)(
            #[trigger] levels[i].orders[j],
        ) by {}
        lemma_filter_keeps_all(levels[i].orders, other_than(id));
    }
    assert(stripped =~= levels);
    lemma_filter_keeps_all(levels, occupied());
}

/// An order rests somewhere on the ladder exactly when it rests at some price.
pub proof fn lemma_resident_holds(levels: Seq<Level>, id: OrderId)
    ensures
        resident(levels, id) <==> exists|price: Price| holds(levels, id, price),
{
    if resident(levels, id) {
        let (i, j) = choose|i: int, j: int|
            0 <= i < levels.len() && 0 <= j < levels[i].orders.len() && (
            #[trigger] levels[i].orders[j]).id == id;
        assert(holds(levels, id, levels[i].price));
    }
}

/// What rests where after an order joined the ladder: what rested there
/// before, and the order at its price.
pub proof fn lemma_insert_order_holds(levels: Seq<Level>, side: Side, order: Order)
    ensures
        forall|id: OrderId, price: Price| #[trigger]
            holds(insert_order(levels, side, order), id, price) <==> holds(levels, id, price) || (id
                == order.id && price == order.price),
{
    let at = rank(levels, side, order.price);
    let after = insert_order(levels, side, order);
    let joined = 0 <= at < levels.len() && levels[at].price == order.price;
    lemma_rank_from_bounds(levels, side, order.price, 0);
    assert forall|id: OrderId, price: Price| #[trigger]
        holds(after, id, price) <==> holds(levels, id, price) || (id == order.id && price
            == order.price) by {
        if holds(levels, id, price) {
            let (i, j) = choose|i: int, j: int|
                0 <= i < levels.len() && 0 <= j < levels[i].orders.len() && levels[i].price == price
                    && (#[trigger] levels[i].orders[j]).id == id;
            let ni = if joined || i < at { i } else { i + 1 };
            assert(after[ni].price == price && after[ni].orders[j].id == id);
        }
        if id == order.id && price == order.price {
            let nj = if joined { levels[at].orders.len() as int } else { 0 };
            assert(after[at].price == price && after[at].orders[nj].id == id);
        }
        if holds(after, id, price) {
            let (i, j) = choose|i: int, j: int|
                0 <= i < after.len() && 0 <= j < after[i].orders.len() && after[i].price == price
                    && (#[trigger] after[i].orders[j]).id == id;
            let fresh = i == at && (if joined { j == levels[at].orders.len() } else { true });
            if !fresh {
                let pi = if joined || i < at { i } else { i - 1 };
                assert(levels[pi].price == price && levels[pi].orders[j].id == id);
            }
        }
    }
}

/// What rests where after an order was taken off a well-formed ladder: what
/// rested there before, except that order.
pub proof fn lemma_remove_slot_holds(levels: Seq<Level>, side: Side, level: int, at: int)
    requires
        ladder_wf(levels, side),
        0 <= level < levels.len(),
        0 <= at < levels[level].orders.len(),
    ensures
        forall|id: OrderId, price: Price| #[trigger]
            holds(remove_slot(levels, level, at), id, price) <==> holds(levels, id, price) && id
                != levels[level].orders[at].id,
{
    let after = remove_slot(levels, level, at);
    let gone = levels[level].orders[at].id;
    let emptied = levels[level].orders.len() <= 1;
    assert forall|id: OrderId, price: Price| #[trigger]
        holds(after, id, price) <==> holds(levels, id, price) && id != gone by {
        if holds(levels, id, price) && id != gone {
            let (i, j) = choose|i: int, j: int|
                0 <= i < levels.len() && 0 <= j < levels[i].orders.len() && levels[i].price == price
                    && (#[trigger] levels[i].orders[j]).id == id;
            let ni = if emptied && i > level { i - 1 } else { i };
            let nj = if !emptied && i == level && j > at { j - 1 } else { j };
            assert(after[ni].price == price && after[ni].orders[nj].id == id);
        }
        if holds(after, id, price) {
            let (i, j) = choose|i: int, j: int|
                0 <= i < after.len() && 0 <= j < after[i].orders.len() && after[i].price == price
                    && (#[trigger] after[i].orders[j]).id == id;
            let pi = if emptied && i >= level { i + 1 } else { i };
            let pj = if !emptied && i == level && j >= at { j + 1 } else { j };
            assert(levels[pi].price == price && levels[pi].orders[pj].id == id);
            assert(levels[pi].orders[pj].id == levels[level].orders[at].id ==> pi == level && pj
                == at);
        }
    }
}

/// What rests where after the head order was filled on a well-formed ladder:
/// what rested there before, except the head order where the fill completed it.
pub proof fn lemma_fill_front_holds(levels: Seq<Level>, side: Side, amount: nat)
    requires
        ladder_wf(levels, side),
        levels.len() > 0,
    ensures
        forall|id: OrderId, price: Price| #[trigger]
            holds(fill_front(levels, amount), id, price) <==> holds(levels, id, price) && !(
            levels[0].orders[0].fill_by(amount).filled() && id == levels[0].orders[0].id),
{
    let after = fill_front(levels, amount);
    assert(level_wf(levels[0], side));
    if levels[0].orders[0].fill_by(amount).filled() {
        lemma_remove_slot_holds(levels, side, 0, 0);
    } else {
        assert forall|id: OrderId, price: Price| #[trigger]
            holds(after, id, price) <==> holds(levels, id, price) by {
            if holds(levels, id, price) {
                let (i, j) = choose|i: int, j: int|
                    0 <= i < levels.len() && 0 <= j < levels[i].orders.len() && levels[i].price
                        == price && (#[trigger] levels[i].orders[j]).id == id;
                assert(after[i].price == price && after[i].orders[j].id == id);
            }
            if holds(after, id, price) {
                let (i, j) = choose|i: int, j: int|
                    0 <= i < after.len() && 0 <= j < after[i].orders.len() && after[i].price
                        == price && (#[trigger] after[i].orders[j]).id == id;
                assert(levels[i].price == price && levels[i].orders[j].id == id);
            }
        }
    }
}

/// The depth within a limit over the leading levels only, where the level
/// behind them is out of reach: on a sorted ladder that is the whole depth.
pub proof fn lemma_depth_within_prefix(levels: Seq<Level>, side: Side, limit: Price, upto: int)
    requires
        sorted(levels, side.opposite()),
        0 <= upto <= levels.len(),
        upto == levels.len() || !crosses(side, limit, levels[upto].price),
    ensures
        depth_within(levels, side, limit) == depth_within(levels.take(upto), side, limit),
{
    let front = levels.take(upto);
    let back = levels.skip(upto);
    assert(levels =~= front + back);
    lemma_sum_concat(front, back, by_quantity_within(side, limit));
    assert forall|i: int| 0 <= i < back.len() implies by_quantity_within(side, limit)(
        #[trigger] back[i],
    ) == 0 by {
        assert(back[i] == levels[upto + i]);
        if i > 0 {
            assert(better(side.opposite(), levels[upto].price, levels[upto + i].price));
        }
    }
    lemma_sum_zero(back, by_quantity_within(side, limit));
}

/// The depth within a limit never exceeds the depth of a longer run of levels.
pub proof fn lemma_depth_within_grows(levels: Seq<Level>, side: Side, limit: Price, upto: int)
    requires
        0 <= upto <= levels.len(),
    ensures
        depth_within(levels.take(upto), side, limit) <= depth_within(levels, side, limit),
{
    assert(levels =~= levels.take(upto) + levels.skip(upto));
    lemma_sum_concat(levels.take(upto), levels.skip(upto), by_quantity_within(side, limit));
}

/// Taking an order off a sorted ladder never brings a better price to the
/// front.
pub proof fn lemma_remove_slot_best(levels: Seq<Level>, side: Side, level: int, at: int)
    requires
        sorted(levels, side),
        0 <= level < levels.len(),
        0 <= at < levels[level].orders.len(),
    ensures
        remove_slot(levels, level, at).len() > 0 ==> !better(
            side,
            remove_slot(levels, level, at)[0].price,
            levels[0].price,
        ),
{
    let after = remove_slot(levels, level, at);
    if after.len() > 0 && after[0].price != levels[0].price {
        assert(after[0] == levels[1]);
        assert(better(side, levels[0].price, levels[1].price));
    }
}

/// No level of a well-formed ladder is empty.
pub proof fn lemma_wf_populated(levels: Seq<Level>, side: Side)
    requires
        ladder_wf(levels, side),
    ensures
        forall|i: int| 0 <= i < levels.len() ==> (#[trigger] levels[i]).orders.len() > 0,
{
    assert forall|i: int| 0 <= i < levels.len() implies (#[trigger] levels[i]).orders.len() > 0 by {
        assert(level_wf(levels[i], side));
    }
}

/// First in, first out: on a sorted ladder an order that joins a level that
/// exists stands behind every order of that level, and the orders ahead of it
/// keep their places.
pub proof fn lemma_insert_order_behind(levels: Seq<Level>, side: Side, order: Order, at: int)
    requires
        sorted(levels, side),
        0 <= at < levels.len(),
        levels[at].price == order.price,
    ensures
        insert_order(levels, side, order) == levels.update(at, levels[at].push(order)),
        insert_order(levels, side, order)[at].orders.last() == order,
        insert_order(levels, side, order)[at].orders.drop_last() == levels[at].orders,
{
    assert forall|k: int| 0 <= k < at implies better(side, (#[trigger] levels[k]).price, order.price) by {
        assert(better(side, levels[k].price, levels[at].price));
    }
    lemma_rank_from_is(levels, side, order.price, 0, at);
    assert(levels[at].push(order).orders.drop_last() =~= levels[at].orders);
}

/// Taking the head order off a ladder whose best level is within a limit
/// takes what was open on it off the depth within that limit.
pub proof fn lemma_drop_front_depth(levels: Seq<Level>, side: Side, limit: Price)
    requires
        levels.len() > 0,
        levels[0].orders.len() > 0,
        crosses(side, limit, levels[0].price),
    ensures
        depth_within(drop_front(levels), side, limit) + levels[0].orders[0].remaining()
            == depth_within(levels, side, limit),
{
    let orders = levels[0].orders;
    lemma_sum_remove(orders, 0, by_remaining());
    if orders.len() <= 1 {
        assert(orders.remove(0) =~= Seq::<Order>::empty());
        lemma_sum_remove(levels, 0, by_quantity_within(side, limit));
    } else {
        lemma_sum_update(
            levels,
            0,
            Level { price: levels[0].price, orders: orders.remove(0) },
            by_quantity_within(side, limit),
        );
    }
}

/// Where there is depth within a limit on a sorted ladder, the best level is
/// within the limit.
pub proof fn lemma_depth_reaches_front(levels: Seq<Level>, side: Side, limit: Price)
    requires
        sorted(levels, side.opposite()),
        depth_within(levels, side, limit) > 0,
    ensures
        levels.len() > 0,
        crosses(side, limit, levels[0].price),
{
    if levels.len() == 0 || !crosses(side, limit, levels[0].price) {
        lemma_depth_within_prefix(levels, side, limit, 0);
        assert(levels.take(0) =~= Seq::<Level>::empty());
    }
}

/// An order that can trade against the best price of an uncrossed opposite
/// side finds no level at its price on its own side, and opens one ahead of
/// every other.
pub proof fn lemma_crossing_order_leads(
    own: Seq<Level>,
    other: Seq<Level>,
    side: Side,
    order: Order,
)
    requires
        sorted(own, side),
        other.len() > 0,
        crosses(side, order.price, other[0].price),
        own.len() > 0 ==> !crosses(side, own[0].price, other[0].price),
    ensures
        insert_order(own, side, order) == own.insert(0, Level::single(order)),
        quantity_at(own, order.price) == 0,
{
    lemma_rank_from_is(own, side, order.price, 0, 0);
    assert forall|i: int| 0 <= i < own.len() implies (#[trigger] own[i]).price != order.price by {
        if i > 0 {
            assert(better(side, own[0].price, own[i].price));
        }
    }
    lemma_quantity_at_absent(own, order.price);
}

/// A ladder without Fill-and-Kill orders stays so when an order of another
/// type joins it.
pub proof fn lemma_insert_order_calm(levels: Seq<Level>, side: Side, order: Order)
    requires
        calm(levels),
        order.order_type != OrderType::FillAndKill,
    ensures
        calm(insert_order(levels, side, order)),
{
    let at = rank(levels, side, order.price);
    let after = insert_order(levels, side, order);
    let joined = 0 <= at < levels.len() && levels[at].price == order.price;
    lemma_rank_from_bounds(levels, side, order.price, 0);
    assert forall|i: int, j: int|
        0 <= i < after.len() && 0 <= j < after[i].orders.len() implies (
    #[trigger] after[i].orders[j]).order_type != OrderType::FillAndKill by {
        let fresh = i == at && (if joined { j == levels[at].orders.len() } else { true });
        if !fresh {
            let pi = if joined || i < at { i } else { i - 1 };
            assert(after[i].orders[j] == levels[pi].orders[j]);
        }
    }
}

/// Behind an order that opens a level ahead of a ladder without Fill-and-Kill
/// orders, no Fill-and-Kill order rests.
pub proof fn lemma_lead_calm_behind(levels: Seq<Level>, order: Order)
    requires
        calm(levels),
    ensures
        calm_behind_head(levels.insert(0, Level::single(order))),
{
    let after = levels.insert(0, Level::single(order));
    assert forall|i: int, j: int|
        0 <= i < after.len() && 0 <= j < after[i].orders.len() && (i > 0 || j > 0) implies (
    #[trigger] after[i].orders[j]).order_type != OrderType::FillAndKill by {
        assert(after[i].orders[j] == levels[i - 1].orders[j]);
    }
}

/// Taking an order off keeps a ladder free of Fill-and-Kill orders, and
/// free of them behind its head.
pub proof fn lemma_remove_slot_calm(levels: Seq<Level>, level: int, at: int)
    requires
        0 <= level < levels.len(),
        0 <= at < levels[level].orders.len(),
    ensures
        calm(levels) ==> calm(remove_slot(levels, level, at)),
        calm_behind_head(levels) && level == 0 && at == 0 ==> calm(remove_slot(levels, level, at)),
{
    let after = remove_slot(levels, level, at);
    let emptied = levels[level].orders.len() <= 1;
    if calm(levels) || (calm_behind_head(levels) && level == 0 && at == 0) {
        assert forall|i: int, j: int|
            0 <= i < after.len() && 0 <= j < after[i].orders.len() implies (
        #[trigger] after[i].orders[j]).order_type != OrderType::FillAndKill by {
            let pi = if emptied && i >= level { i + 1 } else { i };
            let pj = if !emptied && i == level && j >= at { j + 1 } else { j };
            assert(after[i].orders[j] == levels[pi].orders[pj]);
        }
    }
}

/// Filling the head order keeps a ladder free of Fill-and-Kill orders behind
/// its head.
pub proof fn lemma_fill_front_calm_behind(levels: Seq<Level>, amount: nat)
    requires
        calm_behind_head(levels),
        levels.len() > 0,
        levels[0].orders.len() > 0,
    ensures
        calm_behind_head(fill_front(levels, amount)),
{
    let after = fill_front(levels, amount);
    if levels[0].orders[0].fill_by(amount).filled() {
        lemma_remove_slot_calm(levels, 0, 0);
    } else {
        assert forall|i: int, j: int|
            0 <= i < after.len() && 0 <= j < after[i].orders.len() && (i > 0 || j > 0) implies (
        #[trigger] after[i].orders[j]).order_type != OrderType::FillAndKill by {
            assert(after[i].orders[j] == levels[i].orders[j]);
        }
    }
}

/// After the sweep no Fill-and-Kill order rests on a ladder that held none
/// behind its head.
pub proof fn lemma_sweep_calm(levels: Seq<Level>)
    requires
        calm_behind_head(levels),
        forall|i: int| 0 <= i < levels.len() ==> (#[trigger] levels[i]).orders.len() > 0,
    ensures
        calm(sweep(levels)),
{
    if levels.len() > 0 {
        if levels[0].orders[0].order_type == OrderType::FillAndKill {
            lemma_remove_slot_calm(levels, 0, 0);
        } else {
            assert forall|i: int, j: int|
                0 <= i < levels.len() && 0 <= j < levels[i].orders.len() implies (
            #[trigger] levels[i].orders[j]).order_type != OrderType::FillAndKill by {}
        }
    }
}

/// Two well-formed ladders whose best prices do not cross still do not
/// cross after the sweep.
pub proof fn lemma_sweep_keeps_apart(bids: Seq<Level>, asks: Seq<Level>)
    requires
        ladder_wf(bids, Side::Buy),
        ladder_wf(asks, Side::Sell),
        bids.len() > 0 && asks.len() > 0 ==> bids[0].price < asks[0].price,
    ensures
        sweep(bids).len() > 0 && sweep(asks).len() > 0 ==> sweep(bids)[0].price < sweep(
            asks,
        )[0].price,
{
    let swept_bids = sweep(bids);
    let swept_asks = sweep(asks);
    if swept_bids.len() > 0 && swept_asks.len() > 0 {
        assert(level_wf(bids[0], Side::Buy));
        assert(level_wf(asks[0], Side::Sell));
        if swept_bids[0].price != bids[0].price {
            assert(swept_bids[0] == bids[1]);
            assert(better(Side::Buy, bids[0].price, bids[1].price));
        }
        if swept_asks[0].price != asks[0].price {
            assert(swept_asks[0] == asks[1]);
            assert(better(Side::Sell, asks[0].price, asks[1].price));
        }
    }
}

/// Filling the head order keeps a ladder free of Fill-and-Kill orders.
pub proof fn lemma_fill_front_calm(levels: Seq<Level>, amount: nat)
    requires
        calm(levels),
        levels.len() > 0,
        levels[0].orders.len() > 0,
    ensures
        calm(fill_front(levels, amount)),
{
    let after = fill_front(levels, amount);
    if levels[0].orders[0].fill_by(amount).filled() {
        lemma_remove_slot_calm(levels, 0, 0);
    } else {
        assert forall|i: int, j: int|
            0 <= i < after.len() && 0 <= j < after[i].orders.len() implies (
        #[trigger] after[i].orders[j]).order_type != OrderType::FillAndKill by {
            assert(after[i].orders[j].order_type == levels[i].orders[j].order_type);
        }
    }
}

/// The sweep only takes an order off: what rests after it rested before.
pub proof fn lemma_sweep_keeps(levels: Seq<Level>, side: Side)
    requires
        ladder_wf(levels, side),
    ensures
        forall|id: OrderId| #[trigger] resident(sweep(levels), id) ==> resident(levels, id),
{
    if sweep(levels) != levels {
        assert(level_wf(levels[0], side));
        lemma_remove_slot_holds(levels, side, 0, 0);
        assert forall|id: OrderId| #[trigger] resident(sweep(levels), id) implies resident(
            levels,
            id,
        ) by {
            lemma_resident_holds(sweep(levels), id);
            lemma_resident_holds(levels, id);
        }
    }
}

/// A well-formed ladder stays well formed under the sweep.
pub proof fn lemma_sweep_wf(levels: Seq<Level>, side: Side)
    requires
        ladder_wf(levels, side),
    ensures
        ladder_wf(sweep(levels), side),
{
    if sweep(levels) != levels {
        assert(level_wf(levels[0], side));
        lemma_remove_slot_wf(levels, side, 0, 0);
    }
}

/// An order rests on the ladder after it joined, and whatever rested before
/// still does; nothing else rests there.
pub proof fn lemma_insert_order_residents(levels: Seq<Level>, side: Side, order: Order)
    ensures
        forall|id: OrderId| #[trigger]
            resident(insert_order(levels, side, order), id) <==> resident(levels, id) || id
                == order.id,
{
    lemma_insert_order_holds(levels, side, order);
    let after = insert_order(levels, side, order);
    assert forall|id: OrderId| #[trigger]
        resident(after, id) <==> resident(levels, id) || id == order.id by {
        lemma_resident_holds(after, id);
        lemma_resident_holds(levels, id);
        if resident(after, id) {
            let price = choose|price: Price| holds(after, id, price);
            if !(id == order.id) {
                assert(holds(levels, id, price));
            }
        }
        if resident(levels, id) {
            let price = choose|price: Price| holds(levels, id, price);
            assert(holds(after, id, price));
        }
        if id == order.id {
            assert(holds(after, id, order.price));
        }
    }
}

/// On a well-formed ladder, removing by identifier keeps the ladder well
/// formed and free of Fill-and-Kill orders, brings no better price to the
/// front, and takes off the named order only.
pub proof fn lemma_remove_order_wf(levels: Seq<Level>, side: Side, id: OrderId)
    requires
        ladder_wf(levels, side),
    ensures
        ladder_wf(remove_order(levels, id), side),
        calm(levels) ==> calm(remove_order(levels, id)),
        remove_order(levels, id).len() > 0 ==> levels.len() > 0 && !better(
            side,
            remove_order(levels, id)[0].price,
            levels[0].price,
        ),
        forall|other: OrderId| #[trigger]
            resident(remove_order(levels, id), other) <==> resident(levels, other) && other != id,
{
    lemma_wf_populated(levels, side);
    if resident(levels, id) {
        let (i, j) = choose|i: int, j: int|
            0 <= i < levels.len() && 0 <= j < levels[i].orders.len() && (
            #[trigger] levels[i].orders[j]).id == id;
        lemma_remove_order_is_slot(levels, side, i, j);
        lemma_remove_slot_wf(levels, side, i, j);
        lemma_remove_slot_calm(levels, i, j);
        lemma_remove_slot_best(levels, side, i, j);
        lemma_remove_slot_holds(levels, side, i, j);
        let after = remove_order(levels, id);
        assert forall|other: OrderId| #[trigger]
            resident(after, other) <==> resident(levels, other) && other != id by {
            lemma_resident_holds(after, other);
            lemma_resident_holds(levels, other);
            if resident(after, other) {
                let price = choose|price: Price| holds(after, other, price);
                assert(holds(levels, other, price));
            }
            if resident(levels, other) && other != id {
                let price = choose|price: Price| holds(levels, other, price);
                assert(holds(after, other, price));
            }
        }
    } else {
        lemma_remove_order_absent(levels, id);
    }
}

/// On a well-formed ladder the order found under an identifier is the one
/// that rests there.
pub proof fn lemma_lookup_finds(levels: Seq<Level>, side: Side, order: Order)
    requires
        ladder_wf(levels, side),
        exists|i: int, j: int|
            0 <= i < levels.len() && 0 <= j < levels[i].orders.len() && #[trigger] levels[i].orders[j]
                == order,
    ensures
        resident(levels, order.id),
        lookup(levels, order.id) == order,
{
    let (i, j) = choose|i: int, j: int|
        0 <= i < levels.len() && 0 <= j < levels[i].orders.len() && #[trigger] levels[i].orders[j]
            == order;
    assert(levels[i].orders[j].id == order.id);
    let (k, l) = choose|k: int, l: int|
        0 <= k < levels.len() && 0 <= l < levels[k].orders.len() && (
        #[trigger] levels[k].orders[l]).id == order.id;
    assert(levels[k].orders[l].id == levels[i].orders[j].id);
}

} // verus!
