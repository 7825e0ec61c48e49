//! The crossing of the two ladders under price-time priority.

use vstd::prelude::*;
use crate::ladder::{
    better, calm, calm_behind_head, crosses, depth_within, drop_front, drop_many, fill_front,
    holds, ladder_quantity, ladder_wf, Level, level_wf, order_count, resident, rests_at, touch,
};
use crate::ladder_lemmas::{
    lemma_depth_reaches_front, lemma_drop_front_depth, lemma_fill_front_calm,
    lemma_fill_front_calm_behind, lemma_fill_front_count, lemma_fill_front_holds,
    lemma_fill_front_quantity, lemma_fill_front_wf, lemma_resident_holds, lemma_wf_populated,
};
use crate::sums::{lemma_sum_concat, lemma_sum_single, sum_by};
use crate::trade::{Trade, TradeInfo};
use crate::types::{OrderId, Price, Quantity, Side};

verus! {

/// What crossing leaves: both ladders and the trades, oldest first.
pub struct Crossing {
    pub bids: Seq<Level>,
    pub asks: Seq<Level>,
    pub trades: Seq<Trade>,
}

/// No level of the ladder is empty.
pub open spec fn populated(levels: Seq<Level>) -> bool {
    forall|i: int| 0 <= i < levels.len() ==> (#[trigger] levels[i]).orders.len() > 0
}

/// True when the best bid can trade against the best ask.
pub open spec fn crossed(bids: Seq<Level>, asks: Seq<Level>) -> bool {
    bids.len() > 0 && asks.len() > 0 && bids[0].price >= asks[0].price
}

/// The quantity that the two orders at the heads of the best levels trade:
/// the smaller of what is open on each.
pub open spec fn match_amount(bids: Seq<Level>, asks: Seq<Level>) -> nat {
    let bid = bids[0].orders[0].remaining();
    let ask = asks[0].orders[0].remaining();
    if bid <= ask { bid } else { ask }
}

/// The trade between the two orders at the heads of the best levels. Each leg
/// reports its own order's price.
pub open spec fn match_trade(bids: Seq<Level>, asks: Seq<Level>) -> Trade {
    let bid = bids[0].orders[0];
    let ask = asks[0].orders[0];
    let quantity = match_amount(bids, asks) as Quantity;
    Trade {
        bid_info: TradeInfo { order_id: bid.id, price: bid.price, quantity },
        ask_info: TradeInfo { order_id: ask.id, price: ask.price, quantity },
    }
}

/// Matches the heads of the best bid and best ask levels against each other
/// for as long as the best bid price reaches the best ask price.
pub open spec fn cross(bids: Seq<Level>, asks: Seq<Level>) -> Crossing
    decreases order_count(bids) + order_count(asks),
    when populated(bids) && populated(asks)
    via cross_terminates
{
    if crossed(bids, asks) {
        let amount = match_amount(bids, asks);
        let rest = cross(fill_front(bids, amount), fill_front(asks, amount));
        Crossing {
            bids: rest.bids,
            asks: rest.asks,
            trades: seq![match_trade(bids, asks)] + rest.trades,
        }
    } else {
        Crossing { bids, asks, trades: Seq::empty() }
    }
}

#[via_fn]
proof fn cross_terminates(bids: Seq<Level>, asks: Seq<Level>) {
    if crossed(bids, asks) {
        let amount = match_amount(bids, asks);
        lemma_fill_front_count(bids, amount);
        lemma_fill_front_count(asks, amount);
    }
}

/// Weighs a trade by the quantity matched.
pub open spec fn by_traded() -> spec_fn(Trade) -> nat {
    |trade: Trade| trade.bid_info.quantity as nat
}

/// The quantity matched over a run of trades.
pub open spec fn traded(trades: Seq<Trade>) -> nat {
    sum_by(trades, by_traded())
}

/// How much of a ladder crossing took: the number of leading orders that
/// left, and the quantity filled on the order that then stands at the head.
pub struct Taken {
    pub orders: nat,
    pub part: nat,
}

/// One step of crossing a pair of well-formed ladders leaves both well
/// formed and takes at least one order off.
proof fn lemma_step(bids: Seq<Level>, asks: Seq<Level>)
    requires
        ladder_wf(bids, Side::Buy),
        ladder_wf(asks, Side::Sell),
        crossed(bids, asks),
    ensures
        populated(bids),
        populated(asks),
        match_amount(bids, asks) <= bids[0].orders[0].remaining(),
        match_amount(bids, asks) <= asks[0].orders[0].remaining(),
        ladder_wf(fill_front(bids, match_amount(bids, asks)), Side::Buy),
        ladder_wf(fill_front(asks, match_amount(bids, asks)), Side::Sell),
        order_count(fill_front(bids, match_amount(bids, asks))) + order_count(
            fill_front(asks, match_amount(bids, asks)),
        ) < order_count(bids) + order_count(asks),
{
    let amount = match_amount(bids, asks);
    lemma_wf_populated(bids, Side::Buy);
    lemma_wf_populated(asks, Side::Sell);
    lemma_fill_front_wf(bids, Side::Buy, amount);
    lemma_fill_front_wf(asks, Side::Sell, amount);
    lemma_fill_front_count(bids, amount);
    lemma_fill_front_count(asks, amount);
}

/// No residual crossing: crossing two well-formed ladders leaves two
/// well-formed ladders whose best prices do not cross.
pub proof fn lemma_cross_settles(bids: Seq<Level>, asks: Seq<Level>)
    requires
        ladder_wf(bids, Side::Buy),
        ladder_wf(asks, Side::Sell),
    ensures
        ladder_wf(cross(bids, asks).bids, Side::Buy),
        ladder_wf(cross(bids, asks).asks, Side::Sell),
        !crossed(cross(bids, asks).bids, cross(bids, asks).asks),
    decreases order_count(bids) + order_count(asks),
{
    lemma_wf_populated(bids, Side::Buy);
    lemma_wf_populated(asks, Side::Sell);
    if crossed(bids, asks) {
        let amount = match_amount(bids, asks);
        lemma_step(bids, asks);
        lemma_cross_settles(fill_front(bids, amount), fill_front(asks, amount));
    }
}

/// Conservation: in every trade the two legs carry the same quantity, and on
/// each side what was open before crossing is what is open after it plus
/// what was matched.
pub proof fn lemma_cross_conserves(bids: Seq<Level>, asks: Seq<Level>)
    requires
        ladder_wf(bids, Side::Buy),
        ladder_wf(asks, Side::Sell),
    ensures
        ladder_quantity(bids) == ladder_quantity(cross(bids, asks).bids) + traded(
            cross(bids, asks).trades,
        ),
        ladder_quantity(asks) == ladder_quantity(cross(bids, asks).asks) + traded(
            cross(bids, asks).trades,
        ),
        forall|k: int|
            0 <= k < cross(bids, asks).trades.len() ==> (#[trigger] cross(
                bids,
                asks,
            ).trades[k]).bid_info.quantity == cross(bids, asks).trades[k].ask_info.quantity,
    decreases order_count(bids) + order_count(asks),
{
    lemma_wf_populated(bids, Side::Buy);
    lemma_wf_populated(asks, Side::Sell);
    if crossed(bids, asks) {
        let amount = match_amount(bids, asks);
        let trade = match_trade(bids, asks);
        let rest = cross(fill_front(bids, amount), fill_front(asks, amount));
        lemma_step(bids, asks);
        lemma_cross_conserves(fill_front(bids, amount), fill_front(asks, amount));
        lemma_fill_front_quantity(bids, amount);
        lemma_fill_front_quantity(asks, amount);
        lemma_sum_concat(seq![trade], rest.trades, by_traded());
        lemma_sum_single(trade, by_traded());
        assert(by_traded()(trade) == amount);
    }
}

/// Price-time priority: crossing takes orders strictly from the front. What
/// it leaves of a ladder is the ladder without a number of its leading
/// orders, with nothing changed behind them but the quantity filled on the
/// order that then stands at the head. No order trades while an order with
/// priority over it rests. The result tells how much was taken of each side.
pub proof fn lemma_cross_takes_from_front(bids: Seq<Level>, asks: Seq<Level>) -> (taken: (
    Taken,
    Taken,
))
    requires
        ladder_wf(bids, Side::Buy),
        ladder_wf(asks, Side::Sell),
    ensures
        cross(bids, asks).bids == touch(drop_many(bids, taken.0.orders), taken.0.part),
        cross(bids, asks).asks == touch(drop_many(asks, taken.1.orders), taken.1.part),
    decreases order_count(bids) + order_count(asks),
{
    lemma_wf_populated(bids, Side::Buy);
    lemma_wf_populated(asks, Side::Sell);
    if crossed(bids, asks) {
        let amount = match_amount(bids, asks);
        lemma_step(bids, asks);
        let rest = lemma_cross_takes_from_front(fill_front(bids, amount), fill_front(asks, amount));
        let bid_side = lemma_step_from_front(bids, Side::Buy, amount, rest.0);
        let ask_side = lemma_step_from_front(asks, Side::Sell, amount, rest.1);
        (bid_side, ask_side)
    } else {
        lemma_touch_nothing(bids, Side::Buy);
        lemma_touch_nothing(asks, Side::Sell);
        (Taken { orders: 0, part: 0 }, Taken { orders: 0, part: 0 })
    }
}

/// Filling nothing on the head of a well-formed ladder leaves it as it is.
proof fn lemma_touch_nothing(levels: Seq<Level>, side: Side)
    requires
        ladder_wf(levels, side),
    ensures
        touch(drop_many(levels, 0), 0) == levels,
{
    if levels.len() > 0 {
        assert(level_wf(levels[0], side));
        assert(rests_at(levels[0].orders[0], side, levels[0].price));
        assert(levels[0].orders[0].fill_by(0) == levels[0].orders[0]);
        assert(levels[0].orders.update(0, levels[0].orders[0]) =~= levels[0].orders);
        assert(touch(levels, 0) =~= levels);
    }
}

/// What was taken from the front after one more fill of the head, given what
/// is taken after that fill.
proof fn lemma_step_from_front(levels: Seq<Level>, side: Side, amount: nat, rest: Taken) -> (taken:
    Taken)
    requires
        ladder_wf(levels, side),
        levels.len() > 0,
    ensures
        touch(drop_many(fill_front(levels, amount), rest.orders), rest.part) == touch(
            drop_many(levels, taken.orders),
            taken.part,
        ),
{
    assert(level_wf(levels[0], side));
    let head = levels[0].orders[0];
    if head.fill_by(amount).filled() {
        Taken { orders: rest.orders + 1, part: rest.part }
    } else if rest.orders == 0 {
        let once = fill_front(levels, amount);
        assert(head.fill_by(amount).fill_by(rest.part) == head.fill_by(amount + rest.part));
        assert(once[0].orders.update(0, once[0].orders[0].fill_by(rest.part))
            =~= levels[0].orders.update(0, head.fill_by(amount + rest.part)));
        assert(touch(once, rest.part) =~= touch(levels, amount + rest.part));
        Taken { orders: 0, part: amount + rest.part }
    } else {
        let once = fill_front(levels, amount);
        if levels[0].orders.len() > 1 {
            assert(once[0].orders.remove(0) =~= levels[0].orders.remove(0));
        }
        assert(drop_front(once) =~= drop_front(levels));
        rest
    }
}

/// What crossing leaves, seen from one side: the ladder of that side, the
/// ladder it trades against, and the trades.
pub struct Engagement {
    pub own: Seq<Level>,
    pub other: Seq<Level>,
    pub trades: Seq<Trade>,
}

/// Crossing seen from `side`: `own` is the ladder of that side, `other` the
/// ladder of the opposite side.
pub open spec fn engage(side: Side, own: Seq<Level>, other: Seq<Level>) -> Engagement {
    match side {
        Side::Buy => {
            let crossing = cross(own, other);
            Engagement { own: crossing.bids, other: crossing.asks, trades: crossing.trades }
        },
        Side::Sell => {
            let crossing = cross(other, own);
            Engagement { own: crossing.asks, other: crossing.bids, trades: crossing.trades }
        },
    }
}

/// What crossing does with an order that stands alone at the best level of
/// its side, ahead of levels that cannot trade. Such an order is the only one
/// of its side to trade: crossing either takes it off, filled, and leaves the
/// ladder behind it untouched, or leaves it at the head with what was matched
/// filled on it. The opposite side loses exactly what was matched. Where the
/// order can trade at once and the depth within its limit covers what is open
/// on it, it is matched in full.
#[verifier::rlimit(50)]
pub proof fn lemma_taker(side: Side, own: Seq<Level>, other: Seq<Level>)
    requires
        ladder_wf(own, side),
        ladder_wf(other, side.opposite()),
        own.len() > 0,
        own[0].orders.len() == 1,
        own.len() > 1 && other.len() > 0 ==> !crosses(side, own[1].price, other[0].price),
    ensures
        traded(engage(side, own, other).trades) <= own[0].orders[0].remaining(),
        ladder_quantity(engage(side, own, other).other) + traded(engage(side, own, other).trades)
            == ladder_quantity(other),
        engage(side, own, other).own == (if engage(side, own, other).trades.len() > 0
            && own[0].orders[0].fill_by(traded(engage(side, own, other).trades)).filled() {
            own.skip(1)
        } else {
            touch(own, traded(engage(side, own, other).trades))
        }),
        other.len() > 0 && crosses(side, own[0].price, other[0].price) && depth_within(
            other,
            side,
            own[0].price,
        ) >= own[0].orders[0].remaining() ==> engage(side, own, other).trades.len() > 0 && traded(
            engage(side, own, other).trades,
        ) == own[0].orders[0].remaining(),
    decreases order_count(own) + order_count(other),
{
    let bids = if side == Side::Buy { own } else { other };
    let asks = if side == Side::Buy { other } else { own };
    let taker = own[0].orders[0];
    let limit = own[0].price;
    lemma_wf_populated(bids, Side::Buy);
    lemma_wf_populated(asks, Side::Sell);
    assert(level_wf(own[0], side));
    assert(rests_at(taker, side, limit));
    if crossed(bids, asks) {
        let maker = other[0].orders[0];
        let amount = match_amount(bids, asks);
        let trade = match_trade(bids, asks);
        let own_next = fill_front(own, amount);
        let other_next = fill_front(other, amount);
        let bids_next = if side == Side::Buy { own_next } else { other_next };
        let asks_next = if side == Side::Buy { other_next } else { own_next };
        lemma_step(bids, asks);
        assert(level_wf(other[0], side.opposite()));
        assert(rests_at(maker, side.opposite(), other[0].price));
        lemma_fill_front_quantity(other, amount);
        lemma_wf_populated(bids_next, Side::Buy);
        lemma_wf_populated(asks_next, Side::Sell);
        let rest = cross(bids_next, asks_next);
        assert(cross(bids, asks).trades == seq![trade] + rest.trades);
        lemma_sum_concat(seq![trade], rest.trades, by_traded());
        lemma_sum_single(trade, by_traded());
        assert(by_traded()(trade) == amount);
        if other_next.len() > 0 && other_next[0].price != other[0].price {
            assert(other_next[0] == other[1]);
            assert(better(side.opposite(), other[0].price, other[1].price));
        }
        if taker.remaining() <= maker.remaining() {
            assert(taker.fill_by(amount).filled());
            assert(own_next =~= own.skip(1));
            assert(!crossed(bids_next, asks_next));
            assert(rest.trades =~= Seq::<Trade>::empty());
            assert(traded(rest.trades) == 0);
        } else {
            let partly = taker.fill_by(amount);
            assert(maker.fill_by(amount).filled());
            assert(!partly.filled());
            lemma_fill_front_count(own, amount);
            lemma_fill_front_count(other, amount);
            assert(own_next[0].orders =~= seq![partly]);
            if own.len() > 1 {
                assert(own_next[1] == own[1]);
            }
            if depth_within(other, side, limit) >= taker.remaining() {
                lemma_drop_front_depth(other, side, limit);
                lemma_depth_reaches_front(other_next, side, limit);
            }
            lemma_taker(side, own_next, other_next);
            let later = traded(rest.trades);
            assert(partly.fill_by(later) == taker.fill_by(amount + later));
            assert(own_next.skip(1) =~= own.skip(1));
            assert(own_next[0].orders.update(0, partly.fill_by(later)) =~= own[0].orders.update(
                0,
                taker.fill_by(amount + later),
            ));
            assert(touch(own_next, later) =~= touch(own, amount + later));
            if rest.trades.len() == 0 {
                assert(later == 0);
            }
        }
    } else {
        assert(cross(bids, asks).trades =~= Seq::<Trade>::empty());
        assert(traded(cross(bids, asks).trades) == 0);
        assert(taker.fill_by(0) == taker);
        assert(own[0].orders.update(0, taker) =~= own[0].orders);
        assert(touch(own, 0) =~= own);
    }
}

/// Crossing only takes orders off: what rests at a price after it rested
/// there before.
pub proof fn lemma_cross_keeps(bids: Seq<Level>, asks: Seq<Level>)
    requires
        ladder_wf(bids, Side::Buy),
        ladder_wf(asks, Side::Sell),
    ensures
        forall|id: OrderId, price: Price| #[trigger]
            holds(cross(bids, asks).bids, id, price) ==> holds(bids, id, price),
        forall|id: OrderId, price: Price| #[trigger]
            holds(cross(bids, asks).asks, id, price) ==> holds(asks, id, price),
    decreases order_count(bids) + order_count(asks),
{
    lemma_wf_populated(bids, Side::Buy);
    lemma_wf_populated(asks, Side::Sell);
    if crossed(bids, asks) {
        let amount = match_amount(bids, asks);
        lemma_step(bids, asks);
        let bids_next = fill_front(bids, amount);
        let asks_next = fill_front(asks, amount);
        lemma_cross_keeps(bids_next, asks_next);
        lemma_fill_front_holds(bids, Side::Buy, amount);
        lemma_fill_front_holds(asks, Side::Sell, amount);
        assert(cross(bids, asks).bids == cross(bids_next, asks_next).bids);
        assert(cross(bids, asks).asks == cross(bids_next, asks_next).asks);
        assert forall|id: OrderId, price: Price| #[trigger]
            holds(cross(bids, asks).bids, id, price) implies holds(bids, id, price) by {
            assert(holds(bids_next, id, price));
        }
        assert forall|id: OrderId, price: Price| #[trigger]
            holds(cross(bids, asks).asks, id, price) implies holds(asks, id, price) by {
            assert(holds(asks_next, id, price));
        }
    } else {
        assert(cross(bids, asks).bids == bids);
        assert(cross(bids, asks).asks == asks);
    }
}

/// Crossing brings no Fill-and-Kill order onto a ladder that held none, nor
/// behind the head of a ladder that held none there.
pub proof fn lemma_cross_calm(bids: Seq<Level>, asks: Seq<Level>)
    requires
        ladder_wf(bids, Side::Buy),
        ladder_wf(asks, Side::Sell),
    ensures
        calm(bids) ==> calm(cross(bids, asks).bids),
        calm(asks) ==> calm(cross(bids, asks).asks),
        calm_behind_head(bids) ==> calm_behind_head(cross(bids, asks).bids),
        calm_behind_head(asks) ==> calm_behind_head(cross(bids, asks).asks),
    decreases order_count(bids) + order_count(asks),
{
    lemma_wf_populated(bids, Side::Buy);
    lemma_wf_populated(asks, Side::Sell);
    if crossed(bids, asks) {
        let amount = match_amount(bids, asks);
        lemma_step(bids, asks);
        lemma_cross_calm(fill_front(bids, amount), fill_front(asks, amount));
        if calm(bids) {
            lemma_fill_front_calm(bids, amount);
        }
        if calm(asks) {
            lemma_fill_front_calm(asks, amount);
        }
        if calm_behind_head(bids) {
            lemma_fill_front_calm_behind(bids, amount);
        }
        if calm_behind_head(asks) {
            lemma_fill_front_calm_behind(asks, amount);
        }
    }
}

/// Crossing only takes orders off: what rests after it rested before.
pub proof fn lemma_cross_residents(bids: Seq<Level>, asks: Seq<Level>)
    requires
        ladder_wf(bids, Side::Buy),
        ladder_wf(asks, Side::Sell),
    ensures
        forall|id: OrderId| #[trigger]
            resident(cross(bids, asks).bids, id) ==> resident(bids, id),
        forall|id: OrderId| #[trigger]
            resident(cross(bids, asks).asks, id) ==> resident(asks, id),
{
    lemma_cross_keeps(bids, asks);
    assert forall|id: OrderId| #[trigger]
        resident(cross(bids, asks).bids, id) implies resident(bids, id) by {
        lemma_resident_holds(cross(bids, asks).bids, id);
        lemma_resident_holds(bids, id);
    }
    assert forall|id: OrderId| #[trigger]
        resident(cross(bids, asks).asks, id) implies resident(asks, id) by {
        lemma_resident_holds(cross(bids, asks).asks, id);
        lemma_resident_holds(asks, id);
    }
}

} // verus!
