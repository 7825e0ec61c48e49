//! The matching engine: both sides of the book, the index of resident orders
//! by identifier, and the operations on them.

use std::collections::HashMap;
use vstd::prelude::*;
use crate::book::{Book, cancel_all};
use crate::ladder::{holds, Level, level_wf, order_count, quantity_at, resident, snapshot, sweep};
use crate::ladder_lemmas::{
    lemma_crossing_order_leads, lemma_fill_front_calm_behind, lemma_insert_order_calm,
    lemma_lead_calm_behind, lemma_remove_order_absent, lemma_remove_slot_calm,
    lemma_resident_holds, lemma_sweep_calm, lemma_sweep_keeps_apart, lemma_wf_populated,
};
use crate::level::{BookSide, can_trade, LevelData};
use crate::matching::{cross, crossed, match_amount, match_trade};
use crate::order::Order;
use crate::order_modify::OrderModify;
use crate::trade::{Trade, TradeInfo, Trades};
use crate::types::{
    LevelInfo, OrderId, OrderIds, OrderResult, OrderStatus, OrderType, Price, Quantity, Side,
};

verus! {

broadcast use vstd::std_specs::hash::group_hash_axioms;

/// A snapshot of the book: the levels of each side, best price first.
#[derive(Debug, Clone, PartialEq)]
pub struct OrderbookLevelInfos {
    pub bids: Vec<LevelInfo>,
    pub asks: Vec<LevelInfo>,
}

impl OrderbookLevelInfos {
    pub fn new(bids: Vec<LevelInfo>, asks: Vec<LevelInfo>) -> (infos: Self)
        ensures
            infos.bids == bids,
            infos.asks == asks,
    {
        Self { bids, asks }
    }
}

/// Where a resident order rests: its side and its price.
#[derive(Debug, Clone, Copy, PartialEq, Eq, Structural)]
pub struct Locator {
    pub side: Side,
    pub price: Price,
}

/// The order book. Orders live in the levels of the two sides; the index
/// leads from an identifier to the level where its order rests.
#[derive(Debug)]
pub struct OrderBook {
    bids: BookSide,
    asks: BookSide,
    index: HashMap<OrderId, Locator>,
    next_order_id: OrderId,
}

impl View for OrderBook {
    type V = Book;

    closed spec fn view(&self) -> Book {
        Book { bids: self.bids@, asks: self.asks@, next_id: self.next_order_id }
    }
}

impl Default for OrderBook {
    fn default() -> (book: Self)
        ensures
            book@ == Book::empty(),
            book.wf(),
    {
        OrderBook::new()
    }
}

impl OrderBook {
    /// The index holds exactly the resident orders, each with the side and
    /// price at which it rests, and counts as many entries as orders rest.
    pub closed spec fn index_agrees(&self) -> bool {
        &&& forall|id: OrderId| #[trigger]
            self.index@.contains_key(id) ==> holds(
                self@.ladder(self.index@[id].side),
                id,
                self.index@[id].price,
            )
        &&& forall|id: OrderId, price: Price| #[trigger]
            holds(self.bids@, id, price) ==> self.index@.contains_key(id) && self.index@[id] == (
            Locator { side: Side::Buy, price })
        &&& forall|id: OrderId, price: Price| #[trigger]
            holds(self.asks@, id, price) ==> self.index@.contains_key(id) && self.index@[id] == (
            Locator { side: Side::Sell, price })
        &&& self.index@.len() == order_count(self.bids@) + order_count(self.asks@)
    }

    /// What holds of the stored book beside its view: each side keeps orders
    /// of its own side, the running totals of every level agree with its
    /// orders, and the index agrees with the ladders.
    pub closed spec fn stored(&self) -> bool {
        &&& self.bids.side() == Side::Buy
        &&& self.asks.side() == Side::Sell
        &&& self.bids.consistent()
        &&& self.asks.consistent()
        &&& self.index_agrees()
    }

    /// The invariant between operations.
    pub open spec fn wf(&self) -> bool {
        &&& self@.wf()
        &&& self.stored()
    }

    /// The invariant while an order is being matched: as between operations,
    /// except that the best bid may reach the best ask.
    pub open spec fn settling(&self) -> bool {
        &&& self@.ladders_wf()
        &&& self.stored()
    }

    /// An empty book whose first order gets the identifier 0.
    pub fn new() -> (book: Self)
        ensures
            book@ == Book::empty(),
            book.wf(),
    {
        let book = OrderBook {
            bids: BookSide::new(Side::Buy),
            asks: BookSide::new(Side::Sell),
            index: HashMap::new(),
            next_order_id: 0,
        };
        proof {
            assert(book.index@.len() == 0);
            assert(order_count(Seq::<Level>::empty()) == 0);
            assert forall|id: OrderId| !resident(book.bids@, id) by {}
        }
        book
    }

    /// True when an order of `side` at `price` can trade against the best
    /// price of the opposite side.
    pub fn can_match(&self, side: Side, price: Price) -> (possible: bool)
        ensures
            possible == self@.can_match(side, price),
    {
        let best = match side {
            Side::Buy => self.asks.best_price(),
            Side::Sell => self.bids.best_price(),
        };
        match best {
            Some(resting) => can_trade(side, price, resting),
            None => false,
        }
    }

    /// True when an order of `side` at `price` can trade and the opposite
    /// levels within its limit hold at least `quantity` between them.
    pub fn can_fully_fill(&self, side: Side, price: Price, quantity: Quantity) -> (possible: bool)
        requires
            self.settling(),
        ensures
            possible == self@.can_fully_fill(side, price, quantity),
    {
        if !self.can_match(side, price) {
            return false;
        }
        match side {
            Side::Buy => self.asks.depth_reaches(price, quantity),
            Side::Sell => self.bids.depth_reaches(price, quantity),
        }
    }

    /// No identifier rests on both sides, since the index gives each one
    /// side only.
    proof fn lemma_sides_apart(&self)
        requires
            self.index_agrees(),
        ensures
            forall|id: OrderId| !(resident(self@.bids, id) && resident(self@.asks, id)),
    {
        assert forall|id: OrderId| !(resident(self@.bids, id) && resident(self@.asks, id)) by {
            lemma_resident_holds(self@.bids, id);
            lemma_resident_holds(self@.asks, id);
        }
    }

    /// True when the best bid reaches the best ask.
    fn crossing(&self) -> (yes: bool)
        ensures
            yes == crossed(self@.bids, self@.asks),
    {
        match self.bids.best_price() {
            Some(bid) => match self.asks.best_price() {
                Some(ask) => bid >= ask,
                None => false,
            },
            None => false,
        }
    }

    /// Takes a Fill-and-Kill order at the head of the best level of `side`
    /// off the book.
    fn sweep_side(&mut self, side: Side)
        requires
            old(self).settling(),
        ensures
            final(self).settling(),
            final(self)@.next_id == old(self)@.next_id,
            final(self)@.ladder(side) == sweep(old(self)@.ladder(side)),
            final(self)@.ladder(side.opposite()) == old(self)@.ladder(side.opposite()),
    {
        let ladder = match side {
            Side::Buy => &mut self.bids,
            Side::Sell => &mut self.asks,
        };
        if ladder.is_empty() {
            return;
        }
        proof {
            assert(level_wf(ladder@[0], side));
        }
        if ladder.front().order_type == OrderType::FillAndKill {
            let order = ladder.drop_front();
            proof {
                lemma_remove_slot_calm(old(self)@.ladder(side), 0, 0);
                assert(holds(old(self)@.ladder(side), order.id, order.price));
                old(self).index@.lemma_remove_key_len(order.id);
            }
            self.index.remove(&order.id);
            proof {
                self.lemma_sides_apart();
            }
        }
    }

    /// Matches the heads of the best levels against each other until the
    /// best bid is below the best ask or a side is empty, then takes a
    /// Fill-and-Kill order left at the head of either side off the book.
    pub fn match_orders(&mut self) -> (trades: Trades)
        requires
            old(self).settling(),
        ensures
            final(self).wf(),
            final(self)@ == old(self)@.settle().book,
            trades@ == old(self)@.settle().trades,
    {
        let mut trades: Trades = Vec::new();
        let ghost start = self@;
        while self.crossing()
            invariant
                self.settling(),
                self@.next_id == start.next_id,
                cross(start.bids, start.asks).bids == cross(self@.bids, self@.asks).bids,
                cross(start.bids, start.asks).asks == cross(self@.bids, self@.asks).asks,
                cross(start.bids, start.asks).trades == trades@ + cross(
                    self@.bids,
                    self@.asks,
                ).trades,
            decreases order_count(self@.bids) + order_count(self@.asks),
        {
            let ghost before = *self;
            let ghost earlier = trades@;
            proof {
                assert(level_wf(self@.bids[0], Side::Buy));
                assert(level_wf(self@.asks[0], Side::Sell));
                lemma_wf_populated(self@.bids, Side::Buy);
                lemma_wf_populated(self@.asks, Side::Sell);
            }
            let bid = self.bids.front();
            let ask = self.asks.front();
            let bid_open = bid.get_remaining_quantity();
            let ask_open = ask.get_remaining_quantity();
            let quantity = if bid_open <= ask_open {
                bid_open
            } else {
                ask_open
            };
            proof {
                assert(quantity == match_amount(before@.bids, before@.asks));
                assert(holds(before@.bids, bid.id, bid.price));
                assert(holds(before@.asks, ask.id, ask.price));
                assert(bid.id != ask.id);
            }
            let bid_filled = self.bids.fill_front(quantity);
            let ask_filled = self.asks.fill_front(quantity);
            if bid_filled {
                proof {
                    self.index@.lemma_remove_key_len(bid.id);
                }
                self.index.remove(&bid.id);
            }
            if ask_filled {
                proof {
                    self.index@.lemma_remove_key_len(ask.id);
                }
                self.index.remove(&ask.id);
            }
            let trade = Trade::new(
                TradeInfo::new(bid.id, bid.price, quantity),
                TradeInfo::new(ask.id, ask.price, quantity),
            );
            trades.push(trade);
            proof {
                assert(trade == match_trade(before@.bids, before@.asks));
                let rest = cross(self@.bids, self@.asks);
                lemma_fill_front_calm_behind(before@.bids, quantity as nat);
                lemma_fill_front_calm_behind(before@.asks, quantity as nat);
                assert(cross(before@.bids, before@.asks).trades == seq![trade] + rest.trades);
                assert(trades@ + rest.trades =~= earlier + (seq![trade] + rest.trades));
                self.lemma_sides_apart();
            }
        }
        proof {
            lemma_wf_populated(self@.bids, Side::Buy);
            lemma_wf_populated(self@.asks, Side::Sell);
            assert(trades@ + Seq::<Trade>::empty() =~= trades@);
        }
        let ghost crossed_out = self@;
        self.sweep_side(Side::Buy);
        self.sweep_side(Side::Sell);
        proof {
            lemma_sweep_keeps_apart(crossed_out.bids, crossed_out.asks);
            lemma_sweep_calm(crossed_out.bids);
            lemma_sweep_calm(crossed_out.asks);
        }
        trades
    }

    /// Decides whether a submission is admitted, without changing the book.
    /// An admitted submission yields the order as it enters the book: a
    /// market order priced at the worst resting price of the opposite side.
    /// The checks come in this order: the identifier, liquidity for a market
    /// order, a match for Fill-and-Kill, full depth for Fill-or-Kill.
    pub fn admission(&self, side: Side, order_type: OrderType, price: Price, quantity: Quantity) -> (verdict:
        Result<Order, OrderStatus>)
        requires
            self.wf(),
        ensures
            match verdict {
                Ok(order) => self@.rejection(side, order_type, price, quantity) is None && order
                    == self@.arrival(side, order_type, price, quantity),
                Err(status) => self@.rejection(side, order_type, price, quantity) == Some(status),
            },
    {
        let order_id = self.next_order_id;
        let mut order = Order::new(order_id, side, order_type, price, quantity);
        proof {
            lemma_resident_holds(self@.bids, order_id);
            lemma_resident_holds(self@.asks, order_id);
        }
        if self.index.contains_key(&order_id) {
            return Err(OrderStatus::RejectedDuplicateId);
        }
        if order_type == OrderType::Market {
            let worst = match side {
                Side::Buy => self.asks.worst_price(),
                Side::Sell => self.bids.worst_price(),
            };
            match worst {
                Some(resting) => order.to_good_till_cancel(resting),
                None => {
                    return Err(OrderStatus::RejectedNoLiquidity);
                },
            }
        }
        if order_type == OrderType::FillAndKill && !self.can_match(side, order.get_price()) {
            return Err(OrderStatus::RejectedFillAndKillNoMatch);
        }
        if order_type == OrderType::FillOrKill && !self.can_fully_fill(
            side,
            order.get_price(),
            order.get_initial_quantity(),
        ) {
            return Err(OrderStatus::RejectedFillOrKillPartialFill);
        }
        Ok(order)
    }

    /// True when the level that the order would join can take its quantity:
    /// the condition under which the order may be submitted. It holds of
    /// every submission that is turned away.
    pub fn has_room(&self, side: Side, order_type: OrderType, price: Price, quantity: Quantity) -> (room:
        bool)
        requires
            self.wf(),
        ensures
            room == self@.has_room(side, order_type, price, quantity),
    {
        match self.admission(side, order_type, price, quantity) {
            Ok(order) => match self.level_data(side, order.get_price()) {
                Some(data) => quantity <= Quantity::MAX - data.quantity,
                None => true,
            },
            Err(_) => true,
        }
    }

    /// Submits an order and reports what became of it.
    ///
    /// The order takes the next identifier. It is turned away, with the book
    /// left as it was, when the identifier is already resident, when it is a
    /// market order and the opposite side is empty, when it is Fill-and-Kill
    /// and cannot trade at once, or when it is Fill-or-Kill and cannot be
    /// filled completely at once. Otherwise it is placed on the book, behind
    /// the orders that rest at its price, and the book is matched.
    pub fn add_order_with_status(
        &mut self,
        side: Side,
        order_type: OrderType,
        price: Price,
        quantity: Quantity,
    ) -> (result: OrderResult)
        requires
            old(self).wf(),
            old(self)@.has_room(side, order_type, price, quantity),
        ensures
            final(self).wf(),
            final(self)@ == old(self)@.submit(side, order_type, price, quantity).book,
            result.order_id == old(self)@.submit(side, order_type, price, quantity).order_id,
            result.status == old(self)@.submit(side, order_type, price, quantity).status,
            result.trades@ == old(self)@.submit(side, order_type, price, quantity).trades,
    {
        let verdict = self.admission(side, order_type, price, quantity);
        let order_id = self.next_order_id;
        self.next_order_id = if order_id == OrderId::MAX {
            0
        } else {
            order_id + 1
        };
        let order = match verdict {
            Ok(order) => order,
            Err(status) => {
                return OrderResult::new(order_id, status, Vec::new());
            },
        };
        proof {
            let own = self@.ladder(side);
            let other = self@.ladder(side.opposite());
            lemma_resident_holds(self@.bids, order_id);
            lemma_resident_holds(self@.asks, order_id);
            if order.order_type == OrderType::FillAndKill {
                lemma_crossing_order_leads(own, other, side, order);
                lemma_lead_calm_behind(own, order);
            } else {
                lemma_insert_order_calm(own, side, order);
            }
        }
        match side {
            Side::Buy => self.bids.insert(order),
            Side::Sell => self.asks.insert(order),
        }
        self.index.insert(order_id, Locator { side, price: order.get_price() });
        proof {
            self.lemma_sides_apart();
        }
        let trades = self.match_orders();
        let status = if trades.len() == 0 {
            OrderStatus::Accepted
        } else {
            OrderStatus::Executed
        };
        OrderResult::new(order_id, status, trades)
    }

    /// Submits an order and hands out its identifier and the trades it
    /// caused. The book changes as with `add_order_with_status`.
    pub fn add_order(
        &mut self,
        side: Side,
        order_type: OrderType,
        price: Price,
        quantity: Quantity,
    ) -> (result: (OrderId, Trades))
        requires
            old(self).wf(),
            old(self)@.has_room(side, order_type, price, quantity),
        ensures
            final(self).wf(),
            final(self)@ == old(self)@.submit(side, order_type, price, quantity).book,
            result.0 == old(self)@.submit(side, order_type, price, quantity).order_id,
            result.1@ == old(self)@.submit(side, order_type, price, quantity).trades,
    {
        let outcome = self.add_order_with_status(side, order_type, price, quantity);
        (outcome.order_id, outcome.trades)
    }

    /// Withdraws the order that carries `order_id`. Nothing happens where no
    /// such order rests. No matching follows.
    pub fn cancel_order_internal(&mut self, order_id: OrderId)
        requires
            old(self).wf(),
        ensures
            final(self).wf(),
            final(self)@ == old(self)@.cancel(order_id),
    {
        proof {
            lemma_resident_holds(self@.bids, order_id);
            lemma_resident_holds(self@.asks, order_id);
            self.lemma_sides_apart();
            lemma_wf_populated(self@.bids, Side::Buy);
            lemma_wf_populated(self@.asks, Side::Sell);
            if !resident(self@.bids, order_id) {
                lemma_remove_order_absent(self@.bids, order_id);
            }
            if !resident(self@.asks, order_id) {
                lemma_remove_order_absent(self@.asks, order_id);
            }
        }
        let place = match self.index.get(&order_id) {
            Some(locator) => *locator,
            None => {
                return;
            },
        };
        let removed = match place.side {
            Side::Buy => self.bids.remove(order_id, place.price),
            Side::Sell => self.asks.remove(order_id, place.price),
        };
        proof {
            assert(removed is Some);
            self.index@.lemma_remove_key_len(order_id);
        }
        self.index.remove(&order_id);
        proof {
            self.lemma_sides_apart();
        }
    }

    /// Withdraws the order that carries `order_id`. Nothing happens where no
    /// such order rests. No matching follows.
    pub fn cancel_order(&mut self, order_id: OrderId)
        requires
            old(self).wf(),
        ensures
            final(self).wf(),
            final(self)@ == old(self)@.cancel(order_id),
    {
        self.cancel_order_internal(order_id);
    }

    /// Withdraws each of the orders in turn.
    pub fn cancel_orders(&mut self, order_ids: OrderIds)
        requires
            old(self).wf(),
        ensures
            final(self).wf(),
            final(self)@ == cancel_all(old(self)@, order_ids@),
    {
        let mut at: usize = 0;
        assert(order_ids@.take(0) =~= Seq::<OrderId>::empty());
        while at < order_ids.len()
            invariant
                self.wf(),
                at <= order_ids@.len(),
                self@ == cancel_all(old(self)@, order_ids@.take(at as int)),
            decreases order_ids@.len() - at,
        {
            assert(order_ids@.take(at + 1).drop_last() =~= order_ids@.take(at as int));
            self.cancel_order_internal(order_ids[at]);
            at = at + 1;
        }
        assert(order_ids@.take(at as int) =~= order_ids@);
    }

    /// Replaces a resident order: the order is withdrawn and a fresh order of
    /// the same type, with the new side, price and quantity, is submitted
    /// under the next identifier. The new order joins the tail of its level,
    /// also where the price is unchanged. Nothing happens where no order
    /// carries the identifier.
    pub fn modify_order(&mut self, order_modify: OrderModify) -> (trades: Trades)
        requires
            old(self).wf(),
            old(self)@.has(order_modify.order_id) ==> old(self)@.cancel(
                order_modify.order_id,
            ).has_room(
                order_modify.side,
                old(self)@.order(order_modify.order_id).order_type,
                order_modify.price,
                order_modify.quantity,
            ),
        ensures
            final(self).wf(),
            final(self)@ == old(self)@.modify(order_modify).book,
            trades@ == old(self)@.modify(order_modify).trades,
    {
        let order_id = order_modify.get_order_id();
        proof {
            lemma_resident_holds(self@.bids, order_id);
            lemma_resident_holds(self@.asks, order_id);
            self.lemma_sides_apart();
        }
        let place = match self.index.get(&order_id) {
            Some(locator) => *locator,
            None => {
                return Vec::new();
            },
        };
        let found = match place.side {
            Side::Buy => self.bids.find(order_id, place.price),
            Side::Sell => self.asks.find(order_id, place.price),
        };
        let order_type = found.unwrap().get_order_type();
        self.cancel_order(order_id);
        let (_, trades) = self.add_order(
            order_modify.get_side(),
            order_type,
            order_modify.get_price(),
            order_modify.get_quantity(),
        );
        trades
    }

    /// The number of resident orders.
    pub fn size(&self) -> (count: usize)
        requires
            self.wf(),
        ensures
            count == self@.size(),
    {
        self.index.len()
    }

    /// The highest price at which a buy order rests.
    pub fn get_best_bid(&self) -> (price: Option<Price>)
        ensures
            price == self@.best_bid(),
    {
        self.bids.best_price()
    }

    /// The lowest price at which a sell order rests.
    pub fn get_best_ask(&self) -> (price: Option<Price>)
        ensures
            price == self@.best_ask(),
    {
        self.asks.best_price()
    }

    /// The levels of both sides, best price first, each with the quantity
    /// still open over its orders.
    pub fn get_order_infos(&self) -> (infos: OrderbookLevelInfos)
        requires
            self.wf(),
        ensures
            infos.bids@ == snapshot(self@.bids),
            infos.asks@ == snapshot(self@.asks),
    {
        OrderbookLevelInfos::new(self.bids.level_infos(), self.asks.level_infos())
    }

    /// The running totals of the level of `side` at `price`, if orders rest
    /// there: the aggregate quantity, which is what is still open over the
    /// orders of the level, and their number.
    pub fn level_data(&self, side: Side, price: Price) -> (found: Option<LevelData>)
        requires
            self.wf(),
        ensures
            match found {
                Some(data) => {
                    &&& data.quantity == quantity_at(self@.ladder(side), price)
                    &&& data.count > 0
                    &&& exists|i: int|
                        0 <= i < self@.ladder(side).len() && (#[trigger] self@.ladder(
                            side,
                        )[i]).price == price && data.quantity == self@.ladder(side)[i].quantity()
                            && data.count == self@.ladder(side)[i].orders.len()
                },
                None => {
                    &&& quantity_at(self@.ladder(side), price) == 0
                    &&& forall|i: int|
                        0 <= i < self@.ladder(side).len() ==> (#[trigger] self@.ladder(
                            side,
                        )[i]).price != price
                },
            },
    {
        match side {
            Side::Buy => self.bids.level_data(price),
            Side::Sell => self.asks.level_data(price),
        }
    }

    /// The hook for the end of the trading day. The engine has no clock, so
    /// no Good-For-Day order is withdrawn here: the book stays as it is.
    pub fn prune_good_for_day_orders(&mut self)
        ensures
            *final(self) == *old(self),
    {
    }
}

} // verus!
