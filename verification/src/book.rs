//! The mathematical model of the whole book, and what each operation of the
//! engine does to it.

use vstd::prelude::*;
use crate::ladder::{
    calm, calm_behind_head, crosses, depth_within, insert_order, ladder_quantity, ladder_wf,
    Level, lookup, order_count, quantity_at, remove_order, resident, rests_at, sweep, touch,
};
use crate::ladder_lemmas::{
    lemma_crossing_order_leads, lemma_insert_order_calm, lemma_insert_order_residents,
    lemma_insert_order_sums, lemma_insert_order_wf, lemma_lead_calm_behind, lemma_remove_order_wf,
    lemma_sweep_calm, lemma_sweep_keeps, lemma_sweep_keeps_apart, lemma_sweep_wf,
    lemma_wf_populated,
};
use crate::matching::{
    cross, crossed, engage, lemma_cross_calm, lemma_cross_conserves, lemma_cross_residents,
    lemma_cross_settles, lemma_taker, traded,
};
use crate::order::Order;
use crate::order_modify::OrderModify;
use crate::trade::Trade;
use crate::types::{OrderId, OrderStatus, OrderType, Price, Quantity, Side};

verus! {

/// The book: the bid ladder, the ask ladder (each best price first) and the
/// identifier that the next submission gets.
pub struct Book {
    pub bids: Seq<Level>,
    pub asks: Seq<Level>,
    pub next_id: OrderId,
}

/// What matching leaves: the book and the trades, oldest first.
pub struct Settlement {
    pub book: Book,
    pub trades: Seq<Trade>,
}

/// What a submission leaves: the book, the identifier the order got, the
/// status and the trades, oldest first.
pub struct Submission {
    pub book: Book,
    pub order_id: OrderId,
    pub status: OrderStatus,
    pub trades: Seq<Trade>,
}

/// The book after each of the identifiers was cancelled in turn.
pub open spec fn cancel_all(book: Book, ids: Seq<OrderId>) -> Book
    decreases ids.len(),
{
    if ids.len() == 0 {
        book
    } else {
        cancel_all(book, ids.drop_last()).cancel(ids.last())
    }
}

impl Book {
    /// The book without orders, before any submission.
    pub open spec fn empty() -> Book {
        Book { bids: Seq::empty(), asks: Seq::empty(), next_id: 0 }
    }

    /// The ladder on which orders of `side` rest.
    pub open spec fn ladder(self, side: Side) -> Seq<Level> {
        match side {
            Side::Buy => self.bids,
            Side::Sell => self.asks,
        }
    }

    /// True when an order with this identifier rests on the book.
    pub open spec fn has(self, id: OrderId) -> bool {
        resident(self.bids, id) || resident(self.asks, id)
    }

    /// The resident order that carries `id`.
    pub open spec fn order(self, id: OrderId) -> Order
        recommends
            self.has(id),
    {
        if resident(self.bids, id) {
            lookup(self.bids, id)
        } else {
            lookup(self.asks, id)
        }
    }

    /// The number of resident orders.
    pub open spec fn size(self) -> nat {
        order_count(self.bids) + order_count(self.asks)
    }

    /// The highest price at which a buy order rests.
    pub open spec fn best_bid(self) -> Option<Price> {
        if self.bids.len() > 0 {
            Some(self.bids[0].price)
        } else {
            None
        }
    }

    /// The lowest price at which a sell order rests.
    pub open spec fn best_ask(self) -> Option<Price> {
        if self.asks.len() > 0 {
            Some(self.asks[0].price)
        } else {
            None
        }
    }

    /// What holds of the book while an order is being matched: both ladders
    /// are well formed, no identifier rests on both, and no Fill-and-Kill
    /// order rests behind the head of either side.
    pub open spec fn ladders_wf(self) -> bool {
        &&& ladder_wf(self.bids, Side::Buy)
        &&& ladder_wf(self.asks, Side::Sell)
        &&& forall|id: OrderId| !(resident(self.bids, id) && resident(self.asks, id))
        &&& calm_behind_head(self.bids)
        &&& calm_behind_head(self.asks)
    }

    /// The invariant of the book between operations: the ladders are well
    /// formed, every identifier rests at most once, the best bid is below the
    /// best ask whenever both sides hold orders, and no Fill-and-Kill order
    /// rests.
    pub open spec fn wf(self) -> bool {
        &&& self.ladders_wf()
        &&& !crossed(self.bids, self.asks)
        &&& calm(self.bids)
        &&& calm(self.asks)
    }

    /// True when an order of `side` at `price` can trade against the best
    /// price of the opposite side.
    pub open spec fn can_match(self, side: Side, price: Price) -> bool {
        let opposite = self.ladder(side.opposite());
        opposite.len() > 0 && crosses(side, price, opposite[0].price)
    }

    /// True when an order of `side` at `price` can trade and the opposite
    /// levels within its limit hold at least `quantity` between them.
    pub open spec fn can_fully_fill(self, side: Side, price: Price, quantity: Quantity) -> bool {
        self.can_match(side, price) && depth_within(self.ladder(side.opposite()), side, price)
            >= quantity
    }

    /// The identifier that follows the next one. The counter starts over
    /// after the last value.
    pub open spec fn following_id(self) -> OrderId {
        if self.next_id == OrderId::MAX {
            0
        } else {
            (self.next_id + 1) as OrderId
        }
    }

    /// The reason for which a submission is turned away, if there is one. The
    /// checks come in this order: the identifier, liquidity for a market
    /// order, a match for Fill-and-Kill, full depth for Fill-or-Kill.
    pub open spec fn rejection(
        self,
        side: Side,
        order_type: OrderType,
        price: Price,
        quantity: Quantity,
    ) -> Option<OrderStatus> {
        if self.has(self.next_id) {
            Some(OrderStatus::RejectedDuplicateId)
        } else if order_type == OrderType::Market && self.ladder(side.opposite()).len() == 0 {
            Some(OrderStatus::RejectedNoLiquidity)
        } else if order_type == OrderType::FillAndKill && !self.can_match(side, price) {
            Some(OrderStatus::RejectedFillAndKillNoMatch)
        } else if order_type == OrderType::FillOrKill && !self.can_fully_fill(side, price, quantity) {
            Some(OrderStatus::RejectedFillOrKillPartialFill)
        } else {
            None
        }
    }

    /// The order as it enters the book. A market order becomes a
    /// Good-Till-Cancel order at the worst price that rests on the opposite
    /// side; every other order keeps its type and price.
    pub open spec fn arrival(
        self,
        side: Side,
        order_type: OrderType,
        price: Price,
        quantity: Quantity,
    ) -> Order {
        let opposite = self.ladder(side.opposite());
        if order_type == OrderType::Market && opposite.len() > 0 {
            Order {
                id: self.next_id,
                side,
                order_type: OrderType::GoodTillCancel,
                price: opposite.last().price,
                quantity,
                filled_quantity: 0,
            }
        } else {
            Order { id: self.next_id, side, order_type, price, quantity, filled_quantity: 0 }
        }
    }

    /// True when the level that the order would join can take its quantity
    /// without its aggregate leaving the range of `Quantity`. A submission
    /// that is turned away needs no room.
    pub open spec fn has_room(
        self,
        side: Side,
        order_type: OrderType,
        price: Price,
        quantity: Quantity,
    ) -> bool {
        self.rejection(side, order_type, price, quantity) is None ==> quantity_at(
            self.ladder(side),
            self.arrival(side, order_type, price, quantity).price,
        ) + quantity <= Quantity::MAX
    }

    /// The book with `order` on the ladder of its side.
    pub open spec fn place(self, order: Order) -> Book {
        match order.side {
            Side::Buy => Book { bids: insert_order(self.bids, Side::Buy, order), ..self },
            Side::Sell => Book { asks: insert_order(self.asks, Side::Sell, order), ..self },
        }
    }

    /// Matching: the ladders are crossed until the best bid is below the best
    /// ask or a side is empty; then a Fill-and-Kill order left at the head of
    /// either best level is taken off.
    pub open spec fn settle(self) -> Settlement {
        let crossing = cross(self.bids, self.asks);
        Settlement {
            book: Book { bids: sweep(crossing.bids), asks: sweep(crossing.asks), ..self },
            trades: crossing.trades,
        }
    }

    /// A submission. The order takes the next identifier, whether or not it
    /// is admitted. A rejected order leaves both ladders untouched; an
    /// admitted one is placed and the book is settled.
    pub open spec fn submit(
        self,
        side: Side,
        order_type: OrderType,
        price: Price,
        quantity: Quantity,
    ) -> Submission {
        let advanced = Book { next_id: self.following_id(), ..self };
        match self.rejection(side, order_type, price, quantity) {
            Some(status) => Submission {
                book: advanced,
                order_id: self.next_id,
                status,
                trades: Seq::empty(),
            },
            None => {
                let settled = advanced.place(self.arrival(side, order_type, price, quantity)).settle();
                Submission {
                    book: settled.book,
                    order_id: self.next_id,
                    status: if settled.trades.len() == 0 {
                        OrderStatus::Accepted
                    } else {
                        OrderStatus::Executed
                    },
                    trades: settled.trades,
                }
            },
        }
    }

    /// The book without the order that carries `id`. Nothing changes where no
    /// such order rests.
    pub open spec fn cancel(self, id: OrderId) -> Book {
        Book { bids: remove_order(self.bids, id), asks: remove_order(self.asks, id), ..self }
    }

    /// A modification: the resident order is cancelled and a fresh order of
    /// the same type, with the new side, price and quantity, is submitted in
    /// its place. Nothing happens where no order carries the identifier.
    pub open spec fn modify(self, request: OrderModify) -> Settlement {
        if self.has(request.order_id) {
            let outcome = self.cancel(request.order_id).submit(
                request.side,
                self.order(request.order_id).order_type,
                request.price,
                request.quantity,
            );
            Settlement { book: outcome.book, trades: outcome.trades }
        } else {
            Settlement { book: self, trades: Seq::empty() }
        }
    }
}

/// What holds of an order that is admitted to a well-formed book and can
/// trade at once: it opens a level of its own ahead of its side, and the
/// book it is placed on is ready to be matched.
proof fn lemma_taker_placed(book: Book, side: Side, order: Order)
    requires
        book.wf(),
        !book.has(order.id),
        rests_at(order, side, order.price),
        order.filled_quantity == 0,
        book.can_match(side, order.price),
    ensures
        insert_order(book.ladder(side), side, order) == book.ladder(side).insert(
            0,
            Level::single(order),
        ),
        ladder_wf(insert_order(book.ladder(side), side, order), side),
        ladder_wf(book.ladder(side.opposite()), side.opposite()),
        book.place(order).bids == (if side == Side::Buy {
            insert_order(book.ladder(side), side, order)
        } else {
            book.bids
        }),
        book.place(order).asks == (if side == Side::Sell {
            insert_order(book.ladder(side), side, order)
        } else {
            book.asks
        }),
        book.ladder(side).len() > 0 ==> !crosses(
            side,
            book.ladder(side)[0].price,
            book.ladder(side.opposite())[0].price,
        ),
{
    let own = book.ladder(side);
    let other = book.ladder(side.opposite());
    lemma_crossing_order_leads(own, other, side, order);
    lemma_insert_order_wf(own, side, order);
}

/// Matching only takes orders off: what rests after it rested before.
proof fn lemma_settle_residents(book: Book)
    requires
        ladder_wf(book.bids, Side::Buy),
        ladder_wf(book.asks, Side::Sell),
    ensures
        forall|id: OrderId| #[trigger]
            resident(book.settle().book.bids, id) ==> resident(book.bids, id),
        forall|id: OrderId| #[trigger]
            resident(book.settle().book.asks, id) ==> resident(book.asks, id),
{
    lemma_cross_residents(book.bids, book.asks);
    lemma_cross_settles(book.bids, book.asks);
    lemma_sweep_keeps(cross(book.bids, book.asks).bids, Side::Buy);
    lemma_sweep_keeps(cross(book.bids, book.asks).asks, Side::Sell);
}

/// The sweep leaves a ladder without Fill-and-Kill orders as it is.
proof fn lemma_sweep_nothing(levels: Seq<Level>)
    requires
        calm(levels),
    ensures
        sweep(levels) == levels,
{
}

/// Fill-or-Kill is all or nothing. Either the order is turned away, with no
/// trade and both ladders as they were; or the trades add up to the whole
/// quantity, the order does not rest, and the ladder of its own side is as it
/// was.
pub proof fn lemma_fill_or_kill_atomic(book: Book, side: Side, price: Price, quantity: Quantity)
    requires
        book.wf(),
    ensures
        ({
            let outcome = book.submit(side, OrderType::FillOrKill, price, quantity);
            if outcome.status == OrderStatus::Executed {
                &&& book.rejection(side, OrderType::FillOrKill, price, quantity) is None
                &&& traded(outcome.trades) == quantity
                &&& !outcome.book.has(outcome.order_id)
                &&& outcome.book.ladder(side) == book.ladder(side)
            } else {
                &&& outcome.status.is_rejection()
                &&& outcome.trades.len() == 0
                &&& outcome.book.bids == book.bids
                &&& outcome.book.asks == book.asks
            }
        }),
{
    if book.rejection(side, OrderType::FillOrKill, price, quantity) is None {
        let order = book.arrival(side, OrderType::FillOrKill, price, quantity);
        let own = book.ladder(side);
        let other = book.ladder(side.opposite());
        let placed = insert_order(own, side, order);
        let advanced = Book { next_id: book.following_id(), ..book };
        lemma_taker_placed(book, side, order);
        lemma_taker(side, placed, other);
        let met = engage(side, placed, other);
        assert(order.fill_by(quantity as nat).filled());
        assert(met.own =~= own);
        lemma_sweep_nothing(own);
        lemma_settle_residents(advanced.place(order));
    }
}

/// Fill-and-Kill never rests. Whatever becomes of the submission, the
/// ladder of the order's own side is as it was before, the trades add up to
/// no more than the quantity, and, unless the identifier was already
/// resident, no order carries it afterwards.
pub proof fn lemma_fill_and_kill_never_rests(
    book: Book,
    side: Side,
    price: Price,
    quantity: Quantity,
)
    requires
        book.wf(),
    ensures
        ({
            let outcome = book.submit(side, OrderType::FillAndKill, price, quantity);
            &&& outcome.book.ladder(side) == book.ladder(side)
            &&& traded(outcome.trades) <= quantity
            &&& outcome.status != OrderStatus::RejectedDuplicateId ==> !outcome.book.has(
                outcome.order_id,
            )
        }),
{
    if book.rejection(side, OrderType::FillAndKill, price, quantity) is None {
        let order = book.arrival(side, OrderType::FillAndKill, price, quantity);
        let own = book.ladder(side);
        let other = book.ladder(side.opposite());
        let placed = insert_order(own, side, order);
        let advanced = Book { next_id: book.following_id(), ..book };
        lemma_taker_placed(book, side, order);
        lemma_taker(side, placed, other);
        let met = engage(side, placed, other);
        let matched = traded(met.trades);
        if met.trades.len() > 0 && order.fill_by(matched).filled() {
            assert(met.own =~= own);
            lemma_sweep_nothing(own);
        } else {
            assert(met.own == touch(placed, matched));
            assert(met.own[0].orders[0].order_type == OrderType::FillAndKill);
            assert(sweep(met.own) =~= own);
        }
        lemma_settle_residents(advanced.place(order));
    } else {
        assert(traded(Seq::<Trade>::empty()) == 0);
    }
}

/// Conservation over a submission. In every trade the two legs carry the
/// same quantity. The opposite side loses exactly what was matched. The
/// order's own side gains the order's quantity less what was matched, except
/// for a Fill-and-Kill order, whose remainder is discarded. A submission
/// that is turned away moves no quantity.
pub proof fn lemma_submit_conserves(
    book: Book,
    side: Side,
    order_type: OrderType,
    price: Price,
    quantity: Quantity,
)
    requires
        book.wf(),
        book.has_room(side, order_type, price, quantity),
    ensures
        ({
            let outcome = book.submit(side, order_type, price, quantity);
            let own_before = ladder_quantity(book.ladder(side));
            let own_after = ladder_quantity(outcome.book.ladder(side));
            let other_before = ladder_quantity(book.ladder(side.opposite()));
            let other_after = ladder_quantity(outcome.book.ladder(side.opposite()));
            &&& forall|k: int|
                0 <= k < outcome.trades.len() ==> (#[trigger] outcome.trades[k]).bid_info.quantity
                    == outcome.trades[k].ask_info.quantity
            &&& other_after + traded(outcome.trades) == other_before
            &&& outcome.status.is_rejection() ==> own_after == own_before && traded(outcome.trades)
                == 0
            &&& !outcome.status.is_rejection() && order_type != OrderType::FillAndKill ==> own_after
                + traded(outcome.trades) == own_before + quantity
            &&& order_type == OrderType::FillAndKill ==> own_after == own_before
        }),
{
    if book.rejection(side, order_type, price, quantity) is None {
        let order = book.arrival(side, order_type, price, quantity);
        let own = book.ladder(side);
        let other = book.ladder(side.opposite());
        let placed = insert_order(own, side, order);
        let advanced = Book { next_id: book.following_id(), ..book };
        let ready = advanced.place(order);
        lemma_insert_order_wf(own, side, order);
        lemma_insert_order_sums(own, side, order);
        lemma_cross_conserves(ready.bids, ready.asks);
        lemma_cross_calm(ready.bids, ready.asks);
        let crossing = cross(ready.bids, ready.asks);
        if side == Side::Buy {
            lemma_sweep_nothing(crossing.asks);
        } else {
            lemma_sweep_nothing(crossing.bids);
        }
        if order_type != OrderType::FillAndKill {
            lemma_insert_order_calm(own, side, order);
            if side == Side::Buy {
                lemma_sweep_nothing(crossing.bids);
            } else {
                lemma_sweep_nothing(crossing.asks);
            }
        } else {
            lemma_fill_and_kill_never_rests(book, side, price, quantity);
        }
    } else {
        assert(traded(Seq::<Trade>::empty()) == 0);
    }
}

/// Every submission keeps the invariant of the book. In particular no
/// submission leaves the book crossed: afterwards the best bid is below the
/// best ask whenever both sides hold orders.
pub proof fn lemma_submit_keeps_wf(
    book: Book,
    side: Side,
    order_type: OrderType,
    price: Price,
    quantity: Quantity,
)
    requires
        book.wf(),
        book.has_room(side, order_type, price, quantity),
    ensures
        book.submit(side, order_type, price, quantity).book.wf(),
{
    if book.rejection(side, order_type, price, quantity) is None {
        let order = book.arrival(side, order_type, price, quantity);
        let own = book.ladder(side);
        let other = book.ladder(side.opposite());
        let advanced = Book { next_id: book.following_id(), ..book };
        let ready = advanced.place(order);
        lemma_insert_order_wf(own, side, order);
        lemma_insert_order_residents(own, side, order);
        if order.order_type == OrderType::FillAndKill {
            lemma_crossing_order_leads(own, other, side, order);
            lemma_lead_calm_behind(own, order);
        } else {
            lemma_insert_order_calm(own, side, order);
        }
        assert(ready.ladders_wf());
        lemma_settle_keeps_wf(ready);
    }
}

/// Matching turns a book that is well formed but for crossing into a
/// well-formed book.
pub proof fn lemma_settle_keeps_wf(book: Book)
    requires
        book.ladders_wf(),
    ensures
        book.settle().book.wf(),
{
    let crossing = cross(book.bids, book.asks);
    lemma_cross_settles(book.bids, book.asks);
    lemma_cross_calm(book.bids, book.asks);
    lemma_wf_populated(crossing.bids, Side::Buy);
    lemma_wf_populated(crossing.asks, Side::Sell);
    lemma_sweep_wf(crossing.bids, Side::Buy);
    lemma_sweep_wf(crossing.asks, Side::Sell);
    lemma_sweep_calm(crossing.bids);
    lemma_sweep_calm(crossing.asks);
    lemma_sweep_keeps_apart(crossing.bids, crossing.asks);
    lemma_settle_residents(book);
}

/// Every cancellation keeps the invariant of the book, takes the named
/// order off and leaves every other order resident.
pub proof fn lemma_cancel_keeps_wf(book: Book, id: OrderId)
    requires
        book.wf(),
    ensures
        book.cancel(id).wf(),
        forall|other: OrderId| #[trigger]
            book.cancel(id).has(other) <==> book.has(other) && other != id,
{
    lemma_remove_order_wf(book.bids, Side::Buy, id);
    lemma_remove_order_wf(book.asks, Side::Sell, id);
}

/// Every modification keeps the invariant of the book.
pub proof fn lemma_modify_keeps_wf(book: Book, request: OrderModify)
    requires
        book.wf(),
        book.has(request.order_id) ==> book.cancel(request.order_id).has_room(
            request.side,
            book.order(request.order_id).order_type,
            request.price,
            request.quantity,
        ),
    ensures
        book.modify(request).book.wf(),
{
    if book.has(request.order_id) {
        lemma_cancel_keeps_wf(book, request.order_id);
        lemma_submit_keeps_wf(
            book.cancel(request.order_id),
            request.side,
            book.order(request.order_id).order_type,
            request.price,
            request.quantity,
        );
    }
}

} // verus!
