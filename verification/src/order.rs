//! A single order and its fill state.

use vstd::prelude::*;
use crate::types::{OrderId, OrderType, Price, Quantity, Side};

verus! {

/// One intent to trade, with the quantity filled so far.
#[derive(Debug, Clone, Copy, PartialEq, Eq, Structural)]
pub struct Order {
    pub id: OrderId,
    pub side: Side,
    pub order_type: OrderType,
    pub price: Price,
    pub quantity: Quantity,
    pub filled_quantity: Quantity,
}

impl Order {
    /// The quantity still open: the quantity of the order less what was filled,
    /// never below zero.
    pub open spec fn remaining(self) -> nat {
        if self.filled_quantity <= self.quantity {
            (self.quantity - self.filled_quantity) as nat
        } else {
            0
        }
    }

    /// True when nothing is left to fill.
    pub open spec fn filled(self) -> bool {
        self.filled_quantity >= self.quantity
    }

    /// The order after `amount` more was filled. The fill never exceeds the
    /// quantity of the order.
    pub open spec fn fill_by(self, amount: nat) -> Order {
        Order {
            filled_quantity: if self.filled_quantity + amount > self.quantity {
                self.quantity
            } else {
                (self.filled_quantity + amount) as Quantity
            },
            ..self
        }
    }

    pub fn new(id: OrderId, side: Side, order_type: OrderType, price: Price, quantity: Quantity) -> (order: Self)
        ensures
            order == (Order { id, side, order_type, price, quantity, filled_quantity: 0 }),
    {
        Self { id, side, order_type, price, quantity, filled_quantity: 0 }
    }

    /// Records a fill of `quantity`, capped at the quantity of the order.
    pub fn fill(&mut self, quantity: Quantity)
        ensures
            *final(self) == old(self).fill_by(quantity as nat),
    {
        if self.filled_quantity >= self.quantity || quantity >= self.quantity - self.filled_quantity {
            self.filled_quantity = self.quantity;
        } else {
            self.filled_quantity = self.filled_quantity + quantity;
        }
    }

    pub fn is_filled(&self) -> (done: bool)
        ensures
            done == self.filled(),
    {
        self.filled_quantity >= self.quantity
    }

    pub fn get_remaining_quantity(&self) -> (open: Quantity)
        ensures
            open == self.remaining(),
    {
        if self.filled_quantity <= self.quantity {
            self.quantity - self.filled_quantity
        } else {
            0
        }
    }

    pub fn get_initial_quantity(&self) -> (quantity: Quantity)
        ensures
            quantity == self.quantity,
    {
        self.quantity
    }

    pub fn get_order_id(&self) -> (id: OrderId)
        ensures
            id == self.id,
    {
        self.id
    }

    pub fn get_side(&self) -> (side: Side)
        ensures
            side == self.side,
    {
        self.side
    }

    pub fn get_price(&self) -> (price: Price)
        ensures
            price == self.price,
    {
        self.price
    }

    pub fn get_order_type(&self) -> (order_type: OrderType)
        ensures
            order_type == self.order_type,
    {
        self.order_type
    }

    /// Turns the order into a Good-Till-Cancel order at `price`. This is how a
    /// market order gets the price it will trade and rest at.
    pub fn to_good_till_cancel(&mut self, price: Price)
        ensures
            *final(self) == (Order { price, order_type: OrderType::GoodTillCancel, ..*old(self) }),
    {
        self.price = price;
        self.order_type = OrderType::GoodTillCancel;
    }
}

/// Orders in arrival order.
pub type Orders = Vec<Order>;

} // verus!
