//! A request to replace a resident order.

use vstd::prelude::*;
use crate::order::Order;
use crate::types::{OrderId, OrderType, Price, Quantity, Side};

verus! {

/// The new side, price and quantity for the order with the given identifier.
#[derive(Debug, Clone, Copy, PartialEq, Eq, Structural)]
pub struct OrderModify {
    pub order_id: OrderId,
    pub side: Side,
    pub price: Price,
    pub quantity: Quantity,
}

impl OrderModify {
    pub fn new(order_id: OrderId, side: Side, price: Price, quantity: Quantity) -> (request: Self)
        ensures
            request == (OrderModify { order_id, side, price, quantity }),
    {
        Self { order_id, side, price, quantity }
    }

    pub fn get_order_id(&self) -> (id: OrderId)
        ensures
            id == self.order_id,
    {
        self.order_id
    }

    pub fn get_side(&self) -> (side: Side)
        ensures
            side == self.side,
    {
        self.side
    }

    pub fn get_price(&self) -> (price: Price)
        ensures
            price == self.price,
    {
        self.price
    }

    pub fn get_quantity(&self) -> (quantity: Quantity)
        ensures
            quantity == self.quantity,
    {
        self.quantity
    }

    /// A fresh, unfilled order of the given type that carries this request's
    /// identifier, side, price and quantity.
    pub fn to_order(&self, order_type: OrderType) -> (order: Order)
        ensures
            order == (Order {
                id: self.order_id,
                side: self.side,
                order_type,
                price: self.price,
                quantity: self.quantity,
                filled_quantity: 0,
            }),
    {
        Order::new(self.order_id, self.side, order_type, self.price, self.quantity)
    }
}

} // verus!
