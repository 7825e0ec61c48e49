//! Records of executed matches.

use vstd::prelude::*;
use crate::types::{OrderId, Price, Quantity};

verus! {

/// One leg of a trade: the order that took part, that order's own price and
/// the quantity matched.
#[derive(Debug, Clone, Copy, PartialEq, Eq, Structural)]
pub struct TradeInfo {
    pub order_id: OrderId,
    pub price: Price,
    pub quantity: Quantity,
}

impl TradeInfo {
    pub fn new(order_id: OrderId, price: Price, quantity: Quantity) -> (info: Self)
        ensures
            info == (TradeInfo { order_id, price, quantity }),
    {
        Self { order_id, price, quantity }
    }
}

/// One executed match: a bid leg paired with an ask leg.
#[derive(Debug, Clone, Copy, PartialEq, Eq, Structural)]
pub struct Trade {
    pub bid_info: TradeInfo,
    pub ask_info: TradeInfo,
}

impl Trade {
    pub fn new(bid_info: TradeInfo, ask_info: TradeInfo) -> (trade: Self)
        ensures
            trade == (Trade { bid_info, ask_info }),
    {
        Self { bid_info, ask_info }
    }
}

/// The trades of one operation, in the order in which they were executed.
pub type Trades = Vec<Trade>;

} // verus!
