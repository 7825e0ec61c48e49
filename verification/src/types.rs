//! Core types used throughout the order book.

use vstd::prelude::*;

verus! {

/// Unique identifier of an order.
pub type OrderId = u64;

/// A list of order identifiers.
pub type OrderIds = Vec<OrderId>;

/// A price, in ticks.
pub type Price = u32;

/// A quantity of shares or units.
pub type Quantity = u32;

/// Side of the market.
#[derive(Debug, Clone, Copy, PartialEq, Eq, Hash, Structural)]
pub enum Side {
    Buy,
    Sell,
}

impl Side {
    /// The side an order of this side trades against.
    pub open spec fn opposite(self) -> Side {
        match self {
            Side::Buy => Side::Sell,
            Side::Sell => Side::Buy,
        }
    }
}

/// Lifetime and fill policy of an order.
#[derive(Debug, Clone, Copy, PartialEq, Eq, Structural)]
pub enum OrderType {
    /// Execute what can be matched at once, cancel the remainder.
    FillAndKill,
    /// Execute completely at once or not at all.
    FillOrKill,
    /// Rest on the book until cancelled.
    GoodTillCancel,
    /// Rest on the book until the end of the trading day.
    GoodForDay,
    /// Execute at the given price or better, rest otherwise.
    Limit,
    /// Execute at once against whatever rests on the opposite side.
    Market,
    /// A stop order. The engine gives the tag no behaviour of its own.
    Stop,
    /// A stop-limit order. The engine gives the tag no behaviour of its own.
    StopLimit,
}

/// One line of a book snapshot: a price and the quantity resting at it.
#[derive(Debug, Clone, Copy, PartialEq, Eq, Structural)]
pub struct LevelInfo {
    pub price: Price,
    pub quantity: Quantity,
}

/// Outcome of one submission.
#[derive(Debug, Clone, Copy, PartialEq, Eq, Structural)]
pub enum OrderStatus {
    /// The order rests on the book; nothing was matched.
    Accepted,
    /// At least one trade occurred; a remainder may still rest.
    Executed,
    /// A market order found the opposite side empty.
    RejectedNoLiquidity,
    /// A Fill-and-Kill order could not cross the best opposing price.
    RejectedFillAndKillNoMatch,
    /// A Fill-or-Kill order could not be filled completely within its limit.
    RejectedFillOrKillPartialFill,
    /// The identifier is already resident.
    RejectedDuplicateId,
}

impl OrderStatus {
    /// The text shown to a user for each status.
    pub open spec fn spec_message(self) -> Seq<char> {
        match self {
            OrderStatus::Accepted => "Order accepted and placed in order book"@,
            OrderStatus::Executed => "Order executed successfully"@,
            OrderStatus::RejectedNoLiquidity =>
                "Market order rejected: no liquidity available on opposite side"@,
            OrderStatus::RejectedFillAndKillNoMatch =>
                "Fill-and-Kill order rejected: no matching orders available"@,
            OrderStatus::RejectedFillOrKillPartialFill =>
                "Fill-or-Kill order rejected: insufficient liquidity for complete fill"@,
            OrderStatus::RejectedDuplicateId => "Order rejected: duplicate order ID"@,
        }
    }

    /// True for the four rejection kinds.
    pub open spec fn is_rejection(self) -> bool {
        !(self is Accepted) && !(self is Executed)
    }

    /// Human-readable text for this status.
    pub fn message(&self) -> (text: &'static str)
        ensures
            text@ == self.spec_message(),
    {
        match self {
            OrderStatus::Accepted => "Order accepted and placed in order book",
            OrderStatus::Executed => "Order executed successfully",
            OrderStatus::RejectedNoLiquidity =>
                "Market order rejected: no liquidity available on opposite side",
            OrderStatus::RejectedFillAndKillNoMatch =>
                "Fill-and-Kill order rejected: no matching orders available",
            OrderStatus::RejectedFillOrKillPartialFill =>
                "Fill-or-Kill order rejected: insufficient liquidity for complete fill",
            OrderStatus::RejectedDuplicateId => "Order rejected: duplicate order ID",
        }
    }
}

/// What a submission returns: the identifier given to the order, the status and
/// the trades it caused.
#[derive(Debug, Clone, PartialEq)]
pub struct OrderResult {
    pub order_id: OrderId,
    pub status: OrderStatus,
    pub trades: crate::trade::Trades,
}

impl OrderResult {
    pub fn new(order_id: OrderId, status: OrderStatus, trades: crate::trade::Trades) -> (result: Self)
        ensures
            result.order_id == order_id,
            result.status == status,
            result.trades == trades,
    {
        Self { order_id, status, trades }
    }
}

} // verus!
