use my_order_book::level::LevelData;
use my_order_book::{LevelInfo, OrderBook, OrderModify, OrderStatus, OrderType, Side, Trade, TradeInfo};

fn resting_quantity(book: &OrderBook) -> u64 {
    let infos = book.get_order_infos();
    let bids: u64 = infos.bids.iter().map(|level| level.quantity as u64).sum();
    let asks: u64 = infos.asks.iter().map(|level| level.quantity as u64).sum();
    bids + asks
}

fn matched_quantity(trades: &[Trade]) -> u64 {
    trades.iter().map(|trade| trade.bid_info.quantity as u64).sum()
}

fn uncrossed(book: &OrderBook) -> bool {
    match (book.get_best_bid(), book.get_best_ask()) {
        (Some(bid), Some(ask)) => bid < ask,
        _ => true,
    }
}

#[test]
fn resting_orders_do_not_trade() {
    let mut book = OrderBook::new();
    let first = book.add_order_with_status(Side::Buy, OrderType::Limit, 100, 10);
    let second = book.add_order_with_status(Side::Sell, OrderType::Limit, 105, 8);
    assert_eq!(first.status, OrderStatus::Accepted);
    assert_eq!(second.status, OrderStatus::Accepted);
    assert!(first.trades.is_empty());
    assert!(second.trades.is_empty());
    assert_eq!(book.get_best_bid(), Some(100));
    assert_eq!(book.get_best_ask(), Some(105));
    assert_eq!(book.size(), 2);
}

#[test]
fn crossing_buy_trades_against_resting_ask() {
    let mut book = OrderBook::new();
    book.add_order(Side::Buy, OrderType::Limit, 100, 10);
    let (ask_id, _) = book.add_order(Side::Sell, OrderType::Limit, 105, 8);
    let result = book.add_order_with_status(Side::Buy, OrderType::Limit, 105, 3);
    assert_eq!(result.status, OrderStatus::Executed);
    assert_eq!(result.order_id, 2);
    assert_eq!(
        result.trades,
        vec![Trade::new(TradeInfo::new(2, 105, 3), TradeInfo::new(ask_id, 105, 3))]
    );
    let infos = book.get_order_infos();
    assert_eq!(infos.asks, vec![LevelInfo { price: 105, quantity: 5 }]);
    assert_eq!(infos.bids, vec![LevelInfo { price: 100, quantity: 10 }]);
    assert_eq!(book.size(), 2);
}

#[test]
fn market_buy_on_empty_book_is_rejected() {
    let mut book = OrderBook::new();
    let result = book.add_order_with_status(Side::Buy, OrderType::Market, 0, 10);
    assert_eq!(result.status, OrderStatus::RejectedNoLiquidity);
    assert!(result.trades.is_empty());
    assert_eq!(book.size(), 0);
    assert_eq!(book.get_best_bid(), None);
    assert_eq!(book.get_best_ask(), None);
}

#[test]
fn fill_or_kill_is_all_or_nothing() {
    let mut book = OrderBook::new();
    book.add_order(Side::Sell, OrderType::Limit, 100, 5);
    let before = book.get_order_infos();
    let rejected = book.add_order_with_status(Side::Buy, OrderType::FillOrKill, 100, 10);
    assert_eq!(rejected.status, OrderStatus::RejectedFillOrKillPartialFill);
    assert!(rejected.trades.is_empty());
    assert_eq!(book.size(), 1);
    assert_eq!(book.get_order_infos(), before);
    let executed = book.add_order_with_status(Side::Buy, OrderType::FillOrKill, 100, 5);
    assert_eq!(executed.status, OrderStatus::Executed);
    assert_eq!(executed.trades.len(), 1);
    assert_eq!(executed.trades[0].bid_info.quantity, 5);
    assert_eq!(executed.trades[0].ask_info.quantity, 5);
    assert_eq!(book.size(), 0);
}

#[test]
fn market_buy_takes_price_of_worst_ask() {
    let mut book = OrderBook::new();
    let (ask_id, _) = book.add_order(Side::Sell, OrderType::Limit, 105, 10);
    let result = book.add_order_with_status(Side::Buy, OrderType::Market, 0, 5);
    assert_eq!(result.status, OrderStatus::Executed);
    assert_eq!(
        result.trades,
        vec![Trade::new(TradeInfo::new(1, 105, 5), TradeInfo::new(ask_id, 105, 5))]
    );
    assert_eq!(book.get_order_infos().asks, vec![LevelInfo { price: 105, quantity: 5 }]);
    assert_eq!(book.get_best_bid(), None);
}

#[test]
fn market_buy_remainder_rests_at_worst_ask_price() {
    let mut book = OrderBook::new();
    book.add_order(Side::Sell, OrderType::Limit, 105, 4);
    book.add_order(Side::Sell, OrderType::Limit, 107, 3);
    let result = book.add_order_with_status(Side::Buy, OrderType::Market, 0, 10);
    assert_eq!(result.status, OrderStatus::Executed);
    assert_eq!(
        result.trades,
        vec![
            Trade::new(TradeInfo::new(2, 107, 4), TradeInfo::new(0, 105, 4)),
            Trade::new(TradeInfo::new(2, 107, 3), TradeInfo::new(1, 107, 3)),
        ]
    );
    assert_eq!(book.get_best_ask(), None);
    assert_eq!(book.get_order_infos().bids, vec![LevelInfo { price: 107, quantity: 3 }]);
    assert_eq!(book.size(), 1);
}

#[test]
fn market_sell_takes_price_of_worst_bid() {
    let mut book = OrderBook::new();
    book.add_order(Side::Buy, OrderType::Limit, 100, 2);
    book.add_order(Side::Buy, OrderType::Limit, 98, 2);
    let result = book.add_order_with_status(Side::Sell, OrderType::Market, 0, 3);
    assert_eq!(
        result.trades,
        vec![
            Trade::new(TradeInfo::new(0, 100, 2), TradeInfo::new(2, 98, 2)),
            Trade::new(TradeInfo::new(1, 98, 1), TradeInfo::new(2, 98, 1)),
        ]
    );
    assert_eq!(book.get_order_infos().bids, vec![LevelInfo { price: 98, quantity: 1 }]);
    assert_eq!(book.get_best_ask(), None);
}

#[test]
fn market_sell_on_empty_bids_is_rejected() {
    let mut book = OrderBook::new();
    book.add_order(Side::Sell, OrderType::Limit, 105, 4);
    let result = book.add_order_with_status(Side::Sell, OrderType::Market, 0, 3);
    assert_eq!(result.status, OrderStatus::RejectedNoLiquidity);
    assert_eq!(book.size(), 1);
}

#[test]
fn earlier_order_at_a_price_trades_first() {
    let mut book = OrderBook::new();
    let (first, _) = book.add_order(Side::Sell, OrderType::Limit, 100, 5);
    let (second, _) = book.add_order(Side::Sell, OrderType::Limit, 100, 5);
    let (taker, trades) = book.add_order(Side::Buy, OrderType::Limit, 100, 7);
    assert_eq!(
        trades,
        vec![
            Trade::new(TradeInfo::new(taker, 100, 5), TradeInfo::new(first, 100, 5)),
            Trade::new(TradeInfo::new(taker, 100, 2), TradeInfo::new(second, 100, 2)),
        ]
    );
    assert_eq!(book.get_order_infos().asks, vec![LevelInfo { price: 100, quantity: 3 }]);
    assert_eq!(book.size(), 1);
}

#[test]
fn partly_filled_order_keeps_its_place() {
    let mut book = OrderBook::new();
    let (first, _) = book.add_order(Side::Sell, OrderType::Limit, 100, 5);
    let (second, _) = book.add_order(Side::Sell, OrderType::Limit, 100, 5);
    book.add_order(Side::Buy, OrderType::Limit, 100, 2);
    let (taker, trades) = book.add_order(Side::Buy, OrderType::Limit, 100, 4);
    assert_eq!(
        trades,
        vec![
            Trade::new(TradeInfo::new(taker, 100, 3), TradeInfo::new(first, 100, 3)),
            Trade::new(TradeInfo::new(taker, 100, 1), TradeInfo::new(second, 100, 1)),
        ]
    );
}

#[test]
fn better_price_trades_before_earlier_order() {
    let mut book = OrderBook::new();
    let (early, _) = book.add_order(Side::Sell, OrderType::Limit, 102, 5);
    let (late, _) = book.add_order(Side::Sell, OrderType::Limit, 101, 5);
    let (taker, trades) = book.add_order(Side::Buy, OrderType::Limit, 103, 8);
    assert_eq!(
        trades,
        vec![
            Trade::new(TradeInfo::new(taker, 103, 5), TradeInfo::new(late, 101, 5)),
            Trade::new(TradeInfo::new(taker, 103, 3), TradeInfo::new(early, 102, 3)),
        ]
    );
    assert_eq!(book.get_order_infos().asks, vec![LevelInfo { price: 102, quantity: 2 }]);
}

#[test]
fn each_leg_reports_its_own_price() {
    let mut book = OrderBook::new();
    book.add_order(Side::Sell, OrderType::Limit, 100, 5);
    let (_, trades) = book.add_order(Side::Buy, OrderType::Limit, 110, 5);
    assert_eq!(trades.len(), 1);
    assert_eq!(trades[0].bid_info.price, 110);
    assert_eq!(trades[0].ask_info.price, 100);
}

#[test]
fn quantity_is_conserved_by_matching() {
    let mut book = OrderBook::new();
    book.add_order(Side::Sell, OrderType::Limit, 101, 7);
    book.add_order(Side::Sell, OrderType::Limit, 102, 9);
    book.add_order(Side::Buy, OrderType::Limit, 99, 4);
    let before = resting_quantity(&book);
    assert_eq!(before, 20);
    let (_, trades) = book.add_order(Side::Buy, OrderType::Limit, 102, 12);
    let matched = matched_quantity(&trades);
    assert_eq!(matched, 12);
    for trade in trades.iter() {
        assert_eq!(trade.bid_info.quantity, trade.ask_info.quantity);
    }
    assert_eq!(resting_quantity(&book) + 2 * matched, before + 12);
    assert_eq!(resting_quantity(&book), 8);
}

#[test]
fn book_is_never_left_crossed() {
    let mut book = OrderBook::new();
    book.add_order(Side::Buy, OrderType::Limit, 100, 10);
    assert!(uncrossed(&book));
    book.add_order(Side::Sell, OrderType::Limit, 99, 4);
    assert!(uncrossed(&book));
    book.add_order(Side::Sell, OrderType::Limit, 100, 10);
    assert!(uncrossed(&book));
    book.add_order(Side::Buy, OrderType::GoodTillCancel, 105, 1);
    assert!(uncrossed(&book));
    book.add_order(Side::Buy, OrderType::Market, 0, 50);
    assert!(uncrossed(&book));
    assert_eq!(book.get_best_bid(), Some(100));
    assert_eq!(book.get_best_ask(), None);
    assert_eq!(book.get_order_infos().bids, vec![LevelInfo { price: 100, quantity: 47 }]);
}

#[test]
fn fill_or_kill_walks_levels_within_its_limit() {
    let mut book = OrderBook::new();
    book.add_order(Side::Sell, OrderType::Limit, 100, 5);
    book.add_order(Side::Sell, OrderType::Limit, 101, 5);
    book.add_order(Side::Sell, OrderType::Limit, 102, 5);
    let short = book.add_order_with_status(Side::Buy, OrderType::FillOrKill, 101, 11);
    assert_eq!(short.status, OrderStatus::RejectedFillOrKillPartialFill);
    assert_eq!(book.size(), 3);
    let full = book.add_order_with_status(Side::Buy, OrderType::FillOrKill, 101, 10);
    assert_eq!(full.status, OrderStatus::Executed);
    assert_eq!(matched_quantity(&full.trades), 10);
    assert_eq!(full.trades.len(), 2);
    assert_eq!(book.get_order_infos().asks, vec![LevelInfo { price: 102, quantity: 5 }]);
    assert_eq!(book.get_best_bid(), None);
}

#[test]
fn fill_or_kill_sell_walks_bids_downward() {
    let mut book = OrderBook::new();
    book.add_order(Side::Buy, OrderType::Limit, 100, 5);
    book.add_order(Side::Buy, OrderType::Limit, 99, 5);
    let short = book.add_order_with_status(Side::Sell, OrderType::FillOrKill, 100, 6);
    assert_eq!(short.status, OrderStatus::RejectedFillOrKillPartialFill);
    let full = book.add_order_with_status(Side::Sell, OrderType::FillOrKill, 99, 6);
    assert_eq!(full.status, OrderStatus::Executed);
    assert_eq!(
        full.trades,
        vec![
            Trade::new(TradeInfo::new(0, 100, 5), TradeInfo::new(3, 99, 5)),
            Trade::new(TradeInfo::new(1, 99, 1), TradeInfo::new(3, 99, 1)),
        ]
    );
    assert_eq!(book.get_order_infos().bids, vec![LevelInfo { price: 99, quantity: 4 }]);
    assert_eq!(book.get_best_ask(), None);
}

#[test]
fn fill_or_kill_without_a_match_is_rejected() {
    let mut book = OrderBook::new();
    book.add_order(Side::Sell, OrderType::Limit, 105, 5);
    let result = book.add_order_with_status(Side::Buy, OrderType::FillOrKill, 100, 0);
    assert_eq!(result.status, OrderStatus::RejectedFillOrKillPartialFill);
    assert_eq!(book.size(), 1);
}

#[test]
fn fill_and_kill_remainder_does_not_rest() {
    let mut book = OrderBook::new();
    book.add_order(Side::Sell, OrderType::Limit, 100, 5);
    book.add_order(Side::Buy, OrderType::Limit, 90, 1);
    let result = book.add_order_with_status(Side::Buy, OrderType::FillAndKill, 100, 8);
    assert_eq!(result.status, OrderStatus::Executed);
    assert_eq!(
        result.trades,
        vec![Trade::new(TradeInfo::new(2, 100, 5), TradeInfo::new(0, 100, 5))]
    );
    assert_eq!(book.size(), 1);
    assert_eq!(book.get_best_bid(), Some(90));
    assert_eq!(book.get_best_ask(), None);
    assert_eq!(book.get_order_infos().bids, vec![LevelInfo { price: 90, quantity: 1 }]);
}

#[test]
fn fill_and_kill_sell_remainder_does_not_rest() {
    let mut book = OrderBook::new();
    book.add_order(Side::Buy, OrderType::Limit, 100, 5);
    let result = book.add_order_with_status(Side::Sell, OrderType::FillAndKill, 95, 8);
    assert_eq!(result.status, OrderStatus::Executed);
    assert_eq!(matched_quantity(&result.trades), 5);
    assert_eq!(book.size(), 0);
    assert_eq!(book.get_best_ask(), None);
}

#[test]
fn fill_and_kill_without_a_match_is_rejected() {
    let mut book = OrderBook::new();
    book.add_order(Side::Buy, OrderType::Limit, 100, 5);
    let result = book.add_order_with_status(Side::Sell, OrderType::FillAndKill, 101, 8);
    assert_eq!(result.status, OrderStatus::RejectedFillAndKillNoMatch);
    assert!(result.trades.is_empty());
    assert_eq!(book.size(), 1);
    let empty_side = book.add_order_with_status(Side::Buy, OrderType::FillAndKill, 101, 8);
    assert_eq!(empty_side.status, OrderStatus::RejectedFillAndKillNoMatch);
}

#[test]
fn rejected_submission_still_takes_an_identifier() {
    let mut book = OrderBook::new();
    let rejected = book.add_order_with_status(Side::Buy, OrderType::Market, 0, 1);
    assert_eq!(rejected.order_id, 0);
    let accepted = book.add_order_with_status(Side::Buy, OrderType::Limit, 10, 1);
    assert_eq!(accepted.order_id, 1);
}

#[test]
fn stop_orders_rest_like_priced_orders() {
    let mut book = OrderBook::new();
    let stop = book.add_order_with_status(Side::Buy, OrderType::Stop, 100, 5);
    let stop_limit = book.add_order_with_status(Side::Sell, OrderType::StopLimit, 101, 5);
    let day = book.add_order_with_status(Side::Sell, OrderType::GoodForDay, 102, 5);
    assert_eq!(stop.status, OrderStatus::Accepted);
    assert_eq!(stop_limit.status, OrderStatus::Accepted);
    assert_eq!(day.status, OrderStatus::Accepted);
    assert_eq!(book.size(), 3);
    book.prune_good_for_day_orders();
    assert_eq!(book.size(), 3);
    assert_eq!(book.get_best_ask(), Some(101));
}

#[test]
fn zero_quantity_order_rests_and_trades_nothing() {
    let mut book = OrderBook::new();
    let resting = book.add_order_with_status(Side::Sell, OrderType::Limit, 100, 0);
    assert_eq!(resting.status, OrderStatus::Accepted);
    assert_eq!(book.size(), 1);
    assert_eq!(book.get_order_infos().asks, vec![LevelInfo { price: 100, quantity: 0 }]);
    let taker = book.add_order_with_status(Side::Buy, OrderType::Limit, 100, 4);
    assert_eq!(taker.status, OrderStatus::Executed);
    assert_eq!(
        taker.trades,
        vec![Trade::new(TradeInfo::new(1, 100, 0), TradeInfo::new(0, 100, 0))]
    );
    assert_eq!(book.get_order_infos().bids, vec![LevelInfo { price: 100, quantity: 4 }]);
    assert_eq!(book.get_best_ask(), None);
}

#[test]
fn cancel_removes_only_the_named_order() {
    let mut book = OrderBook::new();
    let (first, _) = book.add_order(Side::Buy, OrderType::Limit, 100, 10);
    let (second, _) = book.add_order(Side::Buy, OrderType::Limit, 100, 4);
    let (third, _) = book.add_order(Side::Buy, OrderType::Limit, 99, 6);
    book.cancel_order(first);
    assert_eq!(book.size(), 2);
    assert_eq!(
        book.get_order_infos().bids,
        vec![LevelInfo { price: 100, quantity: 4 }, LevelInfo { price: 99, quantity: 6 }]
    );
    book.cancel_order(first);
    assert_eq!(book.size(), 2);
    book.cancel_order(999);
    assert_eq!(book.size(), 2);
    book.cancel_order_internal(second);
    assert_eq!(book.get_best_bid(), Some(99));
    book.cancel_orders(vec![third, second, 12345]);
    assert_eq!(book.size(), 0);
    assert_eq!(book.get_best_bid(), None);
    assert!(book.get_order_infos().bids.is_empty());
}

#[test]
fn cancel_of_partly_filled_order_clears_its_level() {
    let mut book = OrderBook::new();
    let (ask, _) = book.add_order(Side::Sell, OrderType::Limit, 100, 10);
    book.add_order(Side::Buy, OrderType::Limit, 100, 4);
    assert_eq!(book.get_order_infos().asks, vec![LevelInfo { price: 100, quantity: 6 }]);
    book.cancel_order(ask);
    assert_eq!(book.size(), 0);
    let again = book.add_order_with_status(Side::Buy, OrderType::FillOrKill, 100, 1);
    assert_eq!(again.status, OrderStatus::RejectedFillOrKillPartialFill);
}

#[test]
fn fill_or_kill_sees_remainder_after_partial_fill() {
    let mut book = OrderBook::new();
    book.add_order(Side::Sell, OrderType::Limit, 100, 10);
    book.add_order(Side::Buy, OrderType::Limit, 100, 3);
    let too_much = book.add_order_with_status(Side::Buy, OrderType::FillOrKill, 100, 8);
    assert_eq!(too_much.status, OrderStatus::RejectedFillOrKillPartialFill);
    let exact = book.add_order_with_status(Side::Buy, OrderType::FillOrKill, 100, 7);
    assert_eq!(exact.status, OrderStatus::Executed);
    assert_eq!(matched_quantity(&exact.trades), 7);
    assert_eq!(book.size(), 0);
}

#[test]
fn modify_gives_up_priority() {
    let mut book = OrderBook::new();
    let (first, _) = book.add_order(Side::Sell, OrderType::Limit, 100, 5);
    let (second, _) = book.add_order(Side::Sell, OrderType::Limit, 100, 5);
    let trades = book.modify_order(OrderModify::new(first, Side::Sell, 100, 5));
    assert!(trades.is_empty());
    assert_eq!(book.size(), 2);
    let (taker, trades) = book.add_order(Side::Buy, OrderType::Limit, 100, 5);
    assert_eq!(taker, 3);
    assert_eq!(
        trades,
        vec![Trade::new(TradeInfo::new(3, 100, 5), TradeInfo::new(second, 100, 5))]
    );
    let (_, rest) = book.add_order(Side::Buy, OrderType::Limit, 100, 5);
    assert_eq!(rest, vec![Trade::new(TradeInfo::new(4, 100, 5), TradeInfo::new(2, 100, 5))]);
}

#[test]
fn modify_can_cross_and_trade() {
    let mut book = OrderBook::new();
    let (bid, _) = book.add_order(Side::Buy, OrderType::GoodTillCancel, 100, 5);
    book.add_order(Side::Sell, OrderType::Limit, 105, 3);
    let trades = book.modify_order(OrderModify::new(bid, Side::Buy, 105, 5));
    assert_eq!(trades, vec![Trade::new(TradeInfo::new(2, 105, 3), TradeInfo::new(1, 105, 3))]);
    assert_eq!(book.get_order_infos().bids, vec![LevelInfo { price: 105, quantity: 2 }]);
    assert_eq!(book.get_best_ask(), None);
}

#[test]
fn modify_of_unknown_order_does_nothing() {
    let mut book = OrderBook::new();
    book.add_order(Side::Buy, OrderType::Limit, 100, 5);
    let trades = book.modify_order(OrderModify::new(77, Side::Sell, 90, 5));
    assert!(trades.is_empty());
    assert_eq!(book.size(), 1);
    assert_eq!(book.get_best_bid(), Some(100));
    let (next, _) = book.add_order(Side::Buy, OrderType::Limit, 100, 5);
    assert_eq!(next, 1);
}

#[test]
fn snapshot_lists_levels_best_first() {
    let mut book = OrderBook::new();
    book.add_order(Side::Buy, OrderType::Limit, 99, 5);
    book.add_order(Side::Buy, OrderType::Limit, 101, 1);
    book.add_order(Side::Buy, OrderType::Limit, 100, 2);
    book.add_order(Side::Buy, OrderType::Limit, 101, 6);
    book.add_order(Side::Sell, OrderType::Limit, 110, 5);
    book.add_order(Side::Sell, OrderType::Limit, 105, 5);
    book.add_order(Side::Sell, OrderType::Limit, 107, 5);
    book.add_order(Side::Sell, OrderType::Limit, 105, 2);
    let infos = book.get_order_infos();
    assert_eq!(
        infos.bids,
        vec![
            LevelInfo { price: 101, quantity: 7 },
            LevelInfo { price: 100, quantity: 2 },
            LevelInfo { price: 99, quantity: 5 },
        ]
    );
    assert_eq!(
        infos.asks,
        vec![
            LevelInfo { price: 105, quantity: 7 },
            LevelInfo { price: 107, quantity: 5 },
            LevelInfo { price: 110, quantity: 5 },
        ]
    );
    assert_eq!(book.size(), 8);
}

#[test]
fn room_runs_out_when_a_level_is_full() {
    let mut book = OrderBook::new();
    book.add_order(Side::Buy, OrderType::Limit, 100, u32::MAX - 1);
    assert!(book.has_room(Side::Buy, OrderType::Limit, 100, 1));
    assert!(!book.has_room(Side::Buy, OrderType::Limit, 100, 2));
    assert!(book.has_room(Side::Buy, OrderType::Limit, 99, u32::MAX));
    assert!(book.has_room(Side::Sell, OrderType::Limit, 100, u32::MAX));
    assert!(book.has_room(Side::Sell, OrderType::Market, 0, u32::MAX));
    assert!(book.has_room(Side::Buy, OrderType::Market, 0, u32::MAX));
    assert!(book.has_room(Side::Buy, OrderType::FillAndKill, 100, 2));
    book.add_order(Side::Buy, OrderType::Limit, 100, 1);
    assert_eq!(book.get_order_infos().bids, vec![LevelInfo { price: 100, quantity: u32::MAX }]);
    let (_, trades) = book.add_order(Side::Sell, OrderType::Market, 0, u32::MAX);
    assert_eq!(trades.len(), 2);
    assert_eq!(matched_quantity(&trades), u32::MAX as u64);
    assert_eq!(book.size(), 0);
}

#[test]
fn admission_reports_the_order_or_the_reason() {
    let mut book = OrderBook::new();
    book.add_order(Side::Sell, OrderType::Limit, 105, 4);
    book.add_order(Side::Sell, OrderType::Limit, 108, 4);
    let market = book.admission(Side::Buy, OrderType::Market, 0, 3).unwrap();
    assert_eq!(market.get_order_id(), 2);
    assert_eq!(market.get_price(), 108);
    assert_eq!(market.get_order_type(), OrderType::GoodTillCancel);
    assert_eq!(market.get_initial_quantity(), 3);
    assert_eq!(
        book.admission(Side::Sell, OrderType::Market, 0, 3),
        Err(OrderStatus::RejectedNoLiquidity)
    );
    assert_eq!(
        book.admission(Side::Buy, OrderType::FillAndKill, 104, 3),
        Err(OrderStatus::RejectedFillAndKillNoMatch)
    );
    assert_eq!(
        book.admission(Side::Buy, OrderType::FillOrKill, 105, 5),
        Err(OrderStatus::RejectedFillOrKillPartialFill)
    );
    assert!(book.admission(Side::Buy, OrderType::FillOrKill, 108, 8).is_ok());
    assert!(book.can_match(Side::Buy, 105));
    assert!(!book.can_match(Side::Buy, 104));
    assert!(!book.can_match(Side::Sell, 1));
    assert!(book.can_fully_fill(Side::Buy, 107, 4));
    assert!(!book.can_fully_fill(Side::Buy, 107, 5));
    assert_eq!(book.size(), 2);
}

#[test]
fn default_book_is_empty() {
    let mut book = OrderBook::default();
    assert_eq!(book.size(), 0);
    assert!(book.match_orders().is_empty());
    let (id, _) = book.add_order(Side::Sell, OrderType::Limit, 1, 1);
    assert_eq!(id, 0);
}

#[test]
fn level_totals_follow_every_operation() {
    let mut book = OrderBook::new();
    assert_eq!(book.level_data(Side::Sell, 100), None);
    let (first, _) = book.add_order(Side::Sell, OrderType::Limit, 100, 10);
    book.add_order(Side::Sell, OrderType::Limit, 100, 6);
    book.add_order(Side::Sell, OrderType::Limit, 101, 1);
    assert_eq!(book.level_data(Side::Sell, 100), Some(LevelData { quantity: 16, count: 2 }));
    assert_eq!(book.level_data(Side::Buy, 100), None);
    book.add_order(Side::Buy, OrderType::Limit, 100, 4);
    assert_eq!(book.level_data(Side::Sell, 100), Some(LevelData { quantity: 12, count: 2 }));
    assert_eq!(book.level_data(Side::Buy, 100), None);
    book.cancel_order(first);
    assert_eq!(book.level_data(Side::Sell, 100), Some(LevelData { quantity: 6, count: 1 }));
    book.add_order(Side::Buy, OrderType::Limit, 100, 6);
    assert_eq!(book.level_data(Side::Sell, 100), None);
    assert_eq!(book.level_data(Side::Sell, 101), Some(LevelData { quantity: 1, count: 1 }));
    assert_eq!(book.size(), 1);
}
