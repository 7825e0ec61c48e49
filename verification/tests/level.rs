use my_order_book::level::{can_trade, has_priority, BookSide, LevelAction, LevelData, PriceLevel};
use my_order_book::{LevelInfo, Order, OrderType, Side};

#[test]
fn level_data_starts_empty() {
    let data = LevelData::new();
    assert_eq!(data.quantity, 0);
    assert_eq!(data.count, 0);
}

#[test]
fn level_data_follows_each_action() {
    let mut data = LevelData::new();
    data.update_level_data(10, LevelAction::Add);
    data.update_level_data(5, LevelAction::Add);
    assert_eq!(data, LevelData { quantity: 15, count: 2 });
    data.update_level_data(4, LevelAction::Match);
    assert_eq!(data, LevelData { quantity: 11, count: 2 });
    data.update_level_data(6, LevelAction::Remove);
    assert_eq!(data, LevelData { quantity: 5, count: 1 });
    data.update_level_data(9, LevelAction::Remove);
    assert_eq!(data, LevelData { quantity: 0, count: 0 });
    data.update_level_data(9, LevelAction::Match);
    data.update_level_data(9, LevelAction::Remove);
    assert_eq!(data, LevelData { quantity: 0, count: 0 });
}

#[test]
fn level_data_hooks_account_for_orders() {
    let mut order = Order::new(1, Side::Buy, OrderType::Limit, 100, 10);
    let mut data = LevelData::new();
    data.on_order_added(&order);
    assert_eq!(data, LevelData { quantity: 10, count: 1 });
    data.on_order_matched(3, false);
    order.fill(3);
    assert_eq!(data, LevelData { quantity: 7, count: 1 });
    data.on_order_added(&Order::new(2, Side::Buy, OrderType::Limit, 100, 5));
    assert_eq!(data, LevelData { quantity: 12, count: 2 });
    data.on_order_cancelled(&order);
    assert_eq!(data, LevelData { quantity: 5, count: 1 });
    data.on_order_matched(5, true);
    assert_eq!(data, LevelData { quantity: 0, count: 0 });
}

#[test]
fn price_level_keeps_totals_with_its_queue() {
    let mut level = PriceLevel::new(Order::new(1, Side::Sell, OrderType::Limit, 50, 10));
    level.push_back(Order::new(2, Side::Sell, OrderType::Limit, 50, 4));
    assert_eq!(level.data, LevelData { quantity: 14, count: 2 });
    assert_eq!(level.open_quantity(), 14);
    assert!(!level.fill_front(6));
    assert_eq!(level.orders[0].filled_quantity, 6);
    assert_eq!(level.data, LevelData { quantity: 8, count: 2 });
    assert!(level.fill_front(4));
    assert_eq!(level.orders.len(), 1);
    assert_eq!(level.orders[0].id, 2);
    assert_eq!(level.data, LevelData { quantity: 4, count: 1 });
    assert_eq!(level.position(2), Some(0));
    assert_eq!(level.position(1), None);
    let removed = level.remove_at(0);
    assert_eq!(removed.id, 2);
    assert_eq!(level.data, LevelData { quantity: 0, count: 0 });
    assert_eq!(level.open_quantity(), 0);
}

#[test]
fn priority_and_crossing_by_side() {
    assert!(has_priority(Side::Buy, 101, 100));
    assert!(!has_priority(Side::Buy, 100, 100));
    assert!(!has_priority(Side::Buy, 99, 100));
    assert!(has_priority(Side::Sell, 99, 100));
    assert!(!has_priority(Side::Sell, 100, 100));
    assert!(can_trade(Side::Buy, 100, 100));
    assert!(can_trade(Side::Buy, 101, 100));
    assert!(!can_trade(Side::Buy, 99, 100));
    assert!(can_trade(Side::Sell, 100, 100));
    assert!(can_trade(Side::Sell, 99, 100));
    assert!(!can_trade(Side::Sell, 101, 100));
}

#[test]
fn book_side_orders_levels_by_priority() {
    let mut asks = BookSide::new(Side::Sell);
    assert!(asks.is_empty());
    assert_eq!(asks.best_price(), None);
    assert_eq!(asks.worst_price(), None);
    asks.insert(Order::new(1, Side::Sell, OrderType::Limit, 105, 5));
    asks.insert(Order::new(2, Side::Sell, OrderType::Limit, 103, 2));
    asks.insert(Order::new(3, Side::Sell, OrderType::Limit, 107, 1));
    asks.insert(Order::new(4, Side::Sell, OrderType::Limit, 103, 4));
    assert_eq!(asks.best_price(), Some(103));
    assert_eq!(asks.worst_price(), Some(107));
    assert_eq!(asks.front().id, 2);
    assert_eq!(asks.level_data(103), Some(LevelData { quantity: 6, count: 2 }));
    assert_eq!(asks.level_data(104), None);
    assert_eq!(
        asks.level_infos(),
        vec![
            LevelInfo { price: 103, quantity: 6 },
            LevelInfo { price: 105, quantity: 5 },
            LevelInfo { price: 107, quantity: 1 },
        ]
    );
    assert!(asks.depth_reaches(105, 11));
    assert!(!asks.depth_reaches(105, 12));
    assert!(asks.depth_reaches(200, 12));
    assert!(!asks.depth_reaches(102, 1));
    assert!(asks.depth_reaches(102, 0));
    assert_eq!(asks.find(4, 103).map(|order| order.quantity), Some(4));
    assert_eq!(asks.find(4, 105), None);
    assert!(asks.fill_front(2));
    assert_eq!(asks.front().id, 4);
    assert!(!asks.fill_front(1));
    assert_eq!(asks.front().filled_quantity, 1);
    assert_eq!(asks.remove(1, 105).map(|order| order.id), Some(1));
    assert_eq!(asks.remove(1, 105), None);
    assert_eq!(asks.drop_front().id, 4);
    assert_eq!(asks.level_infos(), vec![LevelInfo { price: 107, quantity: 1 }]);
}

#[test]
fn bid_side_puts_highest_price_first() {
    let mut bids = BookSide::new(Side::Buy);
    bids.insert(Order::new(1, Side::Buy, OrderType::Limit, 100, 5));
    bids.insert(Order::new(2, Side::Buy, OrderType::Limit, 102, 5));
    bids.insert(Order::new(3, Side::Buy, OrderType::Limit, 101, 5));
    assert_eq!(bids.best_price(), Some(102));
    assert_eq!(bids.worst_price(), Some(100));
    assert!(bids.depth_reaches(101, 10));
    assert!(!bids.depth_reaches(101, 11));
}

#[test]
fn fill_never_exceeds_the_quantity() {
    let mut order = Order::new(1, Side::Buy, OrderType::Limit, 100, 10);
    order.fill(7);
    order.fill(u32::MAX);
    assert_eq!(order.filled_quantity, 10);
    assert_eq!(order.get_remaining_quantity(), 0);
    order.filled_quantity = 12;
    assert_eq!(order.get_remaining_quantity(), 0);
    assert!(order.is_filled());
    order.fill(0);
    assert_eq!(order.filled_quantity, 10);
}
