use econwar::decimal::Decimal;
use econwar::engine::matching::MatchingEngine;
use econwar::models::{OrderStatus, OrderType, Timestamp, TradeOrder};

fn dec(n: i128) -> Decimal {
    Decimal::new(n, 0)
}

fn at(secs: i64) -> Timestamp {
    Timestamp { secs, nanos: 0 }
}

fn make_order(
    id: u128,
    order_type: OrderType,
    price: Decimal,
    quantity: Decimal,
    player_id: u128,
    created: i64,
) -> TradeOrder {
    TradeOrder {
        id,
        player_id,
        company_id: player_id + 1000,
        resource_id: 7,
        order_type,
        price,
        quantity,
        original_quantity: quantity,
        status: OrderStatus::Open,
        created_at: at(created),
    }
}

#[test]
fn test_basic_match() {
    let buyer = 1;
    let seller = 2;
    let mut buys = vec![make_order(10, OrderType::Buy, dec(100), dec(10), buyer, 1)];
    let mut sells = vec![make_order(20, OrderType::Sell, dec(95), dec(10), seller, 2)];

    let result = MatchingEngine::match_orders(&mut buys, &mut sells);

    assert_eq!(result.transactions.len(), 1);
    let txn = &result.transactions[0];
    assert_eq!(txn.quantity, dec(10));
    // Execution at maker (older) price.
    assert!(txn.price == dec(100) || txn.price == dec(95));
}

#[test]
fn test_no_match_when_bid_below_ask() {
    let buyer = 1;
    let seller = 2;
    let mut buys = vec![make_order(10, OrderType::Buy, dec(90), dec(10), buyer, 1)];
    let mut sells = vec![make_order(20, OrderType::Sell, dec(95), dec(10), seller, 2)];

    let result = MatchingEngine::match_orders(&mut buys, &mut sells);
    assert!(result.transactions.is_empty());
}

#[test]
fn test_partial_fill() {
    let buyer = 1;
    let seller = 2;
    let mut buys = vec![make_order(10, OrderType::Buy, dec(100), dec(20), buyer, 1)];
    let mut sells = vec![make_order(20, OrderType::Sell, dec(95), dec(10), seller, 2)];

    let result = MatchingEngine::match_orders(&mut buys, &mut sells);

    assert_eq!(result.transactions.len(), 1);
    assert_eq!(result.transactions[0].quantity, dec(10));
    assert_eq!(buys[0].quantity, dec(10)); // 10 remaining
    assert_eq!(buys[0].status, OrderStatus::PartiallyFilled);
    assert_eq!(sells[0].quantity, dec(0));
    assert_eq!(sells[0].status, OrderStatus::Filled);
}

#[test]
fn fill_executes_at_the_older_orders_price() {
    // The sell order is older, so it is the maker: its price applies.
    let mut buys = vec![make_order(10, OrderType::Buy, dec(100), dec(5), 1, 9)];
    let mut sells = vec![make_order(20, OrderType::Sell, dec(95), dec(5), 2, 3)];
    let result = MatchingEngine::match_orders(&mut buys, &mut sells);
    assert_eq!(result.transactions.len(), 1);
    assert_eq!(result.transactions[0].price, dec(95));
    assert_eq!(result.transactions[0].total_value, dec(475));
    assert_eq!(result.last_price, Some(dec(95)));

    // The buy order is older: its price applies.
    let mut buys = vec![make_order(11, OrderType::Buy, dec(100), dec(5), 1, 3)];
    let mut sells = vec![make_order(21, OrderType::Sell, dec(95), dec(5), 2, 9)];
    let result = MatchingEngine::match_orders(&mut buys, &mut sells);
    assert_eq!(result.transactions[0].price, dec(100));
}

#[test]
fn highest_bid_is_served_first_and_ties_go_to_the_earlier() {
    let mut buys = vec![
        make_order(10, OrderType::Buy, dec(100), dec(5), 1, 5),
        make_order(11, OrderType::Buy, dec(110), dec(5), 3, 6),
        make_order(12, OrderType::Buy, dec(110), dec(5), 4, 2),
    ];
    let mut sells = vec![make_order(20, OrderType::Sell, dec(90), dec(5), 2, 1)];
    let result = MatchingEngine::match_orders(&mut buys, &mut sells);
    assert_eq!(buys[0].id, 12);
    assert_eq!(buys[1].id, 11);
    assert_eq!(buys[2].id, 10);
    assert_eq!(result.transactions.len(), 1);
    assert_eq!(result.transactions[0].buy_order_id, 12);
    assert_eq!(result.transactions[0].buyer_id, 4);
    assert_eq!(result.transactions[0].seller_id, 2);
}

#[test]
fn player_never_trades_with_itself() {
    let mut buys = vec![make_order(10, OrderType::Buy, dec(100), dec(5), 1, 1)];
    let mut sells = vec![make_order(20, OrderType::Sell, dec(90), dec(5), 1, 2)];
    let result = MatchingEngine::match_orders(&mut buys, &mut sells);
    assert!(result.transactions.is_empty());
    assert!(result.updated_orders.is_empty());
    assert_eq!(result.last_price, None);
}

#[test]
fn changed_orders_are_reported() {
    let mut buys = vec![make_order(10, OrderType::Buy, dec(100), dec(3), 1, 1)];
    let mut sells = vec![
        make_order(20, OrderType::Sell, dec(90), dec(2), 2, 2),
        make_order(21, OrderType::Sell, dec(95), dec(2), 5, 3),
    ];
    let result = MatchingEngine::match_orders(&mut buys, &mut sells);
    assert_eq!(result.transactions.len(), 2);
    assert_eq!(result.transactions[1].quantity, dec(1));
    assert_eq!(buys[0].status, OrderStatus::Filled);
    assert_eq!(sells[1].status, OrderStatus::PartiallyFilled);
    assert_eq!(sells[1].quantity, dec(1));
    assert_eq!(result.updated_orders.len(), 3);
    // The buy order is the oldest: both fills are at its price.
    assert_eq!(result.last_price, Some(dec(100)));
}

#[test]
fn fractional_quantities_fill_exactly() {
    let mut buys = vec![make_order(10, OrderType::Buy, dec(10), Decimal::new(15, 1), 1, 1)];
    let mut sells = vec![make_order(20, OrderType::Sell, dec(10), Decimal::new(25, 2), 2, 2)];
    let result = MatchingEngine::match_orders(&mut buys, &mut sells);
    assert_eq!(result.transactions[0].quantity, Decimal::new(25, 2));
    assert_eq!(buys[0].quantity, Decimal::new(125, 2));
    assert_eq!(result.transactions[0].total_value, Decimal::new(25, 1));
}

#[test]
fn matching_conserves_quantity() {
    let mut buys = vec![
        make_order(10, OrderType::Buy, dec(100), dec(7), 1, 1),
        make_order(11, OrderType::Buy, dec(99), dec(4), 3, 2),
    ];
    let mut sells = vec![
        make_order(20, OrderType::Sell, dec(90), dec(5), 2, 3),
        make_order(21, OrderType::Sell, dec(98), dec(9), 5, 4),
    ];
    let result = MatchingEngine::match_orders(&mut buys, &mut sells);
    let traded = result.transactions.iter().fold(dec(0), |acc, t| acc.add(&t.quantity));
    let left_buy = buys.iter().fold(dec(0), |acc, o| acc.add(&o.quantity));
    let left_sell = sells.iter().fold(dec(0), |acc, o| acc.add(&o.quantity));
    assert_eq!(traded, dec(11));
    assert_eq!(left_buy.add(&traded), dec(11));
    assert_eq!(left_sell.add(&traded), dec(14));
}

#[test]
fn try_match_refuses_an_overflowing_book_and_leaves_it() {
    let big: i128 = 50_000_000_000_000_000_000_000_000_000;
    let mut buys = vec![
        make_order(11, OrderType::Buy, dec(1), dec(1), 3, 1),
        make_order(10, OrderType::Buy, dec(2), dec(big), 1, 2),
    ];
    let mut sells = vec![make_order(20, OrderType::Sell, dec(2), dec(big), 2, 3)];
    assert!(MatchingEngine::try_match(&mut buys, &mut sells).is_none());
    assert_eq!(buys[0].id, 11);
    assert_eq!(buys[1].id, 10);
    assert_eq!(buys[1].quantity, dec(big));
    assert_eq!(sells[0].quantity, dec(big));
}

#[test]
fn try_match_matches_large_prices_and_fine_quantities() {
    let mut buys = vec![make_order(10, OrderType::Buy, dec(100_000_000_000_000), dec(2), 1, 1)];
    let mut sells = vec![make_order(20, OrderType::Sell, dec(100_000_000_000_000), Decimal::new(1, 12), 2, 2)];
    let result = MatchingEngine::try_match(&mut buys, &mut sells).unwrap();
    assert_eq!(result.transactions.len(), 1);
    assert_eq!(result.transactions[0].total_value, dec(100));
    assert_eq!(sells[0].status, OrderStatus::Filled);
    assert_eq!(buys[0].quantity, Decimal::new(1999999999999, 12));
}
