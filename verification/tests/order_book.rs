use order_matching::order_book::OrderBook;
use order_matching::point::Point;
use order_matching::transaction::{Side, Transaction};

#[test]
pub fn test_order_execution() {
    let buy = Transaction::buy("NVDA".to_string(), 500, 1000);
    let sell = Transaction::sell("NVDA".to_string(), 500, 1000);
    let prv_point = Point::new(400, 400, 400, 400, 1000);
    let mut book = OrderBook::new(vec![buy], vec![sell], Vec::new(), prv_point);
    book.execute();
    assert_eq!(book.cur_point().high, 500);
    assert_eq!(book.cur_point().close, 450);
    assert_eq!(book.cur_point().low, 400);
    assert_eq!(book.cur_point().volume, 2000);
    assert!(book.buy_orders().is_empty());
    assert!(book.sell_orders().is_empty());
}

#[test]
pub fn test_order_not_executed() {
    let buy = Transaction::buy("NVDA".to_string(), 500, 1000);
    let sell = Transaction::sell("NVDA".to_string(), 1000, 1000);
    let now = Point::new(400, 400, 400, 400, 1000);
    let mut book = OrderBook::new(vec![buy], vec![sell], Vec::new(), now);
    book.execute();
    assert_eq!(book.cur_point().volume, 1000);
    assert!(book.buy_orders().len() == 1);
    assert!(book.sell_orders().len() == 1);
}

// The non-crossing tops are left exactly as they were admitted.
#[test]
fn test_non_crossing_leaves_tops_untouched() {
    let mut book = OrderBook::default();
    book.add_buy_order(Transaction::buy("NVDA".to_string(), 500, 7));
    book.add_sell_order(Transaction::sell("NVDA".to_string(), 600, 9));
    book.execute();
    let buys = book.buy_orders();
    let sells = book.sell_orders();
    assert_eq!(buys.len(), 1);
    assert_eq!(sells.len(), 1);
    assert_eq!(buys[0].price(), 500);
    assert_eq!(buys[0].amount(), 7);
    assert_eq!(sells[0].price(), 600);
    assert_eq!(sells[0].amount(), 9);
}

// A partially filled buy is re-queued with the residual quantity at its own
// price; the quantity matched plus the quantity left resting equals the
// quantity admitted on each side.
#[test]
fn test_partial_fill_buy_residual() {
    let mut book = OrderBook::default();
    book.add_buy_order(Transaction::buy("NVDA".to_string(), 500, 1000));
    book.add_sell_order(Transaction::sell("NVDA".to_string(), 400, 300));
    book.execute();
    assert!(book.sell_orders().is_empty());
    let buys = book.buy_orders();
    assert_eq!(buys.len(), 1);
    assert_eq!(buys[0].price(), 500);
    assert_eq!(buys[0].amount(), 700);
    assert_eq!(buys[0].symbol(), "NVDA");
    assert!(matches!(buys[0].side(), Side::Buy));
    assert_eq!(book.cur_point().volume, 300);
}

// A partially filled sell keeps its own price and symbol in the residual
// record, not the matched buy's.
#[test]
fn test_partial_fill_sell_keeps_own_price() {
    let mut book = OrderBook::default();
    book.add_buy_order(Transaction::buy("NVDA".to_string(), 500, 300));
    book.add_sell_order(Transaction::sell("AMD".to_string(), 400, 1000));
    book.execute();
    assert!(book.buy_orders().is_empty());
    let sells = book.sell_orders();
    assert_eq!(sells.len(), 1);
    assert_eq!(sells[0].price(), 400);
    assert_eq!(sells[0].amount(), 700);
    assert_eq!(sells[0].symbol(), "AMD");
    assert!(matches!(sells[0].side(), Side::Sell));
    assert_eq!(book.cur_point().volume, 300);
}

// Price priority: the highest-priced buy is matched first; a lower-priced
// buy is left resting when the sell quantity runs out.
#[test]
fn test_price_priority() {
    let mut book = OrderBook::default();
    book.add_buy_order(Transaction::buy("NVDA".to_string(), 90, 10));
    book.add_buy_order(Transaction::buy("NVDA".to_string(), 100, 10));
    book.add_sell_order(Transaction::sell("NVDA".to_string(), 85, 10));
    book.execute();
    let buys = book.buy_orders();
    assert_eq!(buys.len(), 1);
    assert_eq!(buys[0].price(), 90);
    assert!(book.sell_orders().is_empty());
    // the trade happened at the matched buy's price
    assert_eq!(book.cur_point().high, 100);
    assert_eq!(book.cur_point().volume, 10);
}

// The buy queue rests in non-decreasing price order, the sell queue in
// non-increasing order: each top of book is the last element.
#[test]
fn test_admission_orders_queues() {
    let mut book = OrderBook::default();
    book.add_buy_order(Transaction::buy("NVDA".to_string(), 300, 1));
    book.add_buy_order(Transaction::buy("NVDA".to_string(), 100, 2));
    book.add_buy_order(Transaction::buy("NVDA".to_string(), 200, 3));
    book.add_sell_order(Transaction::sell("NVDA".to_string(), 300, 4));
    book.add_sell_order(Transaction::sell("NVDA".to_string(), 500, 5));
    book.add_sell_order(Transaction::sell("NVDA".to_string(), 400, 6));
    let buys = book.buy_orders();
    assert_eq!(buys.len(), 3);
    assert_eq!(buys[0].price(), 100);
    assert_eq!(buys[1].price(), 200);
    assert_eq!(buys[2].price(), 300);
    let sells = book.sell_orders();
    assert_eq!(sells.len(), 3);
    assert_eq!(sells[0].price(), 500);
    assert_eq!(sells[1].price(), 400);
    assert_eq!(sells[2].price(), 300);
}

// Candle monotonicity over two successive trades in one execution: the high
// never falls, the low never rises, the close is the running weighted
// average.
#[test]
fn test_two_trades_candle() {
    let start = Point::new_with_timestamp(400, 400, 400, 400, 100, 7);
    let buys = vec![
        Transaction::buy("NVDA".to_string(), 500, 100),
        Transaction::buy("NVDA".to_string(), 600, 100),
    ];
    let sells = vec![
        Transaction::sell("NVDA".to_string(), 450, 100),
        Transaction::sell("NVDA".to_string(), 400, 100),
    ];
    let mut book = OrderBook::new(buys, sells, Vec::new(), start);
    book.execute();
    // first trade: 100 at 600 -> close (100*600 + 100*400) / 200 = 500
    // second trade: 100 at 500 -> close (100*500 + 200*500) / 300 = 500
    let candle = book.cur_point();
    assert_eq!(candle.high, 600);
    assert_eq!(candle.low, 400);
    assert_eq!(candle.close, 500);
    assert_eq!(candle.volume, 300);
    assert_eq!(candle.open, 400);
    assert_eq!(candle.timestamp, 7);
    assert!(book.buy_orders().is_empty());
    assert!(book.sell_orders().is_empty());
}

// A trade against a blank candle sets the close to the trade price.
#[test]
fn test_trade_on_blank_candle() {
    let mut book = OrderBook::default();
    book.add_buy_order(Transaction::buy("NVDA".to_string(), 250, 40));
    book.add_sell_order(Transaction::sell("NVDA".to_string(), 250, 40));
    book.execute();
    let candle = book.cur_point();
    assert_eq!(candle.close, 250);
    assert_eq!(candle.high, 250);
    assert_eq!(candle.low, 0);
    assert_eq!(candle.volume, 40);
}

#[test]
fn test_points_handles() {
    let pts = vec![Point::new_with_timestamp(1, 2, 3, 4, 5, 6)];
    let book = OrderBook::new(Vec::new(), Vec::new(), pts, Point::blank());
    assert_eq!(book.points().len(), 1);
    let copy = book.points_mut();
    assert_eq!(copy.len(), 1);
    assert_eq!(copy[0], Point::new_with_timestamp(1, 2, 3, 4, 5, 6));
}

#[test]
fn test_transaction_accessors() {
    let t = Transaction::buy("NVDA".to_string(), 42, 7);
    assert!(matches!(t.side(), Side::Buy));
    assert_eq!(t.symbol(), "NVDA");
    assert_eq!(t.price(), 42);
    assert_eq!(t.amount(), 7);
    let s = Transaction::sell("AMD".to_string(), 43, 8);
    assert!(matches!(s.side(), Side::Sell));
}

#[test]
fn test_point_constructors() {
    let p = Point::new(1, 2, 3, 4, 5);
    assert_eq!((p.open, p.high, p.low, p.close, p.volume), (1, 2, 3, 4, 5));
    let b = Point::blank();
    assert_eq!((b.open, b.high, b.low, b.close, b.volume), (0, 0, 0, 0, 0));
    let w = Point::new_with_timestamp(1, 2, 3, 4, 5, 6);
    assert_eq!(w.timestamp, 6);
    assert_eq!(*w.borrow(), w);
}
