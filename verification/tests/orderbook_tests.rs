use chrono::Utc;
use ordered_float::OrderedFloat;
use trade_engine::corelib::order::{BuyOrSell, Order, Wallet};
use trade_engine::corelib::orderbook::{OrderBook, OrderBookTrait, OrderStrategy};

#[test]
fn test_add_order() {
    let mut order_book = OrderBook::new();
    //create sell orders
    order_book.add_order(
        BuyOrSell::Sell,
        99.9_f64.to_bits(),
        33,
        Utc::now().timestamp().try_into().unwrap(),
    );
    order_book.add_order(
        BuyOrSell::Sell,
        99.9_f64.to_bits(),
        100,
        Utc::now().timestamp().try_into().unwrap(),
    );
    order_book.add_order(
        BuyOrSell::Sell,
        20.0_f64.to_bits(),
        10,
        Utc::now().timestamp().try_into().unwrap(),
    );

    // create buy orders

    order_book.add_order(
        BuyOrSell::Buy,
        37.0_f64.to_bits(),
        66,
        Utc::now().timestamp().try_into().unwrap(),
    );
    order_book.add_order(
        BuyOrSell::Buy,
        30.0_f64.to_bits(),
        87,
        Utc::now().timestamp().try_into().unwrap(),
    );
    order_book.add_order(
        BuyOrSell::Buy,
        50.0_f64.to_bits(),
        90,
        Utc::now().timestamp().try_into().unwrap(),
    );
    order_book.add_order(
        BuyOrSell::Buy,
        50.0_f64.to_bits(),
        94,
        Utc::now().timestamp().try_into().unwrap(),
    );

    assert_eq!(order_book.level_count(BuyOrSell::Sell), 2);
    assert_eq!(order_book.level_count(BuyOrSell::Buy), 3);

    assert_eq!(order_book.depth_at(BuyOrSell::Sell, 99.9_f64.to_bits()), 2);
    assert_eq!(order_book.depth_at(BuyOrSell::Sell, 20.0_f64.to_bits()), 1);

    assert_eq!(order_book.depth_at(BuyOrSell::Buy, 37.0_f64.to_bits()), 1);
    assert_eq!(order_book.depth_at(BuyOrSell::Buy, 30.0_f64.to_bits()), 1);
    assert_eq!(order_book.depth_at(BuyOrSell::Buy, 50.0_f64.to_bits()), 2);
}

#[test]
fn test_prices_and_volumes() {
    // Initialze the new order_book
    let mut order_book = OrderBook::new();

    // Create some buy orders.
    order_book.add_order(
        BuyOrSell::Buy,
        300.0_f64.to_bits(),
        641,
        Utc::now().timestamp().try_into().unwrap(),
    );
    order_book.add_order(
        BuyOrSell::Buy,
        370.0_f64.to_bits(),
        87,
        Utc::now().timestamp().try_into().unwrap(),
    );
    order_book.add_order(
        BuyOrSell::Buy,
        500.0_f64.to_bits(),
        900,
        Utc::now().timestamp().try_into().unwrap(),
    );
    order_book.add_order(
        BuyOrSell::Buy,
        27.0_f64.to_bits(),
        784,
        Utc::now().timestamp().try_into().unwrap(),
    );

    // Create some sell orders.
    order_book.add_order(
        BuyOrSell::Sell,
        200.0_f64.to_bits(),
        200,
        Utc::now().timestamp().try_into().unwrap(),
    );
    order_book.add_order(
        BuyOrSell::Sell,
        99.0_f64.to_bits(),
        100,
        Utc::now().timestamp().try_into().unwrap(),
    );
    order_book.add_order(
        BuyOrSell::Sell,
        20.0_f64.to_bits(),
        10,
        Utc::now().timestamp().try_into().unwrap(),
    );

    assert_eq!(
        OrderedFloat(f64::from_bits(order_book.best_buy_price().unwrap())),
        OrderedFloat(500.0)
    );
    assert_eq!(
        OrderedFloat(f64::from_bits(order_book.best_sell_price().unwrap())),
        OrderedFloat(20.0)
    );

    assert_eq!(order_book.buy_volume().unwrap(), 641 + 87 + 900 + 784);
    assert_eq!(order_book.sell_volume().unwrap(), 200 + 100 + 10);
}

#[test]
fn new_book_is_empty() {
    let book = OrderBook::new();
    assert_eq!(book.best_buy_price(), None);
    assert_eq!(book.best_sell_price(), None);
    assert_eq!(book.buy_volume(), Some(0));
    assert_eq!(book.sell_volume(), Some(0));
    assert_eq!(book.level_count(BuyOrSell::Buy), 0);
    assert_eq!(book.level_count(BuyOrSell::Sell), 0);
    assert_eq!(book.depth_at(BuyOrSell::Buy, 10), 0);
    assert_eq!(book.matching_strategy(), OrderStrategy::PTP);
}

#[test]
fn ids_start_at_one_and_grow_by_one() {
    let mut book = OrderBook::new();
    assert_eq!(book.add_order(BuyOrSell::Buy, 10, 1, 1), 1);
    assert_eq!(book.add_order(BuyOrSell::Sell, 20, 1, 2), 2);
    assert_eq!(book.add_order(BuyOrSell::Buy, 10, 1, 3), 3);
    let trades = book.match_orders();
    assert!(trades.is_empty());
    assert_eq!(book.add_order(BuyOrSell::Sell, 20, 1, 4), 4);
}

#[test]
fn empty_and_one_sided_books_make_no_trade() {
    let mut book = OrderBook::new();
    assert!(book.match_orders().is_empty());
    book.add_order(BuyOrSell::Buy, 50, 7, 1);
    assert!(book.match_orders().is_empty());
    assert_eq!(book.buy_volume(), Some(7));
    let mut asks = OrderBook::new();
    asks.add_order(BuyOrSell::Sell, 50, 7, 1);
    assert!(asks.match_orders().is_empty());
    assert_eq!(asks.sell_volume(), Some(7));
}

#[test]
fn books_that_do_not_cross_make_no_trade() {
    let mut book = OrderBook::new();
    book.add_order(BuyOrSell::Buy, 39, 5, 1);
    book.add_order(BuyOrSell::Sell, 40, 5, 2);
    assert!(book.match_orders().is_empty());
    assert_eq!(book.best_buy_price(), Some(39));
    assert_eq!(book.best_sell_price(), Some(40));
}

#[test]
fn equal_prices_cross() {
    let mut book = OrderBook::new();
    book.add_order(BuyOrSell::Buy, 40, 5, 1);
    book.add_order(BuyOrSell::Sell, 40, 5, 2);
    assert_eq!(book.match_orders(), vec![(1, 2, 40, 5)]);
    assert_eq!(book.best_buy_price(), None);
    assert_eq!(book.best_sell_price(), None);
}

#[test]
fn trade_is_priced_at_the_sell_order() {
    let mut book = OrderBook::new();
    book.add_order(BuyOrSell::Sell, 40, 5, 1);
    book.add_order(BuyOrSell::Buy, 45, 5, 2);
    assert_eq!(book.match_orders(), vec![(2, 1, 40, 5)]);
}

#[test]
fn best_price_trades_first_then_oldest() {
    let mut book = OrderBook::new();
    let b1 = book.add_order(BuyOrSell::Buy, 100, 3, 1);
    let b2 = book.add_order(BuyOrSell::Buy, 105, 2, 2);
    let b3 = book.add_order(BuyOrSell::Buy, 105, 4, 3);
    let s1 = book.add_order(BuyOrSell::Sell, 101, 1, 4);
    let s2 = book.add_order(BuyOrSell::Sell, 99, 3, 5);
    let s3 = book.add_order(BuyOrSell::Sell, 99, 10, 6);
    let trades = book.match_orders();
    assert_eq!(
        trades,
        vec![
            (b2, s2, 99, 2),
            (b3, s2, 99, 1),
            (b3, s3, 99, 3),
            (b1, s3, 99, 3),
        ]
    );
    assert_eq!(book.best_buy_price(), None);
    assert_eq!(book.best_sell_price(), Some(99));
    assert_eq!(book.depth_at(BuyOrSell::Sell, 99), 1);
    assert_eq!(book.sell_volume(), Some(4 + 1));
    assert_eq!(book.level_count(BuyOrSell::Sell), 2);
}

#[test]
fn what_is_left_of_an_order_keeps_its_place() {
    let mut book = OrderBook::new();
    let s1 = book.add_order(BuyOrSell::Sell, 40, 10, 1);
    let s2 = book.add_order(BuyOrSell::Sell, 40, 5, 2);
    let b1 = book.add_order(BuyOrSell::Buy, 41, 4, 3);
    assert_eq!(book.match_orders(), vec![(b1, s1, 40, 4)]);
    let b2 = book.add_order(BuyOrSell::Buy, 40, 8, 4);
    assert_eq!(book.match_orders(), vec![(b2, s1, 40, 6), (b2, s2, 40, 2)]);
    assert_eq!(book.sell_volume(), Some(3));
    assert_eq!(book.buy_volume(), Some(0));
}

#[test]
fn volume_is_what_was_added_less_what_was_matched() {
    let mut book = OrderBook::new();
    book.add_order(BuyOrSell::Buy, 30, 5, 1);
    book.add_order(BuyOrSell::Buy, 41, 5, 2);
    book.add_order(BuyOrSell::Buy, 43, 6, 3);
    book.add_order(BuyOrSell::Sell, 40, 10, 4);
    book.add_order(BuyOrSell::Sell, 42, 5, 5);
    assert_eq!(book.buy_volume(), Some(16));
    assert_eq!(book.sell_volume(), Some(15));
    let trades = book.match_orders();
    let traded: u32 = trades.iter().map(|t| t.3).sum();
    assert_eq!(traded, 10);
    assert_eq!(book.buy_volume(), Some(16 - traded));
    assert_eq!(book.sell_volume(), Some(15 - traded));
    let bid = book.best_buy_price();
    let ask = book.best_sell_price();
    assert!(bid.is_none() || ask.is_none() || bid.unwrap() < ask.unwrap());
    assert_eq!(bid, Some(41));
    assert_eq!(ask, Some(42));
}

#[test]
fn volume_that_does_not_fit_is_not_reported() {
    let mut book = OrderBook::new();
    book.add_order(BuyOrSell::Buy, 10, u32::MAX, 1);
    assert_eq!(book.buy_volume(), Some(u32::MAX));
    book.add_order(BuyOrSell::Buy, 11, 1, 2);
    assert_eq!(book.buy_volume(), None);
    assert_eq!(book.sell_volume(), Some(0));
}

#[test]
fn order_priority_by_price_time_and_id() {
    let a = Order::new(1, BuyOrSell::Buy, 5, 100, 10);
    let b = Order::new(2, BuyOrSell::Buy, 5, 101, 11);
    let c = Order::new(3, BuyOrSell::Buy, 5, 100, 9);
    let d = Order::new(4, BuyOrSell::Buy, 9, 100, 10);
    assert!(b < a);
    assert!(c < a);
    assert!(a < d);
    assert!(!(a < a));
    let s = Order::new(5, BuyOrSell::Sell, 5, 100, 10);
    let t = Order::new(6, BuyOrSell::Sell, 5, 101, 1);
    assert!(s < t);
    assert_eq!(a.partial_cmp(&s), None);
    assert_eq!(a.partial_cmp(&a), Some(std::cmp::Ordering::Equal));
    assert_eq!(a.partial_cmp(&b), Some(std::cmp::Ordering::Greater));
}

#[test]
fn orders_are_identified_by_id() {
    let a = Order::new(7, BuyOrSell::Buy, 5, 100, 10);
    let b = Order::new(7, BuyOrSell::Sell, 1, 3, 4);
    let c = Order::new(8, BuyOrSell::Buy, 5, 100, 10);
    assert!(a == b);
    assert!(a != c);
    assert!(a.wallet.is_none());
    assert_eq!(a.quantity, 5);
    assert_eq!(a.price, 100);
    assert_eq!(a.timestamp, 10);
}

#[test]
fn wallets_compare_by_address() {
    let a = Wallet::new(String::from("alpha"));
    let b = Wallet::new(String::from("alpha"));
    let c = Wallet::new(String::from("beta"));
    assert!(a == b);
    assert!(a != c);
    assert_eq!(a.address, "alpha");
}

#[test]
fn price_keys_are_ordered_as_the_prices() {
    let prices = [
        f64::MIN_POSITIVE,
        0.01,
        20.0,
        27.0,
        99.0,
        99.9,
        100.0,
        500.0,
        1e300,
        f64::INFINITY,
    ];
    for a in prices {
        for b in prices {
            assert_eq!(
                OrderedFloat(a).cmp(&OrderedFloat(b)),
                a.to_bits().cmp(&b.to_bits())
            );
        }
        assert!(a.to_bits() > 0);
    }
}

#[test]
fn a_new_order_stands_behind_its_price_level() {
    let mut book = OrderBook::new();
    let s1 = book.add_order(BuyOrSell::Sell, 50, 1, 1);
    let s2 = book.add_order(BuyOrSell::Sell, 40, 1, 2);
    let s3 = book.add_order(BuyOrSell::Sell, 50, 1, 3);
    let s4 = book.add_order(BuyOrSell::Sell, 40, 1, 4);
    let s5 = book.add_order(BuyOrSell::Sell, 45, 1, 5);
    let b = book.add_order(BuyOrSell::Buy, 60, 5, 6);
    assert_eq!(
        book.match_orders(),
        vec![
            (b, s2, 40, 1),
            (b, s4, 40, 1),
            (b, s5, 45, 1),
            (b, s1, 50, 1),
            (b, s3, 50, 1),
        ]
    );
    assert_eq!(book.next_order_id(), 7);
}
