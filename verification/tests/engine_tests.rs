use chrono::Utc;
use trade_engine::corelib::amm::{AMMPool, Ratio};
use trade_engine::corelib::engine::{Amm, TradeEngine};
use trade_engine::corelib::order::{BuyOrSell, Wallet};
use trade_engine::corelib::orderbook::OrderBookTrait;
use trade_engine::corelib::token::{
    Category, CryptoExchange, Market, Pair, Token, TokenTicker, USExchange,
};

#[test]
fn test_token_listing() {
    // Test listing of tokens
    let mut engine_1 = TradeEngine::new();
    let new_token = Token::new(
        TokenTicker::BTC,
        Category::Infatrusture,
        Market::OtherMarket(CryptoExchange::Binance),
    );
    engine_1.list_new_token(new_token.ticker.clone());
    assert_eq!(engine_1.book_count(), 1);
    match engine_1.get_token_order_book(&new_token.ticker) {
        Some(order_book) => {
            // create buy orders
            order_book.add_order(
                BuyOrSell::Buy,
                31.0_f64.to_bits(),
                690,
                Utc::now().timestamp().try_into().unwrap(),
            );
            order_book.add_order(
                BuyOrSell::Buy,
                21.0_f64.to_bits(),
                685,
                Utc::now().timestamp().try_into().unwrap(),
            );
            order_book.add_order(
                BuyOrSell::Buy,
                21.0_f64.to_bits(),
                690,
                Utc::now().timestamp().try_into().unwrap(),
            );

            order_book.add_order(
                BuyOrSell::Sell,
                20.0_f64.to_bits(),
                700,
                Utc::now().timestamp().try_into().unwrap(),
            );
            order_book.add_order(
                BuyOrSell::Sell,
                10.0_f64.to_bits(),
                705,
                Utc::now().timestamp().try_into().unwrap(),
            );
            order_book.add_order(
                BuyOrSell::Sell,
                43.0_f64.to_bits(),
                700,
                Utc::now().timestamp().try_into().unwrap(),
            );
        }
        None => panic!("Ticker not found"),
    };
    assert_eq!(
        engine_1
            .get_token_order_book(&new_token.ticker)
            .unwrap()
            .buy_volume()
            .unwrap(),
        685 + 690 + 690
    );
    assert_eq!(
        engine_1
            .get_token_order_book(&new_token.ticker)
            .unwrap()
            .sell_volume()
            .unwrap(),
        2 * 700 + 705
    );
}

#[test]
fn match_orders() {
    // Test maching of orders
    let mut engine = TradeEngine::new();
    let new_token = Token::new(
        TokenTicker::DOT,
        Category::Infatrusture,
        Market::USMarket(USExchange::Coinbase),
    );
    engine.list_new_token(new_token.ticker.clone());
    assert_eq!(engine.book_count(), 1);
    match engine.get_token_order_book(&new_token.ticker) {
        Some(order_book) => {
            // create buy orders
            order_book.add_order(
                BuyOrSell::Buy,
                30.0_f64.to_bits(),
                5,
                Utc::now().timestamp().try_into().unwrap(),
            );
            order_book.add_order(
                BuyOrSell::Buy,
                41.0_f64.to_bits(),
                5,
                Utc::now().timestamp().try_into().unwrap(),
            );
            order_book.add_order(
                BuyOrSell::Buy,
                10.0_f64.to_bits(),
                10,
                Utc::now().timestamp().try_into().unwrap(),
            );

            order_book.add_order(
                BuyOrSell::Sell,
                40.0_f64.to_bits(),
                10,
                Utc::now().timestamp().try_into().unwrap(),
            );
            order_book.add_order(
                BuyOrSell::Sell,
                40.0_f64.to_bits(),
                5,
                Utc::now().timestamp().try_into().unwrap(),
            );
            order_book.add_order(
                BuyOrSell::Sell,
                40.0_f64.to_bits(),
                5,
                Utc::now().timestamp().try_into().unwrap(),
            );
        }
        None => panic!("Ticker not found"),
    };

    assert_eq!(
        engine
            .get_token_order_book(&new_token.ticker)
            .unwrap()
            .buy_volume()
            .unwrap(),
        20
    );
    assert_eq!(
        engine
            .get_token_order_book(&new_token.ticker)
            .unwrap()
            .sell_volume()
            .unwrap(),
        20
    );
    let orders_traded = engine.match_orders();
    println!("{:?}", orders_traded);
    assert_eq!(orders_traded.len(), 1);
}

#[test]
fn engine_test_add_liquidity_pair() {
    let mut pool = AMMPool::new();
    let wallet = Wallet::new(String::from("testskskdk"));

    // 1000 per 5000 is a fifth, and 5000 per 1000 is five: far from two
    // either way, so nothing is minted.
    let lp_tokens = pool.add_liquidity_pair(
        wallet.clone(),
        TokenTicker::ETH,
        1000,
        TokenTicker::USDT,
        5000,
        Ratio::new(2, 1),
        Ratio::new(1, 10),
    );
    assert_eq!(lp_tokens, 0);

    // Add liquidity pair with mismatched ratio (should fail)
    let lp_tokens_fail = pool.add_liquidity_pair(
        wallet.clone(),
        TokenTicker::ETH,
        1000,
        TokenTicker::USDT,
        4000,
        Ratio::new(2, 1),
        Ratio::new(1, 10),
    );
    assert_eq!(lp_tokens_fail, 0); // Should return 0 LP tokens due to ratio mismatch
}

#[test]
fn test_swap() {
    let mut pool = AMMPool::new();
    let wallet = Wallet::new(String::from("walletkeyxz"));
    pool.add_liquidity_pair(
        wallet.clone(),
        TokenTicker::ETH,
        1000,
        TokenTicker::USDT,
        5000,
        Ratio::new(2, 1),
        Ratio::new(1, 10),
    );

    // The provision was outside the tolerance, so the pool tracks nothing
    // and no swap is made.
    let amount_out = pool.token_swap(TokenTicker::ETH, TokenTicker::USDT, 100);
    assert_eq!(amount_out, None);

    let amount_out = pool.token_swap(TokenTicker::USDT, TokenTicker::ETH, 1000);
    assert_eq!(amount_out, None);
}

#[test]
fn scenario_one_crossing_bid() {
    let mut engine = TradeEngine::new();
    engine.list_new_token(TokenTicker::DOT);
    let book = engine.get_token_order_book(&TokenTicker::DOT).unwrap();
    let b1 = book.add_order(BuyOrSell::Buy, 30.0_f64.to_bits(), 5, 1);
    let b2 = book.add_order(BuyOrSell::Buy, 41.0_f64.to_bits(), 5, 2);
    let b3 = book.add_order(BuyOrSell::Buy, 10.0_f64.to_bits(), 10, 3);
    let s1 = book.add_order(BuyOrSell::Sell, 40.0_f64.to_bits(), 10, 4);
    let s2 = book.add_order(BuyOrSell::Sell, 40.0_f64.to_bits(), 5, 5);
    let s3 = book.add_order(BuyOrSell::Sell, 40.0_f64.to_bits(), 5, 6);
    assert_eq!((b1, b2, b3, s1, s2, s3), (1, 2, 3, 4, 5, 6));
    assert_eq!(book.buy_volume(), Some(20));
    assert_eq!(book.sell_volume(), Some(20));
    let trades = engine.match_orders();
    assert_eq!(trades, vec![(b2, s1, 40.0_f64.to_bits(), 5)]);
    let book = engine.get_token_order_book(&TokenTicker::DOT).unwrap();
    assert_eq!(book.best_buy_price(), Some(30.0_f64.to_bits()));
    assert_eq!(book.best_sell_price(), Some(40.0_f64.to_bits()));
    assert_eq!(book.buy_volume(), Some(15));
    assert_eq!(book.sell_volume(), Some(15));
    assert!(engine.match_orders().is_empty());
}

#[test]
fn listing_twice_keeps_the_book() {
    let mut engine = TradeEngine::new();
    assert_eq!(engine.book_count(), 0);
    engine.list_new_token(TokenTicker::BTC);
    engine
        .get_token_order_book(&TokenTicker::BTC)
        .unwrap()
        .add_order(BuyOrSell::Buy, 10, 3, 1);
    engine.list_new_token(TokenTicker::BTC);
    assert_eq!(engine.book_count(), 1);
    let book = engine.get_token_order_book(&TokenTicker::BTC).unwrap();
    assert_eq!(book.buy_volume(), Some(3));
    assert_eq!(book.add_order(BuyOrSell::Buy, 10, 1, 2), 2);
    engine.list_new_token(TokenTicker::ETH);
    assert_eq!(engine.book_count(), 2);
}

#[test]
fn unknown_keys_give_nothing() {
    let mut engine = TradeEngine::new();
    assert!(engine.get_token_order_book(&TokenTicker::BTC).is_none());
    let pair = Pair::new(TokenTicker::ETH, TokenTicker::USDT);
    assert!(engine.get_pair_pool(&pair).is_none());
    assert_eq!(engine.token_swap(TokenTicker::ETH, TokenTicker::USDT, 5), None);
    let wallet = Wallet::new(String::from("w"));
    assert_eq!(
        engine.add_liquidity_pair(
            wallet,
            TokenTicker::ETH,
            2,
            TokenTicker::USDT,
            1,
            Ratio::new(2, 1),
            Ratio::new(0, 1),
        ),
        0
    );
    assert!(engine.match_orders().is_empty());
}

#[test]
fn books_are_matched_each_by_itself_in_listing_order() {
    let mut engine = TradeEngine::new();
    engine.list_new_token(TokenTicker::ETH);
    engine.list_new_token(TokenTicker::BTC);
    {
        let btc = engine.get_token_order_book(&TokenTicker::BTC).unwrap();
        btc.add_order(BuyOrSell::Buy, 100, 1, 1);
        btc.add_order(BuyOrSell::Sell, 90, 1, 2);
    }
    {
        let eth = engine.get_token_order_book(&TokenTicker::ETH).unwrap();
        eth.add_order(BuyOrSell::Buy, 50, 2, 1);
        eth.add_order(BuyOrSell::Sell, 95, 2, 2);
        eth.add_order(BuyOrSell::Sell, 50, 1, 3);
    }
    let trades = engine.match_orders();
    assert_eq!(trades, vec![(1, 3, 50, 1), (1, 2, 90, 1)]);
}

#[test]
fn engine_routes_to_the_pool_of_the_pair() {
    let mut engine = TradeEngine::new();
    let pair = Pair::new(TokenTicker::ETH, TokenTicker::USDT);
    engine.list_new_pair(pair);
    engine.list_new_pair(pair);
    assert_eq!(engine.pool_count(), 1);
    let wallet = Wallet::new(String::from("provider"));
    let minted = engine.add_liquidity_pair(
        wallet.clone(),
        TokenTicker::ETH,
        2000,
        TokenTicker::USDT,
        1000,
        Ratio::new(2, 1),
        Ratio::new(1, 10),
    );
    assert_eq!(minted, 3000);
    {
        let pool = engine.get_pair_pool(&pair).unwrap();
        assert_eq!(pool.lp_balance(&wallet, pair), 3000);
        assert_eq!(pool.add_liquidity(TokenTicker::BTC, 5000), Some(()));
    }
    // first leg (5000+100)*2000/2100 = 4857; then BTC 143, USDT 1000 with 4857 in:
    // (1000+4857)*143/5000 = 167
    assert_eq!(
        engine.token_swap(TokenTicker::ETH, TokenTicker::USDT, 100),
        Some(167)
    );
    let pool = engine.get_pair_pool(&pair).unwrap();
    assert_eq!(pool.reserve(TokenTicker::ETH), Some(2100));
    assert_eq!(pool.reserve(TokenTicker::BTC), Some(5000));
    assert_eq!(pool.reserve(TokenTicker::USDT), Some(833));
    // the pair the other way round is not listed
    assert_eq!(engine.token_swap(TokenTicker::USDT, TokenTicker::ETH, 100), None);
}
