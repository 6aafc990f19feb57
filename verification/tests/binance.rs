use binance_quote_bridge::binance_client_context::bid_ask_to_hash_map;
use binance_quote_bridge::{
    BinanceDepthOrderBookEvent, BinanceExchangeContext, BinanceOrderBook,
    BinanceWsBidsAsks, MessageError, Settings, StrMap,
};
use chrono::Utc;

fn level(price: &str, qty: &str) -> BinanceWsBidsAsks {
    BinanceWsBidsAsks { price: price.into(), qty: qty.into() }
}

fn price(text: &str) -> f64 {
    text.parse::<f64>().unwrap()
}

fn event(
    symbol: &str,
    time: i64,
    first: u128,
    last: u128,
    bids: Vec<BinanceWsBidsAsks>,
    asks: Vec<BinanceWsBidsAsks>,
) -> BinanceDepthOrderBookEvent {
    BinanceDepthOrderBookEvent {
        event_type: "depthUpdate".into(),
        event_time: time,
        symbol: symbol.into(),
        first_update_id: first,
        final_update_id: last,
        previous_final_update_id: None,
        bids,
        asks,
    }
}

#[test]
fn binance_orderbook_test_orderbook_best_price() {
    let date = Utc::now().timestamp_millis();

    let ws_socket_event1 = BinanceDepthOrderBookEvent {
        event_type: "test".into(),
        event_time: date,
        symbol: "BTCUSD".into(),
        first_update_id: 1,
        final_update_id: 1,
        previous_final_update_id: None,
        bids: vec![
            BinanceWsBidsAsks { price: "5.55".into(), qty: "22.55".into() },
            BinanceWsBidsAsks { price: "4.52".into(), qty: "21.55".into() },
        ],
        asks: vec![
            BinanceWsBidsAsks { price: "2.55".into(), qty: "19.55".into() },
            BinanceWsBidsAsks { price: "3.52".into(), qty: "51.55".into() },
        ],
    };

    let ws_socket_event2 = BinanceDepthOrderBookEvent {
        event_type: "test".into(),
        event_time: date + 100,
        symbol: "BTCUSD".into(),
        first_update_id: 2,
        final_update_id: 2,
        previous_final_update_id: None,
        bids: vec![
            BinanceWsBidsAsks { price: "6.55".into(), qty: "26.55".into() },
            BinanceWsBidsAsks { price: "48.52".into(), qty: "1.55".into() },
        ],
        asks: vec![
            BinanceWsBidsAsks { price: "76.55".into(), qty: "21.55".into() },
            BinanceWsBidsAsks { price: "512.52".into(), qty: "45.55".into() },
        ],
    };

    let mut orderbook = BinanceOrderBook::new(&ws_socket_event1);
    let best_price_with_init = orderbook.get_best_price().unwrap();

    assert_eq!("BTCUSD", best_price_with_init.id);
    assert_eq!(5.55, price(&best_price_with_init.bid));
    assert_eq!(2.55, price(&best_price_with_init.ask));
    assert_eq!(date, best_price_with_init.date);

    orderbook.process_bids_and_asks(&ws_socket_event2);
    let best_price = orderbook.get_best_price().unwrap();

    assert_eq!("BTCUSD", best_price.id);
    assert_eq!(date + 100, best_price.date);
    assert_eq!(48.52, price(&best_price.bid));
    assert_eq!(2.55, price(&best_price.ask));
}

#[test]
fn new_book_upper_cases_the_symbol_and_keeps_zero_quantities() {
    let book = BinanceOrderBook::new(&event(
        "btcusdt",
        7,
        3,
        9,
        vec![level("10.0", "0"), level("9.5", "1")],
        vec![level("11", "2")],
    ));
    assert_eq!(book.instrument, "BTCUSDT");
    assert_eq!(book.date, 7);
    assert_eq!(book.last_id, 9);
    assert_eq!(book.bids.len(), 2);
    assert_eq!(book.asks.len(), 1);
    assert!(book.bids.get("10.0").is_some());
}

#[test]
fn negligible_quantity_removes_the_level() {
    let mut book = BinanceOrderBook::new(&event(
        "ETHBTC",
        1,
        1,
        1,
        vec![level("0.070", "5"), level("0.069", "5")],
        vec![level("0.071", "5")],
    ));
    book.process_bids_and_asks(&event(
        "ETHBTC",
        2,
        2,
        2,
        vec![level("0.070", "0.00009999")],
        vec![level("0.072", "0.0001")],
    ));
    assert!(book.bids.get("0.070").is_none());
    assert_eq!(book.bids.len(), 1);
    assert_eq!(book.asks.len(), 2);
    let best = book.get_best_price().unwrap();
    assert_eq!(best.bid, "0.069");
    assert_eq!(best.ask, "0.071");
    assert_eq!(book.last_id, 2);
    assert_eq!(book.date, 2);
}

#[test]
fn later_level_of_the_same_price_wins() {
    let mut book = BinanceOrderBook::new(&event("X", 1, 1, 1, vec![level("1", "1")], vec![level("2", "1")]));
    book.process_bids_and_asks(&event(
        "X",
        2,
        2,
        2,
        vec![level("1.5", "3"), level("1.5", "0")],
        vec![level("1.8", "0"), level("1.8", "4")],
    ));
    assert!(book.bids.get("1.5").is_none());
    assert!(book.asks.get("1.8").is_some());
    let best = book.get_best_price().unwrap();
    assert_eq!(best.bid, "1");
    assert_eq!(best.ask, "1.8");
}

#[test]
fn best_prices_compare_numerically_not_as_text() {
    let book = BinanceOrderBook::new(&event(
        "X",
        1,
        1,
        1,
        vec![level("9.5", "1"), level("10.25", "1"), level("1e1", "1")],
        vec![level("100", "1"), level("99.99", "1"), level("1.0e3", "1")],
    ));
    let best = book.get_best_price().unwrap();
    assert_eq!(best.bid, "10.25");
    assert_eq!(best.ask, "99.99");
}

#[test]
fn nan_prices_are_passed_over() {
    let book = BinanceOrderBook::new(&event(
        "X",
        1,
        1,
        1,
        vec![level("NaN", "1"), level("3", "1")],
        vec![level("nan", "1")],
    ));
    let best = book.get_best_price().unwrap();
    assert_eq!(best.bid, "3");
    assert!(price(&best.ask).is_nan());
}

#[test]
fn empty_side_gives_no_quote() {
    let book = BinanceOrderBook::new(&event("X", 1, 1, 1, vec![level("3", "1")], vec![]));
    assert!(book.get_best_price().is_none());
}

#[test]
fn validity_of_updates() {
    let book = BinanceOrderBook::new(&event("X", 1, 1, 10, vec![], vec![]));
    assert!(book.is_valid(&event("X", 2, 11, 12, vec![], vec![])));
    assert!(book.is_valid(&event("X", 2, 8, 12, vec![], vec![])));
    assert!(book.is_valid(&event("X", 2, 10, 10, vec![], vec![])));
    assert!(!book.is_valid(&event("X", 2, 12, 14, vec![], vec![])));
    assert!(!book.is_valid(&event("X", 2, 4, 9, vec![], vec![])));
}

#[test]
fn bid_ask_to_hash_map_keeps_last_level_per_price() {
    let map = bid_ask_to_hash_map(&vec![level("1", "2"), level("1", "0"), level("3", "4")]);
    assert_eq!(map.len(), 2);
    assert!(map.get("1").is_some());
    assert!(map.get("3").is_some());
}

#[test]
fn context_starts_books_and_refuses_stale_updates() {
    let mut context = BinanceExchangeContext::new(vec!["BTCUSDT".into()]);
    let first = event("BTCUSDT", 1, 1, 5, vec![level("10", "1")], vec![level("11", "1")]);
    assert!(matches!(context.handle_message_and_get_bid_ask(&first), Ok(None)));
    assert_eq!(context.orderbooks.len(), 1);

    let stale = event("BTCUSDT", 2, 4, 5, vec![level("10.5", "1")], vec![]);
    assert!(matches!(context.handle_message_and_get_bid_ask(&stale), Ok(None)));
    assert!(context.orderbooks.get("BTCUSDT").unwrap().bids.get("10.5").is_none());

    let next = event("BTCUSDT", 3, 6, 7, vec![level("10.5", "1")], vec![]);
    let quote = context.handle_message_and_get_bid_ask(&next).unwrap().unwrap();
    assert_eq!(quote.bid, "10.5");
    assert_eq!(quote.ask, "11");
    assert_eq!(quote.date, 3);
    assert_eq!(quote.id, "BTCUSDT");

    assert!(matches!(context.handle_message_and_get_bid_ask(&next), Ok(None)));
}

#[test]
fn update_that_does_not_fit_is_dropped_but_quoted() {
    let mut context = BinanceExchangeContext::new(vec![]);
    let first = event("ETHUSDT", 1, 1, 5, vec![level("10", "1")], vec![level("11", "1")]);
    assert!(matches!(context.handle_message_and_get_bid_ask(&first), Ok(None)));
    let gap = event("ETHUSDT", 2, 9, 12, vec![level("10.9", "1")], vec![]);
    let quote = context.handle_message_and_get_bid_ask(&gap).unwrap().unwrap();
    assert_eq!(quote.bid, "10");
    assert_eq!(quote.date, 1);
}

#[test]
fn unreadable_quantity_and_price_are_reported() {
    let mut context = BinanceExchangeContext::new(vec![]);
    let bad_first = event("X", 1, 1, 5, vec![level("10", "abc")], vec![]);
    assert!(matches!(
        context.handle_message_and_get_bid_ask(&bad_first),
        Err(MessageError::UnreadableQuantity)
    ));
    assert_eq!(context.orderbooks.len(), 0);

    let first = event("X", 1, 1, 5, vec![level("ten", "1")], vec![level("11", "1")]);
    assert!(matches!(context.handle_message_and_get_bid_ask(&first), Ok(None)));
    let next = event("X", 2, 6, 6, vec![], vec![]);
    assert!(matches!(
        context.handle_message_and_get_bid_ask(&next),
        Err(MessageError::UnreadablePrice)
    ));
}

#[test]
fn stream_link_lists_every_instrument() {
    let context = BinanceExchangeContext::new(vec!["BTCUSDT".into(), "EthBtc".into()]);
    assert_eq!(
        context.get_link_to_connect(),
        "wss://stream.binance.com:9443/stream?streams=btcusdt@depth@100ms/ethbtc@depth@100ms"
    );
}

#[test]
fn context_from_settings_takes_the_mapped_instruments() {
    let mut mapping: StrMap<String> = StrMap::new();
    mapping.insert("BTCUSDT".into(), "BTC-USD".into());
    mapping.insert("ETHUSDT".into(), "ETH-USD".into());
    let settings = Settings { instruments_mapping: mapping, target_exchange: "binance".into() };
    let context = BinanceExchangeContext::new_by_settings(&settings);
    assert_eq!(context.instruments, vec!["BTCUSDT".to_string(), "ETHUSDT".to_string()]);
    assert_eq!(context.orderbooks.len(), 0);
}

#[test]
fn depth_data_is_taken_from_the_message_text() {
    let message = r#"{ "stream" : "btcusdt@depth@100ms", "data" : { "e" : "depthUpdate" } }"#;
    assert_eq!(
        BinanceExchangeContext::depth_data_text(message),
        Ok(Some("{\"e\":\"depthUpdate\"}".to_string()))
    );
    assert_eq!(BinanceExchangeContext::depth_data_text(r#"{"result":null,"id":1}"#), Ok(None));
    assert_eq!(BinanceExchangeContext::depth_data_text("[1,2]"), Ok(None));
    assert_eq!(
        BinanceExchangeContext::depth_data_text("{data"),
        Err(MessageError::MalformedMessage)
    );
}

#[test]
fn negligible_quantity_follows_the_f64_reading() {
    let quantities: Vec<String> = vec![
        "0.0001".to_string(),
        "-0.0001".to_string(),
        "0.00009999".to_string(),
        format!("0.0000{}", "9".repeat(22)),
        format!("-0.0000{}", "9".repeat(22)),
        "0.0000999999999999999980159100243515268857663613744080066680908203125".to_string(),
        "0.0000999999999999999980159100243515268857663613744080066680908203126".to_string(),
        "0.0000999999999999999980159100243515268857663613744080066680908203124".to_string(),
        "1e-4".to_string(),
        "9.9999999999999998e-5".to_string(),
        "9.99999999999999e-5".to_string(),
        "0".to_string(),
        "-0".to_string(),
        "1e-400".to_string(),
        "1e400".to_string(),
        "NaN".to_string(),
        "inf".to_string(),
        "5".to_string(),
    ];
    for qty in quantities {
        let mut book = BinanceOrderBook::new(&event("X", 1, 1, 1, vec![level("1", "1")], vec![]));
        book.process_bids_and_asks(&event("X", 2, 2, 2, vec![level("1", &qty)], vec![]));
        let volume = qty.parse::<f64>().unwrap();
        let removed = volume < 0.0001 && volume > -0.0001;
        assert_eq!(book.bids.get("1").is_none(), removed, "quantity {}", qty);
    }
}
