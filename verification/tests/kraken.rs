use binance_quote_bridge::kraken_client_context::{
    WsBidAskContainer, WsBidAskSnapshotContainer, WsBidsAsks, WsBidsAsksSnapshot,
};
use binance_quote_bridge::{
    JsonKind, JsonMember, JsonValue, KrakenExchangeContext, KrakenOrderBook, MessageError,
    OrderBookEvent, OrderBookSnapshotEvent,
};

fn price(text: &str) -> f64 {
    text.parse::<f64>().unwrap()
}

fn js(text: &str) -> JsonValue {
    JsonValue { kind: JsonKind::Str(text.into()), text: format!("\"{}\"", text) }
}

fn jnum(text: &str) -> JsonValue {
    JsonValue { kind: JsonKind::Number, text: text.into() }
}

fn jarr(items: Vec<JsonValue>) -> JsonValue {
    let text = format!(
        "[{}]",
        items.iter().map(|v| v.text.clone()).collect::<Vec<_>>().join(",")
    );
    JsonValue { kind: JsonKind::Array(items), text }
}

fn jobj(members: Vec<(&str, JsonValue)>) -> JsonValue {
    let text = format!(
        "{{{}}}",
        members
            .iter()
            .map(|(k, v)| format!("\"{}\":{}", k, v.text))
            .collect::<Vec<_>>()
            .join(",")
    );
    let members = members
        .into_iter()
        .map(|(k, v)| JsonMember { name: k.into(), value: v })
        .collect();
    JsonValue { kind: JsonKind::Object(members), text }
}

fn lvl(p: &str, q: &str, t: &str) -> JsonValue {
    jarr(vec![js(p), js(q), js(t)])
}

fn snapshot_message() -> JsonValue {
    jarr(vec![
        jnum("320"),
        jobj(vec![
            ("as", jarr(vec![lvl("62200.00000", "5.5", "1634645635.905132"), lvl("62200.20000", "2.4", "1634645635.087010")])),
            ("bs", jarr(vec![lvl("62199.90000", "0.01", "1634645633.737771"), lvl("62198.10000", "0.0006", "1634645585.901944")])),
        ]),
        js("book-10"),
        js("XBT/USD"),
    ])
}

#[test]
fn kraken_orderbook_test_orderbook_best_price() {
    let ws_socket_event1 = OrderBookSnapshotEvent {
        bid_ask: WsBidAskSnapshotContainer {
            as_vec: vec![WsBidsAsksSnapshot {
                price: "1.0".into(),
                qty: "1.0".into(),
                time: "1.0".into(),
            }],
            bs_vec: vec![WsBidsAsksSnapshot {
                price: "0.9".into(),
                qty: "1.0".into(),
                time: "1.0".into(),
            }],
        },
        pair: "XBT/USD".into(),
    };

    let ws_socket_event2 = OrderBookEvent {
        bid_ask: WsBidAskContainer {
            as_vec: vec![WsBidsAsks {
                price: "0.95".into(),
                qty: "1.0".into(),
                time: "1.0".into(),
                republished: "".into(),
            }],
            bs_vec: vec![WsBidsAsks {
                price: "0.94".into(),
                qty: "1.0".into(),
                time: "1.0".into(),
                republished: "".into(),
            }],
        },
        pair: "XBT/USD".into(),
    };

    let mut orderbook = KrakenOrderBook::new(&ws_socket_event1);
    let best_price_with_init = orderbook.get_best_price().unwrap();

    assert_eq!("XBT/USD", best_price_with_init.id);
    assert_eq!(0.9, price(&best_price_with_init.bid));
    assert_eq!(1.0, price(&best_price_with_init.ask));

    orderbook.process_bids_and_asks(&ws_socket_event2);
    let best_price = orderbook.get_best_price().unwrap();

    assert_eq!("XBT/USD", best_price.id);
    assert_eq!(0.94, price(&best_price.bid));
    assert_eq!(0.95, price(&best_price.ask));
}

#[test]
fn best_prices_follow_the_order_of_texts() {
    let snapshot = OrderBookSnapshotEvent {
        bid_ask: WsBidAskSnapshotContainer {
            as_vec: vec![
                WsBidsAsksSnapshot { price: "10.0".into(), qty: "1".into(), time: "1".into() },
                WsBidsAsksSnapshot { price: "9.0".into(), qty: "1".into(), time: "1".into() },
            ],
            bs_vec: vec![
                WsBidsAsksSnapshot { price: "8.0".into(), qty: "1".into(), time: "1".into() },
                WsBidsAsksSnapshot { price: "10.5".into(), qty: "1".into(), time: "1".into() },
            ],
        },
        pair: "xbt/usd".into(),
    };
    let book = KrakenOrderBook::new(&snapshot);
    assert_eq!(book.instrument, "XBT/USD");
    let best = book.get_best_price().unwrap();
    assert_eq!(best.ask, "10.0");
    assert_eq!(best.bid, "8.0");
}

#[test]
fn tiny_volume_removes_a_level() {
    let snapshot = OrderBookSnapshotEvent {
        bid_ask: WsBidAskSnapshotContainer {
            as_vec: vec![WsBidsAsksSnapshot { price: "2".into(), qty: "1".into(), time: "1".into() }],
            bs_vec: vec![
                WsBidsAsksSnapshot { price: "1".into(), qty: "1".into(), time: "1".into() },
                WsBidsAsksSnapshot { price: "1.5".into(), qty: "1".into(), time: "1".into() },
            ],
        },
        pair: "P".into(),
    };
    let mut book = KrakenOrderBook::new(&snapshot);
    let update = OrderBookEvent {
        bid_ask: WsBidAskContainer {
            as_vec: vec![],
            bs_vec: vec![
                WsBidsAsks { price: "1.5".into(), qty: "0.000000009".into(), time: "2".into(), republished: "".into() },
                WsBidsAsks { price: "1".into(), qty: "0.00000001".into(), time: "2".into(), republished: "r".into() },
            ],
        },
        pair: "P".into(),
    };
    assert!(book.is_valid(&update));
    book.process_bids_and_asks(&update);
    assert!(book.bids.get("1.5").is_none());
    assert!(book.bids.get("1").is_some());
    assert_eq!(book.get_best_price().unwrap().bid, "1");
}

#[test]
fn snapshot_message_starts_the_book_under_the_quoted_pair() {
    let mut context = KrakenExchangeContext::new(vec!["XBT/USD".into()]);
    let quote = context.handle_message_and_get_bid_ask(&snapshot_message()).unwrap().unwrap();
    assert_eq!(quote.id, "\"XBT/USD\"");
    assert_eq!(quote.ask, "62200.00000");
    assert_eq!(quote.bid, "62199.90000");
    assert_eq!(quote.date, 0);
    assert!(context.orderbooks.get("\"XBT/USD\"").is_some());
}

#[test]
fn update_messages_change_the_book() {
    let mut context = KrakenExchangeContext::new(vec!["XBT/USD".into()]);
    context.handle_message_and_get_bid_ask(&snapshot_message()).unwrap();
    let update = jarr(vec![
        jnum("320"),
        jobj(vec![("a", jarr(vec![jarr(vec![js("62199.95000"), js("1.0"), js("1634645636.1"), js("r")])]))]),
        js("book-10"),
        js("XBT/USD"),
    ]);
    let quote = context.handle_message_and_get_bid_ask(&update).unwrap().unwrap();
    assert_eq!(quote.ask, "62199.95000");
    let removal = jarr(vec![
        jnum("320"),
        jobj(vec![("b", jarr(vec![lvl("62199.90000", "0.00000000", "1634645636.2")]))]),
        js("book-10"),
        js("XBT/USD"),
    ]);
    let quote = context.handle_message_and_get_bid_ask(&removal).unwrap().unwrap();
    assert_eq!(quote.bid, "62198.10000");
}

#[test]
fn five_element_update_names_the_unquoted_pair() {
    let mut context = KrakenExchangeContext::new(vec!["XBT/USD".into()]);
    context.handle_message_and_get_bid_ask(&snapshot_message()).unwrap();
    let update = jarr(vec![
        jnum("320"),
        jobj(vec![("a", jarr(vec![lvl("1", "1", "1")]))]),
        jobj(vec![("b", jarr(vec![lvl("0.5", "1", "1")]))]),
        js("book-10"),
        js("XBT/USD"),
    ]);
    assert!(matches!(
        context.handle_message_and_get_bid_ask(&update),
        Err(MessageError::UnknownPair)
    ));
}

#[test]
fn other_messages() {
    let mut context = KrakenExchangeContext::new(vec![]);
    let heartbeat = jobj(vec![("event", js("heartbeat"))]);
    assert!(matches!(context.handle_message_and_get_bid_ask(&heartbeat), Ok(None)));
    let short = jarr(vec![jnum("1"), jobj(vec![])]);
    assert!(matches!(
        context.handle_message_and_get_bid_ask(&short),
        Err(MessageError::MalformedMessage)
    ));
    let bad_level = jarr(vec![
        jnum("320"),
        jobj(vec![("as", jarr(vec![jarr(vec![js("1"), js("2")])]))]),
        js("book-10"),
        js("XBT/USD"),
    ]);
    assert!(matches!(
        context.handle_message_and_get_bid_ask(&bad_level),
        Err(MessageError::MalformedMessage)
    ));
    let unknown = jarr(vec![jnum("320"), jobj(vec![]), js("book-10"), js("ETH/USD")]);
    assert!(matches!(
        context.handle_message_and_get_bid_ask(&unknown),
        Err(MessageError::UnknownPair)
    ));
    assert_eq!(context.orderbooks.len(), 0);
}

#[test]
fn unreadable_snapshot_quantity_is_refused() {
    let mut context = KrakenExchangeContext::new(vec![]);
    let snapshot = jarr(vec![
        jnum("320"),
        jobj(vec![("as", jarr(vec![lvl("1", "x", "1")]))]),
        js("book-10"),
        js("XBT/USD"),
    ]);
    assert!(matches!(
        context.handle_message_and_get_bid_ask(&snapshot),
        Err(MessageError::UnreadableQuantity)
    ));
    assert_eq!(context.orderbooks.len(), 0);
}

#[test]
fn subscription_and_names() {
    let context = KrakenExchangeContext::new(vec!["XBT/USD".into(), "ETH/USD".into()]);
    let message = context.subscribe_message();
    assert_eq!(message.event, "subscribe");
    assert_eq!(message.pair, vec!["XBT/USD".to_string(), "ETH/USD".to_string()]);
    assert_eq!(message.subscription.name, "book");
    assert_eq!(context.get_link_to_connect(), "wss://ws.kraken.com");
    assert_eq!(context.get_lp_name(), "binance");
}

#[test]
fn text_messages_are_read_as_json() {
    let mut context = KrakenExchangeContext::new(vec!["XBT/USD".into()]);
    let snapshot = r#"[320, {"as": [["62200.00000", "5.5", "1634645635.905132"]],
        "bs": [["62199.90000", "0.01", "1634645633.737771"]]}, "book-10", "XBT/USD"]"#;
    let quote = context.handle_message_text(snapshot).unwrap().unwrap();
    assert_eq!(quote.id, "\"XBT/USD\"");
    assert_eq!(quote.ask, "62200.00000");
    assert_eq!(quote.bid, "62199.90000");
    let update = r#"[320,{"a":[["62199.95000","1.0","1634645636.1"]]},"book-10","XBT/USD"]"#;
    let quote = context.handle_message_text(update).unwrap().unwrap();
    assert_eq!(quote.ask, "62199.95000");
    let before_snapshot = r#"[0,{"a":[["0.95","1.0","1.0"]]},"book-10","ETH/USD"]"#;
    assert!(matches!(context.handle_message_text(before_snapshot), Err(MessageError::UnknownPair)));
    assert!(matches!(context.handle_message_text(r#"{"event":"heartbeat"}"#), Ok(None)));
    assert!(matches!(context.handle_message_text("not json"), Err(MessageError::MalformedMessage)));
    assert_eq!(context.orderbooks.len(), 1);
}

#[test]
fn negligible_volume_follows_the_f64_reading() {
    let volumes: Vec<String> = vec![
        "0.00000001".to_string(),
        "-0.00000001".to_string(),
        "0.000000009".to_string(),
        format!("0.00000000{}", "9".repeat(20)),
        format!("-0.00000000{}", "9".repeat(20)),
        "0.00000000999999999999999938204499574825705188185764882291550748050212860107421875".to_string(),
        "0.00000000999999999999999938204499574825705188185764882291550748050212860107421874".to_string(),
        "0.00000000999999999999999938204499574825705188185764882291550748050212860107421876".to_string(),
        "1e-8".to_string(),
        "9.999999999999999e-9".to_string(),
        "0".to_string(),
        "1e-400".to_string(),
        "NaN".to_string(),
        "inf".to_string(),
        "2".to_string(),
    ];
    for qty in volumes {
        let snapshot = OrderBookSnapshotEvent {
            bid_ask: WsBidAskSnapshotContainer {
                as_vec: vec![],
                bs_vec: vec![WsBidsAsksSnapshot { price: "1".into(), qty: "1".into(), time: "1".into() }],
            },
            pair: "P".into(),
        };
        let mut book = KrakenOrderBook::new(&snapshot);
        let update = OrderBookEvent {
            bid_ask: WsBidAskContainer {
                as_vec: vec![],
                bs_vec: vec![WsBidsAsks { price: "1".into(), qty: qty.clone(), time: "2".into(), republished: "".into() }],
            },
            pair: "P".into(),
        };
        book.process_bids_and_asks(&update);
        let volume = qty.parse::<f64>().unwrap();
        let removed = volume < 0.00000001 && volume > -0.00000001;
        assert_eq!(book.bids.get("1").is_none(), removed, "volume {}", qty);
    }
}
