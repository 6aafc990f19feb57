use binance_quote_bridge::integer::decimal_text_of;
use binance_quote_bridge::number::{Number};
use binance_quote_bridge::{
    handle_incoming_payload, parse_number, parse_timestamp_to_date, quote_for_clients,
    quote_line, BidAsk, FtxSubscribeMessage, PayloadError, StrMap, TimestampError,
};

#[test]
fn timestamp_is_written_in_utc_with_milliseconds() {
    assert_eq!(parse_timestamp_to_date("1634644467091").unwrap(), "20211019115427091");
    assert_eq!(parse_timestamp_to_date("00000000000000").unwrap(), "19700101000000000");
}

#[test]
fn timestamp_errors() {
    assert_eq!(parse_timestamp_to_date("0"), Err(TimestampError::UnreadableMillis));
    assert_eq!(parse_timestamp_to_date("16346444679999"), Err(TimestampError::MillisOverflow));
    assert_eq!(parse_timestamp_to_date("16346x4467091"), Err(TimestampError::UnreadableSeconds));
    assert_eq!(parse_timestamp_to_date("9999999999999"), Ok("22861120174639999".to_string()));
}

#[test]
fn quote_line_is_space_separated_and_ends_with_crlf() {
    assert_eq!(quote_line("BTC-USD", "5.55", "2.5", "20211019115427091"), b"BTC-USD 5.55 2.5 20211019115427091\r\n".to_vec());
}

#[test]
fn ping_is_answered() {
    assert_eq!(handle_incoming_payload(&b"PING".to_vec()), Ok(Some(b"PONG".to_vec())));
    assert_eq!(handle_incoming_payload(&b"PONG".to_vec()), Ok(None));
    assert_eq!(handle_incoming_payload(&vec![0xff, 0xfe]), Err(PayloadError::NotText));
}

#[test]
fn ftx_subscription() {
    let message = FtxSubscribeMessage::make_ticket_subscribe_by_instrument(&"BTC-PERP".to_string());
    assert_eq!(message.mess_type, "subscribe");
    assert_eq!(message.channel, "ticker");
    assert_eq!(message.instrument, "BTC-PERP");
}

fn finite(n: Option<Number>) -> (bool, Vec<u8>, i128) {
    match n {
        Some(Number::Finite { negative, digits, exponent }) => (negative, digits, exponent),
        other => panic!("not finite: {:?}", other),
    }
}

#[test]
fn numbers_are_read_as_f64_from_str_reads_them() {
    assert_eq!(finite(parse_number("22.55")), (false, vec![2, 2, 5, 5], 2));
    assert_eq!(finite(parse_number("-0.00120")), (true, vec![1, 2], -2));
    assert_eq!(finite(parse_number("+1.5e-3")), (false, vec![1, 5], -2));
    assert_eq!(finite(parse_number("000")), (false, vec![], 0));
    assert_eq!(finite(parse_number(".5")), (false, vec![5], 0));
    assert_eq!(finite(parse_number("5.")), (false, vec![5], 1));
    assert!(matches!(parse_number("-InFiNiTy"), Some(Number::Infinite { negative: true })));
    assert!(matches!(parse_number("NaN"), Some(Number::NotANumber)));
    for bad in ["", ".", "e5", "1e", "1e+", "1.2.3", " 1", "1 ", "--1", "0x10", "infinit"] {
        assert!(parse_number(bad).is_none(), "{:?}", bad);
        assert!(bad.parse::<f64>().is_err(), "{:?}", bad);
    }
    for good in ["1", "1.", ".1", "1e5", "1E-5", "+inf", "-nan", "infinity"] {
        assert!(parse_number(good).is_some(), "{:?}", good);
        assert!(good.parse::<f64>().is_ok(), "{:?}", good);
    }
}

#[test]
fn integers_are_written_in_decimal_as_std_displays_them() {
    for v in [0i64, 7, -7, 10, -10, 1634645635905, i64::MIN, i64::MAX] {
        assert_eq!(decimal_text_of(v), v.to_string());
    }
}

fn quote(id: &str, date: i64) -> BidAsk {
    BidAsk { bid: "62199.90000".into(), ask: "62200.00000".into(), id: id.into(), date }
}

#[test]
fn quotes_for_clients_carry_the_published_name_and_time() {
    let mut mapping: StrMap<String> = StrMap::new();
    mapping.insert("BTCUSDT".into(), "BTC-USD".into());
    assert_eq!(
        quote_for_clients(&mapping, &quote("BTCUSDT", 1634645635905), "62199.9", "62200"),
        Some(Ok(b"BTC-USD 62199.9 62200 20211019121355905\r\n".to_vec()))
    );
    assert_eq!(quote_for_clients(&mapping, &quote("ETHUSDT", 1634645635905), "1", "2"), None);
    assert_eq!(
        quote_for_clients(&mapping, &quote("BTCUSDT", 0), "1", "2"),
        Some(Err(TimestampError::UnreadableMillis))
    );
}
