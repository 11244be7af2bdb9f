use hyperliquid::codec::{assemble_subscribe, decode, encode_ping, encode_subscribe, DecodeError, ElementFault, FeedEvent};
use hyperliquid::decimal::{parse_decimal, parse_number, Decimal};
use hyperliquid::models::TradeSide;

fn dec(negative: bool, mantissa: u64, scale: usize) -> Decimal {
    Decimal { negative, mantissa, scale }
}

#[test]
fn decimal_reads_plain_numerals() {
    assert_eq!(parse_decimal("123.45"), Some(dec(false, 12345, 2)));
    assert_eq!(parse_decimal("-0.5"), Some(dec(true, 5, 1)));
    assert_eq!(parse_decimal("42"), Some(dec(false, 42, 0)));
    assert_eq!(parse_decimal("0.0001"), Some(dec(false, 1, 4)));
    assert_eq!(parse_decimal("18446744073709551615"), Some(dec(false, u64::MAX, 0)));
}

#[test]
fn decimal_rejects_other_text() {
    assert_eq!(parse_decimal(""), None);
    assert_eq!(parse_decimal("-"), None);
    assert_eq!(parse_decimal("abc"), None);
    assert_eq!(parse_decimal("1."), None);
    assert_eq!(parse_decimal(".5"), None);
    assert_eq!(parse_decimal("1.2.3"), None);
    assert_eq!(parse_decimal("12a"), None);
    assert_eq!(parse_decimal("18446744073709551616"), None);
}

fn candle_frame(open: &str) -> String {
    format!(
        "{{\"channel\":\"candle\",\"data\":{{\"t\":1700000000000,\"T\":1700000299999,\"s\":\"@107\",\"i\":\"5m\",\"o\":{},\"h\":\"124\",\"l\":\"122.5\",\"c\":\"123.9\",\"v\":\"1000.25\",\"n\":17}}}}",
        open
    )
}

#[test]
fn numeric_field_as_string_or_number_is_the_same() {
    let a = decode(&candle_frame("\"123.45\""));
    let b = decode(&candle_frame("123.45"));
    match (a, b) {
        (Ok(FeedEvent::Candle(x)), Ok(FeedEvent::Candle(y))) => {
            assert_eq!(x.open, dec(false, 12345, 2));
            assert_eq!(x.open, y.open);
            assert_eq!(x.open_time, 1700000000000);
            assert_eq!(x.close_time, 1700000299999);
            assert_eq!(x.coin, "@107");
            assert_eq!(x.interval, "5m");
            assert_eq!(x.low, dec(false, 1225, 1));
            assert_eq!(x.number_of_trades, 17);
        }
        _ => panic!("both frames should decode to candles"),
    }
}

#[test]
fn candle_missing_field_is_rejected() {
    let frame = "{\"channel\":\"candle\",\"data\":{\"t\":1,\"T\":2,\"s\":\"BTC\",\"i\":\"1m\",\"o\":\"1\",\"h\":\"1\",\"l\":\"1\",\"c\":\"1\",\"n\":3}}";
    assert!(matches!(decode(frame), Err(DecodeError::MalformedPayload)));
}

fn trade(side: &str, tid: u64) -> String {
    format!(
        "{{\"coin\":\"BTC\",\"side\":\"{}\",\"px\":\"100.5\",\"sz\":\"0.25\",\"hash\":\"0xab\",\"time\":1700000000000,\"tid\":{},\"users\":[\"0x1\",\"0x2\"]}}",
        side, tid
    )
}

#[test]
fn invalid_side_drops_only_that_trade() {
    let frame = format!(
        "{{\"channel\":\"trades\",\"data\":[{},{},{}]}}",
        trade("B", 1),
        trade("X", 2),
        trade("A", 3)
    );
    match decode(&frame) {
        Ok(FeedEvent::Trades(trades, faults)) => {
            assert_eq!(trades.len(), 2);
            assert_eq!(trades[0].trade_id, 1);
            assert_eq!(trades[0].side, TradeSide::Buy);
            assert_eq!(trades[1].trade_id, 3);
            assert_eq!(trades[1].side, TradeSide::Sell);
            assert_eq!(trades[0].price, dec(false, 1005, 1));
            assert_eq!(trades[0].size, dec(false, 25, 2));
            assert_eq!(trades[0].users, vec!["0x1".to_string(), "0x2".to_string()]);
            assert_eq!(faults.len(), 1);
            assert_eq!(faults[0].index, 1);
            assert_eq!(faults[0].fault, ElementFault::InvalidSide);
        }
        _ => panic!("trades frame should decode"),
    }
}

#[test]
fn trade_missing_field_is_dropped_as_malformed() {
    let frame = format!(
        "{{\"channel\":\"trades\",\"data\":[{{\"coin\":\"BTC\",\"side\":\"B\"}},{}]}}",
        trade("B", 9)
    );
    match decode(&frame) {
        Ok(FeedEvent::Trades(trades, faults)) => {
            assert_eq!(trades.len(), 1);
            assert_eq!(trades[0].trade_id, 9);
            assert_eq!(faults.len(), 1);
            assert_eq!(faults[0].index, 0);
            assert_eq!(faults[0].fault, ElementFault::Malformed);
        }
        _ => panic!("trades frame should decode"),
    }
}

#[test]
fn book_levels_decode_and_bad_level_is_dropped() {
    let frame = "{\"channel\":\"l2Book\",\"data\":{\"coin\":\"ETH\",\"time\":55,\"levels\":[[{\"px\":\"10\",\"sz\":\"1\",\"n\":2},{\"px\":\"bad\",\"sz\":\"1\",\"n\":1},{\"px\":\"9.5\",\"sz\":\"3\",\"n\":1}],[{\"px\":\"11\",\"sz\":\"2\",\"n\":4}]]}}";
    match decode(frame) {
        Ok(FeedEvent::Book(b)) => {
            assert_eq!(b.coin, "ETH");
            assert_eq!(b.timestamp, 55);
            assert_eq!(b.bid_levels.len(), 2);
            assert_eq!(b.bid_levels[0].price, dec(false, 10, 0));
            assert_eq!(b.bid_levels[0].order_count, 2);
            assert_eq!(b.bid_levels[1].price, dec(false, 95, 1));
            assert_eq!(b.ask_levels.len(), 1);
            assert_eq!(b.ask_levels[0].order_count, 4);
        }
        _ => panic!("book frame should decode"),
    }
}

#[test]
fn book_without_both_sides_is_rejected() {
    let one_side = "{\"channel\":\"l2Book\",\"data\":{\"coin\":\"ETH\",\"levels\":[[]]}}";
    assert!(matches!(decode(one_side), Err(DecodeError::MalformedPayload)));
    let no_coin = "{\"channel\":\"l2Book\",\"data\":{\"levels\":[[],[]]}}";
    assert!(matches!(decode(no_coin), Err(DecodeError::MalformedPayload)));
    let side_not_list = "{\"channel\":\"l2Book\",\"data\":{\"coin\":\"ETH\",\"levels\":[[],3]}}";
    assert!(matches!(decode(side_not_list), Err(DecodeError::MalformedPayload)));
}

#[test]
fn mids_keep_string_prices_verbatim() {
    let frame = "{\"channel\":\"allMids\",\"data\":{\"mids\":{\"BTC\":\"65000.10\",\"ETH\":\"3200\",\"BAD\":5}}}";
    match decode(frame) {
        Ok(FeedEvent::Mids(m)) => {
            assert_eq!(m.len(), 2);
            assert!(m.contains(&("BTC".to_string(), "65000.10".to_string())));
            assert!(m.contains(&("ETH".to_string(), "3200".to_string())));
        }
        _ => panic!("mids frame should decode"),
    }
}

#[test]
fn other_channels_and_bad_frames() {
    assert!(matches!(decode("{\"channel\":\"pong\"}"), Ok(FeedEvent::Pong)));
    match decode("{\"channel\":\"subscriptionResponse\",\"data\":{}}") {
        Ok(FeedEvent::Unknown(c)) => assert_eq!(c, "subscriptionResponse"),
        _ => panic!("unknown channel should decode as such"),
    }
    assert!(matches!(decode("not json"), Err(DecodeError::InvalidJson)));
    assert!(matches!(decode("{\"data\":[]}"), Err(DecodeError::MissingChannel)));
    assert!(matches!(decode("{\"channel\":\"trades\",\"data\":{}}"), Err(DecodeError::MalformedPayload)));
    assert!(matches!(decode("{\"channel\":\"allMids\"}"), Err(DecodeError::MalformedPayload)));
}

#[test]
fn subscribe_command_text() {
    let params = vec![("coin".to_string(), "@107".to_string())];
    assert_eq!(
        encode_subscribe("trades", &params),
        "{\"method\":\"subscribe\",\"subscription\":{\"type\":\"trades\",\"coin\":\"@107\"}}"
    );
    assert_eq!(
        encode_subscribe("allMids", &Vec::new()),
        "{\"method\":\"subscribe\",\"subscription\":{\"type\":\"allMids\"}}"
    );
}

#[test]
fn subscribe_command_escapes_text() {
    let params = vec![("interval".to_string(), "5\"m".to_string())];
    assert_eq!(
        encode_subscribe("can\\dle", &params),
        "{\"method\":\"subscribe\",\"subscription\":{\"type\":\"can\\\\dle\",\"interval\":\"5\\\"m\"}}"
    );
}

#[test]
fn subscribe_command_is_valid_json() {
    let params = vec![("coin".to_string(), "BTC".to_string()), ("interval".to_string(), "1m".to_string())];
    let text = encode_subscribe("candle", &params);
    let v: serde_json::Value = serde_json::from_str(&text).unwrap();
    assert_eq!(v["method"], "subscribe");
    assert_eq!(v["subscription"]["type"], "candle");
    assert_eq!(v["subscription"]["coin"], "BTC");
    assert_eq!(v["subscription"]["interval"], "1m");
}

#[test]
fn ping_command_text() {
    assert_eq!(encode_ping(), "{\"method\":\"ping\"}");
}

#[test]
fn trade_side_codes() {
    assert_eq!(TradeSide::from_code("B"), Some(TradeSide::Buy));
    assert_eq!(TradeSide::from_code("A"), Some(TradeSide::Sell));
    assert_eq!(TradeSide::from_code("S"), None);
    assert_eq!(TradeSide::from_code("BB"), None);
    assert_eq!(TradeSide::Buy.as_str(), "buy");
    assert_eq!(TradeSide::Sell.as_str(), "sell");
}

#[test]
fn number_reads_exponents() {
    assert_eq!(parse_number("1.2e-6"), Some(dec(false, 12, 7)));
    assert_eq!(parse_number("1e3"), Some(dec(false, 1000, 0)));
    assert_eq!(parse_number("1.5E+2"), Some(dec(false, 150, 0)));
    assert_eq!(parse_number("2.50e1"), Some(dec(false, 250, 1)));
    assert_eq!(parse_number("-5e-2"), Some(dec(true, 5, 2)));
    assert_eq!(parse_number("123.45"), Some(dec(false, 12345, 2)));
    assert_eq!(parse_number("0e1000"), Some(dec(false, 0, 0)));
}

#[test]
fn number_rejects_bad_exponents() {
    assert_eq!(parse_number("1e"), None);
    assert_eq!(parse_number("e5"), None);
    assert_eq!(parse_number("1e+"), None);
    assert_eq!(parse_number("1e1001"), None);
    assert_eq!(parse_number("1e2e3"), None);
    assert_eq!(parse_number("2e19"), None);
    assert_eq!(parse_number("1.5x"), None);
}

#[test]
fn tiny_json_number_price_is_read_exactly() {
    let frame = "{\"channel\":\"l2Book\",\"data\":{\"coin\":\"PEPE\",\"time\":1,\"levels\":[[{\"px\":0.0000012,\"sz\":\"100\",\"n\":1}],[{\"px\":\"0.0000013\",\"sz\":100,\"n\":\"2\"}]]}}";
    match decode(frame) {
        Ok(FeedEvent::Book(b)) => {
            assert_eq!(b.bid_levels.len(), 1);
            assert_eq!(b.bid_levels[0].price, dec(false, 12, 7));
            assert_eq!(b.ask_levels[0].price, dec(false, 13, 7));
            assert_eq!(b.ask_levels[0].size, dec(false, 100, 0));
            assert_eq!(b.ask_levels[0].order_count, 2);
        }
        _ => panic!("book frame should decode"),
    }
}

#[test]
fn assemble_subscribe_frames_quoted_parts() {
    let quoted = vec![("\"coin\"".to_string(), "\"ETH\"".to_string())];
    assert_eq!(
        assemble_subscribe("\"l2Book\"", &quoted),
        "{\"method\":\"subscribe\",\"subscription\":{\"type\":\"l2Book\",\"coin\":\"ETH\"}}"
    );
}
