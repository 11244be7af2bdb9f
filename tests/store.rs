use hyperliquid::codec::{decode, FeedEvent};
use hyperliquid::decimal::Decimal;
use hyperliquid::models::{Candle, TradeData, TradeSide, WsBook, WsLevel};
use hyperliquid::store::{RollingStore, DEFAULT_HISTORY};

fn d(m: u64) -> Decimal {
    Decimal { negative: false, mantissa: m, scale: 0 }
}

fn trade(coin: &str, id: u64) -> TradeData {
    TradeData {
        coin: coin.to_string(),
        side: TradeSide::Buy,
        price: d(100),
        size: d(1),
        trade_hash: format!("0x{}", id),
        timestamp: 1000 + id,
        trade_id: id,
        users: vec![],
    }
}

fn candle(coin: &str, open_time: u64, close: u64) -> Candle {
    Candle {
        open_time,
        close_time: open_time + 59_999,
        coin: coin.to_string(),
        interval: "1m".to_string(),
        open: d(10),
        high: d(12),
        low: d(9),
        close: d(close),
        volume: d(5),
        number_of_trades: 3,
    }
}

fn level(p: u64) -> WsLevel {
    WsLevel { price: d(p), size: d(1), order_count: 1 }
}

fn book(coin: &str, bids: Vec<WsLevel>) -> WsBook {
    WsBook { coin: coin.to_string(), bid_levels: bids, ask_levels: vec![level(200)], timestamp: 7 }
}

#[test]
fn mids_replay_is_idempotent() {
    let frame = "{\"channel\":\"allMids\",\"data\":{\"mids\":{\"BTC\":\"65000.5\",\"ETH\":\"3200\"}}}";
    let mut once = RollingStore::new(DEFAULT_HISTORY, DEFAULT_HISTORY);
    once.apply(decode(frame).unwrap());
    let mut twice = RollingStore::new(DEFAULT_HISTORY, DEFAULT_HISTORY);
    twice.apply(decode(frame).unwrap());
    twice.apply(decode(frame).unwrap());
    for coin in ["BTC", "ETH", "SOL"] {
        assert_eq!(once.mid(coin), twice.mid(coin));
    }
    assert_eq!(twice.mid("BTC").map(|s| s.as_str()), Some("65000.5"));
    assert_eq!(twice.mid("SOL"), None);
}

#[test]
fn mids_are_replaced_not_merged() {
    let mut s = RollingStore::new(10, 10);
    s.replace_mids(vec![("BTC".to_string(), "1".to_string())]);
    s.replace_mids(vec![("ETH".to_string(), "2".to_string())]);
    assert_eq!(s.mid("BTC"), None);
    assert_eq!(s.mid("ETH").map(|x| x.as_str()), Some("2"));
}

#[test]
fn trade_history_keeps_most_recent_up_to_cap() {
    let mut s = RollingStore::new(3, 10);
    s.append_trades((1..=5).map(|i| trade("BTC", i)).collect());
    let kept: Vec<u64> = s.trades("BTC").unwrap().iter().map(|t| t.trade_id).collect();
    assert_eq!(kept, vec![3, 4, 5]);
    let mut small = RollingStore::new(3, 10);
    small.append_trades((1..=2).map(|i| trade("BTC", i)).collect());
    let kept: Vec<u64> = small.trades("BTC").unwrap().iter().map(|t| t.trade_id).collect();
    assert_eq!(kept, vec![1, 2]);
}

#[test]
fn trade_history_is_per_instrument() {
    let mut s = RollingStore::new(2, 10);
    s.append_trade(trade("BTC", 1));
    s.append_trade(trade("ETH", 2));
    s.append_trade(trade("BTC", 3));
    s.append_trade(trade("BTC", 4));
    let btc: Vec<u64> = s.trades("BTC").unwrap().iter().map(|t| t.trade_id).collect();
    let eth: Vec<u64> = s.trades("ETH").unwrap().iter().map(|t| t.trade_id).collect();
    assert_eq!(btc, vec![3, 4]);
    assert_eq!(eth, vec![2]);
    assert!(s.trades("SOL").is_none());
}

#[test]
fn trade_history_with_zero_cap_stays_empty() {
    let mut s = RollingStore::new(0, 0);
    s.append_trade(trade("BTC", 1));
    assert_eq!(s.trades("BTC").map(|v| v.len()), Some(0));
}

#[test]
fn candle_with_same_open_time_replaces_in_place() {
    let mut s = RollingStore::new(10, 10);
    s.upsert_candle(candle("BTC", 60_000, 11));
    s.upsert_candle(candle("BTC", 120_000, 12));
    s.upsert_candle(candle("BTC", 120_000, 13));
    let c = s.candles("BTC").unwrap();
    assert_eq!(c.len(), 2);
    assert_eq!(c[1].close, d(13));
    assert_eq!(c[0].close, d(11));
    s.upsert_candle(candle("BTC", 180_000, 14));
    assert_eq!(s.candles("BTC").unwrap().len(), 3);
}

#[test]
fn candle_series_evicts_oldest_past_cap() {
    let mut s = RollingStore::new(10, 2);
    for i in 1..=3u64 {
        s.upsert_candle(candle("ETH", i * 60_000, i));
    }
    let times: Vec<u64> = s.candles("ETH").unwrap().iter().map(|c| c.open_time).collect();
    assert_eq!(times, vec![120_000, 180_000]);
}

#[test]
fn book_snapshot_replaces_previous() {
    let mut s = RollingStore::new(10, 10);
    s.replace_book(book("ETH", vec![level(10), level(9), level(8)]));
    assert_eq!(s.book("ETH").unwrap().bid_levels.len(), 3);
    s.replace_book(book("ETH", vec![level(11)]));
    let b = s.book("ETH").unwrap();
    assert_eq!(b.bid_levels.len(), 1);
    assert_eq!(b.bid_levels[0].price, d(11));
    assert!(s.book("BTC").is_none());
}

#[test]
fn frame_with_invalid_side_stores_two_trades() {
    let t = |side: &str, tid: u64| {
        format!(
            "{{\"coin\":\"BTC\",\"side\":\"{}\",\"px\":\"1\",\"sz\":\"1\",\"hash\":\"h\",\"time\":1,\"tid\":{},\"users\":[]}}",
            side, tid
        )
    };
    let frame = format!("{{\"channel\":\"trades\",\"data\":[{},{},{}]}}", t("B", 1), t("Z", 2), t("A", 3));
    let event = decode(&frame).unwrap();
    match &event {
        FeedEvent::Trades(_, faults) => assert_eq!(faults.len(), 1),
        _ => panic!("expected trades"),
    }
    let mut s = RollingStore::new(DEFAULT_HISTORY, DEFAULT_HISTORY);
    s.apply(event);
    assert_eq!(s.trades("BTC").unwrap().len(), 2);
}

#[test]
fn pong_and_unknown_change_nothing() {
    let mut s = RollingStore::new(5, 5);
    s.append_trade(trade("BTC", 1));
    s.apply(FeedEvent::Pong);
    s.apply(FeedEvent::Unknown("x".to_string()));
    assert_eq!(s.trades("BTC").unwrap().len(), 1);
    assert_eq!(s.max_trades(), 5);
    assert_eq!(s.max_candles(), 5);
}
