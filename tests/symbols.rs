use hyperliquid::clock::{timestamp_text, unix_time_to_jst};
use hyperliquid::market::{MarketType, TokenManager as MarketTokens};
use hyperliquid::meta::{PerpAsset, PerpMetaResponse, SpotMetaResponse, Token, Universe};
use hyperliquid::pairs::TokenManager;
use hyperliquid::requests::{CandleSnapshotRequest, L2BookRequest, DAY_MILLIS};

fn token(name: &str, index: u32) -> Token {
    Token {
        name: name.to_string(),
        sz_decimals: 2,
        wei_decimals: 8,
        index,
        token_id: format!("0x{}", index),
        is_canonical: true,
        evm_contract: None,
        full_name: None,
    }
}

fn pair(name: &str, tokens: Vec<u32>, index: u32) -> Universe {
    Universe { name: name.to_string(), tokens, index, is_canonical: false }
}

fn spot_meta() -> SpotMetaResponse {
    SpotMetaResponse {
        tokens: vec![token("USDC", 0), token("PURR", 1), token("HYPE", 2)],
        universe: vec![pair("PURR/USDC", vec![1, 0], 0), pair("@107", vec![2, 0], 107)],
    }
}

#[test]
fn mapping_works_both_ways() {
    let mut m = TokenManager::new();
    m.add_mapping("HYPE/USDC", "@107");
    assert_eq!(m.get_internal_code("HYPE/USDC").map(|s| s.as_str()), Some("@107"));
    assert_eq!(m.get_symbol("@107").map(|s| s.as_str()), Some("HYPE/USDC"));
    assert_eq!(m.get_internal_code("PURR/USDC"), None);
    m.add_mapping("HYPE/USDC", "@108");
    assert_eq!(m.get_internal_code("HYPE/USDC").map(|s| s.as_str()), Some("@108"));
    assert_eq!(m.list_available_pairs(), vec!["HYPE/USDC".to_string()]);
}

#[test]
fn spot_meta_names_coded_pairs_by_tokens() {
    let m = TokenManager::from_spot_meta(&spot_meta()).unwrap();
    assert_eq!(m.get_internal_code("HYPE/USDC").map(|s| s.as_str()), Some("@107"));
    assert_eq!(m.get_internal_code("PURR/USDC").map(|s| s.as_str()), Some("PURR/USDC"));
    assert_eq!(m.get_symbol("@107").map(|s| s.as_str()), Some("HYPE/USDC"));
    let mut pairs = m.list_available_pairs();
    pairs.sort();
    assert_eq!(pairs, vec!["HYPE/USDC".to_string(), "PURR/USDC".to_string()]);
}

#[test]
fn spot_meta_with_unknown_token_is_refused() {
    let mut meta = spot_meta();
    meta.universe.push(pair("@200", vec![9, 0], 200));
    assert!(TokenManager::from_spot_meta(&meta).is_none());
    let mut short = spot_meta();
    short.universe.push(pair("@201", vec![1], 201));
    assert!(TokenManager::from_spot_meta(&short).is_none());
}

#[test]
fn market_tables_keep_indices() {
    let perp = PerpMetaResponse { universe: vec![PerpAsset { name: "BTC".to_string() }, PerpAsset { name: "ETH".to_string() }] };
    let m = MarketTokens::from_metas(&spot_meta(), &perp).unwrap();
    assert_eq!(m.get_internal_code(MarketType::Spot, "HYPE/USDC").map(|s| s.as_str()), Some("@107"));
    assert_eq!(m.get_token_index(MarketType::Spot, "HYPE/USDC"), Some(&10_107));
    assert_eq!(m.get_token_index(MarketType::Spot, "PURR/USDC"), Some(&10_000));
    assert_eq!(m.get_token_index(MarketType::Perp, "ETH"), Some(&1));
    assert_eq!(m.get_symbol(MarketType::Perp, "BTC").map(|s| s.as_str()), Some("BTC"));
    assert_eq!(m.get_internal_code(MarketType::Perp, "HYPE/USDC"), None);
    let mut perps = m.get_available_symbols(MarketType::Perp);
    perps.sort();
    assert_eq!(perps, vec!["BTC".to_string(), "ETH".to_string()]);
}

#[test]
fn market_mapping_is_per_market() {
    let mut m = MarketTokens::new();
    m.add_mapping(MarketType::Perp, "SOL", "SOL", 5);
    assert_eq!(m.get_token_index(MarketType::Perp, "SOL"), Some(&5));
    assert_eq!(m.get_token_index(MarketType::Spot, "SOL"), None);
    assert!(m.get_available_symbols(MarketType::Spot).is_empty());
}

#[test]
fn market_tables_refuse_index_overflow() {
    let mut meta = spot_meta();
    meta.universe.push(pair("@9", vec![2, 0], u32::MAX - 5));
    let perp = PerpMetaResponse { universe: vec![] };
    assert!(MarketTokens::from_metas(&meta, &perp).is_none());
}

#[test]
fn candle_request_defaults_to_last_day() {
    let r = CandleSnapshotRequest::at("BTC", "1h", None, None, 100_000_000);
    assert_eq!(r.request_type, "candleSnapshot");
    assert_eq!(r.req.coin, "BTC");
    assert_eq!(r.req.interval, "1h");
    assert_eq!(r.req.end_time, 100_000_000);
    assert_eq!(r.req.start_time, 100_000_000 - DAY_MILLIS);
    let early = CandleSnapshotRequest::at("BTC", "1h", None, Some(5), 1000);
    assert_eq!(early.req.start_time, 0);
    assert_eq!(early.req.end_time, 5);
    let now = CandleSnapshotRequest::new("ETH", "5m", Some(1), None);
    assert_eq!(now.req.start_time, 1);
    assert!(now.req.end_time > DAY_MILLIS);
}

#[test]
fn book_request_fields() {
    let r = L2BookRequest::new("ETH", Some(5), None);
    assert_eq!(r.request_type, "l2Book");
    assert_eq!(r.coin, "ETH");
    assert_eq!(r.n_sig_figs, Some(5));
    assert_eq!(r.mantissa, None);
}

#[test]
fn timestamps_format_or_report_invalid() {
    assert_eq!(timestamp_text(None), "Invalid Timestamp");
    assert_eq!(timestamp_text(Some("x".to_string())), "x");
    assert_eq!(unix_time_to_jst(0).len(), 19);
    assert_eq!(unix_time_to_jst(u64::MAX), "Invalid Timestamp");
}
