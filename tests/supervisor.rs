use hyperliquid::config::ClientConfig;
use hyperliquid::supervisor::{heartbeat_continues, ConnAction, ConnEvent, ConnState, Supervisor, DEFAULT_MAX_CONNECT_ATTEMPTS, DEFAULT_RETRY_DELAY_SECS};

fn started() -> Supervisor {
    let mut s = Supervisor::new(DEFAULT_MAX_CONNECT_ATTEMPTS, DEFAULT_RETRY_DELAY_SECS);
    assert_eq!(s.step(ConnEvent::Start), ConnAction::Connect);
    assert_eq!(s.state, ConnState::Connecting);
    s
}

#[test]
fn connects_on_fifth_attempt() {
    let mut s = started();
    for _ in 0..4 {
        assert_eq!(s.step(ConnEvent::HandshakeFailed), ConnAction::RetryAfter(5));
        assert_eq!(s.state, ConnState::Connecting);
    }
    assert_eq!(s.step(ConnEvent::HandshakeSucceeded), ConnAction::ReadFrames);
    assert_eq!(s.state, ConnState::Connected);
}

#[test]
fn gives_up_after_five_failed_first_attempts() {
    let mut s = started();
    for _ in 0..4 {
        s.step(ConnEvent::HandshakeFailed);
    }
    assert_eq!(s.step(ConnEvent::HandshakeFailed), ConnAction::GiveUp);
    assert_eq!(s.state, ConnState::Failed);
    assert_eq!(s.step(ConnEvent::HandshakeSucceeded), ConnAction::Ignore);
}

#[test]
fn reconnects_after_drop_without_limit() {
    let mut s = started();
    s.step(ConnEvent::HandshakeSucceeded);
    assert_eq!(s.step(ConnEvent::ConnectionLost), ConnAction::Connect);
    assert_eq!(s.state, ConnState::Connecting);
    for _ in 0..50 {
        assert_eq!(s.step(ConnEvent::HandshakeFailed), ConnAction::RetryAfter(5));
        assert_eq!(s.state, ConnState::Connecting);
    }
    assert_eq!(s.step(ConnEvent::HandshakeSucceeded), ConnAction::ReadFrames);
    assert_eq!(s.state, ConnState::Connected);
}

#[test]
fn events_out_of_place_are_ignored() {
    let mut s = Supervisor::new(3, 1);
    assert_eq!(s.step(ConnEvent::ConnectionLost), ConnAction::Ignore);
    assert_eq!(s.state, ConnState::Disconnected);
}

#[test]
fn heartbeat_stops_on_failed_send() {
    assert!(heartbeat_continues(true));
    assert!(!heartbeat_continues(false));
}

#[test]
fn config_defaults_and_urls() {
    let prod = ClientConfig::defaults(false);
    assert_eq!(prod.ws_url(), "wss://api.hyperliquid.xyz/ws");
    assert_eq!(prod.http_url(), "https://api.hyperliquid.xyz");
    assert_eq!(prod.max_trades, 1000);
    assert_eq!(prod.max_candles, 1000);
    assert_eq!(prod.heartbeat_secs, 30);
    assert_eq!(prod.max_connect_attempts, 5);
    assert_eq!(prod.retry_delay_secs, 5);
    let test = ClientConfig::defaults(true);
    assert_eq!(test.ws_url(), "wss://api.hyperliquid-testnet.xyz/ws");
    assert_eq!(test.http_url(), "https://api.hyperliquid-testnet.xyz");
}
