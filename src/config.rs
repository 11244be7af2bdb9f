//! Named options of the client, with their defaults.
use vstd::prelude::*;
use crate::store::DEFAULT_HISTORY;
use crate::supervisor::{DEFAULT_HEARTBEAT_SECS, DEFAULT_MAX_CONNECT_ATTEMPTS, DEFAULT_RETRY_DELAY_SECS};

verus! {

pub struct ClientConfig {
    /// Whether to use the test environment rather than production.
    pub is_test: bool,
    pub max_trades: usize,
    pub max_candles: usize,
    pub heartbeat_secs: u64,
    pub max_connect_attempts: u32,
    pub retry_delay_secs: u64,
}

pub open spec fn ws_url_of(is_test: bool) -> Seq<char> {
    if is_test {
        "wss://api.hyperliquid-testnet.xyz/ws"@
    } else {
        "wss://api.hyperliquid.xyz/ws"@
    }
}

pub open spec fn http_url_of(is_test: bool) -> Seq<char> {
    if is_test {
        "https://api.hyperliquid-testnet.xyz"@
    } else {
        "https://api.hyperliquid.xyz"@
    }
}

impl ClientConfig {
    /// The defaults for one environment.
    pub fn defaults(is_test: bool) -> (r: ClientConfig)
        ensures
            r.is_test == is_test,
            r.max_trades == DEFAULT_HISTORY,
            r.max_candles == DEFAULT_HISTORY,
            r.heartbeat_secs == DEFAULT_HEARTBEAT_SECS,
            r.max_connect_attempts == DEFAULT_MAX_CONNECT_ATTEMPTS,
            r.retry_delay_secs == DEFAULT_RETRY_DELAY_SECS,
    {
        ClientConfig {
            is_test,
            max_trades: DEFAULT_HISTORY,
            max_candles: DEFAULT_HISTORY,
            heartbeat_secs: DEFAULT_HEARTBEAT_SECS,
            max_connect_attempts: DEFAULT_MAX_CONNECT_ATTEMPTS,
            retry_delay_secs: DEFAULT_RETRY_DELAY_SECS,
        }
    }

    /// The streaming endpoint of the chosen environment.
    pub fn ws_url(&self) -> (r: &'static str)
        ensures
            r@ == ws_url_of(self.is_test),
    {
        if self.is_test {
            "wss://api.hyperliquid-testnet.xyz/ws"
        } else {
            "wss://api.hyperliquid.xyz/ws"
        }
    }

    /// The request/response endpoint of the chosen environment.
    pub fn http_url(&self) -> (r: &'static str)
        ensures
            r@ == http_url_of(self.is_test),
    {
        if self.is_test {
            "https://api.hyperliquid-testnet.xyz"
        } else {
            "https://api.hyperliquid.xyz"
        }
    }
}

} // verus!
