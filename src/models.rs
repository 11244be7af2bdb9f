//! The market-data records that the feed carries.
use vstd::prelude::*;
use vstd::string::*;
use crate::decimal::Decimal;

verus! {

#[derive(Clone, Copy, Debug, PartialEq, Eq, Structural)]
pub enum TradeSide {
    Buy,
    Sell,
}

/// The side that a wire code names: `B` buys, `A` sells.
pub open spec fn side_of_code(code: Seq<char>) -> Option<TradeSide> {
    if code == seq!['B'] {
        Some(TradeSide::Buy)
    } else if code == seq!['A'] {
        Some(TradeSide::Sell)
    } else {
        None
    }
}

pub open spec fn side_name(side: TradeSide) -> Seq<char> {
    match side {
        TradeSide::Buy => seq!['b', 'u', 'y'],
        TradeSide::Sell => seq!['s', 'e', 'l', 'l'],
    }
}

impl TradeSide {
    pub fn from_code(value: &str) -> (r: Option<TradeSide>)
        ensures
            r == side_of_code(value@),
    {
        if value.unicode_len() == 1 {
            let c = value.get_char(0);
            if c == 'B' {
                assert(value@ =~= seq!['B']);
                return Some(TradeSide::Buy);
            } else if c == 'A' {
                assert(value@ =~= seq!['A']);
                return Some(TradeSide::Sell);
            }
        }
        None
    }

    pub fn as_str(&self) -> (r: &str)
        ensures
            r@ == side_name(*self),
    {
        match self {
            TradeSide::Buy => {
                proof {
                    reveal_strlit("buy");
                }
                "buy"
            },
            TradeSide::Sell => {
                proof {
                    reveal_strlit("sell");
                }
                "sell"
            },
        }
    }
}

/// One executed trade.
#[derive(Clone, Debug)]
pub struct TradeData {
    pub coin: String,
    pub side: TradeSide,
    pub price: Decimal,
    pub size: Decimal,
    pub trade_hash: String,
    pub timestamp: u64,
    pub trade_id: u64,
    pub users: Vec<String>,
}

pub struct TradeView {
    pub coin: Seq<char>,
    pub side: TradeSide,
    pub price: Decimal,
    pub size: Decimal,
    pub trade_hash: Seq<char>,
    pub timestamp: u64,
    pub trade_id: u64,
    pub users: Seq<Seq<char>>,
}

pub open spec fn texts_view(v: Seq<String>) -> Seq<Seq<char>> {
    v.map_values(|s: String| s@)
}

impl View for TradeData {
    type V = TradeView;

    open spec fn view(&self) -> TradeView {
        TradeView {
            coin: self.coin@,
            side: self.side,
            price: self.price,
            size: self.size,
            trade_hash: self.trade_hash@,
            timestamp: self.timestamp,
            trade_id: self.trade_id,
            users: texts_view(self.users@),
        }
    }
}

/// One price level of a book.
#[derive(Clone, Copy, Debug, PartialEq, Eq, Structural)]
pub struct WsLevel {
    pub price: Decimal,
    pub size: Decimal,
    pub order_count: usize,
}

/// A full order-book snapshot: bids by descending price, asks by ascending price.
#[derive(Clone, Debug)]
pub struct WsBook {
    pub coin: String,
    pub bid_levels: Vec<WsLevel>,
    pub ask_levels: Vec<WsLevel>,
    pub timestamp: u64,
}

pub struct BookView {
    pub coin: Seq<char>,
    pub bid_levels: Seq<WsLevel>,
    pub ask_levels: Seq<WsLevel>,
    pub timestamp: u64,
}

impl View for WsBook {
    type V = BookView;

    open spec fn view(&self) -> BookView {
        BookView {
            coin: self.coin@,
            bid_levels: self.bid_levels@,
            ask_levels: self.ask_levels@,
            timestamp: self.timestamp,
        }
    }
}

/// One bar of a candle series.
#[derive(Clone, Debug)]
pub struct Candle {
    pub open_time: u64,
    pub close_time: u64,
    pub coin: String,
    pub interval: String,
    pub open: Decimal,
    pub high: Decimal,
    pub low: Decimal,
    pub close: Decimal,
    pub volume: Decimal,
    pub number_of_trades: u64,
}

pub struct CandleView {
    pub open_time: u64,
    pub close_time: u64,
    pub coin: Seq<char>,
    pub interval: Seq<char>,
    pub open: Decimal,
    pub high: Decimal,
    pub low: Decimal,
    pub close: Decimal,
    pub volume: Decimal,
    pub number_of_trades: u64,
}

impl View for Candle {
    type V = CandleView;

    open spec fn view(&self) -> CandleView {
        CandleView {
            open_time: self.open_time,
            close_time: self.close_time,
            coin: self.coin@,
            interval: self.interval@,
            open: self.open,
            high: self.high,
            low: self.low,
            close: self.close,
            volume: self.volume,
            number_of_trades: self.number_of_trades,
        }
    }
}

/// A trade as the request/response API reports it, with its price and size as sent.
pub struct Trade {
    pub side: TradeSide,
    pub price: String,
    pub size: String,
}

} // verus!
