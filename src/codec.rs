//! Reads inbound feed frames into typed events and writes outbound commands.
use vstd::prelude::*;
use vstd::string::*;
use crate::decimal::{Decimal, number_of, parse_number};
use crate::json::{Json, member, get_member, same_text, json_of, json_quoted, parse_json, quote_json};
use crate::models::{TradeSide, TradeData, TradeView, side_of_code, texts_view, WsLevel, WsBook, BookView, Candle, CandleView};

verus! {

/// The text of a string value.
pub open spec fn text_of(j: Option<Json>) -> Option<String> {
    match j {
        Some(Json::Str(s)) => Some(s),
        _ => None,
    }
}

/// A number given either as a JSON string or as a JSON number.
pub open spec fn decimal_in(j: Option<Json>) -> Option<Decimal> {
    match j {
        Some(Json::Str(s)) => number_of(s@),
        Some(Json::Number(t)) => number_of(t@),
        _ => None,
    }
}

/// A number reads the same whether it comes as a JSON string or as a JSON
/// number, whenever the two carry the same text.
pub proof fn lemma_string_or_number(s: String, n: String)
    requires
        s@ == n@,
    ensures
        decimal_in(Some(Json::Str(s))) == decimal_in(Some(Json::Number(n))),
        decimal_in(Some(Json::Str(s))) == number_of(s@),
{
}

/// A whole number given either as a JSON string or as a JSON number.
pub open spec fn count_in(j: Option<Json>) -> Option<u64> {
    match decimal_in(j) {
        Some(d) => if !d.negative && d.scale == 0 {
            Some(d.mantissa)
        } else {
            None
        },
        None => None,
    }
}

/// The texts among a list of values, in order; other values are passed over.
pub open spec fn texts_in(items: Seq<Json>) -> Seq<Seq<char>>
    decreases items.len(),
{
    if items.len() == 0 {
        Seq::empty()
    } else {
        let prev = texts_in(items.drop_last());
        match items.last() {
            Json::Str(s) => prev.push(s@),
            _ => prev,
        }
    }
}

pub fn field_text(obj: &Json, key: &str) -> (r: Option<String>)
    ensures
        r == text_of(member(*obj, key@)),
{
    match get_member(obj, key) {
        Some(x) => match x {
            Json::Str(s) => Some(s.clone()),
            _ => None,
        },
        None => None,
    }
}

pub fn field_decimal(obj: &Json, key: &str) -> (r: Option<Decimal>)
    ensures
        r == decimal_in(member(*obj, key@)),
{
    match get_member(obj, key) {
        Some(x) => match x {
            Json::Str(s) => parse_number(s.as_str()),
            Json::Number(t) => parse_number(t.as_str()),
            _ => None,
        },
        None => None,
    }
}

pub fn field_count(obj: &Json, key: &str) -> (r: Option<u64>)
    ensures
        r == count_in(member(*obj, key@)),
{
    match field_decimal(obj, key) {
        Some(d) => if !d.negative && d.scale == 0 {
            Some(d.mantissa)
        } else {
            None
        },
        None => None,
    }
}

/// Why one element of a list was dropped.
#[derive(Clone, Copy, Debug, PartialEq, Eq, Structural)]
pub enum ElementFault {
    /// A required field is absent or of the wrong kind.
    Malformed,
    /// The side code is neither of the two known codes.
    InvalidSide,
}

/// A dropped element of a trade list, by its position in the list.
#[derive(Clone, Copy, Debug, PartialEq, Eq, Structural)]
pub struct TradeError {
    pub index: usize,
    pub fault: ElementFault,
}

pub open spec fn users_in(j: Json) -> Option<Seq<Seq<char>>> {
    match member(j, "users"@) {
        Some(Json::Array(items)) => Some(texts_in(items@)),
        _ => None,
    }
}

/// One element of a trade list: every field present, and a known side code.
pub open spec fn trade_result(j: Json) -> Result<TradeView, ElementFault> {
    let coin = text_of(member(j, "coin"@));
    let side = text_of(member(j, "side"@));
    let px = decimal_in(member(j, "px"@));
    let sz = decimal_in(member(j, "sz"@));
    let hash = text_of(member(j, "hash"@));
    let time = count_in(member(j, "time"@));
    let tid = count_in(member(j, "tid"@));
    let users = users_in(j);
    if coin is Some && side is Some && px is Some && sz is Some && hash is Some && time is Some
        && tid is Some && users is Some {
        match side_of_code(side->0@) {
            Some(s) => Ok(
                TradeView {
                    coin: coin->0@,
                    side: s,
                    price: px->0,
                    size: sz->0,
                    trade_hash: hash->0@,
                    timestamp: time->0,
                    trade_id: tid->0,
                    users: users->0,
                },
            ),
            None => Err(ElementFault::InvalidSide),
        }
    } else {
        Err(ElementFault::Malformed)
    }
}

fn users_field(j: &Json) -> (r: Option<Vec<String>>)
    ensures
        r matches Some(v) ==> users_in(*j) == Some(texts_view(v@)),
        r is None ==> users_in(*j) is None,
{
    match get_member(j, "users") {
        Some(x) => match x {
            Json::Array(items) => {
                let mut out: Vec<String> = Vec::new();
                let mut i: usize = 0;
                assert(texts_view(out@) =~= texts_in(items@.subrange(0, 0)));
                while i < items.len()
                    invariant
                        i <= items@.len(),
                        texts_view(out@) == texts_in(items@.subrange(0, i as int)),
                    decreases items.len() - i,
                {
                    assert(items@.subrange(0, i + 1).drop_last() =~= items@.subrange(0, i as int));
                    match &items[i] {
                        Json::Str(s) => {
                            out.push(s.clone());
                            assert(texts_view(out@) =~= texts_in(items@.subrange(0, i as int)).push(s@));
                        },
                        _ => {},
                    }
                    i = i + 1;
                }
                assert(items@.subrange(0, items@.len() as int) =~= items@);
                Some(out)
            },
            _ => None,
        },
        None => None,
    }
}

/// Reads one element of a trade list.
pub fn trade_from_json(j: &Json) -> (r: Result<TradeData, ElementFault>)
    ensures
        r matches Ok(t) ==> trade_result(*j) == Ok::<TradeView, ElementFault>(t@),
        r matches Err(f) ==> trade_result(*j) == Err::<TradeView, ElementFault>(f),
{
    let coin = field_text(j, "coin");
    let side = field_text(j, "side");
    let px = field_decimal(j, "px");
    let sz = field_decimal(j, "sz");
    let hash = field_text(j, "hash");
    let time = field_count(j, "time");
    let tid = field_count(j, "tid");
    let users = users_field(j);
    match (coin, side, px, sz, hash, time, tid, users) {
        (Some(coin), Some(side), Some(px), Some(sz), Some(hash), Some(time), Some(tid), Some(users)) => {
            match TradeSide::from_code(side.as_str()) {
                Some(s) => Ok(
                    TradeData {
                        coin,
                        side: s,
                        price: px,
                        size: sz,
                        trade_hash: hash,
                        timestamp: time,
                        trade_id: tid,
                        users,
                    },
                ),
                None => Err(ElementFault::InvalidSide),
            }
        },
        _ => Err(ElementFault::Malformed),
    }
}

pub open spec fn trades_view(v: Seq<TradeData>) -> Seq<TradeView> {
    v.map_values(|t: TradeData| t@)
}

/// The trades read from a list, in order; the elements that fail are left out.
pub open spec fn trades_kept(items: Seq<Json>) -> Seq<TradeView>
    decreases items.len(),
{
    if items.len() == 0 {
        Seq::empty()
    } else {
        let prev = trades_kept(items.drop_last());
        match trade_result(items.last()) {
            Ok(t) => prev.push(t),
            Err(_) => prev,
        }
    }
}

/// The elements of a trade list that fail, in order, each with its position and fault.
pub open spec fn trade_faults(items: Seq<Json>) -> Seq<TradeError>
    decreases items.len(),
{
    if items.len() == 0 {
        Seq::empty()
    } else {
        let prev = trade_faults(items.drop_last());
        match trade_result(items.last()) {
            Ok(_) => prev,
            Err(f) => prev.push(TradeError { index: (items.len() - 1) as usize, fault: f }),
        }
    }
}

/// Reads a trade list element by element; an element that fails never stops the rest.
pub fn trades_from_json(items: &Vec<Json>) -> (r: (Vec<TradeData>, Vec<TradeError>))
    ensures
        trades_view(r.0@) == trades_kept(items@),
        r.1@ == trade_faults(items@),
{
    let mut kept: Vec<TradeData> = Vec::new();
    let mut faults: Vec<TradeError> = Vec::new();
    let mut i: usize = 0;
    assert(trades_view(kept@) =~= trades_kept(items@.subrange(0, 0)));
    assert(faults@ =~= trade_faults(items@.subrange(0, 0)));
    while i < items.len()
        invariant
            i <= items@.len(),
            trades_view(kept@) == trades_kept(items@.subrange(0, i as int)),
            faults@ == trade_faults(items@.subrange(0, i as int)),
        decreases items.len() - i,
    {
        let ghost pre = items@.subrange(0, i + 1);
        assert(pre.drop_last() =~= items@.subrange(0, i as int));
        assert(pre.last() == items@[i as int]);
        match trade_from_json(&items[i]) {
            Ok(t) => {
                let ghost tv = t@;
                kept.push(t);
                assert(trades_view(kept@) =~= trades_kept(items@.subrange(0, i as int)).push(tv));
            },
            Err(f) => {
                faults.push(TradeError { index: i, fault: f });
            },
        }
        i = i + 1;
    }
    assert(items@.subrange(0, items@.len() as int) =~= items@);
    (kept, faults)
}

/// One level of a book side: price, size and order count all readable.
pub open spec fn level_result(j: Json) -> Option<WsLevel> {
    let px = decimal_in(member(j, "px"@));
    let sz = decimal_in(member(j, "sz"@));
    let n = count_in(member(j, "n"@));
    if px is Some && sz is Some && n is Some && n->0 <= usize::MAX {
        Some(WsLevel { price: px->0, size: sz->0, order_count: n->0 as usize })
    } else {
        None
    }
}

/// The levels read from a book side, in order; a level that fails is left out.
pub open spec fn levels_kept(items: Seq<Json>) -> Seq<WsLevel>
    decreases items.len(),
{
    if items.len() == 0 {
        Seq::empty()
    } else {
        let prev = levels_kept(items.drop_last());
        match level_result(items.last()) {
            Some(l) => prev.push(l),
            None => prev,
        }
    }
}

pub fn level_from_json(j: &Json) -> (r: Option<WsLevel>)
    ensures
        r == level_result(*j),
{
    let px = field_decimal(j, "px");
    let sz = field_decimal(j, "sz");
    let n = field_count(j, "n");
    match (px, sz, n) {
        (Some(price), Some(size), Some(n)) => if n as u128 <= usize::MAX as u128 {
            Some(WsLevel { price, size, order_count: n as usize })
        } else {
            None
        },
        _ => None,
    }
}

pub fn levels_from_json(items: &Vec<Json>) -> (r: Vec<WsLevel>)
    ensures
        r@ == levels_kept(items@),
{
    let mut kept: Vec<WsLevel> = Vec::new();
    let mut i: usize = 0;
    assert(kept@ =~= levels_kept(items@.subrange(0, 0)));
    while i < items.len()
        invariant
            i <= items@.len(),
            kept@ == levels_kept(items@.subrange(0, i as int)),
        decreases items.len() - i,
    {
        let ghost pre = items@.subrange(0, i + 1);
        assert(pre.drop_last() =~= items@.subrange(0, i as int));
        assert(pre.last() == items@[i as int]);
        match level_from_json(&items[i]) {
            Some(l) => kept.push(l),
            None => {},
        }
        i = i + 1;
    }
    assert(items@.subrange(0, items@.len() as int) =~= items@);
    kept
}

/// A book snapshot: a coin, and a `levels` list whose first two members are the
/// bid and ask lists. A missing time reads as zero.
pub open spec fn book_of(data: Json) -> Option<BookView> {
    let coin = text_of(member(data, "coin"@));
    let time = match count_in(member(data, "time"@)) {
        Some(t) => t,
        None => 0,
    };
    match (coin, member(data, "levels"@)) {
        (Some(c), Some(Json::Array(sides))) => if sides@.len() >= 2 {
            match (sides@[0], sides@[1]) {
                (Json::Array(bids), Json::Array(asks)) => Some(
                    BookView {
                        coin: c@,
                        bid_levels: levels_kept(bids@),
                        ask_levels: levels_kept(asks@),
                        timestamp: time,
                    },
                ),
                _ => None,
            }
        } else {
            None
        },
        _ => None,
    }
}

pub fn book_from_json(data: &Json) -> (r: Option<WsBook>)
    ensures
        r matches Some(b) ==> book_of(*data) == Some(b@),
        r is None ==> book_of(*data) is None,
{
    let coin = field_text(data, "coin");
    let timestamp = match field_count(data, "time") {
        Some(t) => t,
        None => 0,
    };
    match (coin, get_member(data, "levels")) {
        (Some(coin), Some(Json::Array(sides))) => {
            if sides.len() < 2 {
                return None;
            }
            match (&sides[0], &sides[1]) {
                (Json::Array(bids), Json::Array(asks)) => Some(
                    WsBook {
                        coin,
                        bid_levels: levels_from_json(bids),
                        ask_levels: levels_from_json(asks),
                        timestamp,
                    },
                ),
                _ => None,
            }
        },
        _ => None,
    }
}

/// A candle: every field present and readable.
pub open spec fn candle_of(data: Json) -> Option<CandleView> {
    let t = count_in(member(data, "t"@));
    let tc = count_in(member(data, "T"@));
    let s = text_of(member(data, "s"@));
    let i = text_of(member(data, "i"@));
    let o = decimal_in(member(data, "o"@));
    let h = decimal_in(member(data, "h"@));
    let l = decimal_in(member(data, "l"@));
    let c = decimal_in(member(data, "c"@));
    let v = decimal_in(member(data, "v"@));
    let n = count_in(member(data, "n"@));
    if t is Some && tc is Some && s is Some && i is Some && o is Some && h is Some && l is Some
        && c is Some && v is Some && n is Some {
        Some(
            CandleView {
                open_time: t->0,
                close_time: tc->0,
                coin: s->0@,
                interval: i->0@,
                open: o->0,
                high: h->0,
                low: l->0,
                close: c->0,
                volume: v->0,
                number_of_trades: n->0,
            },
        )
    } else {
        None
    }
}

pub fn candle_from_json(data: &Json) -> (r: Option<Candle>)
    ensures
        r matches Some(c) ==> candle_of(*data) == Some(c@),
        r is None ==> candle_of(*data) is None,
{
    let t = field_count(data, "t");
    let tc = field_count(data, "T");
    let s = field_text(data, "s");
    let i = field_text(data, "i");
    let o = field_decimal(data, "o");
    let h = field_decimal(data, "h");
    let l = field_decimal(data, "l");
    let c = field_decimal(data, "c");
    let v = field_decimal(data, "v");
    let n = field_count(data, "n");
    match (t, tc, s, i, o, h, l, c, v, n) {
        (Some(t), Some(tc), Some(s), Some(i), Some(o), Some(h), Some(l), Some(c), Some(v), Some(n)) => Some(
            Candle {
                open_time: t,
                close_time: tc,
                coin: s,
                interval: i,
                open: o,
                high: h,
                low: l,
                close: c,
                volume: v,
                number_of_trades: n,
            },
        ),
        _ => None,
    }
}

pub open spec fn pairs_view(v: Seq<(String, String)>) -> Seq<(Seq<char>, Seq<char>)> {
    v.map_values(|p: (String, String)| (p.0@, p.1@))
}

/// The entries of a mid-price object whose price is a string, in order.
pub open spec fn mid_entries(entries: Seq<(String, Json)>) -> Seq<(Seq<char>, Seq<char>)>
    decreases entries.len(),
{
    if entries.len() == 0 {
        Seq::empty()
    } else {
        let prev = mid_entries(entries.drop_last());
        match entries.last().1 {
            Json::Str(p) => prev.push((entries.last().0@, p@)),
            _ => prev,
        }
    }
}

/// The mid-price table of an `allMids` payload: the object under `mids`.
pub open spec fn mids_of(data: Json) -> Option<Seq<(Seq<char>, Seq<char>)>> {
    match member(data, "mids"@) {
        Some(Json::Object(entries)) => Some(mid_entries(entries@)),
        _ => None,
    }
}

pub fn mids_from_json(data: &Json) -> (r: Option<Vec<(String, String)>>)
    ensures
        r matches Some(v) ==> mids_of(*data) == Some(pairs_view(v@)),
        r is None ==> mids_of(*data) is None,
{
    match get_member(data, "mids") {
        Some(Json::Object(entries)) => {
            let mut out: Vec<(String, String)> = Vec::new();
            let mut i: usize = 0;
            assert(pairs_view(out@) =~= mid_entries(entries@.subrange(0, 0)));
            while i < entries.len()
                invariant
                    i <= entries@.len(),
                    pairs_view(out@) == mid_entries(entries@.subrange(0, i as int)),
                decreases entries.len() - i,
            {
                let ghost pre = entries@.subrange(0, i + 1);
                assert(pre.drop_last() =~= entries@.subrange(0, i as int));
                assert(pre.last() == entries@[i as int]);
                match &entries[i].1 {
                    Json::Str(p) => {
                        out.push((entries[i].0.clone(), p.clone()));
                        assert(pairs_view(out@) =~= mid_entries(entries@.subrange(0, i as int)).push(
                            (entries@[i as int].0@, p@),
                        ));
                    },
                    _ => {},
                }
                i = i + 1;
            }
            assert(entries@.subrange(0, entries@.len() as int) =~= entries@);
            Some(out)
        },
        _ => None,
    }
}

/// A decoded inbound frame.
pub enum FeedEvent {
    /// A full replacement of the mid-price table.
    Mids(Vec<(String, String)>),
    /// The trades read from a trade list, and the elements that were dropped.
    Trades(Vec<TradeData>, Vec<TradeError>),
    Book(WsBook),
    Candle(Candle),
    Pong,
    /// A frame on a channel this client does not follow.
    Unknown(String),
}

pub enum EventView {
    Mids(Seq<(Seq<char>, Seq<char>)>),
    Trades(Seq<TradeView>, Seq<TradeError>),
    Book(BookView),
    Candle(CandleView),
    Pong,
    Unknown(Seq<char>),
}

impl View for FeedEvent {
    type V = EventView;

    open spec fn view(&self) -> EventView {
        match self {
            FeedEvent::Mids(m) => EventView::Mids(pairs_view(m@)),
            FeedEvent::Trades(t, f) => EventView::Trades(trades_view(t@), f@),
            FeedEvent::Book(b) => EventView::Book(b@),
            FeedEvent::Candle(c) => EventView::Candle(c@),
            FeedEvent::Pong => EventView::Pong,
            FeedEvent::Unknown(c) => EventView::Unknown(c@),
        }
    }
}

/// Why a whole frame was dropped.
#[derive(Clone, Copy, Debug, PartialEq, Eq, Structural)]
pub enum DecodeError {
    /// The frame is not one JSON document.
    InvalidJson,
    /// The frame has no `channel` string.
    MissingChannel,
    /// The payload of a known channel does not have the shape that channel needs.
    MalformedPayload,
}

pub open spec fn outcome_view(r: Result<FeedEvent, DecodeError>) -> Result<EventView, DecodeError> {
    match r {
        Ok(e) => Ok(e@),
        Err(e) => Err(e),
    }
}

/// The event that a frame's JSON document carries, by its `channel`.
pub open spec fn event_of(j: Json) -> Result<EventView, DecodeError> {
    match text_of(member(j, "channel"@)) {
        None => Err(DecodeError::MissingChannel),
        Some(c) => {
            let data = member(j, "data"@);
            if c@ == "allMids"@ {
                match data {
                    Some(d) => match mids_of(d) {
                        Some(m) => Ok(EventView::Mids(m)),
                        None => Err(DecodeError::MalformedPayload),
                    },
                    None => Err(DecodeError::MalformedPayload),
                }
            } else if c@ == "trades"@ {
                match data {
                    Some(Json::Array(items)) => Ok(
                        EventView::Trades(trades_kept(items@), trade_faults(items@)),
                    ),
                    _ => Err(DecodeError::MalformedPayload),
                }
            } else if c@ == "l2Book"@ {
                match data {
                    Some(d) => match book_of(d) {
                        Some(b) => Ok(EventView::Book(b)),
                        None => Err(DecodeError::MalformedPayload),
                    },
                    None => Err(DecodeError::MalformedPayload),
                }
            } else if c@ == "candle"@ {
                match data {
                    Some(d) => match candle_of(d) {
                        Some(k) => Ok(EventView::Candle(k)),
                        None => Err(DecodeError::MalformedPayload),
                    },
                    None => Err(DecodeError::MalformedPayload),
                }
            } else if c@ == "pong"@ {
                Ok(EventView::Pong)
            } else {
                Ok(EventView::Unknown(c@))
            }
        },
    }
}

/// Decodes a frame's JSON document.
pub fn decode_value(j: &Json) -> (r: Result<FeedEvent, DecodeError>)
    ensures
        outcome_view(r) == event_of(*j),
{
    let channel = match field_text(j, "channel") {
        Some(c) => c,
        None => return Err(DecodeError::MissingChannel),
    };
    let data = get_member(j, "data");
    if same_text(channel.as_str(), "allMids") {
        match data {
            Some(d) => match mids_from_json(d) {
                Some(m) => Ok(FeedEvent::Mids(m)),
                None => Err(DecodeError::MalformedPayload),
            },
            None => Err(DecodeError::MalformedPayload),
        }
    } else if same_text(channel.as_str(), "trades") {
        match data {
            Some(Json::Array(items)) => {
                let (t, f) = trades_from_json(items);
                Ok(FeedEvent::Trades(t, f))
            },
            _ => Err(DecodeError::MalformedPayload),
        }
    } else if same_text(channel.as_str(), "l2Book") {
        match data {
            Some(d) => match book_from_json(d) {
                Some(b) => Ok(FeedEvent::Book(b)),
                None => Err(DecodeError::MalformedPayload),
            },
            None => Err(DecodeError::MalformedPayload),
        }
    } else if same_text(channel.as_str(), "candle") {
        match data {
            Some(d) => match candle_from_json(d) {
                Some(k) => Ok(FeedEvent::Candle(k)),
                None => Err(DecodeError::MalformedPayload),
            },
            None => Err(DecodeError::MalformedPayload),
        }
    } else if same_text(channel.as_str(), "pong") {
        Ok(FeedEvent::Pong)
    } else {
        Ok(FeedEvent::Unknown(channel))
    }
}

/// Decodes one inbound text frame.
pub fn decode(text: &str) -> (r: Result<FeedEvent, DecodeError>)
    ensures
        json_of(text@) is None ==> r == Err::<FeedEvent, DecodeError>(DecodeError::InvalidJson),
        json_of(text@) matches Some(j) ==> outcome_view(r) == event_of(j),
{
    match parse_json(text) {
        Some(j) => decode_value(&j),
        None => Err(DecodeError::InvalidJson),
    }
}

/// The members that already-quoted parameters add, each as `,key:value`.
pub open spec fn members_text(quoted: Seq<(Seq<char>, Seq<char>)>) -> Seq<char>
    decreases quoted.len(),
{
    if quoted.len() == 0 {
        Seq::empty()
    } else {
        members_text(quoted.drop_last()) + ","@ + quoted.last().0 + ":"@ + quoted.last().1
    }
}

/// `{"method":"subscribe","subscription":{"type":<channel>,<members>}}`, from
/// JSON literals already written.
pub open spec fn subscribe_frame(quoted_channel: Seq<char>, quoted: Seq<(Seq<char>, Seq<char>)>) -> Seq<char> {
    "{\"method\":\"subscribe\",\"subscription\":{\"type\":"@ + quoted_channel + members_text(quoted) + "}}"@
}

pub open spec fn quoted_pairs(params: Seq<(Seq<char>, Seq<char>)>) -> Seq<(Seq<char>, Seq<char>)> {
    params.map_values(|p: (Seq<char>, Seq<char>)| (json_quoted(p.0), json_quoted(p.1)))
}

/// The subscribe command for a channel and its parameters, in order.
pub open spec fn subscribe_text(channel: Seq<char>, params: Seq<(Seq<char>, Seq<char>)>) -> Seq<char> {
    subscribe_frame(json_quoted(channel), quoted_pairs(params))
}

/// Frames a subscribe command around a quoted channel and quoted parameters.
pub fn assemble_subscribe(quoted_channel: &str, quoted: &Vec<(String, String)>) -> (r: String)
    ensures
        r@ == subscribe_frame(quoted_channel@, pairs_view(quoted@)),
{
    let mut out = "{\"method\":\"subscribe\",\"subscription\":{\"type\":".to_owned();
    out.append(quoted_channel);
    let ghost head = out@;
    let ghost q = pairs_view(quoted@);
    let mut i: usize = 0;
    assert(q.subrange(0, 0) =~= Seq::<(Seq<char>, Seq<char>)>::empty());
    assert(out@ =~= head + members_text(q.subrange(0, 0)));
    while i < quoted.len()
        invariant
            i <= quoted@.len(),
            q == pairs_view(quoted@),
            out@ == head + members_text(q.subrange(0, i as int)),
        decreases quoted.len() - i,
    {
        let ghost pre = q.subrange(0, i + 1);
        assert(pre.drop_last() =~= q.subrange(0, i as int));
        out.append(",");
        out.append(quoted[i].0.as_str());
        out.append(":");
        out.append(quoted[i].1.as_str());
        assert(out@ =~= head + members_text(pre));
        i = i + 1;
    }
    assert(q.subrange(0, quoted@.len() as int) =~= q);
    out.append("}}");
    out
}

/// The command that subscribes to a channel with the given parameters, in order.
pub fn encode_subscribe(channel: &str, params: &Vec<(String, String)>) -> (r: String)
    ensures
        r@ == subscribe_text(channel@, pairs_view(params@)),
{
    let quoted_channel = quote_json(channel);
    let mut quoted: Vec<(String, String)> = Vec::new();
    let mut i: usize = 0;
    while i < params.len()
        invariant
            i <= params@.len(),
            pairs_view(quoted@) == quoted_pairs(pairs_view(params@)).subrange(0, i as int),
        decreases params.len() - i,
    {
        let k = quote_json(params[i].0.as_str());
        let v = quote_json(params[i].1.as_str());
        let ghost prev = quoted@;
        quoted.push((k, v));
        assert(pairs_view(quoted@) =~= pairs_view(prev).push((k@, v@)));
        assert(pairs_view(quoted@) =~= quoted_pairs(pairs_view(params@)).subrange(0, i + 1));
        i = i + 1;
    }
    assert(quoted_pairs(pairs_view(params@)).subrange(0, params@.len() as int) =~= quoted_pairs(pairs_view(params@)));
    assemble_subscribe(quoted_channel.as_str(), &quoted)
}

/// `{"method":"ping"}`.
pub open spec fn ping_text() -> Seq<char> {
    "{\"method\":\"ping\"}"@
}

/// The heartbeat command.
pub fn encode_ping() -> (r: String)
    ensures
        r@ == ping_text(),
{
    "{\"method\":\"ping\"}".to_owned()
}

} // verus!
