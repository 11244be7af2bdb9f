//! Request bodies for book and candle snapshots.
use vstd::prelude::*;
use std::time::{SystemTime, UNIX_EPOCH};

verus! {

/// Milliseconds in a day: how far back a candle request reaches by default.
pub const DAY_MILLIS: u64 = 86_400_000;

pub struct L2BookRequest {
    pub request_type: String,
    pub coin: String,
    pub n_sig_figs: Option<u8>,
    pub mantissa: Option<u8>,
}

impl L2BookRequest {
    pub fn new(coin: &str, n_sig_figs: Option<u8>, mantissa: Option<u8>) -> (r: L2BookRequest)
        ensures
            r.request_type@ == "l2Book"@,
            r.coin@ == coin@,
            r.n_sig_figs == n_sig_figs,
            r.mantissa == mantissa,
    {
        L2BookRequest { request_type: "l2Book".to_owned(), coin: coin.to_owned(), n_sig_figs, mantissa }
    }
}

pub struct CandleRequestDetails {
    pub coin: String,
    pub interval: String,
    pub start_time: u64,
    pub end_time: u64,
}

pub struct CandleSnapshotRequest {
    pub request_type: String,
    pub req: CandleRequestDetails,
}

/// Relies on std's `SystemTime::now` and `duration_since(UNIX_EPOCH)`: the
/// milliseconds since the epoch, or zero for a clock set before it.
#[verifier::external_body]
fn current_epoch_millis() -> (r: u64) {
    SystemTime::now().duration_since(UNIX_EPOCH).map_or(0, |d| d.as_millis() as u64)
}

impl CandleSnapshotRequest {
    /// A request at the given time `now`: a missing end is `now`, a missing
    /// start a day before `now` (or the epoch, when `now` is earlier than a day).
    pub fn at(coin: &str, interval: &str, start_time: Option<u64>, end_time: Option<u64>, now: u64) -> (r: CandleSnapshotRequest)
        ensures
            r.request_type@ == "candleSnapshot"@,
            r.req.coin@ == coin@,
            r.req.interval@ == interval@,
            r.req.start_time == match start_time {
                Some(s) => s,
                None => if now >= DAY_MILLIS { (now - DAY_MILLIS) as u64 } else { 0 },
            },
            r.req.end_time == match end_time {
                Some(e) => e,
                None => now,
            },
    {
        let day_before = if now >= DAY_MILLIS { now - DAY_MILLIS } else { 0 };
        CandleSnapshotRequest {
            request_type: "candleSnapshot".to_owned(),
            req: CandleRequestDetails {
                coin: coin.to_owned(),
                interval: interval.to_owned(),
                start_time: match start_time {
                    Some(s) => s,
                    None => day_before,
                },
                end_time: match end_time {
                    Some(e) => e,
                    None => now,
                },
            },
        }
    }

    /// A request as of the current time.
    pub fn new(coin: &str, interval: &str, start_time: Option<u64>, end_time: Option<u64>) -> (r: CandleSnapshotRequest)
        ensures
            r.request_type@ == "candleSnapshot"@,
            r.req.coin@ == coin@,
            r.req.interval@ == interval@,
            start_time matches Some(s) ==> r.req.start_time == s,
            end_time matches Some(e) ==> r.req.end_time == e,
            start_time is None && end_time is None ==> r.req.start_time == if r.req.end_time >= DAY_MILLIS {
                (r.req.end_time - DAY_MILLIS) as u64
            } else {
                0
            },
    {
        let now = current_epoch_millis();
        CandleSnapshotRequest::at(coin, interval, start_time, end_time, now)
    }
}

} // verus!
