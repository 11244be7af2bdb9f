//! Shown times of day for epoch timestamps.
use vstd::prelude::*;
use chrono::{Local, TimeZone, Utc};

verus! {

/// Relies on chrono's `Utc.timestamp_opt`, `with_timezone(&Local)` and `format`:
/// the local time `YYYY-MM-DD HH:MM:SS` of an epoch second, or none when chrono
/// cannot represent it. It depends on the machine's time zone.
#[verifier::external_body]
fn local_time_text(secs: i64) -> (r: Option<String>) {
    Utc.timestamp_opt(secs, 0).single().map(|d| d.with_timezone(&Local).format("%Y-%m-%d %H:%M:%S").to_string())
}

pub open spec fn invalid_text() -> Seq<char> {
    "Invalid Timestamp"@
}

/// The shown time, or `Invalid Timestamp` when there is none.
pub fn timestamp_text(formatted: Option<String>) -> (r: String)
    ensures
        formatted matches Some(t) ==> r@ == t@,
        formatted is None ==> r@ == invalid_text(),
{
    match formatted {
        Some(t) => t,
        None => "Invalid Timestamp".to_owned(),
    }
}

/// The local time of day of an epoch timestamp in milliseconds, to the second.
pub fn unix_time_to_jst(unix_time_millis: u64) -> String {
    let secs = (unix_time_millis / 1000) as i64;
    timestamp_text(local_time_text(secs))
}

} // verus!
