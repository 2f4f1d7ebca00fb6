//! Instants and hour/day bucketing.
//!
//! The engine represents every instant as a UTC unix timestamp in whole
//! seconds.  Hour and day buckets are plain arithmetic on that
//! representation; rendering an instant as text is delegated to chrono.

use vstd::prelude::*;

verus! {

/// 2012-07-01T00:00:00Z, the engine's global "beginning of time".
/// Tag dates older than this are considered bogus and dropped.
pub const EPOCH_FLOOR: i64 = 1341100800;

/// Highest timestamp the engine accepts: 9999-12-31T23:59:59Z.
/// Keeps date rendering well-defined (four-digit years).
pub const MAX_INSTANT: i64 = 253402300799;

pub open spec fn hour_floor(ts: int) -> int {
    ts - ts % 3600
}

pub open spec fn day_floor(ts: int) -> int {
    ts - ts % 86400
}

/// Midnight UTC of the day after the day containing `ts`.
pub open spec fn next_day_floor(ts: int) -> int {
    day_floor(ts) + 86400
}

/// Truncate an instant to the top of its UTC hour.
pub fn hour_start(ts: i64) -> (r: i64)
    requires
        0 <= ts,
    ensures
        r == hour_floor(ts as int),
        0 <= r <= ts,
{
    ts - ts % 3600
}

/// Midnight UTC of the day following `ts`.
pub fn next_day_start(ts: i64) -> (r: i64)
    requires
        0 <= ts <= MAX_INSTANT,
    ensures
        r == next_day_floor(ts as int),
        ts < r,
{
    (ts - ts % 86400) + 86400
}

/// Hour buckets respect the order of the instants they contain.
pub proof fn lemma_hour_floor_monotone(a: int, b: int)
    requires
        0 <= a <= b,
    ensures
        hour_floor(a) <= hour_floor(b),
        hour_floor(a) < hour_floor(b) ==> a < b,
{
    assert(hour_floor(a) <= hour_floor(b)) by (nonlinear_arith)
        requires 0 <= a <= b;
}

/// The text of `ts` in `YYYY-MM-DD HH:MM:SS` form.
pub uninterp spec fn ymdhms_of(ts: int) -> Seq<char>;

/// The text of `ts` in `YYYY-MM-DD` form.
pub uninterp spec fn ymd_of(ts: int) -> Seq<char>;

/// Relies on chrono's `TimeZone::timestamp_opt` and `DateTime::format`
/// with `%Y-%m-%d %H:%M:%S`: the rendered text is a function of the
/// timestamp alone.
#[verifier::external_body]
pub(crate) fn fmt_ymdhms(ts: i64) -> (r: String)
    requires
        0 <= ts <= MAX_INSTANT,
    ensures
        r@ == ymdhms_of(ts as int),
{
    match chrono::TimeZone::timestamp_opt(&chrono::Utc, ts, 0).single() {
        Some(dt) => dt.format("%Y-%m-%d %H:%M:%S").to_string(),
        None => String::new(),
    }
}

/// Relies on chrono's `TimeZone::timestamp_opt` and `DateTime::format`
/// with `%Y-%m-%d`: the rendered text is a function of the timestamp
/// alone.
#[verifier::external_body]
pub(crate) fn fmt_ymd(ts: i64) -> (r: String)
    requires
        0 <= ts <= MAX_INSTANT,
    ensures
        r@ == ymd_of(ts as int),
{
    match chrono::TimeZone::timestamp_opt(&chrono::Utc, ts, 0).single() {
        Some(dt) => dt.format("%Y-%m-%d").to_string(),
        None => String::new(),
    }
}

} // verus!
