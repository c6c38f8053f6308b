//! Date parsing, done by chrono. The results are named by spec functions:
//! which strings a chrono format accepts, and the instant it denotes, are
//! chrono's to decide.
use chrono::TimeZone;
use vstd::prelude::*;

verus! {

/// The UTC epoch second that `NaiveDateTime::parse_from_str(s, fmt)` gives,
/// read as a UTC time; `None` when chrono rejects `s`.
pub uninterp spec fn naive_datetime_utc_secs(s: Seq<char>, fmt: Seq<char>) -> Option<i64>;

/// The UTC epoch second of the time `h:m:sec` on the date that
/// `NaiveDate::parse_from_str(s, fmt)` gives; `None` when chrono rejects `s`
/// or the time.
pub uninterp spec fn naive_date_at_utc_secs(s: Seq<char>, fmt: Seq<char>, h: u32, m: u32, sec: u32) -> Option<i64>;

/// The epoch second of an RFC 3339 timestamp, as
/// `DateTime::parse_from_rfc3339(s)` gives it; `None` when chrono rejects `s`.
pub uninterp spec fn rfc3339_secs(s: Seq<char>) -> Option<i64>;

/// The epoch second of a timestamp with an offset, as
/// `DateTime::parse_from_str(s, fmt)` gives it; `None` when chrono rejects `s`.
pub uninterp spec fn offset_datetime_secs(s: Seq<char>, fmt: Seq<char>) -> Option<i64>;

/// The epoch second of a local time `s` (parsed by
/// `NaiveDateTime::parse_from_str(s, fmt)`) at the fixed UTC offset
/// `offset_secs`; `None` when chrono rejects `s` or the offset.
pub uninterp spec fn naive_at_offset_secs(s: Seq<char>, fmt: Seq<char>, offset_secs: i32) -> Option<i64>;

/// chrono's `NaiveDateTime::parse_from_str`, read as UTC
/// (`Utc.from_utc_datetime(&dt).timestamp()`). The contract names the
/// result; it does not say which strings chrono accepts.
#[verifier::external_body]
pub(crate) fn parse_naive_datetime_utc(s: &str, fmt: &str) -> (r: Option<i64>)
    ensures
        r == naive_datetime_utc_secs(s@, fmt@),
{
    match chrono::NaiveDateTime::parse_from_str(s, fmt) {
        Ok(dt) => Some(chrono::Utc.from_utc_datetime(&dt).timestamp()),
        Err(_) => None,
    }
}

/// chrono's `NaiveDate::parse_from_str`, taken at `h:m:sec` UTC
/// (`and_hms_opt(h, m, sec)`). The contract names the result.
#[verifier::external_body]
pub(crate) fn parse_naive_date_at_utc(s: &str, fmt: &str, h: u32, m: u32, sec: u32) -> (r: Option<i64>)
    ensures
        r == naive_date_at_utc_secs(s@, fmt@, h, m, sec),
{
    match chrono::NaiveDate::parse_from_str(s, fmt) {
        Ok(date) => match date.and_hms_opt(h, m, sec) {
            Some(dt) => Some(chrono::Utc.from_utc_datetime(&dt).timestamp()),
            None => None,
        },
        Err(_) => None,
    }
}

/// chrono's `DateTime::parse_from_rfc3339`, as an epoch second. The
/// contract names the result.
#[verifier::external_body]
pub(crate) fn parse_rfc3339(s: &str) -> (r: Option<i64>)
    ensures
        r == rfc3339_secs(s@),
{
    match chrono::DateTime::parse_from_rfc3339(s) {
        Ok(dt) => Some(dt.timestamp()),
        Err(_) => None,
    }
}

/// chrono's `DateTime::parse_from_str` (a format with an offset), as an
/// epoch second. The contract names the result.
#[verifier::external_body]
pub(crate) fn parse_offset_datetime(s: &str, fmt: &str) -> (r: Option<i64>)
    ensures
        r == offset_datetime_secs(s@, fmt@),
{
    match chrono::DateTime::parse_from_str(s, fmt) {
        Ok(dt) => Some(dt.timestamp()),
        Err(_) => None,
    }
}

/// chrono's `NaiveDateTime::parse_from_str`, placed at the fixed offset
/// `FixedOffset::east_opt(offset_secs)` (`and_local_timezone(..).single()`),
/// as an epoch second. The contract names the result.
#[verifier::external_body]
pub(crate) fn parse_naive_at_offset(s: &str, fmt: &str, offset_secs: i32) -> (r: Option<i64>)
    ensures
        r == naive_at_offset_secs(s@, fmt@, offset_secs),
{
    let Some(offset) = chrono::FixedOffset::east_opt(offset_secs) else {
        return None;
    };
    match chrono::NaiveDateTime::parse_from_str(s, fmt) {
        Ok(naive) => match naive.and_local_timezone(offset).single() {
            Some(dt) => Some(dt.timestamp()),
            None => None,
        },
        Err(_) => None,
    }
}

/// chrono's `NaiveDateTime::parse_from_str`, placed in the machine's local
/// time zone (`Local.from_local_datetime(..).single()`), as an epoch second.
/// The zone is the machine's, so the contract says only what holds in every
/// zone: a result comes only from a parsed time, and lies within a day of
/// that time read as UTC. Where chrono rejects the zone's reading (a skipped
/// or repeated local time) the result is `None`; when that happens is not
/// stated.
#[verifier::external_body]
pub(crate) fn local_epoch_of(s: &str, fmt: &str) -> (r: Option<i64>)
    ensures
        r matches Some(t) ==> (naive_datetime_utc_secs(s@, fmt@) matches Some(u) && u - 86400 <= t <= u + 86400),
{
    match chrono::NaiveDateTime::parse_from_str(s, fmt) {
        Ok(naive) => match chrono::Local.from_local_datetime(&naive).single() {
            Some(dt) => Some(dt.timestamp()),
            None => None,
        },
        Err(_) => None,
    }
}

} // verus!
