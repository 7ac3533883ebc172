use vstd::prelude::*;
use chrono::{DateTime, SecondsFormat, Utc};

verus! {

/// The instant an RFC 3339 text denotes, as seconds since the Unix epoch and
/// the nanosecond part (at or past 10^9 only inside a leap second), or `None`
/// when the text is not RFC 3339.
pub uninterp spec fn rfc3339_instant(text: Seq<char>) -> Option<(i64, u32)>;

/// `DateTime::parse_from_rfc3339(value)` taken to UTC, read back as
/// `(timestamp(), timestamp_subsec_nanos())`. The parse depends on the text
/// alone.
#[verifier::external_body]
pub(crate) fn parse_time(value: &str) -> (r: Option<(i64, u32)>)
    ensures
        r == rfc3339_instant(value@),
{
    match DateTime::parse_from_rfc3339(value) {
        Ok(time) => {
            let utc = time.with_timezone(&Utc);
            Some((utc.timestamp(), utc.timestamp_subsec_nanos()))
        },
        Err(_) => None,
    }
}

/// Order of instants: by second, then by the nanosecond part. This is the
/// order of the UTC date-times they stand for, leap seconds included.
pub open spec fn instant_lt(a: (i64, u32), b: (i64, u32)) -> bool {
    a.0 < b.0 || (a.0 == b.0 && a.1 < b.1)
}

/// The earlier of two instants.
pub open spec fn instant_min(a: (i64, u32), b: (i64, u32)) -> (i64, u32) {
    if instant_lt(b, a) { b } else { a }
}

/// Whether `a` is strictly before `b`.
pub fn instant_before(a: (i64, u32), b: (i64, u32)) -> (r: bool)
    ensures
        r == instant_lt(a, b),
{
    a.0 < b.0 || (a.0 == b.0 && a.1 < b.1)
}

/// Whether the text is a valid RFC 3339 time.
pub open spec fn is_rfc3339(text: Seq<char>) -> bool {
    rfc3339_instant(text) is Some
}

/// The RFC 3339 text, in UTC and to the whole second, of an instant, or
/// `None` when the instant is out of a date-time's range.
pub uninterp spec fn utc_seconds_text(t: (i64, u32)) -> Option<Seq<char>>;

/// `DateTime::<Utc>::from_timestamp(secs, nanos)` written with
/// `to_rfc3339_opts(SecondsFormat::Secs, true)` (as `...T13:00:00Z`).
#[verifier::external_body]
pub(crate) fn utc_seconds(t: (i64, u32)) -> (r: Option<String>)
    ensures
        match r {
            Some(s) => utc_seconds_text(t) == Some(s@),
            None => utc_seconds_text(t) is None,
        },
{
    match DateTime::<Utc>::from_timestamp(t.0, t.1) {
        Some(d) => Some(d.to_rfc3339_opts(SecondsFormat::Secs, true)),
        None => None,
    }
}

} // verus!
