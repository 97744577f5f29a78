//! Timestamps of the event log: an instant, given as seconds and
//! nanoseconds since the Unix epoch, as RFC 3339 text in UTC.

use vstd::prelude::*;
use chrono::DateTime;
use chrono::Utc;

verus! {

/// The RFC 3339 text (`to_rfc3339`) of the UTC instant that chrono builds
/// with `DateTime::<Utc>::from_timestamp(secs, nsecs)`.
pub uninterp spec fn rfc3339_utc_text(secs: i64, nsecs: u32) -> Seq<char>;

/// Calls chrono's `DateTime::<Utc>::from_timestamp` and, on the instant it
/// builds, `to_rfc3339`.  Claimed of them: the text depends on the two
/// arguments alone; an instant within 8e12 seconds of the epoch (about
/// 250,000 years, inside chrono's range of years -262143..=262142) with
/// fewer than 1e9 nanoseconds is always accepted; 2e9 nanoseconds or more
/// are always refused.  Which other inputs are refused (leap seconds, the
/// edges of the year range) is left unsaid.
#[verifier::external_body]
fn rfc3339_utc(secs: i64, nsecs: u32) -> (r: Option<String>)
    ensures
        r matches Some(t) ==> t@ == rfc3339_utc_text(secs, nsecs),
        -8_000_000_000_000 <= secs <= 8_000_000_000_000 && nsecs < 1_000_000_000 ==> r is Some,
        nsecs >= 2_000_000_000 ==> r is None,
{
    match DateTime::<Utc>::from_timestamp(secs, nsecs) {
        Some(d) => Some(d.to_rfc3339()),
        None => None,
    }
}

/// The timestamp of an event observed `secs` seconds and `nsecs`
/// nanoseconds after the Unix epoch, as RFC 3339 text in UTC; `None` for an
/// instant outside chrono's range.
pub fn get_timestamp(secs: i64, nsecs: u32) -> (r: Option<String>)
    ensures
        r matches Some(t) ==> t@ == rfc3339_utc_text(secs, nsecs),
        -8_000_000_000_000 <= secs <= 8_000_000_000_000 && nsecs < 1_000_000_000 ==> r is Some,
        nsecs >= 2_000_000_000 ==> r is None,
{
    rfc3339_utc(secs, nsecs)
}

} // verus!
