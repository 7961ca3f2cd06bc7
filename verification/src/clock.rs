//! Points in time: RFC 3339 texts, freshness and expiry.

use time::format_description::well_known::Rfc3339;
use time::OffsetDateTime;
use vstd::prelude::*;
use vstd::string::*;

use crate::text;

verus! {

/// Nanoseconds in a second.
pub const NANOS: i128 = 1_000_000_000;

/// The point in time that an RFC 3339 text names, in nanoseconds since the Unix
/// epoch.
pub uninterp spec fn rfc3339_nanos(s: Seq<char>) -> Option<i128>;

/// A number of nanoseconds that a count of seconds in 64 bits can stand for.
pub open spec fn in_time_range(t: i128) -> bool {
    -0x8000_0000_0000_0000 * 1_000_000_000 <= t < 0x8000_0000_0000_0000 * 1_000_000_000
}

/// Within `secs` whole seconds of `now`, before or after; always where `secs` is
/// not positive; never where the text names no time.
pub open spec fn is_fresh(now: i128, ts: Seq<char>, secs: i64) -> bool {
    secs <= 0 || (rfc3339_nanos(ts) matches Some(t) && distance(now, t) / 1_000_000_000 <= secs)
}

/// The time between two points.
pub open spec fn distance(a: i128, b: i128) -> int {
    if a >= b {
        a - b
    } else {
        b - a
    }
}

/// Past `expiry`, or the text names no time.
pub open spec fn is_past(now: i128, expiry: Seq<char>) -> bool {
    match rfc3339_nanos(expiry) {
        Some(t) => now > t,
        None => true,
    }
}

/// Calls `OffsetDateTime::parse` for RFC 3339 and `unix_timestamp_nanos`. The
/// result is named; it is a count of seconds in 64 bits with its nanoseconds.
#[verifier::external_body]
fn parse_time(s: &str) -> (r: Option<i128>)
    ensures
        r == rfc3339_nanos(s@),
        r matches Some(t) ==> in_time_range(t),
{
    OffsetDateTime::parse(s, &Rfc3339).ok().map(|t| t.unix_timestamp_nanos())
}

/// Calls `OffsetDateTime::now_utc` and `unix_timestamp_nanos`: some count of
/// seconds in 64 bits with its nanoseconds.
#[verifier::external_body]
pub(crate) fn now_nanos() -> (t: i128)
    ensures
        in_time_range(t),
{
    OffsetDateTime::now_utc().unix_timestamp_nanos()
}

/// The RFC 3339 text in UTC of a point in time, given in nanoseconds since the
/// Unix epoch.
pub uninterp spec fn rfc3339_text(t: i128) -> Option<Seq<char>>;

/// A point in time within the years 0 to 9999, which four digits can name.
pub open spec fn in_four_digit_years(t: i128) -> bool {
    -62_167_219_200 * 1_000_000_000 <= t < 253_402_300_800 * 1_000_000_000
}

/// The text of a point in time, the epoch where it has none.
pub open spec fn time_text(t: i128) -> Seq<char> {
    match rfc3339_text(t) {
        Some(s) => s,
        None => "1970-01-01T00:00:00Z"@,
    }
}

/// `s` is the text of the point in time `t`, and reads back as `t` where four
/// digits can name its year.
pub open spec fn is_time_text(t: i128, s: Seq<char>) -> bool {
    s == time_text(t) && (in_four_digit_years(t) ==> rfc3339_nanos(s) == Some(t))
}

/// Calls `OffsetDateTime::from_unix_timestamp_nanos` and its `format` for RFC
/// 3339. The text is named. There is one for the years 0 to 9999 and for no
/// others, and `parse` reads it back to the nanosecond.
#[verifier::external_body]
fn format_time(t: i128) -> (r: Option<String>)
    ensures
        text::opt_text(r) == rfc3339_text(t),
        r is Some <==> in_four_digit_years(t),
        r matches Some(s) ==> rfc3339_nanos(s@) == Some(t),
{
    OffsetDateTime::from_unix_timestamp_nanos(t).ok()?.format(&Rfc3339).ok()
}

/// A point in time as RFC 3339 text, the epoch where it has none.
pub fn timestamp_at(now: i128) -> (r: String)
    ensures
        is_time_text(now, r@),
        !in_four_digit_years(now) ==> r@ == "1970-01-01T00:00:00Z"@,
{
    match format_time(now) {
        Some(t) => t,
        None => text::own("1970-01-01T00:00:00Z"),
    }
}

/// The current time as RFC 3339 text, the epoch where it has none.
pub fn timestamp() -> (r: String)
    ensures
        exists|now: i128| in_time_range(now) && #[trigger] is_time_text(now, r@),
{
    let now: i128 = now_nanos();
    timestamp_at(now)
}

/// True if `ts` (RFC 3339) is within `freshness_secs` of `now`.
pub fn fresh_at(now: i128, ts: &str, freshness_secs: i64) -> (r: bool)
    requires
        in_time_range(now),
    ensures
        r == is_fresh(now, ts@, freshness_secs),
{
    if freshness_secs <= 0 {
        return true;
    }
    match parse_time(ts) {
        Some(t) => {
            let d: i128 = if now >= t {
                now - t
            } else {
                t - now
            };
            d / NANOS <= freshness_secs as i128
        },
        None => false,
    }
}

/// True if `expiry` (RFC 3339) is past at `now`, or names no time.
pub fn expired_at(now: i128, expiry: &str) -> (r: bool)
    ensures
        r == is_past(now, expiry@),
{
    match parse_time(expiry) {
        Some(t) => now > t,
        None => true,
    }
}

/// Whole seconds since the Unix epoch, zero before it.
pub open spec fn epoch_seconds(now: i128) -> int {
    if now < 0 {
        0
    } else {
        now / 1_000_000_000
    }
}

/// Presence sequence number at `now`: whole seconds since the epoch.
pub fn seq_at(now: i128) -> (r: i64)
    requires
        in_time_range(now),
    ensures
        r == epoch_seconds(now),
{
    if now < 0 {
        0
    } else {
        (now / NANOS) as i64
    }
}

/// The window of freshness: a time counts as fresh up to the last nanosecond of
/// the last whole second, before the clock as behind it. A window that is not
/// positive leaves everything fresh, and what names no time is never fresh in one
/// that is.
pub proof fn freshness_is_a_window(now: i128, ts: Seq<char>, secs: i64)
    ensures
        secs <= 0 ==> is_fresh(now, ts, secs),
        secs > 0 && rfc3339_nanos(ts) is None ==> !is_fresh(now, ts, secs),
        secs > 0 ==> (rfc3339_nanos(ts) matches Some(t) ==> (is_fresh(now, ts, secs) <==> (now - t)
            < (secs + 1) * 1_000_000_000 && (t - now) < (secs + 1) * 1_000_000_000)),
{
}

/// The number of seconds since the epoch is the whole part: the time lies within
/// that second. Before the epoch it is zero.
pub proof fn seconds_are_whole(now: i128)
    ensures
        now >= 0 ==> epoch_seconds(now) * 1_000_000_000 <= now < (epoch_seconds(now) + 1)
            * 1_000_000_000,
        now < 0 ==> epoch_seconds(now) == 0,
{
}

/// What is past stays past, the expiry itself is not past, and a text that names
/// no time is past at once.
pub proof fn expiry_is_final(now: i128, later: i128, expiry: Seq<char>)
    requires
        now <= later,
    ensures
        is_past(now, expiry) ==> is_past(later, expiry),
        rfc3339_nanos(expiry) is None ==> is_past(now, expiry),
        rfc3339_nanos(expiry) == Some(now) ==> !is_past(now, expiry),
        rfc3339_nanos(expiry) matches Some(t) ==> (is_past(now, expiry) <==> t < now),
{
}

} // verus!
