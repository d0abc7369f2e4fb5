//! The time stamp that header dates are written with.

use std::time::{Duration, SystemTime};
use vstd::prelude::*;

verus! {

/// A decimal digit.
pub open spec fn is_digit(c: char) -> bool {
    '0' <= c && c <= '9'
}

/// Every character of `s` is a decimal digit.
pub open spec fn all_digits(s: Seq<char>) -> bool {
    forall|i: int| 0 <= i < s.len() ==> is_digit(#[trigger] s[i])
}

/// A year as a time stamp writes it: four digits or more, or a sign and four
/// digits or more.
pub open spec fn is_year(y: Seq<char>) -> bool {
    ||| y.len() >= 4 && all_digits(y)
    ||| y.len() >= 5 && (y[0] == '+' || y[0] == '-') && all_digits(y.skip(1))
}

/// A time in UTC written as `YYYY-MM-DD HH:MM+0000`: a year, and after it
/// month, day, hour and minute with two digits each, and the offset `+0000`.
pub open spec fn is_timestamp(s: Seq<char>) -> bool {
    let n = s.len() as int;
    &&& n >= 21
    &&& is_year(s.take(n - 17))
    &&& s[n - 17] == '-'
    &&& is_digit(s[n - 16])
    &&& is_digit(s[n - 15])
    &&& s[n - 14] == '-'
    &&& is_digit(s[n - 13])
    &&& is_digit(s[n - 12])
    &&& s[n - 11] == ' '
    &&& is_digit(s[n - 10])
    &&& is_digit(s[n - 9])
    &&& s[n - 8] == ':'
    &&& is_digit(s[n - 7])
    &&& is_digit(s[n - 6])
    &&& s.skip(n - 5) == "+0000"@
}

/// The placeholder that stands where a date was not filled in yet.
pub open spec fn date_placeholder() -> Seq<char> {
    "YEAR-MO-DA HO:MI+ZONE"@
}

/// A time stamp is never the placeholder.
pub proof fn lemma_timestamp_is_no_placeholder(s: Seq<char>)
    requires
        is_timestamp(s),
    ensures
        s != date_placeholder(),
{
    reveal_strlit("YEAR-MO-DA HO:MI+ZONE");
    if s == date_placeholder() {
        assert(s.len() == 21);
        let year = s.take(4);
        assert(year[0] == s[0]);
        assert(year.skip(1)[0] == s[1]);
        assert(s[0] == 'Y');
    }
}

/// The time stamp of the instant that lies `secs` seconds and `nanos`
/// nanoseconds after the start of 1970 in UTC, as chrono writes it; `None`
/// where chrono has no date for that instant or cannot write it.
pub uninterp spec fn utc_stamp(secs: i64, nanos: u32) -> Option<Seq<char>>;

/// `std::time::SystemTime`: a reading of the system clock, carried from
/// `SystemTime::now` to `SystemTime::duration_since` and never looked into.
#[verifier::external_type_specification]
#[verifier::external_body]
pub struct ExSystemTime(SystemTime);

/// `SystemTime::now` reads the system clock. What it reads differs from call
/// to call, so nothing is claimed of it.
pub assume_specification[ SystemTime::now ]() -> (time: SystemTime)
;

/// `Duration::as_secs` gives the whole seconds of a span of time.
pub assume_specification[ Duration::as_secs ](span: &Duration) -> (secs: u64)
;

/// `Duration::subsec_nanos` gives the nanoseconds of a span of time above its
/// whole seconds.
pub assume_specification[ Duration::subsec_nanos ](span: &Duration) -> (nanos: u32)
;

/// The time that passed from the start of 1970 to `time`; `None` where `time`
/// lies before 1970.
///
/// Calls `SystemTime::duration_since` with `UNIX_EPOCH`, which returns an
/// error for an earlier time. Nothing is claimed of the span.
#[verifier::external_body]
pub(crate) fn since_unix_epoch(time: &SystemTime) -> (r: Option<Duration>) {
    match time.duration_since(std::time::UNIX_EPOCH) {
        Ok(span) => Some(span),
        Err(_) => None,
    }
}

/// The time stamp of an instant given in seconds and nanoseconds since the
/// start of 1970.
///
/// Calls `chrono::DateTime::from_timestamp`, which returns `None` for an
/// instant outside the dates it can hold, and writes the date with
/// `DateTime::format("%Y-%m-%d %H:%M%z")` and `DelayedFormat::write_to`, which
/// returns an error where an item cannot be written. The result depends on
/// the two numbers alone. Those format items write the year with four digits
/// or more and a sign outside 0 to 9999, then month, day, hour and minute with
/// two digits each, and `+0000` as the offset of UTC.
#[verifier::external_body]
pub(crate) fn format_utc(secs: i64, nanos: u32) -> (r: Option<String>)
    ensures
        match r {
            Some(s) => utc_stamp(secs, nanos) == Some(s@) && is_timestamp(s@),
            None => utc_stamp(secs, nanos) is None,
        },
{
    let mut text = String::new();
    match chrono::DateTime::from_timestamp(secs, nanos) {
        Some(time) => match time.format("%Y-%m-%d %H:%M%z").write_to(&mut text) {
            Ok(()) => Some(text),
            Err(_) => None,
        },
        None => None,
    }
}

/// The current time in UTC as a time stamp; `None` where the system clock
/// stands before 1970 or beyond the dates that can be written.
pub fn utc_timestamp() -> (r: Option<String>)
    ensures
        r matches Some(s) ==> is_timestamp(s@),
{
    let time = SystemTime::now();
    match since_unix_epoch(&time) {
        Some(span) => {
            let secs = span.as_secs();
            if secs <= 0x7FFF_FFFF_FFFF_FFFF {
                format_utc(secs as i64, span.subsec_nanos())
            } else {
                None
            }
        },
        None => None,
    }
}

} // verus!
