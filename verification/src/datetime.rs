//! Calendar date and time values (xsd:dateTime), parsed, printed and ordered by the `time` crate.
use vstd::prelude::*;
use crate::text::int_text;

verus! {

/// A broken-down date and time: the fields of a `time::Tm`.
///
#[derive(Clone, Copy, Debug, PartialEq, Eq, Structural)]
pub struct DateTime {
    pub sec: i32,
    pub min: i32,
    pub hour: i32,
    pub mday: i32,
    pub mon: i32,
    pub year: i32,
    pub wday: i32,
    pub yday: i32,
    pub isdst: i32,
    pub utcoff: i32,
    pub nsec: i32,
}

/// What `time::strptime` yields for a text and a format (`None` for a parse error).
pub uninterp spec fn strptime_result(text: Seq<char>, format: Seq<char>) -> Option<DateTime>;

/// An integer printed with at least two digits, as `{:02}` prints it: a digit gets a
/// leading zero; a negative number keeps its sign, which counts toward the width.
pub open spec fn pad2(v: int) -> Seq<char> {
    if 0 <= v <= 9 { "0"@ + int_text(v) } else { int_text(v) }
}

/// The text that `time::Tm::rfc3339` prints for a date and time: the year (plus 1900), the
/// month (plus 1), the day, `T`, the time, then `Z` for a zero offset, or the offset's sign
/// and its hours and minutes.
pub open spec fn rfc3339_text(d: DateTime) -> Seq<char> {
    let stamp = int_text(d.year + 1900) + "-"@ + pad2(d.mon + 1) + "-"@ + pad2(d.mday as int)
        + "T"@ + pad2(d.hour as int) + ":"@ + pad2(d.min as int) + ":"@ + pad2(d.sec as int);
    if d.utcoff == 0 {
        stamp + "Z"@
    } else {
        let m = (if d.utcoff > 0 { d.utcoff as int } else { -d.utcoff }) / 60;
        stamp + (if d.utcoff > 0 { "+"@ } else { "-"@ }) + pad2(m / 60) + ":"@ + pad2(m % 60)
    }
}

/// Calls `time::strptime`. The result is named `strptime_result`; the crate's parser
/// only sets the nanosecond field for a `%f` specifier, so without one it is zero. Its `%s`
/// specifier panics on a count of seconds whose year does not fit, so formats with an `s`
/// are left out.
#[verifier::external_body]
pub(crate) fn strptime(text: &str, format: &str) -> (r: Option<DateTime>)
    requires
        forall|i: int| 0 <= i < format@.len() ==> format@[i] != 's',
    ensures
        r == strptime_result(text@, format@),
        (forall|i: int| 0 <= i < format@.len() ==> format@[i] != 'f') ==> (r matches Some(d) ==> d.nsec == 0),
{
    match time::strptime(text, format) {
        Ok(t) => Some(DateTime {
            sec: t.tm_sec, min: t.tm_min, hour: t.tm_hour, mday: t.tm_mday, mon: t.tm_mon,
            year: t.tm_year, wday: t.tm_wday, yday: t.tm_yday, isdst: t.tm_isdst,
            utcoff: t.tm_utcoff, nsec: t.tm_nsec,
        }),
        Err(_) => None,
    }
}

/// Whether the fields lie in the ranges that `time::Tm` documents: seconds 0..=60, minutes
/// 0..=59, hours 0..=23, day of the month 1..=31, month 0..=11, day of the week 0..=6, day
/// of the year 0..=365 and nanoseconds 0..10^9.
pub open spec fn fields_in_range(d: DateTime) -> bool {
    &&& 0 <= d.sec <= 60
    &&& 0 <= d.min <= 59
    &&& 0 <= d.hour <= 23
    &&& 1 <= d.mday <= 31
    &&& 0 <= d.mon <= 11
    &&& 0 <= d.wday <= 6
    &&& 0 <= d.yday <= 365
    &&& 0 <= d.nsec < 1_000_000_000
}

/// Calls `time::now` (the local time, read from the clock). What time it gives is left to
/// the clock; stated is only that its fields lie in the ranges `time::Tm` documents.
#[verifier::external_body]
pub(crate) fn clock_now() -> (r: DateTime)
    ensures
        fields_in_range(r),
{
    let t = time::now();
    DateTime {
        sec: t.tm_sec, min: t.tm_min, hour: t.tm_hour, mday: t.tm_mday, mon: t.tm_mon,
        year: t.tm_year, wday: t.tm_wday, yday: t.tm_yday, isdst: t.tm_isdst,
        utcoff: t.tm_utcoff, nsec: t.tm_nsec,
    }
}

/// Whether the RFC 3339 printer of the `time` crate takes a date and time: it adds 1900
/// to the year and 1 to the month, and takes the absolute value of the offset, so values
/// for which these overflow an `i32` are left out.
pub open spec fn rfc3339_printable(d: DateTime) -> bool {
    &&& d.utcoff != i32::MIN
    &&& d.year <= i32::MAX - 1900
    &&& d.mon < i32::MAX
}

/// Calls `time::Tm::rfc3339` and prints it: the text is `rfc3339_text`.
#[verifier::external_body]
pub(crate) fn rfc3339(d: &DateTime) -> (s: String)
    requires
        rfc3339_printable(*d),
    ensures
        s@ == rfc3339_text(*d),
{
    let t = time::Tm {
        tm_sec: d.sec, tm_min: d.min, tm_hour: d.hour, tm_mday: d.mday, tm_mon: d.mon,
        tm_year: d.year, tm_wday: d.wday, tm_yday: d.yday, tm_isdst: d.isdst,
        tm_utcoff: d.utcoff, tm_nsec: d.nsec,
    };
    format!("{}", t.rfc3339())
}

/// The seconds since the epoch that `time::Tm::to_timespec` gives a date and time with a
/// zero offset: the crate converts its fields with `timegm`, whatever the machine's zone.
pub uninterp spec fn utc_seconds(d: DateTime) -> i64;

/// Calls `time::Tm::to_timespec`: seconds since the epoch and nanoseconds. For a zero
/// offset the seconds are named `utc_seconds`; for a nonzero one the crate converts
/// through the machine's local time zone, so nothing is stated of them. The nanoseconds
/// are carried over.
#[verifier::external_body]
pub(crate) fn to_timespec(d: &DateTime) -> (r: (i64, i32))
    requires
        0 <= d.nsec < 1_000_000_000,
    ensures
        r.1 == d.nsec,
        d.utcoff == 0 ==> r.0 == utc_seconds(*d),
{
    let t = time::Tm {
        tm_sec: d.sec, tm_min: d.min, tm_hour: d.hour, tm_mday: d.mday, tm_mon: d.mon,
        tm_year: d.year, tm_wday: d.wday, tm_yday: d.yday, tm_isdst: d.isdst,
        tm_utcoff: d.utcoff, tm_nsec: d.nsec,
    }.to_timespec();
    (t.sec, t.nsec)
}

impl DateTime {
    /// Parses an ISO 8601 dateTime the way the store reads xsd:dateTime literals: with a
    /// numeric offset, then with a zone name, then with no zone.
    pub fn parse(text: &str) -> (r: Option<DateTime>)
        ensures
            r == datetime_parse(text@),
    {
        proof {
            reveal_strlit("%FT%T%z");
            reveal_strlit("%FT%T%Z");
            reveal_strlit("%FT%T");
        }
        let a = strptime(text, "%FT%T%z");
        match a {
            Some(d) => Some(d),
            None => {
                let b = strptime(text, "%FT%T%Z");
                match b {
                    Some(d) => Some(d),
                    None => strptime(text, "%FT%T"),
                }
            }
        }
    }

    /// The current local time, read from the clock: which time it is is left to the clock,
    /// and its fields lie in the documented ranges.
    pub fn now() -> (r: DateTime)
        ensures
            fields_in_range(r),
    {
        clock_now()
    }
}

/// The result of `DateTime::parse`.
pub open spec fn datetime_parse(text: Seq<char>) -> Option<DateTime> {
    match strptime_result(text, "%FT%T%z"@) {
        Some(d) => Some(d),
        None => match strptime_result(text, "%FT%T%Z"@) {
            Some(d) => Some(d),
            None => strptime_result(text, "%FT%T"@),
        },
    }
}

} // verus!
