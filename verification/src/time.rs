//! Points in time in UTC, with the calendar of `chrono`.
use crate::scan::signed_div;
use chrono::{DateTime, Datelike, NaiveDate, TimeZone, Utc};
use vstd::prelude::*;

verus! {

/// The first second that the calendar has: the start of the year -262143.
pub const EARLIEST: i64 = -8_334_601_228_800;

/// The last second that the calendar has: the end of the year 262142.
pub const LATEST: i64 = 8_210_266_876_799;

/// A point in time: seconds since the Unix epoch, and nanoseconds.
#[derive(Clone, Copy, Debug, PartialEq, Eq, Structural)]
pub struct UtcTime {
    pub secs: i64,
    pub nanos: u32,
}

impl UtcTime {
    /// The calendar has the point.
    pub open spec fn wf(&self) -> bool {
        EARLIEST <= self.secs <= LATEST && self.nanos < 1_000_000_000
    }

    /// The nanoseconds since the Unix epoch.
    pub open spec fn instant(&self) -> int {
        self.secs * 1_000_000_000 + self.nanos
    }

    /// The point in RFC 3339.
    pub open spec fn text_spec(&self) -> Seq<char> {
        rfc3339_of(self.secs, self.nanos)->0
    }

    /// Whether the point is not after another.
    pub fn not_after(&self, other: &UtcTime) -> (r: bool)
        ensures
            r == (self.instant() <= other.instant()),
    {
        self.secs as i128 * 1_000_000_000 + self.nanos as i128 <= other.secs as i128 * 1_000_000_000
            + other.nanos as i128
    }

    /// The whole seconds from this point to another, cut off towards zero.
    pub fn seconds_until(&self, later: &UtcTime) -> (r: i128)
        ensures
            r == seconds_spec(*self, *later),
    {
        let span: i128 = (later.secs as i128 - self.secs as i128) * 1_000_000_000 + (later.nanos as i128
            - self.nanos as i128);
        if span >= 0 {
            span / 1_000_000_000
        } else {
            -((-span) / 1_000_000_000)
        }
    }

    /// The point in RFC 3339.
    pub fn to_rfc3339(&self) -> (r: String)
        requires
            self.wf(),
        ensures
            r@ == self.text_spec(),
    {
        match rfc3339(self.secs, self.nanos) {
            Some(s) => s,
            None => String::new(),
        }
    }
}

/// The whole seconds between two points, cut off towards zero.
pub open spec fn seconds_spec(from: UtcTime, to: UtcTime) -> int {
    signed_div(to.instant() - from.instant(), 1_000_000_000)
}

/// The RFC 3339 text of a point in time, if the calendar has the point.
pub uninterp spec fn rfc3339_of(secs: i64, nanos: u32) -> Option<Seq<char>>;

/// The date (year, month and day) that a text gives in a format, if it gives one.
pub uninterp spec fn date_of(text: Seq<char>, format: Seq<char>) -> Option<(i32, u32, u32)>;

/// The seconds since the Unix epoch of a date and a time of day in UTC, if
/// there is such a date and such a time of day.
pub uninterp spec fn utc_seconds(
    year: i32,
    month: u32,
    day: u32,
    hour: u32,
    minute: u32,
    second: u32,
) -> Option<i64>;

/// `DateTime::from_timestamp`, then `DateTime::to_rfc3339`. There is a text for
/// every point that the calendar has; which one is a function of the point.
#[verifier::external_body]
fn rfc3339(secs: i64, nanos: u32) -> (r: Option<String>)
    ensures
        r is Some <==> rfc3339_of(secs, nanos) is Some,
        r matches Some(s) ==> s@ == rfc3339_of(secs, nanos)->0,
        EARLIEST <= secs <= LATEST && nanos < 1_000_000_000 ==> r is Some,
{
    DateTime::<Utc>::from_timestamp(secs, nanos).map(|t| t.to_rfc3339())
}

/// `NaiveDate::parse_from_str`: the date that a text gives is a function of the
/// text and the format.
#[verifier::external_body]
pub(crate) fn parse_date(text: &str, format: &str) -> (r: Option<(i32, u32, u32)>)
    ensures
        r == date_of(text@, format@),
{
    NaiveDate::parse_from_str(text, format).ok().map(|d| (d.year(), d.month(), d.day()))
}

/// `Utc::with_ymd_and_hms`, then `DateTime::timestamp`. The result is a function
/// of the arguments. It lies in the calendar, and above a whole number of days
/// it is the time of day.
#[verifier::external_body]
pub(crate) fn utc_at(year: i32, month: u32, day: u32, hour: u32, minute: u32, second: u32) -> (r: Option<i64>)
    ensures
        r == utc_seconds(year, month, day, hour, minute, second),
        r matches Some(t) ==> EARLIEST <= t <= LATEST && hour < 24 && minute < 60 && second < 60 && t as int
            % 86_400 == hour * 3600 + minute * 60 + second,
{
    Utc.with_ymd_and_hms(year, month, day, hour, minute, second).single().map(|t| t.timestamp())
}

} // verus!
