//! Calendar dates as plain year/month/day triples, with the chronological
//! order the expiry logic needs, and the few calendar operations that are
//! delegated to the `chrono` crate.

use vstd::prelude::*;

use chrono::Datelike;

verus! {

/// A calendar date as plain fields; ordering is lexicographic on
/// (year, month, day), which is chronological order for calendar dates.
#[derive(Debug, Clone, Copy, PartialEq, Eq, Structural)]
pub struct Date {
    pub year: i32,
    pub month: u8,
    pub day: u8,
}

/// `a` is on or before `b`.
pub open spec fn date_le(a: Date, b: Date) -> bool {
    a.year < b.year || (a.year == b.year && (a.month < b.month || (a.month == b.month && a.day
        <= b.day)))
}

impl Date {
    pub fn new(year: i32, month: u8, day: u8) -> (r: Date)
        ensures
            r == (Date { year, month, day }),
    {
        Date { year, month, day }
    }

    /// Whether this date is on or before `other`.
    pub fn on_or_before(self, other: Date) -> (r: bool)
        ensures
            r == date_le(self, other),
    {
        self.year < other.year || (self.year == other.year && (self.month < other.month || (
        self.month == other.month && self.day <= other.day)))
    }
}

/// The date `chrono` parses from `s` in `%Y-%m-%d` format, as a
/// (year, month, day) triple; a function of the text alone.
pub uninterp spec fn date_from_text(s: Seq<char>) -> Option<(i32, u8, u8)>;

/// The date `n` days after `d` in `chrono`'s proleptic Gregorian calendar,
/// as (year, month, day) triples; a function of its arguments alone.
pub uninterp spec fn date_plus_days(d: (i32, u8, u8), n: u64) -> (i32, u8, u8);

/// Relies on `chrono::Utc::now` and the `Datelike` accessors of the current
/// UTC calendar date. Nothing can be promised of the clock's value; `chrono`
/// keeps months in 1..=12 and days in 1..=31.
#[verifier::external_body]
pub(crate) fn today_utc() -> (d: Date)
    ensures
        1 <= d.month <= 12,
        1 <= d.day <= 31,
{
    let now = chrono::Utc::now().date_naive();
    Date { year: now.year(), month: now.month() as u8, day: now.day() as u8 }
}

/// Relies on `chrono::NaiveDate::parse_from_str` with the `%Y-%m-%d` format:
/// a pure function of the text, here named `date_from_text`.
#[verifier::external_body]
pub(crate) fn parse_date(s: &str) -> (r: Option<Date>)
    ensures
        match r {
            Some(d) => date_from_text(s@) == Some((d.year, d.month, d.day)),
            None => date_from_text(s@) is None,
        },
{
    match chrono::NaiveDate::parse_from_str(s, "%Y-%m-%d") {
        Ok(d) => Some(Date { year: d.year(), month: d.month() as u8, day: d.day() as u8 }),
        Err(_) => None,
    }
}

/// Relies on `chrono::NaiveDate::checked_add_days`: calendar addition is a
/// pure function of date and day count, here named `date_plus_days`. A date
/// `chrono` cannot represent is handed back unchanged.
#[verifier::external_body]
pub(crate) fn date_after_days(d: Date, n: u64) -> (r: Date)
    ensures
        (r.year, r.month, r.day) == date_plus_days((d.year, d.month, d.day), n),
{
    match chrono::NaiveDate::from_ymd_opt(d.year, d.month as u32, d.day as u32) {
        Some(nd) => match nd.checked_add_days(chrono::Days::new(n)) {
            Some(nd2) => Date {
                year: nd2.year(),
                month: nd2.month() as u8,
                day: nd2.day() as u8,
            },
            None => d,
        },
        None => d,
    }
}

} // verus!
