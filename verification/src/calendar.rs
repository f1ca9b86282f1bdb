//! Calendar dates of timestamps, and the report names made from them.

use vstd::prelude::*;
use crate::text::{decimal, push_decimal};

verus! {

/// A day of the proleptic Gregorian calendar.
#[derive(Clone, Copy, Debug, PartialEq, Eq)]
pub struct Date {
    pub year: i32,
    pub month: u32,
    pub day: u32,
}

/// The UTC date of the moment `secs` seconds after the start of 1970, as
/// `chrono::DateTime::from_timestamp` gives it; `None` where that moment is
/// beyond the dates that chrono represents.
pub uninterp spec fn utc_date(secs: i64) -> Option<Date>;

/// `chrono::DateTime::from_timestamp` with no nanoseconds, then the year,
/// month and day of the result by `chrono::Datelike`.
///
/// Taken on trust: the date depends on the timestamp alone, so that
/// [`utc_date`] can name it. Which date it is is not stated.
#[verifier::external_body]
fn date_of_timestamp(secs: i64) -> (r: Option<Date>)
    ensures
        r == utc_date(secs),
{
    match chrono::DateTime::from_timestamp(secs, 0) {
        Some(moment) => Some(
            Date {
                year: chrono::Datelike::year(&moment),
                month: chrono::Datelike::month(&moment),
                day: chrono::Datelike::day(&moment),
            },
        ),
        None => None,
    }
}

/// The name of the report of one event on one day:
/// `"{year}-{month}-{day}.{event_text}"`, the numbers in decimal notation
/// without padding.
pub open spec fn report_name(date: Date, event_text: Seq<char>) -> Seq<char> {
    decimal(date.year as int) + seq!['-'] + decimal(date.month as int) + seq!['-'] + decimal(
        date.day as int,
    ) + seq!['.'] + event_text
}

impl Date {
    /// The UTC date of a Unix timestamp.
    pub fn from_timestamp(secs: i64) -> (r: Option<Date>)
        ensures
            r == utc_date(secs),
    {
        date_of_timestamp(secs)
    }

    /// The name of the report of an event on this day.
    pub fn report_name(&self, event_text: &str) -> (name: String)
        ensures
            name@ == report_name(*self, event_text@),
    {
        let mut name = String::new();
        push_decimal(&mut name, self.year as i64);
        name.push('-');
        push_decimal(&mut name, self.month as i64);
        name.push('-');
        push_decimal(&mut name, self.day as i64);
        name.push('.');
        name.append(event_text);
        assert(name@ =~= report_name(*self, event_text@));
        name
    }
}

} // verus!
