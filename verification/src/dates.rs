//! Day numbers for the partitioner's row estimates.
//!
//! A calendar date is carried as its day number in the proleptic
//! Gregorian calendar, with January 1 of year 1 as day 1, so that the
//! span between two dates is a plain subtraction.

use vstd::prelude::*;

verus! {

/// Day number of the date written `YYYY-MM-DD` in `s`, when that text
/// parses as a date; what the text parses to depends on the text alone.
pub uninterp spec fn parsed_date_days(s: Seq<char>) -> Option<int>;

/// Day number of an optionally supplied date text.
pub open spec fn spec_parsed(o: Option<Seq<char>>) -> Option<int> {
    match o {
        Option::Some(s) => parsed_date_days(s),
        Option::None => Option::None,
    }
}

/// Relies on chrono's `NaiveDate::parse_from_str` with format
/// `%Y-%m-%d` (out-of-bound dates and insufficient fields are errors),
/// and on `Datelike::num_days_from_ce` to turn the parsed date into its
/// day number.
#[verifier::external_body]
pub fn parse_date_days(s: &String) -> (r: Option<i32>)
    ensures
        r is Some <==> parsed_date_days(s@) is Some,
        r matches Some(d) ==> parsed_date_days(s@) == Some(d as int),
{
    match chrono::NaiveDate::parse_from_str(s.as_str(), "%Y-%m-%d") {
        Ok(d) => Some(chrono::Datelike::num_days_from_ce(&d)),
        Err(_) => None,
    }
}

/// Today's day number, on the same scale as `parse_date_days`. Relies
/// on chrono's `Utc::now`; the result follows the clock, so nothing is
/// promised of its value.
#[verifier::external_body]
pub fn today_days() -> i32 {
    chrono::Datelike::num_days_from_ce(&chrono::Utc::now().date_naive())
}

/// The text `YYYY-MM-DDTHH:MM:SS` naming the instant `t` seconds after
/// the epoch; it depends on `t` alone.
pub uninterp spec fn iso_datetime_of(t: int) -> Seq<char>;

/// Relies on chrono's `DateTime::from_timestamp` and its strftime-style
/// formatting with `%Y-%m-%dT%H:%M:%S`, a pure function of the
/// timestamp. Outside chrono's date range the text is empty.
#[verifier::external_body]
pub fn format_datetime(t: i64) -> (r: String)
    ensures
        r@ == iso_datetime_of(t as int),
{
    match chrono::DateTime::from_timestamp(t, 0) {
        Some(dt) => dt.naive_utc().format("%Y-%m-%dT%H:%M:%S").to_string(),
        None => String::new(),
    }
}

} // verus!
