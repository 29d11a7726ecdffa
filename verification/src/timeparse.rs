//! Trusted bridge to chrono: parsing a formatted modification timestamp and
//! deriving the ISO week and weekday of a calendar date.

use vstd::prelude::*;
use chrono::Datelike;

verus! {

/// The calendar date `(year, month, day)` that chrono extracts from a
/// string in the catalog's timestamp format; `None` when the string does
/// not parse.  A function of the characters alone.
pub uninterp spec fn parsed_date(s: Seq<char>) -> Option<(int, int, int)>;

/// The pair of the ISO week number and the weekday index (Sunday = 0)
/// that chrono assigns to a calendar date; `None` when the numbers form no
/// valid date.  A function of the three numbers alone.
pub uninterp spec fn week_and_day_of(y: int, m: int, d: int) -> Option<(int, int)>;

/// Relies on `chrono::NaiveDateTime::parse_from_str` with the fixed format
/// `%Y-%m-%d %H:%M:%S UTC`, and on `Datelike::year/month/day` of the parsed
/// value's date.  A successfully parsed month lies in 1..=12 and a day in
/// 1..=31, and the components name a date chrono accepts, so deriving its
/// week and weekday succeeds.
#[verifier::external_body]
pub fn parse_modified(s: &str) -> (r: Option<(i32, u32, u32)>)
    ensures
        match r {
            Some((y, m, d)) => parsed_date(s@) == Some((y as int, m as int, d as int)) && 1 <= m
                <= 12 && 1 <= d <= 31 && week_and_day_of(y as int, m as int, d as int) is Some,
            None => parsed_date(s@) is None,
        },
{
    match chrono::NaiveDateTime::parse_from_str(s, "%Y-%m-%d %H:%M:%S UTC") {
        Ok(dt) => {
            let date = dt.date();
            Some((date.year(), date.month(), date.day()))
        },
        Err(_) => None,
    }
}

/// Relies on `chrono::NaiveDate::from_ymd_opt`, `Datelike::iso_week` and
/// `Datelike::weekday` with `Weekday::num_days_from_sunday`.  Chrono
/// documents the ISO week number as 1..=53 and the Sunday-based weekday
/// index as 0..=6.
#[verifier::external_body]
pub fn week_and_day(y: i32, m: u32, d: u32) -> (r: Option<(u32, u32)>)
    ensures
        match r {
            Some((w, wd)) => week_and_day_of(y as int, m as int, d as int) == Some(
                (w as int, wd as int),
            ) && 1 <= w <= 53 && wd <= 6,
            None => week_and_day_of(y as int, m as int, d as int) is None,
        },
{
    match chrono::NaiveDate::from_ymd_opt(y, m, d) {
        Some(date) => Some((date.iso_week().week(), date.weekday().num_days_from_sunday())),
        None => None,
    }
}

} // verus!
