//! Calendar days, counted from the first of January of the year 1, which is day 1.

use vstd::prelude::*;
use chrono::Datelike;

verus! {

/// The days that chrono has a date for: from the first of January of the year -262143 to
/// the last of December of the year 262142.
pub open spec fn is_day(day: int) -> bool {
    -95_746_129 <= day <= 95_745_399
}

/// The day that `NaiveDate::parse_from_str` reads with the format `%Y-%m-%d`.
pub uninterp spec fn parsed_day(s: Seq<char>) -> Option<i32>;

/// `chrono::NaiveDate::parse_from_str` with `%Y-%m-%d`, and the number of the day it gives
/// in `Datelike::num_days_from_ce`. The grammar and the calendar are named, not restated; the
/// day is one that chrono has a date for.
#[verifier::external_body]
fn parse_date(s: &str) -> (r: Option<i32>)
    ensures
        r == parsed_day(s@),
        r matches Some(d) ==> is_day(d as int),
{
    match chrono::NaiveDate::parse_from_str(s, "%Y-%m-%d") {
        Ok(d) => Some(d.num_days_from_ce()),
        Err(_) => None,
    }
}

/// How `NaiveDate` is displayed.
pub uninterp spec fn day_text(day: i32) -> Seq<char>;

/// The `Display` form of the `chrono::NaiveDate` with this number. The calendar is named, not
/// restated. The days let in have a date.
#[verifier::external_body]
pub(crate) fn show_day(day: i32) -> (s: String)
    requires
        is_day(day as int),
    ensures
        s@ == day_text(day),
{
    chrono::NaiveDate::from_num_days_from_ce_opt(day).unwrap().to_string()
}

/// The day that a text of the form year, month and day names, if it names one.
pub fn day_of(s: &str) -> (r: Option<i32>)
    ensures
        r == parsed_day(s@),
        r matches Some(d) ==> is_day(d as int),
{
    parse_date(s)
}

} // verus!
