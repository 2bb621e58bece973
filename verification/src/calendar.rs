use vstd::prelude::*;

use chrono::{Datelike, NaiveDate};

verus! {

// Dates are held as day numbers of the proleptic Gregorian calendar, with
// January 1 of year 1 as day 1: the numbering of `chrono`'s
// `Datelike::num_days_from_ce`. Consecutive dates have consecutive numbers,
// and later dates have larger numbers.
/// The number of the first representable date, January 1, 262144 BCE
/// (`chrono::NaiveDate::MIN`).
pub const DAY_MIN: i32 = -95746129;

/// The number of the last representable date, December 31, 262142 CE
/// (`chrono::NaiveDate::MAX`).
pub const DAY_MAX: i32 = 95745399;

/// The number of January 1 of year 0 (1 BCE): from this date on `chrono`
/// writes the year with four digits and no sign.
pub const FOUR_DIGIT_DAY_MIN: i32 = -365;

/// The number of December 31, 9999, the last date whose year has four
/// digits.
pub const FOUR_DIGIT_DAY_MAX: i32 = 3652059;

/// Whether the date numbered `day` has a year of four digits (0 to 9999).
pub open spec fn four_digit_year(day: int) -> bool {
    FOUR_DIGIT_DAY_MIN <= day <= FOUR_DIGIT_DAY_MAX
}

/// Whether `day` is the number of a representable date.
pub open spec fn is_day(day: int) -> bool {
    DAY_MIN <= day <= DAY_MAX
}

/// The date that `chrono::NaiveDate::parse_from_str(text, "%Y-%m-%d")` reads
/// from `text`, as a day number; `None` where it reports an error.
pub uninterp spec fn parsed_iso_date(text: Seq<char>) -> Option<i32>;

/// The text that `chrono` writes for the date numbered `day` with the format
/// `"%Y-%m-%d"`.
pub uninterp spec fn iso_date_text(day: i32) -> Seq<char>;

/// Calls `chrono::NaiveDate::parse_from_str(text, "%Y-%m-%d")` and numbers
/// the date with `num_days_from_ce`. Trusted: the result is the named
/// `parsed_iso_date(text)`, and a date read lies in `NaiveDate`'s range.
#[verifier::external_body]
pub(crate) fn parse_iso_date(text: &str) -> (day: Option<i32>)
    ensures
        day == parsed_iso_date(text@),
        day matches Some(d) ==> is_day(d as int),
{
    match NaiveDate::parse_from_str(text, "%Y-%m-%d") {
        Ok(date) => Some(date.num_days_from_ce()),
        Err(_) => None,
    }
}

/// The date that `chrono` reads from `text` with `str::parse::<NaiveDate>`
/// (the form in which serialised statistics hold their dates), as a day
/// number; `None` where it reports an error.
pub uninterp spec fn read_date_text(text: Seq<char>) -> Option<i32>;

/// Calls `text.parse::<chrono::NaiveDate>()` and numbers the date with
/// `num_days_from_ce`. Trusted: the result is the named `read_date_text(text)`,
/// and a date read lies in `NaiveDate`'s range.
#[verifier::external_body]
pub(crate) fn read_date(text: &str) -> (day: Option<i32>)
    ensures
        day == read_date_text(text@),
        day matches Some(d) ==> is_day(d as int),
{
    match text.parse::<NaiveDate>() {
        Ok(date) => Some(date.num_days_from_ce()),
        Err(_) => None,
    }
}

/// Calls `chrono::NaiveDate::from_num_days_from_ce_opt(day)` and formats the
/// date with `"%Y-%m-%d"`. Trusted: the result is the named
/// `iso_date_text(day)`, and for a year of four digits the text reads back
/// through `parse_iso_date` as the same day (the year is written as four
/// zero-padded digits, month and day as two, and the parser takes four
/// unsigned year digits, then two and two). Every representable day number
/// gives a date, so the call does not fail on the days that `requires` admits.
#[verifier::external_body]
pub(crate) fn format_iso_date(day: i32) -> (text: String)
    requires
        is_day(day as int),
    ensures
        text@ == iso_date_text(day),
        four_digit_year(day as int) ==> parsed_iso_date(text@) == Some(day),
{
    NaiveDate::from_num_days_from_ce_opt(day).unwrap().format("%Y-%m-%d").to_string()
}

/// The abbreviated weekday name that `chrono` writes with the format `"%a"`
/// for the date numbered `day`.
pub uninterp spec fn weekday_text(day: i32) -> Seq<char>;

/// Calls `chrono::NaiveDate::from_num_days_from_ce_opt(day)` and formats the
/// date with `"%a"`. Trusted: the result is the named `weekday_text(day)`.
/// Every representable day number gives a date, so the call does not fail on
/// the days that `requires` admits.
#[verifier::external_body]
pub(crate) fn format_weekday(day: i32) -> (text: String)
    requires
        is_day(day as int),
    ensures
        text@ == weekday_text(day),
{
    NaiveDate::from_num_days_from_ce_opt(day).unwrap().format("%a").to_string()
}

} // verus!
