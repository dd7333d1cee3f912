use vstd::prelude::*;

use crate::models::real_time_disruption::time_periods::is_datetime;

verus! {

/// A date of the proleptic Gregorian calendar, as its number of days from January 1 of the
/// year 1, which is day 1
#[derive(Debug, Clone, Copy, PartialEq, Eq, Structural, PartialOrd, Ord, Hash)]
pub struct Date {
    pub days_from_ce: i32,
}

/// The day number of 1970-01-01
pub const UNIX_EPOCH_DAYS_FROM_CE: i32 = 719163;

/// The number of seconds in a day
pub const SECONDS_IN_DAY: i64 = 86400;

/// The datetime, in seconds since 1970-01-01 00:00:00, of midnight on `date`
pub open spec fn midnight_seconds(date: Date) -> int {
    (date.days_from_ce - UNIX_EPOCH_DAYS_FROM_CE) * SECONDS_IN_DAY
}

impl Date {
    /// The datetime, in seconds since 1970-01-01 00:00:00, of midnight on this date
    pub fn midnight(&self) -> (r: i64)
        ensures
            r == midnight_seconds(*self),
    {
        let days: i64 = self.days_from_ce as i64 - UNIX_EPOCH_DAYS_FROM_CE as i64;
        days * SECONDS_IN_DAY
    }
}

/// The day number of the date that chrono reads in `text` with the format `%Y-%m-%d`, if it
/// reads one
pub uninterp spec fn ymd_date_days(text: Seq<char>) -> Option<i32>;

/// Calls `chrono::NaiveDate::parse_from_str` on `text` with the format `%Y-%m-%d` and gives
/// the date read by its day number (`Datelike::num_days_from_ce`); what chrono reads is
/// named `ymd_date_days`, and not stated here
#[verifier::external_body]
pub(crate) fn parse_ymd_date(text: &str) -> (r: Option<Date>)
    ensures
        r == match ymd_date_days(text@) {
            Some(days) => Some(Date { days_from_ce: days }),
            None => None,
        },
{
    match chrono::NaiveDate::parse_from_str(text, "%Y-%m-%d") {
        Ok(date) => Some(Date { days_from_ce: chrono::Datelike::num_days_from_ce(&date) }),
        Err(_) => None,
    }
}

/// The text that chrono writes for the datetime `seconds` seconds after 1970-01-01 00:00:00
/// with the strftime format `format`
pub uninterp spec fn datetime_format_text(seconds: int, format: Seq<char>) -> Seq<char>;

/// Calls `chrono::DateTime::from_timestamp` on `seconds`, which gives a datetime exactly
/// when its date is in the range of `chrono::NaiveDate` (`is_datetime`), then
/// `chrono::NaiveDateTime::format` with `format` and `to_string`. The text that chrono
/// writes is named `datetime_format_text` and not stated here; the formats are limited to
/// two that chrono reads without error.
#[verifier::external_body]
pub(crate) fn format_datetime(seconds: i64, format: &str) -> (r: Option<String>)
    requires
        format@ == "%Y%m%dT%H%M%S"@ || format@ == "%H:%M:%S %d-%b-%y"@,
    ensures
        r is Some <==> is_datetime(seconds as int),
        r matches Some(text) ==> text@ == datetime_format_text(seconds as int, format@),
{
    let datetime = chrono::DateTime::from_timestamp(seconds, 0)?.naive_utc();
    Some(datetime.format(format).to_string())
}

} // verus!
