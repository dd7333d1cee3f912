use vstd::prelude::*;

use crate::dates::{datetime_format_text, format_datetime, midnight_seconds, Date, SECONDS_IN_DAY, UNIX_EPOCH_DAYS_FROM_CE};
use crate::models::real_time_disruption::time_periods::is_datetime;
use chrono::{DateTime, Offset, TimeZone};
use crate::text::{
    chars_of,
    duration_text,
    duration_to_string,
    time_of_day_text,
    time_of_day_to_string,
    lemma_unsigned_value_bound,
    parse_unsigned,
    split_chars,
    split_on,
    unsigned_value,
};

verus! {

/// Duration since "noon minus 12 hours" on a day in a specific timezone.
/// Only times between -48:00:00 and 48:00:00 are accepted.
#[derive(Debug, Clone, Copy, PartialEq, Eq, Structural, PartialOrd, Ord)]
pub struct SecondsSinceTimezonedDayStart {
    seconds: i32,
}

/// The largest number of seconds, in absolute value, of a time in a timezoned day (48h)
pub const MAX_SECONDS_SINCE_TIMEZONED_DAY_START: i32 = 172800;

/// The largest offset of a timezone, in seconds (24h)
pub const MAX_TIMEZONE_OFFSET: i32 = 86400;

/// The largest number of days of a calendar, more than 100 years
pub const MAX_DAYS_IN_CALENDAR: u16 = 36600;

/// Duration since 00:00:00 UTC in the first allowed day of the data
#[derive(Debug, Clone, Copy, PartialEq, Eq, Structural, PartialOrd, Ord)]
pub struct SecondsSinceDatasetUTCStart {
    pub(crate) seconds: u32,
}

/// Number of days since the first allowed day of the data
#[derive(Debug, PartialEq, Eq, Structural, Clone, Copy)]
pub struct DaysSinceDatasetStart {
    pub(crate) days: u16,
}

/// The days of a calendar, from the first one on
pub struct DaysIter {
    next_day: u16,
    end: u16,
}

/// A duration, in seconds, that cannot be negative
#[derive(Debug, PartialEq, Eq, Structural, Clone, Copy, PartialOrd, Ord)]
pub struct PositiveDuration {
    pub(crate) seconds: u32,
}

/// The days that the data covers, from a first date to a last date included
pub struct Calendar {
    first_date: Date,
    last_date: Date,
    nb_of_days: u16,
}

/// The first datetime, in seconds since 1970-01-01 00:00:00, that a calendar starting on
/// `first_date` covers: midnight on that date, minus the largest timezone offset, minus the
/// largest time of a timezoned day
pub open spec fn first_datetime_of(first_date: Date) -> int {
    midnight_seconds(first_date) - MAX_TIMEZONE_OFFSET - MAX_SECONDS_SINCE_TIMEZONED_DAY_START
}

/// The last datetime, in seconds since 1970-01-01 00:00:00, that a calendar ending on
/// `last_date` covers: midnight on that date, plus the largest timezone offset, plus the
/// largest time of a timezoned day
pub open spec fn last_datetime_of(last_date: Date) -> int {
    midnight_seconds(last_date) + MAX_TIMEZONE_OFFSET + MAX_SECONDS_SINCE_TIMEZONED_DAY_START
}

/// The offset, in seconds, of the timezone named `timezone` at the instant `utc_seconds`
/// (seconds since 1970-01-01 00:00:00 UTC); none when the name is not a timezone of the
/// database or the instant is outside chrono's range
pub uninterp spec fn timezone_offset_at(timezone: Seq<char>, utc_seconds: int) -> Option<i64>;

/// The instant, in seconds since 1970-01-01 00:00:00 UTC, at which the clocks of the
/// timezone named `timezone` show `local_seconds` (seconds since 1970-01-01 00:00:00 on
/// those clocks), when there is exactly one such instant
pub uninterp spec fn timezone_local_to_utc(timezone: Seq<char>, local_seconds: int) -> Option<i64>;

/// The offset of a timezone at an instant.
///
/// Calls `chrono_tz::Tz::offset_from_utc_datetime` on the timezone parsed from its name and
/// on the datetime of the instant (`chrono::DateTime::from_timestamp`). What the offset is
/// comes from the timezone database of chrono-tz and is not stated; that it lies strictly
/// between -24h and 24h is an invariant of `chrono::FixedOffset`.
#[verifier::external_body]
pub(crate) fn offset_at(timezone: &str, utc_seconds: i64) -> (r: Option<i64>)
    ensures
        r == timezone_offset_at(timezone@, utc_seconds as int),
        r matches Some(offset) ==> -86400 < offset < 86400,
{
    let tz: chrono_tz::Tz = timezone.parse().ok()?;
    let datetime = DateTime::from_timestamp(utc_seconds, 0)?.naive_utc();
    Some(tz.offset_from_utc_datetime(&datetime).fix().local_minus_utc() as i64)
}

/// The instant at which the clocks of a timezone show a local datetime.
///
/// Calls `chrono_tz::Tz::from_local_datetime` on the timezone parsed from its name and on
/// the local datetime (`chrono::DateTime::from_timestamp`), and keeps the single instant
/// (`MappedLocalTime::single`): none when the local datetime is skipped or repeated by the
/// timezone. Which instant it is comes from the timezone database and is not stated.
#[verifier::external_body]
pub(crate) fn local_to_utc(timezone: &str, local_seconds: i64) -> (r: Option<i64>)
    ensures
        r == timezone_local_to_utc(timezone@, local_seconds as int),
{
    let tz: chrono_tz::Tz = timezone.parse().ok()?;
    let local = DateTime::from_timestamp(local_seconds, 0)?.naive_utc();
    Some(tz.from_local_datetime(&local).single()?.timestamp())
}

/// Noon on the day numbered `days_from_ce`, in local seconds since 1970-01-01 00:00:00
pub open spec fn local_noon(days_from_ce: int) -> int {
    (days_from_ce - UNIX_EPOCH_DAYS_FROM_CE) * SECONDS_IN_DAY + 43200
}

/// The start of the timezoned day numbered `days_from_ce` in `timezone`: twelve hours before
/// the instant of its local noon, when that instant is unique
pub open spec fn timezoned_day_start(timezone: Seq<char>, days_from_ce: int) -> Option<int> {
    match timezone_local_to_utc(timezone, local_noon(days_from_ce)) {
        Some(noon) => Some(noon - 43200),
        None => None,
    }
}

/// `seconds_in_day` after the start of day `day` of `calendar`, in seconds since the first
/// datetime of the calendar
pub open spec fn composed_seconds(
    calendar: Calendar,
    day: DaysSinceDatasetStart,
    seconds_in_day: SecondsSinceTimezonedDayStart,
    timezone: Seq<char>,
) -> Option<int> {
    match timezoned_day_start(timezone, calendar.first().days_from_ce + day@) {
        Some(start) => Some(start + seconds_in_day@ - first_datetime_of(calendar.first())),
        None => None,
    }
}

/// `seconds` is the time of a timezoned day: between -48:00:00 and 48:00:00.
pub open spec fn in_timezoned_day(seconds: int) -> bool {
    -MAX_SECONDS_SINCE_TIMEZONED_DAY_START <= seconds <= MAX_SECONDS_SINCE_TIMEZONED_DAY_START
}

/// The date, as a day number, on the clocks of `timezone` at the instant `utc_seconds`
pub open spec fn local_date_at(timezone: Seq<char>, utc_seconds: int) -> Option<int> {
    match timezone_offset_at(timezone, utc_seconds) {
        Some(offset) => Some((utc_seconds + offset) / (SECONDS_IN_DAY as int) + UNIX_EPOCH_DAYS_FROM_CE),
        None => None,
    }
}

/// The decompositions of the instant `instant` as a day of `calendar` and a time in that
/// day in `timezone`, from the day numbered `d` on, day after day, while the day is one of
/// the calendar and the time lies in a timezoned day and is at least `min`; none when the
/// local noon of a day looked at is not a single instant
pub open spec fn forward_decompositions(
    calendar: Calendar,
    timezone: Seq<char>,
    instant: int,
    min: int,
    d: int,
) -> Option<Seq<(int, int)>>
    decreases (if d <= calendar.last().days_from_ce {
        calendar.last().days_from_ce - d + 1
    } else {
        0
    }),
{
    match timezoned_day_start(timezone, d) {
        None => None,
        Some(start) => {
            let s = instant - start;
            if calendar.first().days_from_ce <= d <= calendar.last().days_from_ce && in_timezoned_day(s)
                && s >= min {
                match forward_decompositions(calendar, timezone, instant, min, d + 1) {
                    Some(rest) => Some(seq![(d - calendar.first().days_from_ce, s)] + rest),
                    None => None,
                }
            } else {
                Some(Seq::empty())
            }
        },
    }
}

/// The decompositions of the instant `instant` as a day of `calendar` and a time in that
/// day in `timezone`, from the day numbered `d` on, day before day, while the day is one of
/// the calendar and the time lies in a timezoned day and is at most `max`; none when the
/// local noon of a day looked at is not a single instant
pub open spec fn backward_decompositions(
    calendar: Calendar,
    timezone: Seq<char>,
    instant: int,
    max: int,
    d: int,
) -> Option<Seq<(int, int)>>
    decreases (if d >= calendar.first().days_from_ce {
        d - calendar.first().days_from_ce + 1
    } else {
        0
    }),
{
    match timezoned_day_start(timezone, d) {
        None => None,
        Some(start) => {
            let s = instant - start;
            if calendar.first().days_from_ce <= d <= calendar.last().days_from_ce && in_timezoned_day(s)
                && s <= max {
                match backward_decompositions(calendar, timezone, instant, max, d - 1) {
                    Some(rest) => Some(seq![(d - calendar.first().days_from_ce, s)] + rest),
                    None => None,
                }
            } else {
                Some(Seq::empty())
            }
        },
    }
}

/// The decompositions of the time `seconds` of `calendar` as (day, time in that timezoned
/// day) in `timezone`: from the local date of the instant forward while the time is at
/// least `min`, then backward from the day before while the time is at most `max`; none when
/// the timezone gives no offset at the instant or the local noon of a day looked at is not a
/// single instant
pub open spec fn decompositions_of(
    calendar: Calendar,
    timezone: Seq<char>,
    seconds: SecondsSinceDatasetUTCStart,
    max: SecondsSinceTimezonedDayStart,
    min: SecondsSinceTimezonedDayStart,
) -> Option<Seq<(int, int)>> {
    let instant = first_datetime_of(calendar.first()) + seconds@;
    match local_date_at(timezone, instant) {
        None => None,
        Some(d0) => match (
            forward_decompositions(calendar, timezone, instant, min@, d0),
            backward_decompositions(calendar, timezone, instant, max@, d0),
        ) {
            (Some(f), Some(b)) => Some(
                f + if b.len() > 0 {
                    b.drop_first()
                } else {
                    Seq::empty()
                },
            ),
            _ => None,
        },
    }
}

/// The time of `instant` in the timezoned day that starts at `start_utc`, when it fits in
/// an `i64`
fn time_in_day(instant: i64, noon_utc: i64) -> (r: Option<i64>)
    requires
        -1125899906842624 < instant < 1125899906842624,
    ensures
        r matches Some(s) ==> s == instant - (noon_utc - 43200),
        r is None ==> !in_timezoned_day(instant - (noon_utc - 43200)),
{
    match noon_utc.checked_sub(43200) {
        None => None,
        Some(start) => instant.checked_sub(start),
    }
}

/// Noon on the day numbered `d`, in local seconds since 1970-01-01 00:00:00
fn local_noon_of(d: i64) -> (r: i64)
    requires
        -1099511627776 < d < 1099511627776,
    ensures
        r == local_noon(d as int),
{
    let days = d - UNIX_EPOCH_DAYS_FROM_CE as i64;
    assert(-2199023255552 * 86400 < days * 86400 < 2199023255552 * 86400) by (nonlinear_arith)
        requires
            -2199023255552 < days < 2199023255552,
    ;
    days * SECONDS_IN_DAY + 43200
}

/// `n` divided by `d`, rounded down
pub(crate) fn floor_div(n: i64, d: i64) -> (r: i64)
    requires
        d > 0,
        n > i64::MIN,
    ensures
        r == n / d,
{
    if n >= 0 {
        n / d
    } else {
        let q = (-n - 1) / d;
        proof {
            let m: int = -n - 1;
            let dd: int = d as int;
            let qq: int = q as int;
            assert(qq == m / dd);
            assert(qq * dd <= m < (qq + 1) * dd) by (nonlinear_arith)
                requires
                    dd > 0,
                    m >= 0,
                    qq == m / dd,
            ;
            assert((n as int) / dd == -qq - 1) by (nonlinear_arith)
                requires
                    dd > 0,
                    qq * dd <= m < (qq + 1) * dd,
                    m == -n - 1,
            ;
        }
        -q - 1
    }
}

impl Calendar {
    /// The first date
    pub closed spec fn first(&self) -> Date {
        self.first_date
    }

    /// The last date
    pub closed spec fn last(&self) -> Date {
        self.last_date
    }

    /// The number of days from the first date to the last one, both included
    pub closed spec fn days_count(&self) -> nat {
        self.nb_of_days as nat
    }

    /// The dates are ordered, there are fewer than `MAX_DAYS_IN_CALENDAR` days, and the
    /// number of days is theirs.
    pub closed spec fn wf(&self) -> bool {
        &&& self.first_date.days_from_ce <= self.last_date.days_from_ce
        &&& self.nb_of_days == self.last_date.days_from_ce - self.first_date.days_from_ce + 1
        &&& self.nb_of_days < MAX_DAYS_IN_CALENDAR
    }

    /// In a well-formed calendar, the first date comes no later than the last one, and the
    /// days are those from the first date to the last one.
    pub proof fn lemma_wf(&self)
        requires
            self.wf(),
        ensures
            self.first().days_from_ce <= self.last().days_from_ce,
            self.days_count() == self.last().days_from_ce - self.first().days_from_ce + 1,
            self.days_count() < MAX_DAYS_IN_CALENDAR,
    {
    }

    /// The calendar of the days from `first_date` to `last_date`, both included
    pub fn new(first_date: Date, last_date: Date) -> (r: Self)
        requires
            first_date.days_from_ce <= last_date.days_from_ce,
            last_date.days_from_ce - first_date.days_from_ce + 1 < MAX_DAYS_IN_CALENDAR,
        ensures
            r.wf(),
            r.first() == first_date,
            r.last() == last_date,
            r.days_count() == last_date.days_from_ce - first_date.days_from_ce + 1,
    {
        let nb_of_days_i64: i64 = last_date.days_from_ce as i64 - first_date.days_from_ce as i64 + 1;
        let nb_of_days: u16 = nb_of_days_i64 as u16;
        Self { first_date, last_date, nb_of_days }
    }

    /// The number of days of the calendar
    pub fn nb_of_days(&self) -> (r: u16)
        ensures
            r == self.days_count(),
    {
        self.nb_of_days
    }

    /// The days of the calendar, from the first one on
    pub fn days(&self) -> (r: DaysIter)
        ensures
            r@ == (0nat, self.days_count()),
    {
        DaysIter::new(self.nb_of_days)
    }

    /// The first datetime, in seconds since 1970-01-01 00:00:00, that the calendar covers
    pub fn first_datetime(&self) -> (r: i64)
        ensures
            r == first_datetime_of(self.first()),
    {
        let midnight = self.first_date.midnight();
        let ghost d: int = self.first_date.days_from_ce as int;
        assert(midnight >= -2147483648 * 86400 - 719163 * 86400) by (nonlinear_arith)
            requires
                midnight == (d - 719163) * 86400,
                d >= -2147483648,
        ;
        midnight - MAX_TIMEZONE_OFFSET as i64 - MAX_SECONDS_SINCE_TIMEZONED_DAY_START as i64
    }

    /// The last datetime, in seconds since 1970-01-01 00:00:00, that the calendar covers
    pub fn last_datetime(&self) -> (r: i64)
        ensures
            r == last_datetime_of(self.last()),
    {
        let midnight = self.last_date.midnight();
        let ghost d: int = self.last_date.days_from_ce as int;
        assert(midnight <= 2147483647 * 86400) by (nonlinear_arith)
            requires
                midnight == (d - 719163) * 86400,
                d <= 2147483647,
        ;
        midnight + MAX_TIMEZONE_OFFSET as i64 + MAX_SECONDS_SINCE_TIMEZONED_DAY_START as i64
    }

    /// `true` when `datetime`, in seconds since 1970-01-01 00:00:00, is covered by the
    /// calendar
    pub fn contains_datetime(&self, datetime: i64) -> (r: bool)
        ensures
            r == (first_datetime_of(self.first()) <= datetime <= last_datetime_of(self.last())),
    {
        datetime >= self.first_datetime() && datetime <= self.last_datetime()
    }

    /// The first date
    pub fn first_date(&self) -> (r: &Date)
        ensures
            *r == self.first(),
    {
        &self.first_date
    }

    /// The last date
    pub fn last_date(&self) -> (r: &Date)
        ensures
            *r == self.last(),
    {
        &self.last_date
    }

    /// `true` when `date` is a date of the calendar
    pub fn contains_date(&self, date: &Date) -> (r: bool)
        ensures
            r == (self.first().days_from_ce <= date.days_from_ce <= self.last().days_from_ce),
    {
        self.first_date.days_from_ce <= date.days_from_ce && date.days_from_ce
            <= self.last_date.days_from_ce
    }

    /// The date of `day`
    pub fn to_naive_date(&self, day: &DaysSinceDatasetStart) -> (r: Date)
        requires
            self.first().days_from_ce + day@ <= i32::MAX,
        ensures
            r.days_from_ce == self.first().days_from_ce + day@,
    {
        Date { days_from_ce: self.first_date.days_from_ce + day.days as i32 }
    }

    /// The datetime that is `seconds` after the first datetime of the calendar, as text:
    /// `%Y%m%dT%H%M%S`
    pub fn to_string(&self, seconds: &SecondsSinceDatasetUTCStart) -> (r: String)
        requires
            is_datetime(first_datetime_of(self.first()) + seconds@),
        ensures
            r@ == datetime_format_text(first_datetime_of(self.first()) + seconds@, "%Y%m%dT%H%M%S"@),
    {
        let datetime = self.to_naive_datetime(seconds);
        format_datetime(datetime, "%Y%m%dT%H%M%S").unwrap()
    }

    /// The datetime that is `seconds` after the first datetime of the calendar, as text:
    /// `%H:%M:%S %d-%b-%y`
    pub fn to_pretty_string(&self, seconds: &SecondsSinceDatasetUTCStart) -> (r: String)
        requires
            is_datetime(first_datetime_of(self.first()) + seconds@),
        ensures
            r@ == datetime_format_text(first_datetime_of(self.first()) + seconds@, "%H:%M:%S %d-%b-%y"@),
    {
        let datetime = self.to_naive_datetime(seconds);
        format_datetime(datetime, "%H:%M:%S %d-%b-%y").unwrap()
    }

    /// The datetime, in seconds since 1970-01-01 00:00:00, that is `seconds` after the first
    /// datetime of the calendar: the inverse of `from_naive_datetime`
    pub fn to_naive_datetime(&self, seconds: &SecondsSinceDatasetUTCStart) -> (r: i64)
        ensures
            r == first_datetime_of(self.first()) + seconds@,
    {
        let first = self.first_datetime();
        let ghost d: int = self.first_date.days_from_ce as int;
        assert(first <= 2147483647 * 86400) by (nonlinear_arith)
            requires
                first <= (d - 719163) * 86400,
                d <= 2147483647,
        ;
        first + seconds.seconds as i64
    }

    /// The day of `date`, when it is a date of the calendar
    pub fn date_to_days_since_start(&self, date: &Date) -> (r: Option<DaysSinceDatasetStart>)
        requires
            self.wf(),
        ensures
            r is Some <==> self.first().days_from_ce <= date.days_from_ce <= self.last().days_from_ce,
            r matches Some(day) ==> day@ == date.days_from_ce - self.first().days_from_ce,
    {
        match self.date_to_offset(date) {
            Some(offset) => Some(DaysSinceDatasetStart { days: offset }),
            None => None,
        }
    }

    /// The number of days from the first date to `date`, when it is a date of the calendar
    pub(crate) fn date_to_offset(&self, date: &Date) -> (r: Option<u16>)
        requires
            self.wf(),
        ensures
            r is Some <==> self.first().days_from_ce <= date.days_from_ce <= self.last().days_from_ce,
            r matches Some(offset) ==> offset == date.days_from_ce - self.first().days_from_ce,
    {
        if date.days_from_ce < self.first_date.days_from_ce || date.days_from_ce
            > self.last_date.days_from_ce {
            None
        } else {
            let offset_64: i64 = date.days_from_ce as i64 - self.first_date.days_from_ce as i64;
            let offset = offset_64 as u16;
            Some(offset)
        }
    }

    /// The time, since the first datetime of the calendar, that is `seconds_in_day` after
    /// the start of the timezoned day `day` in `timezone`
    pub fn compose(
        &self,
        day: &DaysSinceDatasetStart,
        seconds_in_day: &SecondsSinceTimezonedDayStart,
        timezone: &str,
    ) -> (r: SecondsSinceDatasetUTCStart)
        requires
            self.wf(),
            day@ < self.days_count(),
            composed_seconds(*self, *day, *seconds_in_day, timezone@) matches Some(s) && 0 <= s
                <= u32::MAX,
        ensures
            r@ == composed_seconds(*self, *day, *seconds_in_day, timezone@)->0,
    {
        let date_days: i64 = self.first_date.days_from_ce as i64 + day.days as i64;
        let noon: i64 = (date_days - UNIX_EPOCH_DAYS_FROM_CE as i64) * SECONDS_IN_DAY + 43200;
        let noon_utc = local_to_utc(timezone, noon).unwrap();
        let first = self.first_datetime();
        let seconds_i64 = noon_utc - 43200 + seconds_in_day.seconds as i64 - first;
        SecondsSinceDatasetUTCStart { seconds: seconds_i64 as u32 }
    }

    /// The time, since the first datetime of the calendar, that is `seconds_in_day` after
    /// the start of the timezoned day `day` in `timezone`, when the day is one of the
    /// calendar, its local noon is a single instant, and the time is covered by the calendar
    pub fn try_compose(
        &self,
        day: &DaysSinceDatasetStart,
        seconds_in_day: &SecondsSinceTimezonedDayStart,
        timezone: &str,
    ) -> (r: Option<SecondsSinceDatasetUTCStart>)
        requires
            self.wf(),
        ensures
            r is Some <==> (day@ < self.days_count() && (composed_seconds(
                *self,
                *day,
                *seconds_in_day,
                timezone@,
            ) matches Some(s) && 0 <= s <= u32::MAX)),
            r matches Some(t) ==> t@ == composed_seconds(*self, *day, *seconds_in_day, timezone@)->0,
    {
        if day.days >= self.nb_of_days {
            return None;
        }
        let date_days: i64 = self.first_date.days_from_ce as i64 + day.days as i64;
        let noon: i64 = (date_days - UNIX_EPOCH_DAYS_FROM_CE as i64) * SECONDS_IN_DAY + 43200;
        match local_to_utc(timezone, noon) {
            None => None,
            Some(noon_utc) => {
                let first = self.first_datetime();
                match noon_utc.checked_sub(43200 - seconds_in_day.seconds as i64) {
                    None => None,
                    Some(at) => match at.checked_sub(first) {
                        None => None,
                        Some(seconds_i64) => {
                            if 0 <= seconds_i64 && seconds_i64 <= u32::MAX as i64 {
                                Some(self.compose(day, seconds_in_day, timezone))
                            } else {
                                None
                            }
                        },
                    },
                }
            },
        }
    }

    /// The decompositions of the time `seconds_since_dataset_start` as (day, time in that
    /// timezoned day) in `timezone`: from the local date of the instant forward while the
    /// time is at least `min_seconds_since_timezoned_day_start`, then backward from the day
    /// before while it is at most `max_seconds_since_timezoned_day_start`
    pub fn decompositions(
        &self,
        seconds_since_dataset_start: &SecondsSinceDatasetUTCStart,
        timezone: &str,
        max_seconds_since_timezoned_day_start: SecondsSinceTimezonedDayStart,
        min_seconds_since_timezoned_day_start: SecondsSinceTimezonedDayStart,
    ) -> (r: Vec<(DaysSinceDatasetStart, SecondsSinceTimezonedDayStart)>)
        requires
            self.wf(),
            decompositions_of(
                *self,
                timezone@,
                *seconds_since_dataset_start,
                max_seconds_since_timezoned_day_start,
                min_seconds_since_timezoned_day_start,
            ) is Some,
        ensures
            r@.map_values(
                |p: (DaysSinceDatasetStart, SecondsSinceTimezonedDayStart)| (p.0@ as int, p.1@),
            ) == decompositions_of(
                *self,
                timezone@,
                *seconds_since_dataset_start,
                max_seconds_since_timezoned_day_start,
                min_seconds_since_timezoned_day_start,
            )->0,
    {
        self.try_decompositions(
            seconds_since_dataset_start,
            timezone,
            max_seconds_since_timezoned_day_start,
            min_seconds_since_timezoned_day_start,
        ).unwrap()
    }

    /// The decompositions of the time `seconds_since_dataset_start`, as `decompositions`
    /// gives them, when the timezone gives an offset at the instant and the local noon of
    /// each day looked at is a single instant; none otherwise
    pub fn try_decompositions(
        &self,
        seconds_since_dataset_start: &SecondsSinceDatasetUTCStart,
        timezone: &str,
        max_seconds_since_timezoned_day_start: SecondsSinceTimezonedDayStart,
        min_seconds_since_timezoned_day_start: SecondsSinceTimezonedDayStart,
    ) -> (r: Option<Vec<(DaysSinceDatasetStart, SecondsSinceTimezonedDayStart)>>)
        requires
            self.wf(),
        ensures
            r is Some <==> decompositions_of(
                *self,
                timezone@,
                *seconds_since_dataset_start,
                max_seconds_since_timezoned_day_start,
                min_seconds_since_timezoned_day_start,
            ) is Some,
            r matches Some(v) ==> v@.map_values(
                |p: (DaysSinceDatasetStart, SecondsSinceTimezonedDayStart)| (p.0@ as int, p.1@),
            ) == decompositions_of(
                *self,
                timezone@,
                *seconds_since_dataset_start,
                max_seconds_since_timezoned_day_start,
                min_seconds_since_timezoned_day_start,
            )->0,
    {
        let ghost cal = *self;
        let ghost tz = timezone@;
        let ghost min = min_seconds_since_timezoned_day_start@;
        let ghost max = max_seconds_since_timezoned_day_start@;
        let first_day: i64 = self.first_date.days_from_ce as i64;
        let last_day: i64 = self.last_date.days_from_ce as i64;
        let first_datetime = self.first_datetime();
        proof {
            let fd = self.first_date.days_from_ce as int;
            assert(-281474976710656 < (fd - 719163) * 86400 < 281474976710656 - 8589934592) by (nonlinear_arith)
                requires
                    -2147483648 <= fd <= 2147483647,
            ;
        }
        let instant: i64 = first_datetime + seconds_since_dataset_start.seconds as i64;
        let offset = match offset_at(timezone, instant) {
            Some(offset) => offset,
            None => {
                return None;
            },
        };
        let local_day: i64 = floor_div(instant + offset, SECONDS_IN_DAY);
        proof {
            let n = instant + offset;
            assert(-1099511627776 < n / 86400 < 1099511627776 - 1073741824) by (nonlinear_arith)
                requires
                    -562949953421312 < n < 562949953421312,
            ;
        }
        let d0: i64 = local_day + UNIX_EPOCH_DAYS_FROM_CE as i64;
        let ghost fwd = forward_decompositions(cal, tz, instant as int, min, d0 as int);
        let ghost bwd = backward_decompositions(cal, tz, instant as int, max, d0 as int);
        let ghost dec = decompositions_of(
            *self,
            timezone@,
            *seconds_since_dataset_start,
            max_seconds_since_timezoned_day_start,
            min_seconds_since_timezoned_day_start,
        );
        assert(dec == match (fwd, bwd) {
            (Some(f), Some(b)) => Some(
                f + if b.len() > 0 {
                    b.drop_first()
                } else {
                    Seq::empty()
                },
            ),
            _ => None,
        });
        let mut result: Vec<(DaysSinceDatasetStart, SecondsSinceTimezonedDayStart)> = Vec::new();
        let mut d: i64 = d0;
        loop
            invariant_except_break
                tz == timezone@,
                min == min_seconds_since_timezoned_day_start@,
                max == max_seconds_since_timezoned_day_start@,
                first_day == cal.first().days_from_ce,
                last_day == cal.last().days_from_ce,
                first_day <= last_day,
                last_day - first_day < MAX_DAYS_IN_CALENDAR,
                d0 <= d <= last_day + 1 || d == d0,
                -1099511627776 < d0 < 1099511627776,
                -1125899906842624 < instant < 1125899906842624,
                fwd == forward_decompositions(cal, tz, instant as int, min, d0 as int),
                dec == decompositions_of(
                    *self,
                    timezone@,
                    *seconds_since_dataset_start,
                    max_seconds_since_timezoned_day_start,
                    min_seconds_since_timezoned_day_start,
                ),
                dec == match (fwd, bwd) {
                    (Some(f), Some(b)) => Some(
                        f + if b.len() > 0 {
                            b.drop_first()
                        } else {
                            Seq::empty()
                        },
                    ),
                    _ => None,
                },
                fwd == match forward_decompositions(cal, tz, instant as int, min, d as int) {
                    Some(x) => Some(result@.map_values(
                        |p: (DaysSinceDatasetStart, SecondsSinceTimezonedDayStart)| (p.0@ as int, p.1@),
                    ) + x),
                    None => None,
                },
            ensures
                fwd == Some(result@.map_values(
                    |p: (DaysSinceDatasetStart, SecondsSinceTimezonedDayStart)| (p.0@ as int, p.1@),
                )),
            decreases (if d <= last_day {
                last_day - d + 1
            } else {
                0
            }),
        {
            let noon: i64 = local_noon_of(d);
            let noon_utc = match local_to_utc(timezone, noon) {
                Some(noon_utc) => noon_utc,
                None => {
                    return None;
                },
            };
            let ghost before = result@.map_values(
                |p: (DaysSinceDatasetStart, SecondsSinceTimezonedDayStart)| (p.0@ as int, p.1@),
            );
            match time_in_day(instant, noon_utc) {
                Some(s) => {
                    if first_day <= d && d <= last_day && -(MAX_SECONDS_SINCE_TIMEZONED_DAY_START as i64)
                        <= s && s <= MAX_SECONDS_SINCE_TIMEZONED_DAY_START as i64 && s
                        >= min_seconds_since_timezoned_day_start.seconds as i64 {
                        let item = (
                            DaysSinceDatasetStart { days: (d - first_day) as u16 },
                            SecondsSinceTimezonedDayStart { seconds: s as i32 },
                        );
                        result.push(item);
                        proof {
                            assert(result@.map_values(
                                |p: (DaysSinceDatasetStart, SecondsSinceTimezonedDayStart)| (p.0@ as int, p.1@),
                            ) =~= before.push((d - first_day, s as int)));
                            match forward_decompositions(cal, tz, instant as int, min, d + 1) {
                                Some(rest) => {
                                    assert(before + (seq![(d - first_day, s as int)] + rest)
                                        =~= before.push((d - first_day, s as int)) + rest);
                                },
                                None => {},
                            }
                        }
                        d = d + 1;
                    } else {
                        proof {
                            assert(before + Seq::<(int, int)>::empty() =~= before);
                        }
                        break;
                    }
                },
                None => {
                    proof {
                        assert(before + Seq::<(int, int)>::empty() =~= before);
                    }
                    break;
                },
            }
        }
        let ghost forward_view = result@.map_values(
            |p: (DaysSinceDatasetStart, SecondsSinceTimezonedDayStart)| (p.0@ as int, p.1@),
        );
        let ghost mut found: Seq<(int, int)> = Seq::empty();
        let mut d: i64 = d0;
        let mut skip = true;
        loop
            invariant_except_break
                tz == timezone@,
                min == min_seconds_since_timezoned_day_start@,
                max == max_seconds_since_timezoned_day_start@,
                first_day == cal.first().days_from_ce,
                last_day == cal.last().days_from_ce,
                first_day <= last_day,
                last_day - first_day < MAX_DAYS_IN_CALENDAR,
                d <= d0,
                first_day - 1 <= d || d == d0,
                -1099511627776 < d0 < 1099511627776,
                -1125899906842624 < instant < 1125899906842624,
                fwd == Some(forward_view),
                dec == decompositions_of(
                    *self,
                    timezone@,
                    *seconds_since_dataset_start,
                    max_seconds_since_timezoned_day_start,
                    min_seconds_since_timezoned_day_start,
                ),
                dec == match (fwd, bwd) {
                    (Some(f), Some(b)) => Some(
                        f + if b.len() > 0 {
                            b.drop_first()
                        } else {
                            Seq::empty()
                        },
                    ),
                    _ => None,
                },
                bwd == backward_decompositions(cal, tz, instant as int, max, d0 as int),
                bwd == match backward_decompositions(cal, tz, instant as int, max, d as int) {
                    Some(x) => Some(found + x),
                    None => None,
                },
                skip <==> found.len() == 0,
                skip ==> d == d0,
                skip ==> result@.map_values(
                    |p: (DaysSinceDatasetStart, SecondsSinceTimezonedDayStart)| (p.0@ as int, p.1@),
                ) == forward_view,
                !skip ==> result@.map_values(
                    |p: (DaysSinceDatasetStart, SecondsSinceTimezonedDayStart)| (p.0@ as int, p.1@),
                ) == forward_view + found.drop_first(),
            ensures
                bwd == Some(found),
                found.len() == 0 ==> result@.map_values(
                    |p: (DaysSinceDatasetStart, SecondsSinceTimezonedDayStart)| (p.0@ as int, p.1@),
                ) == forward_view,
                found.len() > 0 ==> result@.map_values(
                    |p: (DaysSinceDatasetStart, SecondsSinceTimezonedDayStart)| (p.0@ as int, p.1@),
                ) == forward_view + found.drop_first(),
            decreases (if d >= first_day {
                d - first_day + 1
            } else {
                0
            }),
        {
            let noon: i64 = local_noon_of(d);
            let noon_utc = match local_to_utc(timezone, noon) {
                Some(noon_utc) => noon_utc,
                None => {
                    return None;
                },
            };
            let ghost before = result@.map_values(
                |p: (DaysSinceDatasetStart, SecondsSinceTimezonedDayStart)| (p.0@ as int, p.1@),
            );
            let ok = match time_in_day(instant, noon_utc) {
                Some(s) => {
                    if first_day <= d && d <= last_day && -(MAX_SECONDS_SINCE_TIMEZONED_DAY_START as i64)
                        <= s && s <= MAX_SECONDS_SINCE_TIMEZONED_DAY_START as i64 && s
                        <= max_seconds_since_timezoned_day_start.seconds as i64 {
                        if !skip {
                            let item = (
                                DaysSinceDatasetStart { days: (d - first_day) as u16 },
                                SecondsSinceTimezonedDayStart { seconds: s as i32 },
                            );
                            result.push(item);
                            proof {
                                assert(result@.map_values(
                                    |p: (DaysSinceDatasetStart, SecondsSinceTimezonedDayStart)| (p.0@ as int, p.1@),
                                ) =~= before.push((d - first_day, s as int)));
                                assert(found.push((d - first_day, s as int)).drop_first()
                                    =~= found.drop_first().push((d - first_day, s as int)));
                            }
                        }
                        proof {
                            match backward_decompositions(cal, tz, instant as int, max, d - 1) {
                                Some(rest) => {
                                    assert(found + (seq![(d - first_day, s as int)] + rest)
                                        =~= found.push((d - first_day, s as int)) + rest);
                                },
                                None => {},
                            }
                            found = found.push((d - first_day, s as int));
                        }
                        true
                    } else {
                        false
                    }
                },
                None => false,
            };
            if ok {
                skip = false;
                d = d - 1;
            } else {
                proof {
                    assert(found + Seq::<(int, int)>::empty() =~= found);
                }
                break;
            }
        }
        Some(result)
    }

    /// The time since the start of the dataset of `datetime`, in seconds since 1970-01-01
    /// 00:00:00, when the calendar covers it
    pub fn from_naive_datetime(&self, datetime: i64) -> (r: Option<SecondsSinceDatasetUTCStart>)
        requires
            self.wf(),
        ensures
            r is Some <==> first_datetime_of(self.first()) <= datetime <= last_datetime_of(self.last()),
            r matches Some(s) ==> s@ == datetime - first_datetime_of(self.first()),
    {
        if !self.contains_datetime(datetime) {
            return None;
        }
        let first = self.first_datetime();
        let seconds_i64 = datetime - first;
        proof {
            let f = self.first_date.days_from_ce as int;
            let l = self.last_date.days_from_ce as int;
            assert(last_datetime_of(self.last()) - first_datetime_of(self.first()) == (l - f) * 86400
                + 2 * 86400 + 2 * 172800);
            assert((l - f) * 86400 <= 36600 * 86400) by (nonlinear_arith)
                requires
                    l - f < 36600,
                    l - f >= 0,
            ;
        }
        let seconds_u32 = seconds_i64 as u32;
        Some(SecondsSinceDatasetUTCStart { seconds: seconds_u32 })
    }
}

impl DaysSinceDatasetStart {
    /// The day `days` days after the first day of the dataset
    pub closed spec fn of(days: int) -> DaysSinceDatasetStart {
        DaysSinceDatasetStart { days: days as u16 }
    }

    /// A day is the day of its number of days, and the day of a number of days that fits
    /// has that number of days.
    pub proof fn lemma_of(day: DaysSinceDatasetStart, days: int)
        ensures
            DaysSinceDatasetStart::of(day@ as int) == day,
            0 <= days <= u16::MAX ==> DaysSinceDatasetStart::of(days)@ == days,
    {
    }
}

impl View for SecondsSinceTimezonedDayStart {
    type V = int;

    /// The number of seconds
    closed spec fn view(&self) -> int {
        self.seconds as int
    }
}

impl View for SecondsSinceDatasetUTCStart {
    type V = nat;

    /// The number of seconds
    closed spec fn view(&self) -> nat {
        self.seconds as nat
    }
}

impl View for DaysSinceDatasetStart {
    type V = nat;

    /// The number of days
    closed spec fn view(&self) -> nat {
        self.days as nat
    }
}

impl View for PositiveDuration {
    type V = nat;

    /// The number of seconds
    closed spec fn view(&self) -> nat {
        self.seconds as nat
    }
}

impl View for DaysIter {
    type V = (nat, nat);

    /// The next day to give and the day at which to stop
    closed spec fn view(&self) -> (nat, nat) {
        (self.next_day as nat, self.end as nat)
    }
}

impl DaysIter {
    /// The days `0..nb_of_days`
    pub(crate) fn new(nb_of_days: u16) -> (r: Self)
        ensures
            r@ == (0nat, nb_of_days as nat),
    {
        DaysIter { next_day: 0, end: nb_of_days }
    }

    /// The next day, if any is left
    pub fn next(&mut self) -> (r: Option<DaysSinceDatasetStart>)
        ensures
            old(self)@.0 < old(self)@.1 ==> r is Some && r->0@ == old(self)@.0 && final(self)@ == (
                old(self)@.0 + 1,
                old(self)@.1,
            ),
            old(self)@.0 >= old(self)@.1 ==> r is None && final(self)@ == old(self)@,
    {
        if self.next_day < self.end {
            let day = DaysSinceDatasetStart { days: self.next_day };
            self.next_day = self.next_day + 1;
            Some(day)
        } else {
            None
        }
    }
}

/// The number of seconds in `hours` hours, `minutes` minutes and `seconds` seconds
pub open spec fn hms_seconds(hours: int, minutes: int, seconds: int) -> int {
    seconds + 60 * minutes + 60 * 60 * hours
}

impl PositiveDuration {
    /// The zero duration
    pub fn zero() -> (r: Self)
        ensures
            r@ == 0,
    {
        Self { seconds: 0 }
    }

    /// The duration of `hours` hours, `minutes` minutes and `seconds` seconds
    pub fn from_hms(hours: u32, minutes: u32, seconds: u32) -> (r: PositiveDuration)
        requires
            hms_seconds(hours as int, minutes as int, seconds as int) <= u32::MAX,
        ensures
            r@ == hms_seconds(hours as int, minutes as int, seconds as int),
    {
        let total_seconds = seconds + 60 * minutes + 60 * 60 * hours;
        PositiveDuration { seconds: total_seconds }
    }

    /// The view of a duration is the number of seconds that it holds
    pub(crate) proof fn lemma_view_is_seconds(&self)
        ensures
            self@ == self.seconds,
    {
    }

    /// The number of seconds of the duration
    pub fn total_seconds(&self) -> (r: u64)
        ensures
            r == self@,
    {
        self.seconds as u64
    }
}

/// The number of seconds written in `s` as `hours:minutes:seconds`, three unsigned decimal
/// numbers with minutes and seconds below 60, when it fits in a `u32`
pub open spec fn duration_text_value(s: Seq<char>) -> Option<nat> {
    let f = split_on(s, ':');
    if f.len() != 3 {
        None
    } else {
        match (
            unsigned_value(f[0], u32::MAX as nat),
            unsigned_value(f[1], u32::MAX as nat),
            unsigned_value(f[2], u32::MAX as nat),
        ) {
            (Some(h), Some(m), Some(sec)) => if m <= 59 && sec <= 59 && hms_seconds(h as int, m as int, sec as int)
                <= u32::MAX {
                Some(hms_seconds(h as int, m as int, sec as int) as nat)
            } else {
                None
            },
            _ => None,
        }
    }
}

/// The text `s` made of three numbers separated by `:` stands for the duration they give
/// as hours, minutes and seconds, when minutes and seconds are below 60.
pub proof fn lemma_duration_text_value(s: Seq<char>, h: nat, m: nat, sec: nat)
    requires
        split_on(s, ':').len() == 3,
        unsigned_value(split_on(s, ':')[0], u32::MAX as nat) == Some(h),
        unsigned_value(split_on(s, ':')[1], u32::MAX as nat) == Some(m),
        unsigned_value(split_on(s, ':')[2], u32::MAX as nat) == Some(sec),
        m <= 59,
        sec <= 59,
        hms_seconds(h as int, m as int, sec as int) <= u32::MAX,
    ensures
        duration_text_value(s) == Some(hms_seconds(h as int, m as int, sec as int) as nat),
{
}

/// The duration written in `s` as `hours:minutes:seconds`
pub fn parse_duration(s: &str) -> (r: Option<PositiveDuration>)
    ensures
        r is Some <==> duration_text_value(s@) is Some,
        r matches Some(d) ==> d@ == duration_text_value(s@)->0,
{
    let chars = chars_of(s);
    let fields = split_chars(&chars, ':');
    proof {
        assert(fields@.map_values(|piece: Vec<char>| piece@).len() == fields@.len());
    }
    if fields.len() != 3 {
        return None;
    }
    let ghost f = split_on(s@, ':');
    proof {
        assert(fields@[0]@ == f[0]);
        assert(fields@[1]@ == f[1]);
        assert(fields@[2]@ == f[2]);
        lemma_unsigned_value_bound(f[0], u32::MAX as nat);
        lemma_unsigned_value_bound(f[1], u32::MAX as nat);
        lemma_unsigned_value_bound(f[2], u32::MAX as nat);
    }
    let hours = match parse_unsigned(&fields[0], u32::MAX) {
        Some(v) => v,
        None => return None,
    };
    let minutes = match parse_unsigned(&fields[1], u32::MAX) {
        Some(v) => v,
        None => return None,
    };
    let seconds = match parse_unsigned(&fields[2], u32::MAX) {
        Some(v) => v,
        None => return None,
    };
    assert(unsigned_value(f[0], u32::MAX as nat) == Some(hours as nat));
    assert(unsigned_value(f[1], u32::MAX as nat) == Some(minutes as nat));
    assert(unsigned_value(f[2], u32::MAX as nat) == Some(seconds as nat));
    if minutes > 59 || seconds > 59 {
        return None;
    }
    let room = u32::MAX - seconds - 60 * minutes;
    if hours > room / 3600 {
        proof {
            assert(60 * 60 * hours > room) by (nonlinear_arith)
                requires
                    hours > room / 3600,
            ;
        }
        return None;
    }
    proof {
        assert(60 * 60 * hours <= room) by (nonlinear_arith)
            requires
                hours <= room / 3600,
        ;
        assert(room == u32::MAX - seconds - 60 * minutes);
        assert(seconds + 60 * minutes + 60 * 60 * hours <= u32::MAX);
    }
    Some(PositiveDuration::from_hms(hours, minutes, seconds))
}

impl SecondsSinceTimezonedDayStart {
    /// The number of seconds since the start of the day
    pub fn seconds(&self) -> (r: i32)
        ensures
            r == self@,
    {
        self.seconds
    }

    /// The start of the day
    pub fn zero() -> (r: Self)
        ensures
            r@ == 0,
    {
        Self { seconds: 0 }
    }

    /// The latest time of a day: 48:00:00
    pub fn max() -> (r: Self)
        ensures
            r@ == MAX_SECONDS_SINCE_TIMEZONED_DAY_START,
    {
        Self { seconds: MAX_SECONDS_SINCE_TIMEZONED_DAY_START }
    }

    /// The earliest time of a day: -48:00:00
    pub fn min() -> (r: Self)
        ensures
            r@ == -MAX_SECONDS_SINCE_TIMEZONED_DAY_START,
    {
        Self { seconds: -MAX_SECONDS_SINCE_TIMEZONED_DAY_START }
    }

    /// The time `seconds` after the start of the day, when it lies between -48:00:00 and
    /// 48:00:00
    pub fn from_seconds(seconds: i32) -> (r: Option<Self>)
        ensures
            r is Some <==> -MAX_SECONDS_SINCE_TIMEZONED_DAY_START <= seconds
                <= MAX_SECONDS_SINCE_TIMEZONED_DAY_START,
            r matches Some(t) ==> t@ == seconds,
    {
        if seconds > MAX_SECONDS_SINCE_TIMEZONED_DAY_START || seconds
            < -MAX_SECONDS_SINCE_TIMEZONED_DAY_START {
            None
        } else {
            let result = Self { seconds };
            Some(result)
        }
    }

    /// The time `seconds_i64` after the start of the day, when it lies between -48:00:00
    /// and 48:00:00
    pub fn from_seconds_i64(seconds_i64: i64) -> (r: Option<Self>)
        ensures
            r is Some <==> -MAX_SECONDS_SINCE_TIMEZONED_DAY_START <= seconds_i64
                <= MAX_SECONDS_SINCE_TIMEZONED_DAY_START,
            r matches Some(t) ==> t@ == seconds_i64,
    {
        let max_i64 = MAX_SECONDS_SINCE_TIMEZONED_DAY_START as i64;
        if seconds_i64 > max_i64 || seconds_i64 < -max_i64 {
            None
        } else {
            let seconds_i32 = seconds_i64 as i32;
            let result = Self { seconds: seconds_i32 };
            Some(result)
        }
    }
}

impl SecondsSinceDatasetUTCStart {
    /// The duration from `start_datetime` to `self`, when `start_datetime` is not later
    /// than `self`
    pub fn duration_since(&self, start_datetime: &SecondsSinceDatasetUTCStart) -> (r: Option<
        PositiveDuration,
    >)
        ensures
            r is Some <==> start_datetime@ <= self@,
            r matches Some(d) ==> d@ == self@ - start_datetime@ && start_datetime@ + d@ <= u32::MAX
                && SecondsSinceDatasetUTCStart::of_seconds((start_datetime@ + d@) as int) == *self,
    {
        match self.seconds.checked_sub(start_datetime.seconds) {
            Some(seconds) => Some(PositiveDuration { seconds }),
            None => None,
        }
    }
}

impl std::ops::Add for PositiveDuration {
    type Output = Self;

    fn add(self, rhs: Self) -> (r: Self) {
        Self { seconds: self.seconds + rhs.seconds }
    }
}

impl vstd::std_specs::ops::AddSpecImpl for PositiveDuration {
    open spec fn obeys_add_spec() -> bool {
        true
    }

    open spec fn add_req(self, rhs: Self) -> bool {
        self@ + rhs@ <= u32::MAX
    }

    open spec fn add_spec(self, rhs: Self) -> Self {
        PositiveDuration::of_seconds((self@ + rhs@) as int)
    }
}

impl PositiveDuration {
    /// The duration of `seconds` seconds
    pub closed spec fn of_seconds(seconds: int) -> PositiveDuration {
        PositiveDuration { seconds: seconds as u32 }
    }

    /// A duration of a number of seconds that fits has that number of seconds.
    pub proof fn lemma_of_seconds(seconds: int)
        requires
            0 <= seconds <= u32::MAX,
        ensures
            PositiveDuration::of_seconds(seconds)@ == seconds,
    {
    }
}

impl std::ops::Add<PositiveDuration> for SecondsSinceDatasetUTCStart {
    type Output = Self;

    fn add(self, rhs: PositiveDuration) -> (r: Self) {
        Self { seconds: self.seconds + rhs.seconds }
    }
}

impl vstd::std_specs::ops::AddSpecImpl<PositiveDuration> for SecondsSinceDatasetUTCStart {
    open spec fn obeys_add_spec() -> bool {
        true
    }

    open spec fn add_req(self, rhs: PositiveDuration) -> bool {
        self@ + rhs@ <= u32::MAX
    }

    open spec fn add_spec(self, rhs: PositiveDuration) -> Self {
        SecondsSinceDatasetUTCStart::of_seconds((self@ + rhs@) as int)
    }
}

impl std::ops::Mul<u32> for PositiveDuration {
    type Output = Self;

    fn mul(self, rhs: u32) -> (r: Self) {
        Self { seconds: self.seconds * rhs }
    }
}

impl vstd::std_specs::ops::MulSpecImpl<u32> for PositiveDuration {
    open spec fn obeys_mul_spec() -> bool {
        true
    }

    open spec fn mul_req(self, rhs: u32) -> bool {
        self@ * rhs <= u32::MAX
    }

    open spec fn mul_spec(self, rhs: u32) -> Self {
        PositiveDuration::of_seconds((self@ * rhs) as int)
    }
}

impl SecondsSinceDatasetUTCStart {
    /// The time `seconds` seconds after the start of the dataset
    pub closed spec fn of_seconds(seconds: int) -> SecondsSinceDatasetUTCStart {
        SecondsSinceDatasetUTCStart { seconds: seconds as u32 }
    }

    /// A time of a number of seconds that fits is that number of seconds after the start.
    pub proof fn lemma_of_seconds(seconds: int)
        requires
            0 <= seconds <= u32::MAX,
        ensures
            SecondsSinceDatasetUTCStart::of_seconds(seconds)@ == seconds,
    {
    }

    /// A time is at most `u32::MAX` seconds after the start, and is the time of its number of
    /// seconds.
    pub proof fn lemma_view_bound(&self)
        ensures
            self@ <= u32::MAX,
            SecondsSinceDatasetUTCStart::of_seconds(self@ as int) == *self,
    {
    }
}

impl PositiveDuration {
    /// A duration is at most `u32::MAX` seconds.
    pub proof fn lemma_view_bound(&self)
        ensures
            self@ <= u32::MAX,
            PositiveDuration::of_seconds(self@ as int) == *self,
    {
    }
}

impl PositiveDuration {
    /// The duration as text: `1h02m03s`, `2m03s` or `3s`
    pub fn to_string(&self) -> (r: String)
        ensures
            r@ == duration_text(self@),
    {
        duration_to_string(self.seconds)
    }
}

impl SecondsSinceTimezonedDayStart {
    /// The time as text: `08:05:00`
    pub fn to_string(&self) -> (r: String)
        ensures
            r@ == time_of_day_text(self@ as int),
    {
        time_of_day_to_string(self.seconds as i64)
    }
}

} // verus!
