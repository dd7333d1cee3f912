use vstd::prelude::*;

use super::calendar::Calendar;
use crate::dates::{midnight_seconds, SECONDS_IN_DAY, UNIX_EPOCH_DAYS_FROM_CE};
use crate::laxatips_daily_data::time::{floor_div, local_date_at, offset_at};
use crate::text::{duration_text, duration_to_string, time_of_day_text, time_of_day_to_string};
use chrono::{DateTime, TimeZone};

verus! {

/// Seconds since the start of a day in a timezone
#[derive(Debug, Clone, Copy, PartialEq, Eq, Structural, PartialOrd, Ord)]
pub struct SecondsSinceTimezonedDayStart {
    pub(crate) seconds: u32,
}

/// Seconds since 00:00:00 UTC on the first day of the dataset
#[derive(Debug, Clone, Copy, PartialEq, Eq, Structural, PartialOrd, Ord)]
pub struct SecondsSinceDatasetUTCStart {
    pub(crate) seconds: u32,
}

/// Number of days since the first day of the dataset
#[derive(Debug, PartialEq, Eq, Structural, Clone, Copy)]
pub struct DaysSinceDatasetStart {
    pub(crate) days: u16,
}

/// A duration, in seconds, that cannot be negative
#[derive(Debug, PartialEq, Eq, Structural, Clone, Copy, PartialOrd, Ord)]
pub struct PositiveDuration {
    pub(crate) seconds: u32,
}

impl View for PositiveDuration {
    type V = nat;

    /// The number of seconds
    closed spec fn view(&self) -> nat {
        self.seconds as nat
    }
}

impl View for SecondsSinceTimezonedDayStart {
    type V = nat;

    /// The number of seconds
    closed spec fn view(&self) -> nat {
        self.seconds as nat
    }
}

impl View for SecondsSinceDatasetUTCStart {
    type V = nat;

    /// The number of seconds
    closed spec fn view(&self) -> nat {
        self.seconds as nat
    }
}

impl View for DaysSinceDatasetStart {
    type V = nat;

    /// The number of days
    closed spec fn view(&self) -> nat {
        self.days as nat
    }
}

/// The number of seconds in `hours` hours, `minutes` minutes and `seconds` seconds
pub open spec fn hms_seconds(hours: int, minutes: int, seconds: int) -> int {
    seconds + 60 * minutes + 60 * 60 * hours
}

impl PositiveDuration {
    /// The zero duration
    pub fn zero() -> (r: Self)
        ensures
            r@ == 0,
    {
        Self { seconds: 0 }
    }

    /// The duration of `hours` hours, `minutes` minutes and `seconds` seconds
    pub fn from_hms(hours: u32, minutes: u32, seconds: u32) -> (r: PositiveDuration)
        requires
            hms_seconds(hours as int, minutes as int, seconds as int) <= u32::MAX,
        ensures
            r@ == hms_seconds(hours as int, minutes as int, seconds as int),
    {
        let total_seconds = seconds + 60 * minutes + 60 * 60 * hours;
        PositiveDuration { seconds: total_seconds }
    }

    /// The number of seconds of the duration
    pub fn total_seconds(&self) -> (r: u64)
        ensures
            r == self@,
    {
        self.seconds as u64
    }
}

impl DaysSinceDatasetStart {
    /// The day `days` days after the first day of the dataset
    pub(crate) fn from_days(days: u16) -> (r: Self)
        ensures
            r@ == days,
        no_unwind
    {
        Self { days }
    }

    /// The number of days since the first day of the dataset
    pub(crate) fn days(&self) -> (r: u16)
        ensures
            r == self@,
    {
        self.days
    }
}

impl SecondsSinceTimezonedDayStart {
    /// The number of seconds since the start of the day
    pub(crate) fn seconds(&self) -> (r: u32)
        ensures
            r == self@,
    {
        self.seconds
    }

    /// The start of the day
    pub fn zero() -> (r: Self)
        ensures
            r@ == 0,
    {
        Self { seconds: 0 }
    }
}

/// The earliest instant, in seconds since 1970-01-01 00:00:00 UTC, at which the clocks of
/// the timezone named `timezone` show `local_seconds` (seconds since 1970-01-01 00:00:00 on
/// those clocks), when there is one
pub uninterp spec fn timezone_local_to_utc_earliest(timezone: Seq<char>, local_seconds: int) -> Option<i64>;

/// The earliest instant at which the clocks of a timezone show a local datetime.
///
/// Calls `chrono_tz::Tz::from_local_datetime` on the timezone parsed from its name and on
/// the local datetime (`chrono::DateTime::from_timestamp`), and keeps the earliest instant
/// (`MappedLocalTime::earliest`): none when the local datetime is skipped by the timezone.
/// Which instant it is comes from the timezone database and is not stated.
#[verifier::external_body]
fn local_to_utc_earliest(timezone: &str, local_seconds: i64) -> (r: Option<i64>)
    ensures
        r == timezone_local_to_utc_earliest(timezone@, local_seconds as int),
{
    let tz: chrono_tz::Tz = timezone.parse().ok()?;
    let local = DateTime::from_timestamp(local_seconds, 0)?.naive_utc();
    Some(tz.from_local_datetime(&local).earliest()?.timestamp())
}

/// The decomposition of `seconds` since midnight on the first date of `calendar` as a day
/// and a time in that day in `timezone`: the day `nb_of_days_to_offset` days before the
/// local date of the instant, when it is a day of the calendar, and the time since the
/// earliest instant of its local midnight, when it fits in a `u32`
pub open spec fn decomposition_with_days_offset(
    seconds: SecondsSinceDatasetUTCStart,
    nb_of_days_to_offset: u16,
    calendar: Calendar,
    timezone: Seq<char>,
) -> Option<(nat, nat)> {
    let instant = midnight_seconds(calendar.first()) + seconds@;
    match local_date_at(timezone, instant) {
        None => None,
        Some(date) => {
            let reference_date = date - nb_of_days_to_offset;
            let reference_midnight = (reference_date - UNIX_EPOCH_DAYS_FROM_CE) * SECONDS_IN_DAY;
            match timezone_local_to_utc_earliest(timezone, reference_midnight) {
                None => None,
                Some(start) => {
                    let s = instant - start;
                    if calendar.first().days_from_ce <= reference_date <= calendar.last().days_from_ce
                        && 0 <= s <= u32::MAX {
                        Some(((reference_date - calendar.first().days_from_ce) as nat, s as nat))
                    } else {
                        None
                    }
                },
            }
        },
    }
}

impl SecondsSinceDatasetUTCStart {
    /// The start of the dataset
    pub fn zero() -> (r: Self)
        ensures
            r@ == 0,
    {
        Self { seconds: 0 }
    }

    /// The decomposition of this time as a day of `calendar` and a time in that day in
    /// `timezone`, when there is one
    pub fn decompose(&self, calendar: &Calendar, timezone: &str) -> (r: (DaysSinceDatasetStart, SecondsSinceTimezonedDayStart))
        requires
            calendar.wf(),
            decomposition_with_days_offset(*self, 0, *calendar, timezone@) is Some,
        ensures
            (r.0@, r.1@) == decomposition_with_days_offset(*self, 0, *calendar, timezone@)->0,
    {
        self.decompose_with_days_offset(0, calendar, timezone).unwrap()
    }

    /// The decomposition of this time as a day of `calendar` and a time in that day in
    /// `timezone`, taking the day `nb_of_days_to_offset` days before the local date of the
    /// instant, when there is one
    pub fn decompose_with_days_offset(
        &self,
        nb_of_days_to_offset: u16,
        calendar: &Calendar,
        timezone: &str,
    ) -> (r: Option<(DaysSinceDatasetStart, SecondsSinceTimezonedDayStart)>)
        requires
            calendar.wf(),
        ensures
            r is Some <==> decomposition_with_days_offset(*self, nb_of_days_to_offset, *calendar, timezone@) is Some,
            r matches Some(p) ==> (p.0@, p.1@) == decomposition_with_days_offset(
                *self,
                nb_of_days_to_offset,
                *calendar,
                timezone@,
            )->0,
    {
        let instant: i64 = calendar.to_naive_datetime(self);
        proof {
            let fd = calendar.first().days_from_ce as int;
            assert(-281474976710656 < (fd - 719163) * 86400 < 281474976710656 - 8589934592) by (nonlinear_arith)
                requires
                    -2147483648 <= fd <= 2147483647,
            ;
        }
        let offset = match offset_at(timezone, instant) {
            Some(offset) => offset,
            None => {
                return None;
            },
        };
        let local_day: i64 = floor_div(instant + offset, SECONDS_IN_DAY);
        proof {
            let n = instant + offset;
            assert(-1099511627776 < n / 86400 < 1099511627776 - 1073741824) by (nonlinear_arith)
                requires
                    -562949953421312 < n < 562949953421312,
            ;
        }
        let reference_date: i64 = local_day + UNIX_EPOCH_DAYS_FROM_CE as i64 - nb_of_days_to_offset as i64;
        let days = reference_date - UNIX_EPOCH_DAYS_FROM_CE as i64;
        assert(-2199023255552 * 86400 < days * 86400 < 2199023255552 * 86400) by (nonlinear_arith)
            requires
                -2199023255552 < days < 2199023255552,
        ;
        let reference_midnight: i64 = days * SECONDS_IN_DAY;
        let start = match local_to_utc_earliest(timezone, reference_midnight) {
            Some(start) => start,
            None => {
                return None;
            },
        };
        let first_day: i64 = calendar.first_date().days_from_ce as i64;
        let last_day: i64 = calendar.last_date().days_from_ce as i64;
        if reference_date < first_day || reference_date > last_day {
            return None;
        }
        let seconds_i64 = match instant.checked_sub(start) {
            Some(s) => s,
            None => {
                return None;
            },
        };
        if seconds_i64 < 0 || seconds_i64 > u32::MAX as i64 {
            return None;
        }
        let day = DaysSinceDatasetStart { days: (reference_date - first_day) as u16 };
        let seconds = SecondsSinceTimezonedDayStart { seconds: seconds_i64 as u32 };
        Some((day, seconds))
    }

    /// The number of seconds since the start of the dataset
    pub(crate) fn seconds(&self) -> (r: u32)
        ensures
            r == self@,
    {
        self.seconds
    }

    /// The duration from `start_datetime` to `self`, when `start_datetime` is not later
    /// than `self`
    pub fn duration_since(&self, start_datetime: &SecondsSinceDatasetUTCStart) -> (r: Option<
        PositiveDuration,
    >)
        ensures
            r is Some <==> start_datetime@ <= self@,
            r matches Some(d) ==> d@ == self@ - start_datetime@,
    {
        match self.seconds.checked_sub(start_datetime.seconds) {
            Some(seconds) => Some(PositiveDuration { seconds }),
            None => None,
        }
    }
}

impl std::ops::Add for PositiveDuration {
    type Output = Self;

    fn add(self, rhs: Self) -> (r: Self) {
        Self { seconds: self.seconds + rhs.seconds }
    }
}

impl vstd::std_specs::ops::AddSpecImpl for PositiveDuration {
    open spec fn obeys_add_spec() -> bool {
        true
    }

    open spec fn add_req(self, rhs: Self) -> bool {
        self@ + rhs@ <= u32::MAX
    }

    open spec fn add_spec(self, rhs: Self) -> Self {
        PositiveDuration::of_seconds((self@ + rhs@) as int)
    }
}

impl PositiveDuration {
    /// The duration of `seconds` seconds
    pub closed spec fn of_seconds(seconds: int) -> PositiveDuration {
        PositiveDuration { seconds: seconds as u32 }
    }

    /// A duration of a number of seconds that fits has that number of seconds.
    pub proof fn lemma_of_seconds(seconds: int)
        requires
            0 <= seconds <= u32::MAX,
        ensures
            PositiveDuration::of_seconds(seconds)@ == seconds,
    {
    }
}

impl std::ops::Add<PositiveDuration> for SecondsSinceDatasetUTCStart {
    type Output = Self;

    fn add(self, rhs: PositiveDuration) -> (r: Self) {
        Self { seconds: self.seconds + rhs.seconds }
    }
}

impl vstd::std_specs::ops::AddSpecImpl<PositiveDuration> for SecondsSinceDatasetUTCStart {
    open spec fn obeys_add_spec() -> bool {
        true
    }

    open spec fn add_req(self, rhs: PositiveDuration) -> bool {
        self@ + rhs@ <= u32::MAX
    }

    open spec fn add_spec(self, rhs: PositiveDuration) -> Self {
        SecondsSinceDatasetUTCStart::of_seconds((self@ + rhs@) as int)
    }
}

impl std::ops::Mul<u32> for PositiveDuration {
    type Output = Self;

    fn mul(self, rhs: u32) -> (r: Self) {
        Self { seconds: self.seconds * rhs }
    }
}

impl vstd::std_specs::ops::MulSpecImpl<u32> for PositiveDuration {
    open spec fn obeys_mul_spec() -> bool {
        true
    }

    open spec fn mul_req(self, rhs: u32) -> bool {
        self@ * rhs <= u32::MAX
    }

    open spec fn mul_spec(self, rhs: u32) -> Self {
        PositiveDuration::of_seconds((self@ * rhs) as int)
    }
}

impl SecondsSinceDatasetUTCStart {
    /// The time `seconds` seconds after the start of the dataset
    pub closed spec fn of_seconds(seconds: int) -> SecondsSinceDatasetUTCStart {
        SecondsSinceDatasetUTCStart { seconds: seconds as u32 }
    }

    /// A time of a number of seconds that fits is that number of seconds after the start.
    pub proof fn lemma_of_seconds(seconds: int)
        requires
            0 <= seconds <= u32::MAX,
        ensures
            SecondsSinceDatasetUTCStart::of_seconds(seconds)@ == seconds,
    {
    }
}

impl PositiveDuration {
    /// The duration as text: `1h02m03s`, `2m03s` or `3s`
    pub fn to_string(&self) -> (r: String)
        ensures
            r@ == duration_text(self@),
    {
        duration_to_string(self.seconds)
    }
}

impl SecondsSinceTimezonedDayStart {
    /// The time as text: `08:05:00`
    pub fn to_string(&self) -> (r: String)
        ensures
            r@ == time_of_day_text(self@ as int),
    {
        time_of_day_to_string(self.seconds as i64)
    }
}

} // verus!
