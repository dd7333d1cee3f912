use vstd::prelude::*;

use super::time::{DaysSinceDatasetStart, SecondsSinceDatasetUTCStart};
use crate::dates::{datetime_format_text, format_datetime, midnight_seconds, Date};
use crate::models::real_time_disruption::time_periods::is_datetime;

verus! {

/// The days that the data covers, from a first date to a last date included
pub struct Calendar {
    first_date: Date,
    last_date: Date,
    nb_of_days: u16,
}

/// The days of a calendar, from the first one on
pub struct DaysIter {
    next_day: u16,
    end: u16,
}

impl View for DaysIter {
    type V = (nat, nat);

    /// The next day to give and the day at which to stop
    closed spec fn view(&self) -> (nat, nat) {
        (self.next_day as nat, self.end as nat)
    }
}

impl DaysIter {
    /// The next day, if any is left
    pub fn next(&mut self) -> (r: Option<DaysSinceDatasetStart>)
        ensures
            old(self)@.0 < old(self)@.1 ==> r is Some && r->0@ == old(self)@.0,
            old(self)@.0 < old(self)@.1 ==> final(self)@ == (old(self)@.0 + 1, old(self)@.1),
            old(self)@.0 >= old(self)@.1 ==> r is None && final(self)@ == old(self)@,
        no_unwind
    {
        if self.next_day < self.end {
            let day = DaysSinceDatasetStart::from_days(self.next_day);
            self.next_day = self.next_day + 1;
            Some(day)
        } else {
            None
        }
    }
}

impl Calendar {
    /// The first date
    pub closed spec fn first(&self) -> Date {
        self.first_date
    }

    /// The last date
    pub closed spec fn last(&self) -> Date {
        self.last_date
    }

    /// The number of days from the first date to the last one, both included
    pub closed spec fn days_count(&self) -> nat {
        self.nb_of_days as nat
    }

    /// The dates are ordered and the number of days is theirs.
    pub closed spec fn wf(&self) -> bool {
        &&& self.first_date.days_from_ce <= self.last_date.days_from_ce
        &&& self.nb_of_days == self.last_date.days_from_ce - self.first_date.days_from_ce + 1
    }

    /// The calendar of the days from `first_date` to `last_date`, both included
    pub fn new(first_date: Date, last_date: Date) -> (r: Self)
        requires
            first_date.days_from_ce <= last_date.days_from_ce,
            last_date.days_from_ce - first_date.days_from_ce + 1 <= u16::MAX,
        ensures
            r.wf(),
            r.first() == first_date,
            r.last() == last_date,
            r.days_count() == last_date.days_from_ce - first_date.days_from_ce + 1,
    {
        let nb_of_days_i64: i64 = last_date.days_from_ce as i64 - first_date.days_from_ce as i64 + 1;
        let nb_of_days: u16 = nb_of_days_i64 as u16;
        Self { first_date, last_date, nb_of_days }
    }

    /// The number of days of the calendar
    pub fn nb_of_days(&self) -> (r: u16)
        ensures
            r == self.days_count(),
    {
        self.nb_of_days
    }

    /// The days of the calendar, from the first one on
    pub fn days(&self) -> (r: DaysIter)
        ensures
            r@ == (0nat, self.days_count()),
    {
        DaysIter { next_day: 0, end: self.nb_of_days }
    }

    /// The first date
    pub(crate) fn first_date(&self) -> (r: &Date)
        ensures
            *r == self.first(),
    {
        &self.first_date
    }

    /// The last date
    pub(crate) fn last_date(&self) -> (r: &Date)
        ensures
            *r == self.last(),
    {
        &self.last_date
    }

    /// The date of `day`
    pub fn to_naive_date(&self, day: &DaysSinceDatasetStart) -> (r: Date)
        requires
            self.first().days_from_ce + day@ <= i32::MAX,
        ensures
            r.days_from_ce == self.first().days_from_ce + day@,
    {
        Date { days_from_ce: self.first_date.days_from_ce + day.days() as i32 }
    }

    /// The datetime that is `seconds` after midnight on the first date, as text:
    /// `%Y%m%dT%H%M%S`
    pub fn to_string(&self, seconds: &SecondsSinceDatasetUTCStart) -> (r: String)
        requires
            is_datetime(midnight_seconds(self.first()) + seconds@),
        ensures
            r@ == datetime_format_text(midnight_seconds(self.first()) + seconds@, "%Y%m%dT%H%M%S"@),
    {
        let datetime = self.to_naive_datetime(seconds);
        format_datetime(datetime, "%Y%m%dT%H%M%S").unwrap()
    }

    /// The datetime that is `seconds` after midnight on the first date, as text:
    /// `%H:%M:%S %d-%b-%y`
    pub fn to_pretty_string(&self, seconds: &SecondsSinceDatasetUTCStart) -> (r: String)
        requires
            is_datetime(midnight_seconds(self.first()) + seconds@),
        ensures
            r@ == datetime_format_text(midnight_seconds(self.first()) + seconds@, "%H:%M:%S %d-%b-%y"@),
    {
        let datetime = self.to_naive_datetime(seconds);
        format_datetime(datetime, "%H:%M:%S %d-%b-%y").unwrap()
    }

    /// The datetime, in seconds since 1970-01-01 00:00:00, that is `seconds` after midnight
    /// on the first date
    pub fn to_naive_datetime(&self, seconds: &SecondsSinceDatasetUTCStart) -> (r: i64)
        ensures
            r == midnight_seconds(self.first()) + seconds@,
    {
        let midnight = self.first_date.midnight();
        let ghost d: int = self.first_date.days_from_ce as int;
        assert(midnight <= 2147483647 * 86400) by (nonlinear_arith)
            requires
                midnight == (d - 719163) * 86400,
                d <= 2147483647,
        ;
        midnight + seconds.seconds() as i64
    }

    /// `true` when `date` is a date of the calendar
    pub fn contains(&self, date: &Date) -> (r: bool)
        ensures
            r == (self.first().days_from_ce <= date.days_from_ce <= self.last().days_from_ce),
    {
        self.first_date.days_from_ce <= date.days_from_ce && date.days_from_ce
            <= self.last_date.days_from_ce
    }

    /// The day of `date`, when it is a date of the calendar
    pub fn date_to_days_since_start(&self, date: &Date) -> (r: Option<DaysSinceDatasetStart>)
        requires
            self.wf(),
        ensures
            r is Some <==> self.first().days_from_ce <= date.days_from_ce <= self.last().days_from_ce,
            r matches Some(day) ==> day@ == date.days_from_ce - self.first().days_from_ce,
    {
        match self.date_to_offset(date) {
            Some(offset) => Some(DaysSinceDatasetStart::from_days(offset)),
            None => None,
        }
    }

    /// The number of days from the first date to `date`, when it is a date of the calendar
    pub(crate) fn date_to_offset(&self, date: &Date) -> (r: Option<u16>)
        requires
            self.wf(),
        ensures
            r is Some <==> self.first().days_from_ce <= date.days_from_ce <= self.last().days_from_ce,
            r matches Some(offset) ==> offset == date.days_from_ce - self.first().days_from_ce,
    {
        if date.days_from_ce < self.first_date.days_from_ce || date.days_from_ce
            > self.last_date.days_from_ce {
            None
        } else {
            let offset_64: i64 = date.days_from_ce as i64 - self.first_date.days_from_ce as i64;
            let offset = offset_64 as u16;
            Some(offset)
        }
    }
}

} // verus!
