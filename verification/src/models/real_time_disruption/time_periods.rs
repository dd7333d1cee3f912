use vstd::prelude::*;

use crate::dates::{Date, SECONDS_IN_DAY, UNIX_EPOCH_DAYS_FROM_CE};
use crate::laxatips_daily_data::time::floor_div;

verus! {

/// The latest time, in seconds after the start of a UTC day, of a stop time of a vehicle
/// journey of that day: the 48 hours of a day of stop times and a day of timezone offset
pub const MAX_SECONDS_IN_UTC_DAY: u32 = 259200;

/// The day number of the first date that a datetime can have (January 1 of the year -262143)
pub const MIN_DATE_DAYS: i32 = -95746129;

/// The day number of the last date that a datetime can have (December 31 of the year 262142)
pub const MAX_DATE_DAYS: i32 = 95745399;

/// The day number of the date of the datetime `seconds` seconds after 1970-01-01 00:00:00
pub open spec fn date_days_of(seconds: int) -> int {
    seconds / (SECONDS_IN_DAY as int) + UNIX_EPOCH_DAYS_FROM_CE
}

/// `seconds` seconds after 1970-01-01 00:00:00 is a datetime: its date is one of those
/// from `MIN_DATE_DAYS` to `MAX_DATE_DAYS`.
pub open spec fn is_datetime(seconds: int) -> bool {
    MIN_DATE_DAYS <= date_days_of(seconds) <= MAX_DATE_DAYS
}

/// The date of the datetime `seconds` seconds after 1970-01-01 00:00:00
fn date_of(seconds: i64) -> (r: Date)
    requires
        is_datetime(seconds as int),
    ensures
        r.days_from_ce == date_days_of(seconds as int),
{
    let days = floor_div(seconds, SECONDS_IN_DAY);
    Date { days_from_ce: (days + UNIX_EPOCH_DAYS_FROM_CE as i64) as i32 }
}

/// A half open interval of datetimes, in seconds after 1970-01-01 00:00:00: an instant `t`
/// is in it when `start <= t < end`
#[derive(Debug, Clone, Copy)]
pub struct TimePeriod {
    start: i64,
    end: i64,
}

/// Why a time period cannot be made: its start is not before its end
#[derive(Debug, Clone, Copy, PartialEq, Eq, Structural)]
pub enum TimePeriodError {
    StartAfterEnd(i64, i64),
}

/// The dates from a first one to `last_date`, both included, as long as they are dates
pub struct DateIter {
    has_current_date: Option<Date>,
    last_date: Date,
}

impl TimePeriod {
    /// The start and the end of the period
    pub closed spec fn view(&self) -> (int, int) {
        (self.start as int, self.end as int)
    }

    /// The start of the period is before its end.
    #[verifier::type_invariant]
    spec fn starts_before_end(&self) -> bool {
        self.start < self.end
    }

    /// The period from `start` to `end`; an error when `start` is not before `end`
    pub fn new(start: i64, end: i64) -> (r: Result<TimePeriod, TimePeriodError>)
        ensures
            r is Ok <==> start < end,
            r matches Ok(period) ==> period@ == (start as int, end as int),
            r matches Err(e) ==> e == TimePeriodError::StartAfterEnd(start, end),
    {
        if start < end {
            Ok(TimePeriod { start, end })
        } else {
            Err(TimePeriodError::StartAfterEnd(start, end))
        }
    }

    /// The start of the period, which is before its end
    pub fn start(&self) -> (r: i64)
        ensures
            r == self@.0,
            r < self@.1,
    {
        proof {
            use_type_invariant(self);
        }
        self.start
    }

    /// The end of the period
    pub fn end(&self) -> (r: i64)
        ensures
            r == self@.1,
    {
        self.end
    }

    /// `true` when `t` is in the period
    pub fn contains(&self, t: &i64) -> (r: bool)
        ensures
            r == (self@.0 <= *t < self@.1),
    {
        self.start <= *t && *t < self.end
    }

    /// `true` when the period and `other` have an instant in common: one starts in the other
    pub fn intersects(&self, other: &Self) -> (r: bool)
        ensures
            r == ((self@.0 <= other@.0 < self@.1) || (other@.0 <= self@.0 < other@.1)),
    {
        self.contains(&other.start) || other.contains(&self.start)
    }

    /// The dates on which a vehicle journey can have a stop time in the period: from the
    /// date of `MAX_SECONDS_IN_UTC_DAY` before the start to the date of
    /// `MAX_SECONDS_IN_UTC_DAY` after the end
    pub fn dates_possibly_concerned(&self) -> (r: DateIter)
        requires
            is_datetime(self@.0 - MAX_SECONDS_IN_UTC_DAY),
            is_datetime(self@.1 + MAX_SECONDS_IN_UTC_DAY),
        ensures
            r@ == dates_from(
                date_days_of(self@.0 - MAX_SECONDS_IN_UTC_DAY),
                date_days_of(self@.1 + MAX_SECONDS_IN_UTC_DAY),
            ),
    {
        let offset = MAX_SECONDS_IN_UTC_DAY as i64;
        let first_date = date_of(self.start - offset);
        let last_date = date_of(self.end + offset);
        DateIter::new(first_date, last_date)
    }
}

/// The state of an iteration over the dates from `first` to `last`: the next date, unless
/// there is none, and the last date
pub open spec fn dates_from(first: int, last: int) -> (Option<int>, int) {
    if first <= last {
        (Some(first), last)
    } else {
        (None, last)
    }
}

impl DateIter {
    /// The next date, unless there is none, and the last date
    pub closed spec fn view(&self) -> (Option<int>, int) {
        (
            match self.has_current_date {
                Some(date) => Some(date.days_from_ce as int),
                None => None,
            },
            self.last_date.days_from_ce as int,
        )
    }

    /// The dates from `first_date` to `last_date`, both included
    pub fn new(first_date: Date, last_date: Date) -> (r: Self)
        ensures
            r@ == dates_from(first_date.days_from_ce as int, last_date.days_from_ce as int),
    {
        if first_date.days_from_ce <= last_date.days_from_ce {
            Self { has_current_date: Some(first_date), last_date }
        } else {
            Self { has_current_date: None, last_date }
        }
    }

    /// The next date, when it is not after the last date; the one after it comes next,
    /// unless it is the last date that a datetime can have
    pub fn next(&mut self) -> (r: Option<Date>)
        ensures
            final(self)@.1 == old(self)@.1,
            match old(self)@.0 {
                Some(current) => if current <= old(self)@.1 {
                    &&& r == Some(Date { days_from_ce: current as i32 })
                    &&& final(self)@.0 == if current < MAX_DATE_DAYS {
                        Some(current + 1)
                    } else {
                        None::<int>
                    }
                } else {
                    r is None && final(self)@.0 is None
                },
                None => r is None && final(self)@.0 is None,
            },
    {
        match self.has_current_date {
            None => None,
            Some(current_date) => {
                if current_date.days_from_ce <= self.last_date.days_from_ce {
                    self.has_current_date = if current_date.days_from_ce < MAX_DATE_DAYS {
                        Some(Date { days_from_ce: current_date.days_from_ce + 1 })
                    } else {
                        None
                    };
                    Some(current_date)
                } else {
                    self.has_current_date = None;
                    None
                }
            },
        }
    }
}

/// A non-empty set of time periods
pub struct TimePeriods<'a> {
    periods: &'a [TimePeriod],
}

impl<'a> TimePeriods<'a> {
    /// The periods
    pub closed spec fn view(&self) -> Seq<TimePeriod> {
        self.periods@
    }

    /// There is at least one period.
    #[verifier::type_invariant]
    spec fn not_empty(&self) -> bool {
        self.periods@.len() > 0
    }

    /// The set of the periods `periods`, when there is at least one
    pub fn new(periods: &'a [TimePeriod]) -> (r: Option<Self>)
        ensures
            r is Some <==> periods@.len() > 0,
            r matches Some(set) ==> set@ == periods@,
    {
        if periods.len() == 0 {
            None
        } else {
            Some(Self { periods })
        }
    }

    /// `true` when one of the periods contains `t`
    pub fn contains(&self, t: &i64) -> (r: bool)
        ensures
            r == exists|i: int| 0 <= i < self@.len() && (#[trigger] self@[i])@.0 <= *t < self@[i]@.1,
    {
        let mut i: usize = 0;
        while i < self.periods.len()
            invariant
                i <= self@.len(),
                forall|j: int| 0 <= j < i ==> !((#[trigger] self@[j])@.0 <= *t < self@[j]@.1),
            decreases self@.len() - i,
        {
            if self.periods[i].contains(t) {
                return true;
            }
            i += 1;
        }
        false
    }

    /// `true` when one of the periods intersects `other`
    pub fn intersects(&self, other: &TimePeriod) -> (r: bool)
        ensures
            r == exists|i: int|
                0 <= i < self@.len() && (((#[trigger] self@[i])@.0 <= other@.0 < self@[i]@.1) || (other@.0
                    <= self@[i]@.0 < other@.1)),
    {
        let mut i: usize = 0;
        while i < self.periods.len()
            invariant
                i <= self@.len(),
                forall|j: int|
                    0 <= j < i ==> !(((#[trigger] self@[j])@.0 <= other@.0 < self@[j]@.1) || (other@.0
                        <= self@[j]@.0 < other@.1)),
            decreases self@.len() - i,
        {
            if self.periods[i].intersects(other) {
                return true;
            }
            i += 1;
        }
        false
    }

    /// The dates on which a vehicle journey can have a stop time in one of the periods: from
    /// the date of `MAX_SECONDS_IN_UTC_DAY` before their earliest start to the date of
    /// `MAX_SECONDS_IN_UTC_DAY` after their latest end
    pub fn dates_possibly_concerned(&self) -> (r: DateIter)
        requires
            is_datetime(earliest_start_of(self@) - MAX_SECONDS_IN_UTC_DAY),
            is_datetime(latest_end_of(self@) + MAX_SECONDS_IN_UTC_DAY),
        ensures
            r@ == dates_from(
                date_days_of(earliest_start_of(self@) - MAX_SECONDS_IN_UTC_DAY),
                date_days_of(latest_end_of(self@) + MAX_SECONDS_IN_UTC_DAY),
            ),
    {
        proof {
            use_type_invariant(self);
        }
        let mut earliest = self.periods[0].start;
        let mut latest = self.periods[0].end;
        let mut i: usize = 1;
        while i < self.periods.len()
            invariant
                1 <= i <= self@.len(),
                earliest == earliest_start_of(self@.take(i as int)),
                latest == latest_end_of(self@.take(i as int)),
            decreases self@.len() - i,
        {
            proof {
                assert(self@.take(i + 1).drop_last() =~= self@.take(i as int));
            }
            if self.periods[i].start < earliest {
                earliest = self.periods[i].start;
            }
            if self.periods[i].end > latest {
                latest = self.periods[i].end;
            }
            i += 1;
        }
        assert(self@.take(i as int) =~= self@);
        let offset = MAX_SECONDS_IN_UTC_DAY as i64;
        let first_date = date_of(earliest - offset);
        let last_date = date_of(latest + offset);
        DateIter::new(first_date, last_date)
    }
}

/// The earliest start of the periods `periods`
pub open spec fn earliest_start_of(periods: Seq<TimePeriod>) -> int
    decreases periods.len(),
{
    if periods.len() <= 1 {
        periods[0]@.0
    } else {
        let before = earliest_start_of(periods.drop_last());
        if periods.last()@.0 < before {
            periods.last()@.0
        } else {
            before
        }
    }
}

/// The latest end of the periods `periods`
pub open spec fn latest_end_of(periods: Seq<TimePeriod>) -> int
    decreases periods.len(),
{
    if periods.len() <= 1 {
        periods[0]@.1
    } else {
        let before = latest_end_of(periods.drop_last());
        if periods.last()@.1 > before {
            periods.last()@.1
        } else {
            before
        }
    }
}

/// The period of the instants of both `lhs` and `rhs`, when there is one
pub fn intersection(lhs: &TimePeriod, rhs: &TimePeriod) -> (r: Option<TimePeriod>)
    ensures
        ({
            let start = if lhs@.0 >= rhs@.0 {
                lhs@.0
            } else {
                rhs@.0
            };
            let end = if lhs@.1 <= rhs@.1 {
                lhs@.1
            } else {
                rhs@.1
            };
            &&& r is Some <==> start < end
            &&& r matches Some(period) ==> period@ == (start, end)
        }),
{
    let start = if lhs.start >= rhs.start {
        lhs.start
    } else {
        rhs.start
    };
    let end = if lhs.end <= rhs.end {
        lhs.end
    } else {
        rhs.end
    };
    match TimePeriod::new(start, end) {
        Ok(period) => Some(period),
        Err(_) => None,
    }
}

} // verus!
