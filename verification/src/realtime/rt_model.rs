use vstd::prelude::*;

verus! {

/// The effect of a disruption
#[derive(Debug, Clone, Copy, PartialEq, Eq, Structural)]
pub enum SeverityEffect {
    NoService,
    ReducedService,
    SignificantDelay,
    Detour,
    AdditionalService,
    ModifiedService,
    OtherEffect,
    UnknownEffect,
    StopMoved,
}

/// The identifiers of an update
#[derive(Debug)]
pub struct UpdateInfo {
    pub disruption_id: String,
    pub id: String,
}

/// A deletion: the disruption, the object deleted, its effect and when it applies
#[derive(Debug)]
pub struct DeleteInfo {
    pub disruption_id: String,
    pub pt_object_id: String,
    pub severity_effect: SeverityEffect,
    pub application_periods: Vec<DateTimePeriod>,
}

/// A deletion or an update
#[derive(Debug)]
pub enum UpdateType {
    Delete(DeleteInfo),
    Update(UpdateInfo),
}

/// An update of the real-time data, by the kind of object it concerns
#[derive(Debug)]
pub enum RealTimeUpdate {
    VehicleUpdate(UpdateType),
    RouteUpdate(UpdateType),
    LineUpdate(UpdateType),
    NetworkUpdate(UpdateType),
    LineSectionUpdate(UpdateType),
    RailSectionUpdate(UpdateType),
}

/// A period between two datetimes, each given in seconds since 1970-01-01 00:00:00
#[derive(Debug, Clone, Copy, PartialEq, Eq, Structural)]
pub struct DateTimePeriod {
    pub start: i64,
    pub end: i64,
}

/// The number of seconds in a day
pub const SECONDS_IN_A_DAY: i64 = 86400;

/// The smaller of `a` and `b`
pub open spec fn spec_min(a: i64, b: i64) -> i64 {
    if a <= b {
        a
    } else {
        b
    }
}

/// The larger of `a` and `b`
pub open spec fn spec_max(a: i64, b: i64) -> i64 {
    if a >= b {
        a
    } else {
        b
    }
}

/// `input`, raised to `min_input` when below it, then lowered to `max_input` when above it
pub open spec fn clamped(input: i64, min_input: i64, max_input: i64) -> i64 {
    let raised = if input >= min_input {
        input
    } else {
        min_input
    };
    if raised <= max_input {
        raised
    } else {
        max_input
    }
}

/// The period shared by both: from the later of the two starts to the earlier of the two
/// ends, when it is not empty
pub fn intersection(lhs: &DateTimePeriod, rhs: &DateTimePeriod) -> (r: Option<DateTimePeriod>)
    ensures
        spec_max(lhs.start, rhs.start) < spec_min(lhs.end, rhs.end) ==> r == Some(
            DateTimePeriod { start: spec_max(lhs.start, rhs.start), end: spec_min(lhs.end, rhs.end) },
        ),
        spec_max(lhs.start, rhs.start) >= spec_min(lhs.end, rhs.end) ==> r is None,
{
    let start = if lhs.start >= rhs.start {
        lhs.start
    } else {
        rhs.start
    };
    let end = if lhs.end <= rhs.end {
        lhs.end
    } else {
        rhs.end
    };
    if start < end {
        Some(DateTimePeriod { start, end })
    } else {
        None
    }
}

/// `input`, raised to `min_input` when below it, then lowered to `max_input` when above it
pub fn clamp(input: i64, min_input: i64, max_input: i64) -> (r: i64)
    ensures
        r == clamped(input, min_input, max_input),
{
    let raised = if input >= min_input {
        input
    } else {
        min_input
    };
    if raised <= max_input {
        raised
    } else {
        max_input
    }
}

/// `input` with its start and its end clamped to `clamper`, when the start stays before or
/// at the end
pub fn clamp_date(input: &DateTimePeriod, clamper: &DateTimePeriod) -> (r: Option<DateTimePeriod>)
    ensures
        ({
            let start = clamped(input.start, clamper.start, clamper.end);
            let end = clamped(input.end, clamper.start, clamper.end);
            &&& start <= end ==> r == Some(DateTimePeriod { start, end })
            &&& start > end ==> r is None
        }),
{
    let start = clamp(input.start, clamper.start, clamper.end);
    let end = clamp(input.end, clamper.start, clamper.end);
    if start <= end {
        Some(DateTimePeriod { start, end })
    } else {
        None
    }
}

/// Clamping to a non-empty range gives a value in that range, and leaves a value of that
/// range unchanged.
pub proof fn lemma_clamped_in_range(input: i64, min_input: i64, max_input: i64)
    requires
        min_input <= max_input,
    ensures
        min_input <= clamped(input, min_input, max_input) <= max_input,
        min_input <= input <= max_input ==> clamped(input, min_input, max_input) == input,
{
}

/// Clamping a period to a non-empty period gives a period inside the clamping one, and
/// always succeeds when the period clamped is not reversed.
pub proof fn lemma_clamp_date_inside(input: DateTimePeriod, clamper: DateTimePeriod)
    requires
        clamper.start <= clamper.end,
        input.start <= input.end,
    ensures
        clamped(input.start, clamper.start, clamper.end) <= clamped(input.end, clamper.start, clamper.end),
        clamper.start <= clamped(input.start, clamper.start, clamper.end),
        clamped(input.end, clamper.start, clamper.end) <= clamper.end,
{
}

/// The days of a period: the datetimes from its start, a day apart, up to its end
pub struct DateTimePeriodIterator {
    period: DateTimePeriod,
    current: i64,
}

impl DateTimePeriodIterator {
    /// The period and the next datetime to give
    pub closed spec fn view(&self) -> (DateTimePeriod, i64) {
        (self.period, self.current)
    }

    /// The days of `period`, from its start
    pub fn new(period: &DateTimePeriod) -> (r: Self)
        ensures
            r.view() == (*period, period.start),
    {
        DateTimePeriodIterator { period: *period, current: period.start }
    }

    /// The next datetime, when it is not after the end of the period
    pub fn next(&mut self) -> (r: Option<i64>)
        requires
            old(self).view().1 <= old(self).view().0.end ==> old(self).view().1 + SECONDS_IN_A_DAY
                <= i64::MAX,
        ensures
            old(self).view().1 <= old(self).view().0.end ==> r == Some(old(self).view().1),
            old(self).view().1 <= old(self).view().0.end ==> final(self).view() == (
                old(self).view().0,
                (old(self).view().1 + SECONDS_IN_A_DAY) as i64,
            ),
            old(self).view().1 > old(self).view().0.end ==> r is None,
            old(self).view().1 > old(self).view().0.end ==> final(self).view() == old(self).view(),
    {
        if self.current <= self.period.end {
            let next = self.current + SECONDS_IN_A_DAY;
            let current = self.current;
            self.current = next;
            Some(current)
        } else {
            None
        }
    }
}

} // verus!
