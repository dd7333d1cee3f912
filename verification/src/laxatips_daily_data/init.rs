use vstd::prelude::*;

use super::time::{
    composed_seconds,
    Calendar,
    DaysSinceDatasetStart,
    SecondsSinceDatasetUTCStart,
    SecondsSinceTimezonedDayStart,
};
use crate::dates::Date;
use crate::models::base_model::{board_time, debark_time, in_day_range};
use crate::models::real_time_model::{find_pair, ids_of, position_of};

verus! {

/// The times of a stop time of a vehicle journey, in seconds since the start of its day
#[derive(Debug, Clone, Copy)]
pub struct StopTimeTimes {
    pub arrival_seconds: u32,
    pub departure_seconds: u32,
    pub boarding_duration: u16,
    pub alighting_duration: u16,
}

/// The board time of a stop time: its departure minus its boarding duration, when it is a
/// time of a timezoned day
pub open spec fn board_seconds(stop_time: StopTimeTimes) -> Option<int> {
    if stop_time.departure_seconds <= i32::MAX && in_day_range(
        stop_time.departure_seconds - stop_time.boarding_duration,
    ) {
        Some(stop_time.departure_seconds - stop_time.boarding_duration)
    } else {
        None
    }
}

/// The debark time of a stop time: its arrival plus its alighting duration, when it is a
/// time of a timezoned day
pub open spec fn debark_seconds(stop_time: StopTimeTimes) -> Option<int> {
    if stop_time.arrival_seconds <= i32::MAX && stop_time.arrival_seconds
        + stop_time.alighting_duration <= i32::MAX && in_day_range(
        stop_time.arrival_seconds + stop_time.alighting_duration,
    ) {
        Some(stop_time.arrival_seconds + stop_time.alighting_duration)
    } else {
        None
    }
}

/// Every stop time of `stop_times` has a board time and a debark time.
pub open spec fn all_times_known(stop_times: Seq<StopTimeTimes>) -> bool {
    forall|i: int|
        0 <= i < stop_times.len() ==> board_seconds(#[trigger] stop_times[i]) is Some
            && debark_seconds(stop_times[i]) is Some
}

/// The board and debark times of each stop time of a vehicle journey, in its timezoned day;
/// an error when one of them is not a time of a timezoned day
pub fn board_debark_timezoned_times_in_day(stop_times: &[StopTimeTimes]) -> (r: Result<
    Vec<(SecondsSinceTimezonedDayStart, SecondsSinceTimezonedDayStart)>,
    (),
>)
    ensures
        r is Ok <==> all_times_known(stop_times@),
        r matches Ok(times) ==> times@.len() == stop_times@.len() && forall|i: int|
            0 <= i < times@.len() ==> Some((#[trigger] times@[i]).0@) == board_seconds(stop_times@[i])
                && Some(times@[i].1@) == debark_seconds(stop_times@[i]),
{
    let mut result: Vec<(SecondsSinceTimezonedDayStart, SecondsSinceTimezonedDayStart)> = Vec::new();
    let mut i: usize = 0;
    while i < stop_times.len()
        invariant
            i <= stop_times@.len(),
            result@.len() == i,
            forall|j: int|
                0 <= j < i ==> board_seconds(#[trigger] stop_times@[j]) is Some && debark_seconds(
                    stop_times@[j],
                ) is Some,
            forall|j: int|
                0 <= j < i ==> Some((#[trigger] result@[j]).0@) == board_seconds(stop_times@[j])
                    && Some(result@[j].1@) == debark_seconds(stop_times@[j]),
        decreases stop_times@.len() - i,
    {
        let stop_time = stop_times[i];
        let board = match board_time(stop_time.departure_seconds, stop_time.boarding_duration) {
            Some(board) => board,
            None => {
                return Err(());
            },
        };
        let debark = match debark_time(stop_time.arrival_seconds, stop_time.alighting_duration) {
            Some(debark) => debark,
            None => {
                return Err(());
            },
        };
        result.push((board, debark));
        i += 1;
    }
    Ok(result)
}

/// Each time of `times` can be composed on `day` of `calendar` in `timezone`.
pub open spec fn all_composable(
    times: Seq<(SecondsSinceTimezonedDayStart, SecondsSinceTimezonedDayStart)>,
    calendar: Calendar,
    day: DaysSinceDatasetStart,
    timezone: Seq<char>,
) -> bool {
    forall|i: int|
        0 <= i < times.len() ==> (composed_seconds(calendar, day, (#[trigger] times[i]).0, timezone) matches Some(
            s,
        ) && 0 <= s <= u32::MAX) && (composed_seconds(calendar, day, times[i].1, timezone) matches Some(s)
            && 0 <= s <= u32::MAX)
}

/// The board and debark times of a vehicle journey on `date`, since the start of the
/// dataset, from its times in its timezoned day; an error when `date` is not a date of the
/// calendar
pub fn board_debark_utc_times(
    board_debark_timezoned_times_in_day: &[(SecondsSinceTimezonedDayStart, SecondsSinceTimezonedDayStart)],
    date: &Date,
    timezone: &str,
    calendar: &Calendar,
) -> (r: Result<Vec<(SecondsSinceDatasetUTCStart, SecondsSinceDatasetUTCStart)>, ()>)
    requires
        calendar.wf(),
        calendar.first().days_from_ce <= date.days_from_ce <= calendar.last().days_from_ce ==> all_composable(
            board_debark_timezoned_times_in_day@,
            *calendar,
            DaysSinceDatasetStart::of(date.days_from_ce - calendar.first().days_from_ce),
            timezone@,
        ),
    ensures
        r is Ok <==> calendar.first().days_from_ce <= date.days_from_ce <= calendar.last().days_from_ce,
        r matches Ok(v) ==> v@.len() == board_debark_timezoned_times_in_day@.len() && forall|i: int|
            0 <= i < v@.len() ==> {
                let day = DaysSinceDatasetStart::of(date.days_from_ce - calendar.first().days_from_ce);
                let times = board_debark_timezoned_times_in_day@[i];
                &&& (#[trigger] v@[i]).0@ == composed_seconds(*calendar, day, times.0, timezone@)->0
                &&& v@[i].1@ == composed_seconds(*calendar, day, times.1, timezone@)->0
            },
{
    let day = match calendar.date_to_days_since_start(date) {
        Some(day) => day,
        None => {
            return Err(());
        },
    };
    proof {
        DaysSinceDatasetStart::lemma_of(day, day@ as int);
        calendar.lemma_wf();
    }
    let mut result: Vec<(SecondsSinceDatasetUTCStart, SecondsSinceDatasetUTCStart)> = Vec::new();
    let mut i: usize = 0;
    while i < board_debark_timezoned_times_in_day.len()
        invariant
            calendar.wf(),
            day@ < calendar.days_count(),
            day == DaysSinceDatasetStart::of(date.days_from_ce - calendar.first().days_from_ce),
            all_composable(board_debark_timezoned_times_in_day@, *calendar, day, timezone@),
            i <= board_debark_timezoned_times_in_day@.len(),
            result@.len() == i,
            forall|j: int|
                0 <= j < i ==> {
                    let times = board_debark_timezoned_times_in_day@[j];
                    &&& (#[trigger] result@[j]).0@ == composed_seconds(*calendar, day, times.0, timezone@)->0
                    &&& result@[j].1@ == composed_seconds(*calendar, day, times.1, timezone@)->0
                },
        decreases board_debark_timezoned_times_in_day@.len() - i,
    {
        let (board_time, debark_time) = board_debark_timezoned_times_in_day[i];
        let board_time_utc = calendar.compose(&day, &board_time, timezone);
        let debark_time_utc = calendar.compose(&day, &debark_time, timezone);
        result.push((board_time_utc, debark_time_utc));
        i += 1;
    }
    Ok(result)
}

/// The board and debark times of a vehicle journey on `date`, as `board_debark_utc_times`
/// gives them, when each of them can be composed; none otherwise
pub fn try_board_debark_utc_times(
    board_debark_timezoned_times_in_day: &[(SecondsSinceTimezonedDayStart, SecondsSinceTimezonedDayStart)],
    date: &Date,
    timezone: &str,
    calendar: &Calendar,
) -> (r: Option<Result<Vec<(SecondsSinceDatasetUTCStart, SecondsSinceDatasetUTCStart)>, ()>>)
    requires
        calendar.wf(),
    ensures
        r is Some <==> (calendar.first().days_from_ce <= date.days_from_ce <= calendar.last().days_from_ce
            ==> all_composable(
            board_debark_timezoned_times_in_day@,
            *calendar,
            DaysSinceDatasetStart::of(date.days_from_ce - calendar.first().days_from_ce),
            timezone@,
        )),
        r matches Some(result) ==> (result is Ok <==> calendar.first().days_from_ce <= date.days_from_ce
            <= calendar.last().days_from_ce),
        r matches Some(Ok(v)) ==> v@.len() == board_debark_timezoned_times_in_day@.len() && forall|i: int|
            0 <= i < v@.len() ==> {
                let day = DaysSinceDatasetStart::of(date.days_from_ce - calendar.first().days_from_ce);
                let times = board_debark_timezoned_times_in_day@[i];
                &&& (#[trigger] v@[i]).0@ == composed_seconds(*calendar, day, times.0, timezone@)->0
                &&& v@[i].1@ == composed_seconds(*calendar, day, times.1, timezone@)->0
            },
{
    let day = match calendar.date_to_days_since_start(date) {
        Some(day) => day,
        None => {
            return Some(Err(()));
        },
    };
    proof {
        DaysSinceDatasetStart::lemma_of(day, day@ as int);
        calendar.lemma_wf();
    }
    let mut i: usize = 0;
    while i < board_debark_timezoned_times_in_day.len()
        invariant
            calendar.wf(),
            day@ < calendar.days_count(),
            calendar.first().days_from_ce <= date.days_from_ce <= calendar.last().days_from_ce,
            day == DaysSinceDatasetStart::of(date.days_from_ce - calendar.first().days_from_ce),
            i <= board_debark_timezoned_times_in_day@.len(),
            forall|j: int|
                0 <= j < i ==> (composed_seconds(
                    *calendar,
                    day,
                    (#[trigger] board_debark_timezoned_times_in_day@[j]).0,
                    timezone@,
                ) matches Some(s) && 0 <= s <= u32::MAX) && (composed_seconds(
                    *calendar,
                    day,
                    board_debark_timezoned_times_in_day@[j].1,
                    timezone@,
                ) matches Some(s) && 0 <= s <= u32::MAX),
        decreases board_debark_timezoned_times_in_day@.len() - i,
    {
        let (board_time, debark_time) = board_debark_timezoned_times_in_day[i];
        if calendar.try_compose(&day, &board_time, timezone).is_none() || calendar.try_compose(
            &day,
            &debark_time,
            timezone,
        ).is_none() {
            assert(!all_composable(board_debark_timezoned_times_in_day@, *calendar, day, timezone@)) by {
                let t = board_debark_timezoned_times_in_day@[i as int];
            }
            return None;
        }
        i += 1;
    }
    Some(board_debark_utc_times(board_debark_timezoned_times_in_day, date, timezone, calendar))
}

/// What the base model tells of the timezones of the vehicle journeys: the id of each route
/// with the id of its line, the id of each line with the id of its network, and the id of
/// each network with the name of its timezone, when it has one
pub struct RouteNetworks {
    pub routes: Vec<(String, String)>,
    pub lines: Vec<(String, String)>,
    pub networks: Vec<(String, Option<String>)>,
}

/// The name of the timezone of the network of the line of the route of id `route_id`, when
/// the route, its line and its network are found and the network has a timezone
pub open spec fn timezone_name(model: RouteNetworks, route_id: Seq<char>) -> Option<Seq<char>> {
    match position_of(ids_of(model.routes@), route_id) {
        None => None,
        Some(route) => match position_of(ids_of(model.lines@), model.routes@[route as int].1@) {
            None => None,
            Some(line) => match position_of(ids_of(model.networks@), model.lines@[line as int].1@) {
                None => None,
                Some(network) => match model.networks@[network as int].1 {
                    Some(timezone) => Some(timezone@),
                    None => None,
                },
            },
        },
    }
}

/// The timezone of a vehicle journey of route `route_id`: that of the network of the line of
/// its route; an error when one of them is not found or the network has no timezone
pub fn timezone_of(route_id: &str, model: &RouteNetworks) -> (r: Result<String, ()>)
    ensures
        match r {
            Ok(timezone) => timezone_name(*model, route_id@) == Some(timezone@),
            Err(()) => timezone_name(*model, route_id@) is None,
        },
{
    let route = match find_pair(&model.routes, route_id) {
        Some(route) => route,
        None => {
            return Err(());
        },
    };
    let line = match find_pair(&model.lines, model.routes[route].1.as_str()) {
        Some(line) => line,
        None => {
            return Err(());
        },
    };
    let network = match find_pair(&model.networks, model.lines[line].1.as_str()) {
        Some(network) => network,
        None => {
            return Err(());
        },
    };
    match &model.networks[network].1 {
        Some(timezone) => Ok(timezone.clone()),
        None => Err(()),
    }
}

} // verus!
