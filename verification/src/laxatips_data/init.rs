use vstd::prelude::*;

use crate::laxatips_daily_data::time::SecondsSinceTimezonedDayStart;
use crate::models::base_model::objects::{find_by_id, lemma_index_of_id, StopTime};
use crate::models::base_model::{
    board_time, calendar_index_of, debark_time, in_day_range, line_index_of, network_index_of, route_index_of,
    Collections, FlowDirection,
};

verus! {

/// Why a vehicle journey cannot be put in the timetables
#[derive(Debug, Clone, Copy, PartialEq, Eq, Structural)]
pub enum VehicleJourneyError {
    /// the stop time at this index has a pickup or drop off type that is not handled
    BadFlow(usize),
    /// the vehicle journey has less than two stop times
    TooFewStopTimes,
    /// the calendar of the vehicle journey is not in the data
    CalendarAbsent,
    /// the route of the vehicle journey is not in the data
    RouteAbsent,
    /// the line of the route is not in the data
    LineAbsent,
    /// the network of the line is not in the data
    NetworkAbsent,
    /// the network of the line has no timezone
    NoTimezone,
    /// the board or the debark time of the stop time at this index is not a time of a
    /// timezoned day
    BadTimes(usize),
}

/// The flow of a stop time in the timetables, by its pickup and drop off types: both when
/// both are regular, debark only when there is no pickup, board only when there is no drop
/// off; none otherwise
pub open spec fn timetable_flow(pickup_type: u8, drop_off_type: u8) -> Option<FlowDirection> {
    if pickup_type == 0 && drop_off_type == 0 {
        Some(FlowDirection::BoardAndDebark)
    } else if pickup_type == 1 && drop_off_type == 0 {
        Some(FlowDirection::DebarkOnly)
    } else if pickup_type == 0 && drop_off_type == 1 {
        Some(FlowDirection::BoardOnly)
    } else {
        None
    }
}

/// The index of the first stop time, among the first `n` of `stop_times`, whose flow is not
/// handled
pub open spec fn first_bad_flow(stop_times: Seq<StopTime>, n: nat) -> Option<nat>
    decreases n,
{
    if n == 0 {
        None
    } else {
        match first_bad_flow(stop_times, (n - 1) as nat) {
            Some(i) => Some(i),
            None => if timetable_flow(stop_times[n - 1].pickup_type, stop_times[n - 1].drop_off_type) is None {
                Some((n - 1) as nat)
            } else {
                None
            },
        }
    }
}

/// The board and debark times of `stop_time` are times of a timezoned day
pub open spec fn times_readable(stop_time: StopTime) -> bool {
    &&& stop_time.departure_time <= i32::MAX
    &&& in_day_range(stop_time.departure_time - stop_time.boarding_duration)
    &&& stop_time.arrival_time <= i32::MAX
    &&& stop_time.arrival_time + stop_time.alighting_duration <= i32::MAX
    &&& in_day_range(stop_time.arrival_time + stop_time.alighting_duration)
}

/// The index of the first stop time, among the first `n` of `stop_times`, whose board or
/// debark time is not a time of a timezoned day
pub open spec fn first_bad_times(stop_times: Seq<StopTime>, n: nat) -> Option<nat>
    decreases n,
{
    if n == 0 {
        None
    } else {
        match first_bad_times(stop_times, (n - 1) as nat) {
            Some(i) => Some(i),
            None => if !times_readable(stop_times[n - 1]) {
                Some((n - 1) as nat)
            } else {
                None
            },
        }
    }
}

/// Why vehicle journey `vj` of `collections` cannot be put in the timetables, checked in
/// this order: a stop time whose flow is not handled, less than two stop times, its
/// calendar, route, line or network absent, no timezone for its network, a stop time whose
/// times are not those of a timezoned day; none when it can be
pub open spec fn vehicle_journey_error(collections: Collections, vj: int) -> Option<VehicleJourneyError> {
    let stop_times = collections.vehicle_journeys@[vj].stop_times@;
    if first_bad_flow(stop_times, stop_times.len()) is Some {
        Some(VehicleJourneyError::BadFlow(first_bad_flow(stop_times, stop_times.len())->0 as usize))
    } else if stop_times.len() < 2 {
        Some(VehicleJourneyError::TooFewStopTimes)
    } else if calendar_index_of(collections, vj) is None {
        Some(VehicleJourneyError::CalendarAbsent)
    } else if route_index_of(collections, vj) is None {
        Some(VehicleJourneyError::RouteAbsent)
    } else if line_index_of(collections, vj) is None {
        Some(VehicleJourneyError::LineAbsent)
    } else if network_index_of(collections, vj) is None {
        Some(VehicleJourneyError::NetworkAbsent)
    } else if collections.networks@[network_index_of(collections, vj)->0 as int].timezone is None {
        Some(VehicleJourneyError::NoTimezone)
    } else if first_bad_times(stop_times, stop_times.len()) is Some {
        Some(VehicleJourneyError::BadTimes(first_bad_times(stop_times, stop_times.len())->0 as usize))
    } else {
        None
    }
}

/// The flow of the stop time at `i` among `n` stop times: boarding only at the first one,
/// debarking only at the last one, and otherwise as its pickup and drop off types say
pub open spec fn flow_at(stop_time: StopTime, i: int, n: int) -> FlowDirection {
    if i == 0 {
        FlowDirection::BoardOnly
    } else if i == n - 1 {
        FlowDirection::DebarkOnly
    } else {
        timetable_flow(stop_time.pickup_type, stop_time.drop_off_type)->0
    }
}

/// What the timetables are given of a vehicle journey: the stop point and the flow of each
/// stop time, its board and debark times, the index of its calendar and its timezone
pub struct VehicleJourneyTimes {
    pub stop_flows: Vec<(usize, FlowDirection)>,
    pub board_debark_times: Vec<(SecondsSinceTimezonedDayStart, SecondsSinceTimezonedDayStart)>,
    pub calendar_idx: usize,
    pub timezone: String,
}

/// What the timetables are given of vehicle journey `vj` of `collections`, or why it
/// cannot be put in them, as `vehicle_journey_error` says
pub fn vehicle_journey_times(collections: &Collections, vj: usize) -> (r: Result<
    VehicleJourneyTimes,
    VehicleJourneyError,
>)
    requires
        vj < collections.vehicle_journeys@.len(),
    ensures
        r is Err <==> vehicle_journey_error(*collections, vj as int) is Some,
        r matches Err(e) ==> vehicle_journey_error(*collections, vj as int) == Some(e),
        r matches Ok(times) ==> {
            let stop_times = collections.vehicle_journeys@[vj as int].stop_times@;
            let n = stop_times.len() as int;
            &&& times.stop_flows@.len() == n
            &&& times.board_debark_times@.len() == n
            &&& forall|i: int|
                0 <= i < n ==> (#[trigger] times.stop_flows@[i]) == (
                stop_times[i].stop_point_idx,
                flow_at(stop_times[i], i, n),
            )
            &&& forall|i: int|
                0 <= i < n ==> (#[trigger] times.board_debark_times@[i]).0@ == stop_times[i].departure_time
                    - stop_times[i].boarding_duration && times.board_debark_times@[i].1@
                    == stop_times[i].arrival_time + stop_times[i].alighting_duration
            &&& calendar_index_of(*collections, vj as int) == Some(times.calendar_idx as nat)
            &&& collections.networks@[network_index_of(*collections, vj as int)->0 as int].timezone
                == Some(times.timezone)
        },
{
    let stop_times = &collections.vehicle_journeys[vj].stop_times;
    let n = stop_times.len();
    let mut stop_flows: Vec<(usize, FlowDirection)> = Vec::new();
    let mut i: usize = 0;
    while i < n
        invariant
            n == stop_times@.len(),
            stop_times@ == collections.vehicle_journeys@[vj as int].stop_times@,
            i <= n,
            first_bad_flow(stop_times@, i as nat) is None,
            stop_flows@.len() == i,
            forall|j: int|
                0 <= j < i ==> (#[trigger] stop_flows@[j]) == (
                    stop_times@[j].stop_point_idx,
                    timetable_flow(stop_times@[j].pickup_type, stop_times@[j].drop_off_type)->0,
                ),
        decreases n - i,
    {
        let stop_time = &stop_times[i];
        let flow = if stop_time.pickup_type == 0 && stop_time.drop_off_type == 0 {
            FlowDirection::BoardAndDebark
        } else if stop_time.pickup_type == 1 && stop_time.drop_off_type == 0 {
            FlowDirection::DebarkOnly
        } else if stop_time.pickup_type == 0 && stop_time.drop_off_type == 1 {
            FlowDirection::BoardOnly
        } else {
            proof {
                lemma_first_bad_flow_stays(stop_times@, (i + 1) as nat, n as nat);
            }
            return Err(VehicleJourneyError::BadFlow(i));
        };
        stop_flows.push((stop_time.stop_point_idx, flow));
        i += 1;
    }
    if n < 2 {
        return Err(VehicleJourneyError::TooFewStopTimes);
    }
    let first = stop_flows[0].0;
    stop_flows.set(0, (first, FlowDirection::BoardOnly));
    let last = stop_flows[n - 1].0;
    stop_flows.set(n - 1, (last, FlowDirection::DebarkOnly));

    let vehicle_journey = &collections.vehicle_journeys[vj];
    let calendar_idx = match find_by_id(&collections.calendars, vehicle_journey.service_id.as_str()) {
        Some(idx) => idx,
        None => {
            return Err(VehicleJourneyError::CalendarAbsent);
        },
    };
    let route_idx = match find_by_id(&collections.routes, vehicle_journey.route_id.as_str()) {
        Some(idx) => {
            proof {
                lemma_index_of_id(collections.routes@, vehicle_journey.route_id@);
            }
            idx
        },
        None => {
            return Err(VehicleJourneyError::RouteAbsent);
        },
    };
    let line_idx = match find_by_id(&collections.lines, collections.routes[route_idx].line_id.as_str()) {
        Some(idx) => {
            proof {
                lemma_index_of_id(collections.lines@, collections.routes@[route_idx as int].line_id@);
            }
            idx
        },
        None => {
            return Err(VehicleJourneyError::LineAbsent);
        },
    };
    let network_idx = match find_by_id(&collections.networks, collections.lines[line_idx].network_id.as_str()) {
        Some(idx) => {
            proof {
                lemma_index_of_id(collections.networks@, collections.lines@[line_idx as int].network_id@);
            }
            idx
        },
        None => {
            return Err(VehicleJourneyError::NetworkAbsent);
        },
    };
    let timezone = match &collections.networks[network_idx].timezone {
        Some(timezone) => timezone.clone(),
        None => {
            return Err(VehicleJourneyError::NoTimezone);
        },
    };

    let mut board_debark_times: Vec<(SecondsSinceTimezonedDayStart, SecondsSinceTimezonedDayStart)> = Vec::new();
    let mut k: usize = 0;
    while k < n
        invariant
            n == stop_times@.len(),
            stop_times@ == collections.vehicle_journeys@[vj as int].stop_times@,
            k <= n,
            n >= 2,
            first_bad_flow(stop_times@, n as nat) is None,
            calendar_index_of(*collections, vj as int) == Some(calendar_idx as nat),
            route_index_of(*collections, vj as int) is Some,
            line_index_of(*collections, vj as int) is Some,
            network_index_of(*collections, vj as int) is Some,
            collections.networks@[network_index_of(*collections, vj as int)->0 as int].timezone == Some(timezone),
            first_bad_times(stop_times@, k as nat) is None,
            board_debark_times@.len() == k,
            forall|j: int|
                0 <= j < k ==> (#[trigger] board_debark_times@[j]).0@ == stop_times@[j].departure_time
                    - stop_times@[j].boarding_duration && board_debark_times@[j].1@
                    == stop_times@[j].arrival_time + stop_times@[j].alighting_duration,
        decreases n - k,
    {
        let stop_time = &stop_times[k];
        let board = board_time(stop_time.departure_time, stop_time.boarding_duration);
        let debark = debark_time(stop_time.arrival_time, stop_time.alighting_duration);
        match (board, debark) {
            (Some(board), Some(debark)) => {
                board_debark_times.push((board, debark));
            },
            _ => {
                proof {
                    lemma_first_bad_times_stays(stop_times@, (k + 1) as nat, n as nat);
                }
                return Err(VehicleJourneyError::BadTimes(k));
            },
        }
        k += 1;
    }
    Ok(VehicleJourneyTimes { stop_flows, board_debark_times, calendar_idx, timezone })
}

/// Once a stop time with a flow that is not handled is found, it stays the first one.
proof fn lemma_first_bad_flow_stays(stop_times: Seq<StopTime>, m: nat, n: nat)
    requires
        m <= n,
        first_bad_flow(stop_times, m) is Some,
    ensures
        first_bad_flow(stop_times, n) == first_bad_flow(stop_times, m),
    decreases n - m,
{
    if m < n {
        lemma_first_bad_flow_stays(stop_times, m, (n - 1) as nat);
    }
}

/// Once a stop time with times out of a day is found, it stays the first one.
proof fn lemma_first_bad_times_stays(stop_times: Seq<StopTime>, m: nat, n: nat)
    requires
        m <= n,
        first_bad_times(stop_times, m) is Some,
    ensures
        first_bad_times(stop_times, n) == first_bad_times(stop_times, m),
    decreases n - m,
{
    if m < n {
        lemma_first_bad_times_stays(stop_times, m, (n - 1) as nat);
    }
}

} // verus!
