pub mod objects;

use vstd::prelude::*;

use self::objects::{
    contains_id, find_by_id, index_of_id, Address, Calendar, HasId, Line, Mode, Network, Route, StopArea,
    StopPoint, StopTime, Transfer, VehicleJourney,
};
use crate::dates::{midnight_seconds, Date, SECONDS_IN_DAY, UNIX_EPOCH_DAYS_FROM_CE};
use crate::laxatips_daily_data::time::{
    local_to_utc, timezoned_day_start, MAX_SECONDS_SINCE_TIMEZONED_DAY_START, PositiveDuration, SecondsSinceTimezonedDayStart,
};
use crate::loads_data::real_loads::LoadsData;
use crate::models::real_time_disruption::time_periods::{TimePeriod, MAX_DATE_DAYS};
use crate::models::{Contributor, StopPointIdx, StopTime as ReadStopTime, StopTimeIdx};
use vstd::slice::slice_subrange;
use self::objects::Rgb;

verus! {

/// The prefix of the ids of lines in requests
pub const PREFIX_ID_LINE: &'static str = "line:";

/// The prefix of the ids of routes in requests
pub const PREFIX_ID_ROUTE: &'static str = "route:";

/// The prefix of the ids of networks in requests
pub const PREFIX_ID_NETWORK: &'static str = "network:";

/// The prefix of the ids of physical modes in requests
pub const PREFIX_ID_PHYSICAL_MODE: &'static str = "physical_mode:";

/// The prefix of the ids of commercial modes in requests
pub const PREFIX_ID_COMMERCIAL_MODE: &'static str = "commercial_mode:";

/// The prefix of the ids of stop points in requests
pub const PREFIX_ID_STOP_POINT: &'static str = "stop_point:";

/// The prefix of the ids of stop areas in requests
pub const PREFIX_ID_STOP_AREA: &'static str = "stop_area:";

/// Why the transit data cannot be used
#[derive(Debug, Clone, Copy, PartialEq, Eq, Structural)]
pub enum BadModel {
    NoDataset,
    StartDateAfterEndDate,
}

/// Why a stop time cannot be used
#[derive(Debug, Clone, Copy, PartialEq, Eq, Structural)]
pub enum BadStopTime {
    PickupType,
    DropOffType,
    BoardTime,
    DebarkTime,
}

/// Whether travelers can board, debark, both or none, at a stop time
#[derive(Debug, Clone, Copy, PartialEq, Eq, Structural)]
pub enum FlowDirection {
    BoardOnly,
    DebarkOnly,
    BoardAndDebark,
    NoBoardDebark,
}

/// The flow direction of a stop time whose pickup type is `pickup_type` and whose drop off
/// type is `drop_off_type`: 0 allows the move, 1 forbids it, any other value is an error
pub open spec fn flow_of(pickup_type: u8, drop_off_type: u8) -> Result<FlowDirection, BadStopTime> {
    if pickup_type > 1 {
        Err(BadStopTime::PickupType)
    } else if drop_off_type > 1 {
        Err(BadStopTime::DropOffType)
    } else if pickup_type == 0 && drop_off_type == 0 {
        Ok(FlowDirection::BoardAndDebark)
    } else if pickup_type == 1 && drop_off_type == 0 {
        Ok(FlowDirection::DebarkOnly)
    } else if pickup_type == 0 && drop_off_type == 1 {
        Ok(FlowDirection::BoardOnly)
    } else {
        Ok(FlowDirection::NoBoardDebark)
    }
}

/// The flow direction of a stop time, from its pickup type and its drop off type
pub fn flow(pickup_type: u8, drop_off_type: u8) -> (r: Result<FlowDirection, BadStopTime>)
    ensures
        r == flow_of(pickup_type, drop_off_type),
{
    let can_board = match pickup_type {
        0 => true,
        1 => false,
        _ => {
            return Err(BadStopTime::PickupType);
        },
    };
    let can_debark = match drop_off_type {
        0 => true,
        1 => false,
        _ => {
            return Err(BadStopTime::DropOffType);
        },
    };
    match (can_board, can_debark) {
        (true, true) => Ok(FlowDirection::BoardAndDebark),
        (false, true) => Ok(FlowDirection::DebarkOnly),
        (true, false) => Ok(FlowDirection::BoardOnly),
        (false, false) => Ok(FlowDirection::NoBoardDebark),
    }
}

/// `seconds` is a time of a timezoned day: between -48:00:00 and 48:00:00.
pub open spec fn in_day_range(seconds: int) -> bool {
    -MAX_SECONDS_SINCE_TIMEZONED_DAY_START <= seconds <= MAX_SECONDS_SINCE_TIMEZONED_DAY_START
}

/// The time at which a traveler boards at a stop time: its departure time, in seconds,
/// minus the boarding duration, when it is a time of a timezoned day
pub fn board_time(departure_seconds: u32, boarding_duration: u16) -> (r: Option<SecondsSinceTimezonedDayStart>)
    ensures
        r is Some <==> departure_seconds <= i32::MAX && in_day_range(departure_seconds - boarding_duration),
        r matches Some(t) ==> t@ == departure_seconds - boarding_duration,
{
    if departure_seconds > i32::MAX as u32 {
        return None;
    }
    let departure: i32 = departure_seconds as i32;
    let boarding: i32 = boarding_duration as i32;
    let seconds = departure - boarding;
    SecondsSinceTimezonedDayStart::from_seconds(seconds)
}

/// The time at which a traveler debarks at a stop time: its arrival time, in seconds,
/// plus the alighting duration, when it is a time of a timezoned day
pub fn debark_time(arrival_seconds: u32, alighting_duration: u16) -> (r: Option<SecondsSinceTimezonedDayStart>)
    ensures
        r is Some <==> arrival_seconds <= i32::MAX && arrival_seconds + alighting_duration <= i32::MAX
            && in_day_range(arrival_seconds + alighting_duration),
        r matches Some(t) ==> t@ == arrival_seconds + alighting_duration,
{
    if arrival_seconds > i32::MAX as u32 {
        return None;
    }
    let arrival: i32 = arrival_seconds as i32;
    let alighting: i32 = alighting_duration as i32;
    match arrival.checked_add(alighting) {
        Some(seconds) => SecondsSinceTimezonedDayStart::from_seconds(seconds),
        None => None,
    }
}

/// The characters of an optional text
pub open spec fn text_of(text: Option<String>) -> Option<Seq<char>> {
    match text {
        Some(s) => Some(s@),
        None => None,
    }
}

/// The characters of an optional borrowed text
pub open spec fn str_text_of(text: Option<&str>) -> Option<Seq<char>> {
    match text {
        Some(s) => Some(s@),
        None => None,
    }
}

/// The text in `text`, borrowed
fn as_deref(text: &Option<String>) -> (r: Option<&str>)
    ensures
        str_text_of(r) == text_of(*text),
{
    match text {
        Some(s) => Some(s.as_str()),
        None => None,
    }
}

/// The transit data as read from its files: the objects of each kind, a stop point or a
/// vehicle journey being given by its index here
pub struct Collections {
    pub stop_points: Vec<StopPoint>,
    pub stop_areas: Vec<StopArea>,
    pub addresses: Vec<Address>,
    pub vehicle_journeys: Vec<VehicleJourney>,
    pub routes: Vec<Route>,
    pub lines: Vec<Line>,
    pub networks: Vec<Network>,
    pub calendars: Vec<Calendar>,
    pub physical_modes: Vec<Mode>,
    pub commercial_modes: Vec<Mode>,
    pub transfers: Vec<Transfer>,
    pub contributors: Vec<Contributor>,
}

impl Default for Collections {
    fn default() -> (r: Self)
        ensures
            r.stop_points@.len() == 0,
            r.stop_areas@.len() == 0,
            r.addresses@.len() == 0,
            r.vehicle_journeys@.len() == 0,
            r.routes@.len() == 0,
            r.lines@.len() == 0,
            r.networks@.len() == 0,
            r.calendars@.len() == 0,
            r.physical_modes@.len() == 0,
            r.commercial_modes@.len() == 0,
            r.transfers@.len() == 0,
            r.contributors@.len() == 0,
    {
        Collections {
            stop_points: Vec::new(),
            stop_areas: Vec::new(),
            addresses: Vec::new(),
            vehicle_journeys: Vec::new(),
            routes: Vec::new(),
            lines: Vec::new(),
            networks: Vec::new(),
            calendars: Vec::new(),
            physical_modes: Vec::new(),
            commercial_modes: Vec::new(),
            transfers: Vec::new(),
            contributors: Vec::new(),
        }
    }
}

/// The base schedule: the transit data, the loads of its trips, the first and the last
/// date of its validity period, and the duration of a transfer whose file gives none
pub struct BaseModel {
    collections: Collections,
    loads_data: LoadsData,
    validity_period: (Date, Date),
    default_transfer_duration: PositiveDuration,
}

impl BaseModel {
    /// The transit data
    pub closed spec fn collections(&self) -> Collections {
        self.collections
    }

    /// The first and the last date of the validity period
    pub closed spec fn validity(&self) -> (Date, Date) {
        self.validity_period
    }

    /// The duration of a transfer whose file gives none, in seconds
    pub closed spec fn default_transfer_seconds(&self) -> nat {
        self.default_transfer_duration@
    }

    /// The validity period does not end before it starts.
    #[verifier::type_invariant]
    spec fn validity_is_ordered(&self) -> bool {
        self.validity_period.0.days_from_ce <= self.validity_period.1.days_from_ce
    }

    /// The base schedule of `collections`, valid from the first to the last date of
    /// `validity_period`: an error when there is no such period, or when it ends before it
    /// starts
    pub fn new(
        collections: Collections,
        loads_data: LoadsData,
        validity_period: Option<(Date, Date)>,
        default_transfer_duration: PositiveDuration,
    ) -> (r: Result<Self, BadModel>)
        ensures
            validity_period is None ==> r == Err::<Self, BadModel>(BadModel::NoDataset),
            validity_period matches Some(p) ==> (r is Err <==> p.0.days_from_ce > p.1.days_from_ce),
            validity_period matches Some(p) && p.0.days_from_ce > p.1.days_from_ce ==> r
                == Err::<Self, BadModel>(BadModel::StartDateAfterEndDate),
            r matches Ok(model) ==> model.collections() == collections && Some(model.validity())
                == validity_period && model.default_transfer_seconds() == default_transfer_duration@,
    {
        let validity_period = match validity_period {
            Some(period) => period,
            None => {
                return Err(BadModel::NoDataset);
            },
        };
        if validity_period.0.days_from_ce > validity_period.1.days_from_ce {
            return Err(BadModel::StartDateAfterEndDate);
        }
        Ok(BaseModel { collections, loads_data, validity_period, default_transfer_duration })
    }

    /// An empty base schedule, valid on 1970-01-01 only
    pub fn empty() -> (r: Self)
        ensures
            r.collections().stop_points@.len() == 0,
            r.collections().vehicle_journeys@.len() == 0,
            r.collections().transfers@.len() == 0,
            r.validity() == (Date { days_from_ce: UNIX_EPOCH_DAYS_FROM_CE }, Date {
                days_from_ce: UNIX_EPOCH_DAYS_FROM_CE,
            }),
            r.default_transfer_seconds() == 0,
    {
        let day = Date { days_from_ce: UNIX_EPOCH_DAYS_FROM_CE };
        BaseModel {
            collections: Collections::default(),
            loads_data: LoadsData::empty(),
            validity_period: (day, day),
            default_transfer_duration: PositiveDuration::zero(),
        }
    }

    /// The loads of the trips
    pub fn loads_data(&self) -> &LoadsData {
        &self.loads_data
    }

    /// The first and the last date of the validity period
    pub fn validity_period(&self) -> (r: (Date, Date))
        ensures
            r == self.validity(),
            r.0.days_from_ce <= r.1.days_from_ce,
    {
        proof {
            use_type_invariant(self);
        }
        self.validity_period
    }

    /// The validity period as a time period, from midnight on its first date to midnight
    /// after its last date
    pub fn time_period(&self) -> (r: TimePeriod)
        requires
            self.validity().1.days_from_ce < MAX_DATE_DAYS,
        ensures
            r@ == (midnight_seconds(self.validity().0), midnight_seconds(self.validity().1)
                + SECONDS_IN_DAY),
    {
        proof {
            use_type_invariant(self);
        }
        let start = self.validity_period.0.midnight();
        let end = self.validity_period.1.midnight() + SECONDS_IN_DAY;
        TimePeriod::new(start, end).unwrap()
    }
}

/// The house number of the address of stop point `idx` of `collections`, when it has an
/// address that the data holds and the address has one
pub open spec fn house_number_of(collections: Collections, idx: int) -> Option<Seq<char>> {
    match collections.stop_points@[idx].address_id {
        None => None,
        Some(address_id) => match index_of_id(collections.addresses@, address_id@) {
            None => None,
            Some(p) => text_of(collections.addresses@[p as int].house_number),
        },
    }
}

/// The street name of the address of stop point `idx` of `collections`, when it has an
/// address that the data holds
pub open spec fn street_name_of(collections: Collections, idx: int) -> Option<Seq<char>> {
    match collections.stop_points@[idx].address_id {
        None => None,
        Some(address_id) => match index_of_id(collections.addresses@, address_id@) {
            None => None,
            Some(p) => Some(collections.addresses@[p as int].street_name@),
        },
    }
}

/// The indices `0..n`
fn indices(n: usize) -> (r: Vec<usize>)
    ensures
        r@ == Seq::new(n as nat, |i: int| i as usize),
{
    let mut r: Vec<usize> = Vec::new();
    let mut i: usize = 0;
    while i < n
        invariant
            i <= n,
            r@ == Seq::new(i as nat, |j: int| j as usize),
        decreases n - i,
    {
        r.push(i);
        i += 1;
        assert(r@ =~= Seq::new(i as nat, |j: int| j as usize));
    }
    r
}

/// `prefix` followed by `text`
fn prefixed(prefix: &str, text: &str) -> (r: String)
    ensures
        r@ == prefix@ + text@,
{
    let mut r = prefix.to_owned();
    r.append(text);
    r
}

// stop points
impl BaseModel {
    /// The number of stop points
    pub fn nb_of_stop_points(&self) -> (r: usize)
        ensures
            r == self.collections().stop_points@.len(),
    {
        self.collections.stop_points.len()
    }

    /// The indices of the stop points
    pub fn stop_points(&self) -> (r: Vec<usize>)
        ensures
            r@ == Seq::new(self.collections().stop_points@.len(), |i: int| i as usize),
    {
        indices(self.collections.stop_points.len())
    }

    /// The index of the stop point of id `stop_id`, if there is one
    pub fn stop_point_idx(&self, stop_id: &str) -> (r: Option<usize>)
        ensures
            r matches Some(p) ==> index_of_id(self.collections().stop_points@, stop_id@) == Some(p as nat),
            r is None ==> index_of_id(self.collections().stop_points@, stop_id@) is None,
    {
        find_by_id(&self.collections.stop_points, stop_id)
    }

    /// The name of stop point `stop_idx`
    pub fn stop_point_name(&self, stop_idx: usize) -> (r: &str)
        requires
            stop_idx < self.collections().stop_points@.len(),
        ensures
            r@ == self.collections().stop_points@[stop_idx as int].name@,
    {
        self.collections.stop_points[stop_idx].name.as_str()
    }

    /// The uri of stop point `idx`: `stop_point:` followed by its id
    pub fn stop_point_uri(&self, idx: usize) -> (r: String)
        requires
            idx < self.collections().stop_points@.len(),
        ensures
            r@ == "stop_point:"@ + self.collections().stop_points@[idx as int].id@,
    {
        prefixed("stop_point:", self.collections.stop_points[idx].id.as_str())
    }

    /// The address of stop point `idx`, when it has one that the data holds
    fn stop_point_address(&self, idx: usize) -> (r: Option<&Address>)
        requires
            idx < self.collections().stop_points@.len(),
        ensures
            match self.collections().stop_points@[idx as int].address_id {
                None => r is None,
                Some(address_id) => match index_of_id(self.collections().addresses@, address_id@) {
                    None => r is None,
                    Some(p) => r == Some(&self.collections().addresses@[p as int]),
                },
            },
    {
        let address_id = match &self.collections.stop_points[idx].address_id {
            Some(address_id) => address_id,
            None => {
                return None;
            },
        };
        match find_by_id(&self.collections.addresses, address_id.as_str()) {
            Some(p) => {
                proof {
                    objects::lemma_index_of_id(self.collections.addresses@, address_id@);
                }
                Some(&self.collections.addresses[p])
            },
            None => None,
        }
    }

    /// The house number of the address of stop point `idx`, if known
    pub fn house_number(&self, idx: usize) -> (r: Option<&str>)
        requires
            idx < self.collections().stop_points@.len(),
        ensures
            str_text_of(r) == house_number_of(self.collections(), idx as int),
    {
        match self.stop_point_address(idx) {
            Some(address) => as_deref(&address.house_number),
            None => None,
        }
    }

    /// The street name of the address of stop point `idx`, if known
    pub fn street_name(&self, idx: usize) -> (r: Option<&str>)
        requires
            idx < self.collections().stop_points@.len(),
        ensures
            str_text_of(r) == street_name_of(self.collections(), idx as int),
    {
        match self.stop_point_address(idx) {
            Some(address) => Some(address.street_name.as_str()),
            None => None,
        }
    }

    /// The platform code of stop point `idx`, if known
    pub fn platform_code(&self, idx: usize) -> (r: Option<&str>)
        requires
            idx < self.collections().stop_points@.len(),
        ensures
            str_text_of(r) == text_of(self.collections().stop_points@[idx as int].platform_code),
    {
        as_deref(&self.collections.stop_points[idx].platform_code)
    }

    /// The fare zone of stop point `idx`, if known
    pub fn fare_zone_id(&self, idx: usize) -> (r: Option<&str>)
        requires
            idx < self.collections().stop_points@.len(),
        ensures
            str_text_of(r) == text_of(self.collections().stop_points@[idx as int].fare_zone_id),
    {
        as_deref(&self.collections.stop_points[idx].fare_zone_id)
    }

    /// The codes of stop point `idx`, as pairs of a kind and a value
    pub fn codes(&self, idx: usize) -> (r: Option<&[(String, String)]>)
        requires
            idx < self.collections().stop_points@.len(),
        ensures
            r matches Some(codes) && codes@ == self.collections().stop_points@[idx as int].codes@,
    {
        Some(self.collections.stop_points[idx].codes.as_slice())
    }

    /// What stands for the name of the stop area of stop point `stop_idx`: the id of that
    /// stop area
    pub fn stop_area_name(&self, stop_idx: usize) -> (r: &str)
        requires
            stop_idx < self.collections().stop_points@.len(),
        ensures
            r@ == self.collections().stop_points@[stop_idx as int].stop_area_id@,
    {
        self.collections.stop_points[stop_idx].stop_area_id.as_str()
    }

    /// The stop area of id `stop_area_id`, if there is one
    fn stop_area_of(&self, stop_area_id: &str) -> (r: Option<&StopArea>)
        ensures
            match index_of_id(self.collections().stop_areas@, stop_area_id@) {
                None => r is None,
                Some(p) => r == Some(&self.collections().stop_areas@[p as int]),
            },
    {
        match find_by_id(&self.collections.stop_areas, stop_area_id) {
            Some(p) => {
                proof {
                    objects::lemma_index_of_id(self.collections.stop_areas@, stop_area_id@);
                }
                Some(&self.collections.stop_areas[p])
            },
            None => None,
        }
    }

    /// The uri of the stop area of id `stop_area_id`, `stop_area:` followed by its id, if
    /// there is one
    pub fn stop_area_uri(&self, stop_area_id: &str) -> (r: Option<String>)
        ensures
            match index_of_id(self.collections().stop_areas@, stop_area_id@) {
                None => r is None,
                Some(p) => r matches Some(uri) && uri@ == "stop_area:"@ + stop_area_id@,
            },
    {
        match self.stop_area_of(stop_area_id) {
            Some(stop_area) => {
                proof {
                    objects::lemma_index_of_id(self.collections.stop_areas@, stop_area_id@);
                }
                Some(prefixed("stop_area:", stop_area.id.as_str()))
            },
            None => None,
        }
    }

    /// The codes of the stop area of id `stop_area_id`, if there is one
    pub fn stop_area_codes(&self, stop_area_id: &str) -> (r: Option<&[(String, String)]>)
        ensures
            match index_of_id(self.collections().stop_areas@, stop_area_id@) {
                None => r is None,
                Some(p) => r matches Some(codes) && codes@
                    == self.collections().stop_areas@[p as int].codes@,
            },
    {
        match self.stop_area_of(stop_area_id) {
            Some(stop_area) => Some(stop_area.codes.as_slice()),
            None => None,
        }
    }

    /// The name of the timezone of the stop area of id `stop_area_id`, if there is one and
    /// its timezone is known
    pub fn stop_area_timezone(&self, stop_area_id: &str) -> (r: Option<&str>)
        ensures
            match index_of_id(self.collections().stop_areas@, stop_area_id@) {
                None => r is None,
                Some(p) => str_text_of(r) == text_of(self.collections().stop_areas@[p as int].timezone),
            },
    {
        match self.stop_area_of(stop_area_id) {
            Some(stop_area) => as_deref(&stop_area.timezone),
            None => None,
        }
    }
}

/// The index of the route of vehicle journey `idx` of `collections`, if the data holds it
pub open spec fn route_index_of(collections: Collections, idx: int) -> Option<nat> {
    index_of_id(collections.routes@, collections.vehicle_journeys@[idx].route_id@)
}

/// The index of the line of the route of vehicle journey `idx` of `collections`, if the
/// data holds both
pub open spec fn line_index_of(collections: Collections, idx: int) -> Option<nat> {
    match route_index_of(collections, idx) {
        None => None,
        Some(r) => index_of_id(collections.lines@, collections.routes@[r as int].line_id@),
    }
}

/// The index of the network of the line of vehicle journey `idx` of `collections`, if the
/// data holds its route, its line and its network
pub open spec fn network_index_of(collections: Collections, idx: int) -> Option<nat> {
    match line_index_of(collections, idx) {
        None => None,
        Some(l) => index_of_id(collections.networks@, collections.lines@[l as int].network_id@),
    }
}

/// The index of the calendar of vehicle journey `idx` of `collections`, if the data holds it
pub open spec fn calendar_index_of(collections: Collections, idx: int) -> Option<nat> {
    index_of_id(collections.calendars@, collections.vehicle_journeys@[idx].service_id@)
}

/// The name of the stop area that the route of vehicle journey `idx` of `collections` goes
/// to, when the data holds the route, the route has a destination and the data holds it
pub open spec fn direction_of(collections: Collections, idx: int) -> Option<Seq<char>> {
    match route_index_of(collections, idx) {
        None => None,
        Some(r) => match collections.routes@[r as int].destination_id {
            None => None,
            Some(destination_id) => match index_of_id(collections.stop_areas@, destination_id@) {
                None => None,
                Some(a) => Some(collections.stop_areas@[a as int].name@),
            },
        },
    }
}

/// The short name of vehicle journey `idx` of `collections`, or its headsign when it has no
/// short name
pub open spec fn trip_short_name_of(collections: Collections, idx: int) -> Option<Seq<char>> {
    let vehicle_journey = collections.vehicle_journeys@[idx];
    match vehicle_journey.short_name {
        Some(name) => Some(name@),
        None => text_of(vehicle_journey.headsign),
    }
}

/// Vehicle journey `idx` of `collections` runs on `date`: its calendar is in the data and
/// holds that date.
pub open spec fn trip_exists_in(collections: Collections, idx: int, date: Date) -> bool {
    match calendar_index_of(collections, idx) {
        None => false,
        Some(c) => collections.calendars@[c as int].dates@.contains(date),
    }
}

// vehicle journeys
impl BaseModel {
    /// The number of vehicle journeys
    pub fn nb_of_vehicle_journeys(&self) -> (r: usize)
        ensures
            r == self.collections().vehicle_journeys@.len(),
    {
        self.collections.vehicle_journeys.len()
    }

    /// The vehicle journey `vehicle_journey_idx`
    pub fn vehicle_journey(&self, vehicle_journey_idx: usize) -> (r: &VehicleJourney)
        requires
            vehicle_journey_idx < self.collections().vehicle_journeys@.len(),
        ensures
            *r == self.collections().vehicle_journeys@[vehicle_journey_idx as int],
    {
        &self.collections.vehicle_journeys[vehicle_journey_idx]
    }

    /// The indices of the vehicle journeys
    pub fn vehicle_journeys(&self) -> (r: Vec<usize>)
        ensures
            r@ == Seq::new(self.collections().vehicle_journeys@.len(), |i: int| i as usize),
    {
        indices(self.collections.vehicle_journeys.len())
    }

    /// The index of the vehicle journey of id `vehicle_journey_id`, if there is one
    pub fn vehicle_journey_idx(&self, vehicle_journey_id: &str) -> (r: Option<usize>)
        ensures
            r matches Some(p) ==> index_of_id(self.collections().vehicle_journeys@, vehicle_journey_id@)
                == Some(p as nat),
            r is None ==> index_of_id(self.collections().vehicle_journeys@, vehicle_journey_id@) is None,
    {
        find_by_id(&self.collections.vehicle_journeys, vehicle_journey_id)
    }

    /// What stands for the name of vehicle journey `vehicle_journey_idx`: its id
    pub fn vehicle_journey_name(&self, vehicle_journey_idx: usize) -> (r: &str)
        requires
            vehicle_journey_idx < self.collections().vehicle_journeys@.len(),
        ensures
            r@ == self.collections().vehicle_journeys@[vehicle_journey_idx as int].id@,
    {
        self.collections.vehicle_journeys[vehicle_journey_idx].id.as_str()
    }

    /// The route of vehicle journey `idx`, if the data holds it
    fn vehicle_journey_route(&self, idx: usize) -> (r: Option<&Route>)
        requires
            idx < self.collections().vehicle_journeys@.len(),
        ensures
            match route_index_of(self.collections(), idx as int) {
                None => r is None,
                Some(p) => r == Some(&self.collections().routes@[p as int]),
            },
    {
        let route_id = self.collections.vehicle_journeys[idx].route_id.as_str();
        match find_by_id(&self.collections.routes, route_id) {
            Some(p) => {
                proof {
                    objects::lemma_index_of_id(self.collections.routes@, route_id@);
                }
                Some(&self.collections.routes[p])
            },
            None => None,
        }
    }

    /// The line of vehicle journey `idx`, if the data holds its route and its line
    fn vehicle_journey_line(&self, idx: usize) -> (r: Option<&Line>)
        requires
            idx < self.collections().vehicle_journeys@.len(),
        ensures
            match line_index_of(self.collections(), idx as int) {
                None => r is None,
                Some(p) => r == Some(&self.collections().lines@[p as int]),
            },
    {
        let route = match self.vehicle_journey_route(idx) {
            Some(route) => route,
            None => {
                return None;
            },
        };
        match find_by_id(&self.collections.lines, route.line_id.as_str()) {
            Some(p) => {
                proof {
                    objects::lemma_index_of_id(self.collections.lines@, route.line_id@);
                }
                Some(&self.collections.lines[p])
            },
            None => None,
        }
    }

    /// The name of the timezone of the network of vehicle journey `idx`, when the data
    /// holds its route, its line and its network, and the network has one
    pub fn timezone(&self, idx: usize) -> (r: Option<&str>)
        requires
            idx < self.collections().vehicle_journeys@.len(),
        ensures
            match network_index_of(self.collections(), idx as int) {
                None => r is None,
                Some(p) => str_text_of(r) == text_of(self.collections().networks@[p as int].timezone),
            },
    {
        let line = match self.vehicle_journey_line(idx) {
            Some(line) => line,
            None => {
                return None;
            },
        };
        match find_by_id(&self.collections.networks, line.network_id.as_str()) {
            Some(p) => {
                proof {
                    objects::lemma_index_of_id(self.collections.networks@, line.network_id@);
                }
                as_deref(&self.collections.networks[p].timezone)
            },
            None => None,
        }
    }

    /// The dates of service of vehicle journey `idx`, when the data holds its calendar
    pub fn vehicle_journey_dates(&self, idx: usize) -> (r: Option<&[Date]>)
        requires
            idx < self.collections().vehicle_journeys@.len(),
        ensures
            match calendar_index_of(self.collections(), idx as int) {
                None => r is None,
                Some(p) => r matches Some(dates) && dates@ == self.collections().calendars@[p as int].dates@,
            },
    {
        let service_id = self.collections.vehicle_journeys[idx].service_id.as_str();
        match find_by_id(&self.collections.calendars, service_id) {
            Some(p) => {
                proof {
                    objects::lemma_index_of_id(self.collections.calendars@, service_id@);
                }
                Some(self.collections.calendars[p].dates.as_slice())
            },
            None => None,
        }
    }

    /// What stands for the name of the line of vehicle journey `idx`: the id of the line of
    /// its route, when the data holds the route
    pub fn line_name(&self, idx: usize) -> (r: Option<&str>)
        requires
            idx < self.collections().vehicle_journeys@.len(),
        ensures
            match route_index_of(self.collections(), idx as int) {
                None => r is None,
                Some(p) => r matches Some(name) && name@ == self.collections().routes@[p as int].line_id@,
            },
    {
        match self.vehicle_journey_route(idx) {
            Some(route) => Some(route.line_id.as_str()),
            None => None,
        }
    }

    /// The code of the line of vehicle journey `idx`, when the data holds its route and its
    /// line and the line has one
    pub fn line_code(&self, idx: usize) -> (r: Option<&str>)
        requires
            idx < self.collections().vehicle_journeys@.len(),
        ensures
            match line_index_of(self.collections(), idx as int) {
                None => r is None,
                Some(p) => str_text_of(r) == text_of(self.collections().lines@[p as int].code),
            },
    {
        match self.vehicle_journey_line(idx) {
            Some(line) => as_deref(&line.code),
            None => None,
        }
    }

    /// The headsign of vehicle journey `idx`, if it has one
    pub fn headsign(&self, idx: usize) -> (r: Option<&str>)
        requires
            idx < self.collections().vehicle_journeys@.len(),
        ensures
            str_text_of(r) == text_of(self.collections().vehicle_journeys@[idx as int].headsign),
    {
        as_deref(&self.collections.vehicle_journeys[idx].headsign)
    }

    /// The name of the stop area that the route of vehicle journey `idx` goes to, if known
    pub fn direction(&self, idx: usize) -> (r: Option<&str>)
        requires
            idx < self.collections().vehicle_journeys@.len(),
        ensures
            str_text_of(r) == direction_of(self.collections(), idx as int),
    {
        let route = match self.vehicle_journey_route(idx) {
            Some(route) => route,
            None => {
                return None;
            },
        };
        let destination_id = match &route.destination_id {
            Some(destination_id) => destination_id,
            None => {
                return None;
            },
        };
        match self.stop_area_of(destination_id.as_str()) {
            Some(stop_area) => Some(stop_area.name.as_str()),
            None => None,
        }
    }

    /// What stands for the name of the route of vehicle journey `idx`: the id of its route
    pub fn route_name(&self, idx: usize) -> (r: &str)
        requires
            idx < self.collections().vehicle_journeys@.len(),
        ensures
            r@ == self.collections().vehicle_journeys@[idx as int].route_id@,
    {
        self.collections.vehicle_journeys[idx].route_id.as_str()
    }

    /// What stands for the name of the network of vehicle journey `vehicle_journey_idx`: the
    /// id of the network of its line, when the data holds its route and its line
    pub fn network_name(&self, vehicle_journey_idx: usize) -> (r: Option<&str>)
        requires
            vehicle_journey_idx < self.collections().vehicle_journeys@.len(),
        ensures
            match line_index_of(self.collections(), vehicle_journey_idx as int) {
                None => r is None,
                Some(p) => r matches Some(name) && name@ == self.collections().lines@[p as int].network_id@,
            },
    {
        match self.vehicle_journey_line(vehicle_journey_idx) {
            Some(line) => Some(line.network_id.as_str()),
            None => None,
        }
    }

    /// The color of the line of vehicle journey `idx`, if known
    pub fn line_color(&self, idx: usize) -> (r: Option<&Rgb>)
        requires
            idx < self.collections().vehicle_journeys@.len(),
        ensures
            match line_index_of(self.collections(), idx as int) {
                None => r is None,
                Some(p) => match self.collections().lines@[p as int].color {
                    None => r is None,
                    Some(color) => r == Some(&color),
                },
            },
    {
        match self.vehicle_journey_line(idx) {
            Some(line) => match &line.color {
                Some(color) => Some(color),
                None => None,
            },
            None => None,
        }
    }

    /// The color of the text of the line of vehicle journey `idx`, if known
    pub fn text_color(&self, idx: usize) -> (r: Option<&Rgb>)
        requires
            idx < self.collections().vehicle_journeys@.len(),
        ensures
            match line_index_of(self.collections(), idx as int) {
                None => r is None,
                Some(p) => match self.collections().lines@[p as int].text_color {
                    None => r is None,
                    Some(color) => r == Some(&color),
                },
            },
    {
        match self.vehicle_journey_line(idx) {
            Some(line) => match &line.text_color {
                Some(color) => Some(color),
                None => None,
            },
            None => None,
        }
    }

    /// The short name of vehicle journey `idx`, or its headsign when it has no short name
    pub fn trip_short_name(&self, idx: usize) -> (r: Option<&str>)
        requires
            idx < self.collections().vehicle_journeys@.len(),
        ensures
            str_text_of(r) == trip_short_name_of(self.collections(), idx as int),
    {
        let vehicle_journey = &self.collections.vehicle_journeys[idx];
        match &vehicle_journey.short_name {
            Some(name) => Some(name.as_str()),
            None => as_deref(&vehicle_journey.headsign),
        }
    }

    /// What stands for the name of the physical mode of vehicle journey `idx`: its id
    pub fn physical_mode_name(&self, idx: usize) -> (r: &str)
        requires
            idx < self.collections().vehicle_journeys@.len(),
        ensures
            r@ == self.collections().vehicle_journeys@[idx as int].physical_mode_id@,
    {
        self.collections.vehicle_journeys[idx].physical_mode_id.as_str()
    }

    /// What stands for the name of the commercial mode of vehicle journey `idx`: the id of
    /// the commercial mode of its line, when the data holds its route and its line
    pub fn commercial_mode_name(&self, idx: usize) -> (r: Option<&str>)
        requires
            idx < self.collections().vehicle_journeys@.len(),
        ensures
            match line_index_of(self.collections(), idx as int) {
                None => r is None,
                Some(p) => r matches Some(name) && name@
                    == self.collections().lines@[p as int].commercial_mode_id@,
            },
    {
        match self.vehicle_journey_line(idx) {
            Some(line) => Some(line.commercial_mode_id.as_str()),
            None => None,
        }
    }

    /// The stop point of stop time `stop_time_idx` of vehicle journey `vehicle_journey_idx`,
    /// if it has that stop time
    pub fn stop_point_at(&self, vehicle_journey_idx: usize, stop_time_idx: StopTimeIdx) -> (r:
        Option<usize>)
        requires
            vehicle_journey_idx < self.collections().vehicle_journeys@.len(),
        ensures
            ({
                let stop_times = self.collections().vehicle_journeys@[vehicle_journey_idx as int].stop_times@;
                if stop_time_idx.idx < stop_times.len() {
                    r == Some(stop_times[stop_time_idx.idx as int].stop_point_idx)
                } else {
                    r is None
                }
            }),
    {
        let stop_times = &self.collections.vehicle_journeys[vehicle_journey_idx].stop_times;
        if stop_time_idx.idx < stop_times.len() {
            Some(stop_times[stop_time_idx.idx].stop_point_idx)
        } else {
            None
        }
    }

    /// `true` when vehicle journey `vehicle_journey_idx` runs on `date`
    pub fn trip_exists(&self, vehicle_journey_idx: usize, date: Date) -> (r: bool)
        requires
            vehicle_journey_idx < self.collections().vehicle_journeys@.len(),
        ensures
            r == trip_exists_in(self.collections(), vehicle_journey_idx as int, date),
    {
        let dates = match self.vehicle_journey_dates(vehicle_journey_idx) {
            Some(dates) => dates,
            None => {
                return false;
            },
        };
        let mut i: usize = 0;
        while i < dates.len()
            invariant
                i <= dates@.len(),
                forall|j: int| 0 <= j < i ==> dates@[j] != date,
                calendar_index_of(self.collections(), vehicle_journey_idx as int) matches Some(p)
                    && dates@ == self.collections().calendars@[p as int].dates@,
            decreases dates@.len() - i,
        {
            if dates[i] == date {
                assert(dates@[i as int] == date);
                assert(dates@.contains(date));
                return true;
            }
            i += 1;
        }
        assert(!dates@.contains(date));
        false
    }

    /// Whether the times of the stop times from `_from_stoptime_idx` to `_to_stoptime_idx`
    /// of a vehicle journey are estimated: the data does not say, so never
    pub fn has_datetime_estimated(
        &self,
        _vehicle_journey_idx: usize,
        _from_stoptime_idx: StopTimeIdx,
        _to_stoptime_idx: StopTimeIdx,
    ) -> (r: bool)
        ensures
            !r,
    {
        false
    }
}

/// Why the stop time `stop_time` cannot be read: a pickup or drop off type that is neither
/// 0 nor 1, or a board or debark time that is not a time of a timezoned day; none when it
/// can be read
pub open spec fn stop_time_error(stop_time: StopTime) -> Option<BadStopTime> {
    match flow_of(stop_time.pickup_type, stop_time.drop_off_type) {
        Err(e) => Some(e),
        Ok(_) => if !(stop_time.departure_time <= i32::MAX && in_day_range(
            stop_time.departure_time - stop_time.boarding_duration,
        )) {
            Some(BadStopTime::BoardTime)
        } else if !(stop_time.arrival_time <= i32::MAX && stop_time.arrival_time
            + stop_time.alighting_duration <= i32::MAX && in_day_range(
            stop_time.arrival_time + stop_time.alighting_duration,
        )) {
            Some(BadStopTime::DebarkTime)
        } else {
            None
        },
    }
}

/// `read` is the stop time `stop_time` as the routing reads it: at its stop point, boarding
/// its boarding duration before its departure, debarking its alighting duration after its
/// arrival
pub open spec fn reads_as(stop_time: StopTime, read: ReadStopTime) -> bool {
    &&& read.stop == StopPointIdx::Base(stop_time.stop_point_idx)
    &&& read.board_time@ == stop_time.departure_time - stop_time.boarding_duration
    &&& read.debark_time@ == stop_time.arrival_time + stop_time.alighting_duration
    &&& flow_of(stop_time.pickup_type, stop_time.drop_off_type) == Ok::<
        FlowDirection,
        BadStopTime,
    >(read.flow_direction)
}

/// Each stop time of `stop_times` can be read.
pub open spec fn all_readable(stop_times: Seq<StopTime>) -> bool {
    forall|i: int| 0 <= i < stop_times.len() ==> stop_time_error(#[trigger] stop_times[i]) is None
}

/// `read` is the stop times `stop_times` as the routing reads them.
pub open spec fn reads_all(stop_times: Seq<StopTime>, read: Seq<ReadStopTime>) -> bool {
    &&& read.len() == stop_times.len()
    &&& forall|i: int| 0 <= i < stop_times.len() ==> reads_as(#[trigger] stop_times[i], read[i])
}

/// The stop times `stop_times` as the routing reads them; the first one that cannot be read,
/// by its position, and why, when there is one
fn read_stop_times(stop_times: &[StopTime]) -> (r: Result<Vec<ReadStopTime>, (BadStopTime, usize)>)
    ensures
        r is Ok <==> forall|i: int| 0 <= i < stop_times@.len() ==> stop_time_error(#[trigger] stop_times@[i]) is None,
        r matches Ok(read) ==> read@.len() == stop_times@.len() && forall|i: int|
            0 <= i < stop_times@.len() ==> reads_as(#[trigger] stop_times@[i], read@[i]),
        r matches Err((e, i)) ==> i < stop_times@.len() && stop_time_error(stop_times@[i as int])
            == Some(e) && forall|j: int| 0 <= j < i ==> stop_time_error(#[trigger] stop_times@[j]) is None,
{
    let mut read: Vec<ReadStopTime> = Vec::new();
    let mut i: usize = 0;
    while i < stop_times.len()
        invariant
            i <= stop_times@.len(),
            read@.len() == i,
            forall|j: int| 0 <= j < i ==> stop_time_error(#[trigger] stop_times@[j]) is None,
            forall|j: int| 0 <= j < i ==> reads_as(#[trigger] stop_times@[j], read@[j]),
        decreases stop_times@.len() - i,
    {
        let stop_time = &stop_times[i];
        let flow_direction = match flow(stop_time.pickup_type, stop_time.drop_off_type) {
            Ok(flow_direction) => flow_direction,
            Err(e) => {
                return Err((e, i));
            },
        };
        let board_time = match board_time(stop_time.departure_time, stop_time.boarding_duration) {
            Some(t) => t,
            None => {
                return Err((BadStopTime::BoardTime, i));
            },
        };
        let debark_time = match debark_time(stop_time.arrival_time, stop_time.alighting_duration) {
            Some(t) => t,
            None => {
                return Err((BadStopTime::DebarkTime, i));
            },
        };
        read.push(
            ReadStopTime {
                stop: StopPointIdx::Base(stop_time.stop_point_idx),
                board_time,
                debark_time,
                flow_direction,
            },
        );
        i += 1;
    }
    Ok(read)
}

// contains ids
impl BaseModel {
    /// `true` when there is a line of id `id`
    pub fn contains_line_id(&self, id: &str) -> (r: bool)
        ensures
            r == contains_id(self.collections().lines@, id@),
    {
        proof {
            objects::lemma_index_of_id(self.collections.lines@, id@);
        }
        find_by_id(&self.collections.lines, id).is_some()
    }

    /// `true` when there is a route of id `id`
    pub fn contains_route_id(&self, id: &str) -> (r: bool)
        ensures
            r == contains_id(self.collections().routes@, id@),
    {
        proof {
            objects::lemma_index_of_id(self.collections.routes@, id@);
        }
        find_by_id(&self.collections.routes, id).is_some()
    }

    /// `true` when there is a network of id `id`
    pub fn contains_network_id(&self, id: &str) -> (r: bool)
        ensures
            r == contains_id(self.collections().networks@, id@),
    {
        proof {
            objects::lemma_index_of_id(self.collections.networks@, id@);
        }
        find_by_id(&self.collections.networks, id).is_some()
    }

    /// `true` when there is a physical mode of id `id`
    pub fn contains_physical_mode_id(&self, id: &str) -> (r: bool)
        ensures
            r == contains_id(self.collections().physical_modes@, id@),
    {
        proof {
            objects::lemma_index_of_id(self.collections.physical_modes@, id@);
        }
        find_by_id(&self.collections.physical_modes, id).is_some()
    }

    /// `true` when there is a commercial mode of id `id`
    pub fn contains_commercial_model_id(&self, id: &str) -> (r: bool)
        ensures
            r == contains_id(self.collections().commercial_modes@, id@),
    {
        proof {
            objects::lemma_index_of_id(self.collections.commercial_modes@, id@);
        }
        find_by_id(&self.collections.commercial_modes, id).is_some()
    }

    /// `true` when there is a stop point of id `id`
    pub fn contains_stop_point_id(&self, id: &str) -> (r: bool)
        ensures
            r == contains_id(self.collections().stop_points@, id@),
    {
        proof {
            objects::lemma_index_of_id(self.collections.stop_points@, id@);
        }
        find_by_id(&self.collections.stop_points, id).is_some()
    }

    /// `true` when there is a stop area of id `id`
    pub fn contains_stop_area_id(&self, id: &str) -> (r: bool)
        ensures
            r == contains_id(self.collections().stop_areas@, id@),
    {
        proof {
            objects::lemma_index_of_id(self.collections.stop_areas@, id@);
        }
        find_by_id(&self.collections.stop_areas, id).is_some()
    }
}

// stop times
impl BaseModel {
    /// The stop times of vehicle journey `vehicle_journey_idx` as the routing reads them; the
    /// first one that cannot be read, and why, when there is one
    pub fn stop_times(&self, vehicle_journey_idx: usize) -> (r: Result<
        Vec<ReadStopTime>,
        (BadStopTime, StopTimeIdx),
    >)
        requires
            vehicle_journey_idx < self.collections().vehicle_journeys@.len(),
        ensures
            ({
                let stop_times = self.collections().vehicle_journeys@[vehicle_journey_idx as int].stop_times@;
                &&& r is Ok <==> forall|i: int|
                    0 <= i < stop_times.len() ==> stop_time_error(#[trigger] stop_times[i]) is None
                &&& r matches Ok(read) ==> read@.len() == stop_times.len() && forall|i: int|
                    0 <= i < stop_times.len() ==> reads_as(#[trigger] stop_times[i], read@[i])
                &&& r matches Err((e, i)) ==> i.idx < stop_times.len() && stop_time_error(
                    stop_times[i.idx as int],
                ) == Some(e) && forall|j: int|
                    0 <= j < i.idx ==> stop_time_error(#[trigger] stop_times[j]) is None
            }),
    {
        let stop_times = self.collections.vehicle_journeys[vehicle_journey_idx].stop_times.as_slice();
        match read_stop_times(stop_times) {
            Ok(read) => Ok(read),
            Err((e, idx)) => Err((e, StopTimeIdx { idx })),
        }
    }

    /// The stop times from `from_stoptime_idx` to `to_stoptime_idx`, both included, of
    /// vehicle journey `vehicle_journey_idx` as the routing reads them; the first one that
    /// cannot be read, and why, when there is one
    pub fn stop_times_partial(
        &self,
        vehicle_journey_idx: usize,
        from_stoptime_idx: StopTimeIdx,
        to_stoptime_idx: StopTimeIdx,
    ) -> (r: Result<Vec<ReadStopTime>, (BadStopTime, StopTimeIdx)>)
        requires
            vehicle_journey_idx < self.collections().vehicle_journeys@.len(),
            from_stoptime_idx.idx <= to_stoptime_idx.idx + 1,
            to_stoptime_idx.idx < self.collections().vehicle_journeys@[vehicle_journey_idx as int].stop_times@.len(),
        ensures
            ({
                let stop_times = self.collections().vehicle_journeys@[vehicle_journey_idx as int].stop_times@.subrange(
                    from_stoptime_idx.idx as int,
                    to_stoptime_idx.idx + 1,
                );
                &&& r is Ok <==> forall|i: int|
                    0 <= i < stop_times.len() ==> stop_time_error(#[trigger] stop_times[i]) is None
                &&& r matches Ok(read) ==> read@.len() == stop_times.len() && forall|i: int|
                    0 <= i < stop_times.len() ==> reads_as(#[trigger] stop_times[i], read@[i])
                &&& r matches Err((e, i)) ==> from_stoptime_idx.idx <= i.idx && i.idx - from_stoptime_idx.idx
                    < stop_times.len() && stop_time_error(
                    stop_times[i.idx - from_stoptime_idx.idx],
                ) == Some(e) && forall|j: int|
                    0 <= j < i.idx - from_stoptime_idx.idx ==> stop_time_error(#[trigger] stop_times[j]) is None
            }),
    {
        let stop_times = self.collections.vehicle_journeys[vehicle_journey_idx].stop_times.as_slice();
        let nb_of_stop_times = stop_times.len();
        assert(to_stoptime_idx.idx < nb_of_stop_times);
        let inner = slice_subrange(stop_times, from_stoptime_idx.idx, to_stoptime_idx.idx + 1);
        match read_stop_times(inner) {
            Ok(read) => Ok(read),
            Err((e, idx)) => Err((e, StopTimeIdx { idx: from_stoptime_idx.idx + idx })),
        }
    }
}

// transfers
impl BaseModel {
    /// The number of transfers
    pub fn nb_of_transfers(&self) -> (r: usize)
        ensures
            r == self.collections().transfers@.len(),
    {
        self.collections.transfers.len()
    }

    /// The indices of the transfers
    pub fn transfers(&self) -> (r: Vec<usize>)
        ensures
            r@ == Seq::new(self.collections().transfers@.len(), |i: int| i as usize),
    {
        indices(self.collections.transfers.len())
    }

    /// The stop point that transfer `transfer_idx` starts from, if the data holds it
    pub fn from_stop(&self, transfer_idx: usize) -> (r: Option<usize>)
        requires
            transfer_idx < self.collections().transfers@.len(),
        ensures
            r matches Some(p) ==> index_of_id(
                self.collections().stop_points@,
                self.collections().transfers@[transfer_idx as int].from_stop_id@,
            ) == Some(p as nat),
            r is None ==> index_of_id(
                self.collections().stop_points@,
                self.collections().transfers@[transfer_idx as int].from_stop_id@,
            ) is None,
    {
        find_by_id(&self.collections.stop_points, self.collections.transfers[transfer_idx].from_stop_id.as_str())
    }

    /// What stands for the name of the stop point that transfer `transfer_idx` starts
    /// from: its id
    pub fn from_stop_name(&self, transfer_idx: usize) -> (r: &str)
        requires
            transfer_idx < self.collections().transfers@.len(),
        ensures
            r@ == self.collections().transfers@[transfer_idx as int].from_stop_id@,
    {
        self.collections.transfers[transfer_idx].from_stop_id.as_str()
    }

    /// The stop point that transfer `transfer_idx` goes to, if the data holds it
    pub fn to_stop(&self, transfer_idx: usize) -> (r: Option<usize>)
        requires
            transfer_idx < self.collections().transfers@.len(),
        ensures
            r matches Some(p) ==> index_of_id(
                self.collections().stop_points@,
                self.collections().transfers@[transfer_idx as int].to_stop_id@,
            ) == Some(p as nat),
            r is None ==> index_of_id(
                self.collections().stop_points@,
                self.collections().transfers@[transfer_idx as int].to_stop_id@,
            ) is None,
    {
        find_by_id(&self.collections.stop_points, self.collections.transfers[transfer_idx].to_stop_id.as_str())
    }

    /// What stands for the name of the stop point that transfer `transfer_idx` goes to: its
    /// id
    pub fn to_stop_name(&self, transfer_idx: usize) -> (r: &str)
        requires
            transfer_idx < self.collections().transfers@.len(),
        ensures
            r@ == self.collections().transfers@[transfer_idx as int].to_stop_id@,
    {
        self.collections.transfers[transfer_idx].to_stop_id.as_str()
    }

    /// The duration of transfer `transfer_idx`, margin included: the one that its file
    /// gives, or else the default one
    pub fn transfer_duration(&self, transfer_idx: usize) -> (r: PositiveDuration)
        requires
            transfer_idx < self.collections().transfers@.len(),
        ensures
            r@ == match self.collections().transfers@[transfer_idx as int].real_min_transfer_time {
                Some(seconds) => seconds as nat,
                None => self.default_transfer_seconds(),
            },
    {
        proof {
            self.default_transfer_duration.lemma_view_is_seconds();
        }
        let seconds = match self.collections.transfers[transfer_idx].real_min_transfer_time {
            Some(seconds) => seconds,
            None => self.default_transfer_duration.seconds,
        };
        PositiveDuration::from_hms(0, 0, seconds)
    }

    /// The walking time of transfer `transfer_idx`: the one that its file gives, or else
    /// none
    pub fn transfer_walking_duration(&self, transfer_idx: usize) -> (r: PositiveDuration)
        requires
            transfer_idx < self.collections().transfers@.len(),
        ensures
            r@ == match self.collections().transfers@[transfer_idx as int].min_transfer_time {
                Some(seconds) => seconds as nat,
                None => 0,
            },
    {
        let seconds = match self.collections.transfers[transfer_idx].min_transfer_time {
            Some(seconds) => seconds,
            None => 0u32,
        };
        PositiveDuration::from_hms(0, 0, seconds)
    }
}

/// The object of `items` of id `id`, if there is one
fn get_by_id<'a, T: HasId>(items: &'a Vec<T>, id: &str) -> (r: Option<&'a T>)
    ensures
        match index_of_id(items@, id@) {
            None => r is None,
            Some(p) => r == Some(&items@[p as int]),
        },
{
    match find_by_id(items, id) {
        Some(p) => {
            proof {
                objects::lemma_index_of_id(items@, id@);
            }
            Some(&items[p])
        },
        None => None,
    }
}

// various
impl BaseModel {
    /// The contributors of the data
    pub fn contributors(&self) -> (r: &[Contributor])
        ensures
            r@ == self.collections().contributors@,
    {
        self.collections.contributors.as_slice()
    }

    /// The line of id `id`, if there is one
    pub fn line(&self, id: &str) -> (r: Option<&Line>)
        ensures
            match index_of_id(self.collections().lines@, id@) {
                None => r is None,
                Some(p) => r == Some(&self.collections().lines@[p as int]),
            },
    {
        get_by_id(&self.collections.lines, id)
    }

    /// The route of id `id`, if there is one
    pub fn route(&self, id: &str) -> (r: Option<&Route>)
        ensures
            match index_of_id(self.collections().routes@, id@) {
                None => r is None,
                Some(p) => r == Some(&self.collections().routes@[p as int]),
            },
    {
        get_by_id(&self.collections.routes, id)
    }

    /// The routes
    pub fn routes(&self) -> (r: &[Route])
        ensures
            r@ == self.collections().routes@,
    {
        self.collections.routes.as_slice()
    }

    /// The network of id `id`, if there is one
    pub fn network(&self, id: &str) -> (r: Option<&Network>)
        ensures
            match index_of_id(self.collections().networks@, id@) {
                None => r is None,
                Some(p) => r == Some(&self.collections().networks@[p as int]),
            },
    {
        get_by_id(&self.collections.networks, id)
    }

    /// The stop area of id `id`, if there is one
    pub fn stop_area(&self, id: &str) -> (r: Option<&StopArea>)
        ensures
            match index_of_id(self.collections().stop_areas@, id@) {
                None => r is None,
                Some(p) => r == Some(&self.collections().stop_areas@[p as int]),
            },
    {
        get_by_id(&self.collections.stop_areas, id)
    }

    /// The commercial mode of id `id`, if there is one
    pub fn commercial_mode(&self, id: &str) -> (r: Option<&Mode>)
        ensures
            match index_of_id(self.collections().commercial_modes@, id@) {
                None => r is None,
                Some(p) => r == Some(&self.collections().commercial_modes@[p as int]),
            },
    {
        get_by_id(&self.collections.commercial_modes, id)
    }

    /// The physical mode of id `id`, if there is one
    pub fn physical_mode(&self, id: &str) -> (r: Option<&Mode>)
        ensures
            match index_of_id(self.collections().physical_modes@, id@) {
                None => r is None,
                Some(p) => r == Some(&self.collections().physical_modes@[p as int]),
            },
    {
        get_by_id(&self.collections.physical_modes, id)
    }
}

/// The name of the timezone in which the times of base vehicle journey `idx` of
/// `collections` are read: that of its network when known, else `UTC`
pub open spec fn trip_timezone_of(collections: Collections, idx: int) -> Seq<char> {
    match network_index_of(collections, idx) {
        Some(p) => match collections.networks@[p as int].timezone {
            Some(timezone) => timezone@,
            None => "UTC"@,
        },
        None => "UTC"@,
    }
}

/// The earlier of the arrival and the departure time of `stop_time`
pub open spec fn earliest_time(stop_time: StopTime) -> int {
    if stop_time.arrival_time <= stop_time.departure_time {
        stop_time.arrival_time as int
    } else {
        stop_time.departure_time as int
    }
}

/// The earlier of the arrival and the departure time of `stop_time`
fn earliest_time_of(stop_time: &StopTime) -> (r: u32)
    ensures
        r == earliest_time(*stop_time),
{
    if stop_time.arrival_time <= stop_time.departure_time {
        stop_time.arrival_time
    } else {
        stop_time.departure_time
    }
}

/// The start of the day `date` of base vehicle journey `idx` of `collections` in its
/// timezone: twelve hours before the instant of its local noon, when that is a single
/// instant
pub open spec fn trip_day_start(collections: Collections, idx: int, date: Date) -> Option<int> {
    timezoned_day_start(trip_timezone_of(collections, idx), date.days_from_ce as int)
}

/// The time period of the trip of base vehicle journey `idx` of `base` on `date`, when it
/// runs that day and has stop times: from the earlier of the arrival and departure times of
/// its first stop time to one second after that of its last one, those times being counted
/// from the start of the day in the timezone of the trip; none when it does not run, has no
/// stop time, or the period would be empty
pub open spec fn trip_period_of(base: BaseModel, idx: int, date: Date) -> Option<(int, int)> {
    let collections = base.collections();
    let stop_times = collections.vehicle_journeys@[idx].stop_times@;
    if !trip_exists_in(collections, idx, date) || stop_times.len() == 0 {
        None
    } else {
        match trip_day_start(collections, idx, date) {
            None => None,
            Some(start) => {
                let first = start + earliest_time(stop_times[0]);
                let last = start + earliest_time(stop_times.last()) + 1;
                if first < last {
                    Some((first, last))
                } else {
                    None
                }
            },
        }
    }
}

impl BaseModel {
    /// The local noon of `date` in the timezone of base vehicle journey
    /// `vehicle_journey_idx` is a single instant, not too far from the start of the count of
    /// seconds, when the vehicle journey runs that day and has stop times.
    pub open spec fn trip_period_defined(&self, vehicle_journey_idx: int, date: Date) -> bool {
        let collections = self.collections();
        trip_exists_in(collections, vehicle_journey_idx, date)
            && collections.vehicle_journeys@[vehicle_journey_idx].stop_times@.len() > 0 ==> (
        trip_day_start(collections, vehicle_journey_idx, date) matches Some(start)
            && -0x4000_0000_0000_0000 <= start <= 0x4000_0000_0000_0000)
    }

    /// The time period of the trip of `vehicle_journey_idx` on `date`, as `trip_period_of`
    /// says
    pub fn trip_time_period(&self, vehicle_journey_idx: usize, date: &Date) -> (r: Option<TimePeriod>)
        requires
            vehicle_journey_idx < self.collections().vehicle_journeys@.len(),
            self.trip_period_defined(vehicle_journey_idx as int, *date),
        ensures
            match trip_period_of(*self, vehicle_journey_idx as int, *date) {
                Some(period) => r matches Some(p) && p@ == period,
                None => r is None,
            },
    {
        if !self.trip_exists(vehicle_journey_idx, *date) {
            return None;
        }
        let stop_times = &self.collections.vehicle_journeys[vehicle_journey_idx].stop_times;
        if stop_times.len() == 0 {
            return None;
        }
        let timezone = match self.timezone(vehicle_journey_idx) {
            Some(timezone) => timezone,
            None => "UTC",
        };
        let noon: i64 = (date.days_from_ce as i64 - UNIX_EPOCH_DAYS_FROM_CE as i64) * SECONDS_IN_DAY + 43200;
        let noon_utc = local_to_utc(timezone, noon).unwrap();
        let start = noon_utc - 43200;
        let first = start + earliest_time_of(&stop_times[0]) as i64;
        let last = start + earliest_time_of(&stop_times[stop_times.len() - 1]) as i64 + 1;
        match TimePeriod::new(first, last) {
            Ok(period) => Some(period),
            Err(_) => None,
        }
    }

    /// The start of the day `date` of vehicle journey `vehicle_journey_idx`, as
    /// `trip_day_start` says, when it is a single instant not too far from the start of the
    /// count of seconds; none otherwise
    pub fn day_start(&self, vehicle_journey_idx: usize, date: &Date) -> (r: Option<i64>)
        requires
            vehicle_journey_idx < self.collections().vehicle_journeys@.len(),
        ensures
            match trip_day_start(self.collections(), vehicle_journey_idx as int, *date) {
                Some(start) => if -0x4000_0000_0000_0000 <= start <= 0x4000_0000_0000_0000 {
                    r == Some(start as i64)
                } else {
                    r is None
                },
                None => r is None,
            },
    {
        let timezone = match self.timezone(vehicle_journey_idx) {
            Some(timezone) => timezone,
            None => "UTC",
        };
        let noon: i64 = (date.days_from_ce as i64 - UNIX_EPOCH_DAYS_FROM_CE as i64) * SECONDS_IN_DAY + 43200;
        match local_to_utc(timezone, noon) {
            None => None,
            Some(noon_utc) => {
                if noon_utc < -0x4000_0000_0000_0000 + 43200 || noon_utc > 0x4000_0000_0000_0000
                    + 43200 {
                    None
                } else {
                    Some(noon_utc - 43200)
                }
            },
        }
    }

    /// The time period of the trip of `vehicle_journey_idx` on `date`, as
    /// `trip_time_period` gives it, when `trip_period_defined` holds; none otherwise
    pub fn checked_trip_time_period(&self, vehicle_journey_idx: usize, date: &Date) -> (r: Option<
        Option<TimePeriod>,
    >)
        requires
            vehicle_journey_idx < self.collections().vehicle_journeys@.len(),
        ensures
            r is Some <==> self.trip_period_defined(vehicle_journey_idx as int, *date),
            r matches Some(period) ==> match trip_period_of(*self, vehicle_journey_idx as int, *date) {
                Some(p) => period matches Some(q) && q@ == p,
                None => period is None,
            },
    {
        if self.trip_exists(vehicle_journey_idx, *date)
            && self.collections.vehicle_journeys[vehicle_journey_idx].stop_times.len() > 0 {
            let timezone = match self.timezone(vehicle_journey_idx) {
                Some(timezone) => timezone,
                None => "UTC",
            };
            let noon: i64 = (date.days_from_ce as i64 - UNIX_EPOCH_DAYS_FROM_CE as i64) * SECONDS_IN_DAY + 43200;
            match local_to_utc(timezone, noon) {
                None => {
                    return None;
                },
                Some(noon_utc) => {
                    if noon_utc < -0x4000_0000_0000_0000 + 43200 || noon_utc > 0x4000_0000_0000_0000
                        + 43200 {
                        return None;
                    }
                },
            }
        }
        Some(self.trip_time_period(vehicle_journey_idx, date))
    }
}

} // verus!
