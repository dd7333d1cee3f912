use vstd::prelude::*;

use crate::dates::Date;
use crate::models::base_model::objects::{Rgb, contains_id, index_of_id, Line, Mode, Network, Route, StopArea, VehicleJourney};
use crate::models::base_model::objects::StopTime as BaseStopTime;
use crate::models::base_model::{
    all_readable, reads_all, trip_exists_in, PREFIX_ID_STOP_POINT,
    direction_of, house_number_of, line_index_of, network_index_of, route_index_of, street_name_of,
    text_of, str_text_of, trip_short_name_of, BaseModel,
};
use crate::models::real_time_model::{
    position_of, NewStopPointIdx, NewVehicleJourneyIdx, RealTimeModel, StopTime as RealTimeStopTime,
    TripData, TripVersion,
};
use crate::models::{Contributor, RealTimeLevel, StopPointIdx, StopTime as ReadStopTime, StopTimeIdx, VehicleJourneyIdx};

verus! {

/// The base schedule and the real-time updates on top of it, read together
#[derive(Clone, Copy)]
pub struct ModelRefs<'model> {
    pub base: &'model BaseModel,
    pub real_time: &'model RealTimeModel,
}

/// The last version that the real-time updates gave to the trip of `vehicle_journey_idx` on
/// `date`, if any
pub open spec fn version_of(real_time: RealTimeModel, vehicle_journey_idx: VehicleJourneyIdx, date: Date) -> Option<
    TripVersion,
> {
    match vehicle_journey_idx {
        VehicleJourneyIdx::Base(idx) => real_time.base_version(idx as nat, date.days_from_ce as int),
        VehicleJourneyIdx::New(idx) => real_time.new_version(idx.idx as nat, date.days_from_ce as int),
    }
}

impl<'model> ModelRefs<'model> {
    /// `stop_idx` is a stop point of the base schedule or a new stop point with its data.
    pub open spec fn valid_stop_point(&self, stop_idx: StopPointIdx) -> bool {
        match stop_idx {
            StopPointIdx::Base(idx) => idx < self.base.collections().stop_points@.len(),
            StopPointIdx::New(idx) => idx.idx < self.real_time.new_stops_len(),
        }
    }

    /// `vehicle_journey_idx` is a vehicle journey of the base schedule or a new one.
    pub open spec fn valid_vehicle_journey(&self, vehicle_journey_idx: VehicleJourneyIdx) -> bool {
        match vehicle_journey_idx {
            VehicleJourneyIdx::Base(idx) => idx < self.base.collections().vehicle_journeys@.len(),
            VehicleJourneyIdx::New(idx) => idx.idx < self.real_time.new_ids().len(),
        }
    }

    /// The base schedule `base` with the real-time updates `real_time`
    pub fn new(base: &'model BaseModel, real_time: &'model RealTimeModel) -> (r: Self)
        ensures
            r.base == base,
            r.real_time == real_time,
    {
        Self { base, real_time }
    }

    /// The stop point of id `stop_id`: that of the base schedule when it has one, else the
    /// new one of that id, if any
    pub fn stop_point_idx(&self, stop_id: &str) -> (r: Option<StopPointIdx>)
        ensures
            match index_of_id(self.base.collections().stop_points@, stop_id@) {
                Some(p) => r == Some(StopPointIdx::Base(p as usize)),
                None => match position_of(self.real_time.new_stop_ids(), stop_id@) {
                    Some(q) => r == Some(StopPointIdx::New(self.real_time.new_stop_indices()[q as int])),
                    None => r is None,
                },
            },
    {
        match self.base.stop_point_idx(stop_id) {
            Some(idx) => Some(StopPointIdx::Base(idx)),
            None => match self.real_time.new_stop_point_idx(stop_id) {
                Some(idx) => Some(StopPointIdx::New(idx)),
                None => None,
            },
        }
    }

    /// The name of the stop point `stop_idx`
    pub fn stop_point_name(&self, stop_idx: &StopPointIdx) -> (r: &str)
        requires
            self.valid_stop_point(*stop_idx),
        ensures
            r@ == match *stop_idx {
                StopPointIdx::Base(idx) => self.base.collections().stop_points@[idx as int].name@,
                StopPointIdx::New(idx) => self.real_time.new_stop_names()[idx.idx as int],
            },
    {
        match stop_idx {
            StopPointIdx::Base(idx) => self.base.stop_point_name(*idx),
            StopPointIdx::New(idx) => self.real_time.new_stop_name(idx),
        }
    }

    /// What stands for the name of the stop area of the stop point `stop_idx`: the id of the
    /// stop area of a base stop point, `unknown_stop_area` for a new one
    pub fn stop_area_name(&self, stop_idx: &StopPointIdx) -> (r: &str)
        requires
            self.valid_stop_point(*stop_idx),
        ensures
            r@ == match *stop_idx {
                StopPointIdx::Base(idx) => self.base.collections().stop_points@[idx as int].stop_area_id@,
                StopPointIdx::New(_) => "unknown_stop_area"@,
            },
    {
        match stop_idx {
            StopPointIdx::Base(idx) => self.base.stop_area_name(*idx),
            StopPointIdx::New(_) => "unknown_stop_area",
        }
    }

    /// The vehicle journey of id `id`: that of the base schedule when it has one, else the
    /// new one of that id, if any
    pub fn vehicle_journey_idx(&self, id: &str) -> (r: Option<VehicleJourneyIdx>)
        ensures
            match index_of_id(self.base.collections().vehicle_journeys@, id@) {
                Some(p) => r == Some(VehicleJourneyIdx::Base(p as usize)),
                None => match position_of(self.real_time.new_ids(), id@) {
                    Some(q) => r == Some(VehicleJourneyIdx::New(NewVehicleJourneyIdx { idx: q as usize })),
                    None => r is None,
                },
            },
    {
        match self.base.vehicle_journey_idx(id) {
            Some(idx) => Some(VehicleJourneyIdx::Base(idx)),
            None => match self.real_time.new_vehicle_journey_idx(id) {
                Some(idx) => Some(VehicleJourneyIdx::New(idx)),
                None => None,
            },
        }
    }

    /// What stands for the name of the vehicle journey `vehicle_journey_idx`: its id
    pub fn vehicle_journey_name(&self, vehicle_journey_idx: &VehicleJourneyIdx) -> (r: &str)
        requires
            self.valid_vehicle_journey(*vehicle_journey_idx),
        ensures
            r@ == match *vehicle_journey_idx {
                VehicleJourneyIdx::Base(idx) => self.base.collections().vehicle_journeys@[idx as int].id@,
                VehicleJourneyIdx::New(idx) => self.real_time.new_ids()[idx.idx as int]@,
            },
    {
        match vehicle_journey_idx {
            VehicleJourneyIdx::Base(idx) => self.base.vehicle_journey_name(*idx),
            VehicleJourneyIdx::New(idx) => self.real_time.new_vehicle_journey_name(idx),
        }
    }

    /// What stands for the name of the line of `vehicle_journey_idx`: the id of the line of
    /// the route of a base vehicle journey when the data holds its route, else `unknown_line`
    pub fn line_name(&self, vehicle_journey_idx: &VehicleJourneyIdx) -> (r: &str)
        requires
            self.valid_vehicle_journey(*vehicle_journey_idx),
        ensures
            r@ == match *vehicle_journey_idx {
                VehicleJourneyIdx::Base(idx) => match route_index_of(self.base.collections(), idx as int) {
                    Some(p) => self.base.collections().routes@[p as int].line_id@,
                    None => "unknown_line"@,
                },
                VehicleJourneyIdx::New(_) => "unknown_line"@,
            },
    {
        let unknown_line = "unknown_line";
        match vehicle_journey_idx {
            VehicleJourneyIdx::Base(idx) => match self.base.line_name(*idx) {
                Some(name) => name,
                None => unknown_line,
            },
            VehicleJourneyIdx::New(_) => unknown_line,
        }
    }

    /// What stands for the name of the route of `vehicle_journey_idx`: the id of the route
    /// of a base vehicle journey, `unknown_route` for a new one
    pub fn route_name(&self, vehicle_journey_idx: &VehicleJourneyIdx) -> (r: &str)
        requires
            self.valid_vehicle_journey(*vehicle_journey_idx),
        ensures
            r@ == match *vehicle_journey_idx {
                VehicleJourneyIdx::Base(idx) => self.base.collections().vehicle_journeys@[idx as int].route_id@,
                VehicleJourneyIdx::New(_) => "unknown_route"@,
            },
    {
        match vehicle_journey_idx {
            VehicleJourneyIdx::Base(idx) => self.base.route_name(*idx),
            VehicleJourneyIdx::New(_) => "unknown_route",
        }
    }

    /// What stands for the name of the network of `vehicle_journey_idx`: the id of the
    /// network of the line of a base vehicle journey when the data holds its route and its
    /// line, else `unknown_network`
    pub fn network_name(&self, vehicle_journey_idx: &VehicleJourneyIdx) -> (r: &str)
        requires
            self.valid_vehicle_journey(*vehicle_journey_idx),
        ensures
            r@ == match *vehicle_journey_idx {
                VehicleJourneyIdx::Base(idx) => match line_index_of(self.base.collections(), idx as int) {
                    Some(p) => self.base.collections().lines@[p as int].network_id@,
                    None => "unknown_network"@,
                },
                VehicleJourneyIdx::New(_) => "unknown_network"@,
            },
    {
        let unknown_network = "unknown_network";
        match vehicle_journey_idx {
            VehicleJourneyIdx::Base(idx) => match self.base.network_name(*idx) {
                Some(name) => name,
                None => unknown_network,
            },
            VehicleJourneyIdx::New(_) => unknown_network,
        }
    }

    /// What stands for the name of the physical mode of `vehicle_journey_idx`: the id of the
    /// physical mode of a base vehicle journey, `unknown_physical_mode` for a new one
    pub fn physical_mode_name(&self, vehicle_journey_idx: &VehicleJourneyIdx) -> (r: &str)
        requires
            self.valid_vehicle_journey(*vehicle_journey_idx),
        ensures
            r@ == match *vehicle_journey_idx {
                VehicleJourneyIdx::Base(idx) => self.base.collections().vehicle_journeys@[idx as int].physical_mode_id@,
                VehicleJourneyIdx::New(_) => "unknown_physical_mode"@,
            },
    {
        match vehicle_journey_idx {
            VehicleJourneyIdx::Base(idx) => self.base.physical_mode_name(*idx),
            VehicleJourneyIdx::New(_) => "unknown_physical_mode",
        }
    }

    /// What stands for the name of the commercial mode of `vehicle_journey_idx`: the id of
    /// the commercial mode of the line of a base vehicle journey when the data holds its
    /// route and its line, else `unknown_commercial_mode`
    pub fn commercial_mode_name(&self, vehicle_journey_idx: &VehicleJourneyIdx) -> (r: &str)
        requires
            self.valid_vehicle_journey(*vehicle_journey_idx),
        ensures
            r@ == match *vehicle_journey_idx {
                VehicleJourneyIdx::Base(idx) => match line_index_of(self.base.collections(), idx as int) {
                    Some(p) => self.base.collections().lines@[p as int].commercial_mode_id@,
                    None => "unknown_commercial_mode"@,
                },
                VehicleJourneyIdx::New(_) => "unknown_commercial_mode"@,
            },
    {
        let unknown_commercial_mode = "unknown_commercial_mode";
        match vehicle_journey_idx {
            VehicleJourneyIdx::Base(idx) => match self.base.commercial_mode_name(*idx) {
                Some(name) => name,
                None => unknown_commercial_mode,
            },
            VehicleJourneyIdx::New(_) => unknown_commercial_mode,
        }
    }
}

/// The stop point at stop time `stop_time_idx` of the trip `stop_times`, if it has it
pub open spec fn stop_at(stop_times: Seq<RealTimeStopTime>, stop_time_idx: StopTimeIdx) -> Option<StopPointIdx> {
    if stop_time_idx.idx < stop_times.len() {
        Some(stop_times[stop_time_idx.idx as int].stop)
    } else {
        None
    }
}

/// The stop point at stop time `stop_time_idx` of the base vehicle journey `idx` of `base`,
/// if it has it
pub open spec fn base_stop_at(base: BaseModel, idx: usize, stop_time_idx: StopTimeIdx) -> Option<StopPointIdx> {
    let stop_times = base.collections().vehicle_journeys@[idx as int].stop_times@;
    if stop_time_idx.idx < stop_times.len() {
        Some(StopPointIdx::Base(stop_times[stop_time_idx.idx as int].stop_point_idx))
    } else {
        None
    }
}

/// The stop point at stop time `stop_time_idx` of `stop_times`, if it has it
fn stop_at_position(stop_times: &Vec<RealTimeStopTime>, stop_time_idx: StopTimeIdx) -> (r: Option<StopPointIdx>)
    ensures
        r == stop_at(stop_times@, stop_time_idx),
{
    if stop_time_idx.idx < stop_times.len() {
        Some(stop_times[stop_time_idx.idx].stop)
    } else {
        None
    }
}

impl<'model> ModelRefs<'model> {
    /// The last version that the real-time updates gave to the trip of
    /// `vehicle_journey_idx` on `date`, if any
    fn last_version(&self, vehicle_journey_idx: &VehicleJourneyIdx, date: &Date) -> (r: Option<&TripData>)
        requires
            self.real_time.wf(),
            self.valid_vehicle_journey(*vehicle_journey_idx),
        ensures
            match version_of(*self.real_time, *vehicle_journey_idx, *date) {
                Some(v) => r == Some(&v.trip_data),
                None => r is None,
            },
    {
        match vehicle_journey_idx {
            VehicleJourneyIdx::Base(idx) => self.real_time.base_vehicle_journey_last_version(*idx, date),
            VehicleJourneyIdx::New(idx) => self.real_time.new_vehicle_journey_last_version(idx, date),
        }
    }

    /// The stop point at stop time `stop_time_idx` of the trip of `vehicle_journey_idx` on
    /// `date`: as planned, for a base vehicle journey only; or as the last real-time version
    /// of the trip has it, none when that version deletes the trip, and as planned when
    /// there is no such version of a base vehicle journey
    pub fn stop_point_at(
        &self,
        vehicle_journey_idx: &VehicleJourneyIdx,
        stop_time_idx: StopTimeIdx,
        date: Date,
        real_time_level: RealTimeLevel,
    ) -> (r: Option<StopPointIdx>)
        requires
            self.real_time.wf(),
            self.valid_vehicle_journey(*vehicle_journey_idx),
        ensures
            r == match real_time_level {
                RealTimeLevel::Base => match *vehicle_journey_idx {
                    VehicleJourneyIdx::Base(idx) => base_stop_at(*self.base, idx, stop_time_idx),
                    VehicleJourneyIdx::New(_) => None,
                },
                RealTimeLevel::RealTime => match version_of(*self.real_time, *vehicle_journey_idx, date) {
                    Some(v) => match v.trip_data {
                        TripData::Deleted() => None,
                        TripData::Present(stop_times) => stop_at(stop_times@, stop_time_idx),
                    },
                    None => match *vehicle_journey_idx {
                        VehicleJourneyIdx::Base(idx) => base_stop_at(*self.base, idx, stop_time_idx),
                        VehicleJourneyIdx::New(_) => None,
                    },
                },
            },
    {
        let base_stop = |idx: usize| -> (r: Option<StopPointIdx>)
            requires
                idx < self.base.collections().vehicle_journeys@.len(),
            ensures
                r == base_stop_at(*self.base, idx, stop_time_idx),
            {
                match self.base.stop_point_at(idx, stop_time_idx) {
                    Some(stop) => Some(StopPointIdx::Base(stop)),
                    None => None,
                }
            };
        match real_time_level {
            RealTimeLevel::Base => match vehicle_journey_idx {
                VehicleJourneyIdx::Base(idx) => base_stop(*idx),
                VehicleJourneyIdx::New(_) => None,
            },
            RealTimeLevel::RealTime => match self.last_version(vehicle_journey_idx, &date) {
                Some(TripData::Deleted()) => None,
                Some(TripData::Present(stop_times)) => stop_at_position(stop_times, stop_time_idx),
                None => match vehicle_journey_idx {
                    VehicleJourneyIdx::Base(idx) => base_stop(*idx),
                    VehicleJourneyIdx::New(_) => None,
                },
            },
        }
    }

    /// The number of new stop points with their data
    pub fn nb_of_new_stops(&self) -> (r: usize)
        ensures
            r == self.real_time.new_stops_len(),
    {
        self.real_time.nb_of_new_stops()
    }

    /// The new stop points with their data, by increasing index
    pub fn new_stops(&self) -> (r: Vec<NewStopPointIdx>)
        ensures
            r@ == Seq::new(self.real_time.new_stops_len(), |i: int| NewStopPointIdx { idx: i as usize }),
    {
        let n = self.real_time.nb_of_new_stops();
        let mut r: Vec<NewStopPointIdx> = Vec::new();
        let mut i: usize = 0;
        while i < n
            invariant
                i <= n,
                r@ == Seq::new(i as nat, |j: int| NewStopPointIdx { idx: j as usize }),
            decreases n - i,
        {
            r.push(NewStopPointIdx { idx: i });
            i += 1;
            assert(r@ =~= Seq::new(i as nat, |j: int| NewStopPointIdx { idx: j as usize }));
        }
        r
    }

    /// The number of stop points of the base schedule
    pub fn nb_of_base_stops(&self) -> (r: usize)
        ensures
            r == self.base.collections().stop_points@.len(),
    {
        self.base.nb_of_stop_points()
    }

    /// The stop points of the base schedule
    pub fn base_stop_points(&self) -> (r: Vec<usize>)
        ensures
            r@ == Seq::new(self.base.collections().stop_points@.len(), |i: int| i as usize),
    {
        self.base.stop_points()
    }

    /// The number of transfers of the base schedule
    pub fn nb_of_transfers(&self) -> (r: usize)
        ensures
            r == self.base.collections().transfers@.len(),
    {
        self.base.nb_of_transfers()
    }

    /// The transfers of the base schedule
    pub fn base_transfers(&self) -> (r: Vec<usize>)
        ensures
            r@ == Seq::new(self.base.collections().transfers@.len(), |i: int| i as usize),
    {
        self.base.transfers()
    }

    /// The number of new vehicle journeys
    pub fn nb_of_new_vehicle_journeys(&self) -> (r: usize)
        ensures
            r == self.real_time.new_ids().len(),
    {
        self.real_time.nb_of_new_vehicle_journeys()
    }

    /// The new vehicle journeys, by increasing index
    pub fn new_vehicle_journeys(&self) -> (r: Vec<NewVehicleJourneyIdx>)
        ensures
            r@ == Seq::new(self.real_time.new_ids().len(), |i: int| NewVehicleJourneyIdx { idx: i as usize }),
    {
        self.real_time.new_vehicle_journeys()
    }

    /// The number of vehicle journeys of the base schedule
    pub fn nb_of_base_vehicle_journeys(&self) -> (r: usize)
        ensures
            r == self.base.collections().vehicle_journeys@.len(),
    {
        self.base.nb_of_vehicle_journeys()
    }

    /// The vehicle journeys of the base schedule
    pub fn base_vehicle_journeys(&self) -> (r: Vec<usize>)
        ensures
            r@ == Seq::new(self.base.collections().vehicle_journeys@.len(), |i: int| i as usize),
    {
        self.base.vehicle_journeys()
    }

    /// The vehicle journey `vehicle_journey_idx` of the base schedule
    pub fn vehicle_journey(&self, vehicle_journey_idx: &usize) -> (r: &'model VehicleJourney)
        requires
            *vehicle_journey_idx < self.base.collections().vehicle_journeys@.len(),
        ensures
            *r == self.base.collections().vehicle_journeys@[*vehicle_journey_idx as int],
    {
        self.base.vehicle_journey(*vehicle_journey_idx)
    }

    /// The routes of the base schedule
    pub fn routes(&self) -> (r: &'model [Route])
        ensures
            r@ == self.base.collections().routes@,
    {
        self.base.routes()
    }

    /// The line of id `id`, if there is one
    pub fn line(&self, id: &str) -> (r: Option<&'model Line>)
        ensures
            match index_of_id(self.base.collections().lines@, id@) {
                None => r is None,
                Some(p) => r == Some(&self.base.collections().lines@[p as int]),
            },
    {
        self.base.line(id)
    }

    /// The route of id `id`, if there is one
    pub fn route(&self, id: &str) -> (r: Option<&'model Route>)
        ensures
            match index_of_id(self.base.collections().routes@, id@) {
                None => r is None,
                Some(p) => r == Some(&self.base.collections().routes@[p as int]),
            },
    {
        self.base.route(id)
    }

    /// The network of id `id`, if there is one
    pub fn network(&self, id: &str) -> (r: Option<&'model Network>)
        ensures
            match index_of_id(self.base.collections().networks@, id@) {
                None => r is None,
                Some(p) => r == Some(&self.base.collections().networks@[p as int]),
            },
    {
        self.base.network(id)
    }

    /// The stop area of id `id`, if there is one
    pub fn stop_area(&self, id: &str) -> (r: Option<&'model StopArea>)
        ensures
            match index_of_id(self.base.collections().stop_areas@, id@) {
                None => r is None,
                Some(p) => r == Some(&self.base.collections().stop_areas@[p as int]),
            },
    {
        self.base.stop_area(id)
    }

    /// The commercial mode of id `id`, if there is one
    pub fn commercial_mode(&self, id: &str) -> (r: Option<&'model Mode>)
        ensures
            match index_of_id(self.base.collections().commercial_modes@, id@) {
                None => r is None,
                Some(p) => r == Some(&self.base.collections().commercial_modes@[p as int]),
            },
    {
        self.base.commercial_mode(id)
    }

    /// The physical mode of id `id`, if there is one
    pub fn physical_mode(&self, id: &str) -> (r: Option<&'model Mode>)
        ensures
            match index_of_id(self.base.collections().physical_modes@, id@) {
                None => r is None,
                Some(p) => r == Some(&self.base.collections().physical_modes@[p as int]),
            },
    {
        self.base.physical_mode(id)
    }

    /// `true` when the base schedule has a line of id `id`
    pub fn contains_line_id(&self, id: &str) -> (r: bool)
        ensures
            r == contains_id(self.base.collections().lines@, id@),
    {
        self.base.contains_line_id(id)
    }

    /// `true` when the base schedule has a route of id `id`
    pub fn contains_route_id(&self, id: &str) -> (r: bool)
        ensures
            r == contains_id(self.base.collections().routes@, id@),
    {
        self.base.contains_route_id(id)
    }

    /// `true` when the base schedule has a network of id `id`
    pub fn contains_network_id(&self, id: &str) -> (r: bool)
        ensures
            r == contains_id(self.base.collections().networks@, id@),
    {
        self.base.contains_network_id(id)
    }

    /// `true` when the base schedule has a physical mode of id `id`
    pub fn contains_physical_mode_id(&self, id: &str) -> (r: bool)
        ensures
            r == contains_id(self.base.collections().physical_modes@, id@),
    {
        self.base.contains_physical_mode_id(id)
    }

    /// `true` when the base schedule has a commercial mode of id `id`
    pub fn contains_commercial_model_id(&self, id: &str) -> (r: bool)
        ensures
            r == contains_id(self.base.collections().commercial_modes@, id@),
    {
        self.base.contains_commercial_model_id(id)
    }

    /// `true` when the base schedule has a stop point of id `id`, or an update gave a new
    /// one of that id
    pub fn contains_stop_point_id(&self, id: &str) -> (r: bool)
        ensures
            r == (contains_id(self.base.collections().stop_points@, id@) || position_of(
                self.real_time.new_stop_ids(),
                id@,
            ) is Some),
    {
        if self.base.contains_stop_point_id(id) {
            true
        } else {
            self.real_time.contains_new_stop_id(id)
        }
    }

    /// `true` when the base schedule has a stop area of id `id`
    pub fn contains_stop_area_id(&self, id: &str) -> (r: bool)
        ensures
            r == contains_id(self.base.collections().stop_areas@, id@),
    {
        self.base.contains_stop_area_id(id)
    }
}

/// The stop times from `from` to `to`, both included, of a trip with `len` stop times exist.
pub open spec fn range_fits(len: nat, from: StopTimeIdx, to: StopTimeIdx) -> bool {
    from.idx <= to.idx + 1 && to.idx < len
}

/// A stop time of a real-time version of a trip as the routing reads it: boarding at its
/// departure time, debarking at its arrival time
pub open spec fn real_time_read(stop_time: RealTimeStopTime) -> ReadStopTime {
    ReadStopTime {
        stop: stop_time.stop,
        board_time: stop_time.departure_time,
        debark_time: stop_time.arrival_time,
        flow_direction: stop_time.flow_direction,
    }
}

/// The planned stop times from `from` to `to` of base vehicle journey `idx` of `base`
pub open spec fn planned_stop_times(base: BaseModel, idx: usize, from: StopTimeIdx, to: StopTimeIdx) -> Seq<
    BaseStopTime,
> {
    base.collections().vehicle_journeys@[idx as int].stop_times@.subrange(from.idx as int, to.idx + 1)
}

/// The stop times from `from` to `to`, both included, of `stop_times` as the routing reads
/// them
fn read_real_time_stop_times(stop_times: &Vec<RealTimeStopTime>, from: StopTimeIdx, to: StopTimeIdx) -> (r: Vec<
    ReadStopTime,
>)
    requires
        range_fits(stop_times@.len(), from, to),
    ensures
        r@ == stop_times@.subrange(from.idx as int, to.idx + 1).map_values(|st: RealTimeStopTime| real_time_read(st)),
{
    let nb_of_stop_times = stop_times.len();
    let mut r: Vec<ReadStopTime> = Vec::new();
    let mut i: usize = from.idx;
    while i <= to.idx
        invariant
            from.idx <= i <= to.idx + 1,
            to.idx < stop_times@.len(),
            nb_of_stop_times == stop_times@.len(),
            r@ == stop_times@.subrange(from.idx as int, i as int).map_values(|st: RealTimeStopTime| real_time_read(st)),
        decreases to.idx + 1 - i,
    {
        let stop_time = &stop_times[i];
        r.push(
            ReadStopTime {
                stop: stop_time.stop,
                board_time: stop_time.departure_time,
                debark_time: stop_time.arrival_time,
                flow_direction: stop_time.flow_direction,
            },
        );
        i += 1;
        assert(r@ =~= stop_times@.subrange(from.idx as int, i as int).map_values(
            |st: RealTimeStopTime| real_time_read(st),
        ));
    }
    r
}

/// The stop times in `r`, if any
pub open spec fn schedule_of(r: Option<Vec<ReadStopTime>>) -> Option<Seq<ReadStopTime>> {
    match r {
        Some(read) => Some(read@),
        None => None,
    }
}

impl<'model> ModelRefs<'model> {
    /// The planned stop times from `from` to `to` of a base vehicle journey exist.
    pub open spec fn base_range_fits(&self, vehicle_journey_idx: VehicleJourneyIdx, from: StopTimeIdx, to: StopTimeIdx) -> bool {
        vehicle_journey_idx matches VehicleJourneyIdx::Base(idx) ==> range_fits(
            self.base.collections().vehicle_journeys@[idx as int].stop_times@.len(),
            from,
            to,
        )
    }

    /// The stop times from `from` to `to` of the last real-time version of the trip of
    /// `vehicle_journey_idx` on `date` exist, or the planned ones of a base vehicle journey
    /// without such a version.
    pub open spec fn real_time_range_fits(
        &self,
        vehicle_journey_idx: VehicleJourneyIdx,
        date: Date,
        from: StopTimeIdx,
        to: StopTimeIdx,
    ) -> bool {
        match version_of(*self.real_time, vehicle_journey_idx, date) {
            Some(v) => v.trip_data matches TripData::Present(stop_times) ==> range_fits(
                stop_times@.len(),
                from,
                to,
            ),
            None => self.base_range_fits(vehicle_journey_idx, from, to),
        }
    }

    /// `schedule` is the planned stop times from `from` to `to` of the trip of a base
    /// vehicle journey on `date` as the routing reads them, when it runs that day and they
    /// can all be read; none otherwise
    pub open spec fn is_base_schedule(
        &self,
        vehicle_journey_idx: VehicleJourneyIdx,
        date: Date,
        from: StopTimeIdx,
        to: StopTimeIdx,
        schedule: Option<Seq<ReadStopTime>>,
    ) -> bool {
        match vehicle_journey_idx {
            VehicleJourneyIdx::New(_) => schedule is None,
            VehicleJourneyIdx::Base(idx) => {
                let planned = planned_stop_times(*self.base, idx, from, to);
                if trip_exists_in(self.base.collections(), idx as int, date) && all_readable(planned) {
                    schedule matches Some(read) && reads_all(planned, read)
                } else {
                    schedule is None
                }
            },
        }
    }

    /// `schedule` is the stop times from `from` to `to` of the trip of `vehicle_journey_idx`
    /// on `date` as the routing reads them: those of its last real-time version, none when
    /// that version deletes the trip, and the planned ones of a base vehicle journey without
    /// such a version, when they can all be read
    pub open spec fn is_real_time_schedule(
        &self,
        vehicle_journey_idx: VehicleJourneyIdx,
        date: Date,
        from: StopTimeIdx,
        to: StopTimeIdx,
        schedule: Option<Seq<ReadStopTime>>,
    ) -> bool {
        match version_of(*self.real_time, vehicle_journey_idx, date) {
            Some(v) => match v.trip_data {
                TripData::Present(stop_times) => schedule == Some(
                    stop_times@.subrange(from.idx as int, to.idx + 1).map_values(
                        |st: RealTimeStopTime| real_time_read(st),
                    ),
                ),
                TripData::Deleted() => schedule is None,
            },
            None => match vehicle_journey_idx {
                VehicleJourneyIdx::New(_) => schedule is None,
                VehicleJourneyIdx::Base(idx) => {
                    let planned = planned_stop_times(*self.base, idx, from, to);
                    if all_readable(planned) {
                        schedule matches Some(read) && reads_all(planned, read)
                    } else {
                        schedule is None
                    }
                },
            },
        }
    }

    /// The uri of the stop point `stop_point_idx`: that of a base stop point, or
    /// `stop_point:` followed by the name of a new one
    pub fn stop_point_uri(&self, stop_point_idx: &StopPointIdx) -> (r: String)
        requires
            self.valid_stop_point(*stop_point_idx),
        ensures
            r@ == "stop_point:"@ + match *stop_point_idx {
                StopPointIdx::Base(idx) => self.base.collections().stop_points@[idx as int].id@,
                StopPointIdx::New(idx) => self.real_time.new_stop_names()[idx.idx as int],
            },
    {
        match stop_point_idx {
            StopPointIdx::Base(idx) => self.base.stop_point_uri(*idx),
            StopPointIdx::New(idx) => {
                let mut uri = PREFIX_ID_STOP_POINT.to_owned();
                uri.append(self.real_time.new_stop_name(idx));
                proof {
                    reveal_strlit("stop_point:");
                }
                uri
            },
        }
    }

    /// The house number of the address of a base stop point, if known; none for a new one
    pub fn house_number(&self, stop_point_idx: &StopPointIdx) -> (r: Option<&'model str>)
        requires
            self.valid_stop_point(*stop_point_idx),
        ensures
            str_text_of(r) == match *stop_point_idx {
                StopPointIdx::Base(idx) => house_number_of(self.base.collections(), idx as int),
                StopPointIdx::New(_) => None,
            },
    {
        match stop_point_idx {
            StopPointIdx::Base(idx) => self.base.house_number(*idx),
            StopPointIdx::New(_) => None,
        }
    }

    /// The street name of the address of a base stop point, if known; none for a new one
    pub fn street_name(&self, stop_point_idx: &StopPointIdx) -> (r: Option<&'model str>)
        requires
            self.valid_stop_point(*stop_point_idx),
        ensures
            str_text_of(r) == match *stop_point_idx {
                StopPointIdx::Base(idx) => street_name_of(self.base.collections(), idx as int),
                StopPointIdx::New(_) => None,
            },
    {
        match stop_point_idx {
            StopPointIdx::Base(idx) => self.base.street_name(*idx),
            StopPointIdx::New(_) => None,
        }
    }

    /// The platform code of a base stop point, if known; none for a new one
    pub fn platform_code(&self, stop_point_idx: &StopPointIdx) -> (r: Option<&str>)
        requires
            self.valid_stop_point(*stop_point_idx),
        ensures
            str_text_of(r) == match *stop_point_idx {
                StopPointIdx::Base(idx) => text_of(self.base.collections().stop_points@[idx as int].platform_code),
                StopPointIdx::New(_) => None,
            },
    {
        match stop_point_idx {
            StopPointIdx::Base(idx) => self.base.platform_code(*idx),
            StopPointIdx::New(_) => None,
        }
    }

    /// The fare zone of a base stop point, if known; none for a new one
    pub fn fare_zone_id(&self, stop_point_idx: &StopPointIdx) -> (r: Option<&str>)
        requires
            self.valid_stop_point(*stop_point_idx),
        ensures
            str_text_of(r) == match *stop_point_idx {
                StopPointIdx::Base(idx) => text_of(self.base.collections().stop_points@[idx as int].fare_zone_id),
                StopPointIdx::New(_) => None,
            },
    {
        match stop_point_idx {
            StopPointIdx::Base(idx) => self.base.fare_zone_id(*idx),
            StopPointIdx::New(_) => None,
        }
    }

    /// The codes of a base stop point; none for a new one
    pub fn codes(&self, stop_point_idx: &StopPointIdx) -> (r: Option<&[(String, String)]>)
        requires
            self.valid_stop_point(*stop_point_idx),
        ensures
            match *stop_point_idx {
                StopPointIdx::Base(idx) => r matches Some(codes) && codes@
                    == self.base.collections().stop_points@[idx as int].codes@,
                StopPointIdx::New(_) => r is None,
            },
    {
        match stop_point_idx {
            StopPointIdx::Base(idx) => self.base.codes(*idx),
            StopPointIdx::New(_) => None,
        }
    }

    /// The uri of the stop area of id `id`, `stop_area:` followed by its id, if there is one
    pub fn stop_area_uri(&self, id: &str) -> (r: Option<String>)
        ensures
            match index_of_id(self.base.collections().stop_areas@, id@) {
                None => r is None,
                Some(_) => r matches Some(uri) && uri@ == "stop_area:"@ + id@,
            },
    {
        self.base.stop_area_uri(id)
    }

    /// The codes of the stop area of id `id`, if there is one
    pub fn stop_area_codes(&self, id: &str) -> (r: Option<&[(String, String)]>)
        ensures
            match index_of_id(self.base.collections().stop_areas@, id@) {
                None => r is None,
                Some(p) => r matches Some(codes) && codes@
                    == self.base.collections().stop_areas@[p as int].codes@,
            },
    {
        self.base.stop_area_codes(id)
    }

    /// The name of the timezone of the stop area of id `stop_area_id`, if there is one and
    /// its timezone is known
    pub fn stop_area_timezone(&self, stop_area_id: &str) -> (r: Option<&str>)
        ensures
            match index_of_id(self.base.collections().stop_areas@, stop_area_id@) {
                None => r is None,
                Some(p) => str_text_of(r) == text_of(self.base.collections().stop_areas@[p as int].timezone),
            },
    {
        self.base.stop_area_timezone(stop_area_id)
    }

    /// The name of the timezone in which the times of the trip of `vehicle_journey_idx` on
    /// `date` are read: that of the network of a base vehicle journey without a real-time
    /// version on that date, when known; `UTC` otherwise
    pub fn timezone(&self, vehicle_journey_idx: &VehicleJourneyIdx, date: Date) -> (r: &str)
        requires
            self.real_time.wf(),
            self.valid_vehicle_journey(*vehicle_journey_idx),
        ensures
            r@ == match *vehicle_journey_idx {
                VehicleJourneyIdx::Base(idx) => if self.real_time.base_version(idx as nat, date.days_from_ce as int) is None {
                    match network_index_of(self.base.collections(), idx as int) {
                        Some(p) => match self.base.collections().networks@[p as int].timezone {
                            Some(timezone) => timezone@,
                            None => "UTC"@,
                        },
                        None => "UTC"@,
                    }
                } else {
                    "UTC"@
                },
                VehicleJourneyIdx::New(_) => "UTC"@,
            },
    {
        if let VehicleJourneyIdx::Base(idx) = vehicle_journey_idx {
            if self.real_time.base_vehicle_journey_last_version(*idx, &date).is_none() {
                return match self.base.timezone(*idx) {
                    Some(timezone) => timezone,
                    None => "UTC",
                };
            }
        }
        "UTC"
    }

    /// The planned stop times from `from_stoptime_idx` to `to_stoptime_idx` of the trip of
    /// a base vehicle journey on `date` as the routing reads them, when it runs that day and
    /// they can all be read
    pub fn stop_times_base_schedule(
        &self,
        vehicle_journey_idx: &VehicleJourneyIdx,
        date: Date,
        from_stoptime_idx: StopTimeIdx,
        to_stoptime_idx: StopTimeIdx,
    ) -> (r: Option<Vec<ReadStopTime>>)
        requires
            self.valid_vehicle_journey(*vehicle_journey_idx),
            self.base_range_fits(*vehicle_journey_idx, from_stoptime_idx, to_stoptime_idx),
        ensures
            self.is_base_schedule(*vehicle_journey_idx, date, from_stoptime_idx, to_stoptime_idx, schedule_of(r)),
    {
        match vehicle_journey_idx {
            VehicleJourneyIdx::New(_) => None,
            VehicleJourneyIdx::Base(idx) => {
                if !self.base.trip_exists(*idx, date) {
                    return None;
                }
                match self.base.stop_times_partial(*idx, from_stoptime_idx, to_stoptime_idx) {
                    Ok(read) => Some(read),
                    Err(_) => None,
                }
            },
        }
    }

    /// The stop times from `from_stoptime_idx` to `to_stoptime_idx` of the trip of
    /// `vehicle_journey_idx` on `date` as the routing reads them: those of its last
    /// real-time version, none when that version deletes the trip, and the planned ones of
    /// a base vehicle journey without such a version, when they can all be read
    pub fn stop_times_real_time(
        &self,
        vehicle_journey_idx: &VehicleJourneyIdx,
        date: Date,
        from_stoptime_idx: StopTimeIdx,
        to_stoptime_idx: StopTimeIdx,
    ) -> (r: Option<Vec<ReadStopTime>>)
        requires
            self.real_time.wf(),
            self.valid_vehicle_journey(*vehicle_journey_idx),
            self.real_time_range_fits(*vehicle_journey_idx, date, from_stoptime_idx, to_stoptime_idx),
        ensures
            self.is_real_time_schedule(*vehicle_journey_idx, date, from_stoptime_idx, to_stoptime_idx, schedule_of(r)),
    {
        match self.last_version(vehicle_journey_idx, &date) {
            Some(TripData::Present(stop_times)) => Some(
                read_real_time_stop_times(stop_times, from_stoptime_idx, to_stoptime_idx),
            ),
            Some(TripData::Deleted()) => None,
            None => match vehicle_journey_idx {
                VehicleJourneyIdx::Base(idx) => match self.base.stop_times_partial(
                    *idx,
                    from_stoptime_idx,
                    to_stoptime_idx,
                ) {
                    Ok(read) => Some(read),
                    Err(_) => None,
                },
                VehicleJourneyIdx::New(_) => None,
            },
        }
    }
}

impl<'model> ModelRefs<'model> {
    /// The stop times from `from_stoptime_idx` to `to_stoptime_idx` of the trip of
    /// `vehicle_journey_idx` on `date`, as planned or with the real-time updates
    pub fn stop_times(
        &self,
        vehicle_journey_idx: &VehicleJourneyIdx,
        date: Date,
        from_stoptime_idx: StopTimeIdx,
        to_stoptime_idx: StopTimeIdx,
        real_time_level: RealTimeLevel,
    ) -> (r: Option<Vec<ReadStopTime>>)
        requires
            self.real_time.wf(),
            self.valid_vehicle_journey(*vehicle_journey_idx),
            real_time_level == RealTimeLevel::Base ==> self.base_range_fits(
                *vehicle_journey_idx,
                from_stoptime_idx,
                to_stoptime_idx,
            ),
            real_time_level == RealTimeLevel::RealTime ==> self.real_time_range_fits(
                *vehicle_journey_idx,
                date,
                from_stoptime_idx,
                to_stoptime_idx,
            ),
        ensures
            real_time_level == RealTimeLevel::Base ==> self.is_base_schedule(
                *vehicle_journey_idx,
                date,
                from_stoptime_idx,
                to_stoptime_idx,
                schedule_of(r),
            ),
            real_time_level == RealTimeLevel::RealTime ==> self.is_real_time_schedule(
                *vehicle_journey_idx,
                date,
                from_stoptime_idx,
                to_stoptime_idx,
                schedule_of(r),
            ),
    {
        match real_time_level {
            RealTimeLevel::Base => self.stop_times_base_schedule(
                vehicle_journey_idx,
                date,
                from_stoptime_idx,
                to_stoptime_idx,
            ),
            RealTimeLevel::RealTime => self.stop_times_real_time(
                vehicle_journey_idx,
                date,
                from_stoptime_idx,
                to_stoptime_idx,
            ),
        }
    }

    /// Whether the times of the stop times from `from_stoptime_idx` to `to_stoptime_idx` of
    /// the trip of `vehicle_journey_idx` on `date` are estimated: the data never says so
    pub fn has_datetime_estimated(
        &self,
        vehicle_journey_idx: &VehicleJourneyIdx,
        date: Date,
        from_stoptime_idx: StopTimeIdx,
        to_stoptime_idx: StopTimeIdx,
        real_time_level: RealTimeLevel,
    ) -> (r: bool)
        requires
            self.real_time.wf(),
            self.valid_vehicle_journey(*vehicle_journey_idx),
            real_time_level == RealTimeLevel::Base ==> self.base_range_fits(
                *vehicle_journey_idx,
                from_stoptime_idx,
                to_stoptime_idx,
            ),
            real_time_level == RealTimeLevel::RealTime ==> self.real_time_range_fits(
                *vehicle_journey_idx,
                date,
                from_stoptime_idx,
                to_stoptime_idx,
            ),
        ensures
            !r,
    {
        if self.stop_times(vehicle_journey_idx, date, from_stoptime_idx, to_stoptime_idx, real_time_level).is_none() {
            return false;
        }
        match (vehicle_journey_idx, real_time_level) {
            (VehicleJourneyIdx::Base(idx), RealTimeLevel::Base) => self.base.has_datetime_estimated(
                *idx,
                from_stoptime_idx,
                to_stoptime_idx,
            ),
            (VehicleJourneyIdx::Base(_), RealTimeLevel::RealTime) => false,
            (VehicleJourneyIdx::New(_), _) => false,
        }
    }

    /// The code of the line of a base vehicle journey, when the data holds its route and its
    /// line and the line has one; none for a new vehicle journey
    pub fn line_code(&self, vehicle_journey_idx: &VehicleJourneyIdx) -> (r: Option<&str>)
        requires
            self.valid_vehicle_journey(*vehicle_journey_idx),
        ensures
            match *vehicle_journey_idx {
                VehicleJourneyIdx::Base(idx) => match line_index_of(self.base.collections(), idx as int) {
                    None => r is None,
                    Some(p) => str_text_of(r) == text_of(self.base.collections().lines@[p as int].code),
                },
                VehicleJourneyIdx::New(_) => r is None,
            },
    {
        match vehicle_journey_idx {
            VehicleJourneyIdx::Base(idx) => self.base.line_code(*idx),
            VehicleJourneyIdx::New(_) => None,
        }
    }

    /// `vehicle_journey_idx` is a base vehicle journey with no real-time version on `date`.
    pub open spec fn planned_on(&self, vehicle_journey_idx: VehicleJourneyIdx, date: Date) -> bool {
        &&& vehicle_journey_idx is Base
        &&& self.real_time.base_version(vehicle_journey_idx->Base_0 as nat, date.days_from_ce as int) is None
    }

    /// `true` when `vehicle_journey_idx` is a base vehicle journey with no real-time version
    /// on `date`
    fn is_planned_on(&self, vehicle_journey_idx: &VehicleJourneyIdx, date: &Date) -> (r: bool)
        requires
            self.real_time.wf(),
        ensures
            r == self.planned_on(*vehicle_journey_idx, *date),
    {
        match vehicle_journey_idx {
            VehicleJourneyIdx::Base(idx) => self.real_time.base_vehicle_journey_last_version(*idx, date).is_none(),
            VehicleJourneyIdx::New(_) => false,
        }
    }

    /// The headsign of a base vehicle journey, if it has one, when read as planned or when
    /// it has no real-time version on `date`; none otherwise
    pub fn headsign(&self, vehicle_journey_idx: &VehicleJourneyIdx, date: Date, real_time_level: RealTimeLevel) -> (r:
        Option<&str>)
        requires
            self.real_time.wf(),
            self.valid_vehicle_journey(*vehicle_journey_idx),
        ensures
            match *vehicle_journey_idx {
                VehicleJourneyIdx::Base(idx) => if real_time_level == RealTimeLevel::Base || self.planned_on(
                    *vehicle_journey_idx,
                    date,
                ) {
                    str_text_of(r) == text_of(self.base.collections().vehicle_journeys@[idx as int].headsign)
                } else {
                    r is None
                },
                VehicleJourneyIdx::New(_) => r is None,
            },
    {
        match (vehicle_journey_idx, real_time_level) {
            (VehicleJourneyIdx::Base(idx), RealTimeLevel::RealTime) => {
                if self.is_planned_on(vehicle_journey_idx, &date) {
                    self.base.headsign(*idx)
                } else {
                    None
                }
            },
            (VehicleJourneyIdx::Base(idx), RealTimeLevel::Base) => self.base.headsign(*idx),
            (VehicleJourneyIdx::New(_), _) => None,
        }
    }

    /// The name of the stop area that the route of a base vehicle journey without a
    /// real-time version on `date` goes to, if known; none otherwise
    pub fn direction(&self, vehicle_journey_idx: &VehicleJourneyIdx, date: Date) -> (r: Option<&str>)
        requires
            self.real_time.wf(),
            self.valid_vehicle_journey(*vehicle_journey_idx),
        ensures
            str_text_of(r) == if self.planned_on(*vehicle_journey_idx, date) {
                direction_of(self.base.collections(), vehicle_journey_idx->Base_0 as int)
            } else {
                None
            },
    {
        if self.is_planned_on(vehicle_journey_idx, &date) {
            match vehicle_journey_idx {
                VehicleJourneyIdx::Base(idx) => self.base.direction(*idx),
                VehicleJourneyIdx::New(_) => None,
            }
        } else {
            None
        }
    }

    /// The color of the line of a base vehicle journey without a real-time version on
    /// `date`, if known; none otherwise
    pub fn line_color(&self, vehicle_journey_idx: &VehicleJourneyIdx, date: Date) -> (r: Option<&Rgb>)
        requires
            self.real_time.wf(),
            self.valid_vehicle_journey(*vehicle_journey_idx),
        ensures
            if self.planned_on(*vehicle_journey_idx, date) {
                match line_index_of(self.base.collections(), vehicle_journey_idx->Base_0 as int) {
                    None => r is None,
                    Some(p) => match self.base.collections().lines@[p as int].color {
                        None => r is None,
                        Some(color) => r == Some(&color),
                    },
                }
            } else {
                r is None
            },
    {
        if self.is_planned_on(vehicle_journey_idx, &date) {
            match vehicle_journey_idx {
                VehicleJourneyIdx::Base(idx) => self.base.line_color(*idx),
                VehicleJourneyIdx::New(_) => None,
            }
        } else {
            None
        }
    }

    /// The color of the text of the line of a base vehicle journey without a real-time
    /// version on `date`, if known; none otherwise
    pub fn text_color(&self, vehicle_journey_idx: &VehicleJourneyIdx, date: Date) -> (r: Option<&Rgb>)
        requires
            self.real_time.wf(),
            self.valid_vehicle_journey(*vehicle_journey_idx),
        ensures
            if self.planned_on(*vehicle_journey_idx, date) {
                match line_index_of(self.base.collections(), vehicle_journey_idx->Base_0 as int) {
                    None => r is None,
                    Some(p) => match self.base.collections().lines@[p as int].text_color {
                        None => r is None,
                        Some(color) => r == Some(&color),
                    },
                }
            } else {
                r is None
            },
    {
        if self.is_planned_on(vehicle_journey_idx, &date) {
            match vehicle_journey_idx {
                VehicleJourneyIdx::Base(idx) => self.base.text_color(*idx),
                VehicleJourneyIdx::New(_) => None,
            }
        } else {
            None
        }
    }

    /// The short name, or else the headsign, of a base vehicle journey without a real-time
    /// version on `date`; none otherwise
    pub fn trip_short_name(&self, vehicle_journey_idx: &VehicleJourneyIdx, date: Date) -> (r: Option<&str>)
        requires
            self.real_time.wf(),
            self.valid_vehicle_journey(*vehicle_journey_idx),
        ensures
            str_text_of(r) == if self.planned_on(*vehicle_journey_idx, date) {
                trip_short_name_of(self.base.collections(), vehicle_journey_idx->Base_0 as int)
            } else {
                None
            },
    {
        if self.is_planned_on(vehicle_journey_idx, &date) {
            match vehicle_journey_idx {
                VehicleJourneyIdx::Base(idx) => self.base.trip_short_name(*idx),
                VehicleJourneyIdx::New(_) => None,
            }
        } else {
            None
        }
    }

    /// The contributors of the base schedule
    pub fn contributors(&self) -> (r: &[Contributor])
        ensures
            r@ == self.base.collections().contributors@,
    {
        self.base.contributors()
    }
}

} // verus!
