pub mod empty_loads;
pub mod real_loads;

use std::collections::BTreeMap;

use vstd::prelude::*;

use crate::dates::Date;
use real_loads::{
    calendar_views, last_index, lemma_last_index, missing_loads_of, missing_trips, stop_sequence_indices,
    LoadRecord, MissingLoads,
};

verus! {

broadcast use {vstd::std_specs::btree::group_btree_axioms, vstd::laws_cmp::group_laws_cmp};

/// How loaded a vehicle is, from the least loaded to the most loaded
#[derive(Copy, Clone, Debug, PartialEq, Eq, Structural, PartialOrd, Ord)]
pub enum Load {
    Low,
    Medium,
    High,
}

/// The rank of a load: 0 for `Low`, 1 for `Medium`, 2 for `High`
pub open spec fn load_rank(load: Load) -> u8 {
    match load {
        Load::Low => 0,
        Load::Medium => 1,
        Load::High => 2,
    }
}

/// The load of a vehicle whose occupancy is `occupancy` percent
pub open spec fn load_of_occupancy(occupancy: u8) -> Load {
    if occupancy <= 30 {
        Load::Low
    } else if occupancy <= 70 {
        Load::Medium
    } else {
        Load::High
    }
}

/// The rank of a load: 0 for `Low`, 1 for `Medium`, 2 for `High`
pub fn load_to_int(load: &Load) -> (r: u8)
    ensures
        r == load_rank(*load),
{
    match load {
        Load::Low => 0,
        Load::Medium => 1,
        Load::High => 2,
    }
}

/// The load of a vehicle whose occupancy is `occupancy` percent: low up to 30%, medium up
/// to 70%, high above
pub fn occupancy_to_load(occupancy: u8) -> (r: Load)
    requires
        occupancy <= 100,
    ensures
        r == load_of_occupancy(occupancy),
{
    if occupancy <= 30 {
        Load::Low
    } else if occupancy <= 70 {
        Load::Medium
    } else {
        Load::High
    }
}

/// The loads of a trip, one per stop, with, for each stop, whether a record gave its load
pub struct TripLoads {
    per_stop: Vec<Load>,
    is_set: Vec<bool>,
}

impl TripLoads {
    /// The loads at each stop
    pub closed spec fn view(&self) -> Seq<Load> {
        self.per_stop@
    }

    /// Whether a record gave the load at each stop
    pub closed spec fn set_view(&self) -> Seq<bool> {
        self.is_set@
    }

    /// A medium load at each of the `nb_of_stop` stops, none given by a record
    pub fn new(nb_of_stop: usize) -> (r: Self)
        ensures
            r.view() == Seq::new(nb_of_stop as nat, |i: int| Load::Medium),
            r.set_view() == Seq::new(nb_of_stop as nat, |i: int| false),
    {
        let mut per_stop: Vec<Load> = Vec::new();
        let mut is_set: Vec<bool> = Vec::new();
        let mut i: usize = 0;
        while i < nb_of_stop
            invariant
                i <= nb_of_stop,
                per_stop@ == Seq::new(i as nat, |j: int| Load::Medium),
                is_set@ == Seq::new(i as nat, |j: int| false),
            decreases nb_of_stop - i,
        {
            per_stop.push(Load::Medium);
            is_set.push(false);
            i += 1;
            assert(per_stop@ =~= Seq::new(i as nat, |j: int| Load::Medium));
            assert(is_set@ =~= Seq::new(i as nat, |j: int| false));
        }
        Self { per_stop, is_set }
    }

    /// Gives the load `load` to the stop `idx`, unless a record already gave it one
    fn keep_first(&mut self, idx: usize, load: Load)
        requires
            idx < old(self).view().len(),
            idx < old(self).set_view().len(),
        ensures
            old(self).set_view()[idx as int] ==> *final(self) == *old(self),
            !old(self).set_view()[idx as int] ==> final(self).view() == old(self).view().update(idx as int, load)
                && final(self).set_view() == old(self).set_view().update(idx as int, true),
    {
        if !self.is_set[idx] {
            self.per_stop.set(idx, load);
            self.is_set.set(idx, true);
        }
    }
}

/// A medium load at each of `nb_of_stops` stops
pub open spec fn medium_loads(nb_of_stops: nat) -> Seq<Load> {
    Seq::new(nb_of_stops, |i: int| Load::Medium)
}

/// The loads of the trip `(vehicle_journey_idx, date)` and, for each of its stops, whether
/// a record gave its load, once the record `record` is read after `before`: a record of the
/// trip with the sequence of one of its stop times gives its load to the last stop time of
/// that sequence, unless an earlier record already gave it one, the other stop times of a
/// trip with such a record having a medium load
pub open spec fn first_load_step(
    before: Option<(Seq<Load>, Seq<bool>)>,
    record: LoadRecord,
    stop_sequences: Seq<Seq<u32>>,
    vehicle_journey_idx: usize,
    date: i32,
) -> Option<(Seq<Load>, Seq<bool>)> {
    if record.vehicle_journey_idx == vehicle_journey_idx && record.date.days_from_ce == date {
        match last_index(stop_sequences[vehicle_journey_idx as int], record.stop_sequence) {
            Some(i) => {
                let n = stop_sequences[vehicle_journey_idx as int].len();
                let (loads, set) = match before {
                    Some(state) => state,
                    None => (medium_loads(n), Seq::new(n, |j: int| false)),
                };
                if set[i as int] {
                    Some((loads, set))
                } else {
                    Some((loads.update(i as int, load_of_occupancy(record.occupancy)), set.update(i as int, true)))
                }
            },
            None => before,
        }
    } else {
        before
    }
}

/// The loads of the trip `(vehicle_journey_idx, date)`, with whether a record gave each,
/// once the records `records` are read in their order; none when no record of the trip has
/// the sequence of one of its stop times
pub open spec fn first_loads_state(
    records: Seq<LoadRecord>,
    stop_sequences: Seq<Seq<u32>>,
    vehicle_journey_idx: usize,
    date: i32,
) -> Option<(Seq<Load>, Seq<bool>)>
    decreases records.len(),
{
    if records.len() == 0 {
        None
    } else {
        first_load_step(
            first_loads_state(records.drop_last(), stop_sequences, vehicle_journey_idx, date),
            records.last(),
            stop_sequences,
            vehicle_journey_idx,
            date,
        )
    }
}

/// The loads of the trip `(vehicle_journey_idx, date)` once the records `records` are read
/// in their order: the first record of each stop time gives its load
pub open spec fn first_loads(
    records: Seq<LoadRecord>,
    stop_sequences: Seq<Seq<u32>>,
    vehicle_journey_idx: usize,
    date: i32,
) -> Option<Seq<Load>> {
    match first_loads_state(records, stop_sequences, vehicle_journey_idx, date) {
        Some(state) => Some(state.0),
        None => None,
    }
}

/// The loads of a vehicle journey: the index of each stop sequence of its stop times, and
/// the loads of its trips, by date
struct VehicleJourneyLoads {
    stop_sequence_to_idx: BTreeMap<u32, usize>,
    per_date: BTreeMap<i32, TripLoads>,
}

/// The loads of the trips of the base vehicle journeys that an occupancy file gives; when
/// several records give the load of one stop time, the first one is kept
pub struct LoadsData {
    per_vehicle_journey: BTreeMap<usize, VehicleJourneyLoads>,
}

impl LoadsData {
    /// The loads of the trip `(vehicle_journey_idx, date)`, with whether a record gave each,
    /// when a record gave one
    pub closed spec fn trip_state(&self, vehicle_journey_idx: usize, date: i32) -> Option<(Seq<Load>, Seq<bool>)> {
        if self.per_vehicle_journey@.contains_key(vehicle_journey_idx)
            && self.per_vehicle_journey@[vehicle_journey_idx].per_date@.contains_key(date) {
            let loads = self.per_vehicle_journey@[vehicle_journey_idx].per_date@[date];
            Some((loads.view(), loads.set_view()))
        } else {
            None
        }
    }

    /// The loads of the trip `(vehicle_journey_idx, date)`, when a record gave one
    pub closed spec fn trip_loads(&self, vehicle_journey_idx: usize, date: i32) -> Option<Seq<Load>> {
        match self.trip_state(vehicle_journey_idx, date) {
            Some(state) => Some(state.0),
            None => None,
        }
    }

    /// The indices of the stop sequences of each vehicle journey are those of
    /// `stop_sequences`, and the loads of its trips are one per stop time.
    pub closed spec fn wf(&self, stop_sequences: Seq<Seq<u32>>) -> bool {
        forall|vj: usize|
            #[trigger] self.per_vehicle_journey@.contains_key(vj) ==> {
                let loads = self.per_vehicle_journey@[vj];
                &&& vj < stop_sequences.len()
                &&& forall|s: u32|
                    #![trigger loads.stop_sequence_to_idx@.contains_key(s)]
                    (loads.stop_sequence_to_idx@.contains_key(s) <==> last_index(stop_sequences[vj as int], s) is Some)
                        && (loads.stop_sequence_to_idx@.contains_key(s) ==> loads.stop_sequence_to_idx@[s]
                        == last_index(stop_sequences[vj as int], s)->0)
                &&& forall|date: i32|
                    #[trigger] loads.per_date@.contains_key(date) ==> loads.per_date@[date].view().len()
                        == stop_sequences[vj as int].len() && loads.per_date@[date].set_view().len()
                        == stop_sequences[vj as int].len()
            }
    }

    /// Reads the record `record`, the stop times of its vehicle journey having the sequences
    /// `stop_sequences[record.vehicle_journey_idx]`, as `first_load_step` says
    fn insert_record(&mut self, record: &LoadRecord, stop_sequences: &Vec<Vec<u32>>)
        requires
            old(self).wf(stop_sequences.deep_view()),
            record.vehicle_journey_idx < stop_sequences@.len(),
            record.occupancy <= 100,
        ensures
            final(self).wf(stop_sequences.deep_view()),
            forall|vj: usize, date: i32|
                #[trigger] final(self).trip_state(vj, date) == first_load_step(
                    old(self).trip_state(vj, date),
                    *record,
                    stop_sequences.deep_view(),
                    vj,
                    date,
                ),
    {
        let ghost seqs = stop_sequences.deep_view();
        let vj = record.vehicle_journey_idx;
        let date = record.date.days_from_ce;
        let load = occupancy_to_load(record.occupancy);
        let own_sequences = stop_sequences[vj].as_slice();
        assert(own_sequences@ == seqs[vj as int]);
        let mut vehicle_journey_loads = match self.per_vehicle_journey.remove(&vj) {
            Some(loads) => loads,
            None => VehicleJourneyLoads {
                stop_sequence_to_idx: stop_sequence_indices(own_sequences),
                per_date: BTreeMap::new(),
            },
        };
        match vehicle_journey_loads.stop_sequence_to_idx.get(&record.stop_sequence) {
            None => {
                self.per_vehicle_journey.insert(vj, vehicle_journey_loads);
            },
            Some(idx) => {
                let idx = *idx;
                proof {
                    lemma_last_index(seqs[vj as int], record.stop_sequence);
                }
                let mut trip_loads = match vehicle_journey_loads.per_date.remove(&date) {
                    Some(loads) => loads,
                    None => TripLoads::new(own_sequences.len()),
                };
                trip_loads.keep_first(idx, load);
                vehicle_journey_loads.per_date.insert(date, trip_loads);
                self.per_vehicle_journey.insert(vj, vehicle_journey_loads);
            },
        }
    }

    /// The loads of the trips that the records `records` give, read in their order, the
    /// stop times of each base vehicle journey `vj` having the sequences `stop_sequences[vj]`:
    /// the first record of a stop time gives its load, the other stop times of a trip with a
    /// record having a medium load
    pub fn from_records(records: &[LoadRecord], stop_sequences: &Vec<Vec<u32>>) -> (r: Self)
        requires
            forall|i: int|
                0 <= i < records@.len() ==> (#[trigger] records@[i]).vehicle_journey_idx
                    < stop_sequences@.len() && records@[i].occupancy <= 100,
        ensures
            r.wf(stop_sequences.deep_view()),
            forall|vj: usize, date: i32|
                #[trigger] r.trip_loads(vj, date) == first_loads(records@, stop_sequences.deep_view(), vj, date),
    {
        let ghost seqs = stop_sequences.deep_view();
        let mut loads_data = LoadsData { per_vehicle_journey: BTreeMap::new() };
        let mut i: usize = 0;
        while i < records.len()
            invariant
                i <= records@.len(),
                seqs == stop_sequences.deep_view(),
                forall|j: int|
                    0 <= j < records@.len() ==> (#[trigger] records@[j]).vehicle_journey_idx
                        < stop_sequences@.len() && records@[j].occupancy <= 100,
                loads_data.wf(seqs),
                forall|vj: usize, date: i32|
                    #[trigger] loads_data.trip_state(vj, date) == first_loads_state(
                        records@.take(i as int),
                        seqs,
                        vj,
                        date,
                    ),
            decreases records@.len() - i,
        {
            loads_data.insert_record(&records[i], stop_sequences);
            proof {
                let taken = records@.take(i + 1);
                assert(taken.drop_last() =~= records@.take(i as int));
                assert(taken.last() == records@[i as int]);
            }
            i += 1;
        }
        assert(records@.take(i as int) =~= records@);
        proof {
            assert forall|vj: usize, date: i32|
                #[trigger] loads_data.trip_loads(vj, date) == first_loads(records@, seqs, vj, date) by {
                assert(loads_data.trip_state(vj, date) == first_loads_state(records@, seqs, vj, date));
            }
        }
        loads_data
    }

    /// The loads of `vehicle_journey_idx` on `date`, when its trip that day has loads
    pub fn loads(&self, vehicle_journey_idx: &usize, date: &Date) -> (r: Option<&[Load]>)
        ensures
            match self.trip_loads(*vehicle_journey_idx, date.days_from_ce) {
                Some(loads) => r matches Some(slice) && slice@ == loads,
                None => r is None,
            },
    {
        let vehicle_journey_loads = match self.per_vehicle_journey.get(vehicle_journey_idx) {
            Some(loads) => loads,
            None => {
                return None;
            },
        };
        let trip_loads = match vehicle_journey_loads.per_date.get(&date.days_from_ce) {
            Some(loads) => loads,
            None => {
                return None;
            },
        };
        Some(trip_loads.per_stop.as_slice())
    }
}

impl LoadsData {
    /// A record gave loads of a trip of `vehicle_journey_idx`.
    pub closed spec fn has_vehicle_journey(&self, vehicle_journey_idx: usize) -> bool {
        self.per_vehicle_journey@.contains_key(vehicle_journey_idx)
    }

    /// The loads missing for the base vehicle journeys, each vehicle journey `vj` running on
    /// the dates `calendars[vj]` when it has a calendar, in the order of the vehicle journeys
    /// and of their dates: a vehicle journey with no loads at all, or a trip with none
    pub fn missing_loads(&self, calendars: &[Option<Vec<Date>>]) -> (r: Vec<MissingLoads>)
        ensures
            r@ == missing_loads_of(
                |vj: usize| self.has_vehicle_journey(vj),
                |vj: usize, date: i32| self.trip_loads(vj, date) is Some,
                calendar_views(calendars@),
                calendars@.len(),
            ),
    {
        let ghost has_vehicle_journey = |vj: usize| self.has_vehicle_journey(vj);
        let ghost has_trip = |vj: usize, date: i32| self.trip_loads(vj, date) is Some;
        let mut result: Vec<MissingLoads> = Vec::new();
        let mut vj: usize = 0;
        while vj < calendars.len()
            invariant
                vj <= calendars@.len(),
                has_vehicle_journey == (|vj: usize| self.has_vehicle_journey(vj)),
                has_trip == (|vj: usize, date: i32| self.trip_loads(vj, date) is Some),
                result@ == missing_loads_of(has_vehicle_journey, has_trip, calendar_views(calendars@), vj as nat),
            decreases calendars@.len() - vj,
        {
            let ghost before = result@;
            match &calendars[vj] {
                None => {},
                Some(dates) => {
                    match self.per_vehicle_journey.get(&vj) {
                        None => {
                            result.push(MissingLoads::VehicleJourney(vj));
                        },
                        Some(loads) => {
                            let mut d: usize = 0;
                            while d < dates.len()
                                invariant
                                    d <= dates@.len(),
                                    self.per_vehicle_journey@.contains_key(vj),
                                    self.per_vehicle_journey@[vj] == *loads,
                                    has_trip == (|vj: usize, date: i32| self.trip_loads(vj, date) is Some),
                                    result@ == before + missing_trips(has_trip, vj, dates@, d as nat),
                                decreases dates@.len() - d,
                            {
                                if loads.per_date.get(&dates[d].days_from_ce).is_none() {
                                    result.push(MissingLoads::Trip(vj, dates[d]));
                                }
                                d += 1;
                            }
                        },
                    }
                },
            }
            proof {
                assert(calendar_views(calendars@)[vj as int] == match calendars@[vj as int] {
                    Some(dates) => Some(dates@),
                    None => None::<Seq<Date>>,
                });
                assert(result@ =~= missing_loads_of(has_vehicle_journey, has_trip, calendar_views(calendars@), (vj + 1) as nat));
            }
            vj += 1;
        }
        result
    }
}

} // verus!
