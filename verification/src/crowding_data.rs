use std::collections::BTreeMap;

use vstd::prelude::*;

use crate::dates::Date;
use crate::loads_data::real_loads::{
    last_index, lemma_last_index, lemma_nb_distinct_no_duplicates, nb_distinct, stop_sequence_indices, LoadRecord,
};

verus! {

broadcast use {vstd::std_specs::btree::group_btree_axioms, vstd::laws_cmp::group_laws_cmp};

/// No load at each of `nb_of_stops` stop times
pub open spec fn no_loads(nb_of_stops: nat) -> Seq<Option<u8>> {
    Seq::new(nb_of_stops, |i: int| None::<u8>)
}

/// The loads of the trip `(vehicle_journey_idx, date)` once the records `records` are read
/// in their order, the stop times of each base vehicle journey `vj` having the sequences
/// `stop_sequences[vj]`: the loads of a trip are one per distinct sequence, and a record
/// sets the load at the last index of its sequence, unless an earlier record set it; none
/// when no record of the trip has a sequence of its stop times
pub open spec fn crowd_after(
    records: Seq<LoadRecord>,
    stop_sequences: Seq<Seq<u32>>,
    vehicle_journey_idx: usize,
    date: i32,
) -> Option<Seq<Option<u8>>>
    decreases records.len(),
{
    if records.len() == 0 {
        None
    } else {
        let before = crowd_after(records.drop_last(), stop_sequences, vehicle_journey_idx, date);
        let record = records.last();
        if record.vehicle_journey_idx == vehicle_journey_idx && record.date.days_from_ce == date {
            match last_index(stop_sequences[vehicle_journey_idx as int], record.stop_sequence) {
                Some(i) => match before {
                    Some(loads) => if loads[i as int] is Some {
                        before
                    } else {
                        Some(loads.update(i as int, Some(record.occupancy)))
                    },
                    None => Some(
                        no_loads(nb_distinct(stop_sequences[vehicle_journey_idx as int])).update(
                            i as int,
                            Some(record.occupancy),
                        ),
                    ),
                },
                None => before,
            }
        } else {
            before
        }
    }
}

/// The loads of a vehicle journey: the index of each stop sequence of its stop times, and
/// the loads of its trips, by date
struct VehicleJourneyCrowd {
    stop_sequence_to_idx: BTreeMap<u32, usize>,
    per_date: BTreeMap<i32, TripCrowd>,
}

/// The loads of a trip at its stop times, in percent, where they are known
pub struct TripCrowd {
    per_stop: Vec<Option<u8>>,
}

/// The loads of the trips of the base vehicle journeys that a file of loads gives
pub struct CrowdData {
    per_vehicle_journey: BTreeMap<usize, VehicleJourneyCrowd>,
}

impl TripCrowd {
    /// The load at each stop time, where it is known
    pub closed spec fn view(&self) -> Seq<Option<u8>> {
        self.per_stop@
    }

    /// No load known at each of `nb_of_stop` stop times
    pub fn new(nb_of_stop: usize) -> (r: Self)
        ensures
            r.view() == no_loads(nb_of_stop as nat),
    {
        let mut per_stop: Vec<Option<u8>> = Vec::new();
        let mut i: usize = 0;
        while i < nb_of_stop
            invariant
                i <= nb_of_stop,
                per_stop@ == no_loads(i as nat),
            decreases nb_of_stop - i,
        {
            per_stop.push(None);
            i += 1;
            assert(per_stop@ =~= no_loads(i as nat));
        }
        Self { per_stop }
    }
}

impl VehicleJourneyCrowd {
    /// The index of each stop sequence is its last index in `stop_sequences`, and the loads
    /// of each trip are one per distinct stop sequence.
    spec fn wf(&self, stop_sequences: Seq<u32>) -> bool {
        &&& self.stop_sequence_to_idx@.len() == nb_distinct(stop_sequences)
        &&& forall|s: u32|
            #![trigger self.stop_sequence_to_idx@.contains_key(s)]
            (self.stop_sequence_to_idx@.contains_key(s) <==> last_index(stop_sequences, s) is Some)
                && (self.stop_sequence_to_idx@.contains_key(s) ==> self.stop_sequence_to_idx@[s]
                == last_index(stop_sequences, s)->0)
        &&& forall|date: i32|
            #[trigger] self.per_date@.contains_key(date) ==> self.per_date@[date].view().len()
                == nb_distinct(stop_sequences)
    }

    /// No load yet, for stop times of the sequences `stop_sequences`
    fn new(stop_sequences: &[u32]) -> (r: Self)
        ensures
            r.wf(stop_sequences@),
            r.per_date@ == Map::<i32, TripCrowd>::empty(),
    {
        Self { stop_sequence_to_idx: stop_sequence_indices(stop_sequences), per_date: BTreeMap::new() }
    }

    /// Sets the load of the trip on `date` at the stop time of sequence `stop_sequence`; an
    /// error when no stop time has that sequence
    fn set_load(&mut self, date: &Date, stop_sequence: u32, load: u8, Ghost(stop_sequences): Ghost<
        Seq<u32>,
    >) -> (r: Result<(), ()>)
        requires
            old(self).wf(stop_sequences),
            last_index(stop_sequences, stop_sequence) matches Some(i) ==> i < nb_distinct(stop_sequences),
        ensures
            final(self).wf(stop_sequences),
            r is Ok <==> last_index(stop_sequences, stop_sequence) is Some,
            final(self).stop_sequence_to_idx@ == old(self).stop_sequence_to_idx@,
            forall|d: i32|
                #[trigger] final(self).per_date@.contains_key(d) <==> old(self).per_date@.contains_key(d)
                    || (d == date.days_from_ce && r is Ok),
            forall|d: i32|
                #[trigger] final(self).per_date@.contains_key(d) ==> final(self).per_date@[d].view() == if d
                    == date.days_from_ce && r is Ok {
                    (if old(self).per_date@.contains_key(d) {
                        old(self).per_date@[d].view()
                    } else {
                        no_loads(nb_distinct(stop_sequences))
                    }).update(last_index(stop_sequences, stop_sequence)->0 as int, Some(load))
                } else {
                    old(self).per_date@[d].view()
                },
    {
        let idx = match self.stop_sequence_to_idx.get(&stop_sequence) {
            Some(idx) => *idx,
            None => {
                return Err(());
            },
        };
        proof {
            lemma_last_index(stop_sequences, stop_sequence);
        }
        let nb_of_stop = self.stop_sequence_to_idx.len();
        let mut trip_crowd = match self.per_date.remove(&date.days_from_ce) {
            Some(crowd) => crowd,
            None => TripCrowd::new(nb_of_stop),
        };
        trip_crowd.per_stop.set(idx, Some(load));
        self.per_date.insert(date.days_from_ce, trip_crowd);
        Ok(())
    }

    /// The load of the trip on `date` at the stop time of sequence `stop_sequence`, when it
    /// is known; an error when no stop time has that sequence
    fn get_load(&self, date: &Date, stop_sequence: u32, Ghost(stop_sequences): Ghost<Seq<u32>>) -> (r:
        Result<Option<u8>, ()>)
        requires
            self.wf(stop_sequences),
            self.per_date@.contains_key(date.days_from_ce) ==> (last_index(stop_sequences, stop_sequence) matches Some(
                i,
            ) ==> i < nb_distinct(stop_sequences)),
        ensures
            r is Ok <==> last_index(stop_sequences, stop_sequence) is Some,
            r matches Ok(load) ==> load == if self.per_date@.contains_key(date.days_from_ce) {
                self.per_date@[date.days_from_ce].view()[last_index(stop_sequences, stop_sequence)->0 as int]
            } else {
                None
            },
    {
        let idx = match self.stop_sequence_to_idx.get(&stop_sequence) {
            Some(idx) => *idx,
            None => {
                return Err(());
            },
        };
        proof {
            lemma_last_index(stop_sequences, stop_sequence);
        }
        match self.per_date.get(&date.days_from_ce) {
            Some(trip_crowd) => Ok(trip_crowd.per_stop[idx]),
            None => Ok(None),
        }
    }
}

impl CrowdData {
    /// The loads of the trip `(vehicle_journey_idx, date)`, when a record gave one
    pub closed spec fn trip_crowd(&self, vehicle_journey_idx: usize, date: i32) -> Option<Seq<Option<u8>>> {
        if self.per_vehicle_journey@.contains_key(vehicle_journey_idx)
            && self.per_vehicle_journey@[vehicle_journey_idx].per_date@.contains_key(date) {
            Some(self.per_vehicle_journey@[vehicle_journey_idx].per_date@[date].view())
        } else {
            None
        }
    }

    /// Each vehicle journey is one of `stop_sequences`, whose stop sequences its loads follow.
    pub closed spec fn wf(&self, stop_sequences: Seq<Seq<u32>>) -> bool {
        forall|vj: usize|
            #[trigger] self.per_vehicle_journey@.contains_key(vj) ==> vj < stop_sequences.len()
                && self.per_vehicle_journey@[vj].wf(stop_sequences[vj as int])
    }

    /// Reads the record `record`, the stop times of its vehicle journey having the sequences
    /// `stop_sequences[record.vehicle_journey_idx]`: it sets the load of its trip at the stop
    /// time of its sequence, unless that load is known
    fn insert_record(&mut self, record: &LoadRecord, stop_sequences: &Vec<Vec<u32>>)
        requires
            old(self).wf(stop_sequences.deep_view()),
            record.vehicle_journey_idx < stop_sequences@.len(),
            last_index(stop_sequences.deep_view()[record.vehicle_journey_idx as int], record.stop_sequence) matches Some(
                i,
            ) ==> i < nb_distinct(stop_sequences.deep_view()[record.vehicle_journey_idx as int]),
        ensures
            final(self).wf(stop_sequences.deep_view()),
            forall|vj: usize, date: i32|
                #[trigger] final(self).trip_crowd(vj, date) == if vj == record.vehicle_journey_idx && date
                    == record.date.days_from_ce {
                    match last_index(stop_sequences.deep_view()[vj as int], record.stop_sequence) {
                        Some(i) => match old(self).trip_crowd(vj, date) {
                            Some(loads) => if loads[i as int] is Some {
                                old(self).trip_crowd(vj, date)
                            } else {
                                Some(loads.update(i as int, Some(record.occupancy)))
                            },
                            None => Some(
                                no_loads(nb_distinct(stop_sequences.deep_view()[vj as int])).update(
                                    i as int,
                                    Some(record.occupancy),
                                ),
                            ),
                        },
                        None => old(self).trip_crowd(vj, date),
                    }
                } else {
                    old(self).trip_crowd(vj, date)
                },
    {
        let ghost seqs = stop_sequences.deep_view();
        let vj = record.vehicle_journey_idx;
        let own_sequences = stop_sequences[vj].as_slice();
        assert(own_sequences@ == seqs[vj as int]);
        let mut vehicle_journey_crowd = match self.per_vehicle_journey.remove(&vj) {
            Some(crowd) => crowd,
            None => VehicleJourneyCrowd::new(own_sequences),
        };
        match vehicle_journey_crowd.get_load(&record.date, record.stop_sequence, Ghost(seqs[vj as int])) {
            Ok(None) => {
                let _ = vehicle_journey_crowd.set_load(
                    &record.date,
                    record.stop_sequence,
                    record.occupancy,
                    Ghost(seqs[vj as int]),
                );
            },
            _ => {},
        }
        self.per_vehicle_journey.insert(vj, vehicle_journey_crowd);
    }

    /// The loads of the trips that the records `records` give, read in their order, the
    /// stop times of each base vehicle journey `vj` having the sequences `stop_sequences[vj]`;
    /// the last index of the sequence of each record is below the number of distinct
    /// sequences of its vehicle journey, as it is when these are distinct
    pub fn from_records(records: &[LoadRecord], stop_sequences: &Vec<Vec<u32>>) -> (r: Self)
        requires
            forall|i: int|
                0 <= i < records@.len() ==> (#[trigger] records@[i]).vehicle_journey_idx
                    < stop_sequences@.len() && (last_index(
                    stop_sequences@[records@[i].vehicle_journey_idx as int]@,
                    records@[i].stop_sequence,
                ) matches Some(k) ==> k < nb_distinct(stop_sequences@[records@[i].vehicle_journey_idx as int]@)),
        ensures
            r.wf(stop_sequences.deep_view()),
            forall|vj: usize, date: i32|
                #[trigger] r.trip_crowd(vj, date) == crowd_after(
                    records@,
                    stop_sequences.deep_view(),
                    vj,
                    date,
                ),
    {
        let mut crowd_data = CrowdData { per_vehicle_journey: BTreeMap::new() };
        let mut i: usize = 0;
        while i < records.len()
            invariant
                i <= records@.len(),
                forall|j: int|
                    0 <= j < records@.len() ==> (#[trigger] records@[j]).vehicle_journey_idx
                        < stop_sequences@.len() && (last_index(
                        stop_sequences@[records@[j].vehicle_journey_idx as int]@,
                        records@[j].stop_sequence,
                    ) matches Some(k) ==> k < nb_distinct(stop_sequences@[records@[j].vehicle_journey_idx as int]@)),
                crowd_data.wf(stop_sequences.deep_view()),
                forall|vj: usize, date: i32|
                    #[trigger] crowd_data.trip_crowd(vj, date) == crowd_after(
                        records@.take(i as int),
                        stop_sequences.deep_view(),
                        vj,
                        date,
                    ),
            decreases records@.len() - i,
        {
            assert(stop_sequences.deep_view()[records@[i as int].vehicle_journey_idx as int]
                == stop_sequences@[records@[i as int].vehicle_journey_idx as int]@);
            crowd_data.insert_record(&records[i], stop_sequences);
            proof {
                let taken = records@.take(i + 1);
                assert(taken.drop_last() =~= records@.take(i as int));
                assert(taken.last() == records@[i as int]);
            }
            i += 1;
        }
        assert(records@.take(i as int) =~= records@);
        crowd_data
    }
}

/// What a check of the loads finds missing: all loads of a vehicle journey that runs on some
/// dates, or the load of a trip at the stop time of a sequence
#[derive(Debug, Clone, Copy, PartialEq, Eq, Structural)]
pub enum MissingCrowd {
    VehicleJourney(usize),
    Load(usize, Date, u32),
}

/// The loads missing in the trip of `vehicle_journey_idx` on `date`, of loads `loads`, at its
/// first `n` stop times, of sequences `stop_sequences`
pub open spec fn missing_stops(
    loads: Option<Seq<Option<u8>>>,
    vehicle_journey_idx: usize,
    date: Date,
    stop_sequences: Seq<u32>,
    n: nat,
) -> Seq<MissingCrowd>
    decreases n,
{
    if n == 0 {
        Seq::empty()
    } else {
        let before = missing_stops(loads, vehicle_journey_idx, date, stop_sequences, (n - 1) as nat);
        if loads matches Some(known) && known[n - 1] is Some {
            before
        } else {
            before.push(MissingCrowd::Load(vehicle_journey_idx, date, stop_sequences[n - 1]))
        }
    }
}

impl CrowdData {
    /// Some record gave a load of the trip of `vehicle_journey_idx` on one of `dates`.
    pub open spec fn has_loads_on(&self, vehicle_journey_idx: usize, dates: Seq<Date>) -> bool {
        exists|i: int|
            0 <= i < dates.len() && (#[trigger] self.trip_crowd(vehicle_journey_idx, dates[i].days_from_ce)) is Some
    }

    /// `true` when some record gave a load of the trip of `vehicle_journey_idx` on one of
    /// `dates`
    pub fn has_loads_on_dates(&self, vehicle_journey_idx: usize, dates: &[Date]) -> (r: bool)
        ensures
            r == self.has_loads_on(vehicle_journey_idx, dates@),
    {
        let crowd = match self.per_vehicle_journey.get(&vehicle_journey_idx) {
            Some(crowd) => crowd,
            None => {
                return false;
            },
        };
        let mut i: usize = 0;
        while i < dates.len()
            invariant
                self.per_vehicle_journey@.contains_key(vehicle_journey_idx),
                *crowd == self.per_vehicle_journey@[vehicle_journey_idx],
                i <= dates@.len(),
                forall|j: int| 0 <= j < i ==> (#[trigger] self.trip_crowd(vehicle_journey_idx, dates@[j].days_from_ce)) is None,
            decreases dates@.len() - i,
        {
            if crowd.per_date.contains_key(&dates[i].days_from_ce) {
                assert(self.trip_crowd(vehicle_journey_idx, dates@[i as int].days_from_ce) is Some);
                return true;
            }
            i += 1;
        }
        false
    }

    /// Some record gave a load of a trip of `vehicle_journey_idx`.
    pub closed spec fn has_vehicle_journey(&self, vehicle_journey_idx: usize) -> bool {
        self.per_vehicle_journey@.contains_key(vehicle_journey_idx)
    }

    /// The loads missing in the trips of `vehicle_journey_idx` on the first `n` dates of
    /// `dates`, its stop times having the sequences `stop_sequences`
    pub open spec fn missing_on_dates(
        &self,
        vehicle_journey_idx: usize,
        dates: Seq<Date>,
        stop_sequences: Seq<u32>,
        n: nat,
    ) -> Seq<MissingCrowd>
        decreases n,
    {
        if n == 0 {
            Seq::empty()
        } else {
            self.missing_on_dates(vehicle_journey_idx, dates, stop_sequences, (n - 1) as nat) + missing_stops(
                self.trip_crowd(vehicle_journey_idx, dates[n - 1].days_from_ce),
                vehicle_journey_idx,
                dates[n - 1],
                stop_sequences,
                stop_sequences.len(),
            )
        }
    }

    /// The loads missing for the first `n` base vehicle journeys, those of each vehicle
    /// journey `vj` running on the dates `calendars[vj]` when it has a calendar, with stop
    /// times of sequences `stop_sequences[vj]`
    pub open spec fn missing_loads_of(
        &self,
        calendars: Seq<Option<Seq<Date>>>,
        stop_sequences: Seq<Seq<u32>>,
        n: nat,
    ) -> Seq<MissingCrowd>
        decreases n,
    {
        if n == 0 {
            Seq::empty()
        } else {
            let vj = (n - 1) as usize;
            self.missing_loads_of(calendars, stop_sequences, (n - 1) as nat) + match calendars[n - 1] {
                None => Seq::empty(),
                Some(dates) => if self.has_vehicle_journey(vj) {
                    self.missing_on_dates(vj, dates, stop_sequences[n - 1], dates.len())
                } else {
                    seq![MissingCrowd::VehicleJourney(vj)]
                },
            }
        }
    }

    /// The loads missing in the trips of `vehicle_journey_idx` on the dates `dates`, its stop
    /// times having the sequences `stop_sequences`
    fn missing_in_vehicle_journey(
        crowd: &VehicleJourneyCrowd,
        vehicle_journey_idx: usize,
        dates: &Vec<Date>,
        stop_sequences: &Vec<u32>,
        Ghost(data): Ghost<CrowdData>,
    ) -> (r: Vec<MissingCrowd>)
        requires
            crowd.wf(stop_sequences@),
            data.per_vehicle_journey@.contains_key(vehicle_journey_idx),
            data.per_vehicle_journey@[vehicle_journey_idx] == *crowd,
            data.has_loads_on(vehicle_journey_idx, dates@) ==> stop_sequences@.no_duplicates(),
        ensures
            r@ == data.missing_on_dates(vehicle_journey_idx, dates@, stop_sequences@, dates@.len()),
    {
        let mut result: Vec<MissingCrowd> = Vec::new();
        let mut d: usize = 0;
        while d < dates.len()
            invariant
                crowd.wf(stop_sequences@),
                data.per_vehicle_journey@.contains_key(vehicle_journey_idx),
                data.per_vehicle_journey@[vehicle_journey_idx] == *crowd,
                data.has_loads_on(vehicle_journey_idx, dates@) ==> stop_sequences@.no_duplicates(),
                d <= dates@.len(),
                result@ == data.missing_on_dates(vehicle_journey_idx, dates@, stop_sequences@, d as nat),
            decreases dates@.len() - d,
        {
            let date = dates[d];
            let ghost before = result@;
            let ghost loads = data.trip_crowd(vehicle_journey_idx, date.days_from_ce);
            proof {
                if loads is Some {
                    assert(data.trip_crowd(vehicle_journey_idx, dates@[d as int].days_from_ce) is Some);
                }
            }
            let mut k: usize = 0;
            while k < stop_sequences.len()
                invariant
                    crowd.wf(stop_sequences@),
                    data.per_vehicle_journey@.contains_key(vehicle_journey_idx),
                    data.per_vehicle_journey@[vehicle_journey_idx] == *crowd,
                    loads == data.trip_crowd(vehicle_journey_idx, date.days_from_ce),
                    loads is Some ==> stop_sequences@.no_duplicates(),
                    k <= stop_sequences@.len(),
                    result@ == before + missing_stops(loads, vehicle_journey_idx, date, stop_sequences@, k as nat),
                decreases stop_sequences@.len() - k,
            {
                let stop_sequence = stop_sequences[k];
                proof {
                    assert(stop_sequences@.contains(stop_sequence));
                    crate::loads_data::real_loads::lemma_last_index_contains(stop_sequences@, stop_sequence);
                    lemma_last_index(stop_sequences@, stop_sequence);
                    if loads is Some {
                        lemma_nb_distinct_no_duplicates(stop_sequences@);
                        assert(last_index(stop_sequences@, stop_sequence)->0 == k) by {
                            let i = last_index(stop_sequences@, stop_sequence)->0;
                            assert(stop_sequences@[i as int] == stop_sequences@[k as int]);
                        }
                    }
                }
                let load = crowd.get_load(&date, stop_sequence, Ghost(stop_sequences@));
                match load {
                    Ok(None) => {
                        result.push(MissingCrowd::Load(vehicle_journey_idx, date, stop_sequence));
                        assert(result@ =~= before + missing_stops(loads, vehicle_journey_idx, date, stop_sequences@, (k + 1) as nat));
                    },
                    _ => {},
                }
                k += 1;
            }
            d += 1;
        }
        result
    }

    /// The loads missing for the base vehicle journeys, each vehicle journey `vj` running on
    /// the dates `calendars[vj]` when it has a calendar, with stop times of sequences
    /// `stop_sequences[vj]`, in the order of the vehicle journeys, of their dates and of their
    /// stop times: a vehicle journey with no load at all, or a trip with no load at a stop
    /// time
    pub fn missing_loads(&self, calendars: &[Option<Vec<Date>>], stop_sequences: &Vec<Vec<u32>>) -> (r: Vec<
        MissingCrowd,
    >)
        requires
            self.wf(stop_sequences.deep_view()),
            calendars@.len() == stop_sequences@.len(),
            forall|vj: int|
                0 <= vj < calendars@.len() ==> match #[trigger] calendars@[vj] {
                    Some(dates) => self.has_loads_on(vj as usize, dates@) ==> stop_sequences@[vj]@.no_duplicates(),
                    None => true,
                },
        ensures
            r@ == self.missing_loads_of(
                calendars@.map_values(|dates: Option<Vec<Date>>| match dates {
                    Some(dates) => Some(dates@),
                    None => None,
                }),
                stop_sequences.deep_view(),
                calendars@.len(),
            ),
    {
        let ghost calendar_views = calendars@.map_values(|dates: Option<Vec<Date>>| match dates {
            Some(dates) => Some(dates@),
            None => None,
        });
        let mut result: Vec<MissingCrowd> = Vec::new();
        let mut vj: usize = 0;
        while vj < calendars.len()
            invariant
                self.wf(stop_sequences.deep_view()),
                calendars@.len() == stop_sequences@.len(),
                forall|vj: int|
                    0 <= vj < calendars@.len() ==> match #[trigger] calendars@[vj] {
                        Some(dates) => self.has_loads_on(vj as usize, dates@) ==> stop_sequences@[vj]@.no_duplicates(),
                        None => true,
                    },
                calendar_views == calendars@.map_values(|dates: Option<Vec<Date>>| match dates {
                    Some(dates) => Some(dates@),
                    None => None,
                }),
                vj <= calendars@.len(),
                result@ == self.missing_loads_of(calendar_views, stop_sequences.deep_view(), vj as nat),
            decreases calendars@.len() - vj,
        {
            let ghost before = result@;
            match &calendars[vj] {
                None => {
                    assert(result@ =~= self.missing_loads_of(calendar_views, stop_sequences.deep_view(), (vj + 1) as nat));
                },
                Some(dates) => {
                    match self.per_vehicle_journey.get(&vj) {
                        None => {
                            result.push(MissingCrowd::VehicleJourney(vj));
                            assert(result@ =~= self.missing_loads_of(calendar_views, stop_sequences.deep_view(), (vj + 1) as nat));
                        },
                        Some(crowd) => {
                            assert(stop_sequences.deep_view()[vj as int] == stop_sequences@[vj as int]@);
                            let mut missing = CrowdData::missing_in_vehicle_journey(
                                crowd,
                                vj,
                                dates,
                                &stop_sequences[vj],
                                Ghost(*self),
                            );
                            result.append(&mut missing);
                            assert(result@ =~= self.missing_loads_of(calendar_views, stop_sequences.deep_view(), (vj + 1) as nat));
                        },
                    }
                },
            }
            vj += 1;
        }
        result
    }
}

} // verus!
