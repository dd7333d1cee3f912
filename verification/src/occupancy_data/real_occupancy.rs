use std::collections::BTreeMap;

use vstd::prelude::*;

use crate::dates::Date;
use crate::loads_data::real_loads::{last_index, lemma_last_index, stop_sequence_indices, LoadRecord};
use crate::models::{StopTimeIdx, VehicleJourneyIdx};
use crate::text::{counts_text, counts_to_string};

verus! {

/// How occupied a vehicle is, from the least occupied to the most occupied
#[derive(Copy, Clone, Debug, PartialEq, Eq, Structural, PartialOrd, Ord)]
pub enum Occupancy {
    Low,
    Medium,
    High,
}

impl Default for Occupancy {
    fn default() -> (r: Self)
        ensures
            r == Occupancy::Medium,
    {
        Occupancy::Medium
    }
}

/// The occupancy level of a vehicle whose occupancy ratio is `occupancy` percent
pub open spec fn occupancy_of_ratio(occupancy: u8) -> Occupancy {
    if occupancy <= 30 {
        Occupancy::Low
    } else if occupancy <= 70 {
        Occupancy::Medium
    } else {
        Occupancy::High
    }
}

/// The occupancy level of a vehicle whose occupancy ratio is `occupancy` percent: low up
/// to 30%, medium up to 70%, high above
pub fn ratio_to_occupancy(occupancy: u8) -> (r: Occupancy)
    requires
        occupancy <= 100,
    ensures
        r == occupancy_of_ratio(occupancy),
        r is Low <==> occupancy <= 30,
        r is High <==> occupancy > 70,
{
    if occupancy <= 30 {
        Occupancy::Low
    } else if occupancy <= 70 {
        Occupancy::Medium
    } else {
        Occupancy::High
    }
}

/// A higher occupancy ratio never gives a lower occupancy level.
pub proof fn lemma_ratio_monotone(lower: u8, upper: u8)
    requires
        lower <= upper,
    ensures
        occupancy_level(occupancy_of_ratio(lower)) <= occupancy_level(occupancy_of_ratio(upper)),
{
}

/// The number of legs of a journey on which the vehicle was highly, medium or lowly occupied
#[derive(Debug, PartialEq, Eq, Structural, Clone)]
pub struct OccupancyCount {
    pub high: u16,
    pub medium: u16,
    pub low: u16,
}

/// `a` is lower than or equal to `b` in the lexicographic order on (high, medium, low)
pub open spec fn counts_lower(a: OccupancyCount, b: OccupancyCount) -> bool {
    ||| a.high < b.high
    ||| a.high == b.high && a.medium < b.medium
    ||| a.high == b.high && a.medium == b.medium && a.low <= b.low
}

/// `count` can count one more `occupancy`.
pub open spec fn can_add(count: OccupancyCount, occupancy: Occupancy) -> bool {
    match occupancy {
        Occupancy::High => count.high < u16::MAX,
        Occupancy::Medium => count.medium < u16::MAX,
        Occupancy::Low => count.low < u16::MAX,
    }
}

/// `count` with one more `occupancy`
pub open spec fn added(count: OccupancyCount, occupancy: Occupancy) -> OccupancyCount {
    match occupancy {
        Occupancy::High => OccupancyCount { high: (count.high + 1) as u16, ..count },
        Occupancy::Medium => OccupancyCount { medium: (count.medium + 1) as u16, ..count },
        Occupancy::Low => OccupancyCount { low: (count.low + 1) as u16, ..count },
    }
}

/// The highest occupancy counted at least once, `Low` when none is
pub open spec fn max_occupancy(count: OccupancyCount) -> Occupancy {
    if count.high > 0 {
        Occupancy::High
    } else if count.medium > 0 {
        Occupancy::Medium
    } else {
        Occupancy::Low
    }
}

/// The rank of an occupancy, from the least occupied to the most occupied
pub open spec fn occupancy_level(occupancy: Occupancy) -> int {
    match occupancy {
        Occupancy::Low => 0,
        Occupancy::Medium => 1,
        Occupancy::High => 2,
    }
}

/// `occupancy` was counted at least once in `count`
pub open spec fn counted(count: OccupancyCount, occupancy: Occupancy) -> bool {
    match occupancy {
        Occupancy::High => count.high > 0,
        Occupancy::Medium => count.medium > 0,
        Occupancy::Low => count.low > 0,
    }
}

/// The highest occupancy of a count is at least as high as every occupancy counted in it,
/// and is itself counted, unless it is `Low`: a count that holds a high occupancy has a high
/// maximum, whatever else it holds.
pub proof fn lemma_max_is_highest_counted(count: OccupancyCount)
    ensures
        forall|occupancy: Occupancy|
            #[trigger] counted(count, occupancy) ==> occupancy_level(occupancy) <= occupancy_level(
                max_occupancy(count),
            ),
        max_occupancy(count) == Occupancy::Low || counted(count, max_occupancy(count)),
        count.high > 0 ==> max_occupancy(count) == Occupancy::High,
{
}

/// The count of the occupancies `occupancies`, added one after the other to the count of
/// no occupancy
pub open spec fn count_of(occupancies: Seq<Occupancy>) -> OccupancyCount
    decreases occupancies.len(),
{
    if occupancies.len() == 0 {
        OccupancyCount { high: 0, medium: 0, low: 0 }
    } else {
        added(count_of(occupancies.drop_last()), occupancies.last())
    }
}

/// The highest of the occupancies `occupancies`, `Low` when there is none
pub open spec fn highest_occupancy(occupancies: Seq<Occupancy>) -> Occupancy
    decreases occupancies.len(),
{
    if occupancies.len() == 0 {
        Occupancy::Low
    } else {
        let before = highest_occupancy(occupancies.drop_last());
        if occupancy_level(before) >= occupancy_level(occupancies.last()) {
            before
        } else {
            occupancies.last()
        }
    }
}

/// `count_of` is what `zero` then `add` of each occupancy in turn give.
pub proof fn lemma_count_of_adds(occupancies: Seq<Occupancy>, occupancy: Occupancy)
    ensures
        count_of(Seq::empty()) == (OccupancyCount { high: 0, medium: 0, low: 0 }),
        count_of(occupancies.push(occupancy)) == added(count_of(occupancies), occupancy),
{
    assert(occupancies.push(occupancy).drop_last() =~= occupancies);
}

/// The highest occupancy counted, once fewer than `u16::MAX` occupancies are added one
/// after the other to the count of no occupancy, is the highest of these occupancies, `Low`
/// when there is none.
pub proof fn lemma_max_of_count(occupancies: Seq<Occupancy>)
    requires
        occupancies.len() < u16::MAX,
    ensures
        max_occupancy(count_of(occupancies)) == highest_occupancy(occupancies),
        count_of(occupancies).high + count_of(occupancies).medium + count_of(occupancies).low
            == occupancies.len(),
    decreases occupancies.len(),
{
    if occupancies.len() > 0 {
        lemma_max_of_count(occupancies.drop_last());
        let before = count_of(occupancies.drop_last());
        lemma_max_is_highest_counted(before);
        lemma_max_is_highest_counted(added(before, occupancies.last()));
    }
}

impl OccupancyCount {
    /// The count of no occupancy
    pub fn zero() -> (r: Self)
        ensures
            r == (OccupancyCount { high: 0, medium: 0, low: 0 }),
    {
        Self { high: 0, medium: 0, low: 0 }
    }

    /// The count with one more `occupancy`
    pub fn add(&self, occupancy: Occupancy) -> (r: Self)
        requires
            can_add(*self, occupancy),
        ensures
            r == added(*self, occupancy),
    {
        let mut high = self.high;
        let mut medium = self.medium;
        let mut low = self.low;
        match occupancy {
            Occupancy::High => {
                high += 1;
            },
            Occupancy::Medium => {
                medium += 1;
            },
            Occupancy::Low => {
                low += 1;
            },
        }
        Self { high, medium, low }
    }

    /// The number of occupancies counted
    pub fn total(&self) -> (r: u16)
        requires
            self.high + self.medium + self.low <= u16::MAX,
        ensures
            r == self.high + self.medium + self.low,
    {
        self.high + self.medium + self.low
    }

    /// The highest occupancy counted at least once, `Low` when none is
    pub fn max(&self) -> (r: Occupancy)
        ensures
            r == max_occupancy(*self),
            forall|occupancy: Occupancy|
                #[trigger] counted(*self, occupancy) ==> occupancy_level(occupancy) <= occupancy_level(r),
            r == Occupancy::Low || counted(*self, r),
    {
        if self.high > 0 {
            return Occupancy::High;
        }
        if self.medium > 0 {
            return Occupancy::Medium;
        }
        Occupancy::Low
    }

    /// `true` when `self` is lower than or equal to `other`, comparing the high counts
    /// first, then the medium counts, then the low counts
    pub fn is_lower(&self, other: &Self) -> (r: bool)
        ensures
            r == counts_lower(*self, *other),
    {
        if self.high < other.high {
            true
        } else if self.high > other.high {
            false
        } else if self.medium < other.medium {
            true
        } else if self.medium > other.medium {
            false
        } else {
            self.low <= other.low
        }
    }
}

impl Default for OccupancyCount {
    fn default() -> (r: Self)
        ensures
            r == (OccupancyCount { high: 0, medium: 0, low: 0 }),
    {
        Self::zero()
    }
}

/// A medium occupancy at each of `nb_of_stops` stops
pub open spec fn medium_occupancies(nb_of_stops: nat) -> Seq<Occupancy> {
    Seq::new(nb_of_stops, |i: int| Occupancy::Medium)
}

/// The occupancies of the trip `(vehicle_journey_idx, date)` once the records `records` are
/// read in their order, the stop times of each base vehicle journey `vj` having the sequences
/// `stop_sequences[vj]`: a record sets the occupancy at the last stop time of its sequence,
/// the other stop times of a trip with a record having a medium occupancy; none when no
/// record of the trip has a sequence of its stop times
pub open spec fn occupancies_after(
    records: Seq<LoadRecord>,
    stop_sequences: Seq<Seq<u32>>,
    vehicle_journey_idx: usize,
    date: i32,
) -> Option<Seq<Occupancy>>
    decreases records.len(),
{
    if records.len() == 0 {
        None
    } else {
        let before = occupancies_after(records.drop_last(), stop_sequences, vehicle_journey_idx, date);
        let record = records.last();
        if record.vehicle_journey_idx == vehicle_journey_idx && record.date.days_from_ce == date {
            match last_index(stop_sequences[vehicle_journey_idx as int], record.stop_sequence) {
                Some(i) => {
                    let occupancies = match before {
                        Some(occupancies) => occupancies,
                        None => medium_occupancies(stop_sequences[vehicle_journey_idx as int].len()),
                    };
                    Some(occupancies.update(i as int, occupancy_of_ratio(record.occupancy)))
                },
                None => before,
            }
        } else {
            before
        }
    }
}

/// The occupancies of a vehicle journey: the index of each stop sequence of its stop times,
/// and the occupancies of its trips, by date
struct VehicleJourneyOccupancy {
    stop_sequence_to_idx: BTreeMap<u32, usize>,
    per_date: BTreeMap<i32, TripOccupancy>,
}

impl VehicleJourneyOccupancy {
    /// No occupancy yet, for stop times of sequences `stop_sequences`
    fn new(stop_sequences: &[u32]) -> (r: Self)
        ensures
            forall|s: u32|
                #![trigger r.stop_sequence_to_idx@.contains_key(s)]
                (r.stop_sequence_to_idx@.contains_key(s) <==> last_index(stop_sequences@, s) is Some)
                    && (r.stop_sequence_to_idx@.contains_key(s) ==> r.stop_sequence_to_idx@[s]
                    == last_index(stop_sequences@, s)->0),
            r.per_date@ == Map::<i32, TripOccupancy>::empty(),
    {
        Self { stop_sequence_to_idx: stop_sequence_indices(stop_sequences), per_date: BTreeMap::new() }
    }
}

/// The occupancies of the trips of the base vehicle journeys that an occupancy file gives
pub struct OccupancyData {
    per_vehicle_journey: BTreeMap<usize, VehicleJourneyOccupancy>,
}

impl OccupancyData {
    /// The occupancies of the trip `(vehicle_journey_idx, date)`, when a record gave one
    pub closed spec fn trip_occupancies(&self, vehicle_journey_idx: usize, date: i32) -> Option<
        Seq<Occupancy>,
    > {
        if self.per_vehicle_journey@.contains_key(vehicle_journey_idx)
            && self.per_vehicle_journey@[vehicle_journey_idx].per_date@.contains_key(date) {
            Some(self.per_vehicle_journey@[vehicle_journey_idx].per_date@[date].per_stop@)
        } else {
            None
        }
    }

    /// The indices of the stop sequences of each vehicle journey are those of
    /// `stop_sequences`, and the occupancies of its trips are one per stop time, of which
    /// there is at least one.
    pub closed spec fn wf(&self, stop_sequences: Seq<Seq<u32>>) -> bool {
        forall|vj: usize|
            #[trigger] self.per_vehicle_journey@.contains_key(vj) ==> {
                let occupancies = self.per_vehicle_journey@[vj];
                &&& vj < stop_sequences.len()
                &&& forall|s: u32|
                    #![trigger occupancies.stop_sequence_to_idx@.contains_key(s)]
                    (occupancies.stop_sequence_to_idx@.contains_key(s) <==> last_index(
                        stop_sequences[vj as int],
                        s,
                    ) is Some) && (occupancies.stop_sequence_to_idx@.contains_key(s)
                        ==> occupancies.stop_sequence_to_idx@[s] == last_index(
                        stop_sequences[vj as int],
                        s,
                    )->0)
                &&& forall|date: i32|
                    #[trigger] occupancies.per_date@.contains_key(date)
                        ==> occupancies.per_date@[date].per_stop@.len() == stop_sequences[vj as int].len()
                        > 0
            }
    }

    /// No occupancy
    pub fn empty() -> (r: Self)
        ensures
            forall|stop_sequences: Seq<Seq<u32>>| #[trigger] r.wf(stop_sequences),
            forall|vj: usize, date: i32| #[trigger] r.trip_occupancies(vj, date) is None,
    {
        OccupancyData { per_vehicle_journey: BTreeMap::new() }
    }

    /// Reads the record `record`, the stop times of its vehicle journey having the sequences
    /// `stop_sequences[record.vehicle_journey_idx]`
    fn insert_record(&mut self, record: &LoadRecord, stop_sequences: &Vec<Vec<u32>>)
        requires
            old(self).wf(stop_sequences.deep_view()),
            record.vehicle_journey_idx < stop_sequences@.len(),
            record.occupancy <= 100,
        ensures
            final(self).wf(stop_sequences.deep_view()),
            forall|vj: usize, date: i32|
                #[trigger] final(self).trip_occupancies(vj, date) == if vj == record.vehicle_journey_idx
                    && date == record.date.days_from_ce {
                    match last_index(stop_sequences.deep_view()[vj as int], record.stop_sequence) {
                        Some(i) => Some(
                            match old(self).trip_occupancies(vj, date) {
                                Some(occupancies) => occupancies,
                                None => medium_occupancies(stop_sequences.deep_view()[vj as int].len()),
                            }.update(i as int, occupancy_of_ratio(record.occupancy)),
                        ),
                        None => old(self).trip_occupancies(vj, date),
                    }
                } else {
                    old(self).trip_occupancies(vj, date)
                },
    {
        let ghost seqs = stop_sequences.deep_view();
        let vj = record.vehicle_journey_idx;
        let date = record.date.days_from_ce;
        let occupancy = ratio_to_occupancy(record.occupancy);
        let own_sequences = stop_sequences[vj].as_slice();
        assert(own_sequences@ == seqs[vj as int]);
        let mut vehicle_journey_occupancy = match self.per_vehicle_journey.remove(&vj) {
            Some(occupancies) => occupancies,
            None => VehicleJourneyOccupancy::new(own_sequences),
        };
        match vehicle_journey_occupancy.stop_sequence_to_idx.get(&record.stop_sequence) {
            None => {
                self.per_vehicle_journey.insert(vj, vehicle_journey_occupancy);
                assert(self.per_vehicle_journey@ =~= old(self).per_vehicle_journey@.insert(
                    vj,
                    vehicle_journey_occupancy,
                ));
            },
            Some(idx) => {
                let idx = *idx;
                proof {
                    lemma_last_index(seqs[vj as int], record.stop_sequence);
                }
                let mut trip_occupancy = match vehicle_journey_occupancy.per_date.remove(&date) {
                    Some(occupancies) => occupancies,
                    None => TripOccupancy::new(own_sequences.len()),
                };
                trip_occupancy.per_stop.set(idx, occupancy);
                vehicle_journey_occupancy.per_date.insert(date, trip_occupancy);
                self.per_vehicle_journey.insert(vj, vehicle_journey_occupancy);
            },
        }
    }

    /// The occupancies of the trips that the records `records` give, read in their order,
    /// the stop times of each base vehicle journey `vj` having the sequences
    /// `stop_sequences[vj]`
    pub fn from_records(records: &[LoadRecord], stop_sequences: &Vec<Vec<u32>>) -> (r: Self)
        requires
            forall|i: int|
                0 <= i < records@.len() ==> (#[trigger] records@[i]).vehicle_journey_idx
                    < stop_sequences@.len() && records@[i].occupancy <= 100,
        ensures
            r.wf(stop_sequences.deep_view()),
            forall|vj: usize, date: i32|
                #[trigger] r.trip_occupancies(vj, date) == occupancies_after(
                    records@,
                    stop_sequences.deep_view(),
                    vj,
                    date,
                ),
    {
        let mut occupancy_data = OccupancyData::empty();
        let mut i: usize = 0;
        while i < records.len()
            invariant
                i <= records@.len(),
                forall|j: int|
                    0 <= j < records@.len() ==> (#[trigger] records@[j]).vehicle_journey_idx
                        < stop_sequences@.len() && records@[j].occupancy <= 100,
                occupancy_data.wf(stop_sequences.deep_view()),
                forall|vj: usize, date: i32|
                    #[trigger] occupancy_data.trip_occupancies(vj, date) == occupancies_after(
                        records@.take(i as int),
                        stop_sequences.deep_view(),
                        vj,
                        date,
                    ),
            decreases records@.len() - i,
        {
            occupancy_data.insert_record(&records[i], stop_sequences);
            proof {
                let taken = records@.take(i + 1);
                assert(taken.drop_last() =~= records@.take(i as int));
                assert(taken.last() == records@[i as int]);
            }
            i += 1;
        }
        assert(records@.take(i as int) =~= records@);
        occupancy_data
    }

    /// The occupancies of `vehicle_journey_idx` on `date` at each stop time but the last one,
    /// when it is a base vehicle journey whose trip on `date` has occupancies
    pub fn occupancies(&self, vehicle_journey_idx: &VehicleJourneyIdx, date: &Date) -> (r: Option<
        &[Occupancy],
    >)
        requires
            exists|stop_sequences: Seq<Seq<u32>>| self.wf(stop_sequences),
        ensures
            match *vehicle_journey_idx {
                VehicleJourneyIdx::Base(vj) => match self.trip_occupancies(vj, date.days_from_ce) {
                    Some(occupancies) => r matches Some(slice) && slice@ == occupancies.drop_last(),
                    None => r is None,
                },
                VehicleJourneyIdx::New(_) => r is None,
            },
    {
        match vehicle_journey_idx {
            VehicleJourneyIdx::Base(idx) => {
                let vehicle_journey_occupancy = match self.per_vehicle_journey.get(idx) {
                    Some(occupancies) => occupancies,
                    None => {
                        return None;
                    },
                };
                let trip_occupancy = match vehicle_journey_occupancy.per_date.get(&date.days_from_ce) {
                    Some(occupancies) => occupancies,
                    None => {
                        return None;
                    },
                };
                let nb_of_stops = trip_occupancy.per_stop.len();
                let slice = &trip_occupancy.per_stop.as_slice()[0..nb_of_stops - 1];
                assert(slice@ =~= trip_occupancy.per_stop@.drop_last());
                Some(slice)
            },
            VehicleJourneyIdx::New(_) => None,
        }
    }

    /// The occupancy of `vehicle_journey_idx` on `date` when it leaves its stop time
    /// `stop_time_idx`, if its trip has occupancies and the stop time is not its last one
    pub fn occupancy(
        &self,
        vehicle_journey_idx: &VehicleJourneyIdx,
        stop_time_idx: StopTimeIdx,
        date: &Date,
    ) -> (r: Option<Occupancy>)
        requires
            exists|stop_sequences: Seq<Seq<u32>>| self.wf(stop_sequences),
        ensures
            match *vehicle_journey_idx {
                VehicleJourneyIdx::Base(vj) => match self.trip_occupancies(vj, date.days_from_ce) {
                    Some(occupancies) => if stop_time_idx.idx + 1 < occupancies.len() {
                        r == Some(occupancies[stop_time_idx.idx as int])
                    } else {
                        r is None
                    },
                    None => r is None,
                },
                VehicleJourneyIdx::New(_) => r is None,
            },
    {
        match self.occupancies(vehicle_journey_idx, date) {
            Some(occupancies) => {
                if stop_time_idx.idx < occupancies.len() {
                    Some(occupancies[stop_time_idx.idx])
                } else {
                    None
                }
            },
            None => None,
        }
    }
}

/// The occupancies of a trip, one per stop
pub struct TripOccupancy {
    per_stop: Vec<Occupancy>,
}

impl TripOccupancy {
    /// The occupancies at each stop
    pub closed spec fn view(&self) -> Seq<Occupancy> {
        self.per_stop@
    }

    /// A medium occupancy at each of the `nb_of_stop` stops
    pub fn new(nb_of_stop: usize) -> (r: Self)
        ensures
            r.view() == Seq::new(nb_of_stop as nat, |i: int| Occupancy::Medium),
    {
        let mut per_stop: Vec<Occupancy> = Vec::new();
        let mut i: usize = 0;
        while i < nb_of_stop
            invariant
                i <= nb_of_stop,
                per_stop@ == Seq::new(i as nat, |j: int| Occupancy::Medium),
            decreases nb_of_stop - i,
        {
            per_stop.push(Occupancy::Medium);
            i += 1;
            assert(per_stop@ =~= Seq::new(i as nat, |j: int| Occupancy::Medium));
        }
        Self { per_stop }
    }
}

/// `is_lower` is a total preorder: reflexive, transitive, and any two counts are ordered
/// one way or the other.
pub proof fn lemma_counts_lower_total_preorder(a: OccupancyCount, b: OccupancyCount, c: OccupancyCount)
    ensures
        counts_lower(a, a),
        counts_lower(a, b) && counts_lower(b, c) ==> counts_lower(a, c),
        counts_lower(a, b) || counts_lower(b, a),
        counts_lower(a, b) && counts_lower(b, a) ==> a == b,
{
}

/// Adding an occupancy gives a count that is not lower than the count before, unless they are
/// equal, and that counts one more occupancy in total.
pub proof fn lemma_add_grows(count: OccupancyCount, occupancy: Occupancy)
    requires
        can_add(count, occupancy),
    ensures
        counts_lower(count, added(count, occupancy)),
        !counts_lower(added(count, occupancy), count),
        added(count, occupancy).high + added(count, occupancy).medium + added(count, occupancy).low == count.high
            + count.medium + count.low + 1,
{
}

/// The name of an occupancy
pub open spec fn occupancy_name(occupancy: Occupancy) -> Seq<char> {
    match occupancy {
        Occupancy::Low => "Low"@,
        Occupancy::Medium => "Medium"@,
        Occupancy::High => "High"@,
    }
}

impl Occupancy {
    /// The name of the occupancy: `Low`, `Medium` or `High`
    pub fn to_string(&self) -> (r: String)
        ensures
            r@ == occupancy_name(*self),
    {
        match self {
            Occupancy::Low => "Low".to_owned(),
            Occupancy::Medium => "Medium".to_owned(),
            Occupancy::High => "High".to_owned(),
        }
    }
}

impl OccupancyCount {
    /// The counts as text: `High 1; Medium 2; Low 3; total 6`
    pub fn to_string(&self) -> (r: String)
        requires
            self.high + self.medium + self.low <= u16::MAX,
        ensures
            r@ == counts_text(self.high as nat, self.medium as nat, self.low as nat),
    {
        counts_to_string(self.high, self.medium, self.low)
    }
}

} // verus!
