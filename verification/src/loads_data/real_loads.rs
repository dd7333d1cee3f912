use std::collections::BTreeMap;

use vstd::prelude::*;

use crate::dates::{parse_ymd_date, ymd_date_days, Date};
use crate::models::real_time_model::{position_of, BaseModelIds};
use crate::text::{chars_of, counts_text, counts_to_string, parse_unsigned, unsigned_value};
use crate::models::VehicleJourneyIdx;

verus! {

broadcast use {vstd::std_specs::btree::group_btree_axioms, vstd::laws_cmp::group_laws_cmp};

/// How loaded a vehicle is, from the least loaded to the most loaded
#[derive(Copy, Clone, Debug, PartialEq, Eq, Structural, PartialOrd, Ord)]
pub enum Load {
    Low,
    Medium,
    High,
}

impl Default for Load {
    fn default() -> (r: Self)
        ensures
            r == Load::Medium,
    {
        Load::Medium
    }
}

/// The rank of a load: 0 for `Low`, 1 for `Medium`, 2 for `High`
pub open spec fn load_rank(load: Load) -> u8 {
    match load {
        Load::Low => 0,
        Load::Medium => 1,
        Load::High => 2,
    }
}

/// The rank of a load: 0 for `Low`, 1 for `Medium`, 2 for `High`
pub fn load_to_int(load: &Load) -> (r: u8)
    ensures
        r == load_rank(*load),
{
    match load {
        Load::Low => 0,
        Load::Medium => 1,
        Load::High => 2,
    }
}

/// The load of a vehicle whose occupancy is `occupancy` percent
pub open spec fn load_of_occupancy(occupancy: u8) -> Load {
    if occupancy <= 30 {
        Load::Low
    } else if occupancy <= 70 {
        Load::Medium
    } else {
        Load::High
    }
}

/// The load of a vehicle whose occupancy is `occupancy` percent: low up to 30%, medium up
/// to 70%, high above
pub fn occupancy_to_load(occupancy: u8) -> (r: Load)
    requires
        occupancy <= 100,
    ensures
        r == load_of_occupancy(occupancy),
{
    if occupancy <= 30 {
        Load::Low
    } else if occupancy <= 70 {
        Load::Medium
    } else {
        Load::High
    }
}

/// The number of legs of a journey on which the vehicle was highly, medium or lowly loaded
#[derive(Debug, PartialEq, Eq, Structural, Clone)]
pub struct LoadsCount {
    pub high: u16,
    pub medium: u16,
    pub low: u16,
}

/// `a` is lower than or equal to `b` in the lexicographic order on (high, medium, low)
pub open spec fn counts_lower(a: LoadsCount, b: LoadsCount) -> bool {
    ||| a.high < b.high
    ||| a.high == b.high && a.medium < b.medium
    ||| a.high == b.high && a.medium == b.medium && a.low <= b.low
}

/// `count` can count one more `load`.
pub open spec fn can_add(count: LoadsCount, load: Load) -> bool {
    match load {
        Load::High => count.high < u16::MAX,
        Load::Medium => count.medium < u16::MAX,
        Load::Low => count.low < u16::MAX,
    }
}

/// `count` with one more `load`
pub open spec fn added(count: LoadsCount, load: Load) -> LoadsCount {
    match load {
        Load::High => LoadsCount { high: (count.high + 1) as u16, ..count },
        Load::Medium => LoadsCount { medium: (count.medium + 1) as u16, ..count },
        Load::Low => LoadsCount { low: (count.low + 1) as u16, ..count },
    }
}

/// The highest load counted at least once, `Low` when none is
pub open spec fn max_load(count: LoadsCount) -> Load {
    if count.high > 0 {
        Load::High
    } else if count.medium > 0 {
        Load::Medium
    } else {
        Load::Low
    }
}

/// The rank of a load, from the least loaded to the most loaded
pub open spec fn load_level(load: Load) -> int {
    match load {
        Load::Low => 0,
        Load::Medium => 1,
        Load::High => 2,
    }
}

/// Counting one more load makes the highest load counted the higher of the highest load
/// counted before and that load.
pub proof fn lemma_max_after_add(count: LoadsCount, load: Load)
    requires
        can_add(count, load),
    ensures
        load_level(max_load(added(count, load))) == if load_level(max_load(count)) >= load_level(load) {
            load_level(max_load(count))
        } else {
            load_level(load)
        },
        max_load(added(count, load)) == if load_level(max_load(count)) >= load_level(load) {
            max_load(count)
        } else {
            load
        },
{
}

/// The count of the loads `loads`, added one after the other to the count of no load
pub open spec fn count_of(loads: Seq<Load>) -> LoadsCount
    decreases loads.len(),
{
    if loads.len() == 0 {
        LoadsCount { high: 0, medium: 0, low: 0 }
    } else {
        added(count_of(loads.drop_last()), loads.last())
    }
}

/// `count_of` is what `zero` then `add` of each load in turn give: the count of no load
/// is the count `zero` returns, and counting one more load is what `add` returns.
pub proof fn lemma_count_of_adds(loads: Seq<Load>, load: Load)
    ensures
        count_of(Seq::empty()) == (LoadsCount { high: 0, medium: 0, low: 0 }),
        count_of(loads.push(load)) == added(count_of(loads), load),
{
    assert(loads.push(load).drop_last() =~= loads);
}

/// The highest of the loads `loads`, `Low` when there is none
pub open spec fn highest_load(loads: Seq<Load>) -> Load
    decreases loads.len(),
{
    if loads.len() == 0 {
        Load::Low
    } else {
        let before = highest_load(loads.drop_last());
        if load_level(before) >= load_level(loads.last()) {
            before
        } else {
            loads.last()
        }
    }
}

/// The highest load counted, once fewer than `u16::MAX` loads are added one after the other
/// to the count of no load, is the highest of these loads, `Low` when there is none.
pub proof fn lemma_max_of_count(loads: Seq<Load>)
    requires
        loads.len() < u16::MAX,
    ensures
        max_load(count_of(loads)) == highest_load(loads),
        count_of(loads).high + count_of(loads).medium + count_of(loads).low == loads.len(),
    decreases loads.len(),
{
    if loads.len() > 0 {
        lemma_max_of_count(loads.drop_last());
        lemma_max_after_add(count_of(loads.drop_last()), loads.last());
    }
}

impl LoadsCount {
    /// The count of no load
    pub fn zero() -> (r: Self)
        ensures
            r == (LoadsCount { high: 0, medium: 0, low: 0 }),
    {
        Self { high: 0, medium: 0, low: 0 }
    }

    /// The count with one more `load`
    pub fn add(&self, load: Load) -> (r: Self)
        requires
            can_add(*self, load),
        ensures
            r == added(*self, load),
    {
        let mut high = self.high;
        let mut medium = self.medium;
        let mut low = self.low;
        match load {
            Load::High => {
                high += 1;
            },
            Load::Medium => {
                medium += 1;
            },
            Load::Low => {
                low += 1;
            },
        }
        Self { high, medium, low }
    }

    /// The number of loads counted
    pub fn total(&self) -> (r: u16)
        requires
            self.high + self.medium + self.low <= u16::MAX,
        ensures
            r == self.high + self.medium + self.low,
    {
        self.high + self.medium + self.low
    }

    /// The highest load counted at least once, `Low` when none is
    pub fn max(&self) -> (r: Load)
        ensures
            r == max_load(*self),
            self.high > 0 ==> load_level(r) >= 2,
            self.medium > 0 ==> load_level(r) >= 1,
            r is High ==> self.high > 0,
            r is Medium ==> self.medium > 0,
    {
        if self.high > 0 {
            return Load::High;
        }
        if self.medium > 0 {
            return Load::Medium;
        }
        Load::Low
    }

    /// `true` when `self` is lower than or equal to `other`, comparing the high counts
    /// first, then the medium counts, then the low counts
    pub fn is_lower(&self, other: &Self) -> (r: bool)
        ensures
            r == counts_lower(*self, *other),
    {
        if self.high < other.high {
            true
        } else if self.high > other.high {
            false
        } else if self.medium < other.medium {
            true
        } else if self.medium > other.medium {
            false
        } else {
            self.low <= other.low
        }
    }
}

impl Default for LoadsCount {
    fn default() -> (r: Self)
        ensures
            r == (LoadsCount { high: 0, medium: 0, low: 0 }),
    {
        Self::zero()
    }
}

/// `is_lower` is a total preorder: reflexive, transitive, and any two counts are ordered
/// one way or the other.
pub proof fn lemma_counts_lower_total_preorder(a: LoadsCount, b: LoadsCount, c: LoadsCount)
    ensures
        counts_lower(a, a),
        counts_lower(a, b) && counts_lower(b, c) ==> counts_lower(a, c),
        counts_lower(a, b) || counts_lower(b, a),
        counts_lower(a, b) && counts_lower(b, a) ==> a == b,
{
}

/// Adding a load gives a count that is not lower than the count before, unless they are
/// equal, and that counts one more load in total.
pub proof fn lemma_add_grows(count: LoadsCount, load: Load)
    requires
        can_add(count, load),
    ensures
        counts_lower(count, added(count, load)),
        !counts_lower(added(count, load), count),
        added(count, load).high + added(count, load).medium + added(count, load).low == count.high
            + count.medium + count.low + 1,
{
}

/// The last index of `stop_sequence` in `stop_sequences`, if it is there
pub open spec fn last_index(stop_sequences: Seq<u32>, stop_sequence: u32) -> Option<nat>
    decreases stop_sequences.len(),
{
    if stop_sequences.len() == 0 {
        None
    } else if stop_sequences.last() == stop_sequence {
        Some((stop_sequences.len() - 1) as nat)
    } else {
        last_index(stop_sequences.drop_last(), stop_sequence)
    }
}

/// A last index is an index of the stop sequence.
pub(crate) proof fn lemma_last_index(stop_sequences: Seq<u32>, stop_sequence: u32)
    ensures
        last_index(stop_sequences, stop_sequence) matches Some(i) ==> i < stop_sequences.len()
            && stop_sequences[i as int] == stop_sequence,
    decreases stop_sequences.len(),
{
    if stop_sequences.len() > 0 && stop_sequences.last() != stop_sequence {
        lemma_last_index(stop_sequences.drop_last(), stop_sequence);
    }
}

/// A medium load at each of `nb_of_stops` stops
pub open spec fn medium_loads(nb_of_stops: nat) -> Seq<Load> {
    Seq::new(nb_of_stops, |i: int| Load::Medium)
}

/// A line of an occupancy file once read: the occupancy, in percent, of a base vehicle
/// journey on a date when it leaves the stop time of sequence `stop_sequence`
#[derive(Debug, Clone, Copy)]
pub struct LoadRecord {
    pub vehicle_journey_idx: usize,
    pub stop_sequence: u32,
    pub occupancy: u8,
    pub date: Date,
}

/// The loads of the trip `(vehicle_journey_idx, date)` once the records `records` are read
/// in their order, the stop times of each base vehicle journey `vj` having the sequences
/// `stop_sequences[vj]`: a record sets the load at the last stop time of its sequence, the
/// other stop times of a trip with a record having a medium load; none when no record of the
/// trip has a sequence of its stop times
pub open spec fn loads_after(
    records: Seq<LoadRecord>,
    stop_sequences: Seq<Seq<u32>>,
    vehicle_journey_idx: usize,
    date: i32,
) -> Option<Seq<Load>>
    decreases records.len(),
{
    if records.len() == 0 {
        None
    } else {
        let before = loads_after(records.drop_last(), stop_sequences, vehicle_journey_idx, date);
        let record = records.last();
        if record.vehicle_journey_idx == vehicle_journey_idx && record.date.days_from_ce == date {
            match last_index(stop_sequences[vehicle_journey_idx as int], record.stop_sequence) {
                Some(i) => {
                    let loads = match before {
                        Some(loads) => loads,
                        None => medium_loads(stop_sequences[vehicle_journey_idx as int].len()),
                    };
                    Some(loads.update(i as int, load_of_occupancy(record.occupancy)))
                },
                None => before,
            }
        } else {
            before
        }
    }
}

/// The loads of a vehicle journey: the index of each stop sequence of its stop times, and
/// the loads of its trips, by date
struct VehicleJourneyLoads {
    stop_sequence_to_idx: BTreeMap<u32, usize>,
    per_date: BTreeMap<i32, TripLoads>,
}

/// The loads of a trip, one per stop time
struct TripLoads {
    per_stop: Vec<Load>,
}

/// The loads of the trips of the base vehicle journeys that an occupancy file gives
pub struct LoadsData {
    per_vehicle_journey: BTreeMap<usize, VehicleJourneyLoads>,
}

/// A stop sequence has a last index exactly when it is there.
pub(crate) proof fn lemma_last_index_contains(stop_sequences: Seq<u32>, stop_sequence: u32)
    ensures
        last_index(stop_sequences, stop_sequence) is Some <==> stop_sequences.contains(stop_sequence),
    decreases stop_sequences.len(),
{
    if stop_sequences.len() > 0 {
        lemma_last_index_contains(stop_sequences.drop_last(), stop_sequence);
        if stop_sequences.drop_last().contains(stop_sequence) {
            let k = choose|k: int|
                0 <= k < stop_sequences.drop_last().len() && stop_sequences.drop_last()[k] == stop_sequence;
            assert(stop_sequences[k] == stop_sequence);
        }
        if stop_sequences.contains(stop_sequence) && stop_sequences.last() != stop_sequence {
            let k = choose|k: int| 0 <= k < stop_sequences.len() && stop_sequences[k] == stop_sequence;
            assert(stop_sequences.drop_last()[k] == stop_sequence);
        }
    }
}

/// The number of distinct stop sequences of `stop_sequences`
pub open spec fn nb_distinct(stop_sequences: Seq<u32>) -> nat
    decreases stop_sequences.len(),
{
    if stop_sequences.len() == 0 {
        0
    } else if stop_sequences.drop_last().contains(stop_sequences.last()) {
        nb_distinct(stop_sequences.drop_last())
    } else {
        nb_distinct(stop_sequences.drop_last()) + 1
    }
}

/// When no two stop sequences are the same, there are as many distinct ones as stop
/// sequences.
pub proof fn lemma_nb_distinct_no_duplicates(stop_sequences: Seq<u32>)
    requires
        stop_sequences.no_duplicates(),
    ensures
        nb_distinct(stop_sequences) == stop_sequences.len(),
    decreases stop_sequences.len(),
{
    if stop_sequences.len() > 0 {
        let rest = stop_sequences.drop_last();
        assert(rest.no_duplicates());
        lemma_nb_distinct_no_duplicates(rest);
        if rest.contains(stop_sequences.last()) {
            let k = choose|k: int| 0 <= k < rest.len() && rest[k] == stop_sequences.last();
            assert(stop_sequences[k] == stop_sequences[stop_sequences.len() - 1]);
        }
    }
}

/// The last index of `stop_sequence` in `stop_sequences`, as `last_index` says
pub fn last_index_of(stop_sequences: &[u32], stop_sequence: u32) -> (r: Option<usize>)
    ensures
        match last_index(stop_sequences@, stop_sequence) {
            Some(i) => r == Some(i as usize),
            None => r is None,
        },
{
    let mut i: usize = stop_sequences.len();
    assert(stop_sequences@.take(i as int) =~= stop_sequences@);
    while i > 0
        invariant
            i <= stop_sequences@.len(),
            last_index(stop_sequences@, stop_sequence) == last_index(stop_sequences@.take(i as int), stop_sequence),
        decreases i,
    {
        let taken = Ghost(stop_sequences@.take(i as int));
        assert(taken@.last() == stop_sequences@[i - 1]);
        if stop_sequences[i - 1] == stop_sequence {
            return Some(i - 1);
        }
        assert(taken@.drop_last() =~= stop_sequences@.take(i - 1));
        i -= 1;
    }
    None
}

/// The number of distinct stop sequences of `stop_sequences`, as `nb_distinct` says
pub fn nb_distinct_sequences(stop_sequences: &[u32]) -> (r: usize)
    ensures
        r == nb_distinct(stop_sequences@),
{
    let mut count: usize = 0;
    let mut i: usize = 0;
    while i < stop_sequences.len()
        invariant
            i <= stop_sequences@.len(),
            count == nb_distinct(stop_sequences@.take(i as int)),
            count <= i,
        decreases stop_sequences@.len() - i,
    {
        let mut seen = false;
        let mut j: usize = 0;
        while j < i
            invariant
                j <= i < stop_sequences@.len(),
                seen <==> exists|k: int| 0 <= k < j && stop_sequences@[k] == stop_sequences@[i as int],
            decreases i - j,
        {
            if stop_sequences[j] == stop_sequences[i] {
                seen = true;
            }
            j += 1;
        }
        proof {
            let taken = stop_sequences@.take(i + 1);
            assert(taken.drop_last() =~= stop_sequences@.take(i as int));
            assert(taken.last() == stop_sequences@[i as int]);
            if seen {
                let k = choose|k: int| 0 <= k < i && stop_sequences@[k] == stop_sequences@[i as int];
                assert(stop_sequences@.take(i as int)[k] == stop_sequences@[i as int]);
            } else {
                assert(!stop_sequences@.take(i as int).contains(stop_sequences@[i as int])) by {
                    if stop_sequences@.take(i as int).contains(stop_sequences@[i as int]) {
                        let k = choose|k: int|
                            0 <= k < i && stop_sequences@.take(i as int)[k] == stop_sequences@[i as int];
                        assert(stop_sequences@[k] == stop_sequences@[i as int]);
                    }
                }
            }
        }
        if !seen {
            count += 1;
        }
        i += 1;
    }
    assert(stop_sequences@.take(i as int) =~= stop_sequences@);
    count
}

/// The last index of each stop sequence of `stop_sequences`; as many as there are distinct
/// stop sequences
pub(crate) fn stop_sequence_indices(stop_sequences: &[u32]) -> (r: BTreeMap<u32, usize>)
    ensures
        forall|s: u32|
            #![trigger r@.contains_key(s)]
            (r@.contains_key(s) <==> last_index(stop_sequences@, s) is Some) && (r@.contains_key(s)
                ==> r@[s] == last_index(stop_sequences@, s)->0),
        r@.len() == nb_distinct(stop_sequences@),
        stop_sequences@.no_duplicates() ==> r@.len() == stop_sequences@.len(),
{
    let mut stop_sequence_to_idx: BTreeMap<u32, usize> = BTreeMap::new();
    let mut idx: usize = 0;
    while idx < stop_sequences.len()
        invariant
            idx <= stop_sequences@.len(),
            forall|s: u32|
                #![trigger stop_sequence_to_idx@.contains_key(s)]
                (stop_sequence_to_idx@.contains_key(s) <==> last_index(stop_sequences@.take(idx as int), s) is Some)
                    && (stop_sequence_to_idx@.contains_key(s) ==> stop_sequence_to_idx@[s]
                    == last_index(stop_sequences@.take(idx as int), s)->0),
            stop_sequences@.no_duplicates() ==> stop_sequence_to_idx@.len() == idx,
            stop_sequence_to_idx@.len() == nb_distinct(stop_sequences@.take(idx as int)),
        decreases stop_sequences@.len() - idx,
    {
        let ghost before = stop_sequence_to_idx@;
        proof {
            lemma_last_index_contains(stop_sequences@.take(idx as int), stop_sequences@[idx as int]);
            if stop_sequences@.no_duplicates() {
                lemma_last_index_contains(stop_sequences@.take(idx as int), stop_sequences@[idx as int]);
                if stop_sequences@.take(idx as int).contains(stop_sequences@[idx as int]) {
                    let k = choose|k: int|
                        0 <= k < idx && stop_sequences@.take(idx as int)[k] == stop_sequences@[idx as int];
                    assert(stop_sequences@[k] == stop_sequences@[idx as int]);
                }
                assert(!before.contains_key(stop_sequences@[idx as int]));
            }
        }
        stop_sequence_to_idx.insert(stop_sequences[idx], idx);
        proof {
            let taken = stop_sequences@.take(idx + 1);
            assert(taken.drop_last() =~= stop_sequences@.take(idx as int));
            assert(taken.last() == stop_sequences@[idx as int]);
            if stop_sequences@.no_duplicates() {
                assert(stop_sequence_to_idx@.dom() =~= before.dom().insert(stop_sequences@[idx as int]));
            }
            if before.contains_key(stop_sequences@[idx as int]) {
                assert(stop_sequence_to_idx@.dom() =~= before.dom());
            } else {
                assert(stop_sequence_to_idx@.dom() =~= before.dom().insert(stop_sequences@[idx as int]));
            }
        }
        idx += 1;
    }
    assert(stop_sequences@.take(idx as int) =~= stop_sequences@);
    stop_sequence_to_idx
}

impl VehicleJourneyLoads {
    /// No load yet, for stop times of sequences `stop_sequences`
    fn new(stop_sequences: &[u32]) -> (r: Self)
        ensures
            forall|s: u32|
                #![trigger r.stop_sequence_to_idx@.contains_key(s)]
                (r.stop_sequence_to_idx@.contains_key(s) <==> last_index(stop_sequences@, s) is Some)
                    && (r.stop_sequence_to_idx@.contains_key(s) ==> r.stop_sequence_to_idx@[s]
                    == last_index(stop_sequences@, s)->0),
            r.per_date@ == Map::<i32, TripLoads>::empty(),
    {
        Self { stop_sequence_to_idx: stop_sequence_indices(stop_sequences), per_date: BTreeMap::new() }
    }
}

impl TripLoads {
    /// A medium load at each of the `nb_of_stop` stop times
    fn new(nb_of_stop: usize) -> (r: Self)
        ensures
            r.per_stop@ == medium_loads(nb_of_stop as nat),
    {
        let mut per_stop: Vec<Load> = Vec::new();
        let mut i: usize = 0;
        while i < nb_of_stop
            invariant
                i <= nb_of_stop,
                per_stop@ == medium_loads(i as nat),
            decreases nb_of_stop - i,
        {
            per_stop.push(Load::Medium);
            i += 1;
            assert(per_stop@ =~= medium_loads(i as nat));
        }
        Self { per_stop }
    }
}

impl LoadsData {
    /// The loads of the trip `(vehicle_journey_idx, date)`, when a record gave one
    pub closed spec fn trip_loads(&self, vehicle_journey_idx: usize, date: i32) -> Option<Seq<Load>> {
        if self.per_vehicle_journey@.contains_key(vehicle_journey_idx)
            && self.per_vehicle_journey@[vehicle_journey_idx].per_date@.contains_key(date) {
            Some(self.per_vehicle_journey@[vehicle_journey_idx].per_date@[date].per_stop@)
        } else {
            None
        }
    }

    /// The indices of the stop sequences of each vehicle journey are those of
    /// `stop_sequences`, and the loads of its trips are one per stop time, of which there is
    /// at least one.
    pub closed spec fn wf(&self, stop_sequences: Seq<Seq<u32>>) -> bool {
        forall|vj: usize|
            #[trigger] self.per_vehicle_journey@.contains_key(vj) ==> {
                let loads = self.per_vehicle_journey@[vj];
                &&& vj < stop_sequences.len()
                &&& forall|s: u32|
                    #![trigger loads.stop_sequence_to_idx@.contains_key(s)]
                    (loads.stop_sequence_to_idx@.contains_key(s) <==> last_index(stop_sequences[vj as int], s) is Some)
                        && (loads.stop_sequence_to_idx@.contains_key(s) ==> loads.stop_sequence_to_idx@[s]
                        == last_index(stop_sequences[vj as int], s)->0)
                &&& forall|date: i32|
                    #[trigger] loads.per_date@.contains_key(date) ==> loads.per_date@[date].per_stop@.len()
                        == stop_sequences[vj as int].len() > 0
            }
    }

    /// No loads
    pub fn empty() -> (r: Self)
        ensures
            forall|stop_sequences: Seq<Seq<u32>>| #[trigger] r.wf(stop_sequences),
            forall|vj: usize, date: i32| #[trigger] r.trip_loads(vj, date) is None,
    {
        LoadsData { per_vehicle_journey: BTreeMap::new() }
    }

    /// Reads the record `record`, the stop times of its vehicle journey having the sequences
    /// `stop_sequences[record.vehicle_journey_idx]`
    fn insert_record(&mut self, record: &LoadRecord, stop_sequences: &Vec<Vec<u32>>)
        requires
            old(self).wf(stop_sequences.deep_view()),
            record.vehicle_journey_idx < stop_sequences@.len(),
            record.occupancy <= 100,
        ensures
            final(self).wf(stop_sequences.deep_view()),
            forall|vj: usize, date: i32|
                #[trigger] final(self).trip_loads(vj, date) == if vj == record.vehicle_journey_idx && date
                    == record.date.days_from_ce {
                    match last_index(stop_sequences.deep_view()[vj as int], record.stop_sequence) {
                        Some(i) => Some(
                            match old(self).trip_loads(vj, date) {
                                Some(loads) => loads,
                                None => medium_loads(stop_sequences.deep_view()[vj as int].len()),
                            }.update(i as int, load_of_occupancy(record.occupancy)),
                        ),
                        None => old(self).trip_loads(vj, date),
                    }
                } else {
                    old(self).trip_loads(vj, date)
                },
    {
        let ghost seqs = stop_sequences.deep_view();
        let vj = record.vehicle_journey_idx;
        let date = record.date.days_from_ce;
        let load = occupancy_to_load(record.occupancy);
        let own_sequences = stop_sequences[vj].as_slice();
        assert(own_sequences@ == seqs[vj as int]);
        let mut vehicle_journey_loads = match self.per_vehicle_journey.remove(&vj) {
            Some(loads) => loads,
            None => VehicleJourneyLoads::new(own_sequences),
        };
        let ghost removed = *self;
        match vehicle_journey_loads.stop_sequence_to_idx.get(&record.stop_sequence) {
            None => {
                self.per_vehicle_journey.insert(vj, vehicle_journey_loads);
                assert(self.per_vehicle_journey@ =~= old(self).per_vehicle_journey@.insert(vj, vehicle_journey_loads));
            },
            Some(idx) => {
                let idx = *idx;
                proof {
                    lemma_last_index(seqs[vj as int], record.stop_sequence);
                }
                let mut trip_loads = match vehicle_journey_loads.per_date.remove(&date) {
                    Some(loads) => loads,
                    None => TripLoads::new(own_sequences.len()),
                };
                trip_loads.per_stop.set(idx, load);
                vehicle_journey_loads.per_date.insert(date, trip_loads);
                self.per_vehicle_journey.insert(vj, vehicle_journey_loads);
            },
        }
    }

    /// The loads of the trips that the records `records` give, read in their order, the
    /// stop times of each base vehicle journey `vj` having the sequences `stop_sequences[vj]`
    pub fn from_records(records: &[LoadRecord], stop_sequences: &Vec<Vec<u32>>) -> (r: Self)
        requires
            forall|i: int|
                0 <= i < records@.len() ==> (#[trigger] records@[i]).vehicle_journey_idx
                    < stop_sequences@.len() && records@[i].occupancy <= 100,
        ensures
            r.wf(stop_sequences.deep_view()),
            forall|vj: usize, date: i32|
                #[trigger] r.trip_loads(vj, date) == loads_after(
                    records@,
                    stop_sequences.deep_view(),
                    vj,
                    date,
                ),
    {
        let mut loads_data = LoadsData::empty();
        let mut i: usize = 0;
        while i < records.len()
            invariant
                i <= records@.len(),
                forall|j: int|
                    0 <= j < records@.len() ==> (#[trigger] records@[j]).vehicle_journey_idx
                        < stop_sequences@.len() && records@[j].occupancy <= 100,
                loads_data.wf(stop_sequences.deep_view()),
                forall|vj: usize, date: i32|
                    #[trigger] loads_data.trip_loads(vj, date) == loads_after(
                        records@.take(i as int),
                        stop_sequences.deep_view(),
                        vj,
                        date,
                    ),
            decreases records@.len() - i,
        {
            loads_data.insert_record(&records[i], stop_sequences);
            proof {
                let taken = records@.take(i + 1);
                assert(taken.drop_last() =~= records@.take(i as int));
                assert(taken.last() == records@[i as int]);
            }
            i += 1;
        }
        assert(records@.take(i as int) =~= records@);
        loads_data
    }

    /// The loads of `vehicle_journey_idx` on `date` at each stop time but the last one, when
    /// it is a base vehicle journey whose trip on `date` has loads
    pub fn loads(&self, vehicle_journey_idx: &VehicleJourneyIdx, date: &Date) -> (r: Option<&[Load]>)
        requires
            exists|stop_sequences: Seq<Seq<u32>>| self.wf(stop_sequences),
        ensures
            match *vehicle_journey_idx {
                VehicleJourneyIdx::Base(vj) => match self.trip_loads(vj, date.days_from_ce) {
                    Some(loads) => r matches Some(slice) && slice@ == loads.drop_last(),
                    None => r is None,
                },
                VehicleJourneyIdx::New(_) => r is None,
            },
    {
        match vehicle_journey_idx {
            VehicleJourneyIdx::Base(idx) => {
                let vehicle_journey_loads = match self.per_vehicle_journey.get(idx) {
                    Some(loads) => loads,
                    None => {
                        return None;
                    },
                };
                let trip_loads = match vehicle_journey_loads.per_date.get(&date.days_from_ce) {
                    Some(loads) => loads,
                    None => {
                        return None;
                    },
                };
                let nb_of_stops = trip_loads.per_stop.len();
                let slice = &trip_loads.per_stop.as_slice()[0..nb_of_stops - 1];
                assert(slice@ =~= trip_loads.per_stop@.drop_last());
                Some(slice)
            },
            VehicleJourneyIdx::New(_) => None,
        }
    }
}

/// Why a line of an occupancy file is skipped: it does not have four fields, or its first
/// one is not the id of a base vehicle journey, or its second one not a stop sequence, or its
/// third one not an occupancy, or its fourth one not a date written year-month-day
#[derive(Debug, Clone, Copy, PartialEq, Eq, Structural)]
pub enum RecordError {
    FieldCount(usize),
    UnknownTrip,
    BadStopSequence,
    BadOccupancy,
    BadDate,
}

/// The record of a line of an occupancy file of four fields `fields`, whose third field reads
/// as the occupancy `occupancy` (in percent), or why it is skipped
pub open spec fn record_of(fields: Seq<String>, base: BaseModelIds, occupancy: Option<u8>) -> Result<
    LoadRecord,
    RecordError,
> {
    match position_of(base.vehicle_journey_ids@, fields[0]@) {
        None => Err(RecordError::UnknownTrip),
        Some(vehicle_journey_idx) => match unsigned_value(fields[1]@, u32::MAX as nat) {
            None => Err(RecordError::BadStopSequence),
            Some(stop_sequence) => match occupancy {
                Some(occupancy) if occupancy <= 100 => match ymd_date_days(fields[3]@) {
                    None => Err(RecordError::BadDate),
                    Some(days) => Ok(
                        LoadRecord {
                            vehicle_journey_idx: vehicle_journey_idx as usize,
                            stop_sequence: stop_sequence as u32,
                            occupancy,
                            date: Date { days_from_ce: days },
                        },
                    ),
                },
                _ => Err(RecordError::BadOccupancy),
            },
        },
    }
}

/// The record of the line of fields `fields` of an occupancy file, whose third field reads
/// as the occupancy `occupancy` (in percent), or why the line is skipped
pub fn parse_record(fields: &[String], base: &BaseModelIds, occupancy: Option<u8>) -> (r: Result<
    LoadRecord,
    RecordError,
>)
    ensures
        fields@.len() != 4 ==> r == Err::<LoadRecord, RecordError>(RecordError::FieldCount(fields@.len() as usize)),
        fields@.len() == 4 ==> r == record_of(fields@, *base, occupancy),
{
    if fields.len() != 4 {
        return Err(RecordError::FieldCount(fields.len()));
    }
    let vehicle_journey_idx = match base.vehicle_journey_idx(fields[0].as_str()) {
        Some(idx) => idx,
        None => {
            return Err(RecordError::UnknownTrip);
        },
    };
    let sequence_chars = chars_of(fields[1].as_str());
    let stop_sequence = match parse_unsigned(&sequence_chars, u32::MAX) {
        Some(sequence) => sequence,
        None => {
            return Err(RecordError::BadStopSequence);
        },
    };
    let occupancy = match occupancy {
        Some(occupancy) => {
            if occupancy > 100 {
                return Err(RecordError::BadOccupancy);
            }
            occupancy
        },
        None => {
            return Err(RecordError::BadOccupancy);
        },
    };
    let date = match parse_ymd_date(fields[3].as_str()) {
        Some(date) => date,
        None => {
            return Err(RecordError::BadDate);
        },
    };
    Ok(LoadRecord { vehicle_journey_idx, stop_sequence, occupancy, date })
}

/// What a check of the loads finds missing: all loads of a base vehicle journey that runs on
/// some dates, or those of one of its trips
#[derive(Debug, Clone, Copy, PartialEq, Eq, Structural)]
pub enum MissingLoads {
    VehicleJourney(usize),
    Trip(usize, Date),
}

/// The trips of `vehicle_journey_idx` on the first `n` dates of `dates` that have no loads,
/// `has_trip` telling whether a trip has some
pub open spec fn missing_trips(
    has_trip: spec_fn(usize, i32) -> bool,
    vehicle_journey_idx: usize,
    dates: Seq<Date>,
    n: nat,
) -> Seq<MissingLoads>
    decreases n,
{
    if n == 0 {
        Seq::empty()
    } else {
        let before = missing_trips(has_trip, vehicle_journey_idx, dates, (n - 1) as nat);
        if has_trip(vehicle_journey_idx, dates[n - 1].days_from_ce) {
            before
        } else {
            before.push(MissingLoads::Trip(vehicle_journey_idx, dates[n - 1]))
        }
    }
}

/// The loads missing for the first `n` base vehicle journeys, each vehicle journey `vj`
/// running on the dates `calendars[vj]` when it has a calendar: the vehicle journey when
/// `has_vehicle_journey` says it has no loads, else its trips that have none
pub open spec fn missing_loads_of(
    has_vehicle_journey: spec_fn(usize) -> bool,
    has_trip: spec_fn(usize, i32) -> bool,
    calendars: Seq<Option<Seq<Date>>>,
    n: nat,
) -> Seq<MissingLoads>
    decreases n,
{
    if n == 0 {
        Seq::empty()
    } else {
        let vj = (n - 1) as usize;
        missing_loads_of(has_vehicle_journey, has_trip, calendars, (n - 1) as nat) + match calendars[n - 1] {
            None => Seq::empty(),
            Some(dates) => if has_vehicle_journey(vj) {
                missing_trips(has_trip, vj, dates, dates.len())
            } else {
                seq![MissingLoads::VehicleJourney(vj)]
            },
        }
    }
}

/// The dates of each calendar of `calendars`, when there is one
pub open spec fn calendar_views(calendars: Seq<Option<Vec<Date>>>) -> Seq<Option<Seq<Date>>> {
    calendars.map_values(|dates: Option<Vec<Date>>| match dates {
        Some(dates) => Some(dates@),
        None => None,
    })
}

impl LoadsData {
    /// A record gave loads of a trip of `vehicle_journey_idx`.
    pub closed spec fn has_vehicle_journey(&self, vehicle_journey_idx: usize) -> bool {
        self.per_vehicle_journey@.contains_key(vehicle_journey_idx)
    }

    /// The loads missing for the base vehicle journeys, each vehicle journey `vj` running on
    /// the dates `calendars[vj]` when it has a calendar, in the order of the vehicle journeys
    /// and of their dates: a vehicle journey with no loads at all, or a trip with none
    pub fn missing_loads(&self, calendars: &[Option<Vec<Date>>]) -> (r: Vec<MissingLoads>)
        ensures
            r@ == missing_loads_of(
                |vj: usize| self.has_vehicle_journey(vj),
                |vj: usize, date: i32| self.trip_loads(vj, date) is Some,
                calendar_views(calendars@),
                calendars@.len(),
            ),
    {
        let ghost has_vehicle_journey = |vj: usize| self.has_vehicle_journey(vj);
        let ghost has_trip = |vj: usize, date: i32| self.trip_loads(vj, date) is Some;
        let mut result: Vec<MissingLoads> = Vec::new();
        let mut vj: usize = 0;
        while vj < calendars.len()
            invariant
                vj <= calendars@.len(),
                has_vehicle_journey == (|vj: usize| self.has_vehicle_journey(vj)),
                has_trip == (|vj: usize, date: i32| self.trip_loads(vj, date) is Some),
                result@ == missing_loads_of(has_vehicle_journey, has_trip, calendar_views(calendars@), vj as nat),
            decreases calendars@.len() - vj,
        {
            let ghost before = result@;
            match &calendars[vj] {
                None => {},
                Some(dates) => {
                    match self.per_vehicle_journey.get(&vj) {
                        None => {
                            result.push(MissingLoads::VehicleJourney(vj));
                        },
                        Some(loads) => {
                            let mut d: usize = 0;
                            while d < dates.len()
                                invariant
                                    d <= dates@.len(),
                                    self.per_vehicle_journey@.contains_key(vj),
                                    self.per_vehicle_journey@[vj] == *loads,
                                    has_trip == (|vj: usize, date: i32| self.trip_loads(vj, date) is Some),
                                    result@ == before + missing_trips(has_trip, vj, dates@, d as nat),
                                decreases dates@.len() - d,
                            {
                                if loads.per_date.get(&dates[d].days_from_ce).is_none() {
                                    result.push(MissingLoads::Trip(vj, dates[d]));
                                }
                                d += 1;
                            }
                        },
                    }
                },
            }
            proof {
                assert(calendar_views(calendars@)[vj as int] == match calendars@[vj as int] {
                    Some(dates) => Some(dates@),
                    None => None::<Seq<Date>>,
                });
                assert(result@ =~= missing_loads_of(has_vehicle_journey, has_trip, calendar_views(calendars@), (vj + 1) as nat));
            }
            vj += 1;
        }
        result
    }
}

/// The name of a load
pub open spec fn load_name(load: Load) -> Seq<char> {
    match load {
        Load::Low => "Low"@,
        Load::Medium => "Medium"@,
        Load::High => "High"@,
    }
}

impl Load {
    /// The name of the load: `Low`, `Medium` or `High`
    pub fn to_string(&self) -> (r: String)
        ensures
            r@ == load_name(*self),
    {
        match self {
            Load::Low => "Low".to_owned(),
            Load::Medium => "Medium".to_owned(),
            Load::High => "High".to_owned(),
        }
    }
}

impl LoadsCount {
    /// The counts as text: `High 1; Medium 2; Low 3; total 6`
    pub fn to_string(&self) -> (r: String)
        requires
            self.high + self.medium + self.low <= u16::MAX,
        ensures
            r@ == counts_text(self.high as nat, self.medium as nat, self.low as nat),
    {
        counts_to_string(self.high, self.medium, self.low)
    }
}

} // verus!
