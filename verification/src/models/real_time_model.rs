use std::collections::HashMap;

use vstd::prelude::*;

use super::real_time_disruption::{StopTime as DisruptionStopTime, Trip, Update};
use super::{StopPointIdx, VehicleJourneyIdx};
use crate::dates::Date;
use crate::laxatips_daily_data::time::SecondsSinceTimezonedDayStart;
use crate::models::base_model::FlowDirection;
use crate::text::str_equals;
use super::real_time_disruption::chaos_actions::{
    cancel_decision, cancel_decision_of, dispatch, trip_action_of, CancelDecision, ChaosAction, TripAction,
};
use crate::engine::pareto_front::lemma_filter_step;

verus! {

broadcast use vstd::std_specs::hash::group_hash_axioms;

/// A vehicle journey added by a real-time update, by its position in the history of new
/// vehicle journeys
#[derive(Debug, Clone, Copy, PartialEq, Eq, Structural, PartialOrd, Ord)]
pub struct NewVehicleJourneyIdx {
    pub idx: usize,
}

/// A stop point added by a real-time update, by its position among the new stops
#[derive(Debug, Clone, Copy, PartialEq, Eq, Structural, Hash)]
pub struct NewStopPointIdx {
    pub idx: usize,
}

/// What the real-time model reads of the base model: the ids of its vehicle journeys and the
/// ids of its stop points, each at its index
pub struct BaseModelIds {
    pub vehicle_journey_ids: Vec<String>,
    pub stop_point_ids: Vec<String>,
}

/// `p` is the first position of `id` in `ids`.
pub open spec fn is_first_position(ids: Seq<String>, id: Seq<char>, p: int) -> bool {
    &&& 0 <= p < ids.len()
    &&& ids[p]@ == id
    &&& forall|j: int| 0 <= j < p ==> (#[trigger] ids[j])@ != id
}

/// The first position of `id` in `ids`, if it is there
pub open spec fn position_of(ids: Seq<String>, id: Seq<char>) -> Option<nat> {
    if exists|p: int| is_first_position(ids, id, p) {
        Some((choose|p: int| is_first_position(ids, id, p)) as nat)
    } else {
        None
    }
}

/// A first position is the only one.
proof fn lemma_first_position_unique(ids: Seq<String>, id: Seq<char>, p: int)
    requires
        is_first_position(ids, id, p),
    ensures
        position_of(ids, id) == Some(p as nat),
{
    let q = choose|q: int| is_first_position(ids, id, q);
    if q < p {
        assert(ids[q]@ == id);
    } else if p < q {
        assert(ids[p]@ == id);
    }
}

/// The first position of an id stays when ids are added after the others.
proof fn lemma_position_of_extended(a: Seq<String>, b: Seq<String>, id: Seq<char>)
    requires
        position_of(a, id) is Some,
        a.len() <= b.len(),
        forall|j: int| 0 <= j < a.len() ==> #[trigger] chars_of_ids(b)[j] == chars_of_ids(a)[j],
    ensures
        position_of(b, id) == position_of(a, id),
{
    let p = choose|p: int| is_first_position(a, id, p);
    assert(chars_of_ids(b)[p] == chars_of_ids(a)[p]);
    assert forall|j: int| 0 <= j < p implies (#[trigger] b[j])@ != id by {
        assert(chars_of_ids(b)[j] == chars_of_ids(a)[j]);
        assert(a[j]@ != id);
    }
    assert(is_first_position(b, id, p));
    lemma_first_position_unique(b, id, p);
}

/// An id that is somewhere in `ids` has a first position there.
proof fn lemma_first_position_exists(ids: Seq<String>, id: Seq<char>, j: int)
    requires
        0 <= j < ids.len(),
        ids[j]@ == id,
    ensures
        position_of(ids, id) is Some,
    decreases j,
{
    if exists|k: int| 0 <= k < j && (#[trigger] ids[k])@ == id {
        let k = choose|k: int| 0 <= k < j && (#[trigger] ids[k])@ == id;
        lemma_first_position_exists(ids, id, k);
    } else {
        assert(is_first_position(ids, id, j));
    }
}

/// Pushing an id keeps the first positions of the ids that were there, and gives the pushed
/// one its position when it was not there.
proof fn lemma_position_of_push(ids: Seq<String>, s: String, id: Seq<char>)
    ensures
        position_of(ids.push(s), id) == if position_of(ids, id) is Some {
            position_of(ids, id)
        } else if s@ == id {
            Some(ids.len())
        } else {
            None
        },
{
    let pushed = ids.push(s);
    if position_of(ids, id) is Some {
        let p = choose|p: int| is_first_position(ids, id, p);
        assert(is_first_position(pushed, id, p)) by {
            assert forall|j: int| 0 <= j < p implies (#[trigger] pushed[j])@ != id by {
                assert(pushed[j] == ids[j]);
            }
        }
        lemma_first_position_unique(pushed, id, p);
    } else {
        assert forall|j: int| 0 <= j < ids.len() implies (#[trigger] ids[j])@ != id by {
            if ids[j]@ == id {
                lemma_first_position_exists(ids, id, j);
            }
        }
        if s@ == id {
            assert(is_first_position(pushed, id, ids.len() as int)) by {
                assert forall|j: int| 0 <= j < ids.len() implies (#[trigger] pushed[j])@ != id by {
                    assert(pushed[j] == ids[j]);
                }
            }
            lemma_first_position_unique(pushed, id, ids.len() as int);
        } else {
            if exists|p: int| is_first_position(pushed, id, p) {
                let p = choose|p: int| is_first_position(pushed, id, p);
                assert(pushed[p] == ids[p]);
                assert(false);
            }
        }
    }
}

/// A first position of an id is a position of that id.
proof fn lemma_position_of_is_position(ids: Seq<String>, id: Seq<char>)
    ensures
        position_of(ids, id) matches Some(p) ==> p < ids.len() && ids[p as int]@ == id,
{
}

/// The first position of `id` in `ids`, if it is there
fn find(ids: &Vec<String>, id: &str) -> (r: Option<usize>)
    ensures
        match r {
            Some(p) => position_of(ids@, id@) == Some(p as nat),
            None => position_of(ids@, id@) is None,
        },
{
    let mut i: usize = 0;
    while i < ids.len()
        invariant
            i <= ids@.len(),
            forall|j: int| 0 <= j < i ==> (#[trigger] ids@[j])@ != id@,
        decreases ids@.len() - i,
    {
        if str_equals(ids[i].as_str(), id) {
            proof {
                lemma_first_position_unique(ids@, id@, i as int);
            }
            return Some(i);
        }
        i += 1;
    }
    assert(!exists|p: int| is_first_position(ids@, id@, p)) by {
        if exists|p: int| is_first_position(ids@, id@, p) {
            let p = choose|p: int| is_first_position(ids@, id@, p);
            assert(ids@[p]@ == id@);
        }
    }
    None
}

/// The first position of `id` among the ids of `pairs`, if it is there
pub(crate) fn find_pair<T>(pairs: &Vec<(String, T)>, id: &str) -> (r: Option<usize>)
    ensures
        match r {
            Some(p) => position_of(ids_of(pairs@), id@) == Some(p as nat),
            None => position_of(ids_of(pairs@), id@) is None,
        },
{
    let ghost ids = ids_of(pairs@);
    let mut i: usize = 0;
    while i < pairs.len()
        invariant
            i <= pairs@.len(),
            ids == ids_of(pairs@),
            forall|j: int| 0 <= j < i ==> (#[trigger] ids[j])@ != id@,
        decreases pairs@.len() - i,
    {
        if str_equals(pairs[i].0.as_str(), id) {
            assert(ids[i as int] == pairs@[i as int].0);
            proof {
                lemma_first_position_unique(ids, id@, i as int);
            }
            return Some(i);
        }
        assert(ids[i as int] == pairs@[i as int].0);
        i += 1;
    }
    assert(!exists|p: int| is_first_position(ids, id@, p)) by {
        if exists|p: int| is_first_position(ids, id@, p) {
            let p = choose|p: int| is_first_position(ids, id@, p);
            assert(ids[p]@ == id@);
        }
    }
    None
}

impl BaseModelIds {
    /// The index of the base vehicle journey of id `id`, if there is one
    pub fn vehicle_journey_idx(&self, id: &str) -> (r: Option<usize>)
        ensures
            match r {
                Some(p) => position_of(self.vehicle_journey_ids@, id@) == Some(p as nat),
                None => position_of(self.vehicle_journey_ids@, id@) is None,
            },
    {
        find(&self.vehicle_journey_ids, id)
    }

    /// The index of the base stop point of id `id`, if there is one
    pub fn stop_point_idx(&self, id: &str) -> (r: Option<usize>)
        ensures
            match r {
                Some(p) => position_of(self.stop_point_ids@, id@) == Some(p as nat),
                None => position_of(self.stop_point_ids@, id@) is None,
            },
    {
        find(&self.stop_point_ids, id)
    }
}

/// A stop time of a trip of the real-time model
#[derive(Debug, Clone, Copy)]
pub struct StopTime {
    pub stop: StopPointIdx,
    pub arrival_time: SecondsSinceTimezonedDayStart,
    pub departure_time: SecondsSinceTimezonedDayStart,
    pub flow_direction: FlowDirection,
}

/// A trip is deleted, or present with all its stop times.
#[derive(Debug)]
pub enum TripData {
    Deleted(),
    Present(Vec<StopTime>),
}

/// The data that a disruption gave to a trip
#[derive(Debug)]
pub struct TripVersion {
    pub disruption_id: String,
    pub trip_data: TripData,
}

/// The last version of a vehicle journey on each date of reference, by its number of days
/// since the Common Era
#[derive(Debug)]
pub struct VehicleJourneyHistory {
    by_reference_date: HashMap<i32, TripVersion>,
}

/// A stop point that a real-time update added
pub struct StopData {
    pub name: String,
}

/// Why a real-time update cannot be applied
#[derive(Debug, Clone)]
pub enum UpdateError {
    DeleteAbsentTrip(Trip),
    ModifyAbsentTrip(Trip),
    AddPresentTrip(Trip),
}

/// The trips that real-time updates deleted, added or modified, on top of the base model
pub struct RealTimeModel {
    // the position of a new vehicle journey here is its index
    new_vehicle_journeys_history: Vec<(String, VehicleJourneyHistory)>,
    // gives the position in base_vehicle_journeys_history, if any
    base_vehicle_journeys_idx_to_history: HashMap<usize, usize>,
    base_vehicle_journeys_history: Vec<VehicleJourneyHistory>,
    new_stop_id_to_idx: Vec<(String, NewStopPointIdx)>,
    new_stops: Vec<StopData>,
    // the chaos impacts linked to each trip of a base vehicle journey, in the order of linking
    chaos_links: Vec<(usize, Date, ChaosLink)>,
}

/// The object of a chaos impact: its index among the impacted or among the informed objects
#[derive(Debug, Clone, Copy, PartialEq, Eq, Structural)]
pub enum ChaosObjectIdx {
    Impacted(usize),
    Informed(usize),
}

/// A chaos impact linked to a trip: the index of the impact, and its object that concerns
/// the trip
#[derive(Debug, Clone, Copy, PartialEq, Eq, Structural)]
pub struct ChaosLink {
    pub impact: usize,
    pub object: ChaosObjectIdx,
}

/// The version in `history` on the date of reference `date`, if any
pub open spec fn version_on(history: VehicleJourneyHistory, date: int) -> Option<TripVersion> {
    if history.dates().contains_key(date as i32) && i32::MIN <= date <= i32::MAX {
        Some(history.dates()[date as i32])
    } else {
        None
    }
}

impl VehicleJourneyHistory {
    /// The versions, by date of reference
    pub closed spec fn dates(&self) -> Map<i32, TripVersion> {
        self.by_reference_date@
    }

    /// An empty history
    pub fn new() -> (r: Self)
        ensures
            r.dates() == Map::<i32, TripVersion>::empty(),
    {
        VehicleJourneyHistory { by_reference_date: HashMap::new() }
    }
}

impl Default for VehicleJourneyHistory {
    fn default() -> (r: Self)
        ensures
            r.dates() == Map::<i32, TripVersion>::empty(),
    {
        Self::new()
    }
}

/// The ids of `pairs`, in their order
pub open spec fn ids_of<T>(pairs: Seq<(String, T)>) -> Seq<String> {
    pairs.map_values(|pair: (String, T)| pair.0)
}

impl RealTimeModel {
    /// The histories of the base vehicle journeys are at distinct positions of their list,
    /// and each new stop point, in the order in which updates gave it, has its position as
    /// index and its id as name.
    pub closed spec fn wf(&self) -> bool {
        &&& forall|vj: usize|
            #[trigger] self.base_vehicle_journeys_idx_to_history@.contains_key(vj)
                ==> self.base_vehicle_journeys_idx_to_history@[vj]
                < self.base_vehicle_journeys_history@.len()
        &&& forall|vj1: usize, vj2: usize|
            #![trigger self.base_vehicle_journeys_idx_to_history@[vj1], self.base_vehicle_journeys_idx_to_history@[vj2]]
            vj1 != vj2 && self.base_vehicle_journeys_idx_to_history@.contains_key(vj1)
                && self.base_vehicle_journeys_idx_to_history@.contains_key(vj2)
                ==> self.base_vehicle_journeys_idx_to_history@[vj1]
                != self.base_vehicle_journeys_idx_to_history@[vj2]
        &&& self.new_stops@.len() == self.new_stop_id_to_idx@.len()
        &&& forall|i: int|
            0 <= i < self.new_stop_id_to_idx@.len() ==> (#[trigger] self.new_stop_id_to_idx@[i]).1.idx == i
                && self.new_stops@[i].name@ == self.new_stop_id_to_idx@[i].0@
    }

    /// Each new stop point, in the order of `new_stop_ids`, has its position as index and
    /// its id as name.
    pub proof fn lemma_new_stops(&self)
        requires
            self.wf(),
        ensures
            self.new_stops_len() == self.new_stop_ids().len(),
            self.new_stop_names() == chars_of_ids(self.new_stop_ids()),
            self.new_stop_indices().len() == self.new_stop_ids().len(),
            forall|i: int| 0 <= i < self.new_stop_indices().len() ==> (#[trigger] self.new_stop_indices()[i]).idx == i,
    {
        assert(self.new_stop_names() =~= chars_of_ids(self.new_stop_ids()));
    }

    /// The ids of the new vehicle journeys, in the order of their indices
    pub closed spec fn new_ids(&self) -> Seq<String> {
        ids_of(self.new_vehicle_journeys_history@)
    }

    /// The ids of the new stop points, in the order in which updates gave them
    pub closed spec fn new_stop_ids(&self) -> Seq<String> {
        ids_of(self.new_stop_id_to_idx@)
    }

    /// The number of new stop points with their data
    pub closed spec fn new_stops_len(&self) -> nat {
        self.new_stops@.len()
    }

    /// The last version of the base vehicle journey of index `vj` on the date of reference
    /// `date`, if an update gave one
    pub closed spec fn base_version(&self, vj: nat, date: int) -> Option<TripVersion> {
        if vj <= usize::MAX && self.base_vehicle_journeys_idx_to_history@.contains_key(vj as usize) {
            version_on(
                self.base_vehicle_journeys_history@[self.base_vehicle_journeys_idx_to_history@[vj as usize] as int],
                date,
            )
        } else {
            None
        }
    }

    /// The last version of the new vehicle journey at position `pos` on the date of
    /// reference `date`, if an update gave one
    pub closed spec fn new_version(&self, pos: nat, date: int) -> Option<TripVersion> {
        if pos < self.new_vehicle_journeys_history@.len() {
            version_on(self.new_vehicle_journeys_history@[pos as int].1, date)
        } else {
            None
        }
    }

    /// The last version of the trip of vehicle journey `id` on `date`: that of the base
    /// vehicle journey of id `id` when the base model has one, else that of the new vehicle
    /// journey of id `id`
    pub open spec fn version(&self, base: BaseModelIds, id: Seq<char>, date: int) -> Option<
        TripVersion,
    > {
        match position_of(base.vehicle_journey_ids@, id) {
            Some(vj) => self.base_version(vj, date),
            None => match position_of(self.new_ids(), id) {
                Some(pos) => self.new_version(pos, date),
                None => None,
            },
        }
    }

    /// The trip of vehicle journey `id` on `date` runs: for a vehicle journey of the base
    /// model, unless its last version on `date` deletes it; for another one, when an update
    /// added it, on any date and whatever came after
    pub open spec fn trip_present(&self, base: BaseModelIds, id: Seq<char>, date: int) -> bool {
        if position_of(base.vehicle_journey_ids@, id) is Some {
            !(self.version(base, id, date) matches Some(v) && v.trip_data is Deleted)
        } else {
            position_of(self.new_ids(), id) is Some
        }
    }

    /// The vehicle journey of id `id` once it has a version: the base one of that id, else
    /// the new one of that id, which is added at the end when it is not there yet
    pub open spec fn vehicle_journey_of(&self, base: BaseModelIds, id: Seq<char>) -> VehicleJourneyIdx {
        match position_of(base.vehicle_journey_ids@, id) {
            Some(vj) => VehicleJourneyIdx::Base(vj as usize),
            None => match position_of(self.new_ids(), id) {
                Some(pos) => VehicleJourneyIdx::New(NewVehicleJourneyIdx { idx: pos as usize }),
                None => VehicleJourneyIdx::New(NewVehicleJourneyIdx { idx: self.new_ids().len() as usize }),
            },
        }
    }

    /// `after` is `self` where the trip of vehicle journey `id` on `date` has the version
    /// `version` and nothing else changed, but for the new vehicle journey of id `id` that is
    /// added when neither the base model nor `self` has it
    pub open spec fn with_version(
        &self,
        after: Self,
        base: BaseModelIds,
        id: Seq<char>,
        date: int,
        version: TripVersion,
    ) -> bool {
        &&& after.wf()
        &&& forall|id2: Seq<char>, date2: int|
            #[trigger] after.version(base, id2, date2) == if id2 == id && date2 == date {
                Some(version)
            } else {
                self.version(base, id2, date2)
            }
        &&& chars_of_ids(after.new_ids()) == if position_of(base.vehicle_journey_ids@, id) is None
            && position_of(self.new_ids(), id) is None {
            chars_of_ids(self.new_ids()).push(id)
        } else {
            chars_of_ids(self.new_ids())
        }
        &&& after.new_stop_ids() == self.new_stop_ids()
        &&& after.new_stops_len() == self.new_stops_len()
    }
}

/// `version` was written by the disruption `disruption_id`, and deletes its trip when
/// `stop_times` is none, else gives it the stop times `stop_times`.
pub open spec fn is_version(version: TripVersion, disruption_id: Seq<char>, stop_times: Option<Seq<StopTime>>) -> bool {
    &&& version.disruption_id@ == disruption_id
    &&& match version.trip_data {
        TripData::Deleted() => stop_times is None,
        TripData::Present(present) => stop_times == Some(present@),
    }
}

impl RealTimeModel {
    /// `after` is `self` where the disruption `disruption_id` wrote the last version of the
    /// trip of vehicle journey `id` on `date` (deleting it when `stop_times` is none, else
    /// giving it the stop times `stop_times`), the other trips keep their versions, and the
    /// vehicle journey of id `id` is added to the new ones when neither the base model nor
    /// `self` has it
    pub open spec fn updated(
        &self,
        after: Self,
        base: BaseModelIds,
        id: Seq<char>,
        date: int,
        disruption_id: Seq<char>,
        stop_times: Option<Seq<StopTime>>,
    ) -> bool {
        &&& after.version(base, id, date) matches Some(v) && is_version(v, disruption_id, stop_times)
        &&& forall|id2: Seq<char>, date2: int|
            !(id2 == id && date2 == date) ==> #[trigger] after.version(base, id2, date2)
                == self.version(base, id2, date2)
        &&& chars_of_ids(after.new_ids()) == if position_of(base.vehicle_journey_ids@, id) is None
            && position_of(self.new_ids(), id) is None {
            chars_of_ids(self.new_ids()).push(id)
        } else {
            chars_of_ids(self.new_ids())
        }
    }
}

/// The ids `known`, followed by each id of `ids` that neither `base_ids` nor the ones before
/// hold, in their order
pub open spec fn with_new_ids(known: Seq<Seq<char>>, base_ids: Seq<String>, ids: Seq<Seq<char>>) -> Seq<
    Seq<char>,
>
    decreases ids.len(),
{
    if ids.len() == 0 {
        known
    } else {
        let before = with_new_ids(known, base_ids, ids.drop_last());
        if position_of(base_ids, ids.last()) is Some || before.contains(ids.last()) {
            before
        } else {
            before.push(ids.last())
        }
    }
}

/// The characters of each of `ids`
pub open spec fn chars_of_ids(ids: Seq<String>) -> Seq<Seq<char>> {
    ids.map_values(|s: String| s@)
}

/// An id has a position among ids exactly when it is one of them.
pub proof fn lemma_position_of_contains(ids: Seq<String>, id: Seq<char>)
    ensures
        position_of(ids, id) is Some <==> chars_of_ids(ids).contains(id),
{
    if position_of(ids, id) is Some {
        let p = choose|p: int| is_first_position(ids, id, p);
        assert(chars_of_ids(ids)[p] == id);
    }
    if chars_of_ids(ids).contains(id) {
        let j = choose|j: int| 0 <= j < chars_of_ids(ids).len() && chars_of_ids(ids)[j] == id;
        assert(ids[j]@ == id);
        lemma_first_position_exists(ids, id, j);
    }
}

impl RealTimeModel {
    /// The stop point of id `stop_id` once the model has it: the base one of that id, else
    /// the new one of that id, at its position among the new stop points, or the next new
    /// one when there is none yet
    pub open spec fn stop_of(&self, base: BaseModelIds, stop_id: Seq<char>) -> StopPointIdx {
        match position_of(base.stop_point_ids@, stop_id) {
            Some(p) => StopPointIdx::Base(p as usize),
            None => match position_of(self.new_stop_ids(), stop_id) {
                Some(q) => StopPointIdx::New(NewStopPointIdx { idx: q as usize }),
                None => StopPointIdx::New(NewStopPointIdx { idx: self.new_stop_ids().len() as usize }),
            },
        }
    }

    /// `self` and `other` hold the same vehicle journeys and versions.
    pub closed spec fn same_trips(&self, other: Self) -> bool {
        &&& self.new_vehicle_journeys_history == other.new_vehicle_journeys_history
        &&& self.base_vehicle_journeys_idx_to_history == other.base_vehicle_journeys_idx_to_history
        &&& self.base_vehicle_journeys_history == other.base_vehicle_journeys_history
    }

    /// Two models with the same trips give each trip the same version and presence.
    pub proof fn lemma_same_trips(&self, other: Self, base: BaseModelIds, id: Seq<char>, date: int)
        requires
            self.same_trips(other),
        ensures
            self.version(base, id, date) == other.version(base, id, date),
            self.trip_present(base, id, date) == other.trip_present(base, id, date),
            self.new_ids() == other.new_ids(),
            self.vehicle_journey_of(base, id) == other.vehicle_journey_of(base, id),
    {
    }
}

impl RealTimeModel {
    /// Gives the trip `trip` the version `trip_version`, and tells the vehicle journey of
    /// the trip
    fn set_version(&mut self, trip: &Trip, base: &BaseModelIds, trip_version: TripVersion) -> (r:
        VehicleJourneyIdx)
        requires
            old(self).wf(),
        ensures
            final(self).links() == old(self).links(),
            r == old(self).vehicle_journey_of(*base, trip.vehicle_journey_id@),
            old(self).with_version(
                *final(self),
                *base,
                trip.vehicle_journey_id@,
                trip.reference_date.days_from_ce as int,
                trip_version,
            ),
    {
        let date = trip.reference_date.days_from_ce;
        let ghost id = trip.vehicle_journey_id@;
        let ghost version = trip_version;
        match base.vehicle_journey_idx(trip.vehicle_journey_id.as_str()) {
            Some(vj) => {
                let pos = match self.base_vehicle_journeys_idx_to_history.get(&vj) {
                    Some(pos) => *pos,
                    None => {
                        let pos = self.base_vehicle_journeys_history.len();
                        self.base_vehicle_journeys_history.push(VehicleJourneyHistory::new());
                        self.base_vehicle_journeys_idx_to_history.insert(vj, pos);
                        pos
                    },
                };
                let ghost mid = *self;
                assert(mid.base_vehicle_journeys_idx_to_history@.contains_key(vj));
                assert(mid.base_vehicle_journeys_idx_to_history@[vj] == pos);
                self.base_vehicle_journeys_history[pos].by_reference_date.insert(date, trip_version);
                proof {
                    assert(self.base_vehicle_journeys_history@[pos as int].dates()
                        == mid.base_vehicle_journeys_history@[pos as int].dates().insert(date, version));
                    assert forall|id2: Seq<char>, date2: int|
                        #[trigger] self.version(*base, id2, date2) == if id2 == id && date2
                            == date as int {
                            Some(version)
                        } else {
                            old(self).version(*base, id2, date2)
                        } by {
                        match position_of(base.vehicle_journey_ids@, id2) {
                            Some(vj2) => {
                                if vj2 == vj {
                                    let p = choose|p: int| is_first_position(base.vehicle_journey_ids@, id2, p);
                                    let q = choose|p: int| is_first_position(base.vehicle_journey_ids@, id, p);
                                    assert(id2 == id);
                                } else {
                                    if vj2 <= usize::MAX && old(self).base_vehicle_journeys_idx_to_history@.contains_key(vj2 as usize) {
                                        assert(self.base_vehicle_journeys_idx_to_history@[vj2 as usize]
                                            != self.base_vehicle_journeys_idx_to_history@[vj]);
                                    }
                                    if id2 == id {
                                        assert(false);
                                    }
                                }
                            },
                            None => {
                                assert(id2 != id);
                            },
                        }
                    }
                    assert(self.new_vehicle_journeys_history@ == old(self).new_vehicle_journeys_history@);
                    assert(self.new_ids() == old(self).new_ids());
                }
                VehicleJourneyIdx::Base(vj)
            },
            None => {
                let pos = match find_pair(&self.new_vehicle_journeys_history, trip.vehicle_journey_id.as_str()) {
                    Some(pos) => pos,
                    None => {
                        let pos = self.new_vehicle_journeys_history.len();
                        let pushed = (trip.vehicle_journey_id.clone(), VehicleJourneyHistory::new());
                        self.new_vehicle_journeys_history.push(pushed);
                        proof {
                            assert(ids_of(self.new_vehicle_journeys_history@) == ids_of(
                                old(self).new_vehicle_journeys_history@,
                            ).push(trip.vehicle_journey_id));
                            lemma_position_of_push(ids_of(old(self).new_vehicle_journeys_history@), trip.vehicle_journey_id, id);
                        }
                        pos
                    },
                };
                let ghost mid = *self;
                self.new_vehicle_journeys_history[pos].1.by_reference_date.insert(date, trip_version);
                proof {
                    assert(ids_of(self.new_vehicle_journeys_history@) == ids_of(mid.new_vehicle_journeys_history@));
                    assert forall|id2: Seq<char>, date2: int|
                        #[trigger] self.version(*base, id2, date2) == if id2 == id && date2
                            == date as int {
                            Some(version)
                        } else {
                            old(self).version(*base, id2, date2)
                        } by {
                        if position_of(base.vehicle_journey_ids@, id2) is None {
                            lemma_position_of_push(ids_of(old(self).new_vehicle_journeys_history@), trip.vehicle_journey_id, id2);
                            if position_of(mid.new_ids(), id2) == Some(pos as nat) {
                                assert(mid.new_ids()[pos as int]@ == id2);
                                assert(mid.new_ids()[pos as int]@ == id);
                            }
                        }
                    }
                    if position_of(old(self).new_ids(), id) is None {
                        assert(chars_of_ids(self.new_ids()) =~= chars_of_ids(old(self).new_ids()).push(id));
                    } else {
                        assert(chars_of_ids(self.new_ids()) =~= chars_of_ids(old(self).new_ids()));
                    }
                }
                VehicleJourneyIdx::New(NewVehicleJourneyIdx { idx: pos })
            },
        }
    }
}

/// The stop time that an update's stop time `stop_time` becomes, its stop being `stop`
pub open spec fn stop_time_at(stop: StopPointIdx, stop_time: DisruptionStopTime) -> StopTime {
    StopTime {
        stop,
        departure_time: stop_time.departure_time,
        arrival_time: stop_time.arrival_time,
        flow_direction: stop_time.flow_direction,
    }
}

/// The stop ids of `stop_times`, in their order
pub open spec fn stop_ids_of(stop_times: Seq<DisruptionStopTime>) -> Seq<Seq<char>> {
    stop_times.map_values(|stop_time: DisruptionStopTime| stop_time.stop_id@)
}

impl RealTimeModel {
    /// The stop point of id `stop_id`: the base one of that id, else the new one of that id,
    /// which is recorded when it was not
    fn get_or_insert_stop(&mut self, stop_id: &str, base: &BaseModelIds) -> (r: StopPointIdx)
        requires
            old(self).wf(),
        ensures
            final(self).links() == old(self).links(),
            final(self).wf(),
            r == old(self).stop_of(*base, stop_id@),
            r == final(self).stop_of(*base, stop_id@),
            old(self).same_trips(*final(self)),
            chars_of_ids(final(self).new_stop_ids()) == if position_of(base.stop_point_ids@, stop_id@) is Some
                || chars_of_ids(old(self).new_stop_ids()).contains(stop_id@) {
                chars_of_ids(old(self).new_stop_ids())
            } else {
                chars_of_ids(old(self).new_stop_ids()).push(stop_id@)
            },
    {
        proof {
            lemma_position_of_contains(self.new_stop_ids(), stop_id@);
        }
        if let Some(idx) = base.stop_point_idx(stop_id) {
            StopPointIdx::Base(idx)
        } else if let Some(pos) = find_pair(&self.new_stop_id_to_idx, stop_id) {
            StopPointIdx::New(self.new_stop_id_to_idx[pos].1)
        } else {
            let idx = NewStopPointIdx { idx: self.new_stop_id_to_idx.len() };
            self.new_stop_id_to_idx.push((stop_id.to_string(), idx));
            self.new_stops.push(StopData { name: stop_id.to_string() });
            proof {
                let ids = self.new_stop_ids();
                assert(ids =~= old(self).new_stop_ids().push(self.new_stop_id_to_idx@.last().0));
                assert(chars_of_ids(ids) =~= chars_of_ids(old(self).new_stop_ids()).push(stop_id@));
                assert(is_first_position(ids, stop_id@, idx.idx as int)) by {
                    assert forall|j: int| 0 <= j < idx.idx implies (#[trigger] ids[j])@ != stop_id@ by {
                        if ids[j]@ == stop_id@ {
                            lemma_first_position_exists(old(self).new_stop_ids(), stop_id@, j);
                        }
                    }
                }
                lemma_first_position_unique(ids, stop_id@, idx.idx as int);
            }
            StopPointIdx::New(idx)
        }
    }

    /// The stop times of the model for the stop times `stop_times` of an update, whose stop
    /// points are recorded when they were not
    fn make_stop_times(&mut self, stop_times: &[DisruptionStopTime], base: &BaseModelIds) -> (r: Vec<
        StopTime,
    >)
        requires
            old(self).wf(),
        ensures
            final(self).links() == old(self).links(),
            final(self).wf(),
            r@.len() == stop_times@.len(),
            forall|i: int|
                0 <= i < r@.len() ==> #[trigger] r@[i] == stop_time_at(
                    final(self).stop_of(*base, stop_times@[i].stop_id@),
                    stop_times@[i],
                ),
            old(self).same_trips(*final(self)),
            chars_of_ids(final(self).new_stop_ids()) == with_new_ids(
                chars_of_ids(old(self).new_stop_ids()),
                base.stop_point_ids@,
                stop_ids_of(stop_times@),
            ),
    {
        let mut result: Vec<StopTime> = Vec::new();
        let mut i: usize = 0;
        while i < stop_times.len()
            invariant
                self.wf(),
                i <= stop_times@.len(),
                result@.len() == i,
                forall|j: int|
                    0 <= j < i ==> #[trigger] result@[j] == stop_time_at(
                        self.stop_of(*base, stop_times@[j].stop_id@),
                        stop_times@[j],
                    ),
                forall|j: int|
                    0 <= j < i ==> position_of(base.stop_point_ids@, (#[trigger] stop_times@[j]).stop_id@) is Some
                        || position_of(self.new_stop_ids(), stop_times@[j].stop_id@) is Some,
                old(self).same_trips(*self),
                self.links() == old(self).links(),
                chars_of_ids(self.new_stop_ids()) == with_new_ids(
                    chars_of_ids(old(self).new_stop_ids()),
                    base.stop_point_ids@,
                    stop_ids_of(stop_times@).take(i as int),
                ),
            decreases stop_times@.len() - i,
        {
            let stop_time = &stop_times[i];
            let ghost before = *self;
            let stop_idx = self.get_or_insert_stop(stop_time.stop_id.as_str(), base);
            proof {
                lemma_position_of_contains(self.new_stop_ids(), stop_time.stop_id@);
                if position_of(base.stop_point_ids@, stop_time.stop_id@) is None && !chars_of_ids(
                    before.new_stop_ids(),
                ).contains(stop_time.stop_id@) {
                    let c = chars_of_ids(self.new_stop_ids());
                    assert(c[c.len() - 1] == stop_time.stop_id@);
                }
                assert forall|j: int| 0 <= j < i implies position_of(
                    self.new_stop_ids(),
                    (#[trigger] stop_times@[j]).stop_id@,
                ) == position_of(before.new_stop_ids(), stop_times@[j].stop_id@) || position_of(
                    base.stop_point_ids@,
                    stop_times@[j].stop_id@,
                ) is Some by {
                    if position_of(base.stop_point_ids@, stop_times@[j].stop_id@) is None {
                        assert(chars_of_ids(self.new_stop_ids()).len() == self.new_stop_ids().len());
                        lemma_position_of_extended(before.new_stop_ids(), self.new_stop_ids(), stop_times@[j].stop_id@);
                    }
                }
                let ids = stop_ids_of(stop_times@).take(i + 1);
                assert(ids.drop_last() =~= stop_ids_of(stop_times@).take(i as int));
                assert(ids.last() == stop_time.stop_id@);
            }
            result.push(
                StopTime {
                    stop: stop_idx,
                    departure_time: stop_time.departure_time,
                    arrival_time: stop_time.arrival_time,
                    flow_direction: stop_time.flow_direction,
                },
            );
            i += 1;
        }
        assert(stop_ids_of(stop_times@).take(i as int) =~= stop_ids_of(stop_times@));
        result
    }
}

/// The change that the data must undergo once an update was applied to the model: remove
/// the vehicle of a vehicle journey on a date, add one with its stop times, or give one new
/// stop times
#[derive(Debug)]
pub enum DataChange {
    Remove(VehicleJourneyIdx, Date),
    Add(VehicleJourneyIdx, Vec<StopTime>, Date),
    Modify(VehicleJourneyIdx, Vec<StopTime>, Date),
}

impl RealTimeModel {
    /// A model with no update
    pub fn new() -> (r: Self)
        ensures
            r.wf(),
            r.new_ids() == Seq::<String>::empty(),
            r.new_stop_ids() == Seq::<String>::empty(),
            r.new_stops_len() == 0,
            forall|vj: nat, date: int| #[trigger] r.base_version(vj, date) is None,
            r.links() == Seq::<(usize, Date, ChaosLink)>::empty(),
    {
        let r = RealTimeModel {
            new_vehicle_journeys_history: Vec::new(),
            base_vehicle_journeys_idx_to_history: HashMap::new(),
            base_vehicle_journeys_history: Vec::new(),
            new_stop_id_to_idx: Vec::new(),
            new_stops: Vec::new(),
            chaos_links: Vec::new(),
        };
        assert(r.new_ids() =~= Seq::<String>::empty());
        assert(r.new_stop_ids() =~= Seq::<String>::empty());
        r
    }

    /// The names of the new stop points, by their index
    pub closed spec fn new_stop_names(&self) -> Seq<Seq<char>> {
        self.new_stops@.map_values(|stop: StopData| stop.name@)
    }

    /// The index that each id of a new stop point was given, in the order of
    /// `new_stop_ids`
    pub closed spec fn new_stop_indices(&self) -> Seq<NewStopPointIdx> {
        self.new_stop_id_to_idx@.map_values(|pair: (String, NewStopPointIdx)| pair.1)
    }

    /// The number of new stop points with their data
    pub fn nb_of_new_stops(&self) -> (r: usize)
        ensures
            r == self.new_stops_len(),
    {
        self.new_stops.len()
    }

    /// The name of the new stop point `idx`
    pub fn new_stop_name(&self, idx: &NewStopPointIdx) -> (r: &str)
        requires
            idx.idx < self.new_stops_len(),
        ensures
            r@ == self.new_stop_names()[idx.idx as int],
    {
        self.new_stops[idx.idx].name.as_str()
    }

    /// The index given to the new stop point of id `id`, if an update gave it
    pub fn new_stop_point_idx(&self, id: &str) -> (r: Option<NewStopPointIdx>)
        ensures
            match position_of(self.new_stop_ids(), id@) {
                Some(p) => r == Some(self.new_stop_indices()[p as int]),
                None => r is None,
            },
    {
        match find_pair(&self.new_stop_id_to_idx, id) {
            Some(p) => {
                proof {
                    lemma_position_of_is_position(self.new_stop_ids(), id@);
                }
                Some(self.new_stop_id_to_idx[p].1)
            },
            None => None,
        }
    }

    /// `true` when an update gave a new stop point of id `id`
    pub fn contains_new_stop_id(&self, id: &str) -> (r: bool)
        ensures
            r == position_of(self.new_stop_ids(), id@) is Some,
    {
        find_pair(&self.new_stop_id_to_idx, id).is_some()
    }

    /// The number of new vehicle journeys
    pub fn nb_of_new_vehicle_journeys(&self) -> (r: usize)
        ensures
            r == self.new_ids().len(),
    {
        self.new_vehicle_journeys_history.len()
    }

    /// The new vehicle journeys, by increasing index
    pub fn new_vehicle_journeys(&self) -> (r: Vec<NewVehicleJourneyIdx>)
        ensures
            r@ == Seq::new(self.new_ids().len(), |i: int| NewVehicleJourneyIdx { idx: i as usize }),
    {
        let n = self.new_vehicle_journeys_history.len();
        let mut r: Vec<NewVehicleJourneyIdx> = Vec::new();
        let mut i: usize = 0;
        while i < n
            invariant
                i <= n,
                r@ == Seq::new(i as nat, |j: int| NewVehicleJourneyIdx { idx: j as usize }),
            decreases n - i,
        {
            r.push(NewVehicleJourneyIdx { idx: i });
            i += 1;
            assert(r@ =~= Seq::new(i as nat, |j: int| NewVehicleJourneyIdx { idx: j as usize }));
        }
        r
    }

    /// The new vehicle journey of id `id`, if an update added it
    pub fn new_vehicle_journey_idx(&self, id: &str) -> (r: Option<NewVehicleJourneyIdx>)
        ensures
            match position_of(self.new_ids(), id@) {
                Some(p) => r == Some(NewVehicleJourneyIdx { idx: p as usize }),
                None => r is None,
            },
    {
        match find_pair(&self.new_vehicle_journeys_history, id) {
            Some(p) => Some(NewVehicleJourneyIdx { idx: p }),
            None => None,
        }
    }

    /// The id of the new vehicle journey `idx`
    pub fn new_vehicle_journey_name(&self, idx: &NewVehicleJourneyIdx) -> (r: &str)
        requires
            idx.idx < self.new_ids().len(),
        ensures
            r@ == self.new_ids()[idx.idx as int]@,
    {
        self.new_vehicle_journeys_history[idx.idx].0.as_str()
    }

    /// The last version of the data of the base vehicle journey of index `idx` on `date`, if
    /// an update gave one
    pub fn base_vehicle_journey_last_version(&self, idx: usize, date: &Date) -> (r: Option<&TripData>)
        requires
            self.wf(),
        ensures
            match r {
                Some(data) => self.base_version(idx as nat, date.days_from_ce as int) matches Some(v)
                    && *data == v.trip_data,
                None => self.base_version(idx as nat, date.days_from_ce as int) is None,
            },
    {
        match self.base_vehicle_journeys_idx_to_history.get(&idx) {
            Some(pos) => match self.base_vehicle_journeys_history[*pos].by_reference_date.get(&date.days_from_ce) {
                Some(version) => Some(&version.trip_data),
                None => None,
            },
            None => None,
        }
    }

    /// The last version of the data of the new vehicle journey `idx` on `date`, if an update
    /// gave one
    pub fn new_vehicle_journey_last_version(&self, idx: &NewVehicleJourneyIdx, date: &Date) -> (r: Option<
        &TripData,
    >)
        requires
            idx.idx < self.new_ids().len(),
        ensures
            match r {
                Some(data) => self.new_version(idx.idx as nat, date.days_from_ce as int) matches Some(v)
                    && *data == v.trip_data,
                None => self.new_version(idx.idx as nat, date.days_from_ce as int) is None,
            },
    {
        match self.new_vehicle_journeys_history[idx.idx].1.by_reference_date.get(&date.days_from_ce) {
            Some(version) => Some(&version.trip_data),
            None => None,
        }
    }

    /// `true` when the trip `trip` runs, as `trip_present` says
    fn is_present(&self, trip: &Trip, base: &BaseModelIds) -> (r: bool)
        requires
            self.wf(),
        ensures
            r == self.trip_present(*base, trip.vehicle_journey_id@, trip.reference_date.days_from_ce as int),
    {
        match base.vehicle_journey_idx(trip.vehicle_journey_id.as_str()) {
            Some(vj) => match self.base_vehicle_journey_last_version(vj, &trip.reference_date) {
                Some(TripData::Deleted()) => false,
                _ => true,
            },
            None => find_pair(&self.new_vehicle_journeys_history, trip.vehicle_journey_id.as_str()).is_some(),
        }
    }

    /// Deletes the trip `trip` for the disruption `disruption_id`, when it runs; an error
    /// otherwise
    pub fn delete(&mut self, disruption_id: &str, trip: &Trip, base: &BaseModelIds) -> (r: Result<
        VehicleJourneyIdx,
        UpdateError,
    >)
        requires
            old(self).wf(),
        ensures
            final(self).wf(),
            final(self).links() == old(self).links(),
            r is Ok <==> old(self).trip_present(
                *base,
                trip.vehicle_journey_id@,
                trip.reference_date.days_from_ce as int,
            ),
            r matches Err(e) ==> e == UpdateError::DeleteAbsentTrip(*trip) && *final(self) == *old(self),
            r matches Ok(vj) ==> {
                &&& vj == old(self).vehicle_journey_of(*base, trip.vehicle_journey_id@)
                &&& old(self).updated(
                    *final(self),
                    *base,
                    trip.vehicle_journey_id@,
                    trip.reference_date.days_from_ce as int,
                    disruption_id@,
                    None,
                )
                &&& final(self).new_stop_ids() == old(self).new_stop_ids()
                &&& final(self).new_stops_len() == old(self).new_stops_len()
            },
    {
        if self.is_present(trip, base) {
            let trip_version = TripVersion {
                disruption_id: disruption_id.to_string(),
                trip_data: TripData::Deleted(),
            };
            let idx = self.set_version(trip, base, trip_version);
            Ok(idx)
        } else {
            Err(UpdateError::DeleteAbsentTrip(trip.clone()))
        }
    }

    /// Adds the trip `trip` with the stop times `stop_times` for the disruption
    /// `disruption_id`, when it does not run; an error otherwise
    pub fn add(
        &mut self,
        disruption_id: &str,
        trip: &Trip,
        stop_times: &[DisruptionStopTime],
        base: &BaseModelIds,
    ) -> (r: Result<(VehicleJourneyIdx, Vec<StopTime>), UpdateError>)
        requires
            old(self).wf(),
        ensures
            final(self).wf(),
            final(self).links() == old(self).links(),
            r is Ok <==> !old(self).trip_present(
                *base,
                trip.vehicle_journey_id@,
                trip.reference_date.days_from_ce as int,
            ),
            r matches Err(e) ==> e == UpdateError::AddPresentTrip(*trip) && *final(self) == *old(self),
            r matches Ok((vj, made)) ==> {
                &&& vj == old(self).vehicle_journey_of(*base, trip.vehicle_journey_id@)
                &&& made@.len() == stop_times@.len()
                &&& forall|i: int|
                    0 <= i < made@.len() ==> #[trigger] made@[i] == stop_time_at(
                        final(self).stop_of(*base, stop_times@[i].stop_id@),
                        stop_times@[i],
                    )
                &&& old(self).updated(
                    *final(self),
                    *base,
                    trip.vehicle_journey_id@,
                    trip.reference_date.days_from_ce as int,
                    disruption_id@,
                    Some(made@),
                )
                &&& chars_of_ids(final(self).new_stop_ids()) == with_new_ids(
                    chars_of_ids(old(self).new_stop_ids()),
                    base.stop_point_ids@,
                    stop_ids_of(stop_times@),
                )
            },
    {
        if self.is_present(trip, base) {
            Err(UpdateError::AddPresentTrip(trip.clone()))
        } else {
            let made = self.make_stop_times(stop_times, base);
            let ghost mid = *self;
            proof {
                old(self).lemma_same_trips(mid, *base, trip.vehicle_journey_id@, trip.reference_date.days_from_ce as int);
            }
            let kept = made.clone();
            assert(kept@ =~= made@);
            let trip_version = TripVersion {
                disruption_id: disruption_id.to_string(),
                trip_data: TripData::Present(kept),
            };
            let idx = self.set_version(trip, base, trip_version);
            proof {
                assert forall|id2: Seq<char>, date2: int|
                    !(id2 == trip.vehicle_journey_id@ && date2 == trip.reference_date.days_from_ce as int)
                        implies #[trigger] self.version(*base, id2, date2) == old(self).version(*base, id2, date2) by {
                    old(self).lemma_same_trips(mid, *base, id2, date2);
                }
            }
            Ok((idx, made))
        }
    }

    /// Gives the trip `trip` the stop times `stop_times` for the disruption `disruption_id`,
    /// when it runs; an error otherwise
    pub fn modify(
        &mut self,
        disruption_id: &str,
        trip: &Trip,
        stop_times: &[DisruptionStopTime],
        base: &BaseModelIds,
    ) -> (r: Result<(VehicleJourneyIdx, Vec<StopTime>), UpdateError>)
        requires
            old(self).wf(),
        ensures
            final(self).wf(),
            final(self).links() == old(self).links(),
            r is Ok <==> old(self).trip_present(
                *base,
                trip.vehicle_journey_id@,
                trip.reference_date.days_from_ce as int,
            ),
            r matches Err(e) ==> e == UpdateError::ModifyAbsentTrip(*trip) && *final(self) == *old(self),
            r matches Ok((vj, made)) ==> {
                &&& vj == old(self).vehicle_journey_of(*base, trip.vehicle_journey_id@)
                &&& made@.len() == stop_times@.len()
                &&& forall|i: int|
                    0 <= i < made@.len() ==> #[trigger] made@[i] == stop_time_at(
                        final(self).stop_of(*base, stop_times@[i].stop_id@),
                        stop_times@[i],
                    )
                &&& old(self).updated(
                    *final(self),
                    *base,
                    trip.vehicle_journey_id@,
                    trip.reference_date.days_from_ce as int,
                    disruption_id@,
                    Some(made@),
                )
                &&& chars_of_ids(final(self).new_stop_ids()) == with_new_ids(
                    chars_of_ids(old(self).new_stop_ids()),
                    base.stop_point_ids@,
                    stop_ids_of(stop_times@),
                )
            },
    {
        if !self.is_present(trip, base) {
            Err(UpdateError::ModifyAbsentTrip(trip.clone()))
        } else {
            let made = self.make_stop_times(stop_times, base);
            let ghost mid = *self;
            proof {
                old(self).lemma_same_trips(mid, *base, trip.vehicle_journey_id@, trip.reference_date.days_from_ce as int);
            }
            let kept = made.clone();
            assert(kept@ =~= made@);
            let trip_version = TripVersion {
                disruption_id: disruption_id.to_string(),
                trip_data: TripData::Present(kept),
            };
            let idx = self.set_version(trip, base, trip_version);
            proof {
                assert forall|id2: Seq<char>, date2: int|
                    !(id2 == trip.vehicle_journey_id@ && date2 == trip.reference_date.days_from_ce as int)
                        implies #[trigger] self.version(*base, id2, date2) == old(self).version(*base, id2, date2) by {
                    old(self).lemma_same_trips(mid, *base, id2, date2);
                }
            }
            Ok((idx, made))
        }
    }
}

impl Default for RealTimeModel {
    fn default() -> (r: Self)
        ensures
            r.wf(),
            r.new_ids() == Seq::<String>::empty(),
            r.new_stop_ids() == Seq::<String>::empty(),
            r.new_stops_len() == 0,
            forall|vj: nat, date: int| #[trigger] r.base_version(vj, date) is None,
    {
        Self::new()
    }
}

/// The trip that `update` is about
pub open spec fn trip_of(update: Update) -> Trip {
    match update {
        Update::Delete(trip) => trip,
        Update::Add(trip, _) => trip,
        Update::Modify(trip, _) => trip,
    }
}

/// `after` and the result `r` are what applying `update` of the disruption `disruption_id`
/// to `before` gives: the trip is deleted, added or modified, and the change that the data
/// must undergo is told, as `delete`, `add` and `modify` do; on an error the model is kept
pub open spec fn update_applied(
    before: RealTimeModel,
    after: RealTimeModel,
    disruption_id: Seq<char>,
    update: Update,
    base: BaseModelIds,
    r: Result<DataChange, UpdateError>,
) -> bool {
    let trip = trip_of(update);
    let id = trip.vehicle_journey_id@;
    let date = trip.reference_date.days_from_ce as int;
    let vj = before.vehicle_journey_of(base, id);
    &&& r is Err ==> after == before
    &&& match update {
        Update::Delete(_) => match r {
            Ok(DataChange::Remove(removed, on)) => before.trip_present(base, id, date)
                && removed == vj && on == trip.reference_date && before.updated(
                after,
                base,
                id,
                date,
                disruption_id,
                None,
            ) && after.new_stop_ids() == before.new_stop_ids(),
            Err(e) => !before.trip_present(base, id, date) && e
                == UpdateError::DeleteAbsentTrip(trip),
            _ => false,
        },
        Update::Add(_, stop_times) => match r {
            Ok(DataChange::Add(added, made, on)) => !before.trip_present(base, id, date)
                && added == vj && on == trip.reference_date && made@.len()
                == stop_times@.len() && (forall|i: int|
                0 <= i < made@.len() ==> #[trigger] made@[i] == stop_time_at(
                    after.stop_of(base, stop_times@[i].stop_id@),
                    stop_times@[i],
                )) && before.updated(
                after,
                base,
                id,
                date,
                disruption_id,
                Some(made@),
            ) && chars_of_ids(after.new_stop_ids()) == with_new_ids(
                chars_of_ids(before.new_stop_ids()),
                base.stop_point_ids@,
                stop_ids_of(stop_times@),
            ),
            Err(e) => before.trip_present(base, id, date) && e
                == UpdateError::AddPresentTrip(trip),
            _ => false,
        },
        Update::Modify(_, stop_times) => match r {
            Ok(DataChange::Modify(modified, made, on)) => before.trip_present(base, id, date)
                && modified == vj && on == trip.reference_date && made@.len()
                == stop_times@.len() && (forall|i: int|
                0 <= i < made@.len() ==> #[trigger] made@[i] == stop_time_at(
                    after.stop_of(base, stop_times@[i].stop_id@),
                    stop_times@[i],
                )) && before.updated(
                after,
                base,
                id,
                date,
                disruption_id,
                Some(made@),
            ) && chars_of_ids(after.new_stop_ids()) == with_new_ids(
                chars_of_ids(before.new_stop_ids()),
                base.stop_point_ids@,
                stop_ids_of(stop_times@),
            ),
            Err(e) => !before.trip_present(base, id, date) && e
                == UpdateError::ModifyAbsentTrip(trip),
            _ => false,
        },
    }
}

/// `after` and `r` are what applying `action`, taken for the chaos impact `link` of the
/// disruption `disruption_id`, to the trip of base vehicle journey `vj` on `date` of `before`
/// gives: a deletion removes the trip when it runs, with a change of the data, and links
/// the impact in any case; a link links it; an unlink unlinks it; the other trips and links
/// stay
pub open spec fn trip_action_applied(
    before: RealTimeModel,
    after: RealTimeModel,
    base: BaseModelIds,
    disruption_id: Seq<char>,
    vj: usize,
    date: Date,
    link: ChaosLink,
    action: TripAction,
    r: Option<DataChange>,
) -> bool {
    let id = base.vehicle_journey_ids@[vj as int]@;
    let d = date.days_from_ce as int;
    let linked = if before.links().contains((vj, date, link)) {
        before.links()
    } else {
        before.links().push((vj, date, link))
    };
    match action {
        TripAction::DeleteAndLink => {
            &&& after.links() == linked
            &&& if before.trip_present(base, id, d) {
                &&& r == Some(DataChange::Remove(before.vehicle_journey_of(base, id), date))
                &&& before.updated(after, base, id, d, disruption_id, None)
            } else {
                r is None && after.same_trips(before)
            }
        },
        TripAction::Link => after.links() == linked && after.same_trips(before) && r is None,
        TripAction::Unlink => {
            &&& after.links() == before.links().filter(|e: (usize, Date, ChaosLink)| e != (vj, date, link))
            &&& after.same_trips(before)
            &&& r is None
        },
        TripAction::CancelImpact => false,
    }
}

/// `after` and `r` are what cancelling the chaos impact `link` for the trip of base vehicle
/// journey `vj` on `date` of `before` gives, as `cancel_impact_on_trip` does: the decision of
/// `cancel_decision_of`, then nothing, an unlink, or an unlink followed by the modification
/// (when the trip runs) or the addition of the trip with the stop times `base_stop_times` by
/// the disruption `disruption_id`, with its result
pub open spec fn cancel_applied(
    before: RealTimeModel,
    after: RealTimeModel,
    base: BaseModelIds,
    disruption_id: Seq<char>,
    vj: usize,
    date: Date,
    link: ChaosLink,
    has_real_time_update: bool,
    alters_objects: bool,
    base_stop_times: Option<Vec<DisruptionStopTime>>,
    r: (CancelDecision, Option<Result<DataChange, UpdateError>>),
) -> bool {
    let id = base.vehicle_journey_ids@[vj as int]@;
    let d = date.days_from_ce as int;
    let unlinked = before.links().filter(|e: (usize, Date, ChaosLink)| e != (vj, date, link));
    let decision = cancel_decision_of(
        before.links().contains((vj, date, link)),
        has_real_time_update,
        alters_objects,
        base_stop_times is Some,
        before.trip_present(base, id, d),
    );
    &&& r.0 == decision
    &&& match decision {
        CancelDecision::Nothing => after == before && r.1 is None,
        CancelDecision::UnlinkOnly => after.links() == unlinked && after.same_trips(before) && r.1 is None,
        CancelDecision::Restore { modify } => {
            &&& after.links() == unlinked
            &&& exists|mid: RealTimeModel, trip: Trip, result: Result<DataChange, UpdateError>|
                {
                    &&& mid.same_trips(before)
                    &&& mid.links() == unlinked
                    &&& trip.vehicle_journey_id@ == id
                    &&& trip.reference_date == date
                    &&& r.1 == Some(result)
                    &&& update_applied(
                        mid,
                        after,
                        disruption_id,
                        if modify {
                            Update::Modify(trip, base_stop_times->0)
                        } else {
                            Update::Add(trip, base_stop_times->0)
                        },
                        base,
                        result,
                    )
                }
        },
    }
}

/// The models and results that applying `updates` of the disruption `disruption_id` in
/// their order goes through: each update takes a model to the next one, with its result
pub open spec fn updates_applied(
    models: Seq<RealTimeModel>,
    disruption_id: Seq<char>,
    updates: Seq<Update>,
    base: BaseModelIds,
    results: Seq<Result<DataChange, UpdateError>>,
) -> bool {
    &&& models.len() == updates.len() + 1
    &&& results.len() == updates.len()
    &&& forall|i: int|
        0 <= i < updates.len() ==> update_applied(
            models[i],
            models[i + 1],
            disruption_id,
            #[trigger] updates[i],
            base,
            results[i],
        )
}

impl RealTimeModel {
    /// Applies `update` of the disruption `disruption_id` to the model, and tells the change
    /// that the data must undergo: the trip is deleted, added or modified as `delete`, `add`
    /// and `modify` do
    pub fn apply_update(&mut self, disruption_id: &str, update: &Update, base: &BaseModelIds) -> (r:
        Result<DataChange, UpdateError>)
        requires
            old(self).wf(),
        ensures
            final(self).wf(),
            final(self).links() == old(self).links(),
            update_applied(*old(self), *final(self), disruption_id@, *update, *base, r),
    {
        match update {
            Update::Delete(trip) => {
                let vj_idx = self.delete(disruption_id, trip, base)?;
                Ok(DataChange::Remove(vj_idx, trip.reference_date))
            },
            Update::Add(trip, stop_times) => {
                let (vj_idx, made) = self.add(disruption_id, trip, stop_times.as_slice(), base)?;
                Ok(DataChange::Add(vj_idx, made, trip.reference_date))
            },
            Update::Modify(trip, stop_times) => {
                let (vj_idx, made) = self.modify(disruption_id, trip, stop_times.as_slice(), base)?;
                Ok(DataChange::Modify(vj_idx, made, trip.reference_date))
            },
        }
    }

    /// The chaos impacts linked to the trips of the base vehicle journeys: each link is the
    /// index of a base vehicle journey, a date of reference, and the impact with its object
    pub closed spec fn links(&self) -> Seq<(usize, Date, ChaosLink)> {
        self.chaos_links@
    }

    /// `true` when `link` links a chaos impact to the trip of base vehicle journey `vj` on
    /// `date`
    pub fn is_linked(&self, vj: usize, date: Date, link: ChaosLink) -> (r: bool)
        ensures
            r == self.links().contains((vj, date, link)),
    {
        let mut i: usize = 0;
        while i < self.chaos_links.len()
            invariant
                i <= self.links().len(),
                forall|j: int| 0 <= j < i ==> self.links()[j] != (vj, date, link),
            decreases self.links().len() - i,
        {
            let (linked_vj, linked_date, linked) = self.chaos_links[i];
            if linked_vj == vj && linked_date == date && linked == link {
                assert(self.links()[i as int] == (vj, date, link));
                return true;
            }
            i += 1;
        }
        false
    }

    /// Links the chaos impact `link` to the trip of base vehicle journey `vj` on `date`,
    /// unless it is already; the trips keep their versions
    pub fn link_chaos_impact(&mut self, vj: usize, date: Date, link: ChaosLink)
        requires
            old(self).wf(),
        ensures
            final(self).wf(),
            final(self).same_trips(*old(self)),
            final(self).new_stop_ids() == old(self).new_stop_ids(),
            final(self).new_stops_len() == old(self).new_stops_len(),
            final(self).links() == if old(self).links().contains((vj, date, link)) {
                old(self).links()
            } else {
                old(self).links().push((vj, date, link))
            },
    {
        if !self.is_linked(vj, date, link) {
            self.chaos_links.push((vj, date, link));
        }
    }

    /// Unlinks the chaos impact `link` from the trip of base vehicle journey `vj` on `date`;
    /// the trips keep their versions
    pub fn unlink_chaos_impact(&mut self, vj: usize, date: Date, link: ChaosLink)
        requires
            old(self).wf(),
        ensures
            final(self).wf(),
            final(self).same_trips(*old(self)),
            final(self).new_stop_ids() == old(self).new_stop_ids(),
            final(self).new_stops_len() == old(self).new_stops_len(),
            final(self).links() == old(self).links().filter(
                |e: (usize, Date, ChaosLink)| e != (vj, date, link),
            ),
    {
        let ghost pred = |e: (usize, Date, ChaosLink)| e != (vj, date, link);
        let ghost before = self.chaos_links@;
        let mut kept: Vec<(usize, Date, ChaosLink)> = Vec::new();
        let mut i: usize = 0;
        while i < self.chaos_links.len()
            invariant
                self.chaos_links@ == before,
                i <= before.len(),
                pred == (|e: (usize, Date, ChaosLink)| e != (vj, date, link)),
                kept@ == before.take(i as int).filter(pred),
            decreases before.len() - i,
        {
            let e = self.chaos_links[i];
            proof {
                lemma_filter_step(before, i as int, pred);
            }
            if !(e.0 == vj && e.1 == date && e.2 == link) {
                kept.push(e);
            }
            i += 1;
        }
        assert(before.take(i as int) =~= before);
        self.chaos_links = kept;
    }

    /// The chaos impacts linked to the trip of base vehicle journey `vj` on `date`, in the
    /// order of linking
    pub fn linked_impacts(&self, vj: usize, date: Date) -> (r: Vec<ChaosLink>)
        ensures
            r@ == self.links().filter(|e: (usize, Date, ChaosLink)| e.0 == vj && e.1 == date).map_values(
                |e: (usize, Date, ChaosLink)| e.2,
            ),
    {
        let ghost pred = |e: (usize, Date, ChaosLink)| e.0 == vj && e.1 == date;
        let ghost all = self.links();
        let mut r: Vec<ChaosLink> = Vec::new();
        let mut i: usize = 0;
        while i < self.chaos_links.len()
            invariant
                all == self.links(),
                i <= all.len(),
                pred == (|e: (usize, Date, ChaosLink)| e.0 == vj && e.1 == date),
                r@ == all.take(i as int).filter(pred).map_values(|e: (usize, Date, ChaosLink)| e.2),
            decreases all.len() - i,
        {
            let e = self.chaos_links[i];
            proof {
                lemma_filter_step(all, i as int, pred);
            }
            if e.0 == vj && e.1 == date {
                r.push(e.2);
                proof {
                    let f = all.take(i as int).filter(pred);
                    assert(f.push(e).map_values(|e: (usize, Date, ChaosLink)| e.2) =~= f.map_values(
                        |e: (usize, Date, ChaosLink)| e.2,
                    ).push(e.2));
                }
            }
            i += 1;
        }
        assert(all.take(i as int) =~= all);
        r
    }

    /// Applies `action`, taken for the chaos impact `link` of the disruption
    /// `disruption_id`, to the trip of base vehicle journey `vj` on `date`, as
    /// `trip_action_applied` says; the change that the data must undergo, if any
    pub fn apply_trip_action(
        &mut self,
        base: &BaseModelIds,
        disruption_id: &str,
        vj: usize,
        date: Date,
        link: ChaosLink,
        action: TripAction,
    ) -> (r: Option<DataChange>)
        requires
            old(self).wf(),
            vj < base.vehicle_journey_ids@.len(),
            !(action is CancelImpact),
        ensures
            final(self).wf(),
            trip_action_applied(*old(self), *final(self), *base, disruption_id@, vj, date, link, action, r),
    {
        match action {
            TripAction::DeleteAndLink => {
                let trip = Trip { vehicle_journey_id: base.vehicle_journey_ids[vj].clone(), reference_date: date };
                let r = match self.delete(disruption_id, &trip, base) {
                    Ok(idx) => Some(DataChange::Remove(idx, date)),
                    Err(_) => None,
                };
                let ghost mid = *self;
                self.link_chaos_impact(vj, date, link);
                proof {
                    let id = trip.vehicle_journey_id@;
                    assert forall|id2: Seq<char>, date2: int|
                        #[trigger] self.version(*base, id2, date2) == mid.version(*base, id2, date2) by {
                        self.lemma_same_trips(mid, *base, id2, date2);
                    }
                    self.lemma_same_trips(mid, *base, id, date.days_from_ce as int);
                }
                r
            },
            TripAction::Link => {
                self.link_chaos_impact(vj, date, link);
                None
            },
            _ => {
                self.unlink_chaos_impact(vj, date, link);
                None
            },
        }
    }

    /// Cancels, for the trip of base vehicle journey `vj` on `date`, the chaos impact
    /// `link`, whose impact alters objects when `alters_objects`, the trip having a real-time
    /// update when `has_real_time_update` and the base stop times `base_stop_times` when it
    /// has some: as `cancel_decision_of` decides, nothing is done, or the impact is unlinked,
    /// or it is unlinked and the trip is given back its base stop times by the disruption
    /// `disruption_id`, as a modification when it runs and an addition otherwise; the
    /// decision, and the result of the modification or addition
    pub fn cancel_impact_on_trip(
        &mut self,
        base: &BaseModelIds,
        disruption_id: &str,
        vj: usize,
        date: Date,
        link: ChaosLink,
        has_real_time_update: bool,
        alters_objects: bool,
        base_stop_times: Option<Vec<DisruptionStopTime>>,
    ) -> (r: (CancelDecision, Option<Result<DataChange, UpdateError>>))
        requires
            old(self).wf(),
            vj < base.vehicle_journey_ids@.len(),
        ensures
            final(self).wf(),
            cancel_applied(
                *old(self),
                *final(self),
                *base,
                disruption_id@,
                vj,
                date,
                link,
                has_real_time_update,
                alters_objects,
                base_stop_times,
                r,
            ),
    {
        let trip = Trip { vehicle_journey_id: base.vehicle_journey_ids[vj].clone(), reference_date: date };
        let linked = self.is_linked(vj, date, link);
        let present = self.is_present(&trip, base);
        let decision = cancel_decision(
            linked,
            has_real_time_update,
            alters_objects,
            base_stop_times.is_some(),
            present,
        );
        match decision {
            CancelDecision::Nothing => (decision, None),
            CancelDecision::UnlinkOnly => {
                self.unlink_chaos_impact(vj, date, link);
                (decision, None)
            },
            CancelDecision::Restore { modify } => {
                self.unlink_chaos_impact(vj, date, link);
                let ghost mid = *self;
                let stop_times = base_stop_times.unwrap();
                let update = if modify {
                    Update::Modify(trip, stop_times)
                } else {
                    Update::Add(trip, stop_times)
                };
                let result = self.apply_update(disruption_id, &update, base);
                proof {
                    assert(mid.same_trips(*old(self)));
                }
                (decision, Some(result))
            },
        }
    }

    /// Does what the chaos impact `link` of the disruption `disruption_id`, asking for
    /// `action`, does to the trip of base vehicle journey `vj` on `date`: the action on the
    /// trip is that of `trip_action_of`, a real-time update of the trip (`has_real_time_update`)
    /// taking precedence over an alteration; a cancellation goes as `cancel_impact_on_trip`
    /// does, with `alters_objects` and `base_stop_times`; the change that the data must
    /// undergo, if any, with the result of a restoration
    pub fn dispatch_on_base_vehicle_journey(
        &mut self,
        base: &BaseModelIds,
        disruption_id: &str,
        vj: usize,
        date: Date,
        link: ChaosLink,
        action: ChaosAction,
        has_real_time_update: bool,
        alters_objects: bool,
        base_stop_times: Option<Vec<DisruptionStopTime>>,
    ) -> (r: Option<Result<DataChange, UpdateError>>)
        requires
            old(self).wf(),
            vj < base.vehicle_journey_ids@.len(),
        ensures
            final(self).wf(),
            ({
                let present = old(self).trip_present(
                    *base,
                    base.vehicle_journey_ids@[vj as int]@,
                    date.days_from_ce as int,
                );
                let trip_action = trip_action_of(action, has_real_time_update, present);
                if trip_action is CancelImpact {
                    exists|cancelled: (CancelDecision, Option<Result<DataChange, UpdateError>>)|
                        cancel_applied(
                            *old(self),
                            *final(self),
                            *base,
                            disruption_id@,
                            vj,
                            date,
                            link,
                            has_real_time_update,
                            alters_objects,
                            base_stop_times,
                            cancelled,
                        ) && r == cancelled.1
                } else {
                    exists|change: Option<DataChange>|
                        trip_action_applied(
                            *old(self),
                            *final(self),
                            *base,
                            disruption_id@,
                            vj,
                            date,
                            link,
                            trip_action,
                            change,
                        ) && r == match change {
                            Some(c) => Some(Ok::<DataChange, UpdateError>(c)),
                            None => None,
                        }
                }
            }),
    {
        let trip = Trip { vehicle_journey_id: base.vehicle_journey_ids[vj].clone(), reference_date: date };
        let present = self.is_present(&trip, base);
        let trip_action = dispatch(action, has_real_time_update, present);
        match trip_action {
            TripAction::CancelImpact => {
                let cancelled = self.cancel_impact_on_trip(
                    base,
                    disruption_id,
                    vj,
                    date,
                    link,
                    has_real_time_update,
                    alters_objects,
                    base_stop_times,
                );
                cancelled.1
            },
            _ => match self.apply_trip_action(base, disruption_id, vj, date, link, trip_action) {
                Some(c) => Some(Ok(c)),
                None => None,
            },
        }
    }

    /// Applies the updates `updates` of the disruption `disruption_id` in their order, as
    /// `apply_update` does, and tells the result of each: an update that fails leaves the
    /// model as it is, and the next ones are applied all the same
    pub fn apply_disruption(&mut self, disruption_id: &str, updates: &[Update], base: &BaseModelIds) -> (r: Vec<
        Result<DataChange, UpdateError>,
    >)
        requires
            old(self).wf(),
        ensures
            final(self).wf(),
            exists|models: Seq<RealTimeModel>|
                {
                    &&& models[0] == *old(self)
                    &&& models.last() == *final(self)
                    &&& updates_applied(models, disruption_id@, updates@, *base, r@)
                },
    {
        let ghost mut models: Seq<RealTimeModel> = seq![*self];
        let mut results: Vec<Result<DataChange, UpdateError>> = Vec::new();
        let mut i: usize = 0;
        while i < updates.len()
            invariant
                self.wf(),
                i <= updates@.len(),
                models.len() == i + 1,
                results@.len() == i,
                models[0] == *old(self),
                models.last() == *self,
                forall|j: int|
                    0 <= j < i ==> update_applied(
                        models[j],
                        models[j + 1],
                        disruption_id@,
                        #[trigger] updates@[j],
                        *base,
                        results@[j],
                    ),
            decreases updates@.len() - i,
        {
            let result = self.apply_update(disruption_id, &updates[i], base);
            results.push(result);
            proof {
                models = models.push(*self);
            }
            i += 1;
        }
        results
    }
}

/// Once a disruption deleted a trip of a vehicle journey of the base model, that trip does
/// not run.
pub proof fn lemma_deleted_base_trip_does_not_run(
    before: RealTimeModel,
    after: RealTimeModel,
    base: BaseModelIds,
    id: Seq<char>,
    date: int,
    disruption_id: Seq<char>,
)
    requires
        before.updated(after, base, id, date, disruption_id, None),
        position_of(base.vehicle_journey_ids@, id) is Some,
    ensures
        !after.trip_present(base, id, date),
{
}

/// Once a disruption gave stop times to a trip, that trip runs.
pub proof fn lemma_trip_with_stop_times_runs(
    before: RealTimeModel,
    after: RealTimeModel,
    base: BaseModelIds,
    id: Seq<char>,
    date: int,
    disruption_id: Seq<char>,
    stop_times: Seq<StopTime>,
)
    requires
        before.updated(after, base, id, date, disruption_id, Some(stop_times)),
    ensures
        after.trip_present(base, id, date),
{
    if position_of(base.vehicle_journey_ids@, id) is None {
        lemma_position_of_contains(after.new_ids(), id);
        lemma_position_of_contains(before.new_ids(), id);
        if position_of(before.new_ids(), id) is None {
            assert(chars_of_ids(after.new_ids()).last() == id);
        }
    }
}

/// An update leaves every other trip with its version.
pub proof fn lemma_update_keeps_other_trips(
    before: RealTimeModel,
    after: RealTimeModel,
    base: BaseModelIds,
    id: Seq<char>,
    date: int,
    disruption_id: Seq<char>,
    stop_times: Option<Seq<StopTime>>,
    other_id: Seq<char>,
    other_date: int,
)
    requires
        before.updated(after, base, id, date, disruption_id, stop_times),
        other_id != id || other_date != date,
    ensures
        after.version(base, other_id, other_date) == before.version(base, other_id, other_date),
{
}


/// What the data must do for a trip on a date that is added to its days: add the vehicle of
/// a vehicle journey with the stop times of its last version, or insert the vehicle of a base
/// vehicle journey as the base schedule has it
#[derive(Debug)]
pub enum DayChange {
    AddVersion(VehicleJourneyIdx, Vec<StopTime>, Date),
    InsertBase(usize, Date),
}

/// A change of days seen as the vehicle journey, the stop times of the version to add, if
/// any, and the day number of the date
pub open spec fn day_change_view(change: DayChange) -> (VehicleJourneyIdx, Option<Seq<StopTime>>, int) {
    match change {
        DayChange::AddVersion(vj, stop_times, date) => (vj, Some(stop_times@), date.days_from_ce as int),
        DayChange::InsertBase(vj, date) => (VehicleJourneyIdx::Base(vj), None, date.days_from_ce as int),
    }
}

/// The stop times of `version`, when it keeps its trip
pub open spec fn present_stop_times(version: Option<TripVersion>) -> Option<Seq<StopTime>> {
    match version {
        Some(v) => match v.trip_data {
            TripData::Present(stop_times) => Some(stop_times@),
            TripData::Deleted() => None,
        },
        None => None,
    }
}

/// The changes, for the first `n` base vehicle journeys, on the date of day number `day`:
/// the stop times of the last version of each when it keeps its trip, the base schedule
/// otherwise
pub open spec fn base_day_changes(rt: RealTimeModel, n: nat, day: int) -> Seq<
    (VehicleJourneyIdx, Option<Seq<StopTime>>, int),
>
    decreases n,
{
    if n == 0 {
        Seq::empty()
    } else {
        let vj = (n - 1) as nat;
        base_day_changes(rt, vj, day).push(
            (VehicleJourneyIdx::Base(vj as usize), present_stop_times(rt.base_version(vj, day)), day),
        )
    }
}

/// The changes, for the first `n` new vehicle journeys, on the date of day number `day`: the
/// stop times of the last version of each that keeps its trip
pub open spec fn new_day_changes(rt: RealTimeModel, n: nat, day: int) -> Seq<
    (VehicleJourneyIdx, Option<Seq<StopTime>>, int),
>
    decreases n,
{
    if n == 0 {
        Seq::empty()
    } else {
        let pos = (n - 1) as nat;
        let before = new_day_changes(rt, pos, day);
        match present_stop_times(rt.new_version(pos, day)) {
            Some(stop_times) => before.push(
                (VehicleJourneyIdx::New(NewVehicleJourneyIdx { idx: pos as usize }), Some(stop_times), day),
            ),
            None => before,
        }
    }
}

/// The changes for the dates `dates`, in their order: for each, those of the
/// `nb_of_base` base vehicle journeys, then those of the new vehicle journeys
pub open spec fn days_changes(rt: RealTimeModel, nb_of_base: nat, dates: Seq<Date>) -> Seq<
    (VehicleJourneyIdx, Option<Seq<StopTime>>, int),
>
    decreases dates.len(),
{
    if dates.len() == 0 {
        Seq::empty()
    } else {
        let day = dates.last().days_from_ce as int;
        days_changes(rt, nb_of_base, dates.drop_last()) + base_day_changes(rt, nb_of_base, day)
            + new_day_changes(rt, rt.new_ids().len(), day)
    }
}

/// A copy of the stop times `stop_times`
fn copy_stop_times(stop_times: &Vec<StopTime>) -> (r: Vec<StopTime>)
    ensures
        r@ == stop_times@,
{
    let mut r: Vec<StopTime> = Vec::new();
    let mut i: usize = 0;
    while i < stop_times.len()
        invariant
            i <= stop_times@.len(),
            r@ == stop_times@.take(i as int),
        decreases stop_times@.len() - i,
    {
        r.push(stop_times[i]);
        i += 1;
        assert(r@ =~= stop_times@.take(i as int));
    }
    assert(r@ =~= stop_times@);
    r
}

impl RealTimeModel {
    /// What the data must do for the dates `added` that are added to its days, the base
    /// schedule having `nb_of_base` vehicle journeys: for each date, each base vehicle
    /// journey gets the stop times of its last version when that keeps its trip and its base
    /// schedule otherwise, then each new vehicle journey whose last version keeps its trip
    /// gets its stop times
    pub fn changes_for_new_days(&self, nb_of_base: usize, added: &[Date]) -> (r: Vec<DayChange>)
        requires
            self.wf(),
        ensures
            r@.map_values(|change: DayChange| day_change_view(change)) == days_changes(
                *self,
                nb_of_base as nat,
                added@,
            ),
    {
        let ghost view = |change: DayChange| day_change_view(change);
        let mut r: Vec<DayChange> = Vec::new();
        let mut d: usize = 0;
        while d < added.len()
            invariant
                self.wf(),
                d <= added@.len(),
                view == (|change: DayChange| day_change_view(change)),
                r@.map_values(view) == days_changes(*self, nb_of_base as nat, added@.take(d as int)),
            decreases added@.len() - d,
        {
            let date = added[d];
            let day = date.days_from_ce;
            let ghost before = r@.map_values(view);
            let mut vj: usize = 0;
            while vj < nb_of_base
                invariant
                    self.wf(),
                    vj <= nb_of_base,
                    day == date.days_from_ce,
                    view == (|change: DayChange| day_change_view(change)),
                    r@.map_values(view) == before + base_day_changes(*self, vj as nat, day as int),
                decreases nb_of_base - vj,
            {
                let ghost prev = r@;
                match self.base_vehicle_journey_last_version(vj, &date) {
                    Some(TripData::Present(stop_times)) => {
                        r.push(DayChange::AddVersion(VehicleJourneyIdx::Base(vj), copy_stop_times(stop_times), date));
                    },
                    _ => {
                        r.push(DayChange::InsertBase(vj, date));
                    },
                }
                proof {
                    assert(r@.map_values(view) =~= prev.map_values(view).push(view(r@.last())));
                }
                vj += 1;
            }
            let ghost middle = r@.map_values(view);
            let nb_of_new = self.nb_of_new_vehicle_journeys();
            let mut pos: usize = 0;
            while pos < nb_of_new
                invariant
                    self.wf(),
                    pos <= nb_of_new,
                    nb_of_new == self.new_ids().len(),
                    day == date.days_from_ce,
                    view == (|change: DayChange| day_change_view(change)),
                    r@.map_values(view) == middle + new_day_changes(*self, pos as nat, day as int),
                decreases nb_of_new - pos,
            {
                let ghost prev = r@;
                let idx = NewVehicleJourneyIdx { idx: pos };
                match self.new_vehicle_journey_last_version(&idx, &date) {
                    Some(TripData::Present(stop_times)) => {
                        r.push(DayChange::AddVersion(VehicleJourneyIdx::New(idx), copy_stop_times(stop_times), date));
                        proof {
                            assert(r@.map_values(view) =~= prev.map_values(view).push(view(r@.last())));
                        }
                    },
                    _ => {},
                }
                pos += 1;
            }
            proof {
                let taken = added@.take(d + 1);
                assert(taken.drop_last() =~= added@.take(d as int));
                assert(taken.last() == date);
                assert(r@.map_values(view) =~= days_changes(*self, nb_of_base as nat, added@.take(d as int))
                    + base_day_changes(*self, nb_of_base as nat, day as int) + new_day_changes(
                    *self,
                    self.new_ids().len(),
                    day as int,
                ));
            }
            d += 1;
        }
        proof {
            assert(added@.take(d as int) =~= added@);
        }
        r
    }
}

} // verus!
