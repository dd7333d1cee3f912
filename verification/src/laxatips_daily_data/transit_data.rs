use std::collections::HashMap;

use vstd::prelude::*;

use super::time::{Calendar, PositiveDuration};
use crate::laxatips_data::timetables::timetables_data::{FlowDirection, Position, Timetable, Vehicle};

verus! {

broadcast use vstd::std_specs::hash::group_hash_axioms;

/// A stop, by its index
#[derive(Debug, PartialEq, Eq, Structural, Clone, Copy, Hash, Ord, PartialOrd)]
pub struct Stop {
    pub idx: usize,
}

/// A transfer, by its start stop and its index among the transfers of that stop
#[derive(Debug, PartialEq, Eq, Structural, Clone, Copy)]
pub struct Transfer {
    pub stop: Stop,
    pub idx_in_stop_transfers: usize,
}

/// A mission: the vehicles of a timetable
#[derive(Debug, PartialEq, Eq, Structural, Clone, Copy, Hash)]
pub struct Mission {
    pub timetable: Timetable,
}

/// A trip: a vehicle of a mission
#[derive(Debug, PartialEq, Eq, Structural, Clone, Copy)]
pub struct Trip {
    pub vehicle: Vehicle,
}

/// What the data knows of a stop: the stop point of the base model that it stands for, its
/// positions in the timetables, and its transfers (to a stop, with a duration and the index of
/// the transfer in the base model)
pub struct StopData {
    pub stop_point_idx: usize,
    pub position_in_timetables: Vec<Position>,
    pub transfers: Vec<(Stop, PositiveDuration, usize)>,
}

/// The stops of the data, each found from its stop point of the base model, and the calendar
/// of the data
pub struct TransitData {
    stop_point_idx_to_stop: HashMap<usize, Stop>,
    stops_data: Vec<StopData>,
    pub calendar: Calendar,
}

/// The flow of a stop time whose pickup type is `pickup_type` and whose drop off type is
/// `drop_off_type`, when the pair is one that the data handles
pub open spec fn flow_of_types(pickup_type: u8, drop_off_type: u8) -> Option<FlowDirection> {
    if pickup_type == 0 && drop_off_type == 0 {
        Some(FlowDirection::BoardAndDebark)
    } else if pickup_type == 1 && drop_off_type == 0 {
        Some(FlowDirection::DebarkOnly)
    } else if pickup_type == 0 && drop_off_type == 1 {
        Some(FlowDirection::BoardOnly)
    } else {
        None
    }
}

/// The stop points `known`, followed by each of `stop_points` that the ones before do not
/// hold, in their order
pub open spec fn with_new_points(known: Seq<usize>, stop_points: Seq<usize>) -> Seq<usize>
    decreases stop_points.len(),
{
    if stop_points.len() == 0 {
        known
    } else {
        let before = with_new_points(known, stop_points.drop_last());
        if before.contains(stop_points.last()) {
            before
        } else {
            before.push(stop_points.last())
        }
    }
}

impl TransitData {
    /// The data of the stops, each at the index of its stop
    pub closed spec fn stops(&self) -> Seq<StopData> {
        self.stops_data@
    }

    /// The calendar of the data
    pub closed spec fn data_calendar(&self) -> Calendar {
        self.calendar
    }

    /// The stop point of each stop, in the order of the stops
    pub open spec fn stop_points(&self) -> Seq<usize> {
        self.stops().map_values(|data: StopData| data.stop_point_idx)
    }

    /// The stop of the stop point `stop_point_idx`, when the data has one
    pub open spec fn stop_of_point(&self, stop_point_idx: usize) -> Option<Stop> {
        if self.stop_points().contains(stop_point_idx) {
            Some(Stop { idx: self.stop_points().index_of(stop_point_idx) as usize })
        } else {
            None
        }
    }

    /// No two stops stand for the same stop point, each stop point is found at its stop, and
    /// each transfer goes to a stop.
    pub closed spec fn wf(&self) -> bool {
        &&& self.stop_points().no_duplicates()
        &&& forall|sp: usize|
            #[trigger] self.stop_point_idx_to_stop@.contains_key(sp) <==> self.stop_points().contains(sp)
        &&& forall|i: int|
            0 <= i < self.stops_data@.len() ==> self.stop_point_idx_to_stop@[#[trigger] self.stops_data@[i].stop_point_idx].idx
                == i
        &&& forall|i: int, j: int|
            0 <= i < self.stops_data@.len() && 0 <= j < self.stops_data@[i].transfers@.len()
                ==> (#[trigger] self.stops_data@[i].transfers@[j]).0.idx < self.stops_data@.len()
    }

    /// Data with no stop, over `calendar`
    pub fn empty(calendar: Calendar) -> (r: Self)
        ensures
            r.wf(),
            r.stops().len() == 0,
            r.data_calendar() == calendar,
    {
        let r = TransitData { stop_point_idx_to_stop: HashMap::new(), stops_data: Vec::new(), calendar };
        assert(r.stop_points() =~= Seq::<usize>::empty());
        r
    }

    /// The data of `stop`
    pub fn stop_data(&self, stop: &Stop) -> (r: &StopData)
        requires
            stop.idx < self.stops().len(),
        ensures
            *r == self.stops()[stop.idx as int],
    {
        &self.stops_data[stop.idx]
    }

    /// The end stop and the duration of `transfer`
    pub fn transfer(&self, transfer: &Transfer) -> (r: (Stop, PositiveDuration))
        requires
            transfer.stop.idx < self.stops().len(),
            transfer.idx_in_stop_transfers < self.stops()[transfer.stop.idx as int].transfers@.len(),
        ensures
            r.0 == self.stops()[transfer.stop.idx as int].transfers@[transfer.idx_in_stop_transfers as int].0,
            r.1 == self.stops()[transfer.stop.idx as int].transfers@[transfer.idx_in_stop_transfers as int].1,
    {
        let stop_data = self.stop_data(&transfer.stop);
        let result = stop_data.transfers[transfer.idx_in_stop_transfers];
        (result.0, result.1)
    }

    /// The stop where `transfer` starts
    pub fn transfer_start_stop(&self, transfer: &Transfer) -> (r: Stop)
        ensures
            r == transfer.stop,
    {
        transfer.stop
    }

    /// The number of stops
    pub fn nb_of_stops(&self) -> (r: usize)
        ensures
            r == self.stops().len(),
    {
        self.stops_data.len()
    }

    /// The index of `stop`
    pub fn stop_to_usize(&self, stop: &Stop) -> (r: usize)
        ensures
            r == stop.idx,
    {
        stop.idx
    }

    /// The stop of the stop point `stop_point_idx`, when the data has one
    pub fn stop_point_idx_to_stop(&self, stop_point_idx: &usize) -> (r: Option<&Stop>)
        requires
            self.wf(),
        ensures
            match r {
                Some(stop) => self.stop_of_point(*stop_point_idx) == Some(*stop),
                None => self.stop_of_point(*stop_point_idx) is None,
            },
    {
        let r = self.stop_point_idx_to_stop.get(stop_point_idx);
        proof {
            if self.stop_points().contains(*stop_point_idx) {
                let i = self.stop_points().index_of(*stop_point_idx);
                assert(self.stops_data@[i].stop_point_idx == *stop_point_idx);
            }
        }
        r
    }

    /// The stop point of `stop`
    pub fn stop_point_idx(&self, stop: &Stop) -> (r: usize)
        requires
            stop.idx < self.stops().len(),
        ensures
            r == self.stop_points()[stop.idx as int],
    {
        self.stops_data[stop.idx].stop_point_idx
    }

    /// The index in the base model of `transfer`
    pub fn transfer_idx(&self, transfer: &Transfer) -> (r: usize)
        requires
            transfer.stop.idx < self.stops().len(),
            transfer.idx_in_stop_transfers < self.stops()[transfer.stop.idx as int].transfers@.len(),
        ensures
            r == self.stops()[transfer.stop.idx as int].transfers@[transfer.idx_in_stop_transfers as int].2,
    {
        let stop_data = self.stop_data(&transfer.stop);
        let result = stop_data.transfers[transfer.idx_in_stop_transfers];
        result.2
    }
}

/// A stop time, as far as its flows go: its stop point, its pickup type and its drop off type
#[derive(Debug, Clone, Copy)]
pub struct StopTimeFlows {
    pub stop_point_idx: usize,
    pub pickup_type: u8,
    pub drop_off_type: u8,
}

/// `i` is the first stop time of `stop_times` whose flow the data does not handle.
pub open spec fn is_first_unhandled(stop_times: Seq<StopTimeFlows>, i: int) -> bool {
    &&& 0 <= i < stop_times.len()
    &&& flow_of_types(stop_times[i].pickup_type, stop_times[i].drop_off_type) is None
    &&& forall|j: int|
        0 <= j < i ==> flow_of_types(
            (#[trigger] stop_times[j]).pickup_type,
            stop_times[j].drop_off_type,
        ) is Some
}

/// The number of stop times of `stop_times` that are read: up to the first whose flow the
/// data does not handle, included, or all of them
pub open spec fn nb_read(stop_times: Seq<StopTimeFlows>) -> nat {
    if exists|i: int| is_first_unhandled(stop_times, i) {
        (choose|i: int| is_first_unhandled(stop_times, i)) as nat + 1
    } else {
        stop_times.len()
    }
}

/// Every stop time of `stop_times` has a flow that the data handles.
pub open spec fn all_handled(stop_times: Seq<StopTimeFlows>) -> bool {
    forall|i: int|
        0 <= i < stop_times.len() ==> flow_of_types(
            (#[trigger] stop_times[i]).pickup_type,
            stop_times[i].drop_off_type,
        ) is Some
}

/// The stop points of `stop_times`, in their order
pub open spec fn points_of(stop_times: Seq<StopTimeFlows>) -> Seq<usize> {
    stop_times.map_values(|stop_time: StopTimeFlows| stop_time.stop_point_idx)
}

/// The flow of the stop time `i` of a vehicle journey of stop times `stop_times`: travelers
/// only board at the first one and only debark at the last one
pub open spec fn flow_at(stop_times: Seq<StopTimeFlows>, i: int) -> FlowDirection {
    if i == 0 {
        FlowDirection::BoardOnly
    } else if i == stop_times.len() - 1 {
        FlowDirection::DebarkOnly
    } else {
        flow_of_types(stop_times[i].pickup_type, stop_times[i].drop_off_type)->0
    }
}

/// In a sequence without duplicates, an element is at its only position.
proof fn lemma_index_of_unique(s: Seq<usize>, x: usize, i: int)
    requires
        s.no_duplicates(),
        0 <= i < s.len(),
        s[i] == x,
    ensures
        s.index_of(x) == i,
{
    assert(s.contains(x));
    let j = s.index_of(x);
    assert(s[j] == x);
}

impl TransitData {
    /// `after` is `self` with a stop for each stop point of `stop_points` that has none, in
    /// their order, with no position and no transfer, the other stops being unchanged.
    pub open spec fn extends_with_points(&self, after: Self, stop_points: Seq<usize>) -> bool {
        &&& after.stop_points() == with_new_points(self.stop_points(), stop_points)
        &&& after.stops().len() >= self.stops().len()
        &&& forall|i: int| 0 <= i < self.stops().len() ==> #[trigger] after.stops()[i] == self.stops()[i]
        &&& forall|i: int|
            self.stops().len() <= i < after.stops().len() ==> (#[trigger] after.stops()[i]).position_in_timetables@.len()
                == 0 && after.stops()[i].transfers@.len() == 0
        &&& after.data_calendar() == self.data_calendar()
    }

    /// Adds a stop for the stop point `stop_point_idx`, which has none
    fn add_new_stop_point(&mut self, stop_point_idx: usize) -> (r: Stop)
        requires
            old(self).wf(),
            !old(self).stop_points().contains(stop_point_idx),
        ensures
            final(self).wf(),
            r.idx == old(self).stops().len(),
            final(self).stop_points() == old(self).stop_points().push(stop_point_idx),
            old(self).extends_with_points(*final(self), seq![stop_point_idx]),
    {
        let stop_data = StopData {
            stop_point_idx,
            position_in_timetables: Vec::new(),
            transfers: Vec::new(),
        };
        let stop = Stop { idx: self.stops_data.len() };
        self.stops_data.push(stop_data);
        self.stop_point_idx_to_stop.insert(stop_point_idx, stop);
        proof {
            assert(self.stop_points() =~= old(self).stop_points().push(stop_point_idx));
            assert(seq![stop_point_idx].drop_last() =~= Seq::<usize>::empty());
            assert(with_new_points(old(self).stop_points(), Seq::<usize>::empty()) == old(self).stop_points());
            assert(with_new_points(old(self).stop_points(), seq![stop_point_idx]) == old(self).stop_points().push(
                stop_point_idx,
            ));
            assert forall|i: int| 0 <= i < old(self).stops().len() implies #[trigger] self.stops()[i]
                == old(self).stops()[i] by {}
            assert forall|i: int| 0 <= i < self.stops_data@.len() implies
                self.stop_point_idx_to_stop@[#[trigger] self.stops_data@[i].stop_point_idx].idx == i by {
                if i < old(self).stops_data@.len() {
                    assert(old(self).stop_points()[i] == self.stops_data@[i].stop_point_idx);
                }
            }
            assert forall|sp: usize| #[trigger] self.stop_point_idx_to_stop@.contains_key(sp)
                <==> self.stop_points().contains(sp) by {
                if self.stop_points().contains(sp) && sp != stop_point_idx {
                    let k = choose|k: int| 0 <= k < self.stop_points().len() && self.stop_points()[k] == sp;
                    assert(old(self).stop_points()[k] == sp);
                }
                if self.stop_point_idx_to_stop@.contains_key(sp) {
                    if sp == stop_point_idx {
                        assert(self.stop_points()[old(self).stops().len() as int] == sp);
                    } else {
                        assert(old(self).stop_point_idx_to_stop@.contains_key(sp));
                        let k = choose|k: int| 0 <= k < old(self).stop_points().len() && old(self).stop_points()[k] == sp;
                        assert(self.stop_points()[k] == sp);
                    }
                }
            }
        }
        stop
    }

    /// The stops and flows of a vehicle journey of stop times `stop_times`, each stop point
    /// getting a stop when it has none; an error when a pickup and drop off types are not
    /// handled, which ends the reading, or when there are fewer than two stop times
    pub fn create_stop_flows(&mut self, stop_times: &[StopTimeFlows]) -> (r: Result<
        Vec<(Stop, FlowDirection)>,
        (),
    >)
        requires
            old(self).wf(),
        ensures
            final(self).wf(),
            old(self).extends_with_points(
                *final(self),
                points_of(stop_times@).take(nb_read(stop_times@) as int),
            ),
            r is Ok <==> all_handled(stop_times@) && stop_times@.len() >= 2,
            r matches Ok(flows) ==> flows@.len() == stop_times@.len() && forall|i: int|
                0 <= i < flows@.len() ==> final(self).stop_of_point(stop_times@[i].stop_point_idx)
                    == Some((#[trigger] flows@[i]).0) && flows@[i].1 == flow_at(stop_times@, i),
    {
        let mut result: Vec<(Stop, FlowDirection)> = Vec::new();
        let mut i: usize = 0;
        while i < stop_times.len()
            invariant
                self.wf(),
                i <= stop_times@.len(),
                result@.len() == i,
                old(self).extends_with_points(*self, points_of(stop_times@).take(i as int)),
                forall|j: int|
                    0 <= j < i ==> flow_of_types(
                        (#[trigger] stop_times@[j]).pickup_type,
                        stop_times@[j].drop_off_type,
                    ) == Some(result@[j].1),
                forall|j: int|
                    0 <= j < i ==> (#[trigger] result@[j]).0.idx < self.stops().len()
                        && self.stop_points()[result@[j].0.idx as int] == stop_times@[j].stop_point_idx,
            decreases stop_times@.len() - i,
        {
            let stop_time = stop_times[i];
            let ghost before = *self;
            let stop = match self.stop_point_idx_to_stop.get(&stop_time.stop_point_idx) {
                Some(stop) => *stop,
                None => self.add_new_stop_point(stop_time.stop_point_idx),
            };
            proof {
                let points = points_of(stop_times@).take(i + 1);
                assert(points.drop_last() =~= points_of(stop_times@).take(i as int));
                assert(points.last() == stop_time.stop_point_idx);
                if before.stop_points().contains(stop_time.stop_point_idx) {
                    let k = choose|k: int| 0 <= k < before.stop_points().len() && before.stop_points()[k] == stop_time.stop_point_idx;
                    assert(before.stops_data@[k].stop_point_idx == stop_time.stop_point_idx);
                    assert(stop.idx == k);
                    assert(with_new_points(old(self).stop_points(), points) == before.stop_points());
                } else {
                    assert(with_new_points(old(self).stop_points(), points) == before.stop_points().push(stop_time.stop_point_idx));
                }
                assert forall|j: int| 0 <= j < i implies (#[trigger] result@[j]).0.idx < self.stops().len()
                    && self.stop_points()[result@[j].0.idx as int] == stop_times@[j].stop_point_idx by {
                    assert(before.stop_points()[result@[j].0.idx as int] == stop_times@[j].stop_point_idx);
                    assert(self.stops()[result@[j].0.idx as int] == before.stops()[result@[j].0.idx as int]);
                }
                assert(self.stop_points()[stop.idx as int] == stop_time.stop_point_idx);
            }
            let flow = if stop_time.pickup_type == 0 && stop_time.drop_off_type == 0 {
                FlowDirection::BoardAndDebark
            } else if stop_time.pickup_type == 1 && stop_time.drop_off_type == 0 {
                FlowDirection::DebarkOnly
            } else if stop_time.pickup_type == 0 && stop_time.drop_off_type == 1 {
                FlowDirection::BoardOnly
            } else {
                proof {
                    assert(is_first_unhandled(stop_times@, i as int));
                    let f = choose|f: int| is_first_unhandled(stop_times@, f);
                    if f < i {
                        assert(flow_of_types(stop_times@[f].pickup_type, stop_times@[f].drop_off_type) == Some(result@[f].1));
                    } else if f > i {
                        assert(flow_of_types(stop_times@[i as int].pickup_type, stop_times@[i as int].drop_off_type) is Some);
                    }
                    assert(nb_read(stop_times@) == i + 1);
                }
                return Err(());
            };
            result.push((stop, flow));
            i += 1;
        }
        proof {
            assert(points_of(stop_times@).take(i as int) =~= points_of(stop_times@).take(stop_times@.len() as int));
            assert(!exists|f: int| is_first_unhandled(stop_times@, f)) by {
                if exists|f: int| is_first_unhandled(stop_times@, f) {
                    let f = choose|f: int| is_first_unhandled(stop_times@, f);
                    assert(flow_of_types(stop_times@[f].pickup_type, stop_times@[f].drop_off_type) == Some(result@[f].1));
                }
            }
            assert(all_handled(stop_times@)) by {
                assert forall|j: int| 0 <= j < stop_times@.len() implies flow_of_types(
                    (#[trigger] stop_times@[j]).pickup_type,
                    stop_times@[j].drop_off_type,
                ) is Some by {
                    assert(flow_of_types(stop_times@[j].pickup_type, stop_times@[j].drop_off_type) == Some(result@[j].1));
                }
            }
        }
        if result.len() < 2 {
            return Err(());
        }
        let first_stop = result[0].0;
        result.set(0, (first_stop, FlowDirection::BoardOnly));
        let last = result.len() - 1;
        let last_stop = result[last].0;
        result.set(last, (last_stop, FlowDirection::DebarkOnly));
        proof {
            assert forall|j: int| 0 <= j < result@.len() implies self.stop_of_point(
                stop_times@[j].stop_point_idx,
            ) == Some((#[trigger] result@[j]).0) && result@[j].1 == flow_at(stop_times@, j) by {
                lemma_index_of_unique(self.stop_points(), stop_times@[j].stop_point_idx, result@[j].0.idx as int);
                assert(flow_of_types(stop_times@[j].pickup_type, stop_times@[j].drop_off_type) is Some);
            }
        }
        Ok(result)
    }

    /// Adds to the transfers of the stop of `from_stop_point_idx` the transfer
    /// `transfer_idx` to the stop of `to_stop_point_idx`, of duration `duration`, when both
    /// stop points have a stop; nothing otherwise
    pub fn insert_transfer(
        &mut self,
        from_stop_point_idx: usize,
        to_stop_point_idx: usize,
        transfer_idx: usize,
        duration: PositiveDuration,
    )
        requires
            old(self).wf(),
        ensures
            final(self).wf(),
            final(self).stop_points() == old(self).stop_points(),
            final(self).data_calendar() == old(self).data_calendar(),
            match (old(self).stop_of_point(from_stop_point_idx), old(self).stop_of_point(to_stop_point_idx)) {
                (Some(from), Some(to)) => {
                    &&& final(self).stops().len() == old(self).stops().len()
                    &&& final(self).stops()[from.idx as int].transfers@ == old(self).stops()[from.idx as int].transfers@.push(
                        (to, duration, transfer_idx),
                    )
                    &&& final(self).stops()[from.idx as int].position_in_timetables@ == old(self).stops()[from.idx as int].position_in_timetables@
                    &&& forall|i: int|
                        0 <= i < old(self).stops().len() && i != from.idx ==> #[trigger] final(self).stops()[i]
                            == old(self).stops()[i]
                },
                _ => *final(self) == *old(self),
            },
    {
        let from = self.stop_point_idx_to_stop_copy(from_stop_point_idx);
        let to = self.stop_point_idx_to_stop_copy(to_stop_point_idx);
        match (from, to) {
            (Some(from_stop), Some(to_stop)) => {
                let ghost before = *self;
                self.stops_data[from_stop.idx].transfers.push((to_stop, duration, transfer_idx));
                proof {
                    assert(self.stop_points() =~= before.stop_points());
                    assert forall|i: int, j: int|
                        0 <= i < self.stops_data@.len() && 0 <= j < self.stops_data@[i].transfers@.len()
                            implies (#[trigger] self.stops_data@[i].transfers@[j]).0.idx < self.stops_data@.len() by {
                        if i == from_stop.idx && j == before.stops_data@[i].transfers@.len() {
                        } else {
                            assert(self.stops_data@[i].transfers@[j] == before.stops_data@[i].transfers@[j]);
                        }
                    }
                    assert forall|i: int| 0 <= i < self.stops_data@.len() implies
                        self.stop_point_idx_to_stop@[#[trigger] self.stops_data@[i].stop_point_idx].idx == i by {
                        assert(self.stops_data@[i].stop_point_idx == before.stops_data@[i].stop_point_idx);
                    }
                }
            },
            _ => {},
        }
    }

    /// The stop of the stop point `stop_point_idx`, when the data has one
    fn stop_point_idx_to_stop_copy(&self, stop_point_idx: usize) -> (r: Option<Stop>)
        requires
            self.wf(),
        ensures
            r == self.stop_of_point(stop_point_idx),
            r matches Some(stop) ==> stop.idx < self.stops().len(),
    {
        match self.stop_point_idx_to_stop(&stop_point_idx) {
            Some(stop) => Some(*stop),
            None => None,
        }
    }
}

} // verus!
