use vstd::prelude::*;

use crate::chain_decomposition::{accepts, comparable, first_at_least, insertion_index};
use crate::data::chain_decomposition::{
    first_not_below,
    lemma_order_of_le,
    lemma_order_of_none,
    lookup,
    order_of,
    to_usize,
};
use std::cmp::Ordering;

verus! {

/// The vehicles of a timetable, ordered by increasing debark times, each with its data, its
/// debark time at each position, and its board time at each position
struct OrderedTimetable<VehicleData> {
    vehicles_data: Vec<VehicleData>,
    debark_times_by_vehicle: Vec<Vec<u32>>,
    board_times_by_position: Vec<Vec<u32>>,
}

impl<VehicleData> OrderedTimetable<VehicleData> {
    /// The number of positions
    spec fn nb_positions(&self) -> nat {
        self.board_times_by_position@.len()
    }

    /// The vehicles, each with its data and its debark times, in order
    spec fn view(&self) -> Seq<(VehicleData, Seq<u32>)> {
        Seq::new(
            self.vehicles_data@.len(),
            |k: int| (self.vehicles_data@[k], self.debark_times_by_vehicle@[k]@),
        )
    }

    /// The debark times of the vehicle at `k`
    spec fn vehicle_times(&self, k: usize) -> Seq<u32> {
        self.view()[k as int].1
    }

    /// The board times of the vehicles at `position`, in order
    spec fn board_row(&self, position: int) -> Seq<u32> {
        self.board_times_by_position@[position]@
    }

    /// There is a position, each vehicle has a debark time and a board time at each of them.
    spec fn wf(&self) -> bool {
        &&& self.board_times_by_position@.len() >= 1
        &&& self.debark_times_by_vehicle@.len() == self.vehicles_data@.len()
        &&& forall|k: int|
            0 <= k < self.vehicles_data@.len() ==> (#[trigger] self.debark_times_by_vehicle@[k])@.len()
                == self.board_times_by_position@.len()
        &&& forall|p: int|
            0 <= p < self.board_times_by_position@.len() ==> (#[trigger] self.board_times_by_position@[p])@.len()
                == self.vehicles_data@.len()
    }

    /// An empty timetable of `nb_of_positions` positions
    fn new(nb_of_positions: usize) -> (r: Self)
        requires
            nb_of_positions >= 1,
        ensures
            r.wf(),
            r.nb_positions() == nb_of_positions,
            r.view() == Seq::<(VehicleData, Seq<u32>)>::empty(),
    {
        let mut board_times_by_position: Vec<Vec<u32>> = Vec::new();
        let mut p: usize = 0;
        while p < nb_of_positions
            invariant
                p <= nb_of_positions,
                board_times_by_position@.len() == p,
                forall|q: int| 0 <= q < p ==> (#[trigger] board_times_by_position@[q])@.len() == 0,
            decreases nb_of_positions - p,
        {
            board_times_by_position.push(Vec::new());
            p += 1;
        }
        let r = OrderedTimetable {
            vehicles_data: Vec::new(),
            debark_times_by_vehicle: Vec::new(),
            board_times_by_position,
        };
        assert(r.view() =~= Seq::<(VehicleData, Seq<u32>)>::empty());
        r
    }

    /// The number of positions
    fn nb_of_positions(&self) -> (r: usize)
        ensures
            r == self.nb_positions(),
    {
        self.board_times_by_position.len()
    }

    /// The number of vehicles
    fn nb_of_vehicles(&self) -> (r: usize)
        ensures
            r == self.view().len(),
    {
        self.vehicles_data.len()
    }

    /// The debark time of `vehicle_idx` at `pos_idx`
    fn debark_time_at(&self, vehicle_idx: usize, pos_idx: usize) -> (r: &u32)
        requires
            self.wf(),
            vehicle_idx < self.view().len(),
            pos_idx < self.nb_positions(),
        ensures
            *r == self.view()[vehicle_idx as int].1[pos_idx as int],
    {
        &self.debark_times_by_vehicle[vehicle_idx][pos_idx]
    }

    /// The debark times of `vehicle_idx`, position after position
    fn vehicle_debark_times(&self, vehicle_idx: usize) -> (r: &[u32])
        requires
            self.wf(),
            vehicle_idx < self.view().len(),
        ensures
            r@ == self.view()[vehicle_idx as int].1,
    {
        self.debark_times_by_vehicle[vehicle_idx].as_slice()
    }

    /// How `debark_times` compares with the debark times of `vehicle_idx`
    fn partial_cmp(&self, vehicle_idx: usize, debark_times: &[u32]) -> (r: Option<Ordering>)
        requires
            self.wf(),
            vehicle_idx < self.view().len(),
            debark_times@.len() == self.nb_positions(),
        ensures
            r == order_of(debark_times@, self.vehicle_times(vehicle_idx)),
    {
        let vehicle_times = self.vehicle_debark_times(vehicle_idx);
        let mut all_lower = true;
        let mut all_greater = true;
        let mut p: usize = 0;
        while p < debark_times.len()
            invariant
                vehicle_times@.len() == debark_times@.len(),
                p <= debark_times@.len(),
                all_lower == forall|q: int| 0 <= q < p ==> #[trigger] debark_times@[q] <= vehicle_times@[q],
                all_greater == forall|q: int| 0 <= q < p ==> #[trigger] vehicle_times@[q] <= debark_times@[q],
            decreases debark_times@.len() - p,
        {
            if debark_times[p] > vehicle_times[p] {
                all_lower = false;
            }
            if debark_times[p] < vehicle_times[p] {
                all_greater = false;
            }
            p += 1;
        }
        if all_lower && all_greater {
            assert(debark_times@ =~= vehicle_times@);
            Some(Ordering::Equal)
        } else if all_lower {
            Some(Ordering::Less)
        } else if all_greater {
            assert(!(debark_times@ =~= vehicle_times@));
            Some(Ordering::Greater)
        } else {
            None
        }
    }

    /// `true` when `debark_times` is comparable with the debark times of every vehicle
    fn accept(&self, debark_times: &[u32]) -> (r: bool)
        requires
            self.wf(),
            debark_times@.len() == self.nb_positions(),
        ensures
            r == accepts(self.view(), debark_times@),
    {
        let mut k: usize = 0;
        while k < self.nb_of_vehicles()
            invariant
                self.wf(),
                debark_times@.len() == self.nb_positions(),
                k <= self.view().len(),
                forall|j: int| 0 <= j < k ==> comparable(debark_times@, #[trigger] self.view()[j].1),
            decreases self.view().len() - k,
        {
            let r = self.partial_cmp(k, debark_times);
            proof {
                lemma_order_of_none(debark_times@, self.vehicle_times(k));
            }
            if r.is_none() {
                return false;
            }
            k += 1;
        }
        true
    }

    /// Where a vehicle of debark times `debark_times` goes: just before the first vehicle
    /// whose debark times are greater than or equal to `debark_times`, or at the end
    fn insertion_idx(&self, debark_times: &[u32]) -> (r: usize)
        requires
            self.wf(),
            debark_times@.len() == self.nb_positions(),
        ensures
            r == insertion_index(self.view(), debark_times@),
            r <= self.view().len(),
    {
        let ghost items = self.view();
        let nb_of_vehicles = self.nb_of_vehicles();
        let ghost mut i: int = 0;
        let mut idx: usize = 0;
        while idx < nb_of_vehicles
            invariant
                self.wf(),
                debark_times@.len() == self.nb_positions(),
                items == self.view(),
                nb_of_vehicles == items.len(),
                i == idx,
                idx <= nb_of_vehicles,
                first_at_least(items, debark_times@, 0) == first_at_least(items, debark_times@, i),
            decreases nb_of_vehicles - idx,
        {
            let r = self.partial_cmp(idx, debark_times);
            proof {
                lemma_order_of_le(debark_times@, items[i].1);
            }
            let found = match r {
                Some(Ordering::Equal) => true,
                Some(Ordering::Less) => true,
                _ => false,
            };
            if found {
                proof {
                    assert(first_at_least(items, debark_times@, i) == idx);
                }
                return idx;
            }
            proof {
                assert(first_at_least(items, debark_times@, i) == first_at_least(
                    items,
                    debark_times@,
                    idx + 1,
                ));
                i = i + 1;
            }
            idx += 1;
        }
        nb_of_vehicles
    }

    /// Inserts a vehicle of data `vehicle_data`, debark times `debark_times` and board times
    /// `board_times` at `insert_idx`
    fn insert_at(&mut self, insert_idx: usize, debark_times: &[u32], board_times: &[u32], vehicle_data: VehicleData)
        requires
            old(self).wf(),
            debark_times@.len() == old(self).nb_positions(),
            board_times@.len() == old(self).nb_positions(),
            insert_idx <= old(self).view().len(),
        ensures
            final(self).wf(),
            final(self).nb_positions() == old(self).nb_positions(),
            final(self).view() == old(self).view().insert(insert_idx as int, (vehicle_data, debark_times@)),
            forall|p: int|
                0 <= p < old(self).nb_positions() ==> #[trigger] final(self).board_row(p) == old(
                    self,
                ).board_row(p).insert(insert_idx as int, board_times@[p]),
    {
        let ghost items = self.view();
        let nb_of_positions = self.board_times_by_position.len();
        let mut pos: usize = 0;
        while pos < nb_of_positions
            invariant
                nb_of_positions == self.board_times_by_position@.len(),
                nb_of_positions == old(self).board_times_by_position@.len(),
                board_times@.len() == nb_of_positions,
                pos <= nb_of_positions,
                self.vehicles_data == old(self).vehicles_data,
                self.debark_times_by_vehicle == old(self).debark_times_by_vehicle,
                insert_idx <= self.vehicles_data@.len(),
                forall|p: int|
                    0 <= p < pos ==> (#[trigger] self.board_times_by_position@[p])@ == old(
                        self,
                    ).board_times_by_position@[p]@.insert(insert_idx as int, board_times@[p]),
                forall|p: int|
                    pos <= p < nb_of_positions ==> (#[trigger] self.board_times_by_position@[p])@ == old(
                        self,
                    ).board_times_by_position@[p]@,
                forall|p: int|
                    0 <= p < nb_of_positions ==> (#[trigger] old(self).board_times_by_position@[p])@.len()
                        == self.vehicles_data@.len(),
            decreases nb_of_positions - pos,
        {
            self.board_times_by_position[pos].insert(insert_idx, board_times[pos]);
            pos += 1;
        }
        let mut times: Vec<u32> = Vec::new();
        let mut p: usize = 0;
        while p < debark_times.len()
            invariant
                p <= debark_times@.len(),
                times@ == debark_times@.take(p as int),
            decreases debark_times@.len() - p,
        {
            times.push(debark_times[p]);
            p += 1;
            assert(times@ =~= debark_times@.take(p as int));
        }
        assert(times@ =~= debark_times@);
        self.debark_times_by_vehicle.insert(insert_idx, times);
        self.vehicles_data.insert(insert_idx, vehicle_data);
        proof {
            let new_view = self.view();
            assert(new_view =~= items.insert(insert_idx as int, (vehicle_data, debark_times@)));
        }
    }

    /// Inserts a vehicle of data `vehicle_data`, debark times `debark_times` and board times
    /// `board_times`, just before the first vehicle whose debark times are greater than or
    /// equal to `debark_times`, or at the end
    fn insert(&mut self, debark_times: &[u32], board_times: &[u32], vehicle_data: VehicleData)
        requires
            old(self).wf(),
            debark_times@.len() == old(self).nb_positions(),
            board_times@.len() == old(self).nb_positions(),
        ensures
            final(self).wf(),
            final(self).nb_positions() == old(self).nb_positions(),
            final(self).view() == old(self).view().insert(
                insertion_index(old(self).view(), debark_times@),
                (vehicle_data, debark_times@),
            ),
            forall|p: int|
                0 <= p < old(self).nb_positions() ==> #[trigger] final(self).board_row(p) == old(
                    self,
                ).board_row(p).insert(insertion_index(old(self).view(), debark_times@), board_times@[p]),
    {
        let insert_idx = self.insertion_idx(debark_times);
        self.insert_at(insert_idx, debark_times, board_times, vehicle_data);
    }

    /// The vehicle found for a traveler waiting at `position` since `waiting_time`: the first
    /// vehicle that can be boarded there at or after `waiting_time`; none when there is none
    fn get_best_vehicle_to_board_at(&self, waiting_time: &u32, position: usize) -> (r: Option<usize>)
        requires
            self.wf(),
            position < self.nb_positions(),
        ensures
            r == to_usize(lookup(self.board_row(position as int), *waiting_time)),
    {
        let row = &self.board_times_by_position[position];
        let ghost mut i: int = 0;
        let mut idx: usize = 0;
        while idx < row.len()
            invariant
                row@ == self.board_row(position as int),
                i == idx,
                idx <= row@.len(),
                first_not_below(row@, *waiting_time, 0) == first_not_below(row@, *waiting_time, i),
            decreases row@.len() - idx,
        {
            if row[idx] >= *waiting_time {
                proof {
                    assert(first_not_below(row@, *waiting_time, i) == idx);
                }
                return Some(idx);
            }
            proof {
                assert(first_not_below(row@, *waiting_time, i) == first_not_below(
                    row@,
                    *waiting_time,
                    idx + 1,
                ));
                i = i + 1;
            }
            idx += 1;
        }
        None
    }
}

} // verus!
