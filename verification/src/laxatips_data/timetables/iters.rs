use vstd::prelude::*;

use super::timetables_data::{Position, Timetable, Timetables, Vehicle};
use std::ops::Range;

verus! {

impl<VehicleData> Timetables<VehicleData> {
    /// All the timetables, in order
    pub fn timetables(&self) -> (r: Vec<Timetable>)
        ensures
            r@.len() == self@.len(),
            forall|t: int| 0 <= t < r@.len() ==> (#[trigger] r@[t]).idx == t,
    {
        let mut r: Vec<Timetable> = Vec::new();
        let mut idx: usize = 0;
        let n = self.nb_of_timetables();
        while idx < n
            invariant
                n == self@.len(),
                idx <= n,
                r@.len() == idx,
                forall|t: int| 0 <= t < r@.len() ==> (#[trigger] r@[t]).idx == t,
            decreases n - idx,
        {
            r.push(Timetable { idx });
            idx += 1;
        }
        r
    }

    /// The vehicles of `timetable`, in order
    pub fn vehicles(&self, timetable: &Timetable) -> (r: VehiclesIter)
        requires
            timetable.idx < self@.len(),
        ensures
            r.view() == (*timetable, 0int, self@[timetable.idx as int].vehicles().len() as int),
    {
        let timetable_data = self.timetable_data(timetable);
        let nb_of_vehicles = timetable_data.nb_of_vehicles();
        VehiclesIter::new(*timetable, 0..nb_of_vehicles)
    }

    /// The positions of `timetable`, in order
    pub fn positions(&self, timetable: &Timetable) -> (r: PositionsIter)
        requires
            self.wf(),
            timetable.idx < self@.len(),
        ensures
            r.view() == (*timetable, 0int, self@[timetable.idx as int].stop_flows().len() as int),
    {
        proof {
            self.lemma_timetables_wf();
        }
        let nb_of_position = self.timetable_data(timetable).nb_of_positions();
        PositionsIter::new(*timetable, 0..nb_of_position)
    }
}

/// The `n` positions of `timetable`, in order: the `k`-th one has index `k`
pub open spec fn positions_of(timetable: Timetable, n: nat) -> Seq<Position> {
    Seq::new(n, |k: int| Position { timetable, idx: k as usize })
}

impl<VehicleData> Timetables<VehicleData> {
    /// The positions of `timetable`, in order, as the iterator `positions` gives them
    pub fn positions_list(&self, timetable: &Timetable) -> (r: Vec<Position>)
        requires
            self.wf(),
            timetable.idx < self@.len(),
        ensures
            r@ == positions_of(*timetable, self@[timetable.idx as int].stop_flows().len()),
    {
        let mut iter = self.positions(timetable);
        let ghost n = self@[timetable.idx as int].stop_flows().len() as int;
        let mut r: Vec<Position> = Vec::new();
        let mut current = iter.next();
        while current.is_some()
            invariant
                iter.view().0 == *timetable,
                iter.view().2 == n,
                0 <= r@.len() <= n,
                current matches Some(p) ==> p == (Position { timetable: *timetable, idx: r@.len() as usize })
                    && r@.len() < n && iter.view().1 == r@.len() + 1,
                current is None ==> r@.len() == n,
                r@ == positions_of(*timetable, r@.len()),
            decreases n - r@.len(),
        {
            let position = current.unwrap();
            r.push(position);
            assert(r@ =~= positions_of(*timetable, r@.len()));
            current = iter.next();
        }
        r
    }

    /// Walking the positions of a timetable in order, each one is the one after the one
    /// before it: the `k`-th position has index `k`, and the position after it is the
    /// `k + 1`-th one, or none after the last one.
    pub proof fn lemma_positions_follow(&self, timetable: Timetable, k: int)
        requires
            self.wf(),
            timetable.idx < self@.len(),
            0 <= k < self@[timetable.idx as int].stop_flows().len(),
        ensures
            ({
                let n = self@[timetable.idx as int].stop_flows().len();
                let positions = positions_of(timetable, n);
                &&& positions[k].idx == k
                &&& positions[k].timetable == timetable
                &&& self.next_position_of(positions[k]) == if k + 1 < n {
                    Some(positions[k + 1])
                } else {
                    None::<Position>
                }
            }),
    {
        self@[timetable.idx as int].lemma_positions_bound();
    }
}

/// The positions of a timetable, in order
pub struct PositionsIter {
    timetable: Timetable,
    position_idxs: Range<usize>,
}

impl PositionsIter {
    /// The timetable, the index of the next position and the index at which to stop
    pub closed spec fn view(&self) -> (Timetable, int, int) {
        (self.timetable, self.position_idxs.start as int, self.position_idxs.end as int)
    }

    /// The positions of `timetable` whose index is in `position_idxs`
    pub fn new(timetable: Timetable, position_idxs: Range<usize>) -> (r: Self)
        ensures
            r.view() == (timetable, position_idxs.start as int, position_idxs.end as int),
    {
        Self { timetable, position_idxs }
    }

    /// The next position, if any is left
    pub fn next(&mut self) -> (r: Option<Position>)
        ensures
            ({
                let (timetable, next, end) = old(self).view();
                &&& next < end ==> r == Some(Position { timetable, idx: next as usize })
                    && final(self).view() == (timetable, next + 1, end)
                &&& next >= end ==> r is None && final(self).view() == old(self).view()
            }),
    {
        if self.position_idxs.start < self.position_idxs.end {
            let idx = self.position_idxs.start;
            self.position_idxs.start = idx + 1;
            Some(Position { timetable: self.timetable, idx })
        } else {
            None
        }
    }
}

/// The vehicles of a timetable, in order
pub struct VehiclesIter {
    timetable: Timetable,
    vehicle_idxs: Range<usize>,
}

impl VehiclesIter {
    /// The timetable, the index of the next vehicle and the index at which to stop
    pub closed spec fn view(&self) -> (Timetable, int, int) {
        (self.timetable, self.vehicle_idxs.start as int, self.vehicle_idxs.end as int)
    }

    /// The vehicles of `timetable` whose index is in `vehicle_idxs`
    pub fn new(timetable: Timetable, vehicle_idxs: Range<usize>) -> (r: Self)
        ensures
            r.view() == (timetable, vehicle_idxs.start as int, vehicle_idxs.end as int),
    {
        Self { timetable, vehicle_idxs }
    }

    /// The next vehicle, if any is left
    pub fn next(&mut self) -> (r: Option<Vehicle>)
        ensures
            ({
                let (timetable, next, end) = old(self).view();
                &&& next < end ==> r == Some(Vehicle { timetable, idx: next as usize })
                    && final(self).view() == (timetable, next + 1, end)
                &&& next >= end ==> r is None && final(self).view() == old(self).view()
            }),
        no_unwind
    {
        if self.vehicle_idxs.start < self.vehicle_idxs.end {
            let idx = self.vehicle_idxs.start;
            self.vehicle_idxs.start = idx + 1;
            Some(Vehicle { timetable: self.timetable, idx })
        } else {
            None
        }
    }
}

} // verus!
