use vstd::prelude::*;

use crate::data::chain_decomposition::order_of;
use crate::laxatips_daily_data::transit_data::Stop;
use crate::laxatips_data::time::SecondsSinceTimezonedDayStart as Time;
use std::cmp::Ordering;

verus! {

/// Whether travelers can board, debark, or both, at a stop of a timetable
#[derive(Debug, PartialEq, Eq, Structural, Clone, Copy, Ord, PartialOrd)]
pub enum FlowDirection {
    BoardOnly,
    DebarkOnly,
    BoardAndDebark,
}

/// A timetable, by its index
#[derive(Debug, PartialEq, Eq, Structural, Clone, Copy, Hash)]
pub struct Timetable {
    pub idx: usize,
}

/// A position in a timetable
#[derive(Debug, PartialEq, Eq, Structural, Clone, Copy)]
pub struct Position {
    pub timetable: Timetable,
    pub idx: usize,
}

/// A vehicle of a timetable
#[derive(Debug, PartialEq, Eq, Structural, Clone, Copy)]
pub struct Vehicle {
    pub timetable: Timetable,
    pub idx: usize,
}

impl Position {
    /// Whether `self` comes before `other`, when both are positions of the same timetable
    pub fn is_upstream(&self, other: &Position) -> (r: Option<bool>)
        ensures
            self.timetable != other.timetable ==> r is None,
            self.timetable == other.timetable ==> r == Some(self.idx < other.idx),
    {
        if self.timetable != other.timetable {
            None
        } else {
            Some(self.idx < other.idx)
        }
    }

    /// The index of the position in its timetable
    pub fn idx_in_timetable(&self) -> (r: usize)
        ensures
            r == self.idx,
    {
        self.idx
    }
}

/// The times of a timetable, position by position, are sorted by vehicle.
pub open spec fn rows_sorted(rows: Seq<Vec<Time>>) -> bool {
    forall|p: int, i: int, j: int|
        0 <= p < rows.len() && 0 <= i <= j < rows[p]@.len() ==> (#[trigger] rows[p]@[i])@
            <= (#[trigger] rows[p]@[j])@
}

/// `flow` allows boarding.
pub open spec fn can_board(flow: FlowDirection) -> bool {
    flow == FlowDirection::BoardAndDebark || flow == FlowDirection::BoardOnly
}

/// `flow` allows debarking.
pub open spec fn can_debark(flow: FlowDirection) -> bool {
    flow == FlowDirection::BoardAndDebark || flow == FlowDirection::DebarkOnly
}

/// The vehicles of a timetable, all stopping at the same stops, with their board and debark
/// times at each position, vehicles being ordered by increasing times
pub struct TimetableData<VehicleData> {
    stop_flows: Vec<(Stop, FlowDirection)>,
    vehicles_data: Vec<VehicleData>,
    board_times_by_position: Vec<Vec<Time>>,
    debark_times_by_position: Vec<Vec<Time>>,
    earliest_and_latest_board_time_by_position: Vec<(Time, Time)>,
}

impl<VehicleData> TimetableData<VehicleData> {
    /// The stops of the timetable and the moves they allow, position by position
    pub closed spec fn stop_flows(&self) -> Seq<(Stop, FlowDirection)> {
        self.stop_flows@
    }

    /// A timetable has at most `usize::MAX` positions.
    pub proof fn lemma_positions_bound(&self)
        ensures
            self.stop_flows().len() <= usize::MAX,
    {
        assert(self.stop_flows@.len() == self.stop_flows.len());
    }

    /// The data of the vehicles, in order
    pub closed spec fn vehicles(&self) -> Seq<VehicleData> {
        self.vehicles_data@
    }

    /// The time, in seconds, at which `vehicle` can be boarded at `position`
    pub closed spec fn board_time(&self, vehicle: int, position: int) -> nat {
        self.board_times_by_position@[position]@[vehicle]@
    }

    /// The time, in seconds, at which `vehicle` can be debarked from at `position`
    pub closed spec fn debark_time(&self, vehicle: int, position: int) -> nat {
        self.debark_times_by_position@[position]@[vehicle]@
    }

    /// Each position has a stop, board and debark times for each vehicle, and earliest and
    /// latest board times; the times of each position are sorted by vehicle.
    pub closed spec fn wf(&self) -> bool {
        &&& self.board_times_by_position@.len() == self.stop_flows@.len()
        &&& self.debark_times_by_position@.len() == self.stop_flows@.len()
        &&& self.earliest_and_latest_board_time_by_position@.len() == self.stop_flows@.len()
        &&& forall|p: int|
            0 <= p < self.stop_flows@.len() ==> (#[trigger] self.board_times_by_position@[p])@.len()
                == self.vehicles_data@.len()
        &&& forall|p: int|
            0 <= p < self.stop_flows@.len() ==> (#[trigger] self.debark_times_by_position@[p])@.len()
                == self.vehicles_data@.len()
        &&& rows_sorted(self.board_times_by_position@)
        &&& rows_sorted(self.debark_times_by_position@)
    }

    /// The timetable of the vehicles `vehicles_data` at the stops `stop_flows`, with their
    /// board and debark times position by position, each position with the earliest and
    /// latest board times given
    pub fn new(
        stop_flows: Vec<(Stop, FlowDirection)>,
        vehicles_data: Vec<VehicleData>,
        board_times_by_position: Vec<Vec<Time>>,
        debark_times_by_position: Vec<Vec<Time>>,
        earliest_and_latest_board_time_by_position: Vec<(Time, Time)>,
    ) -> (r: Self)
        requires
            board_times_by_position@.len() == stop_flows@.len(),
            debark_times_by_position@.len() == stop_flows@.len(),
            earliest_and_latest_board_time_by_position@.len() == stop_flows@.len(),
            forall|p: int|
                0 <= p < stop_flows@.len() ==> (#[trigger] board_times_by_position@[p])@.len()
                    == vehicles_data@.len(),
            forall|p: int|
                0 <= p < stop_flows@.len() ==> (#[trigger] debark_times_by_position@[p])@.len()
                    == vehicles_data@.len(),
            rows_sorted(board_times_by_position@),
            rows_sorted(debark_times_by_position@),
        ensures
            r.wf(),
            r.stop_flows() == stop_flows@,
            r.vehicles() == vehicles_data@,
            forall|v: int, p: int|
                0 <= p < stop_flows@.len() && 0 <= v < vehicles_data@.len() ==> #[trigger] r.board_time(v, p)
                    == board_times_by_position@[p]@[v]@ && r.debark_time(v, p)
                    == debark_times_by_position@[p]@[v]@,
    {
        Self {
            stop_flows,
            vehicles_data,
            board_times_by_position,
            debark_times_by_position,
            earliest_and_latest_board_time_by_position,
        }
    }

    /// `true` when travelers can board at `position_idx`
    pub fn can_board_at(&self, position_idx: usize) -> (r: bool)
        requires
            position_idx < self.stop_flows().len(),
        ensures
            r == can_board(self.stop_flows()[position_idx as int].1),
    {
        match &self.stop_flows[position_idx].1 {
            FlowDirection::BoardAndDebark | FlowDirection::BoardOnly => true,
            FlowDirection::DebarkOnly => false,
        }
    }

    /// `true` when travelers can debark at `position_idx`
    pub fn can_debark_at(&self, position_idx: usize) -> (r: bool)
        requires
            position_idx < self.stop_flows().len(),
        ensures
            r == can_debark(self.stop_flows()[position_idx as int].1),
    {
        match &self.stop_flows[position_idx].1 {
            FlowDirection::BoardAndDebark | FlowDirection::DebarkOnly => true,
            FlowDirection::BoardOnly => false,
        }
    }

    /// The time at which `vehicle_idx` arrives at `position_idx`
    pub fn arrival_time_at(&self, vehicle_idx: usize, position_idx: usize) -> (r: &Time)
        requires
            self.wf(),
            position_idx < self.stop_flows().len(),
            vehicle_idx < self.vehicles().len(),
        ensures
            r@ == self.debark_time(vehicle_idx as int, position_idx as int),
    {
        &self.debark_times_by_position[position_idx][vehicle_idx]
    }

    /// The time at which travelers can debark from `vehicle_idx` at `position_idx`, when
    /// they can debark there
    pub fn debark_time_at(&self, vehicle_idx: usize, position_idx: usize) -> (r: Option<&Time>)
        requires
            self.wf(),
            position_idx < self.stop_flows().len(),
            vehicle_idx < self.vehicles().len(),
        ensures
            r is Some <==> can_debark(self.stop_flows()[position_idx as int].1),
            r matches Some(t) ==> t@ == self.debark_time(vehicle_idx as int, position_idx as int),
    {
        if self.can_debark_at(position_idx) {
            Some(&self.debark_times_by_position[position_idx][vehicle_idx])
        } else {
            None
        }
    }

    /// The time at which travelers can board `vehicle_idx` at `position_idx`, when they can
    /// board there
    pub fn board_time_at(&self, vehicle_idx: usize, position_idx: usize) -> (r: Option<&Time>)
        requires
            self.wf(),
            position_idx < self.stop_flows().len(),
            vehicle_idx < self.vehicles().len(),
        ensures
            r is Some <==> can_board(self.stop_flows()[position_idx as int].1),
            r matches Some(t) ==> t@ == self.board_time(vehicle_idx as int, position_idx as int),
    {
        if self.can_board_at(position_idx) {
            Some(&self.board_times_by_position[position_idx][vehicle_idx])
        } else {
            None
        }
    }

    /// The earliest and latest board times at `position_idx`, when travelers can board there
    pub fn earliest_and_latest_board_time_at(&self, position_idx: usize) -> (r: Option<&(Time, Time)>)
        requires
            self.wf(),
            position_idx < self.stop_flows().len(),
        ensures
            r is Some <==> can_board(self.stop_flows()[position_idx as int].1),
    {
        if self.can_board_at(position_idx) {
            Some(&self.earliest_and_latest_board_time_by_position[position_idx])
        } else {
            None
        }
    }

    /// The stop at `position_idx`
    pub fn stop_at(&self, position_idx: usize) -> (r: &Stop)
        requires
            position_idx < self.stop_flows().len(),
        ensures
            *r == self.stop_flows()[position_idx as int].0,
    {
        &self.stop_flows[position_idx].0
    }

    /// The moves allowed at `position_idx`
    pub fn flow_direction_at(&self, position_idx: usize) -> (r: &FlowDirection)
        requires
            position_idx < self.stop_flows().len(),
        ensures
            *r == self.stop_flows()[position_idx as int].1,
    {
        &self.stop_flows[position_idx].1
    }

    /// The number of positions
    pub fn nb_of_positions(&self) -> (r: usize)
        requires
            self.wf(),
        ensures
            r == self.stop_flows().len(),
    {
        self.board_times_by_position.len()
    }

    /// The number of vehicles
    pub fn nb_of_vehicles(&self) -> (r: usize)
        ensures
            r == self.vehicles().len(),
    {
        self.vehicles_data.len()
    }

    /// The data of `vehicle_idx`
    pub fn vehicle_data(&self, vehicle_idx: usize) -> (r: &VehicleData)
        requires
            vehicle_idx < self.vehicles().len(),
        ensures
            *r == self.vehicles()[vehicle_idx as int],
    {
        &self.vehicles_data[vehicle_idx]
    }

    /// The first vehicle, among those on which `filter` returns `true`, that can be boarded
    /// at `position_idx` by a traveler waiting since `waiting_time`
    pub fn best_filtered_vehicle_to_board_at<Filter: Fn(&VehicleData) -> bool>(
        &self,
        waiting_time: &Time,
        position_idx: usize,
        filter: Filter,
    ) -> (r: Option<usize>)
        requires
            self.wf(),
            position_idx < self.stop_flows().len(),
            forall|v: &VehicleData| filter.requires((v,)),
        ensures
            r matches Some(i) ==> {
                &&& i < self.vehicles().len()
                &&& waiting_time@ <= self.board_time(i as int, position_idx as int)
                &&& filter.ensures((&self.vehicles()[i as int],), true)
            },
            forall|j: int|
                0 <= j < self.vehicles().len() && waiting_time@ <= self.board_time(j, position_idx as int)
                    && (r matches Some(i) ==> j < i) ==> filter.ensures(
                    (&self.vehicles()[j],),
                    false,
                ),
    {
        let row = &self.board_times_by_position[position_idx];
        let first_boardable_vehicle = first_at_least(row, waiting_time);
        let nb_of_vehicles = self.nb_of_vehicles();
        let mut vehicle_idx = first_boardable_vehicle;
        while vehicle_idx < nb_of_vehicles
            invariant
                self.wf(),
                position_idx < self.stop_flows().len(),
                forall|v: &VehicleData| filter.requires((v,)),
                row@ == self.board_times_by_position@[position_idx as int]@,
                nb_of_vehicles == self.vehicles().len(),
                first_boardable_vehicle <= vehicle_idx <= nb_of_vehicles,
                forall|j: int| 0 <= j < first_boardable_vehicle ==> (#[trigger] row@[j])@ < waiting_time@,
                forall|j: int|
                    first_boardable_vehicle <= j < vehicle_idx && waiting_time@ <= self.board_time(
                        j,
                        position_idx as int,
                    ) ==> filter.ensures((&self.vehicles()[j],), false),
            decreases nb_of_vehicles - vehicle_idx,
        {
            let vehicle_data = &self.vehicles_data[vehicle_idx];
            let board_time = &self.board_times_by_position[position_idx][vehicle_idx];
            if filter(vehicle_data) && waiting_time.seconds() <= board_time.seconds() {
                return Some(vehicle_idx);
            }
            vehicle_idx += 1;
        }
        proof {
            assert forall|j: int|
                0 <= j < self.vehicles().len() && waiting_time@ <= self.board_time(j, position_idx as int)
                implies filter.ensures((&self.vehicles()[j],), false) by {
                if j < first_boardable_vehicle {
                    assert(row@[j]@ < waiting_time@);
                }
            }
        }
        None
    }
}

impl<VehicleData> TimetableData<VehicleData> {
    /// The first vehicle, among those on which `filter` returns `true`, that can be boarded
    /// at `position` by a traveler waiting since `waiting_time`, found by going through all
    /// the vehicles
    fn _best_filtered_vehicle_to_board_at_by_linear_search<Filter: Fn(&VehicleData) -> bool>(
        &self,
        waiting_time: &Time,
        position: &Position,
        filter: Filter,
    ) -> (r: Option<usize>)
        requires
            self.wf(),
            position.idx < self.stop_flows().len(),
            forall|v: &VehicleData| filter.requires((v,)),
        ensures
            r matches Some(i) ==> {
                &&& i < self.vehicles().len()
                &&& waiting_time@ <= self.board_time(i as int, position.idx as int)
                &&& filter.ensures((&self.vehicles()[i as int],), true)
            },
            forall|j: int|
                0 <= j < self.vehicles().len() && waiting_time@ <= self.board_time(j, position.idx as int)
                    && (r matches Some(i) ==> j < i) ==> filter.ensures(
                    (&self.vehicles()[j],),
                    false,
                ),
    {
        let nb_of_vehicles = self.nb_of_vehicles();
        let mut vehicle_idx: usize = 0;
        while vehicle_idx < nb_of_vehicles
            invariant
                self.wf(),
                position.idx < self.stop_flows().len(),
                forall|v: &VehicleData| filter.requires((v,)),
                nb_of_vehicles == self.vehicles().len(),
                vehicle_idx <= nb_of_vehicles,
                forall|j: int|
                    0 <= j < vehicle_idx && waiting_time@ <= self.board_time(j, position.idx as int)
                        ==> filter.ensures((&self.vehicles()[j],), false),
            decreases nb_of_vehicles - vehicle_idx,
        {
            let vehicle_data = &self.vehicles_data[vehicle_idx];
            if filter(vehicle_data) {
                let board_time = &self.board_times_by_position[position.idx][vehicle_idx];
                if waiting_time.seconds() <= board_time.seconds() {
                    return Some(vehicle_idx);
                }
            }
            vehicle_idx += 1;
        }
        None
    }

    /// The times at which `vehicle_idx` can be debarked from, position after position
    pub fn vehicle_debark_times(&self, vehicle_idx: usize) -> (r: Vec<Time>)
        requires
            self.wf(),
            vehicle_idx < self.vehicles().len(),
        ensures
            r@.len() == self.stop_flows().len(),
            forall|p: int| 0 <= p < r@.len() ==> (#[trigger] r@[p])@ == self.debark_time(vehicle_idx as int, p),
    {
        let mut r: Vec<Time> = Vec::new();
        let mut p: usize = 0;
        while p < self.debark_times_by_position.len()
            invariant
                self.wf(),
                vehicle_idx < self.vehicles().len(),
                p <= self.stop_flows().len(),
                r@.len() == p,
                forall|q: int| 0 <= q < p ==> (#[trigger] r@[q])@ == self.debark_time(vehicle_idx as int, q),
            decreases self.stop_flows().len() - p,
        {
            r.push(self.debark_times_by_position[p][vehicle_idx]);
            p += 1;
        }
        r
    }

    /// The times at which `vehicle_idx` can be boarded, position after position
    pub fn vehicle_board_times(&self, vehicle_idx: usize) -> (r: Vec<Time>)
        requires
            self.wf(),
            vehicle_idx < self.vehicles().len(),
        ensures
            r@.len() == self.stop_flows().len(),
            forall|p: int| 0 <= p < r@.len() ==> (#[trigger] r@[p])@ == self.board_time(vehicle_idx as int, p),
    {
        let mut r: Vec<Time> = Vec::new();
        let mut p: usize = 0;
        while p < self.board_times_by_position.len()
            invariant
                self.wf(),
                vehicle_idx < self.vehicles().len(),
                p <= self.stop_flows().len(),
                r@.len() == p,
                forall|q: int| 0 <= q < p ==> (#[trigger] r@[q])@ == self.board_time(vehicle_idx as int, q),
            decreases self.stop_flows().len() - p,
        {
            r.push(self.board_times_by_position[p][vehicle_idx]);
            p += 1;
        }
        r
    }
}

/// The number of vehicles of the timetables `datas`
pub open spec fn total_vehicles<V>(datas: Seq<TimetableData<V>>) -> nat
    decreases datas.len(),
{
    if datas.len() == 0 {
        0
    } else {
        total_vehicles(datas.drop_last()) + datas.last().vehicles().len()
    }
}

/// The number of vehicles of the first `n` timetables is at most the number of vehicles of
/// all of them, and grows by the vehicles of timetable `n` when it is added.
proof fn lemma_total_vehicles_take<V>(datas: Seq<TimetableData<V>>, n: int)
    requires
        0 <= n <= datas.len(),
    ensures
        total_vehicles(datas.take(n)) <= total_vehicles(datas),
        n < datas.len() ==> total_vehicles(datas.take(n + 1)) == total_vehicles(datas.take(n))
            + datas[n].vehicles().len(),
    decreases datas.len() - n,
{
    if n < datas.len() {
        assert(datas.take(n + 1).drop_last() =~= datas.take(n));
        lemma_total_vehicles_take(datas, n + 1);
    } else {
        assert(datas.take(n) =~= datas);
    }
}

/// The timetables of the transit data
pub struct Timetables<VehicleData> {
    timetable_datas: Vec<TimetableData<VehicleData>>,
}

impl<VehicleData> Timetables<VehicleData> {
    /// The timetables, by index
    pub closed spec fn view(&self) -> Seq<TimetableData<VehicleData>> {
        self.timetable_datas@
    }

    /// Each timetable is well formed and the number of vehicles fits in a `usize`.
    pub closed spec fn wf(&self) -> bool {
        &&& forall|t: int| 0 <= t < self.timetable_datas@.len() ==> (#[trigger] self.timetable_datas@[t]).wf()
        &&& total_vehicles(self.timetable_datas@) <= usize::MAX
    }

    /// Each timetable of well-formed timetables is well formed.
    pub proof fn lemma_timetables_wf(&self)
        requires
            self.wf(),
        ensures
            forall|t: int| 0 <= t < self@.len() ==> (#[trigger] self@[t]).wf(),
    {
    }

    /// No timetable
    pub fn new() -> (r: Self)
        ensures
            r.wf(),
            r@ == Seq::<TimetableData<VehicleData>>::empty(),
    {
        Self { timetable_datas: Vec::new() }
    }

    /// Adds the timetable `data`, and returns it
    pub fn push_timetable(&mut self, data: TimetableData<VehicleData>) -> (r: Timetable)
        requires
            old(self).wf(),
            data.wf(),
            total_vehicles(old(self)@) + data.vehicles().len() <= usize::MAX,
        ensures
            final(self).wf(),
            final(self)@ == old(self)@.push(data),
            r.idx == old(self)@.len(),
    {
        let idx = self.timetable_datas.len();
        let ghost before = self.timetable_datas@;
        self.timetable_datas.push(data);
        assert(self.timetable_datas@.drop_last() =~= before);
        Timetable { idx }
    }

    /// The data of `timetable`
    pub fn timetable_data(&self, timetable: &Timetable) -> (r: &TimetableData<VehicleData>)
        requires
            timetable.idx < self@.len(),
        ensures
            *r == self@[timetable.idx as int],
    {
        &self.timetable_datas[timetable.idx]
    }

    /// The number of timetables
    pub fn nb_of_timetables(&self) -> (r: usize)
        ensures
            r == self@.len(),
    {
        self.timetable_datas.len()
    }

    /// The number of vehicles of all timetables
    pub fn nb_of_vehicles(&self) -> (r: usize)
        requires
            self.wf(),
        ensures
            r == total_vehicles(self@),
    {
        let mut total: usize = 0;
        let mut t: usize = 0;
        while t < self.timetable_datas.len()
            invariant
                self.wf(),
                t <= self.timetable_datas@.len(),
                total == total_vehicles(self.timetable_datas@.take(t as int)),
            decreases self.timetable_datas@.len() - t,
        {
            proof {
                lemma_total_vehicles_take(self.timetable_datas@, t as int);
                lemma_total_vehicles_take(self.timetable_datas@, t as int + 1);
            }
            total = total + self.timetable_datas[t].nb_of_vehicles();
            t += 1;
        }
        proof {
            assert(self.timetable_datas@.take(t as int) =~= self.timetable_datas@);
        }
        total
    }

    /// The position after `position` in its timetable, if any
    pub open spec fn next_position_of(&self, position: Position) -> Option<Position> {
        if position.idx + 1 < self@[position.timetable.idx as int].stop_flows().len() {
            Some(Position { timetable: position.timetable, idx: (position.idx + 1) as usize })
        } else {
            None
        }
    }

    /// The position after `position` in its timetable, if any
    pub fn next_position(&self, position: &Position) -> (r: Option<Position>)
        requires
            self.wf(),
            position.timetable.idx < self@.len(),
        ensures
            r == self.next_position_of(*position),
            position.idx + 1 < self@[position.timetable.idx as int].stop_flows().len() ==> r == Some(
                Position { timetable: position.timetable, idx: (position.idx + 1) as usize },
            ),
            position.idx + 1 >= self@[position.timetable.idx as int].stop_flows().len() ==> r is None,
    {
        let nb_of_positions = self.timetable_data(&position.timetable).nb_of_positions();
        if position.idx < nb_of_positions && position.idx + 1 < nb_of_positions {
            let result = Position { timetable: position.timetable, idx: position.idx + 1 };
            Some(result)
        } else {
            None
        }
    }

    /// The stop at `position` of `timetable`
    pub fn stop_at(&self, timetable: &Timetable, position: &Position) -> (r: &Stop)
        requires
            *timetable == position.timetable,
            timetable.idx < self@.len(),
            position.idx < self@[timetable.idx as int].stop_flows().len(),
        ensures
            *r == self@[timetable.idx as int].stop_flows()[position.idx as int].0,
    {
        self.timetable_data(&position.timetable).stop_at(position.idx)
    }

    /// The earliest and latest board times at `position`, when travelers can board there
    pub fn earliest_and_latest_board_time_at(&self, position: &Position) -> (r: Option<&(Time, Time)>)
        requires
            self.wf(),
            position.timetable.idx < self@.len(),
            position.idx < self@[position.timetable.idx as int].stop_flows().len(),
        ensures
            r is Some <==> can_board(
                self@[position.timetable.idx as int].stop_flows()[position.idx as int].1,
            ),
    {
        let timetable_data = self.timetable_data(&position.timetable);
        timetable_data.earliest_and_latest_board_time_at(position.idx)
    }

    /// The data of `vehicle`
    pub fn vehicle_data(&self, vehicle: &Vehicle) -> (r: &VehicleData)
        requires
            vehicle.timetable.idx < self@.len(),
            vehicle.idx < self@[vehicle.timetable.idx as int].vehicles().len(),
        ensures
            *r == self@[vehicle.timetable.idx as int].vehicles()[vehicle.idx as int],
    {
        self.timetable_data(&vehicle.timetable).vehicle_data(vehicle.idx)
    }
}

/// The index of the first time of `row` that is at least `time`, when `row` is sorted:
/// every time before it is earlier than `time`
fn first_at_least(row: &Vec<Time>, time: &Time) -> (k: usize)
    requires
        forall|i: int, j: int| 0 <= i <= j < row@.len() ==> (#[trigger] row@[i])@ <= (#[trigger] row@[j])@,
    ensures
        k <= row@.len(),
        forall|j: int| 0 <= j < k ==> (#[trigger] row@[j])@ < time@,
        forall|j: int| k <= j < row@.len() ==> time@ <= (#[trigger] row@[j])@,
{
    let mut lo: usize = 0;
    let mut hi: usize = row.len();
    while lo < hi
        invariant
            lo <= hi <= row@.len(),
            forall|i: int, j: int| 0 <= i <= j < row@.len() ==> (#[trigger] row@[i])@ <= (#[trigger] row@[j])@,
            forall|j: int| 0 <= j < lo ==> (#[trigger] row@[j])@ < time@,
            forall|j: int| hi <= j < row@.len() ==> time@ <= (#[trigger] row@[j])@,
        decreases hi - lo,
    {
        let mid = lo + (hi - lo) / 2;
        if row[mid].seconds() < time.seconds() {
            proof {
                assert forall|j: int| 0 <= j < mid + 1 implies (#[trigger] row@[j])@ < time@ by {
                    assert(row@[j]@ <= row@[mid as int]@);
                }
            }
            lo = mid + 1;
        } else {
            proof {
                assert forall|j: int| mid <= j < row@.len() implies time@ <= (#[trigger] row@[j])@ by {
                    assert(row@[mid as int]@ <= row@[j]@);
                }
            }
            hi = mid;
        }
    }
    lo
}

/// How `lower` compares with `upper`, position by position: equal everywhere, lower than
/// or equal everywhere, greater than or equal everywhere, or none of these
pub fn partial_cmp(lower: &[u32], upper: &[u32]) -> (r: Option<Ordering>)
    requires
        lower@.len() == upper@.len(),
    ensures
        r == order_of(lower@, upper@),
{
    let mut all_lower = true;
    let mut all_greater = true;
    let mut i: usize = 0;
    while i < lower.len()
        invariant
            lower@.len() == upper@.len(),
            i <= lower@.len(),
            all_lower == forall|q: int| 0 <= q < i ==> #[trigger] lower@[q] <= upper@[q],
            all_greater == forall|q: int| 0 <= q < i ==> #[trigger] upper@[q] <= lower@[q],
        decreases lower@.len() - i,
    {
        if lower[i] > upper[i] {
            all_lower = false;
        }
        if lower[i] < upper[i] {
            all_greater = false;
        }
        i += 1;
    }
    if all_lower && all_greater {
        assert(lower@ =~= upper@);
        Some(Ordering::Equal)
    } else if all_lower {
        Some(Ordering::Less)
    } else if all_greater {
        assert(!(lower@ =~= upper@));
        Some(Ordering::Greater)
    } else {
        None
    }
}

} // verus!
