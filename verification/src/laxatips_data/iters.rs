use vstd::prelude::*;

use super::calendar::DaysIter;
use super::time::DaysSinceDatasetStart;
use super::timetables::iters::VehiclesIter;
use super::timetables::timetables_data::{Position, Timetable, Vehicle};
use crate::laxatips_daily_data::transit_data::Mission;

verus! {

/// The missions that stop at a stop, each with the position of the stop in it
pub struct MissionsOfStop {
    positions: Vec<Position>,
    next_idx: usize,
}

impl MissionsOfStop {
    #[verifier::type_invariant]
    spec fn inv(&self) -> bool {
        self.next_idx <= self.positions@.len()
    }

    /// The positions left to give
    pub closed spec fn view(&self) -> Seq<Position> {
        self.positions@.skip(self.next_idx as int)
    }

    /// The missions of the timetables of `positions`, in order
    pub(crate) fn new(positions: Vec<Position>) -> (r: Self)
        ensures
            r.view() == positions@,
    {
        let r = Self { positions, next_idx: 0 };
        assert(r.view() =~= r.positions@);
        r
    }

    /// The mission of the next position, with that position
    pub fn next(&mut self) -> (r: Option<(Mission, Position)>)
        ensures
            old(self).view().len() > 0 ==> r == Some(
                (Mission { timetable: old(self).view()[0].timetable }, old(self).view()[0]),
            ) && final(self).view() == old(self).view().drop_first(),
            old(self).view().len() == 0 ==> r is None && final(self).view() == old(self).view(),
    {
        proof {
            use_type_invariant(&*self);
        }
        if self.next_idx < self.positions.len() {
            let position = self.positions[self.next_idx];
            let ghost before = self.view();
            self.next_idx = self.next_idx + 1;
            assert(self.view() =~= before.drop_first());
            Some((Mission { timetable: position.timetable }, position))
        } else {
            None
        }
    }
}

/// The trips of a mission: its current vehicle on each day of the calendar. Once the days
/// are exhausted they are not given again, so only the first vehicle gets trips.
pub struct TripsOfMission {
    has_current_vehicle: Option<Vehicle>,
    vehicles_iter: VehiclesIter,
    days_iter: DaysIter,
}

impl TripsOfMission {
    #[verifier::type_invariant]
    spec fn inv(&self) -> bool {
        let (timetable, next, end) = self.vehicles_iter.view();
        self.has_current_vehicle is Some ==> next <= end
    }

    /// The current vehicle, if any
    pub closed spec fn current(&self) -> Option<Vehicle> {
        self.has_current_vehicle
    }

    /// The vehicles left: their timetable, the index of the next one and the index at
    /// which they stop
    pub closed spec fn vehicles(&self) -> (Timetable, int, int) {
        self.vehicles_iter.view()
    }

    /// The days left: the next day and the day at which they stop
    pub closed spec fn days(&self) -> (nat, nat) {
        self.days_iter@
    }

    /// The trips of the vehicles of `vehicles_iter` on the days of `days_iter`
    pub(crate) fn new(vehicles_iter: VehiclesIter, days_iter: DaysIter) -> (r: Self)
        ensures
            ({
                let (timetable, next, end) = vehicles_iter.view();
                &&& next < end ==> r.current() == Some(Vehicle { timetable, idx: next as usize })
                    && r.vehicles() == (timetable, next + 1, end)
                &&& next >= end ==> r.current() is None && r.vehicles() == vehicles_iter.view()
                &&& r.days() == days_iter@
            }),
    {
        let mut vehicles_iter = vehicles_iter;
        let has_current_vehicle = vehicles_iter.next();
        Self { has_current_vehicle, vehicles_iter, days_iter }
    }

    /// The next trip: the current vehicle on the next day, if any is left; when no day is
    /// left, the vehicles are exhausted and there is none.
    pub fn next(&mut self) -> (r: Option<(Vehicle, DaysSinceDatasetStart)>)
        ensures
            ({
                let (timetable, next, end) = old(self).vehicles();
                let (next_day, end_day) = old(self).days();
                &&& old(self).current() is None ==> r is None && *final(self) == *old(self)
                &&& old(self).current() is Some && next_day < end_day ==> ({
                    &&& r matches Some((vehicle, day)) && Some(vehicle) == old(self).current()
                        && day@ == next_day
                    &&& final(self).current() == old(self).current()
                    &&& final(self).vehicles() == old(self).vehicles()
                    &&& final(self).days() == (next_day + 1, end_day)
                })
                &&& old(self).current() is Some && next_day >= end_day ==> ({
                    &&& r is None
                    &&& final(self).current() is None
                    &&& final(self).vehicles() == (timetable, if next < end { end } else { next }, end)
                    &&& final(self).days() == old(self).days()
                })
            }),
    {
        proof {
            use_type_invariant(&*self);
        }
        let ghost (timetable, next, end) = self.vehicles();
        let ghost (next_day, end_day) = self.days();
        loop
            invariant
                old(self).current() is None || next_day < end_day ==> *self == *old(self),
                old(self).current() is Some && next_day >= end_day ==> ({
                    let (t, n, e) = self.vehicles();
                    &&& self.days() == old(self).days()
                    &&& t == timetable && e == end
                    &&& next <= n
                    &&& (n <= end || n == next)
                    &&& self.current() is None ==> n == (if next < end { end } else { next })
                    &&& self.current() is Some ==> n <= end
                }),
                (timetable, next, end) == old(self).vehicles(),
                (next_day, end_day) == old(self).days(),
            decreases
                ({
                    let (t, n, e) = self.vehicles();
                    if n < e {
                        e - n
                    } else {
                        0
                    }
                }) + (if self.current() is Some {
                    1int
                } else {
                    0int
                }),
        {
            proof {
                use_type_invariant(&*self);
            }
            match self.has_current_vehicle {
                Some(current_vehicle) => {
                    match self.days_iter.next() {
                        Some(day) => {
                            return Some((current_vehicle, day));
                        },
                        None => {
                            self.has_current_vehicle = self.vehicles_iter.next();
                        },
                    }
                },
                None => {
                    return None;
                },
            }
        }
    }
}

} // verus!
