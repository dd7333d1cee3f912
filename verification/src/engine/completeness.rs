use vstd::prelude::*;

use crate::engine::journeys_tree::{arrive_at, board_at, wait_at, Arrive, Board, Debark, Wait};
use crate::engine::multicriteria_raptor::{
    arrivals_of, arrives_added, boards_from_waits, boards_ridden, debarks_along, ride_from, ride_missions,
    transfers_from_debark, transfers_from_debarks, transfers_from_stops, waits_added,
};
use crate::engine::pareto_front::{added, is_preorder, lemma_added_dominates, not_dominated_by, spec_dominates};
use crate::traits::{Request, RequestTypes, RequestWithIters};

verus! {

/// Each step of a journey gives criteria that are no better than those it starts from:
/// boarding, riding, debarking, transferring and arriving.
pub open spec fn steps_grow<PT: Request>(pt: PT) -> bool {
    &&& forall|position: PT::Position, mission: PT::Mission, waiting: PT::Criteria|
        #[trigger] pt.spec_best_trip_to_board(position, mission, waiting) matches Some(best)
            ==> pt.spec_is_lower(waiting, best.1)
    &&& forall|trip: PT::Trip, position: PT::Position, criteria: PT::Criteria|
        pt.spec_is_lower(criteria, #[trigger] pt.spec_ride(trip, position, criteria))
    &&& forall|trip: PT::Trip, position: PT::Position, criteria: PT::Criteria|
        #[trigger] pt.spec_debark(trip, position, criteria) matches Some(debarked) ==> pt.spec_is_lower(
            criteria,
            debarked,
        )
    &&& forall|stop: PT::Stop, transfer: PT::Transfer, criteria: PT::Criteria|
        pt.spec_is_lower(criteria, #[trigger] pt.spec_transfer(stop, transfer, criteria).1)
    &&& forall|arrival: PT::Arrival, criteria: PT::Criteria|
        pt.spec_is_lower(criteria, #[trigger] pt.spec_arrive(arrival, criteria))
}

/// Riding `trip` along `mission` from `position`, with `criteria` there, for `rides` more
/// positions: the position and the criteria reached, when each position on the way comes
/// after the one before and every criteria on the way, the first one included, is valid
pub open spec fn ridden<PT: Request>(
    pt: PT,
    trip: PT::Trip,
    mission: PT::Mission,
    position: PT::Position,
    criteria: PT::Criteria,
    rides: nat,
) -> Option<(PT::Position, PT::Criteria)>
    decreases rides,
{
    if !pt.spec_is_valid(criteria) {
        None
    } else if rides == 0 {
        Some((position, criteria))
    } else {
        match pt.spec_next_on_mission(position, mission) {
            Some(next) => if pt.spec_nb_of_positions_after(next, mission) < pt.spec_nb_of_positions_after(
                position,
                mission,
            ) {
                ridden(pt, trip, mission, next, pt.spec_ride(trip, position, criteria), (rides - 1) as nat)
            } else {
                None
            },
            None => None,
        }
    }
}

/// A vehicle leg of a journey, waiting at `stop` with `criteria`: the best trip of the
/// `leg.0`-th mission that can be boarded at `stop` is boarded there, ridden from the next
/// position for `leg.1` more positions, and debarked; the stop and the criteria of the
/// debark, when each step can be made
pub open spec fn leg_debark<PT: RequestWithIters>(
    pt: PT,
    stop: PT::Stop,
    criteria: PT::Criteria,
    leg: (nat, nat, nat),
) -> Option<(PT::Stop, PT::Criteria)> {
    if leg.0 >= pt.spec_nb_of_boardable_missions_at(stop) {
        None
    } else {
        let (mission, position) = pt.spec_boardable_mission_at(stop, leg.0 as usize);
        match pt.spec_best_trip_to_board(position, mission, criteria) {
            Some(best) => match pt.spec_next_on_mission(position, mission) {
                Some(next) => if pt.spec_nb_of_positions_after(next, mission) < pt.spec_nb_of_positions_after(
                    position,
                    mission,
                ) {
                    match ridden(pt, best.0, mission, next, best.1, leg.1) {
                        Some(reached) => match pt.spec_debark(best.0, reached.0, reached.1) {
                            Some(debarked) => Some((pt.spec_stop_of(reached.0, mission), debarked)),
                            None => None,
                        },
                        None => None,
                    }
                } else {
                    None
                },
                None => None,
            },
            None => None,
        }
    }
}

/// The criteria at arrival of the journey that waits at `stop` with valid `criteria`, takes
/// the vehicle legs `legs` (each, but the last one, followed by its `.2`-th transfer from
/// the stop where it debarks, to a stop where the criteria are valid) and ends with the
/// `arrival`-th arrival at the stop of the last debark; none when a step cannot be made
pub open spec fn plan_arrival<PT: RequestWithIters>(
    pt: PT,
    stop: PT::Stop,
    criteria: PT::Criteria,
    legs: Seq<(nat, nat, nat)>,
    arrival: nat,
) -> Option<PT::Criteria>
    decreases legs.len(),
{
    if legs.len() == 0 || !pt.spec_is_valid(criteria) {
        None
    } else {
        match leg_debark(pt, stop, criteria, legs[0]) {
            Some(debarked) => if legs.len() == 1 {
                if arrival < pt.spec_nb_of_arrivals() && pt.spec_stop_id(
                    pt.spec_arrival_stop(pt.spec_arrival(arrival as usize)),
                ) == pt.spec_stop_id(debarked.0) {
                    Some(pt.spec_arrive(pt.spec_arrival(arrival as usize), debarked.1))
                } else {
                    None
                }
            } else if legs[0].2 < pt.spec_nb_of_transfers_at(debarked.0) {
                let transferred = pt.spec_transfer(
                    debarked.0,
                    pt.spec_transfer_at(debarked.0, legs[0].2 as usize),
                    debarked.1,
                );
                plan_arrival(pt, transferred.0, transferred.1, legs.drop_first(), arrival)
            } else {
                None
            },
            None => None,
        }
    }
}

/// The criteria at arrival of the journey that starts with the `departure`-th departure of
/// `pt`, then goes as `plan_arrival` says; none when it cannot be made
pub open spec fn journey_arrival<PT: RequestWithIters>(
    pt: PT,
    departure: nat,
    legs: Seq<(nat, nat, nat)>,
    arrival: nat,
) -> Option<PT::Criteria> {
    if departure < pt.spec_nb_of_departures() {
        let departed = pt.spec_depart(pt.spec_departure(departure as usize));
        plan_arrival(pt, departed.0, departed.1, legs, arrival)
    } else {
        None
    }
}

/// Some element of the front of stop id `s`, in `fronts` or in `new_fronts`, is lower than
/// `criteria`
pub open spec fn covered<D, E, PT: Request>(
    pt: PT,
    fronts: Seq<Seq<(D, PT::Criteria)>>,
    new_fronts: Seq<Seq<(E, PT::Criteria)>>,
    s: int,
    criteria: PT::Criteria,
) -> bool {
    ||| 0 <= s < fronts.len() && spec_dominates(fronts[s], criteria, pt)
    ||| 0 <= s < new_fronts.len() && spec_dominates(new_fronts[s], criteria, pt)
}

/// Each departure with valid criteria is covered by the wait fronts, or by the arrivals
pub open spec fn departures_closed<D, E, A, PT: RequestWithIters>(
    pt: PT,
    waits: Seq<Seq<(D, PT::Criteria)>>,
    new_waits: Seq<Seq<(E, PT::Criteria)>>,
    arrive: Seq<(A, PT::Criteria)>,
) -> bool {
    forall|j: nat|
        #![trigger pt.spec_departure(j as usize)]
        j < pt.spec_nb_of_departures() && pt.spec_is_valid(pt.spec_depart(pt.spec_departure(j as usize)).1)
            ==> covered(
            pt,
            waits,
            new_waits,
            pt.spec_stop_id(pt.spec_depart(pt.spec_departure(j as usize)).0) as int,
            pt.spec_depart(pt.spec_departure(j as usize)).1,
        ) || spec_dominates(arrive, pt.spec_depart(pt.spec_departure(j as usize)).1, pt)
}

/// Waiting at a stop with criteria covered by the wait fronts, every vehicle leg that can
/// be taken debarks with criteria covered by the debark fronts, or by the arrivals
pub open spec fn waits_closed<D, E, F, G, A, PT: RequestWithIters>(
    pt: PT,
    waits: Seq<Seq<(D, PT::Criteria)>>,
    new_waits: Seq<Seq<(E, PT::Criteria)>>,
    debarks: Seq<Seq<(F, PT::Criteria)>>,
    new_debarks: Seq<Seq<(G, PT::Criteria)>>,
    arrive: Seq<(A, PT::Criteria)>,
) -> bool {
    forall|stop: PT::Stop, criteria: PT::Criteria, leg: (nat, nat, nat)|
        #![trigger covered(pt, waits, new_waits, pt.spec_stop_id(stop) as int, criteria), leg_debark(pt, stop, criteria, leg)]
        covered(pt, waits, new_waits, pt.spec_stop_id(stop) as int, criteria) && leg_debark(
            pt,
            stop,
            criteria,
            leg,
        ) is Some ==> covered(
            pt,
            debarks,
            new_debarks,
            pt.spec_stop_id(leg_debark(pt, stop, criteria, leg).unwrap().0) as int,
            leg_debark(pt, stop, criteria, leg).unwrap().1,
        ) || spec_dominates(arrive, leg_debark(pt, stop, criteria, leg).unwrap().1, pt)
}

/// Debarking at a stop with criteria covered by the debark fronts, every arrival at that
/// stop gives criteria covered by the arrivals, and every transfer from it that gives valid
/// criteria gives criteria covered by the wait fronts, or by the arrivals
pub open spec fn debarks_closed<D, E, F, G, A, PT: RequestWithIters>(
    pt: PT,
    waits: Seq<Seq<(D, PT::Criteria)>>,
    new_waits: Seq<Seq<(E, PT::Criteria)>>,
    debarks: Seq<Seq<(F, PT::Criteria)>>,
    new_debarks: Seq<Seq<(G, PT::Criteria)>>,
    arrive: Seq<(A, PT::Criteria)>,
) -> bool {
    &&& forall|stop: PT::Stop, criteria: PT::Criteria, a: nat|
        #![trigger covered(pt, debarks, new_debarks, pt.spec_stop_id(stop) as int, criteria), pt.spec_arrival(a as usize)]
        covered(pt, debarks, new_debarks, pt.spec_stop_id(stop) as int, criteria) && a < pt.spec_nb_of_arrivals()
            && pt.spec_stop_id(pt.spec_arrival_stop(pt.spec_arrival(a as usize))) == pt.spec_stop_id(stop)
            ==> spec_dominates(arrive, pt.spec_arrive(pt.spec_arrival(a as usize), criteria), pt)
    &&& forall|stop: PT::Stop, criteria: PT::Criteria, t: nat|
        #![trigger covered(pt, debarks, new_debarks, pt.spec_stop_id(stop) as int, criteria), pt.spec_transfer_at(stop, t as usize)]
        covered(pt, debarks, new_debarks, pt.spec_stop_id(stop) as int, criteria) && t
            < pt.spec_nb_of_transfers_at(stop) && pt.spec_is_valid(
            pt.spec_transfer(stop, pt.spec_transfer_at(stop, t as usize), criteria).1,
        ) ==> covered(
            pt,
            waits,
            new_waits,
            pt.spec_stop_id(pt.spec_transfer(stop, pt.spec_transfer_at(stop, t as usize), criteria).0) as int,
            pt.spec_transfer(stop, pt.spec_transfer_at(stop, t as usize), criteria).1,
        ) || spec_dominates(
            arrive,
            pt.spec_transfer(stop, pt.spec_transfer_at(stop, t as usize), criteria).1,
            pt,
        )
}

/// Riding only gives criteria no better than those it starts from.
proof fn lemma_ridden_grows<PT: Request>(
    pt: PT,
    trip: PT::Trip,
    mission: PT::Mission,
    position: PT::Position,
    criteria: PT::Criteria,
    rides: nat,
)
    requires
        is_preorder(pt),
        steps_grow(pt),
    ensures
        ridden(pt, trip, mission, position, criteria, rides) matches Some(reached) ==> pt.spec_is_lower(
            criteria,
            reached.1,
        ),
    decreases rides,
{
    if pt.spec_is_valid(criteria) && rides > 0 {
        if let Some(next) = pt.spec_next_on_mission(position, mission) {
            let ridden_once = pt.spec_ride(trip, position, criteria);
            lemma_ridden_grows(pt, trip, mission, next, ridden_once, (rides - 1) as nat);
            assert(pt.spec_is_lower(criteria, ridden_once));
        }
    } else if pt.spec_is_valid(criteria) {
        assert(pt.spec_is_lower(criteria, criteria));
    }
}

/// A vehicle leg only gives criteria no better than those it starts from.
proof fn lemma_leg_grows<PT: RequestWithIters>(
    pt: PT,
    stop: PT::Stop,
    criteria: PT::Criteria,
    leg: (nat, nat, nat),
)
    requires
        is_preorder(pt),
        steps_grow(pt),
    ensures
        leg_debark(pt, stop, criteria, leg) matches Some(debarked) ==> pt.spec_is_lower(criteria, debarked.1),
{
    if leg.0 < pt.spec_nb_of_boardable_missions_at(stop) {
        let (mission, position) = pt.spec_boardable_mission_at(stop, leg.0 as usize);
        if let Some(best) = pt.spec_best_trip_to_board(position, mission, criteria) {
            if let Some(next) = pt.spec_next_on_mission(position, mission) {
                lemma_ridden_grows(pt, best.0, mission, next, best.1, leg.1);
                if let Some(reached) = ridden(pt, best.0, mission, next, best.1, leg.1) {
                    if let Some(debarked) = pt.spec_debark(best.0, reached.0, reached.1) {
                        assert(pt.spec_is_lower(criteria, best.1));
                        assert(pt.spec_is_lower(reached.1, debarked));
                    }
                }
            }
        }
    }
}

/// A journey only gives criteria at arrival no better than those it starts from.
proof fn lemma_plan_grows<PT: RequestWithIters>(
    pt: PT,
    stop: PT::Stop,
    criteria: PT::Criteria,
    legs: Seq<(nat, nat, nat)>,
    arrival: nat,
)
    requires
        is_preorder(pt),
        steps_grow(pt),
    ensures
        plan_arrival(pt, stop, criteria, legs, arrival) matches Some(arrived) ==> pt.spec_is_lower(criteria, arrived),
    decreases legs.len(),
{
    if legs.len() > 0 && pt.spec_is_valid(criteria) {
        lemma_leg_grows(pt, stop, criteria, legs[0]);
        if let Some(debarked) = leg_debark(pt, stop, criteria, legs[0]) {
            if legs.len() == 1 {
                let arrived = pt.spec_arrive(pt.spec_arrival(arrival as usize), debarked.1);
                assert(pt.spec_is_lower(debarked.1, arrived));
            } else if legs[0].2 < pt.spec_nb_of_transfers_at(debarked.0) {
                let transferred = pt.spec_transfer(
                    debarked.0,
                    pt.spec_transfer_at(debarked.0, legs[0].2 as usize),
                    debarked.1,
                );
                lemma_plan_grows(pt, transferred.0, transferred.1, legs.drop_first(), arrival);
                assert(pt.spec_is_lower(debarked.1, transferred.1));
            }
        }
    }
}

/// A criteria lower than another one dominated by a front is dominated by it too.
pub(crate) proof fn lemma_dominates_above<A, PT: Request>(pt: PT, front: Seq<(A, PT::Criteria)>, lower: PT::Criteria, upper: PT::Criteria)
    requires
        is_preorder(pt),
        spec_dominates(front, lower, pt),
        pt.spec_is_lower(lower, upper),
    ensures
        spec_dominates(front, upper, pt),
{
    let i = choose|i: int| 0 <= i < front.len() && pt.spec_is_lower(#[trigger] front[i].1, lower);
    assert(pt.spec_is_lower(front[i].1, upper));
}

/// When the fronts are closed, a journey that waits at `stop` with criteria covered by the
/// wait fronts, or by the arrivals, arrives with criteria dominated by the arrivals.
proof fn lemma_closed_covers_plan<D, E, F, G, A, PT: RequestWithIters>(
    pt: PT,
    waits: Seq<Seq<(D, PT::Criteria)>>,
    new_waits: Seq<Seq<(E, PT::Criteria)>>,
    debarks: Seq<Seq<(F, PT::Criteria)>>,
    new_debarks: Seq<Seq<(G, PT::Criteria)>>,
    arrive: Seq<(A, PT::Criteria)>,
    stop: PT::Stop,
    criteria: PT::Criteria,
    legs: Seq<(nat, nat, nat)>,
    arrival: nat,
)
    requires
        is_preorder(pt),
        steps_grow(pt),
        waits_closed(pt, waits, new_waits, debarks, new_debarks, arrive),
        debarks_closed(pt, waits, new_waits, debarks, new_debarks, arrive),
        covered(pt, waits, new_waits, pt.spec_stop_id(stop) as int, criteria) || spec_dominates(
            arrive,
            criteria,
            pt,
        ),
        plan_arrival(pt, stop, criteria, legs, arrival) is Some,
    ensures
        spec_dominates(arrive, plan_arrival(pt, stop, criteria, legs, arrival)->0, pt),
    decreases legs.len(),
{
    let arrived = plan_arrival(pt, stop, criteria, legs, arrival)->0;
    lemma_plan_grows(pt, stop, criteria, legs, arrival);
    if spec_dominates(arrive, criteria, pt) {
        lemma_dominates_above(pt, arrive, criteria, arrived);
    } else {
        let debarked = leg_debark(pt, stop, criteria, legs[0])->0;
        assert(covered(pt, waits, new_waits, pt.spec_stop_id(stop) as int, criteria) && leg_debark(
            pt,
            stop,
            criteria,
            legs[0],
        ) is Some);
        if legs.len() == 1 {
            if spec_dominates(arrive, debarked.1, pt) {
                assert(pt.spec_is_lower(debarked.1, arrived));
                lemma_dominates_above(pt, arrive, debarked.1, arrived);
            } else {
                assert(covered(pt, debarks, new_debarks, pt.spec_stop_id(debarked.0) as int, debarked.1));
                assert(pt.spec_arrival(arrival as usize) == pt.spec_arrival(arrival as usize));
            }
        } else {
            let t = legs[0].2;
            let transferred = pt.spec_transfer(debarked.0, pt.spec_transfer_at(debarked.0, t as usize), debarked.1);
            lemma_plan_grows(pt, transferred.0, transferred.1, legs.drop_first(), arrival);
            if spec_dominates(arrive, debarked.1, pt) {
                assert(pt.spec_is_lower(debarked.1, transferred.1));
                lemma_dominates_above(pt, arrive, debarked.1, transferred.1);
            } else {
                assert(covered(pt, debarks, new_debarks, pt.spec_stop_id(debarked.0) as int, debarked.1));
                assert(pt.spec_transfer_at(debarked.0, t as usize) == pt.spec_transfer_at(debarked.0, t as usize));
            }
            lemma_closed_covers_plan(
                pt,
                waits,
                new_waits,
                debarks,
                new_debarks,
                arrive,
                transferred.0,
                transferred.1,
                legs.drop_first(),
                arrival,
            );
        }
    }
}

/// When the departures, the waits and the debarks are closed, the criteria at arrival of
/// every journey of `pt` are dominated by the arrivals.
pub proof fn lemma_closed_covers_journeys<D, E, F, G, A, PT: RequestWithIters>(
    pt: PT,
    waits: Seq<Seq<(D, PT::Criteria)>>,
    new_waits: Seq<Seq<(E, PT::Criteria)>>,
    debarks: Seq<Seq<(F, PT::Criteria)>>,
    new_debarks: Seq<Seq<(G, PT::Criteria)>>,
    arrive: Seq<(A, PT::Criteria)>,
    departure: nat,
    legs: Seq<(nat, nat, nat)>,
    arrival: nat,
)
    requires
        is_preorder(pt),
        steps_grow(pt),
        departures_closed(pt, waits, new_waits, arrive),
        waits_closed(pt, waits, new_waits, debarks, new_debarks, arrive),
        debarks_closed(pt, waits, new_waits, debarks, new_debarks, arrive),
        journey_arrival(pt, departure, legs, arrival) is Some,
    ensures
        spec_dominates(arrive, journey_arrival(pt, departure, legs, arrival)->0, pt),
{
    let departed = pt.spec_depart(pt.spec_departure(departure as usize));
    assert(pt.spec_departure(departure as usize) == pt.spec_departure(departure as usize));
    lemma_closed_covers_plan(pt, waits, new_waits, debarks, new_debarks, arrive, departed.0, departed.1, legs, arrival);
}

/// The steps of a journey keep the order of criteria: from lower criteria, whatever the
/// trips, every step can be made that can be made from higher ones, and gives lower
/// criteria (the same stop for a transfer); and criteria lower than valid ones are valid.
pub open spec fn steps_monotone<PT: Request>(pt: PT) -> bool {
    &&& forall|lower: PT::Criteria, upper: PT::Criteria|
        #[trigger] pt.spec_is_lower(lower, upper) && pt.spec_is_valid(upper) ==> pt.spec_is_valid(lower)
    &&& forall|position: PT::Position, mission: PT::Mission, lower: PT::Criteria, upper: PT::Criteria|
        #![trigger pt.spec_best_trip_to_board(position, mission, lower), pt.spec_best_trip_to_board(position, mission, upper)]
        pt.spec_is_lower(lower, upper) && pt.spec_best_trip_to_board(position, mission, upper) is Some
            ==> pt.spec_best_trip_to_board(position, mission, lower) is Some && pt.spec_is_lower(
            pt.spec_best_trip_to_board(position, mission, lower).unwrap().1,
            pt.spec_best_trip_to_board(position, mission, upper).unwrap().1,
        )
    &&& forall|trip: PT::Trip, other: PT::Trip, position: PT::Position, lower: PT::Criteria, upper: PT::Criteria|
        #![trigger pt.spec_ride(trip, position, lower), pt.spec_ride(other, position, upper)]
        pt.spec_is_lower(lower, upper) ==> pt.spec_is_lower(
            pt.spec_ride(trip, position, lower),
            pt.spec_ride(other, position, upper),
        )
    &&& forall|trip: PT::Trip, other: PT::Trip, position: PT::Position, lower: PT::Criteria, upper: PT::Criteria|
        #![trigger pt.spec_debark(trip, position, lower), pt.spec_debark(other, position, upper)]
        pt.spec_is_lower(lower, upper) && pt.spec_debark(other, position, upper) is Some ==> pt.spec_debark(
            trip,
            position,
            lower,
        ) is Some && pt.spec_is_lower(
            pt.spec_debark(trip, position, lower).unwrap(),
            pt.spec_debark(other, position, upper).unwrap(),
        )
    &&& forall|stop: PT::Stop, transfer: PT::Transfer, lower: PT::Criteria, upper: PT::Criteria|
        #![trigger pt.spec_transfer(stop, transfer, lower), pt.spec_transfer(stop, transfer, upper)]
        pt.spec_is_lower(lower, upper) ==> pt.spec_transfer(stop, transfer, lower).0 == pt.spec_transfer(
            stop,
            transfer,
            upper,
        ).0 && pt.spec_is_lower(pt.spec_transfer(stop, transfer, lower).1, pt.spec_transfer(stop, transfer, upper).1)
    &&& forall|arrival: PT::Arrival, lower: PT::Criteria, upper: PT::Criteria|
        #![trigger pt.spec_arrive(arrival, lower), pt.spec_arrive(arrival, upper)]
        pt.spec_is_lower(lower, upper) ==> pt.spec_is_lower(pt.spec_arrive(arrival, lower), pt.spec_arrive(arrival, upper))
}

/// From lower criteria, on any trip, riding reaches the same position with lower criteria.
pub proof fn lemma_ridden_monotone<PT: Request>(
    pt: PT,
    trip: PT::Trip,
    other: PT::Trip,
    mission: PT::Mission,
    position: PT::Position,
    lower: PT::Criteria,
    upper: PT::Criteria,
    rides: nat,
)
    requires
        steps_monotone(pt),
        pt.spec_is_lower(lower, upper),
        ridden(pt, other, mission, position, upper, rides) is Some,
    ensures
        ridden(pt, trip, mission, position, lower, rides) is Some,
        ridden(pt, trip, mission, position, lower, rides).unwrap().0 == ridden(
            pt,
            other,
            mission,
            position,
            upper,
            rides,
        ).unwrap().0,
        pt.spec_is_lower(
            ridden(pt, trip, mission, position, lower, rides).unwrap().1,
            ridden(pt, other, mission, position, upper, rides).unwrap().1,
        ),
    decreases rides,
{
    assert(pt.spec_is_valid(lower));
    if rides > 0 {
        let next = pt.spec_next_on_mission(position, mission).unwrap();
        assert(pt.spec_is_lower(pt.spec_ride(trip, position, lower), pt.spec_ride(other, position, upper)));
        lemma_ridden_monotone(
            pt,
            trip,
            other,
            mission,
            next,
            pt.spec_ride(trip, position, lower),
            pt.spec_ride(other, position, upper),
            (rides - 1) as nat,
        );
    }
}

/// Waiting with lower criteria, a vehicle leg that can be taken from higher ones can be
/// taken too, and debarks at the same stop with lower criteria.
pub proof fn lemma_leg_monotone<PT: RequestWithIters>(
    pt: PT,
    stop: PT::Stop,
    lower: PT::Criteria,
    upper: PT::Criteria,
    leg: (nat, nat, nat),
)
    requires
        steps_monotone(pt),
        pt.spec_is_lower(lower, upper),
        leg_debark(pt, stop, upper, leg) is Some,
    ensures
        leg_debark(pt, stop, lower, leg) is Some,
        leg_debark(pt, stop, lower, leg).unwrap().0 == leg_debark(pt, stop, upper, leg).unwrap().0,
        pt.spec_is_lower(leg_debark(pt, stop, lower, leg).unwrap().1, leg_debark(pt, stop, upper, leg).unwrap().1),
{
    let (mission, position) = pt.spec_boardable_mission_at(stop, leg.0 as usize);
    let best_upper = pt.spec_best_trip_to_board(position, mission, upper).unwrap();
    assert(pt.spec_best_trip_to_board(position, mission, lower) is Some);
    let best_lower = pt.spec_best_trip_to_board(position, mission, lower).unwrap();
    let next = pt.spec_next_on_mission(position, mission).unwrap();
    lemma_ridden_monotone(pt, best_lower.0, best_upper.0, mission, next, best_lower.1, best_upper.1, leg.1);
    let reached_upper = ridden(pt, best_upper.0, mission, next, best_upper.1, leg.1).unwrap();
    let reached_lower = ridden(pt, best_lower.0, mission, next, best_lower.1, leg.1).unwrap();
    assert(pt.spec_debark(best_upper.0, reached_upper.0, reached_upper.1) is Some);
    assert(pt.spec_debark(best_lower.0, reached_lower.0, reached_lower.1) is Some);
}

/// When neither of two fronts dominates `criteria`, removing from both the elements it
/// dominates and appending it to the second keeps dominated what either dominated, makes the
/// second dominate `criteria`, and keeps in the first only elements it had.
pub proof fn lemma_two_fronts_add<A, PT: Request>(
    pt: PT,
    front: Seq<(A, PT::Criteria)>,
    new_front: Seq<(A, PT::Criteria)>,
    item: A,
    criteria: PT::Criteria,
    other: PT::Criteria,
)
    requires
        is_preorder(pt),
        !spec_dominates(new_front, criteria, pt),
    ensures
        spec_dominates(new_front.filter(not_dominated_by::<A, PT::Criteria, PT>(criteria, pt)).push((item, criteria)), criteria, pt),
        spec_dominates(front, other, pt) || spec_dominates(new_front, other, pt) ==> spec_dominates(
            front.filter(not_dominated_by::<A, PT::Criteria, PT>(criteria, pt)),
            other,
            pt,
        ) || spec_dominates(
            new_front.filter(not_dominated_by::<A, PT::Criteria, PT>(criteria, pt)).push((item, criteria)),
            other,
            pt,
        ),
        forall|k: int|
            0 <= k < front.filter(not_dominated_by::<A, PT::Criteria, PT>(criteria, pt)).len() ==> front.contains(
                #[trigger] front.filter(not_dominated_by::<A, PT::Criteria, PT>(criteria, pt))[k],
            ),
{
    let pred = not_dominated_by::<A, PT::Criteria, PT>(criteria, pt);
    let kept = front.filter(pred);
    let pushed = new_front.filter(pred).push((item, criteria));
    assert(added(new_front, item, criteria, pt) == pushed);
    lemma_added_dominates(new_front, item, criteria, other, pt);
    crate::engine::pareto_front::lemma_filter_subset(front, pred);
    if spec_dominates(front, other, pt) {
        let i = choose|i: int| 0 <= i < front.len() && pt.spec_is_lower(#[trigger] front[i].1, other);
        if pred(front[i]) {
            front.lemma_filter_contains(pred, i);
            let k = choose|k: int| 0 <= k < kept.len() && kept[k] == front[i];
            assert(pt.spec_is_lower(kept[k].1, other));
        } else {
            assert(pt.spec_is_lower(criteria, other));
            assert(pushed[pushed.len() - 1].1 == criteria);
        }
    }
}

/// Debarking the trips `boards` at `position` keeps dominated what the debark fronts
/// dominated, and keeps in the debark front only elements it had.
pub(crate) proof fn lemma_debarks_along_keeps<PT: Request>(
    pt: PT,
    position: PT::Position,
    boards: Seq<((Board, PT::Trip), PT::Criteria)>,
    debarks: Seq<(Debark, PT::Criteria)>,
    new_debarks: Seq<(Debark, PT::Criteria)>,
    next: nat,
    other: PT::Criteria,
)
    requires
        is_preorder(pt),
    ensures
        ({
            let out = debarks_along(pt, position, boards, debarks, new_debarks, next);
            &&& spec_dominates(debarks, other, pt) || spec_dominates(new_debarks, other, pt) ==> spec_dominates(
                out.0,
                other,
                pt,
            ) || spec_dominates(out.1, other, pt)
            &&& forall|k: int| 0 <= k < out.0.len() ==> debarks.contains(#[trigger] out.0[k])
        }),
    decreases boards.len(),
{
    if boards.len() > 0 {
        lemma_debarks_along_keeps(pt, position, boards.drop_last(), debarks, new_debarks, next, other);
        let (d, nd, n) = debarks_along(pt, position, boards.drop_last(), debarks, new_debarks, next);
        let b = boards.last();
        if let Some(c) = pt.spec_debark(b.0.1, position, b.1) {
            if !spec_dominates(d, c, pt) && !spec_dominates(nd, c, pt) {
                lemma_two_fronts_add(pt, d, nd, crate::engine::journeys_tree::debark_at(n), c, other);
                let out0 = d.filter(not_dominated_by::<Debark, PT::Criteria, PT>(c, pt));
                assert forall|k: int| 0 <= k < out0.len() implies debarks.contains(#[trigger] out0[k]) by {
                    assert(d.contains(out0[k]));
                    let j = choose|j: int| 0 <= j < d.len() && d[j] == out0[k];
                    assert(debarks.contains(d[j]));
                }
            }
        }
    }
}

/// Debarking the trips `boards` at `position`, the debark criteria of each of them end
/// dominated by one of the debark fronts.
pub(crate) proof fn lemma_debarks_along_covers<PT: Request>(
    pt: PT,
    position: PT::Position,
    boards: Seq<((Board, PT::Trip), PT::Criteria)>,
    debarks: Seq<(Debark, PT::Criteria)>,
    new_debarks: Seq<(Debark, PT::Criteria)>,
    next: nat,
    k: int,
)
    requires
        is_preorder(pt),
        0 <= k < boards.len(),
        pt.spec_debark(boards[k].0.1, position, boards[k].1) is Some,
    ensures
        ({
            let out = debarks_along(pt, position, boards, debarks, new_debarks, next);
            let c = pt.spec_debark(boards[k].0.1, position, boards[k].1).unwrap();
            spec_dominates(out.0, c, pt) || spec_dominates(out.1, c, pt)
        }),
    decreases boards.len(),
{
    let c = pt.spec_debark(boards[k].0.1, position, boards[k].1).unwrap();
    let rest = boards.drop_last();
    let (d, nd, n) = debarks_along(pt, position, rest, debarks, new_debarks, next);
    if k < boards.len() - 1 {
        assert(rest[k] == boards[k]);
        lemma_debarks_along_covers(pt, position, rest, debarks, new_debarks, next, k);
    }
    let b = boards.last();
    if let Some(c2) = pt.spec_debark(b.0.1, position, b.1) {
        if !spec_dominates(d, c2, pt) && !spec_dominates(nd, c2, pt) {
            lemma_two_fronts_add(pt, d, nd, crate::engine::journeys_tree::debark_at(n), c2, c);
            if k == boards.len() - 1 {
                assert(c2 == c);
            }
        }
    }
}

/// Boarding from the waits `waits` at `position` keeps dominated what the front dominated,
/// and the criteria of the best trip of each wait end invalid, dominated by the arrivals, or
/// dominated by the front.
pub(crate) proof fn lemma_boards_from_waits_covers<PT: Request>(
    pt: PT,
    position: PT::Position,
    mission: PT::Mission,
    waits: Seq<(crate::engine::journeys_tree::Wait, PT::Criteria)>,
    arrive: Seq<(crate::engine::journeys_tree::Arrive, PT::Criteria)>,
    front: Seq<((Board, PT::Trip), PT::Criteria)>,
    next: nat,
    other: PT::Criteria,
)
    requires
        is_preorder(pt),
    ensures
        ({
            let out = boards_from_waits(pt, position, mission, waits, arrive, front, next).0;
            &&& spec_dominates(front, other, pt) ==> spec_dominates(out, other, pt)
            &&& forall|k: int|
                0 <= k < waits.len() && #[trigger] pt.spec_best_trip_to_board(position, mission, waits[k].1)
                    is Some && pt.spec_best_trip_to_board(position, mission, waits[k].1).unwrap().1 == other
                    ==> !pt.spec_is_valid(other) || spec_dominates(arrive, other, pt) || spec_dominates(out, other, pt)
        }),
    decreases waits.len(),
{
    if waits.len() > 0 {
        let rest = waits.drop_last();
        lemma_boards_from_waits_covers(pt, position, mission, rest, arrive, front, next, other);
        let (f, n) = boards_from_waits(pt, position, mission, rest, arrive, front, next);
        let out = boards_from_waits(pt, position, mission, waits, arrive, front, next).0;
        if let Some(best) = pt.spec_best_trip_to_board(position, mission, waits.last().1) {
            if pt.spec_is_valid(best.1) && !spec_dominates(arrive, best.1, pt) && !spec_dominates(f, best.1, pt) {
                assert(added(f, (board_at(n), best.0), best.1, pt) == out);
                lemma_added_dominates(f, (board_at(n), best.0), best.1, other, pt);
            }
        }
        assert forall|k: int|
            0 <= k < waits.len() && #[trigger] pt.spec_best_trip_to_board(position, mission, waits[k].1) is Some
                && pt.spec_best_trip_to_board(position, mission, waits[k].1).unwrap().1 == other implies !pt.spec_is_valid(
            other,
        ) || spec_dominates(arrive, other, pt) || spec_dominates(out, other, pt) by {
            if k < rest.len() {
                assert(rest[k] == waits[k]);
            }
        }
    }
}

/// Riding the boarded trips `boards` from `position` keeps dominated what the front
/// dominated, and the criteria of each trip at the next position end invalid, dominated by
/// the arrivals, or dominated by the front.
pub(crate) proof fn lemma_boards_ridden_covers<PT: Request>(
    pt: PT,
    position: PT::Position,
    boards: Seq<((Board, PT::Trip), PT::Criteria)>,
    arrive: Seq<(crate::engine::journeys_tree::Arrive, PT::Criteria)>,
    front: Seq<((Board, PT::Trip), PT::Criteria)>,
    other: PT::Criteria,
)
    requires
        is_preorder(pt),
    ensures
        ({
            let out = boards_ridden(pt, position, boards, arrive, front);
            &&& spec_dominates(front, other, pt) ==> spec_dominates(out, other, pt)
            &&& forall|k: int|
                0 <= k < boards.len() && #[trigger] pt.spec_ride(boards[k].0.1, position, boards[k].1) == other
                    ==> !pt.spec_is_valid(other) || spec_dominates(arrive, other, pt) || spec_dominates(out, other, pt)
        }),
    decreases boards.len(),
{
    if boards.len() > 0 {
        let rest = boards.drop_last();
        lemma_boards_ridden_covers(pt, position, rest, arrive, front, other);
        let f = boards_ridden(pt, position, rest, arrive, front);
        let out = boards_ridden(pt, position, boards, arrive, front);
        let b = boards.last();
        let c = pt.spec_ride(b.0.1, position, b.1);
        if pt.spec_is_valid(c) && !spec_dominates(arrive, c, pt) && !spec_dominates(f, c, pt) {
            assert(added(f, b.0, c, pt) == out);
            lemma_added_dominates(f, b.0, c, other, pt);
        }
        assert forall|k: int|
            0 <= k < boards.len() && #[trigger] pt.spec_ride(boards[k].0.1, position, boards[k].1) == other implies !pt.spec_is_valid(
            other,
        ) || spec_dominates(arrive, other, pt) || spec_dominates(out, other, pt) by {
            if k < rest.len() {
                assert(rest[k] == boards[k]);
            }
        }
    }
}

/// Every stop has an id below the number of stops.
pub open spec fn stop_ids_in_range<PT: Request>(pt: PT) -> bool {
    forall|stop: PT::Stop| #[trigger] pt.spec_stop_id(stop) < pt.spec_nb_of_stops()
}

/// What riding along a mission changes: the debark fronts and the new debark fronts by
/// stop id, the numbers of debarks and of boards, and the front of the boarded trips
pub type RideState<PT> = (
    Seq<Seq<(Debark, <PT as RequestTypes>::Criteria)>>,
    Seq<Seq<(Debark, <PT as RequestTypes>::Criteria)>>,
    nat,
    nat,
    Seq<((Board, <PT as RequestTypes>::Trip), <PT as RequestTypes>::Criteria)>,
);

/// A criteria above one covered by fronts is covered by them.
pub proof fn lemma_covered_above<D, E, PT: Request>(
    pt: PT,
    fronts: Seq<Seq<(D, PT::Criteria)>>,
    new_fronts: Seq<Seq<(E, PT::Criteria)>>,
    s: int,
    lower: PT::Criteria,
    upper: PT::Criteria,
)
    requires
        is_preorder(pt),
        covered(pt, fronts, new_fronts, s, lower),
        pt.spec_is_lower(lower, upper),
    ensures
        covered(pt, fronts, new_fronts, s, upper),
{
    if 0 <= s < fronts.len() && spec_dominates(fronts[s], lower, pt) {
        lemma_dominates_above(pt, fronts[s], lower, upper);
    } else {
        lemma_dominates_above(pt, new_fronts[s], lower, upper);
    }
}

/// Riding along `mission` from `position` keeps covered what the debark fronts covered,
/// keeps the number of stops, and keeps in each debark front only elements it had.
pub(crate) proof fn lemma_ride_from_keeps<PT: Request>(
    pt: PT,
    mission: PT::Mission,
    position: PT::Position,
    new_waits: Seq<Seq<(crate::engine::journeys_tree::Wait, PT::Criteria)>>,
    arrive: Seq<(crate::engine::journeys_tree::Arrive, PT::Criteria)>,
    state: RideState<PT>,
    s: int,
    other: PT::Criteria,
)
    requires
        is_preorder(pt),
        stop_ids_in_range(pt),
        state.0.len() == pt.spec_nb_of_stops(),
        state.1.len() == pt.spec_nb_of_stops(),
    ensures
        ({
            let out = ride_from(pt, mission, position, new_waits, arrive, state);
            &&& out.0.len() == state.0.len()
            &&& out.1.len() == state.1.len()
            &&& covered(pt, state.0, state.1, s, other) ==> covered(pt, out.0, out.1, s, other)
            &&& forall|t: int, k: int|
                0 <= t < out.0.len() && 0 <= k < out.0[t].len() ==> state.0[t].contains(#[trigger] out.0[t][k])
        }),
    decreases pt.spec_nb_of_positions_after(position, mission),
{
    let sq = pt.spec_stop_id(pt.spec_stop_of(position, mission)) as int;
    let debarked = debarks_along(pt, position, state.4, state.0[sq], state.1[sq], state.2);
    let after: RideState<PT> = (state.0.update(sq, debarked.0), state.1.update(sq, debarked.1), debarked.2, state.3, state.4);
    lemma_debarks_along_keeps(pt, position, state.4, state.0[sq], state.1[sq], state.2, other);
    assert(covered(pt, state.0, state.1, s, other) ==> covered(pt, after.0, after.1, s, other));
    assert forall|t: int, k: int| 0 <= t < after.0.len() && 0 <= k < after.0[t].len() implies state.0[t].contains(
        #[trigger] after.0[t][k],
    ) by {
        if t != sq {
            assert(after.0[t] == state.0[t]);
            assert(state.0[t][k] == after.0[t][k]);
        }
    }
    if let Some(next) = pt.spec_next_on_mission(position, mission) {
        if pt.spec_nb_of_positions_after(next, mission) < pt.spec_nb_of_positions_after(position, mission) {
            let boarded = boards_from_waits(pt, position, mission, new_waits[sq], arrive, Seq::empty(), state.3);
            let state2: RideState<PT> = (after.0, after.1, after.2, boarded.1, boards_ridden(pt, position, state.4, arrive, boarded.0));
            lemma_ride_from_keeps(pt, mission, next, new_waits, arrive, state2, s, other);
            let out = ride_from(pt, mission, next, new_waits, arrive, state2);
            assert forall|t: int, k: int| 0 <= t < out.0.len() && 0 <= k < out.0[t].len() implies state.0[t].contains(
                #[trigger] out.0[t][k],
            ) by {
                assert(state2.0[t].contains(out.0[t][k]));
                let j = choose|j: int| 0 <= j < state2.0[t].len() && state2.0[t][j] == out.0[t][k];
                assert(state.0[t].contains(state2.0[t][j]));
            }
        }
    }
}

/// Riding along `mission` from `position`, a trip on board there with criteria dominated by
/// the front of the boarded trips, or by the arrivals, debarks wherever it can, further on,
/// with criteria covered by the debark fronts, or dominated by the arrivals.
pub(crate) proof fn lemma_ride_from_covers_onboard<PT: Request>(
    pt: PT,
    mission: PT::Mission,
    position: PT::Position,
    new_waits: Seq<Seq<(crate::engine::journeys_tree::Wait, PT::Criteria)>>,
    arrive: Seq<(crate::engine::journeys_tree::Arrive, PT::Criteria)>,
    state: RideState<PT>,
    trip: PT::Trip,
    criteria: PT::Criteria,
    rides: nat,
)
    requires
        is_preorder(pt),
        steps_grow(pt),
        steps_monotone(pt),
        stop_ids_in_range(pt),
        state.0.len() == pt.spec_nb_of_stops(),
        state.1.len() == pt.spec_nb_of_stops(),
        spec_dominates(state.4, criteria, pt) || spec_dominates(arrive, criteria, pt),
        ridden(pt, trip, mission, position, criteria, rides) is Some,
        pt.spec_debark(
            trip,
            ridden(pt, trip, mission, position, criteria, rides).unwrap().0,
            ridden(pt, trip, mission, position, criteria, rides).unwrap().1,
        ) is Some,
    ensures
        ({
            let out = ride_from(pt, mission, position, new_waits, arrive, state);
            let reached = ridden(pt, trip, mission, position, criteria, rides).unwrap();
            let debarked = pt.spec_debark(trip, reached.0, reached.1).unwrap();
            covered(pt, out.0, out.1, pt.spec_stop_id(pt.spec_stop_of(reached.0, mission)) as int, debarked)
                || spec_dominates(arrive, debarked, pt)
        }),
    decreases rides,
{
    let reached = ridden(pt, trip, mission, position, criteria, rides).unwrap();
    let debarked = pt.spec_debark(trip, reached.0, reached.1).unwrap();
    let target = pt.spec_stop_id(pt.spec_stop_of(reached.0, mission)) as int;
    lemma_ridden_grows(pt, trip, mission, position, criteria, rides);
    if spec_dominates(arrive, criteria, pt) {
        assert(pt.spec_is_lower(reached.1, debarked));
        assert(pt.spec_is_lower(criteria, debarked));
        lemma_dominates_above(pt, arrive, criteria, debarked);
    } else {
        let i = choose|i: int| 0 <= i < state.4.len() && pt.spec_is_lower(#[trigger] state.4[i].1, criteria);
        let f = state.4[i];
        let sq = pt.spec_stop_id(pt.spec_stop_of(position, mission)) as int;
        let debarked_here = debarks_along(pt, position, state.4, state.0[sq], state.1[sq], state.2);
        let after: RideState<PT> = (
            state.0.update(sq, debarked_here.0),
            state.1.update(sq, debarked_here.1),
            debarked_here.2,
            state.3,
            state.4,
        );
        let out = ride_from(pt, mission, position, new_waits, arrive, state);
        if rides == 0 {
            assert(reached == (position, criteria));
            assert(pt.spec_debark(f.0.1, position, f.1) is Some);
            let debarked_f = pt.spec_debark(f.0.1, position, f.1).unwrap();
            lemma_debarks_along_covers(pt, position, state.4, state.0[sq], state.1[sq], state.2, i);
            assert(covered(pt, after.0, after.1, sq, debarked_f));
            match pt.spec_next_on_mission(position, mission) {
                Some(next) => if pt.spec_nb_of_positions_after(next, mission) < pt.spec_nb_of_positions_after(
                    position,
                    mission,
                ) {
                    let boarded = boards_from_waits(pt, position, mission, new_waits[sq], arrive, Seq::empty(), state.3);
                    let state2: RideState<PT> = (
                        after.0,
                        after.1,
                        after.2,
                        boarded.1,
                        boards_ridden(pt, position, state.4, arrive, boarded.0),
                    );
                    lemma_ride_from_keeps(pt, mission, next, new_waits, arrive, state2, sq, debarked_f);
                },
                None => {},
            }
            lemma_covered_above(pt, out.0, out.1, sq, debarked_f, debarked);
        } else {
            let next = pt.spec_next_on_mission(position, mission).unwrap();
            let ridden_once = pt.spec_ride(trip, position, criteria);
            let ridden_f = pt.spec_ride(f.0.1, position, f.1);
            assert(pt.spec_is_lower(ridden_f, ridden_once));
            let boarded = boards_from_waits(pt, position, mission, new_waits[sq], arrive, Seq::empty(), state.3);
            let state2: RideState<PT> = (
                after.0,
                after.1,
                after.2,
                boarded.1,
                boards_ridden(pt, position, state.4, arrive, boarded.0),
            );
            lemma_boards_ridden_covers(pt, position, state.4, arrive, boarded.0, ridden_f);
            assert(pt.spec_ride(state.4[i].0.1, position, state.4[i].1) == ridden_f);
            assert(ridden(pt, trip, mission, position, criteria, rides) == ridden(
                pt,
                trip,
                mission,
                next,
                ridden_once,
                (rides - 1) as nat,
            ));
            assert(pt.spec_is_valid(ridden_once));
            if spec_dominates(arrive, ridden_f, pt) {
                lemma_dominates_above(pt, arrive, ridden_f, ridden_once);
            } else {
                lemma_dominates_above(pt, state2.4, ridden_f, ridden_once);
            }
            lemma_debarks_along_keeps(pt, position, state.4, state.0[sq], state.1[sq], state.2, criteria);
            lemma_ride_from_covers_onboard(
                pt,
                mission,
                next,
                new_waits,
                arrive,
                state2,
                trip,
                ridden_once,
                (rides - 1) as nat,
            );
        }
    }
}

/// Riding along `mission` from `position`, a traveler waiting at its stop with criteria
/// dominated by a new wait there, who boards the best trip and rides it, debarks wherever he
/// can with criteria covered by the debark fronts, or dominated by the arrivals.
pub(crate) proof fn lemma_ride_from_covers_boarding<PT: Request>(
    pt: PT,
    mission: PT::Mission,
    position: PT::Position,
    new_waits: Seq<Seq<(crate::engine::journeys_tree::Wait, PT::Criteria)>>,
    arrive: Seq<(crate::engine::journeys_tree::Arrive, PT::Criteria)>,
    state: RideState<PT>,
    waiting: PT::Criteria,
    rides: nat,
)
    requires
        is_preorder(pt),
        steps_grow(pt),
        steps_monotone(pt),
        stop_ids_in_range(pt),
        state.0.len() == pt.spec_nb_of_stops(),
        state.1.len() == pt.spec_nb_of_stops(),
        new_waits.len() == pt.spec_nb_of_stops(),
        spec_dominates(new_waits[pt.spec_stop_id(pt.spec_stop_of(position, mission)) as int], waiting, pt),
        pt.spec_best_trip_to_board(position, mission, waiting) is Some,
        pt.spec_next_on_mission(position, mission) is Some,
        pt.spec_nb_of_positions_after(pt.spec_next_on_mission(position, mission).unwrap(), mission)
            < pt.spec_nb_of_positions_after(position, mission),
        ({
            let best = pt.spec_best_trip_to_board(position, mission, waiting).unwrap();
            let next = pt.spec_next_on_mission(position, mission).unwrap();
            &&& ridden(pt, best.0, mission, next, best.1, rides) is Some
            &&& pt.spec_debark(
                best.0,
                ridden(pt, best.0, mission, next, best.1, rides).unwrap().0,
                ridden(pt, best.0, mission, next, best.1, rides).unwrap().1,
            ) is Some
        }),
    ensures
        ({
            let out = ride_from(pt, mission, position, new_waits, arrive, state);
            let best = pt.spec_best_trip_to_board(position, mission, waiting).unwrap();
            let next = pt.spec_next_on_mission(position, mission).unwrap();
            let reached = ridden(pt, best.0, mission, next, best.1, rides).unwrap();
            let debarked = pt.spec_debark(best.0, reached.0, reached.1).unwrap();
            covered(pt, out.0, out.1, pt.spec_stop_id(pt.spec_stop_of(reached.0, mission)) as int, debarked)
                || spec_dominates(arrive, debarked, pt)
        }),
{
    let sq = pt.spec_stop_id(pt.spec_stop_of(position, mission)) as int;
    let best = pt.spec_best_trip_to_board(position, mission, waiting).unwrap();
    let next = pt.spec_next_on_mission(position, mission).unwrap();
    let w = choose|k: int| 0 <= k < new_waits[sq].len() && pt.spec_is_lower(#[trigger] new_waits[sq][k].1, waiting);
    let element = new_waits[sq][w];
    assert(pt.spec_best_trip_to_board(position, mission, element.1) is Some);
    let best_w = pt.spec_best_trip_to_board(position, mission, element.1).unwrap();
    assert(pt.spec_is_lower(best_w.1, best.1));
    let debarked_here = debarks_along(pt, position, state.4, state.0[sq], state.1[sq], state.2);
    let after: RideState<PT> = (
        state.0.update(sq, debarked_here.0),
        state.1.update(sq, debarked_here.1),
        debarked_here.2,
        state.3,
        state.4,
    );
    let boarded = boards_from_waits(pt, position, mission, new_waits[sq], arrive, Seq::empty(), state.3);
    let state2: RideState<PT> = (
        after.0,
        after.1,
        after.2,
        boarded.1,
        boards_ridden(pt, position, state.4, arrive, boarded.0),
    );
    lemma_boards_from_waits_covers(pt, position, mission, new_waits[sq], arrive, Seq::empty(), state.3, best_w.1);
    lemma_boards_ridden_covers(pt, position, state.4, arrive, boarded.0, best_w.1);
    assert(pt.spec_is_valid(best.1));
    assert(pt.spec_is_valid(best_w.1));
    if spec_dominates(arrive, best_w.1, pt) {
        lemma_dominates_above(pt, arrive, best_w.1, best.1);
    } else {
        assert(spec_dominates(boarded.0, best_w.1, pt));
        lemma_dominates_above(pt, state2.4, best_w.1, best.1);
    }
    lemma_ride_from_covers_onboard(pt, mission, next, new_waits, arrive, state2, best.0, best.1, rides);
}

/// Riding along the first `k` missions keeps covered what the debark fronts covered, keeps
/// the number of stops, and keeps in each debark front only elements it had.
pub(crate) proof fn lemma_ride_missions_keeps<PT: Request>(
    pt: PT,
    missions: Seq<PT::Mission>,
    starts: Seq<Option<PT::Position>>,
    new_waits: Seq<Seq<(crate::engine::journeys_tree::Wait, PT::Criteria)>>,
    arrive: Seq<(crate::engine::journeys_tree::Arrive, PT::Criteria)>,
    state: RideState<PT>,
    k: nat,
    s: int,
    other: PT::Criteria,
)
    requires
        is_preorder(pt),
        stop_ids_in_range(pt),
        state.0.len() == pt.spec_nb_of_stops(),
        state.1.len() == pt.spec_nb_of_stops(),
    ensures
        ({
            let out = ride_missions(pt, missions, starts, new_waits, arrive, state, k);
            &&& out.0.len() == state.0.len()
            &&& out.1.len() == state.1.len()
            &&& covered(pt, state.0, state.1, s, other) ==> covered(pt, out.0, out.1, s, other)
            &&& forall|t: int, j: int|
                0 <= t < out.0.len() && 0 <= j < out.0[t].len() ==> state.0[t].contains(#[trigger] out.0[t][j])
        }),
    decreases k,
{
    if k > 0 {
        lemma_ride_missions_keeps(pt, missions, starts, new_waits, arrive, state, (k - 1) as nat, s, other);
        let before = ride_missions(pt, missions, starts, new_waits, arrive, state, (k - 1) as nat);
        let cleared: RideState<PT> = (before.0, before.1, before.2, before.3, Seq::empty());
        if let Some(p) = starts[k - 1] {
            lemma_ride_from_keeps(pt, missions[k - 1], p, new_waits, arrive, cleared, s, other);
            let out = ride_from(pt, missions[k - 1], p, new_waits, arrive, cleared);
            assert forall|t: int, j: int| 0 <= t < out.0.len() && 0 <= j < out.0[t].len() implies state.0[t].contains(
                #[trigger] out.0[t][j],
            ) by {
                assert(before.0[t].contains(out.0[t][j]));
                let i = choose|i: int| 0 <= i < before.0[t].len() && before.0[t][i] == out.0[t][j];
                assert(state.0[t].contains(before.0[t][i]));
            }
        }
    }
}

/// Riding along the first `k` missions, each from its start, a traveler waiting at the stop
/// of the start of one of them with criteria dominated by a new wait there, who boards its
/// best trip there and rides it, debarks wherever he can with criteria covered by the
/// debark fronts, or dominated by the arrivals.
pub(crate) proof fn lemma_ride_missions_covers<PT: Request>(
    pt: PT,
    missions: Seq<PT::Mission>,
    starts: Seq<Option<PT::Position>>,
    new_waits: Seq<Seq<(crate::engine::journeys_tree::Wait, PT::Criteria)>>,
    arrive: Seq<(crate::engine::journeys_tree::Arrive, PT::Criteria)>,
    state: RideState<PT>,
    k: nat,
    m: int,
    waiting: PT::Criteria,
    rides: nat,
)
    requires
        is_preorder(pt),
        steps_grow(pt),
        steps_monotone(pt),
        stop_ids_in_range(pt),
        state.0.len() == pt.spec_nb_of_stops(),
        state.1.len() == pt.spec_nb_of_stops(),
        new_waits.len() == pt.spec_nb_of_stops(),
        0 <= m < k,
        k <= starts.len(),
        k <= missions.len(),
        starts[m] is Some,
        ({
            let mission = missions[m];
            let position = starts[m].unwrap();
            &&& spec_dominates(new_waits[pt.spec_stop_id(pt.spec_stop_of(position, mission)) as int], waiting, pt)
            &&& pt.spec_best_trip_to_board(position, mission, waiting) is Some
            &&& pt.spec_next_on_mission(position, mission) is Some
            &&& pt.spec_nb_of_positions_after(pt.spec_next_on_mission(position, mission).unwrap(), mission)
                < pt.spec_nb_of_positions_after(position, mission)
            &&& ridden(
                pt,
                pt.spec_best_trip_to_board(position, mission, waiting).unwrap().0,
                mission,
                pt.spec_next_on_mission(position, mission).unwrap(),
                pt.spec_best_trip_to_board(position, mission, waiting).unwrap().1,
                rides,
            ) is Some
            &&& pt.spec_debark(
                pt.spec_best_trip_to_board(position, mission, waiting).unwrap().0,
                ridden(
                    pt,
                    pt.spec_best_trip_to_board(position, mission, waiting).unwrap().0,
                    mission,
                    pt.spec_next_on_mission(position, mission).unwrap(),
                    pt.spec_best_trip_to_board(position, mission, waiting).unwrap().1,
                    rides,
                ).unwrap().0,
                ridden(
                    pt,
                    pt.spec_best_trip_to_board(position, mission, waiting).unwrap().0,
                    mission,
                    pt.spec_next_on_mission(position, mission).unwrap(),
                    pt.spec_best_trip_to_board(position, mission, waiting).unwrap().1,
                    rides,
                ).unwrap().1,
            ) is Some
        }),
    ensures
        ({
            let out = ride_missions(pt, missions, starts, new_waits, arrive, state, k);
            let mission = missions[m];
            let position = starts[m].unwrap();
            let best = pt.spec_best_trip_to_board(position, mission, waiting).unwrap();
            let next = pt.spec_next_on_mission(position, mission).unwrap();
            let reached = ridden(pt, best.0, mission, next, best.1, rides).unwrap();
            let debarked = pt.spec_debark(best.0, reached.0, reached.1).unwrap();
            covered(pt, out.0, out.1, pt.spec_stop_id(pt.spec_stop_of(reached.0, mission)) as int, debarked)
                || spec_dominates(arrive, debarked, pt)
        }),
    decreases k,
{
    let mission = missions[m];
    let position = starts[m].unwrap();
    let best = pt.spec_best_trip_to_board(position, mission, waiting).unwrap();
    let next = pt.spec_next_on_mission(position, mission).unwrap();
    let reached = ridden(pt, best.0, mission, next, best.1, rides).unwrap();
    let debarked = pt.spec_debark(best.0, reached.0, reached.1).unwrap();
    let target = pt.spec_stop_id(pt.spec_stop_of(reached.0, mission)) as int;
    let before = ride_missions(pt, missions, starts, new_waits, arrive, state, (k - 1) as nat);
    lemma_ride_missions_keeps(pt, missions, starts, new_waits, arrive, state, (k - 1) as nat, target, debarked);
    let cleared: RideState<PT> = (before.0, before.1, before.2, before.3, Seq::empty());
    if m == k - 1 {
        lemma_ride_from_covers_boarding(pt, mission, position, new_waits, arrive, cleared, waiting, rides);
    } else {
        lemma_ride_missions_covers(pt, missions, starts, new_waits, arrive, state, (k - 1) as nat, m, waiting, rides);
        if let Some(p) = starts[k - 1] {
            lemma_ride_from_keeps(pt, missions[k - 1], p, new_waits, arrive, cleared, target, debarked);
        }
    }
}

/// Adding the arrival criteria `criteria` keeps dominated what the arrive front dominated,
/// and makes it dominate each of them.
pub(crate) proof fn lemma_arrives_added_covers<PT: Request>(
    pt: PT,
    front: Seq<(Arrive, PT::Criteria)>,
    next: nat,
    criteria: Seq<PT::Criteria>,
    other: PT::Criteria,
)
    requires
        is_preorder(pt),
    ensures
        ({
            let out = arrives_added(pt, front, next, criteria).0;
            &&& spec_dominates(front, other, pt) ==> spec_dominates(out, other, pt)
            &&& forall|k: int| 0 <= k < criteria.len() ==> spec_dominates(out, #[trigger] criteria[k], pt)
        }),
    decreases criteria.len(),
{
    if criteria.len() > 0 {
        let rest = criteria.drop_last();
        lemma_arrives_added_covers(pt, front, next, rest, other);
        let (f, n) = arrives_added(pt, front, next, rest);
        let c = criteria.last();
        let out = arrives_added(pt, front, next, criteria).0;
        assert(out == added(f, arrive_at(n), c, pt));
        lemma_added_dominates(f, arrive_at(n), c, other, pt);
        assert forall|k: int| 0 <= k < criteria.len() implies spec_dominates(out, #[trigger] criteria[k], pt) by {
            if k < rest.len() {
                assert(rest[k] == criteria[k]);
                lemma_arrives_added_covers(pt, front, next, rest, criteria[k]);
                lemma_added_dominates(f, arrive_at(n), c, criteria[k], pt);
            } else {
                lemma_added_dominates(f, arrive_at(n), c, c, pt);
            }
        }
    }
}

/// The arrival criteria of the first `i` arrivals from the new debarks hold those of each of
/// these arrivals from each new debark at its stop.
pub(crate) proof fn lemma_arrivals_of_holds<PT: RequestWithIters>(
    pt: PT,
    new_debarks: Seq<Seq<(Debark, PT::Criteria)>>,
    i: nat,
    a: nat,
    k: int,
)
    requires
        a < i,
        0 <= k < new_debarks[pt.spec_stop_id(pt.spec_arrival_stop(pt.spec_arrival(a as usize))) as int].len(),
    ensures
        arrivals_of(pt, new_debarks, i).contains(
            pt.spec_arrive(
                pt.spec_arrival(a as usize),
                new_debarks[pt.spec_stop_id(pt.spec_arrival_stop(pt.spec_arrival(a as usize))) as int][k].1,
            ),
        ),
    decreases i,
{
    let before = arrivals_of(pt, new_debarks, (i - 1) as nat);
    let arrival = pt.spec_arrival((i - 1) as usize);
    let mapped = new_debarks[pt.spec_stop_id(pt.spec_arrival_stop(arrival)) as int].map_values(
        |e: (Debark, PT::Criteria)| pt.spec_arrive(arrival, e.1),
    );
    if a < i - 1 {
        lemma_arrivals_of_holds(pt, new_debarks, (i - 1) as nat, a, k);
        let j = choose|j: int| 0 <= j < before.len() && before[j] == pt.spec_arrive(
            pt.spec_arrival(a as usize),
            new_debarks[pt.spec_stop_id(pt.spec_arrival_stop(pt.spec_arrival(a as usize))) as int][k].1,
        );
        assert((before + mapped)[j] == before[j]);
    } else {
        assert((before + mapped)[before.len() + k] == mapped[k]);
    }
}

/// Looking at reached stops and criteria keeps covered what the wait fronts covered, keeps
/// in each wait front only elements it had, and ends with each valid criteria reached
/// covered by the wait fronts of its stop, or dominated by the arrivals.
pub(crate) proof fn lemma_waits_added_covers<PT: Request>(
    pt: PT,
    arrive: Seq<(Arrive, PT::Criteria)>,
    waits: Seq<Seq<(Wait, PT::Criteria)>>,
    new_waits: Seq<Seq<(Wait, PT::Criteria)>>,
    next: nat,
    reached: Seq<(PT::Stop, PT::Criteria)>,
    s: int,
    other: PT::Criteria,
)
    requires
        is_preorder(pt),
        stop_ids_in_range(pt),
        waits.len() == pt.spec_nb_of_stops(),
        new_waits.len() == pt.spec_nb_of_stops(),
    ensures
        ({
            let out = waits_added(pt, arrive, waits, new_waits, next, reached);
            &&& out.0.len() == waits.len()
            &&& out.1.len() == new_waits.len()
            &&& covered(pt, waits, new_waits, s, other) ==> covered(pt, out.0, out.1, s, other)
            &&& forall|t: int, j: int|
                0 <= t < out.0.len() && 0 <= j < out.0[t].len() ==> waits[t].contains(#[trigger] out.0[t][j])
            &&& forall|k: int|
                0 <= k < reached.len() && pt.spec_is_valid(#[trigger] reached[k].1) ==> spec_dominates(
                    arrive,
                    reached[k].1,
                    pt,
                ) || covered(pt, out.0, out.1, pt.spec_stop_id(reached[k].0) as int, reached[k].1)
        }),
    decreases reached.len(),
{
    if reached.len() > 0 {
        let rest = reached.drop_last();
        lemma_waits_added_covers(pt, arrive, waits, new_waits, next, rest, s, other);
        let (w, nw, n) = waits_added(pt, arrive, waits, new_waits, next, rest);
        let out = waits_added(pt, arrive, waits, new_waits, next, reached);
        let c = reached.last().1;
        let sc = pt.spec_stop_id(reached.last().0) as int;
        let changes = pt.spec_is_valid(c) && !spec_dominates(arrive, c, pt) && !spec_dominates(w[sc], c, pt)
            && !spec_dominates(nw[sc], c, pt);
        if changes {
            lemma_two_fronts_add(pt, w[sc], nw[sc], wait_at(n), c, other);
        }
        assert(covered(pt, waits, new_waits, s, other) ==> covered(pt, out.0, out.1, s, other));
        assert forall|t: int, j: int| 0 <= t < out.0.len() && 0 <= j < out.0[t].len() implies waits[t].contains(
            #[trigger] out.0[t][j],
        ) by {
            if changes && t == sc {
                assert(w[sc].contains(out.0[t][j]));
                let i = choose|i: int| 0 <= i < w[sc].len() && w[sc][i] == out.0[t][j];
                assert(waits[t].contains(w[sc][i]));
            } else {
                assert(out.0[t] == w[t]);
                assert(w[t].contains(w[t][j]));
            }
        }
        assert forall|k: int|
            0 <= k < reached.len() && pt.spec_is_valid(#[trigger] reached[k].1) implies spec_dominates(
            arrive,
            reached[k].1,
            pt,
        ) || covered(pt, out.0, out.1, pt.spec_stop_id(reached[k].0) as int, reached[k].1) by {
            let sk = pt.spec_stop_id(reached[k].0) as int;
            if k < rest.len() {
                assert(rest[k] == reached[k]);
                lemma_waits_added_covers(pt, arrive, waits, new_waits, next, rest, sk, reached[k].1);
                if changes {
                    lemma_two_fronts_add(pt, w[sc], nw[sc], wait_at(n), c, reached[k].1);
                }
            } else if changes {
                lemma_two_fronts_add(pt, w[sc], nw[sc], wait_at(n), c, c);
            }
        }
    }
}

/// The transfers from the new debarks at the first `i` stops of `stops` hold each transfer
/// from each new debark at each of these stops.
pub(crate) proof fn lemma_transfers_from_stops_holds<PT: RequestWithIters>(
    pt: PT,
    stops: Seq<PT::Stop>,
    new_debarks: Seq<Seq<(Debark, PT::Criteria)>>,
    i: nat,
    j: int,
    k: int,
    t: nat,
)
    requires
        0 <= j < i <= stops.len(),
        0 <= k < new_debarks[pt.spec_stop_id(stops[j]) as int].len(),
        t < pt.spec_nb_of_transfers_at(stops[j]),
    ensures
        transfers_from_stops(pt, stops, new_debarks, i).contains(
            pt.spec_transfer(
                stops[j],
                pt.spec_transfer_at(stops[j], t as usize),
                new_debarks[pt.spec_stop_id(stops[j]) as int][k].1,
            ),
        ),
    decreases i,
{
    let before = transfers_from_stops(pt, stops, new_debarks, (i - 1) as nat);
    let stop = stops[i - 1];
    let front = new_debarks[pt.spec_stop_id(stop) as int];
    let added_here = transfers_from_debarks(pt, stop, front, front.len());
    let target = pt.spec_transfer(
        stops[j],
        pt.spec_transfer_at(stops[j], t as usize),
        new_debarks[pt.spec_stop_id(stops[j]) as int][k].1,
    );
    if j < i - 1 {
        lemma_transfers_from_stops_holds(pt, stops, new_debarks, (i - 1) as nat, j, k, t);
        let x = choose|x: int| 0 <= x < before.len() && before[x] == target;
        assert((before + added_here)[x] == before[x]);
    } else {
        lemma_transfers_from_debarks_holds(pt, stop, front, front.len(), k, t);
        let x = choose|x: int| 0 <= x < added_here.len() && added_here[x] == target;
        assert((before + added_here)[before.len() + x] == added_here[x]);
    }
}

/// The transfers from the first `n` debarks at `stop` hold each transfer from each of them.
pub(crate) proof fn lemma_transfers_from_debarks_holds<PT: RequestWithIters>(
    pt: PT,
    stop: PT::Stop,
    debarks: Seq<(Debark, PT::Criteria)>,
    n: nat,
    k: int,
    t: nat,
)
    requires
        0 <= k < n,
        t < pt.spec_nb_of_transfers_at(stop),
    ensures
        transfers_from_debarks(pt, stop, debarks, n).contains(
            pt.spec_transfer(stop, pt.spec_transfer_at(stop, t as usize), debarks[k].1),
        ),
    decreases n,
{
    let before = transfers_from_debarks(pt, stop, debarks, (n - 1) as nat);
    let here = transfers_from_debark(pt, stop, debarks[n - 1].1);
    let target = pt.spec_transfer(stop, pt.spec_transfer_at(stop, t as usize), debarks[k].1);
    if k < n - 1 {
        lemma_transfers_from_debarks_holds(pt, stop, debarks, (n - 1) as nat, k, t);
        let x = choose|x: int| 0 <= x < before.len() && before[x] == target;
        assert((before + here)[x] == before[x]);
    } else {
        assert(here[t as int] == target);
        assert((before + here)[before.len() + t as int] == here[t as int]);
    }
}

} // verus!
