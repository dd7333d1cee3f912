use vstd::prelude::*;

use crate::engine::completeness::{
    covered, debarks_closed, departures_closed, leg_debark, lemma_covered_above, lemma_dominates_above,
    lemma_leg_monotone, steps_grow, steps_monotone, stop_ids_in_range, waits_closed,
};
use crate::engine::journeys_tree::{Arrive, Debark, Wait};
use crate::engine::completeness::{lemma_ride_missions_covers, lemma_ride_missions_keeps, ridden, RideState};
use crate::engine::completeness::{
    lemma_arrivals_of_holds, lemma_arrives_added_covers, lemma_transfers_from_stops_holds, lemma_waits_added_covers,
};
use crate::engine::multicriteria_raptor::{
    appended_clones, arrivals_of, arrives_added, boardable_at_stops, lists_stop, moved_to, pair_missions,
    ride_missions, started_from, transfers_from_stops, waits_added,
};
use crate::engine::pareto_front::{is_preorder, spec_dominates};
use crate::traits::{Request, RequestWithIters};

verus! {

/// Clones of values of `T` are equal to them
pub open spec fn clones_equal<T: Clone>() -> bool {
    forall|a: T, b: T| #[trigger] cloned(a, b) ==> a == b
}

/// The request sees a stop only through its id: two stops with the same id have the same
/// missions to board, at the same positions, and the same transfers, which reach the same
/// stops with the same criteria
pub open spec fn stops_known_by_id<PT: RequestWithIters>(pt: PT) -> bool {
    forall|a: PT::Stop, b: PT::Stop|
        #[trigger] pt.spec_stop_id(a) == #[trigger] pt.spec_stop_id(b) ==> {
            &&& pt.spec_nb_of_boardable_missions_at(a) == pt.spec_nb_of_boardable_missions_at(b)
            &&& forall|i: usize|
                #[trigger] pt.spec_boardable_mission_at(a, i) == pt.spec_boardable_mission_at(b, i)
            &&& pt.spec_nb_of_transfers_at(a) == pt.spec_nb_of_transfers_at(b)
            &&& forall|t: usize, c: PT::Criteria|
                #[trigger] pt.spec_transfer(a, pt.spec_transfer_at(a, t), c) == pt.spec_transfer(
                    b,
                    pt.spec_transfer_at(b, t),
                    c,
                )
        }
}

/// A mission that can be boarded at a stop is boarded at a position of that stop
pub open spec fn boardable_at_stop<PT: RequestWithIters>(pt: PT) -> bool {
    forall|stop: PT::Stop, i: usize|
        i < pt.spec_nb_of_boardable_missions_at(stop) ==> pt.spec_stop_id(
            pt.spec_stop_of(
                (#[trigger] pt.spec_boardable_mission_at(stop, i)).1,
                pt.spec_boardable_mission_at(stop, i).0,
            ),
        ) == pt.spec_stop_id(stop)
}

/// The request behaves as the engine expects: its order on criteria is a preorder, each
/// step of a journey gives criteria no better than those it starts from and keeps the order
/// of criteria, stop ids are in range and the request sees a stop only through its id, a
/// mission that can be boarded at a stop is boarded at a position of that stop, and clones of
/// stops, positions and criteria are equal to them
pub open spec fn behaves<PT: RequestWithIters>(pt: PT) -> bool {
    &&& is_preorder(pt)
    &&& steps_grow(pt)
    &&& steps_monotone(pt)
    &&& stop_ids_in_range(pt)
    &&& stops_known_by_id(pt)
    &&& boardable_at_stop(pt)
    &&& clones_equal::<PT::Stop>()
    &&& clones_equal::<PT::Position>()
    &&& clones_equal::<PT::Criteria>()
}

/// Each stop id whose front is not empty is the id of a stop of `stops`
pub open spec fn listed<D, PT: Request>(pt: PT, fronts: Seq<Seq<(D, PT::Criteria)>>, stops: Seq<PT::Stop>) -> bool {
    forall|s: int| 0 <= s < fronts.len() && #[trigger] fronts[s].len() > 0 ==> lists_stop(pt, stops, s)
}

/// A stop and criteria reached by debarking are covered by the debark fronts at that stop,
/// or dominated by the arrivals
pub open spec fn lands<F, G, PT: Request>(
    pt: PT,
    debarks: Seq<Seq<(F, PT::Criteria)>>,
    new_debarks: Seq<Seq<(G, PT::Criteria)>>,
    arrive: Seq<(Arrive, PT::Criteria)>,
    debarked: (PT::Stop, PT::Criteria),
) -> bool {
    covered(pt, debarks, new_debarks, pt.spec_stop_id(debarked.0) as int, debarked.1) || spec_dominates(
        arrive,
        debarked.1,
        pt,
    )
}

/// Waiting at a stop with the criteria of an element of the front of its id in `waits`,
/// every vehicle leg that can be taken lands
pub open spec fn waits_done<D, F, G, PT: RequestWithIters>(
    pt: PT,
    waits: Seq<Seq<(D, PT::Criteria)>>,
    debarks: Seq<Seq<(F, PT::Criteria)>>,
    new_debarks: Seq<Seq<(G, PT::Criteria)>>,
    arrive: Seq<(Arrive, PT::Criteria)>,
) -> bool {
    forall|stop: PT::Stop, k: int, leg: (nat, nat, nat)|
        #![trigger leg_debark(pt, stop, waits[pt.spec_stop_id(stop) as int][k].1, leg)]
        0 <= k < waits[pt.spec_stop_id(stop) as int].len() && leg_debark(
            pt,
            stop,
            waits[pt.spec_stop_id(stop) as int][k].1,
            leg,
        ) is Some ==> lands(
            pt,
            debarks,
            new_debarks,
            arrive,
            leg_debark(pt, stop, waits[pt.spec_stop_id(stop) as int][k].1, leg).unwrap(),
        )
}

/// Debarking at a stop with the criteria of an element of the front of its id in `debarks`,
/// every arrival at that stop gives criteria dominated by the arrivals, and every transfer
/// that gives valid criteria gives criteria covered by the wait fronts of the stop it
/// reaches, or dominated by the arrivals
pub open spec fn debarks_done<D, E, F, PT: RequestWithIters>(
    pt: PT,
    waits: Seq<Seq<(D, PT::Criteria)>>,
    new_waits: Seq<Seq<(E, PT::Criteria)>>,
    debarks: Seq<Seq<(F, PT::Criteria)>>,
    arrive: Seq<(Arrive, PT::Criteria)>,
) -> bool {
    &&& forall|stop: PT::Stop, k: int, a: nat|
        0 <= k < debarks[pt.spec_stop_id(stop) as int].len() && a < pt.spec_nb_of_arrivals() && pt.spec_stop_id(
            pt.spec_arrival_stop(pt.spec_arrival(a as usize)),
        ) == pt.spec_stop_id(stop) ==> spec_dominates(
            arrive,
            #[trigger] pt.spec_arrive(pt.spec_arrival(a as usize), debarks[pt.spec_stop_id(stop) as int][k].1),
            pt,
        )
    &&& forall|stop: PT::Stop, k: int, t: nat|
        0 <= k < debarks[pt.spec_stop_id(stop) as int].len() && t < pt.spec_nb_of_transfers_at(stop)
            && pt.spec_is_valid(
            (#[trigger] pt.spec_transfer(
                stop,
                pt.spec_transfer_at(stop, t as usize),
                debarks[pt.spec_stop_id(stop) as int][k].1,
            )).1,
        ) ==> covered(
            pt,
            waits,
            new_waits,
            pt.spec_stop_id(
                pt.spec_transfer(
                    stop,
                    pt.spec_transfer_at(stop, t as usize),
                    debarks[pt.spec_stop_id(stop) as int][k].1,
                ).0,
            ) as int,
            pt.spec_transfer(
                stop,
                pt.spec_transfer_at(stop, t as usize),
                debarks[pt.spec_stop_id(stop) as int][k].1,
            ).1,
        ) || spec_dominates(
            arrive,
            pt.spec_transfer(
                stop,
                pt.spec_transfer_at(stop, t as usize),
                debarks[pt.spec_stop_id(stop) as int][k].1,
            ).1,
            pt,
        )
}

/// The state of the engine at the start of a round: every front has a front per stop, the
/// departures are covered, the waits have been ridden from and the debarks have been
/// arrived and transferred from, and the new waits and the new debarks are at listed stops
pub open spec fn round_start<PT: RequestWithIters>(
    pt: PT,
    waits: Seq<Seq<(Wait, PT::Criteria)>>,
    new_waits: Seq<Seq<(Wait, PT::Criteria)>>,
    debarks: Seq<Seq<(Debark, PT::Criteria)>>,
    new_debarks: Seq<Seq<(Debark, PT::Criteria)>>,
    arrive: Seq<(Arrive, PT::Criteria)>,
    stops_with_new_wait: Seq<PT::Stop>,
    stops_with_new_debark: Seq<PT::Stop>,
) -> bool {
    &&& waits.len() == pt.spec_nb_of_stops()
    &&& new_waits.len() == pt.spec_nb_of_stops()
    &&& debarks.len() == pt.spec_nb_of_stops()
    &&& new_debarks.len() == pt.spec_nb_of_stops()
    &&& departures_closed(pt, waits, new_waits, arrive)
    &&& waits_done(pt, waits, debarks, new_debarks, arrive)
    &&& debarks_done(pt, waits, new_waits, debarks, arrive)
    &&& debarks_done(pt, waits, new_waits, new_debarks, arrive)
    &&& listed(pt, new_waits, stops_with_new_wait)
    &&& listed(pt, new_debarks, stops_with_new_debark)
}

/// Moving the new elements of a front into it, when there are some, leaves none new, keeps
/// in the front only elements of the two, and keeps dominated what either dominated.
proof fn lemma_moved<D, PT: Request>(
    pt: PT,
    moved: bool,
    before: Seq<(D, PT::Criteria)>,
    new_before: Seq<(D, PT::Criteria)>,
    after: Seq<(D, PT::Criteria)>,
    new_after: Seq<(D, PT::Criteria)>,
    other: PT::Criteria,
)
    requires
        clones_equal::<PT::Criteria>(),
        moved_to(moved, before, new_before, after, new_after),
        new_before.len() > 0 ==> moved,
    ensures
        new_after.len() == 0,
        forall|j: int| 0 <= j < after.len() ==> before.contains(#[trigger] after[j]) || new_before.contains(after[j]),
        spec_dominates(before, other, pt) || spec_dominates(new_before, other, pt) ==> spec_dominates(after, other, pt),
{
    if moved {
        assert(appended_clones(before, new_before, after));
        assert forall|j: int| 0 <= j < new_before.len() implies after[before.len() + j] == new_before[j] by {
            assert(cloned(new_before[j].1, after[before.len() + j].1));
        }
        assert forall|j: int| 0 <= j < after.len() implies before.contains(#[trigger] after[j])
            || new_before.contains(after[j]) by {
            if j < before.len() {
                assert(before[j] == after[j]);
            } else {
                assert(new_before[j - before.len()] == after[before.len() + (j - before.len())]);
            }
        }
        if spec_dominates(before, other, pt) {
            let i = choose|i: int| 0 <= i < before.len() && pt.spec_is_lower(#[trigger] before[i].1, other);
            assert(after[i] == before[i]);
        } else if spec_dominates(new_before, other, pt) {
            let i = choose|i: int| 0 <= i < new_before.len() && pt.spec_is_lower(#[trigger] new_before[i].1, other);
            assert(after[before.len() + i] == new_before[i]);
        }
    }
}

/// Moving the new elements of the fronts of the listed stops into their fronts leaves no
/// new element, keeps in each front only elements of the two, and keeps covered what was
/// covered.
pub(crate) proof fn lemma_all_moved<D, PT: Request>(
    pt: PT,
    stops: Seq<PT::Stop>,
    fronts: Seq<Seq<(D, PT::Criteria)>>,
    new_fronts: Seq<Seq<(D, PT::Criteria)>>,
    after: Seq<Seq<(D, PT::Criteria)>>,
    new_after: Seq<Seq<(D, PT::Criteria)>>,
)
    requires
        clones_equal::<PT::Criteria>(),
        new_fronts.len() == fronts.len(),
        after.len() == fronts.len(),
        new_after.len() == fronts.len(),
        listed(pt, new_fronts, stops),
        forall|t: int|
            0 <= t < fronts.len() ==> moved_to(
                lists_stop(pt, stops, t),
                fronts[t],
                new_fronts[t],
                #[trigger] after[t],
                new_after[t],
            ),
    ensures
        forall|t: int| 0 <= t < new_after.len() ==> (#[trigger] new_after[t]).len() == 0,
        forall|t: int, j: int|
            0 <= t < after.len() && 0 <= j < after[t].len() ==> fronts[t].contains(#[trigger] after[t][j])
                || new_fronts[t].contains(after[t][j]),
        forall|s: int, c: PT::Criteria|
            #[trigger] covered(pt, fronts, new_fronts, s, c) ==> covered(pt, after, new_after, s, c),
{
    assert forall|t: int| 0 <= t < new_after.len() implies (#[trigger] new_after[t]).len() == 0 by {
        lemma_moved(pt, lists_stop(pt, stops, t), fronts[t], new_fronts[t], after[t], new_after[t], arbitrary());
    }
    assert forall|t: int, j: int| 0 <= t < after.len() && 0 <= j < after[t].len() implies fronts[t].contains(
        #[trigger] after[t][j],
    ) || new_fronts[t].contains(after[t][j]) by {
        lemma_moved(pt, lists_stop(pt, stops, t), fronts[t], new_fronts[t], after[t], new_after[t], arbitrary());
    }
    assert forall|s: int, c: PT::Criteria| #[trigger] covered(pt, fronts, new_fronts, s, c) implies covered(
        pt,
        after,
        new_after,
        s,
        c,
    ) by {
        lemma_moved(pt, lists_stop(pt, stops, s), fronts[s], new_fronts[s], after[s], new_after[s], c);
    }
}


/// Lands with lower criteria at the same stop lands with higher ones.
proof fn lemma_lands_above<F, G, PT: Request>(
    pt: PT,
    debarks: Seq<Seq<(F, PT::Criteria)>>,
    new_debarks: Seq<Seq<(G, PT::Criteria)>>,
    arrive: Seq<(Arrive, PT::Criteria)>,
    lower: (PT::Stop, PT::Criteria),
    upper: (PT::Stop, PT::Criteria),
)
    requires
        is_preorder(pt),
        lands(pt, debarks, new_debarks, arrive, lower),
        lower.0 == upper.0,
        pt.spec_is_lower(lower.1, upper.1),
    ensures
        lands(pt, debarks, new_debarks, arrive, upper),
{
    let s = pt.spec_stop_id(lower.0) as int;
    if covered(pt, debarks, new_debarks, s, lower.1) {
        lemma_covered_above(pt, debarks, new_debarks, s, lower.1, upper.1);
    } else {
        lemma_dominates_above(pt, arrive, lower.1, upper.1);
    }
}

/// At the start of a round where no listed stop with a new wait has a mission to board,
/// the departures, the waits and the debarks are closed.
pub(crate) proof fn lemma_round_start_closed<PT: RequestWithIters>(
    pt: PT,
    waits: Seq<Seq<(Wait, PT::Criteria)>>,
    new_waits: Seq<Seq<(Wait, PT::Criteria)>>,
    debarks: Seq<Seq<(Debark, PT::Criteria)>>,
    new_debarks: Seq<Seq<(Debark, PT::Criteria)>>,
    arrive: Seq<(Arrive, PT::Criteria)>,
    stops_with_new_wait: Seq<PT::Stop>,
    stops_with_new_debark: Seq<PT::Stop>,
)
    requires
        behaves(pt),
        round_start(pt, waits, new_waits, debarks, new_debarks, arrive, stops_with_new_wait, stops_with_new_debark),
        forall|j: int|
            0 <= j < stops_with_new_wait.len() ==> pt.spec_nb_of_boardable_missions_at(
                #[trigger] stops_with_new_wait[j],
            ) == 0,
    ensures
        departures_closed(pt, waits, new_waits, arrive),
        waits_closed(pt, waits, new_waits, debarks, new_debarks, arrive),
        debarks_closed(pt, waits, new_waits, debarks, new_debarks, arrive),
{
    assert forall|stop: PT::Stop, criteria: PT::Criteria, leg: (nat, nat, nat)|
        #![trigger covered(pt, waits, new_waits, pt.spec_stop_id(stop) as int, criteria), leg_debark(pt, stop, criteria, leg)]
        covered(pt, waits, new_waits, pt.spec_stop_id(stop) as int, criteria) && leg_debark(
            pt,
            stop,
            criteria,
            leg,
        ) is Some implies covered(
            pt,
            debarks,
            new_debarks,
            pt.spec_stop_id(leg_debark(pt, stop, criteria, leg).unwrap().0) as int,
            leg_debark(pt, stop, criteria, leg).unwrap().1,
        ) || spec_dominates(arrive, leg_debark(pt, stop, criteria, leg).unwrap().1, pt) by {
        let s = pt.spec_stop_id(stop) as int;
        let up = leg_debark(pt, stop, criteria, leg).unwrap();
        if 0 <= s < waits.len() && spec_dominates(waits[s], criteria, pt) {
            let i = choose|i: int| 0 <= i < waits[s].len() && pt.spec_is_lower(#[trigger] waits[s][i].1, criteria);
            lemma_leg_monotone(pt, stop, waits[s][i].1, criteria, leg);
            let low = leg_debark(pt, stop, waits[s][i].1, leg).unwrap();
            assert(lands(pt, debarks, new_debarks, arrive, low));
            lemma_lands_above(pt, debarks, new_debarks, arrive, low, up);
            assert(lands(pt, debarks, new_debarks, arrive, up));
        } else {
            assert(new_waits[s].len() > 0);
            assert(lists_stop(pt, stops_with_new_wait, s));
            let j = choose|j: int|
                0 <= j < stops_with_new_wait.len() && pt.spec_stop_id(#[trigger] stops_with_new_wait[j]) == s;
            assert(pt.spec_nb_of_boardable_missions_at(stops_with_new_wait[j]) == 0);
            assert(pt.spec_nb_of_boardable_missions_at(stop) == 0);
        }
    }
    assert forall|stop: PT::Stop, criteria: PT::Criteria, a: nat|
        #![trigger covered(pt, debarks, new_debarks, pt.spec_stop_id(stop) as int, criteria), pt.spec_arrival(a as usize)]
        covered(pt, debarks, new_debarks, pt.spec_stop_id(stop) as int, criteria) && a < pt.spec_nb_of_arrivals()
            && pt.spec_stop_id(pt.spec_arrival_stop(pt.spec_arrival(a as usize))) == pt.spec_stop_id(
            stop,
        ) implies spec_dominates(arrive, pt.spec_arrive(pt.spec_arrival(a as usize), criteria), pt) by {
        let s = pt.spec_stop_id(stop) as int;
        let arrival = pt.spec_arrival(a as usize);
        let lower = if 0 <= s < debarks.len() && spec_dominates(debarks[s], criteria, pt) {
            let i = choose|i: int| 0 <= i < debarks[s].len() && pt.spec_is_lower(#[trigger] debarks[s][i].1, criteria);
            assert(spec_dominates(arrive, pt.spec_arrive(arrival, debarks[s][i].1), pt));
            debarks[s][i].1
        } else {
            let i = choose|i: int|
                0 <= i < new_debarks[s].len() && pt.spec_is_lower(#[trigger] new_debarks[s][i].1, criteria);
            assert(spec_dominates(arrive, pt.spec_arrive(arrival, new_debarks[s][i].1), pt));
            new_debarks[s][i].1
        };
        assert(pt.spec_is_lower(pt.spec_arrive(arrival, lower), pt.spec_arrive(arrival, criteria)));
        lemma_dominates_above(pt, arrive, pt.spec_arrive(arrival, lower), pt.spec_arrive(arrival, criteria));
    }
    assert forall|stop: PT::Stop, criteria: PT::Criteria, t: nat|
        #![trigger covered(pt, debarks, new_debarks, pt.spec_stop_id(stop) as int, criteria), pt.spec_transfer_at(stop, t as usize)]
        covered(pt, debarks, new_debarks, pt.spec_stop_id(stop) as int, criteria) && t < pt.spec_nb_of_transfers_at(
            stop,
        ) && pt.spec_is_valid(
            pt.spec_transfer(stop, pt.spec_transfer_at(stop, t as usize), criteria).1,
        ) implies covered(
            pt,
            waits,
            new_waits,
            pt.spec_stop_id(pt.spec_transfer(stop, pt.spec_transfer_at(stop, t as usize), criteria).0) as int,
            pt.spec_transfer(stop, pt.spec_transfer_at(stop, t as usize), criteria).1,
        ) || spec_dominates(
            arrive,
            pt.spec_transfer(stop, pt.spec_transfer_at(stop, t as usize), criteria).1,
            pt,
        ) by {
        let s = pt.spec_stop_id(stop) as int;
        let transfer = pt.spec_transfer_at(stop, t as usize);
        let up = pt.spec_transfer(stop, transfer, criteria);
        let lower = if 0 <= s < debarks.len() && spec_dominates(debarks[s], criteria, pt) {
            let i = choose|i: int| 0 <= i < debarks[s].len() && pt.spec_is_lower(#[trigger] debarks[s][i].1, criteria);
            let low = pt.spec_transfer(stop, transfer, debarks[s][i].1);
            assert(pt.spec_is_lower(low.1, up.1));
            assert(pt.spec_is_valid(low.1));
            debarks[s][i].1
        } else {
            let i = choose|i: int|
                0 <= i < new_debarks[s].len() && pt.spec_is_lower(#[trigger] new_debarks[s][i].1, criteria);
            let low = pt.spec_transfer(stop, transfer, new_debarks[s][i].1);
            assert(pt.spec_is_lower(low.1, up.1));
            assert(pt.spec_is_valid(low.1));
            new_debarks[s][i].1
        };
        let low = pt.spec_transfer(stop, transfer, lower);
        assert(low.0 == up.0);
        assert(pt.spec_is_lower(low.1, up.1));
        let target = pt.spec_stop_id(low.0) as int;
        if covered(pt, waits, new_waits, target, low.1) {
            lemma_covered_above(pt, waits, new_waits, target, low.1, up.1);
        } else {
            lemma_dominates_above(pt, arrive, low.1, up.1);
        }
    }
}


/// The state of the engine once the new debarks of a round start are moved into the debark
/// fronts: no new debark is left, and what held of the waits and the debarks still holds
pub open spec fn debarks_saved<PT: RequestWithIters>(
    pt: PT,
    waits: Seq<Seq<(Wait, PT::Criteria)>>,
    new_waits: Seq<Seq<(Wait, PT::Criteria)>>,
    debarks: Seq<Seq<(Debark, PT::Criteria)>>,
    new_debarks: Seq<Seq<(Debark, PT::Criteria)>>,
    arrive: Seq<(Arrive, PT::Criteria)>,
    stops_with_new_wait: Seq<PT::Stop>,
) -> bool {
    &&& waits.len() == pt.spec_nb_of_stops()
    &&& new_waits.len() == pt.spec_nb_of_stops()
    &&& debarks.len() == pt.spec_nb_of_stops()
    &&& new_debarks.len() == pt.spec_nb_of_stops()
    &&& forall|t: int| 0 <= t < new_debarks.len() ==> (#[trigger] new_debarks[t]).len() == 0
    &&& departures_closed(pt, waits, new_waits, arrive)
    &&& waits_done(pt, waits, debarks, new_debarks, arrive)
    &&& debarks_done(pt, waits, new_waits, debarks, arrive)
    &&& listed(pt, new_waits, stops_with_new_wait)
}

/// At the start of a round, moving the new debarks of the listed stops into the debark
/// fronts gives the state `debarks_saved` says.
pub(crate) proof fn lemma_debarks_saved<PT: RequestWithIters>(
    pt: PT,
    waits: Seq<Seq<(Wait, PT::Criteria)>>,
    new_waits: Seq<Seq<(Wait, PT::Criteria)>>,
    debarks: Seq<Seq<(Debark, PT::Criteria)>>,
    new_debarks: Seq<Seq<(Debark, PT::Criteria)>>,
    arrive: Seq<(Arrive, PT::Criteria)>,
    stops_with_new_wait: Seq<PT::Stop>,
    stops_with_new_debark: Seq<PT::Stop>,
    saved: Seq<Seq<(Debark, PT::Criteria)>>,
    new_saved: Seq<Seq<(Debark, PT::Criteria)>>,
)
    requires
        behaves(pt),
        round_start(pt, waits, new_waits, debarks, new_debarks, arrive, stops_with_new_wait, stops_with_new_debark),
        saved.len() == debarks.len(),
        new_saved.len() == debarks.len(),
        forall|t: int|
            0 <= t < debarks.len() ==> moved_to(
                lists_stop(pt, stops_with_new_debark, t),
                debarks[t],
                new_debarks[t],
                #[trigger] saved[t],
                new_saved[t],
            ),
    ensures
        debarks_saved(pt, waits, new_waits, saved, new_saved, arrive, stops_with_new_wait),
{
    lemma_all_moved(pt, stops_with_new_debark, debarks, new_debarks, saved, new_saved);
    assert forall|stop: PT::Stop, k: int, leg: (nat, nat, nat)|
        #![trigger leg_debark(pt, stop, waits[pt.spec_stop_id(stop) as int][k].1, leg)]
        0 <= k < waits[pt.spec_stop_id(stop) as int].len() && leg_debark(
            pt,
            stop,
            waits[pt.spec_stop_id(stop) as int][k].1,
            leg,
        ) is Some implies lands(
            pt,
            saved,
            new_saved,
            arrive,
            leg_debark(pt, stop, waits[pt.spec_stop_id(stop) as int][k].1, leg).unwrap(),
        ) by {
        let d = leg_debark(pt, stop, waits[pt.spec_stop_id(stop) as int][k].1, leg).unwrap();
        assert(lands(pt, debarks, new_debarks, arrive, d));
        if covered(pt, debarks, new_debarks, pt.spec_stop_id(d.0) as int, d.1) {
        }
    }
    assert forall|stop: PT::Stop, k: int, a: nat|
        0 <= k < saved[pt.spec_stop_id(stop) as int].len() && a < pt.spec_nb_of_arrivals() && pt.spec_stop_id(
            pt.spec_arrival_stop(pt.spec_arrival(a as usize)),
        ) == pt.spec_stop_id(stop) implies spec_dominates(
        arrive,
        #[trigger] pt.spec_arrive(pt.spec_arrival(a as usize), saved[pt.spec_stop_id(stop) as int][k].1),
        pt,
    ) by {
        let s = pt.spec_stop_id(stop) as int;
        let e = saved[s][k];
        if debarks[s].contains(e) {
            let i = choose|i: int| 0 <= i < debarks[s].len() && debarks[s][i] == e;
            assert(spec_dominates(arrive, pt.spec_arrive(pt.spec_arrival(a as usize), debarks[s][i].1), pt));
        } else {
            let i = choose|i: int| 0 <= i < new_debarks[s].len() && new_debarks[s][i] == e;
            assert(spec_dominates(arrive, pt.spec_arrive(pt.spec_arrival(a as usize), new_debarks[s][i].1), pt));
        }
    }
    assert forall|stop: PT::Stop, k: int, t: nat|
        0 <= k < saved[pt.spec_stop_id(stop) as int].len() && t < pt.spec_nb_of_transfers_at(stop)
            && pt.spec_is_valid(
            (#[trigger] pt.spec_transfer(
                stop,
                pt.spec_transfer_at(stop, t as usize),
                saved[pt.spec_stop_id(stop) as int][k].1,
            )).1,
        ) implies covered(
        pt,
        waits,
        new_waits,
        pt.spec_stop_id(
            pt.spec_transfer(stop, pt.spec_transfer_at(stop, t as usize), saved[pt.spec_stop_id(stop) as int][k].1).0,
        ) as int,
        pt.spec_transfer(stop, pt.spec_transfer_at(stop, t as usize), saved[pt.spec_stop_id(stop) as int][k].1).1,
    ) || spec_dominates(
        arrive,
        pt.spec_transfer(stop, pt.spec_transfer_at(stop, t as usize), saved[pt.spec_stop_id(stop) as int][k].1).1,
        pt,
    ) by {
        let s = pt.spec_stop_id(stop) as int;
        let e = saved[s][k];
        if debarks[s].contains(e) {
            let i = choose|i: int| 0 <= i < debarks[s].len() && debarks[s][i] == e;
            assert(pt.spec_transfer(stop, pt.spec_transfer_at(stop, t as usize), debarks[s][i].1) == pt.spec_transfer(
                stop,
                pt.spec_transfer_at(stop, t as usize),
                e.1,
            ));
        } else {
            let i = choose|i: int| 0 <= i < new_debarks[s].len() && new_debarks[s][i] == e;
            assert(pt.spec_transfer(stop, pt.spec_transfer_at(stop, t as usize), new_debarks[s][i].1)
                == pt.spec_transfer(stop, pt.spec_transfer_at(stop, t as usize), e.1));
        }
    }
}

/// The missions that can be boarded at the first `i` stops of `stops` hold each mission
/// that can be boarded at each of them, with its position.
pub(crate) proof fn lemma_boardable_at_stops_holds<PT: RequestWithIters>(
    pt: PT,
    stops: Seq<PT::Stop>,
    i: nat,
    j: int,
    x: usize,
)
    requires
        0 <= j < i <= stops.len(),
        x < pt.spec_nb_of_boardable_missions_at(stops[j]),
    ensures
        boardable_at_stops(pt, stops, i).contains(pt.spec_boardable_mission_at(stops[j], x)),
    decreases i,
{
    let before = boardable_at_stops(pt, stops, (i - 1) as nat);
    let here = Seq::new(
        pt.spec_nb_of_boardable_missions_at(stops[i - 1]) as nat,
        |y: int| pt.spec_boardable_mission_at(stops[i - 1], y as usize),
    );
    assert(boardable_at_stops(pt, stops, i) == before + here);
    if j < i - 1 {
        lemma_boardable_at_stops_holds(pt, stops, (i - 1) as nat, j, x);
        let m = choose|m: int| 0 <= m < before.len() && before[m] == pt.spec_boardable_mission_at(stops[j], x);
        assert((before + here)[m] == before[m]);
    } else {
        assert(here[x as int] == pt.spec_boardable_mission_at(stops[j], x));
        assert((before + here)[before.len() + x] == here[x as int]);
    }
}


/// The state of the engine once the missions with a new wait are ridden: the waits and the
/// new waits have been ridden from, and the debarks have been arrived and transferred from
pub open spec fn ridden_round<PT: RequestWithIters>(
    pt: PT,
    waits: Seq<Seq<(Wait, PT::Criteria)>>,
    new_waits: Seq<Seq<(Wait, PT::Criteria)>>,
    debarks: Seq<Seq<(Debark, PT::Criteria)>>,
    new_debarks: Seq<Seq<(Debark, PT::Criteria)>>,
    arrive: Seq<(Arrive, PT::Criteria)>,
    stops_with_new_wait: Seq<PT::Stop>,
) -> bool {
    &&& waits.len() == pt.spec_nb_of_stops()
    &&& new_waits.len() == pt.spec_nb_of_stops()
    &&& debarks.len() == pt.spec_nb_of_stops()
    &&& new_debarks.len() == pt.spec_nb_of_stops()
    &&& departures_closed(pt, waits, new_waits, arrive)
    &&& waits_done(pt, waits, debarks, new_debarks, arrive)
    &&& waits_done(pt, new_waits, debarks, new_debarks, arrive)
    &&& debarks_done(pt, waits, new_waits, debarks, arrive)
    &&& listed(pt, new_waits, stops_with_new_wait)
}

/// Riding, each from its position, the missions that can be boarded at the stops with a
/// new wait gives the state `ridden_round` says.
pub(crate) proof fn lemma_ridden_round<PT: RequestWithIters>(
    pt: PT,
    waits: Seq<Seq<(Wait, PT::Criteria)>>,
    new_waits: Seq<Seq<(Wait, PT::Criteria)>>,
    arrive: Seq<(Arrive, PT::Criteria)>,
    stops_with_new_wait: Seq<PT::Stop>,
    starts: Seq<Option<PT::Position>>,
    state: RideState<PT>,
    out: RideState<PT>,
)
    requires
        behaves(pt),
        debarks_saved(pt, waits, new_waits, state.0, state.1, arrive, stops_with_new_wait),
        starts.len() == boardable_at_stops(pt, stops_with_new_wait, stops_with_new_wait.len()).len(),
        forall|m: int|
            0 <= m < starts.len() ==> started_from(
                Some(boardable_at_stops(pt, stops_with_new_wait, stops_with_new_wait.len())[m].1),
                #[trigger] starts[m],
            ),
        out == ride_missions(
            pt,
            pair_missions(boardable_at_stops(pt, stops_with_new_wait, stops_with_new_wait.len())),
            starts,
            new_waits,
            arrive,
            state,
            starts.len(),
        ),
    ensures
        ridden_round(pt, waits, new_waits, out.0, out.1, arrive, stops_with_new_wait),
{
    let pairs = boardable_at_stops(pt, stops_with_new_wait, stops_with_new_wait.len());
    let missions = pair_missions(pairs);
    let k = starts.len();
    lemma_ride_missions_keeps(pt, missions, starts, new_waits, arrive, state, k, 0, arbitrary());
    assert forall|stop: PT::Stop, j: int, leg: (nat, nat, nat)|
        #![trigger leg_debark(pt, stop, waits[pt.spec_stop_id(stop) as int][j].1, leg)]
        0 <= j < waits[pt.spec_stop_id(stop) as int].len() && leg_debark(
            pt,
            stop,
            waits[pt.spec_stop_id(stop) as int][j].1,
            leg,
        ) is Some implies lands(
            pt,
            out.0,
            out.1,
            arrive,
            leg_debark(pt, stop, waits[pt.spec_stop_id(stop) as int][j].1, leg).unwrap(),
        ) by {
        let d = leg_debark(pt, stop, waits[pt.spec_stop_id(stop) as int][j].1, leg).unwrap();
        assert(lands(pt, state.0, state.1, arrive, d));
        lemma_ride_missions_keeps(pt, missions, starts, new_waits, arrive, state, k, pt.spec_stop_id(d.0) as int, d.1);
    }
    assert forall|stop: PT::Stop, j: int, leg: (nat, nat, nat)|
        #![trigger leg_debark(pt, stop, new_waits[pt.spec_stop_id(stop) as int][j].1, leg)]
        0 <= j < new_waits[pt.spec_stop_id(stop) as int].len() && leg_debark(
            pt,
            stop,
            new_waits[pt.spec_stop_id(stop) as int][j].1,
            leg,
        ) is Some implies lands(
            pt,
            out.0,
            out.1,
            arrive,
            leg_debark(pt, stop, new_waits[pt.spec_stop_id(stop) as int][j].1, leg).unwrap(),
        ) by {
        let s = pt.spec_stop_id(stop) as int;
        let c = new_waits[s][j].1;
        let (mission, position) = pt.spec_boardable_mission_at(stop, leg.0 as usize);
        assert(new_waits[s].len() > 0);
        assert(lists_stop(pt, stops_with_new_wait, s));
        let i = choose|i: int|
            0 <= i < stops_with_new_wait.len() && pt.spec_stop_id(#[trigger] stops_with_new_wait[i]) == s;
        let listed_stop = stops_with_new_wait[i];
        assert(pt.spec_boardable_mission_at(listed_stop, leg.0 as usize) == pt.spec_boardable_mission_at(
            stop,
            leg.0 as usize,
        ));
        lemma_boardable_at_stops_holds(pt, stops_with_new_wait, stops_with_new_wait.len(), i, leg.0 as usize);
        let m = choose|m: int|
            0 <= m < pairs.len() && pairs[m] == pt.spec_boardable_mission_at(listed_stop, leg.0 as usize);
        assert(started_from(Some(pairs[m].1), starts[m]));
        let q = starts[m].unwrap();
        assert(cloned(position, q));
        assert(q == position);
        assert(missions[m] == mission);
        assert(pt.spec_stop_id(pt.spec_stop_of(position, mission)) == pt.spec_stop_id(listed_stop));
        assert(pt.spec_is_lower(c, c));
        assert(spec_dominates(new_waits[s], c, pt));
        let best = pt.spec_best_trip_to_board(position, mission, c).unwrap();
        let next = pt.spec_next_on_mission(position, mission).unwrap();
        lemma_ride_missions_covers(pt, missions, starts, new_waits, arrive, state, k, m, c, leg.1);
    }
    assert forall|stop: PT::Stop, j: int, a: nat|
        0 <= j < out.0[pt.spec_stop_id(stop) as int].len() && a < pt.spec_nb_of_arrivals() && pt.spec_stop_id(
            pt.spec_arrival_stop(pt.spec_arrival(a as usize)),
        ) == pt.spec_stop_id(stop) implies spec_dominates(
        arrive,
        #[trigger] pt.spec_arrive(pt.spec_arrival(a as usize), out.0[pt.spec_stop_id(stop) as int][j].1),
        pt,
    ) by {
        let s = pt.spec_stop_id(stop) as int;
        let e = out.0[s][j];
        assert(state.0[s].contains(e));
        let i = choose|i: int| 0 <= i < state.0[s].len() && state.0[s][i] == e;
        assert(spec_dominates(arrive, pt.spec_arrive(pt.spec_arrival(a as usize), state.0[s][i].1), pt));
    }
    assert forall|stop: PT::Stop, j: int, t: nat|
        0 <= j < out.0[pt.spec_stop_id(stop) as int].len() && t < pt.spec_nb_of_transfers_at(stop)
            && pt.spec_is_valid(
            (#[trigger] pt.spec_transfer(
                stop,
                pt.spec_transfer_at(stop, t as usize),
                out.0[pt.spec_stop_id(stop) as int][j].1,
            )).1,
        ) implies covered(
        pt,
        waits,
        new_waits,
        pt.spec_stop_id(
            pt.spec_transfer(stop, pt.spec_transfer_at(stop, t as usize), out.0[pt.spec_stop_id(stop) as int][j].1).0,
        ) as int,
        pt.spec_transfer(stop, pt.spec_transfer_at(stop, t as usize), out.0[pt.spec_stop_id(stop) as int][j].1).1,
    ) || spec_dominates(
        arrive,
        pt.spec_transfer(stop, pt.spec_transfer_at(stop, t as usize), out.0[pt.spec_stop_id(stop) as int][j].1).1,
        pt,
    ) by {
        let s = pt.spec_stop_id(stop) as int;
        let e = out.0[s][j];
        assert(state.0[s].contains(e));
        let i = choose|i: int| 0 <= i < state.0[s].len() && state.0[s][i] == e;
        assert(pt.spec_transfer(stop, pt.spec_transfer_at(stop, t as usize), state.0[s][i].1) == pt.spec_transfer(
            stop,
            pt.spec_transfer_at(stop, t as usize),
            e.1,
        ));
    }
}


/// The state of the engine once the new waits are moved into the wait fronts: no new wait
/// is left, and the waits have been ridden from
pub open spec fn waits_saved<PT: RequestWithIters>(
    pt: PT,
    waits: Seq<Seq<(Wait, PT::Criteria)>>,
    new_waits: Seq<Seq<(Wait, PT::Criteria)>>,
    debarks: Seq<Seq<(Debark, PT::Criteria)>>,
    new_debarks: Seq<Seq<(Debark, PT::Criteria)>>,
    arrive: Seq<(Arrive, PT::Criteria)>,
) -> bool {
    &&& waits.len() == pt.spec_nb_of_stops()
    &&& new_waits.len() == pt.spec_nb_of_stops()
    &&& debarks.len() == pt.spec_nb_of_stops()
    &&& new_debarks.len() == pt.spec_nb_of_stops()
    &&& departures_closed(pt, waits, new_waits, arrive)
    &&& waits_done(pt, waits, debarks, new_debarks, arrive)
    &&& debarks_done(pt, waits, new_waits, debarks, arrive)
}

/// Once the missions are ridden, moving the new waits of the listed stops into the wait
/// fronts gives the state `waits_saved` says.
pub(crate) proof fn lemma_waits_saved<PT: RequestWithIters>(
    pt: PT,
    waits: Seq<Seq<(Wait, PT::Criteria)>>,
    new_waits: Seq<Seq<(Wait, PT::Criteria)>>,
    debarks: Seq<Seq<(Debark, PT::Criteria)>>,
    new_debarks: Seq<Seq<(Debark, PT::Criteria)>>,
    arrive: Seq<(Arrive, PT::Criteria)>,
    stops_with_new_wait: Seq<PT::Stop>,
    saved: Seq<Seq<(Wait, PT::Criteria)>>,
    new_saved: Seq<Seq<(Wait, PT::Criteria)>>,
)
    requires
        behaves(pt),
        ridden_round(pt, waits, new_waits, debarks, new_debarks, arrive, stops_with_new_wait),
        saved.len() == waits.len(),
        new_saved.len() == waits.len(),
        forall|t: int|
            0 <= t < waits.len() ==> moved_to(
                lists_stop(pt, stops_with_new_wait, t),
                waits[t],
                new_waits[t],
                #[trigger] saved[t],
                new_saved[t],
            ),
    ensures
        waits_saved(pt, saved, new_saved, debarks, new_debarks, arrive),
        forall|t: int| 0 <= t < new_saved.len() ==> (#[trigger] new_saved[t]).len() == 0,
{
    lemma_all_moved(pt, stops_with_new_wait, waits, new_waits, saved, new_saved);
    assert forall|j: nat|
        #![trigger pt.spec_departure(j as usize)]
        j < pt.spec_nb_of_departures() && pt.spec_is_valid(pt.spec_depart(pt.spec_departure(j as usize)).1)
            implies covered(
            pt,
            saved,
            new_saved,
            pt.spec_stop_id(pt.spec_depart(pt.spec_departure(j as usize)).0) as int,
            pt.spec_depart(pt.spec_departure(j as usize)).1,
        ) || spec_dominates(arrive, pt.spec_depart(pt.spec_departure(j as usize)).1, pt) by {
        let d = pt.spec_depart(pt.spec_departure(j as usize));
        if covered(pt, waits, new_waits, pt.spec_stop_id(d.0) as int, d.1) {
        }
    }
    assert forall|stop: PT::Stop, k: int, leg: (nat, nat, nat)|
        #![trigger leg_debark(pt, stop, saved[pt.spec_stop_id(stop) as int][k].1, leg)]
        0 <= k < saved[pt.spec_stop_id(stop) as int].len() && leg_debark(
            pt,
            stop,
            saved[pt.spec_stop_id(stop) as int][k].1,
            leg,
        ) is Some implies lands(
            pt,
            debarks,
            new_debarks,
            arrive,
            leg_debark(pt, stop, saved[pt.spec_stop_id(stop) as int][k].1, leg).unwrap(),
        ) by {
        let s = pt.spec_stop_id(stop) as int;
        let e = saved[s][k];
        if waits[s].contains(e) {
            let i = choose|i: int| 0 <= i < waits[s].len() && waits[s][i] == e;
            assert(leg_debark(pt, stop, waits[s][i].1, leg) == leg_debark(pt, stop, e.1, leg));
        } else {
            let i = choose|i: int| 0 <= i < new_waits[s].len() && new_waits[s][i] == e;
            assert(leg_debark(pt, stop, new_waits[s][i].1, leg) == leg_debark(pt, stop, e.1, leg));
        }
    }
    assert forall|stop: PT::Stop, k: int, t: nat|
        0 <= k < debarks[pt.spec_stop_id(stop) as int].len() && t < pt.spec_nb_of_transfers_at(stop)
            && pt.spec_is_valid(
            (#[trigger] pt.spec_transfer(
                stop,
                pt.spec_transfer_at(stop, t as usize),
                debarks[pt.spec_stop_id(stop) as int][k].1,
            )).1,
        ) implies covered(
        pt,
        saved,
        new_saved,
        pt.spec_stop_id(
            pt.spec_transfer(stop, pt.spec_transfer_at(stop, t as usize), debarks[pt.spec_stop_id(stop) as int][k].1).0,
        ) as int,
        pt.spec_transfer(stop, pt.spec_transfer_at(stop, t as usize), debarks[pt.spec_stop_id(stop) as int][k].1).1,
    ) || spec_dominates(
        arrive,
        pt.spec_transfer(stop, pt.spec_transfer_at(stop, t as usize), debarks[pt.spec_stop_id(stop) as int][k].1).1,
        pt,
    ) by {
        let r = pt.spec_transfer(stop, pt.spec_transfer_at(stop, t as usize), debarks[pt.spec_stop_id(stop) as int][k].1);
        if covered(pt, waits, new_waits, pt.spec_stop_id(r.0) as int, r.1) {
        }
    }
}

/// Once the new waits are saved, the arrivals from the new debarks and the transfers from
/// the new debarks at the listed stops give the state of the start of a round.
pub(crate) proof fn lemma_transfers_round<PT: RequestWithIters>(
    pt: PT,
    waits: Seq<Seq<(Wait, PT::Criteria)>>,
    new_waits: Seq<Seq<(Wait, PT::Criteria)>>,
    debarks: Seq<Seq<(Debark, PT::Criteria)>>,
    new_debarks: Seq<Seq<(Debark, PT::Criteria)>>,
    arrive: Seq<(Arrive, PT::Criteria)>,
    stops_with_new_debark: Seq<PT::Stop>,
    nb_arrives: nat,
    nb_waits: nat,
    arrive_after: Seq<(Arrive, PT::Criteria)>,
    waits_after: Seq<Seq<(Wait, PT::Criteria)>>,
    new_waits_after: Seq<Seq<(Wait, PT::Criteria)>>,
    stops_with_new_wait: Seq<PT::Stop>,
)
    requires
        behaves(pt),
        waits_saved(pt, waits, new_waits, debarks, new_debarks, arrive),
        listed(pt, new_debarks, stops_with_new_debark),
        arrive_after == arrives_added(
            pt,
            arrive,
            nb_arrives,
            arrivals_of(pt, new_debarks, pt.spec_nb_of_arrivals() as nat),
        ).0,
        waits_after == waits_added(
            pt,
            arrive_after,
            waits,
            new_waits,
            nb_waits,
            transfers_from_stops(pt, stops_with_new_debark, new_debarks, stops_with_new_debark.len()),
        ).0,
        new_waits_after == waits_added(
            pt,
            arrive_after,
            waits,
            new_waits,
            nb_waits,
            transfers_from_stops(pt, stops_with_new_debark, new_debarks, stops_with_new_debark.len()),
        ).1,
        listed(pt, new_waits_after, stops_with_new_wait),
    ensures
        round_start(
            pt,
            waits_after,
            new_waits_after,
            debarks,
            new_debarks,
            arrive_after,
            stops_with_new_wait,
            stops_with_new_debark,
        ),
{
    let arrived = arrivals_of(pt, new_debarks, pt.spec_nb_of_arrivals() as nat);
    let reached = transfers_from_stops(pt, stops_with_new_debark, new_debarks, stops_with_new_debark.len());
    lemma_waits_added_covers(pt, arrive_after, waits, new_waits, nb_waits, reached, 0, arbitrary());
    assert forall|j: nat|
        #![trigger pt.spec_departure(j as usize)]
        j < pt.spec_nb_of_departures() && pt.spec_is_valid(pt.spec_depart(pt.spec_departure(j as usize)).1)
            implies covered(
            pt,
            waits_after,
            new_waits_after,
            pt.spec_stop_id(pt.spec_depart(pt.spec_departure(j as usize)).0) as int,
            pt.spec_depart(pt.spec_departure(j as usize)).1,
        ) || spec_dominates(arrive_after, pt.spec_depart(pt.spec_departure(j as usize)).1, pt) by {
        let d = pt.spec_depart(pt.spec_departure(j as usize));
        lemma_waits_added_covers(pt, arrive_after, waits, new_waits, nb_waits, reached, pt.spec_stop_id(d.0) as int, d.1);
        lemma_arrives_added_covers(pt, arrive, nb_arrives, arrived, d.1);
    }
    assert forall|stop: PT::Stop, k: int, leg: (nat, nat, nat)|
        #![trigger leg_debark(pt, stop, waits_after[pt.spec_stop_id(stop) as int][k].1, leg)]
        0 <= k < waits_after[pt.spec_stop_id(stop) as int].len() && leg_debark(
            pt,
            stop,
            waits_after[pt.spec_stop_id(stop) as int][k].1,
            leg,
        ) is Some implies lands(
            pt,
            debarks,
            new_debarks,
            arrive_after,
            leg_debark(pt, stop, waits_after[pt.spec_stop_id(stop) as int][k].1, leg).unwrap(),
        ) by {
        let s = pt.spec_stop_id(stop) as int;
        let e = waits_after[s][k];
        assert(waits[s].contains(e));
        let i = choose|i: int| 0 <= i < waits[s].len() && waits[s][i] == e;
        assert(leg_debark(pt, stop, waits[s][i].1, leg) == leg_debark(pt, stop, e.1, leg));
        let d = leg_debark(pt, stop, e.1, leg).unwrap();
        assert(lands(pt, debarks, new_debarks, arrive, d));
        lemma_arrives_added_covers(pt, arrive, nb_arrives, arrived, d.1);
    }
    assert forall|stop: PT::Stop, k: int, a: nat|
        0 <= k < debarks[pt.spec_stop_id(stop) as int].len() && a < pt.spec_nb_of_arrivals() && pt.spec_stop_id(
            pt.spec_arrival_stop(pt.spec_arrival(a as usize)),
        ) == pt.spec_stop_id(stop) implies spec_dominates(
        arrive_after,
        #[trigger] pt.spec_arrive(pt.spec_arrival(a as usize), debarks[pt.spec_stop_id(stop) as int][k].1),
        pt,
    ) by {
        let c = pt.spec_arrive(pt.spec_arrival(a as usize), debarks[pt.spec_stop_id(stop) as int][k].1);
        lemma_arrives_added_covers(pt, arrive, nb_arrives, arrived, c);
    }
    assert forall|stop: PT::Stop, k: int, t: nat|
        0 <= k < debarks[pt.spec_stop_id(stop) as int].len() && t < pt.spec_nb_of_transfers_at(stop)
            && pt.spec_is_valid(
            (#[trigger] pt.spec_transfer(
                stop,
                pt.spec_transfer_at(stop, t as usize),
                debarks[pt.spec_stop_id(stop) as int][k].1,
            )).1,
        ) implies covered(
        pt,
        waits_after,
        new_waits_after,
        pt.spec_stop_id(
            pt.spec_transfer(stop, pt.spec_transfer_at(stop, t as usize), debarks[pt.spec_stop_id(stop) as int][k].1).0,
        ) as int,
        pt.spec_transfer(stop, pt.spec_transfer_at(stop, t as usize), debarks[pt.spec_stop_id(stop) as int][k].1).1,
    ) || spec_dominates(
        arrive_after,
        pt.spec_transfer(stop, pt.spec_transfer_at(stop, t as usize), debarks[pt.spec_stop_id(stop) as int][k].1).1,
        pt,
    ) by {
        let r = pt.spec_transfer(stop, pt.spec_transfer_at(stop, t as usize), debarks[pt.spec_stop_id(stop) as int][k].1);
        lemma_waits_added_covers(pt, arrive_after, waits, new_waits, nb_waits, reached, pt.spec_stop_id(r.0) as int, r.1);
        lemma_arrives_added_covers(pt, arrive, nb_arrives, arrived, r.1);
    }
    assert forall|stop: PT::Stop, k: int, a: nat|
        0 <= k < new_debarks[pt.spec_stop_id(stop) as int].len() && a < pt.spec_nb_of_arrivals() && pt.spec_stop_id(
            pt.spec_arrival_stop(pt.spec_arrival(a as usize)),
        ) == pt.spec_stop_id(stop) implies spec_dominates(
        arrive_after,
        #[trigger] pt.spec_arrive(pt.spec_arrival(a as usize), new_debarks[pt.spec_stop_id(stop) as int][k].1),
        pt,
    ) by {
        let c = pt.spec_arrive(pt.spec_arrival(a as usize), new_debarks[pt.spec_stop_id(stop) as int][k].1);
        lemma_arrivals_of_holds(pt, new_debarks, pt.spec_nb_of_arrivals() as nat, a, k);
        let x = choose|x: int| 0 <= x < arrived.len() && arrived[x] == c;
        lemma_arrives_added_covers(pt, arrive, nb_arrives, arrived, c);
    }
    assert forall|stop: PT::Stop, k: int, t: nat|
        0 <= k < new_debarks[pt.spec_stop_id(stop) as int].len() && t < pt.spec_nb_of_transfers_at(stop)
            && pt.spec_is_valid(
            (#[trigger] pt.spec_transfer(
                stop,
                pt.spec_transfer_at(stop, t as usize),
                new_debarks[pt.spec_stop_id(stop) as int][k].1,
            )).1,
        ) implies covered(
        pt,
        waits_after,
        new_waits_after,
        pt.spec_stop_id(
            pt.spec_transfer(stop, pt.spec_transfer_at(stop, t as usize), new_debarks[pt.spec_stop_id(stop) as int][k].1).0,
        ) as int,
        pt.spec_transfer(stop, pt.spec_transfer_at(stop, t as usize), new_debarks[pt.spec_stop_id(stop) as int][k].1).1,
    ) || spec_dominates(
        arrive_after,
        pt.spec_transfer(stop, pt.spec_transfer_at(stop, t as usize), new_debarks[pt.spec_stop_id(stop) as int][k].1).1,
        pt,
    ) by {
        let s = pt.spec_stop_id(stop) as int;
        let r = pt.spec_transfer(stop, pt.spec_transfer_at(stop, t as usize), new_debarks[s][k].1);
        assert(new_debarks[s].len() > 0);
        assert(lists_stop(pt, stops_with_new_debark, s));
        let j = choose|j: int|
            0 <= j < stops_with_new_debark.len() && pt.spec_stop_id(#[trigger] stops_with_new_debark[j]) == s;
        let listed_stop = stops_with_new_debark[j];
        assert(pt.spec_transfer(listed_stop, pt.spec_transfer_at(listed_stop, t as usize), new_debarks[s][k].1) == r);
        lemma_transfers_from_stops_holds(pt, stops_with_new_debark, new_debarks, stops_with_new_debark.len(), j, k, t);
        let x = choose|x: int| 0 <= x < reached.len() && reached[x] == r;
        assert(pt.spec_is_valid(reached[x].1));
        lemma_waits_added_covers(pt, arrive_after, waits, new_waits, nb_waits, reached, 0, arbitrary());
    }
}


/// A stop listed among `stops` is listed among any stops that start with them.
pub(crate) proof fn lemma_lists_stop_prefix<PT: Request>(pt: PT, stops: Seq<PT::Stop>, longer: Seq<PT::Stop>, s: int)
    requires
        lists_stop(pt, stops, s),
        stops.is_prefix_of(longer),
    ensures
        lists_stop(pt, longer, s),
{
    let j = choose|j: int| 0 <= j < stops.len() && pt.spec_stop_id(#[trigger] stops[j]) == s;
    assert(longer[j] == stops[j]);
}

/// The fronts stay listed when only the front of `s` changes and the stops only grow, as
/// long as `s` is listed whenever its front was empty.
pub(crate) proof fn lemma_listed_update<D, PT: Request>(
    pt: PT,
    fronts: Seq<Seq<(D, PT::Criteria)>>,
    stops: Seq<PT::Stop>,
    after: Seq<Seq<(D, PT::Criteria)>>,
    longer: Seq<PT::Stop>,
    s: int,
)
    requires
        listed(pt, fronts, stops),
        stops.is_prefix_of(longer),
        after.len() == fronts.len(),
        0 <= s < fronts.len(),
        forall|t: int| 0 <= t < fronts.len() && t != s ==> #[trigger] after[t] == fronts[t],
        fronts[s].len() > 0 || lists_stop(pt, longer, s),
    ensures
        listed(pt, after, longer),
{
    assert forall|t: int| 0 <= t < after.len() && #[trigger] after[t].len() > 0 implies lists_stop(pt, longer, t) by {
        if t != s || fronts[s].len() > 0 {
            if t != s {
                assert(after[t] == fronts[t]);
            }
            assert(fronts[t].len() > 0);
            lemma_lists_stop_prefix(pt, stops, longer, t);
        }
    }
}

/// A stop of id `s` is listed among stops ending with it.
pub(crate) proof fn lemma_lists_pushed<PT: Request>(pt: PT, stops: Seq<PT::Stop>, stop: PT::Stop)
    ensures
        lists_stop(pt, stops.push(stop), pt.spec_stop_id(stop) as int),
        stops.is_prefix_of(stops.push(stop)),
{
    assert(stops.push(stop)[stops.len() as int] == stop);
    assert(stops.push(stop).take(stops.len() as int) =~= stops);
}

} // verus!
