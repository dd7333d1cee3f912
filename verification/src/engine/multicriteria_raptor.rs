use vstd::prelude::*;

use crate::engine::journeys_tree::{
    arrive_at, board_at, debark_at, lemma_arrive_at, lemma_board_at, lemma_debark_at, lemma_wait_at,
    wait_at, Arrive, Board, Debark, JourneysTree, Wait,
};
use crate::engine::pareto_front::{
    added, all_below, ids_increasing, is_pareto, lemma_added_dominates, lemma_add_keeps_pareto, lemma_filter_below, lemma_filter_push_increasing,
    not_dominated_by,
    spec_dominates, ArriveFront, BoardFront, DebarkFront, ParetoFront, WaitFront,
};
use crate::engine::completeness::{covered, journey_arrival, leg_debark, lemma_closed_covers_journeys};
use crate::engine::completeness::RideState;
use crate::engine::engine_state::{
    computed, departures_added, first_state, lemma_computed, lemma_ride_missions_board_front,
    lemma_ride_missions_stops_prefix, lemma_saved_fronts, missions_of, ride_from_stops, ride_missions_stops,
    round_of, rounds_from, saved_fronts, starts_of, waits_added_stops, EngineState,
};
use crate::engine::rounds::{
    behaves, lemma_boardable_at_stops_holds, lemma_debarks_saved, lemma_listed_update, lemma_lists_pushed,
    lemma_lists_stop_prefix, lemma_ridden_round, lemma_round_start_closed, lemma_transfers_round, lemma_waits_saved,
    debarks_done, listed, round_start, waits_done,
};
use crate::traits::{Journey, Request, RequestTypes, RequestWithIters};

verus! {

broadcast use crate::engine::pareto_front::lemma_view_is_elements;

/// The index of a wait moment
pub open spec fn wait_id() -> spec_fn(Wait) -> nat {
    |w: Wait| w.idx()
}

/// The index of a debark moment
pub open spec fn debark_id() -> spec_fn(Debark) -> nat {
    |d: Debark| d.idx()
}

/// The index of an arrive moment
pub open spec fn arrive_id() -> spec_fn(Arrive) -> nat {
    |a: Arrive| a.idx()
}

/// The index of the board moment of a boarded trip
pub open spec fn board_id<Trip>() -> spec_fn((Board, Trip)) -> nat {
    |bt: (Board, Trip)| bt.0.idx()
}

/// Every item data of every front of `fronts`, seen through `id`, is below `n`
pub open spec fn fronts_below<D, T: RequestTypes>(
    fronts: Seq<ParetoFront<D, T>>,
    id: spec_fn(D) -> nat,
    n: nat,
) -> bool {
    forall|s: int, k: int|
        0 <= s < fronts.len() && 0 <= k < fronts[s].view().len() ==> id(
            (#[trigger] fronts[s].view()[k]).0,
        ) < n
}

/// The multicriteria RAPTOR engine: computes, for a request, the Pareto front of the
/// journeys that reach an arrival.
pub struct MultiCriteriaRaptor<PT: RequestWithIters> {
    journeys_tree: JourneysTree<PT>,
    wait_fronts: Vec<WaitFront<PT>>,
    new_wait_fronts: Vec<WaitFront<PT>>,
    stops_with_new_wait: Vec<PT::Stop>,
    missions_with_new_wait: Vec<(PT::Mission, PT::Position)>,
    debark_fronts: Vec<DebarkFront<PT>>,
    new_debark_fronts: Vec<DebarkFront<PT>>,
    stops_with_new_debark: Vec<PT::Stop>,
    board_front: BoardFront<PT>,
    new_board_front: BoardFront<PT>,
    arrive_front: ArriveFront<PT>,
    results: Vec<Journey<PT>>,
    nb_of_rounds: usize,
}

/// A vector of `n` empty fronts
fn empty_fronts<D, T: RequestTypes>(n: usize) -> (r: Vec<ParetoFront<D, T>>)
    ensures
        r@.len() == n,
        forall|s: int| 0 <= s < n ==> (#[trigger] r@[s]).view().len() == 0,
{
    let mut r: Vec<ParetoFront<D, T>> = Vec::new();
    while r.len() < n
        invariant
            r@.len() <= n,
            forall|s: int| 0 <= s < r@.len() ==> (#[trigger] r@[s]).view().len() == 0,
        decreases n - r@.len(),
    {
        r.push(ParetoFront::new());
    }
    r
}

/// Resizes `fronts` to `n` fronts, adding empty fronts at the end when needed
fn resize_fronts<D, T: RequestTypes>(fronts: &mut Vec<ParetoFront<D, T>>, n: usize)
    ensures
        final(fronts)@.len() == n,
        forall|s: int|
            0 <= s < n ==> (#[trigger] final(fronts)@[s]).view() == (if s < old(fronts)@.len() {
                old(fronts)@[s].view()
            } else {
                Seq::empty()
            }),
{
    fronts.truncate(n);
    while fronts.len() < n
        invariant
            fronts@.len() <= n,
            n <= old(fronts)@.len() ==> fronts@.len() == n,
            n > old(fronts)@.len() ==> fronts@.len() >= old(fronts)@.len(),
            forall|s: int|
                0 <= s < fronts@.len() ==> (#[trigger] fronts@[s]).view() == (if s < old(
                    fronts,
                )@.len() {
                    old(fronts)@[s].view()
                } else {
                    Seq::empty()
                }),
        decreases n - fronts@.len(),
    {
        fronts.push(ParetoFront::new());
    }
}

/// Resizes `v` to `n` elements, adding `None` at the end when needed
fn resize_options<P>(v: &mut Vec<Option<P>>, n: usize)
    ensures
        final(v)@.len() == n,
{
    v.truncate(n);
    while v.len() < n
        invariant
            v@.len() <= n || v@.len() == n,
            n <= old(v)@.len() ==> v@.len() == n,
        decreases n - v@.len(),
    {
        v.push(None);
    }
}

/// Sets every element of `v` to `None`
fn reset_options<P>(v: &mut Vec<Option<P>>)
    ensures
        final(v)@.len() == old(v)@.len(),
        forall|m: int| 0 <= m < final(v)@.len() ==> (#[trigger] final(v)@[m]) is None,
{
    let n = v.len();
    let mut j: usize = 0;
    while j < n
        invariant
            n == v@.len(),
            n == old(v)@.len(),
            j <= n,
            forall|k: int| 0 <= k < j ==> (#[trigger] v@[k]) is None,
        decreases n - j,
    {
        v.set(j, None);
        j += 1;
    }
}

/// Empties every front of `fronts`
fn clear_fronts<D, T: RequestTypes>(fronts: &mut Vec<ParetoFront<D, T>>)
    ensures
        final(fronts)@.len() == old(fronts)@.len(),
        forall|s: int| 0 <= s < final(fronts)@.len() ==> (#[trigger] final(fronts)@[s]).view().len() == 0,
{
    let n = fronts.len();
    let mut i: usize = 0;
    while i < n
        invariant
            n == fronts@.len(),
            n == old(fronts)@.len(),
            i <= n,
            forall|s: int| 0 <= s < i ==> (#[trigger] fronts@[s]).view().len() == 0,
        decreases n - i,
    {
        fronts[i].clear();
        i += 1;
    }
}

/// The elements of `v`, in reverse order
fn reversed<A>(v: Vec<A>) -> (r: Vec<A>)
    ensures
        r@ == v@.reverse(),
{
    let mut v = v;
    let ghost orig = v@;
    let mut r: Vec<A> = Vec::new();
    while v.len() > 0
        invariant
            v@ == orig.take(v@.len() as int),
            r@ == orig.skip(v@.len() as int).reverse(),
            v@.len() <= orig.len(),
        decreases v@.len(),
    {
        let ghost before = v@.len();
        let x = v.pop().unwrap();
        r.push(x);
        proof {
            assert(v@ =~= orig.take(v@.len() as int));
            assert(r@ =~= orig.skip(v@.len() as int).reverse());
        }
    }
    proof {
        assert(orig.skip(0) =~= orig);
    }
    r
}

/// The debark front and the new debark front of a stop, and the number of debarks in the
/// journeys tree, once the trips of `boards` are debarked in their order at `position`
/// from `debarks`, `new_debarks` and `next` debarks: a trip whose debark criteria exist and
/// are dominated by neither front gets a new debark, which removes from both fronts the
/// elements it dominates and is appended to the new one
pub(crate) open spec fn debarks_along<PT: Request>(
    pt: PT,
    position: PT::Position,
    boards: Seq<((Board, PT::Trip), PT::Criteria)>,
    debarks: Seq<(Debark, PT::Criteria)>,
    new_debarks: Seq<(Debark, PT::Criteria)>,
    next: nat,
) -> (Seq<(Debark, PT::Criteria)>, Seq<(Debark, PT::Criteria)>, nat)
    decreases boards.len(),
{
    if boards.len() == 0 {
        (debarks, new_debarks, next)
    } else {
        let (d, nd, n) = debarks_along(pt, position, boards.drop_last(), debarks, new_debarks, next);
        let b = boards.last();
        match pt.spec_debark(b.0.1, position, b.1) {
            Some(c) => if !spec_dominates(d, c, pt) && !spec_dominates(nd, c, pt) {
                (
                    d.filter(not_dominated_by::<Debark, PT::Criteria, PT>(c, pt)),
                    nd.filter(not_dominated_by::<Debark, PT::Criteria, PT>(c, pt)).push((debark_at(n), c)),
                    n + 1,
                )
            } else {
                (d, nd, n)
            },
            None => (d, nd, n),
        }
    }
}

/// The new board front and the number of boards in the journeys tree, once the waits
/// `waits` are looked at in their order from `front` and `next` boards: the best trip of
/// `mission` to board at `position` from a wait, when there is one and its criteria are
/// valid and dominated neither by the arrivals `arrive` nor by the front, gets a new board,
/// which removes from the front the elements it dominates and is appended to it with its
/// trip
pub(crate) open spec fn boards_from_waits<PT: Request>(
    pt: PT,
    position: PT::Position,
    mission: PT::Mission,
    waits: Seq<(Wait, PT::Criteria)>,
    arrive: Seq<(Arrive, PT::Criteria)>,
    front: Seq<((Board, PT::Trip), PT::Criteria)>,
    next: nat,
) -> (Seq<((Board, PT::Trip), PT::Criteria)>, nat)
    decreases waits.len(),
{
    if waits.len() == 0 {
        (front, next)
    } else {
        let before = boards_from_waits(pt, position, mission, waits.drop_last(), arrive, front, next);
        let f = before.0;
        let n = before.1;
        match pt.spec_best_trip_to_board(position, mission, waits.last().1) {
            Some(best) => if pt.spec_is_valid(best.1) && !spec_dominates(arrive, best.1, pt)
                && !spec_dominates(f, best.1, pt) {
                (
                    f.filter(not_dominated_by::<(Board, PT::Trip), PT::Criteria, PT>(best.1, pt)).push(
                        ((board_at(n), best.0), best.1),
                    ),
                    n + 1,
                )
            } else {
                (f, n)
            },
            None => (f, n),
        }
    }
}

/// The new board front once the boarded trips `boards` are ridden in their order from
/// `position` to the next position, from `front`: a trip whose criteria there are valid and
/// dominated neither by the arrivals `arrive` nor by the front removes from the front the
/// elements it dominates and is appended to it
pub(crate) open spec fn boards_ridden<PT: Request>(
    pt: PT,
    position: PT::Position,
    boards: Seq<((Board, PT::Trip), PT::Criteria)>,
    arrive: Seq<(Arrive, PT::Criteria)>,
    front: Seq<((Board, PT::Trip), PT::Criteria)>,
) -> Seq<((Board, PT::Trip), PT::Criteria)>
    decreases boards.len(),
{
    if boards.len() == 0 {
        front
    } else {
        let f = boards_ridden(pt, position, boards.drop_last(), arrive, front);
        let b = boards.last();
        let c = pt.spec_ride(b.0.1, position, b.1);
        if pt.spec_is_valid(c) && !spec_dominates(arrive, c, pt) && !spec_dominates(f, c, pt) {
            f.filter(not_dominated_by::<(Board, PT::Trip), PT::Criteria, PT>(c, pt)).push((b.0, c))
        } else {
            f
        }
    }
}

/// Riding along `mission` from `position` on, from `state`: the debark fronts and the new
/// debark fronts by stop id, the numbers of debarks and of boards in the journeys tree, and
/// the front of the boarded trips. At each position, the trips of the front are debarked at
/// its stop as `debarks_along` says; then, when there is a next position, the new waits
/// `new_waits` of the stop are boarded and the front is ridden to it, as
/// `boards_from_waits` then `boards_ridden` say, the arrivals being `arrive`
pub(crate) open spec fn ride_from<PT: Request>(
    pt: PT,
    mission: PT::Mission,
    position: PT::Position,
    new_waits: Seq<Seq<(Wait, PT::Criteria)>>,
    arrive: Seq<(Arrive, PT::Criteria)>,
    state: (
        Seq<Seq<(Debark, PT::Criteria)>>,
        Seq<Seq<(Debark, PT::Criteria)>>,
        nat,
        nat,
        Seq<((Board, PT::Trip), PT::Criteria)>,
    ),
) -> (
    Seq<Seq<(Debark, PT::Criteria)>>,
    Seq<Seq<(Debark, PT::Criteria)>>,
    nat,
    nat,
    Seq<((Board, PT::Trip), PT::Criteria)>,
)
    decreases pt.spec_nb_of_positions_after(position, mission),
{
    let s = pt.spec_stop_id(pt.spec_stop_of(position, mission)) as int;
    let debarked = debarks_along(pt, position, state.4, state.0[s], state.1[s], state.2);
    let after = (state.0.update(s, debarked.0), state.1.update(s, debarked.1), debarked.2, state.3, state.4);
    match pt.spec_next_on_mission(position, mission) {
        Some(next) => if pt.spec_nb_of_positions_after(next, mission) < pt.spec_nb_of_positions_after(
            position,
            mission,
        ) {
            let boarded = boards_from_waits(pt, position, mission, new_waits[s], arrive, Seq::empty(), state.3);
            ride_from(
                pt,
                mission,
                next,
                new_waits,
                arrive,
                (after.0, after.1, after.2, boarded.1, boards_ridden(pt, position, state.4, arrive, boarded.0)),
            )
        } else {
            after
        },
        None => after,
    }
}

/// Riding, from `state`, along the first `k` missions of `missions`, each from its start
/// in `starts` when it has one, with an empty front of boarded trips
pub(crate) open spec fn ride_missions<PT: Request>(
    pt: PT,
    missions: Seq<PT::Mission>,
    starts: Seq<Option<PT::Position>>,
    new_waits: Seq<Seq<(Wait, PT::Criteria)>>,
    arrive: Seq<(Arrive, PT::Criteria)>,
    state: (
        Seq<Seq<(Debark, PT::Criteria)>>,
        Seq<Seq<(Debark, PT::Criteria)>>,
        nat,
        nat,
        Seq<((Board, PT::Trip), PT::Criteria)>,
    ),
    k: nat,
) -> (
    Seq<Seq<(Debark, PT::Criteria)>>,
    Seq<Seq<(Debark, PT::Criteria)>>,
    nat,
    nat,
    Seq<((Board, PT::Trip), PT::Criteria)>,
)
    decreases k,
{
    if k == 0 {
        state
    } else {
        let before = ride_missions(pt, missions, starts, new_waits, arrive, state, (k - 1) as nat);
        let cleared = (before.0, before.1, before.2, before.3, Seq::empty());
        match starts[k - 1] {
            Some(p) => ride_from(pt, missions[k - 1], p, new_waits, arrive, cleared),
            None => cleared,
        }
    }
}

/// Riding along the first `k` missions only depends on their first `k` starts.
proof fn lemma_ride_missions_prefix<PT: Request>(
    pt: PT,
    missions: Seq<PT::Mission>,
    starts: Seq<Option<PT::Position>>,
    other: Seq<Option<PT::Position>>,
    new_waits: Seq<Seq<(Wait, PT::Criteria)>>,
    arrive: Seq<(Arrive, PT::Criteria)>,
    state: (
        Seq<Seq<(Debark, PT::Criteria)>>,
        Seq<Seq<(Debark, PT::Criteria)>>,
        nat,
        nat,
        Seq<((Board, PT::Trip), PT::Criteria)>,
    ),
    k: nat,
)
    requires
        k <= starts.len(),
        k <= other.len(),
        forall|j: int| 0 <= j < k ==> starts[j] == other[j],
    ensures
        ride_missions(pt, missions, starts, new_waits, arrive, state, k) == ride_missions(
            pt,
            missions,
            other,
            new_waits,
            arrive,
            state,
            k,
        ),
    decreases k,
{
    if k > 0 {
        lemma_ride_missions_prefix(pt, missions, starts, other, new_waits, arrive, state, (k - 1) as nat);
        assert(starts[k - 1] == other[k - 1]);
    }
}

/// `start` is where riding a mission starts when its stored start is `stored`: none when
/// there is none, a clone of it otherwise
pub open spec fn started_from<P: Clone>(stored: Option<P>, start: Option<P>) -> bool {
    match stored {
        Some(p) => start matches Some(q) && cloned(p, q),
        None => start is None,
    }
}

/// One of the first `n` departures of `pt` is at the stop of id `s`
pub open spec fn departs_at<PT: RequestWithIters>(pt: PT, s: int, n: int) -> bool {
    exists|j: int| 0 <= j < n && #[trigger] pt.spec_stop_id(pt.spec_depart(pt.spec_departure(j as usize)).0) == s
}

/// Some stop of `stops` has the id `s`
pub open spec fn lists_stop<PT: Request>(pt: PT, stops: Seq<PT::Stop>, s: int) -> bool {
    exists|j: int| 0 <= j < stops.len() && pt.spec_stop_id(#[trigger] stops[j]) == s
}

/// A stop is listed among the first `i + 1` stops when it is listed among the first `i`
/// ones or is the `i`-th one.
proof fn lemma_lists_stop_take<PT: Request>(pt: PT, stops: Seq<PT::Stop>, i: int)
    requires
        0 <= i < stops.len(),
    ensures
        forall|s: int|
            #[trigger] lists_stop(pt, stops.take(i + 1), s) == (lists_stop(pt, stops.take(i), s)
                || pt.spec_stop_id(stops[i]) == s),
{
    assert forall|s: int|
        #[trigger] lists_stop(pt, stops.take(i + 1), s) == (lists_stop(pt, stops.take(i), s)
            || pt.spec_stop_id(stops[i]) == s) by {
        if lists_stop(pt, stops.take(i + 1), s) {
            let j = choose|j: int| 0 <= j < i + 1 && pt.spec_stop_id(#[trigger] stops.take(i + 1)[j]) == s;
            if j < i {
                assert(stops.take(i)[j] == stops.take(i + 1)[j]);
            }
        }
        if lists_stop(pt, stops.take(i), s) {
            let j = choose|j: int| 0 <= j < i && pt.spec_stop_id(#[trigger] stops.take(i)[j]) == s;
            assert(stops.take(i + 1)[j] == stops.take(i)[j]);
        }
        if pt.spec_stop_id(stops[i]) == s {
            assert(stops.take(i + 1)[i] == stops[i]);
        }
    }
}

/// `after` is `before` followed by clones of the elements of `added`: the same item data,
/// with a clone of their criteria
pub open spec fn appended_clones<D, C: Clone>(before: Seq<(D, C)>, added: Seq<(D, C)>, after: Seq<(D, C)>) -> bool {
    &&& after.len() == before.len() + added.len()
    &&& forall|j: int| 0 <= j < before.len() ==> #[trigger] after[j] == before[j]
    &&& forall|j: int|
        0 <= j < added.len() ==> (#[trigger] after[before.len() + j]).0 == added[j].0 && cloned(
            added[j].1,
            after[before.len() + j].1,
        )
}

/// The fronts `after` and `new_after` of a stop are those `before` and `new_before` where,
/// when `moved`, the new elements were appended to the others and none is left new, and
/// otherwise nothing changed
pub open spec fn moved_to<D, C: Clone>(
    moved: bool,
    before: Seq<(D, C)>,
    new_before: Seq<(D, C)>,
    after: Seq<(D, C)>,
    new_after: Seq<(D, C)>,
) -> bool {
    if moved {
        appended_clones(before, new_before, after) && new_after.len() == 0
    } else {
        after == before && new_after == new_before
    }
}

/// The views of the fronts of `fronts`
pub open spec fn front_views<D, T: RequestTypes>(fronts: Seq<ParetoFront<D, T>>) -> Seq<Seq<(D, T::Criteria)>> {
    fronts.map_values(|f: ParetoFront<D, T>| f.view())
}

/// The criteria obtained, in order, by the first `i` arrivals of `pt` from each new debark
/// at the stop of the arrival, `new_debarks` being the new debark fronts by stop id
pub(crate) open spec fn arrivals_of<PT: RequestWithIters>(
    pt: PT,
    new_debarks: Seq<Seq<(Debark, PT::Criteria)>>,
    i: nat,
) -> Seq<PT::Criteria>
    decreases i,
{
    if i == 0 {
        Seq::empty()
    } else {
        let arrival = pt.spec_arrival((i - 1) as usize);
        arrivals_of(pt, new_debarks, (i - 1) as nat) + new_debarks[pt.spec_stop_id(
            pt.spec_arrival_stop(arrival),
        ) as int].map_values(|e: (Debark, PT::Criteria)| pt.spec_arrive(arrival, e.1))
    }
}

/// The arrive front and the number of arrives in the journeys tree once the arrival
/// criteria `criteria` are looked at in their order from `front` and `next` arrives: each
/// gets a new arrive, which, unless the front dominates its criteria, removes from the front
/// the elements it dominates and is appended to it
pub(crate) open spec fn arrives_added<PT: Request>(
    pt: PT,
    front: Seq<(Arrive, PT::Criteria)>,
    next: nat,
    criteria: Seq<PT::Criteria>,
) -> (Seq<(Arrive, PT::Criteria)>, nat)
    decreases criteria.len(),
{
    if criteria.len() == 0 {
        (front, next)
    } else {
        let (f, n) = arrives_added(pt, front, next, criteria.drop_last());
        let c = criteria.last();
        if spec_dominates(f, c, pt) {
            (f, n + 1)
        } else {
            (f.filter(not_dominated_by::<Arrive, PT::Criteria, PT>(c, pt)).push((arrive_at(n), c)), n + 1)
        }
    }
}

/// The stops and criteria reached, in order, by the transfers at `stop` from `criteria`
pub(crate) open spec fn transfers_from_debark<PT: RequestWithIters>(
    pt: PT,
    stop: PT::Stop,
    criteria: PT::Criteria,
) -> Seq<(PT::Stop, PT::Criteria)> {
    Seq::new(
        pt.spec_nb_of_transfers_at(stop) as nat,
        |t: int| pt.spec_transfer(stop, pt.spec_transfer_at(stop, t as usize), criteria),
    )
}

/// The stops and criteria reached, in order, by the transfers at `stop` from the first `k`
/// elements of `debarks`
pub(crate) open spec fn transfers_from_debarks<PT: RequestWithIters>(
    pt: PT,
    stop: PT::Stop,
    debarks: Seq<(Debark, PT::Criteria)>,
    k: nat,
) -> Seq<(PT::Stop, PT::Criteria)>
    decreases k,
{
    if k == 0 {
        Seq::empty()
    } else {
        transfers_from_debarks(pt, stop, debarks, (k - 1) as nat) + transfers_from_debark(
            pt,
            stop,
            debarks[k - 1].1,
        )
    }
}

/// The stops and criteria reached, in order, by the transfers from the new debarks at the
/// first `i` stops of `stops`, `new_debarks` being the new debark fronts by stop id
pub(crate) open spec fn transfers_from_stops<PT: RequestWithIters>(
    pt: PT,
    stops: Seq<PT::Stop>,
    new_debarks: Seq<Seq<(Debark, PT::Criteria)>>,
    i: nat,
) -> Seq<(PT::Stop, PT::Criteria)>
    decreases i,
{
    if i == 0 {
        Seq::empty()
    } else {
        let stop = stops[i - 1];
        let front = new_debarks[pt.spec_stop_id(stop) as int];
        transfers_from_stops(pt, stops, new_debarks, (i - 1) as nat) + transfers_from_debarks(
            pt,
            stop,
            front,
            front.len(),
        )
    }
}

/// The wait fronts and the new wait fronts by stop id, and the number of waits in the
/// journeys tree, once the stops and criteria `reached` are looked at in their order from
/// `waits`, `new_waits` and `next` waits: criteria that are valid and dominated neither by
/// the arrivals `arrive` nor by the two fronts of their stop get a new wait, which removes
/// from both fronts the elements it dominates and is appended to the new one
pub(crate) open spec fn waits_added<PT: Request>(
    pt: PT,
    arrive: Seq<(Arrive, PT::Criteria)>,
    waits: Seq<Seq<(Wait, PT::Criteria)>>,
    new_waits: Seq<Seq<(Wait, PT::Criteria)>>,
    next: nat,
    reached: Seq<(PT::Stop, PT::Criteria)>,
) -> (Seq<Seq<(Wait, PT::Criteria)>>, Seq<Seq<(Wait, PT::Criteria)>>, nat)
    decreases reached.len(),
{
    if reached.len() == 0 {
        (waits, new_waits, next)
    } else {
        let (w, nw, n) = waits_added(pt, arrive, waits, new_waits, next, reached.drop_last());
        let c = reached.last().1;
        let s = pt.spec_stop_id(reached.last().0) as int;
        if pt.spec_is_valid(c) && !spec_dominates(arrive, c, pt) && !spec_dominates(w[s], c, pt)
            && !spec_dominates(nw[s], c, pt) {
            (
                w.update(s, w[s].filter(not_dominated_by::<Wait, PT::Criteria, PT>(c, pt))),
                nw.update(
                    s,
                    nw[s].filter(not_dominated_by::<Wait, PT::Criteria, PT>(c, pt)).push((wait_at(n), c)),
                ),
                n + 1,
            )
        } else {
            (w, nw, n)
        }
    }
}

/// Looking at reached stops and criteria never removes waits from the journeys tree.
proof fn lemma_waits_added_grows<PT: Request>(
    pt: PT,
    arrive: Seq<(Arrive, PT::Criteria)>,
    waits: Seq<Seq<(Wait, PT::Criteria)>>,
    new_waits: Seq<Seq<(Wait, PT::Criteria)>>,
    next: nat,
    reached: Seq<(PT::Stop, PT::Criteria)>,
)
    ensures
        waits_added(pt, arrive, waits, new_waits, next, reached).2 >= next,
    decreases reached.len(),
{
    if reached.len() > 0 {
        lemma_waits_added_grows(pt, arrive, waits, new_waits, next, reached.drop_last());
    }
}

/// The missions of `pairs`, in their order
pub(crate) open spec fn pair_missions<M, P>(pairs: Seq<(M, P)>) -> Seq<M> {
    pairs.map_values(|pair: (M, P)| pair.0)
}

/// The missions that can be boarded at the first `i` stops of `stops`, each with the
/// position of its stop on it, stop after stop
pub(crate) open spec fn boardable_at_stops<PT: RequestWithIters>(pt: PT, stops: Seq<PT::Stop>, i: nat) -> Seq<
    (PT::Mission, PT::Position),
>
    decreases i,
{
    if i == 0 {
        Seq::empty()
    } else {
        boardable_at_stops(pt, stops, (i - 1) as nat) + Seq::new(
            pt.spec_nb_of_boardable_missions_at(stops[i - 1]) as nat,
            |j: int| pt.spec_boardable_mission_at(stops[i - 1], j as usize),
        )
    }
}

impl<PT: RequestWithIters> MultiCriteriaRaptor<PT> {
    /// The invariant of the engine: all the fronts are sized alike, and every moment
    /// they refer to is stored in the journeys tree.
    pub closed spec fn inv(&self) -> bool {
        let n = self.wait_fronts@.len();
        let tree = self.journeys_tree;
        &&& self.new_wait_fronts@.len() == n
        &&& self.debark_fronts@.len() == n
        &&& self.new_debark_fronts@.len() == n
        &&& tree.wf()
        &&& fronts_below(self.wait_fronts@, wait_id(), tree.nb_waits())
        &&& fronts_below(self.new_wait_fronts@, wait_id(), tree.nb_waits())
        &&& fronts_below(self.debark_fronts@, debark_id(), tree.nb_debarks())
        &&& fronts_below(self.new_debark_fronts@, debark_id(), tree.nb_debarks())
        &&& all_below(self.board_front.view(), board_id::<PT::Trip>(), tree.nb_boards())
        &&& all_below(self.new_board_front.view(), board_id::<PT::Trip>(), tree.nb_boards())
        &&& all_below(self.arrive_front.view(), arrive_id(), tree.nb_arrives())
        &&& self.arrive_front.view().len() <= tree.nb_arrives()
        &&& ids_increasing(self.arrive_front.view(), arrive_id())
    }

    /// The engine is sized for `pt`
    pub closed spec fn sized_for(&self, pt: PT) -> bool {
        &&& self.wait_fronts@.len() == pt.spec_nb_of_stops()
    }

    /// The state of the engine between two calls
    pub closed spec fn wf(&self) -> bool {
        &&& self.inv()
        &&& self.arrive_front.view().len() <= self.results@.len()
    }

    /// Between two calls, there are at least as many journeys stored as journeys found by
    /// the last computation.
    pub proof fn lemma_wf_results(&self)
        requires
            self.wf(),
        ensures
            self.arrive_front_view().len() <= self.results_view().len(),
    {
    }

    /// Each journey found ends with an arrival of its own in the journeys tree, which
    /// also holds at least one wait, one board and one debark before them.
    pub proof fn lemma_tree_holds_journeys(&self)
        requires
            self.wf(),
        ensures
            self.arrive_front_view().len() <= self.tree().nb_arrives(),
            self.arrive_front_view().len() > 0 ==> self.tree().nb_moments() >= self.arrive_front_view().len() + 3,
    {
        if self.arrive_front_view().len() > 0 {
            self.journeys_tree.lemma_arrive_has_moments();
        }
    }

    /// The Pareto front of the journeys found by the last computation
    pub closed spec fn arrive_front_view(&self) -> Seq<(Arrive, PT::Criteria)> {
        self.arrive_front.view()
    }

    /// The journeys computed by the last computation (and possibly older ones after them)
    pub closed spec fn results_view(&self) -> Seq<Journey<PT>> {
        self.results@
    }

    /// The journeys tree of the last computation
    pub closed spec fn tree(&self) -> JourneysTree<PT> {
        self.journeys_tree
    }

    /// The number of rounds made by the last computation
    pub closed spec fn rounds(&self) -> nat {
        self.nb_of_rounds as nat
    }

    /// An engine for requests with `nb_of_stops` stops and `nb_of_missions` missions
    pub fn new(nb_of_stops: usize, nb_of_missions: usize) -> (r: Self)
        ensures
            r.wf(),
            r.arrive_front_view().len() == 0,
            r.results_view().len() == 0,
            r.rounds() == 0,
            r.tree().nb_waits() == 0,
            r.tree().nb_boards() == 0,
            r.tree().nb_debarks() == 0,
            r.tree().nb_arrives() == 0,
    {
        let r = Self {
            journeys_tree: JourneysTree::new(),
            wait_fronts: empty_fronts(nb_of_stops),
            new_wait_fronts: empty_fronts(nb_of_stops),
            stops_with_new_wait: Vec::new(),
            missions_with_new_wait: Vec::new(),
            debark_fronts: empty_fronts(nb_of_stops),
            new_debark_fronts: empty_fronts(nb_of_stops),
            stops_with_new_debark: Vec::new(),
            board_front: BoardFront::<PT>::new(),
            new_board_front: BoardFront::<PT>::new(),
            arrive_front: ArriveFront::<PT>::new(),
            results: Vec::new(),
            nb_of_rounds: 0,
        };
        r
    }

    /// Number of journeys found by the last computation
    pub fn nb_of_journeys(&self) -> (r: usize)
        ensures
            r == self.arrive_front_view().len(),
    {
        self.arrive_front.len()
    }

    /// Sizes the engine for `nb_of_stops` stops and `nb_of_missions` missions
    fn resize(&mut self, nb_of_stops: usize, nb_of_missions: usize)
        requires
            old(self).inv(),
        ensures
            final(self).inv(),
            final(self).wait_fronts@.len() == nb_of_stops,
            final(self).journeys_tree == old(self).journeys_tree,
            final(self).arrive_front == old(self).arrive_front,
            final(self).results == old(self).results,
            final(self).stops_with_new_wait == old(self).stops_with_new_wait,
            final(self).missions_with_new_wait == old(self).missions_with_new_wait,
            final(self).nb_of_rounds == old(self).nb_of_rounds,
            forall|s: int|
                0 <= s < nb_of_stops && s >= old(self).new_wait_fronts@.len() ==> (
                #[trigger] final(self).new_wait_fronts@[s]).view().len() == 0,
            forall|s: int|
                0 <= s < nb_of_stops && s < old(self).new_wait_fronts@.len() ==> (
                #[trigger] final(self).new_wait_fronts@[s]).view() == old(
                    self,
                ).new_wait_fronts@[s].view(),
            forall|s: int|
                0 <= s < nb_of_stops ==> (#[trigger] final(self).wait_fronts@[s]).view() == (if s < old(
                    self,
                ).wait_fronts@.len() {
                    old(self).wait_fronts@[s].view()
                } else {
                    Seq::empty()
                }),
            forall|s: int|
                0 <= s < nb_of_stops ==> (#[trigger] final(self).debark_fronts@[s]).view() == (if s < old(
                    self,
                ).debark_fronts@.len() {
                    old(self).debark_fronts@[s].view()
                } else {
                    Seq::empty()
                }),
            forall|s: int|
                0 <= s < nb_of_stops ==> (#[trigger] final(self).new_debark_fronts@[s]).view() == (if s < old(
                    self,
                ).new_debark_fronts@.len() {
                    old(self).new_debark_fronts@[s].view()
                } else {
                    Seq::empty()
                }),
            final(self).stops_with_new_debark == old(self).stops_with_new_debark,
    {
        resize_fronts(&mut self.wait_fronts, nb_of_stops);
        resize_fronts(&mut self.new_wait_fronts, nb_of_stops);
        resize_fronts(&mut self.debark_fronts, nb_of_stops);
        resize_fronts(&mut self.new_debark_fronts, nb_of_stops);
        proof {
            let tree = self.journeys_tree;
            assert forall|s: int, k: int|
                0 <= s < self.wait_fronts@.len() && 0 <= k < self.wait_fronts@[s].view().len()
                implies wait_id()((#[trigger] self.wait_fronts@[s].view()[k]).0) < tree.nb_waits() by {
                if s < old(self).wait_fronts@.len() {
                    assert(self.wait_fronts@[s].view() == old(self).wait_fronts@[s].view());
                    assert(old(self).wait_fronts@[s].view()[k] == self.wait_fronts@[s].view()[k]);
                } else {
                    assert(self.wait_fronts@[s].view().len() == 0);
                }
            }
            assert forall|s: int, k: int|
                0 <= s < self.new_wait_fronts@.len() && 0 <= k < self.new_wait_fronts@[s].view().len()
                implies wait_id()((#[trigger] self.new_wait_fronts@[s].view()[k]).0) < tree.nb_waits() by {
                if s < old(self).new_wait_fronts@.len() {
                    assert(self.new_wait_fronts@[s].view() == old(self).new_wait_fronts@[s].view());
                    assert(old(self).new_wait_fronts@[s].view()[k] == self.new_wait_fronts@[s].view()[k]);
                } else {
                    assert(self.new_wait_fronts@[s].view().len() == 0);
                }
            }
            assert forall|s: int, k: int|
                0 <= s < self.debark_fronts@.len() && 0 <= k < self.debark_fronts@[s].view().len()
                implies debark_id()((#[trigger] self.debark_fronts@[s].view()[k]).0) < tree.nb_debarks() by {
                if s < old(self).debark_fronts@.len() {
                    assert(self.debark_fronts@[s].view() == old(self).debark_fronts@[s].view());
                    assert(old(self).debark_fronts@[s].view()[k] == self.debark_fronts@[s].view()[k]);
                } else {
                    assert(self.debark_fronts@[s].view().len() == 0);
                }
            }
            assert forall|s: int, k: int|
                0 <= s < self.new_debark_fronts@.len() && 0 <= k < self.new_debark_fronts@[s].view().len()
                implies debark_id()((#[trigger] self.new_debark_fronts@[s].view()[k]).0) < tree.nb_debarks() by {
                if s < old(self).new_debark_fronts@.len() {
                    assert(self.new_debark_fronts@[s].view() == old(self).new_debark_fronts@[s].view());
                    assert(old(self).new_debark_fronts@[s].view()[k] == self.new_debark_fronts@[s].view()[k]);
                } else {
                    assert(self.new_debark_fronts@[s].view().len() == 0);
                }
            }
        }
    }

    /// Empties every front and the journeys tree, keeping the computed journeys
    fn clear(&mut self)
        requires
            old(self).inv(),
        ensures
            final(self).inv(),
            final(self).wait_fronts@.len() == old(self).wait_fronts@.len(),
            forall|s: int|
                0 <= s < final(self).new_wait_fronts@.len() ==> (
                #[trigger] final(self).new_wait_fronts@[s]).view().len() == 0,
            forall|s: int|
                0 <= s < final(self).new_debark_fronts@.len() ==> (
                #[trigger] final(self).new_debark_fronts@[s]).view().len() == 0,
            final(self).stops_with_new_wait@.len() == 0,
            final(self).missions_with_new_wait@.len() == 0,
            final(self).stops_with_new_debark@.len() == 0,
            final(self).arrive_front.view().len() == 0,
            final(self).journeys_tree.nb_waits() == 0,
            final(self).journeys_tree.nb_boards() == 0,
            final(self).journeys_tree.nb_debarks() == 0,
            final(self).journeys_tree.nb_arrives() == 0,
            forall|s: int|
                0 <= s < final(self).wait_fronts@.len() ==> (#[trigger] final(self).wait_fronts@[s]).view().len() == 0,
            forall|s: int|
                0 <= s < final(self).debark_fronts@.len() ==> (#[trigger] final(self).debark_fronts@[s]).view().len()
                    == 0,
            final(self).results == old(self).results,
            final(self).nb_of_rounds == 0,
    {
        self.journeys_tree.clear();
        clear_fronts(&mut self.wait_fronts);
        clear_fronts(&mut self.new_wait_fronts);
        clear_fronts(&mut self.debark_fronts);
        clear_fronts(&mut self.new_debark_fronts);
        self.stops_with_new_wait.clear();
        self.missions_with_new_wait.clear();
        self.stops_with_new_debark.clear();
        self.board_front.clear();
        self.new_board_front.clear();
        self.arrive_front.clear();
        // the computed journeys are kept so as to reuse the memory they hold
        self.nb_of_rounds = 0;
    }

    /// Computes the Pareto front of the journeys of the request `pt`: the journeys found
    /// form a Pareto front, each is stored as the journey of the tree that ends with its
    /// arrival, in the order of their arrivals in the tree, every departure of `pt` is
    /// recorded in the tree, and rounds were made when a journey was found. When the request
    /// behaves as the engine expects, the number of rounds and the journeys found are those
    /// that `computed` gives for the request, and, unless the rounds reached the largest
    /// `usize`, the journeys found cover every journey of the request: the criteria at
    /// arrival of each journey that can be made are dominated by those of a journey found.
    pub fn compute(&mut self, pt: &PT)
        requires
            old(self).wf(),
        ensures
            final(self).wf(),
            is_pareto(final(self).arrive_front_view(), *pt),
            final(self).arrive_front_view().len() <= final(self).results_view().len(),
            forall|i: int|
                0 <= i < final(self).arrive_front_view().len() ==> final(self).tree().journey_matches(
                    (#[trigger] final(self).arrive_front_view()[i]).0.idx() as int,
                    final(self).arrive_front_view()[i].1,
                    final(self).results_view()[i],
                ),
            final(self).tree().nb_waits() >= pt.spec_nb_of_departures(),
            final(self).arrive_front_view().len() > 0 ==> final(self).rounds() >= 1,
            forall|i: int, j: int|
                0 <= i < j < final(self).arrive_front_view().len() ==> (
                #[trigger] final(self).arrive_front_view()[i]).0.idx() < (
                #[trigger] final(self).arrive_front_view()[j]).0.idx(),
            final(self).arrive_front_view().len() > 0 ==> final(self).tree().nb_moments()
                >= final(self).arrive_front_view().len() + 3,
            behaves(*pt) ==> final(self).rounds() == computed(*pt).1 && final(self).arrive_front_view() == computed(
                *pt,
            ).0.4,
            behaves(*pt) && final(self).rounds() < usize::MAX ==> forall|
                departure: nat,
                legs: Seq<(nat, nat, nat)>,
                arrival: nat,
            |
                #![trigger journey_arrival(*pt, departure, legs, arrival)]
                journey_arrival(*pt, departure, legs, arrival) is Some ==> spec_dominates(
                    final(self).arrive_front_view(),
                    journey_arrival(*pt, departure, legs, arrival)->0,
                    *pt,
                ) && exists|i: int|
                    0 <= i < final(self).arrive_front_view().len() && pt.spec_is_lower(
                        (#[trigger] final(self).results_view()[i]).criteria_at_arrival,
                        journey_arrival(*pt, departure, legs, arrival)->0,
                    ),
    {
        self.clear();
        let nb_of_stops = pt.nb_of_stops();
        let nb_of_missions = pt.nb_of_missions();
        self.resize(nb_of_stops, nb_of_missions);

        let ghost before_init = *self;
        self.init_with_departures(pt);

        self.identify_missions_with_new_waits(pt);
        proof {
            assert(self.missions_with_new_wait@ =~= boardable_at_stops(
                *pt,
                self.stops_with_new_wait@,
                self.stops_with_new_wait@.len(),
            ));
            if behaves(*pt) {
                self.lemma_first_round_start(*pt);
                self.lemma_first_state(*pt, before_init);
                lemma_computed(*pt);
            }
        }

        while !self.missions_with_new_wait.is_empty() && self.nb_of_rounds < usize::MAX
            invariant
                self.inv(),
                self.sized_for(*pt),
                is_pareto(self.arrive_front.view(), *pt),
                self.journeys_tree.nb_waits() >= pt.spec_nb_of_departures(),
                self.arrive_front.view().len() > 0 ==> self.nb_of_rounds >= 1,
                self.missions_with_new_wait@ == boardable_at_stops(
                    *pt,
                    self.stops_with_new_wait@,
                    self.stops_with_new_wait@.len(),
                ),
                behaves(*pt) ==> self.round_start_holds(*pt),
                behaves(*pt) ==> rounds_from(*pt, self.engine_state(), self.nb_of_rounds as nat) == computed(*pt),
            decreases usize::MAX - self.nb_of_rounds,
        {
            let ghost s0 = *self;
            self.save_and_clear_new_debarks(pt);
            proof {
                if behaves(*pt) {
                    lemma_debarks_saved(
                        *pt,
                        front_views(s0.wait_fronts@),
                        front_views(s0.new_wait_fronts@),
                        front_views(s0.debark_fronts@),
                        front_views(s0.new_debark_fronts@),
                        s0.arrive_front.view(),
                        s0.stops_with_new_wait@,
                        s0.stops_with_new_debark@,
                        front_views(self.debark_fronts@),
                        front_views(self.new_debark_fronts@),
                    );
                    lemma_saved_fronts(
                        *pt,
                        s0.stops_with_new_debark@,
                        front_views(s0.debark_fronts@),
                        front_views(s0.new_debark_fronts@),
                        front_views(self.debark_fronts@),
                        front_views(self.new_debark_fronts@),
                    );
                }
            }
            let ghost s1 = *self;

            self.ride(pt);
            proof {
                if behaves(*pt) {
                    let starts = choose|starts: Seq<Option<PT::Position>>|
                        {
                            &&& starts.len() == s1.missions_with_new_wait@.len()
                            &&& forall|m: int|
                                0 <= m < starts.len() ==> started_from(
                                    Some(s1.missions_with_new_wait@[m].1),
                                    #[trigger] starts[m],
                                )
                            &&& ride_missions(
                                *pt,
                                pair_missions(s1.missions_with_new_wait@),
                                starts,
                                front_views(s1.new_wait_fronts@),
                                s1.arrive_front.view(),
                                s1.ride_state(),
                                starts.len(),
                            ) == self.ride_state()
                            &&& behaves(*pt) ==> ride_missions_stops(
                                *pt,
                                pair_missions(s1.missions_with_new_wait@),
                                starts,
                                front_views(s1.new_wait_fronts@),
                                s1.arrive_front.view(),
                                s1.ride_state(),
                                s1.stops_with_new_debark@,
                                starts.len(),
                            ) == self.stops_with_new_debark@
                        };
                    lemma_ridden_round(
                        *pt,
                        front_views(s1.wait_fronts@),
                        front_views(s1.new_wait_fronts@),
                        s1.arrive_front.view(),
                        s1.stops_with_new_wait@,
                        starts,
                        s1.ride_state(),
                        self.ride_state(),
                    );
                    self.lemma_ride_step(*pt, s0, s1, starts);
                }
            }
            let ghost s2 = *self;

            self.save_and_clear_new_waits(pt);
            proof {
                if behaves(*pt) {
                    lemma_waits_saved(
                        *pt,
                        front_views(s2.wait_fronts@),
                        front_views(s2.new_wait_fronts@),
                        front_views(s2.debark_fronts@),
                        front_views(s2.new_debark_fronts@),
                        s2.arrive_front.view(),
                        s2.stops_with_new_wait@,
                        front_views(self.wait_fronts@),
                        front_views(self.new_wait_fronts@),
                    );
                    lemma_saved_fronts(
                        *pt,
                        s2.stops_with_new_wait@,
                        front_views(s2.wait_fronts@),
                        front_views(s2.new_wait_fronts@),
                        front_views(self.wait_fronts@),
                        front_views(self.new_wait_fronts@),
                    );
                }
            }
            let ghost s3 = *self;

            self.perform_transfers_and_arrivals(pt);
            proof {
                if behaves(*pt) {
                    lemma_transfers_round(
                        *pt,
                        front_views(s3.wait_fronts@),
                        front_views(s3.new_wait_fronts@),
                        front_views(s3.debark_fronts@),
                        front_views(s3.new_debark_fronts@),
                        s3.arrive_front.view(),
                        s3.stops_with_new_debark@,
                        s3.journeys_tree.nb_arrives(),
                        s3.journeys_tree.nb_waits(),
                        self.arrive_front.view(),
                        front_views(self.wait_fronts@),
                        front_views(self.new_wait_fronts@),
                        self.stops_with_new_wait@,
                    );
                }
            }

            self.identify_missions_with_new_waits(pt);
            proof {
                assert(self.missions_with_new_wait@ =~= boardable_at_stops(
                    *pt,
                    self.stops_with_new_wait@,
                    self.stops_with_new_wait@.len(),
                ));
                if behaves(*pt) {
                    let st = s0.engine_state();
                    let saved_d = saved_fronts(*pt, st.6, st.2, st.3);
                    let ride_start: RideState<PT> = (saved_d.0, saved_d.1, st.7.2, st.7.1, Seq::empty());
                    let missions = pair_missions(missions_of(*pt, st));
                    let starts_st = starts_of(*pt, st);
                    let ridden = ride_missions(*pt, missions, starts_st, st.1, st.4, ride_start, starts_st.len());
                    let debark_stops = ride_missions_stops(
                        *pt,
                        missions,
                        starts_st,
                        st.1,
                        st.4,
                        ride_start,
                        Seq::empty(),
                        starts_st.len(),
                    );
                    let saved_w = saved_fronts(*pt, st.5, st.0, st.1);
                    assert(front_views(s3.wait_fronts@) == saved_w.0);
                    assert(front_views(s3.new_wait_fronts@) == saved_w.1);
                    assert(front_views(s3.new_debark_fronts@) == ridden.1);
                    assert(s3.stops_with_new_debark@ == debark_stops);
                    assert(s3.arrive_front.view() == st.4);
                    assert(s3.journeys_tree.nb_arrives() == st.7.3);
                    assert(s3.journeys_tree.nb_waits() == st.7.0);
                    assert(s3.stops_with_new_wait@ =~= Seq::<PT::Stop>::empty());
                    let arrived = arrives_added(*pt, st.4, st.7.3, arrivals_of(*pt, ridden.1, pt.spec_nb_of_arrivals() as nat));
                    assert(self.arrive_front.view() == arrived.0);
                    assert(self.journeys_tree.nb_arrives() == arrived.1);
                    assert(front_views(self.debark_fronts@) == ridden.0);
                    assert(front_views(self.new_debark_fronts@) == ridden.1);
                    assert(self.journeys_tree.nb_boards() == ridden.3);
                    assert(self.journeys_tree.nb_debarks() == ridden.2);
                    assert(self.stops_with_new_debark@ == debark_stops);
                    assert(self.engine_state() == round_of(*pt, s0.engine_state()));
                    assert(missions_of(*pt, s0.engine_state()) == s0.missions_with_new_wait@);
                }
            }

            self.nb_of_rounds += 1;
        }
        proof {
            if behaves(*pt) && self.nb_of_rounds < usize::MAX {
                self.lemma_last_round_covers(*pt);
            }
            if behaves(*pt) {
                assert(missions_of(*pt, self.engine_state()) == self.missions_with_new_wait@);
                assert(rounds_from(*pt, self.engine_state(), self.nb_of_rounds as nat) == (
                    self.engine_state(),
                    self.nb_of_rounds as nat,
                ));
            }
        }

        self.fill_results();
        proof {
            self.lemma_tree_holds_journeys();
            if behaves(*pt) && self.nb_of_rounds < usize::MAX {
                assert forall|departure: nat, legs: Seq<(nat, nat, nat)>, arrival: nat|
                    #![trigger journey_arrival(*pt, departure, legs, arrival)]
                    journey_arrival(*pt, departure, legs, arrival) is Some implies exists|i: int|
                        0 <= i < self.arrive_front.view().len() && pt.spec_is_lower(
                            (#[trigger] self.results@[i]).criteria_at_arrival,
                            journey_arrival(*pt, departure, legs, arrival)->0,
                        ) by {
                    let c = journey_arrival(*pt, departure, legs, arrival)->0;
                    let front = self.arrive_front.view();
                    let i = choose|i: int| 0 <= i < front.len() && pt.spec_is_lower(#[trigger] front[i].1, c);
                    assert(self.journeys_tree.journey_matches(front[i].0.idx() as int, front[i].1, self.results@[i]));
                    assert(cloned(front[i].1, self.results@[i].criteria_at_arrival));
                }
            }
        }
    }

    /// The fronts, the arrive front, the listed stops and the numbers of moments of the
    /// journeys tree
    spec fn engine_state(&self) -> EngineState<PT> {
        (
            front_views(self.wait_fronts@),
            front_views(self.new_wait_fronts@),
            front_views(self.debark_fronts@),
            front_views(self.new_debark_fronts@),
            self.arrive_front.view(),
            self.stops_with_new_wait@,
            self.stops_with_new_debark@,
            (
                self.journeys_tree.nb_waits(),
                self.journeys_tree.nb_boards(),
                self.journeys_tree.nb_debarks(),
                self.journeys_tree.nb_arrives(),
            ),
        )
    }

    /// Once the departures are recorded in an empty engine sized for `pt`, its state is the
    /// first state of `pt`.
    proof fn lemma_first_state(&self, pt: PT, before: Self)
        requires
            behaves(pt),
            before.new_wait_fronts@.len() == pt.spec_nb_of_stops(),
            forall|s: int|
                0 <= s < before.new_wait_fronts@.len() ==> (#[trigger] before.new_wait_fronts@[s]).view().len() == 0,
            before.stops_with_new_wait@.len() == 0,
            before.journeys_tree.nb_waits() == 0,
            (front_views(self.new_wait_fronts@), self.stops_with_new_wait@) == departures_added(
                pt,
                front_views(before.new_wait_fronts@),
                before.stops_with_new_wait@,
                before.journeys_tree.nb_waits(),
                pt.spec_nb_of_departures() as nat,
            ),
            self.wait_fronts@.len() == pt.spec_nb_of_stops(),
            self.debark_fronts@.len() == pt.spec_nb_of_stops(),
            self.new_debark_fronts@.len() == pt.spec_nb_of_stops(),
            forall|s: int| 0 <= s < self.wait_fronts@.len() ==> (#[trigger] self.wait_fronts@[s]).view().len() == 0,
            forall|s: int| 0 <= s < self.debark_fronts@.len() ==> (#[trigger] self.debark_fronts@[s]).view().len() == 0,
            forall|s: int|
                0 <= s < self.new_debark_fronts@.len() ==> (#[trigger] self.new_debark_fronts@[s]).view().len() == 0,
            self.arrive_front.view().len() == 0,
            self.stops_with_new_debark@.len() == 0,
            self.journeys_tree.nb_waits() == pt.spec_nb_of_departures(),
            self.journeys_tree.nb_boards() == 0,
            self.journeys_tree.nb_debarks() == 0,
            self.journeys_tree.nb_arrives() == 0,
        ensures
            self.engine_state() == first_state(pt),
    {
        let n = pt.spec_nb_of_stops() as nat;
        let no_waits = Seq::new(n, |s: int| Seq::<(Wait, PT::Criteria)>::empty());
        let no_debarks = Seq::new(n, |s: int| Seq::<(Debark, PT::Criteria)>::empty());
        assert forall|s: int| 0 <= s < n implies #[trigger] front_views(self.wait_fronts@)[s] == no_waits[s] by {
            assert(self.wait_fronts@[s].view() =~= Seq::<(Wait, PT::Criteria)>::empty());
        }
        assert forall|s: int| 0 <= s < n implies #[trigger] front_views(before.new_wait_fronts@)[s] == no_waits[s] by {
            assert(before.new_wait_fronts@[s].view() =~= Seq::<(Wait, PT::Criteria)>::empty());
        }
        assert forall|s: int| 0 <= s < n implies #[trigger] front_views(self.debark_fronts@)[s] == no_debarks[s] by {
            assert(self.debark_fronts@[s].view() =~= Seq::<(Debark, PT::Criteria)>::empty());
        }
        assert forall|s: int| 0 <= s < n implies #[trigger] front_views(self.new_debark_fronts@)[s] == no_debarks[s] by {
            assert(self.new_debark_fronts@[s].view() =~= Seq::<(Debark, PT::Criteria)>::empty());
        }
        assert(front_views(self.wait_fronts@) =~= no_waits);
        assert(front_views(before.new_wait_fronts@) =~= no_waits);
        assert(front_views(self.debark_fronts@) =~= no_debarks);
        assert(front_views(self.new_debark_fronts@) =~= no_debarks);
        assert(before.stops_with_new_wait@ =~= Seq::<PT::Stop>::empty());
        assert(self.arrive_front.view() =~= Seq::<(Arrive, PT::Criteria)>::empty());
        assert(self.stops_with_new_debark@ =~= Seq::<PT::Stop>::empty());
    }

    /// Riding from `s1`, whose debark fronts were just saved from `s0`, from the positions of
    /// the missions with a new wait, gives what a round of `s0` rides.
    proof fn lemma_ride_step(&self, pt: PT, s0: Self, s1: Self, starts: Seq<Option<PT::Position>>)
        requires
            behaves(pt),
            s1.missions_with_new_wait == s0.missions_with_new_wait,
            s0.missions_with_new_wait@ == boardable_at_stops(pt, s0.stops_with_new_wait@, s0.stops_with_new_wait@.len()),
            s1.stops_with_new_wait == s0.stops_with_new_wait,
            s1.new_wait_fronts == s0.new_wait_fronts,
            s1.arrive_front == s0.arrive_front,
            s1.stops_with_new_debark@.len() == 0,
            s1.journeys_tree.nb_debarks() == s0.journeys_tree.nb_debarks(),
            s1.journeys_tree.nb_boards() == s0.journeys_tree.nb_boards(),
            (front_views(s1.debark_fronts@), front_views(s1.new_debark_fronts@)) == saved_fronts(
                pt,
                s0.stops_with_new_debark@,
                front_views(s0.debark_fronts@),
                front_views(s0.new_debark_fronts@),
            ),
            starts.len() == s1.missions_with_new_wait@.len(),
            forall|m: int|
                0 <= m < starts.len() ==> started_from(Some(s1.missions_with_new_wait@[m].1), #[trigger] starts[m]),
            ride_missions(
                pt,
                pair_missions(s1.missions_with_new_wait@),
                starts,
                front_views(s1.new_wait_fronts@),
                s1.arrive_front.view(),
                s1.ride_state(),
                starts.len(),
            ) == self.ride_state(),
            ride_missions_stops(
                pt,
                pair_missions(s1.missions_with_new_wait@),
                starts,
                front_views(s1.new_wait_fronts@),
                s1.arrive_front.view(),
                s1.ride_state(),
                s1.stops_with_new_debark@,
                starts.len(),
            ) == self.stops_with_new_debark@,
        ensures
            ({
                let st = s0.engine_state();
                let saved = saved_fronts(pt, st.6, st.2, st.3);
                let ride_start: RideState<PT> = (saved.0, saved.1, st.7.2, st.7.1, Seq::empty());
                let missions = pair_missions(missions_of(pt, st));
                let starts_st = starts_of(pt, st);
                let ridden = ride_missions(pt, missions, starts_st, st.1, st.4, ride_start, starts_st.len());
                &&& front_views(self.debark_fronts@) == ridden.0
                &&& front_views(self.new_debark_fronts@) == ridden.1
                &&& self.journeys_tree.nb_debarks() == ridden.2
                &&& self.journeys_tree.nb_boards() == ridden.3
                &&& self.stops_with_new_debark@ == ride_missions_stops(
                    pt,
                    missions,
                    starts_st,
                    st.1,
                    st.4,
                    ride_start,
                    Seq::empty(),
                    starts_st.len(),
                )
            }),
    {
        let st = s0.engine_state();
        let starts_st = starts_of(pt, st);
        assert forall|m: int| 0 <= m < starts.len() implies starts[m] == starts_st[m] by {
            assert(started_from(Some(s1.missions_with_new_wait@[m].1), starts[m]));
            let q = starts[m].unwrap();
            assert(cloned(s1.missions_with_new_wait@[m].1, q));
        }
        assert(starts =~= starts_st);
        let saved = saved_fronts(pt, st.6, st.2, st.3);
        let ride_start: RideState<PT> = (saved.0, saved.1, st.7.2, st.7.1, Seq::empty());
        assert(s1.stops_with_new_debark@ =~= Seq::<PT::Stop>::empty());
        lemma_ride_missions_board_front(
            pt,
            pair_missions(missions_of(pt, st)),
            starts,
            st.1,
            st.4,
            s1.ride_state(),
            ride_start,
            Seq::empty(),
            starts.len(),
        );
    }

    /// The state at the start of a round, as `round_start` says, with the stops with a
    /// new wait and with a new debark
    spec fn round_start_holds(&self, pt: PT) -> bool {
        round_start(
            pt,
            front_views(self.wait_fronts@),
            front_views(self.new_wait_fronts@),
            front_views(self.debark_fronts@),
            front_views(self.new_debark_fronts@),
            self.arrive_front.view(),
            self.stops_with_new_wait@,
            self.stops_with_new_debark@,
        )
    }

    /// With no wait, no debark and no arrival yet, and the departures dominated by the new
    /// waits of their stops, listed, the first round starts.
    proof fn lemma_first_round_start(&self, pt: PT)
        requires
            behaves(pt),
            self.wait_fronts@.len() == pt.spec_nb_of_stops(),
            self.new_wait_fronts@.len() == pt.spec_nb_of_stops(),
            self.debark_fronts@.len() == pt.spec_nb_of_stops(),
            self.new_debark_fronts@.len() == pt.spec_nb_of_stops(),
            forall|s: int| 0 <= s < self.wait_fronts@.len() ==> (#[trigger] self.wait_fronts@[s]).view().len() == 0,
            forall|s: int| 0 <= s < self.debark_fronts@.len() ==> (#[trigger] self.debark_fronts@[s]).view().len() == 0,
            forall|s: int|
                0 <= s < self.new_debark_fronts@.len() ==> (#[trigger] self.new_debark_fronts@[s]).view().len() == 0,
            listed(pt, front_views(self.new_wait_fronts@), self.stops_with_new_wait@),
            forall|j: int|
                0 <= j < pt.spec_nb_of_departures() ==> spec_dominates(
                    self.new_wait_fronts@[pt.spec_stop_id(
                        pt.spec_depart(#[trigger] pt.spec_departure(j as usize)).0,
                    ) as int].view(),
                    pt.spec_depart(pt.spec_departure(j as usize)).1,
                    pt,
                ),
        ensures
            self.round_start_holds(pt),
    {
        let w = front_views(self.wait_fronts@);
        let nw = front_views(self.new_wait_fronts@);
        let d = front_views(self.debark_fronts@);
        let nd = front_views(self.new_debark_fronts@);
        assert forall|j: nat|
            #![trigger pt.spec_departure(j as usize)]
            j < pt.spec_nb_of_departures() && pt.spec_is_valid(pt.spec_depart(pt.spec_departure(j as usize)).1)
                implies covered(
                pt,
                w,
                nw,
                pt.spec_stop_id(pt.spec_depart(pt.spec_departure(j as usize)).0) as int,
                pt.spec_depart(pt.spec_departure(j as usize)).1,
            ) || spec_dominates(self.arrive_front.view(), pt.spec_depart(pt.spec_departure(j as usize)).1, pt) by {
            assert(pt.spec_stop_id(pt.spec_depart(pt.spec_departure(j as usize)).0) < pt.spec_nb_of_stops());
        }
        assert forall|s: int| 0 <= s < nd.len() && #[trigger] nd[s].len() > 0 implies lists_stop(
            pt,
            self.stops_with_new_debark@,
            s,
        ) by {
            assert(self.new_debark_fronts@[s].view().len() == 0);
        }
        assert forall|s: int| 0 <= s < w.len() implies #[trigger] w[s].len() == 0 by {
            assert(self.wait_fronts@[s].view().len() == 0);
        }
        assert forall|s: int| 0 <= s < d.len() implies #[trigger] d[s].len() == 0 by {
            assert(self.debark_fronts@[s].view().len() == 0);
        }
        assert forall|s: int| 0 <= s < nd.len() implies #[trigger] nd[s].len() == 0 by {
            assert(self.new_debark_fronts@[s].view().len() == 0);
        }
        assert(waits_done(pt, w, d, nd, self.arrive_front.view()));
        assert(debarks_done(pt, w, nw, d, self.arrive_front.view()));
        assert(debarks_done(pt, w, nw, nd, self.arrive_front.view()));
    }

    /// At the start of a round with no mission to ride, every journey of the request that
    /// can be made arrives with criteria dominated by the arrive front.
    proof fn lemma_last_round_covers(&self, pt: PT)
        requires
            behaves(pt),
            self.round_start_holds(pt),
            self.missions_with_new_wait@.len() == 0,
            self.missions_with_new_wait@ == boardable_at_stops(
                pt,
                self.stops_with_new_wait@,
                self.stops_with_new_wait@.len(),
            ),
        ensures
            forall|departure: nat, legs: Seq<(nat, nat, nat)>, arrival: nat|
                #![trigger journey_arrival(pt, departure, legs, arrival)]
                journey_arrival(pt, departure, legs, arrival) is Some ==> spec_dominates(
                    self.arrive_front.view(),
                    journey_arrival(pt, departure, legs, arrival)->0,
                    pt,
                ),
    {
        let stops = self.stops_with_new_wait@;
        assert forall|j: int| 0 <= j < stops.len() implies pt.spec_nb_of_boardable_missions_at(#[trigger] stops[j])
            == 0 by {
            if pt.spec_nb_of_boardable_missions_at(stops[j]) > 0 {
                lemma_boardable_at_stops_holds(pt, stops, stops.len(), j, 0);
            }
        }
        let w = front_views(self.wait_fronts@);
        let nw = front_views(self.new_wait_fronts@);
        let d = front_views(self.debark_fronts@);
        let nd = front_views(self.new_debark_fronts@);
        let a = self.arrive_front.view();
        lemma_round_start_closed(pt, w, nw, d, nd, a, stops, self.stops_with_new_debark@);
        assert forall|departure: nat, legs: Seq<(nat, nat, nat)>, arrival: nat|
            #![trigger journey_arrival(pt, departure, legs, arrival)]
            journey_arrival(pt, departure, legs, arrival) is Some implies spec_dominates(
                a,
                journey_arrival(pt, departure, legs, arrival)->0,
                pt,
            ) by {
            lemma_closed_covers_journeys(pt, w, nw, d, nd, a, departure, legs, arrival);
        }
    }

    /// Records the departures of the request in the new wait fronts: each departure gets a
    /// new wait in the journeys tree, and the new wait front of its stop is no longer
    /// empty; the new wait fronts of the other stops, the other fronts and the missions
    /// stay.
    fn init_with_departures(&mut self, pt: &PT)
        requires
            old(self).inv(),
            old(self).sized_for(*pt),
            is_pareto(old(self).arrive_front.view(), *pt),
            behaves(*pt) ==> listed(*pt, front_views(old(self).new_wait_fronts@), old(self).stops_with_new_wait@),
        ensures
            behaves(*pt) ==> listed(*pt, front_views(final(self).new_wait_fronts@), final(self).stops_with_new_wait@),
            behaves(*pt) ==> (front_views(final(self).new_wait_fronts@), final(self).stops_with_new_wait@)
                == departures_added(
                *pt,
                front_views(old(self).new_wait_fronts@),
                old(self).stops_with_new_wait@,
                old(self).journeys_tree.nb_waits(),
                pt.spec_nb_of_departures() as nat,
            ),
            behaves(*pt) ==> forall|j: int|
                0 <= j < pt.spec_nb_of_departures() ==> spec_dominates(
                    final(self).new_wait_fronts@[pt.spec_stop_id(
                        pt.spec_depart(#[trigger] pt.spec_departure(j as usize)).0,
                    ) as int].view(),
                    pt.spec_depart(pt.spec_departure(j as usize)).1,
                    *pt,
                ),
            final(self).inv(),
            final(self).sized_for(*pt),
            is_pareto(final(self).arrive_front.view(), *pt),
            final(self).nb_of_rounds == old(self).nb_of_rounds,
            final(self).missions_with_new_wait == old(self).missions_with_new_wait,
            final(self).stops_with_new_debark == old(self).stops_with_new_debark,
            final(self).wait_fronts == old(self).wait_fronts,
            final(self).debark_fronts == old(self).debark_fronts,
            final(self).new_debark_fronts == old(self).new_debark_fronts,
            final(self).board_front == old(self).board_front,
            final(self).new_board_front == old(self).new_board_front,
            final(self).arrive_front == old(self).arrive_front,
            final(self).results == old(self).results,
            final(self).journeys_tree.nb_waits() == old(self).journeys_tree.nb_waits()
                + pt.spec_nb_of_departures(),
            final(self).journeys_tree.nb_boards() == old(self).journeys_tree.nb_boards(),
            final(self).journeys_tree.nb_debarks() == old(self).journeys_tree.nb_debarks(),
            final(self).journeys_tree.nb_arrives() == old(self).journeys_tree.nb_arrives(),
            forall|t: int|
                0 <= t < old(self).new_wait_fronts@.len() ==> if departs_at(*pt, t, pt.spec_nb_of_departures() as int) {
                    (#[trigger] final(self).new_wait_fronts@[t]).view().len() > 0
                } else {
                    final(self).new_wait_fronts@[t] == old(self).new_wait_fronts@[t]
                },
    {
        let departures = pt.departures();
        let mut i: usize = 0;
        while i < departures.len()
            invariant
                self.inv(),
                self.sized_for(*pt),
                is_pareto(self.arrive_front.view(), *pt),
                i <= departures@.len(),
                departures@.len() == pt.spec_nb_of_departures(),
                forall|j: int| 0 <= j < departures@.len() ==> #[trigger] departures@[j] == pt.spec_departure(j as usize),
                self.nb_of_rounds == old(self).nb_of_rounds,
                self.missions_with_new_wait == old(self).missions_with_new_wait,
                self.stops_with_new_debark == old(self).stops_with_new_debark,
                self.wait_fronts == old(self).wait_fronts,
                self.debark_fronts == old(self).debark_fronts,
                self.new_debark_fronts == old(self).new_debark_fronts,
                self.board_front == old(self).board_front,
                self.new_board_front == old(self).new_board_front,
                self.arrive_front == old(self).arrive_front,
                self.results == old(self).results,
                self.journeys_tree.nb_waits() == old(self).journeys_tree.nb_waits() + i,
                self.journeys_tree.nb_boards() == old(self).journeys_tree.nb_boards(),
                self.journeys_tree.nb_debarks() == old(self).journeys_tree.nb_debarks(),
                self.journeys_tree.nb_arrives() == old(self).journeys_tree.nb_arrives(),
                self.new_wait_fronts@.len() == old(self).new_wait_fronts@.len(),
                behaves(*pt) ==> listed(*pt, front_views(self.new_wait_fronts@), self.stops_with_new_wait@),
                behaves(*pt) ==> (front_views(self.new_wait_fronts@), self.stops_with_new_wait@) == departures_added(
                    *pt,
                    front_views(old(self).new_wait_fronts@),
                    old(self).stops_with_new_wait@,
                    old(self).journeys_tree.nb_waits(),
                    i as nat,
                ),
                behaves(*pt) ==> forall|j: int|
                    0 <= j < i ==> spec_dominates(
                        self.new_wait_fronts@[pt.spec_stop_id(
                            pt.spec_depart(#[trigger] pt.spec_departure(j as usize)).0,
                        ) as int].view(),
                        pt.spec_depart(pt.spec_departure(j as usize)).1,
                        *pt,
                    ),
                forall|t: int|
                    0 <= t < old(self).new_wait_fronts@.len() ==> if departs_at(*pt, t, i as int) {
                        (#[trigger] self.new_wait_fronts@[t]).view().len() > 0
                    } else {
                        self.new_wait_fronts@[t] == old(self).new_wait_fronts@[t]
                    },
            decreases departures@.len() - i,
        {
            let departure = &departures[i];
            let (stop, criteria) = pt.depart(departure);
            let ghost old_self = *self;
            let journey = self.journeys_tree.depart(departure);
            let stop_id = pt.stop_id(&stop);
            let ghost stops_before = self.stops_with_new_wait@;
            if self.new_wait_fronts[stop_id].is_empty() {
                let pushed = stop.clone();
                proof {
                    lemma_lists_pushed(*pt, self.stops_with_new_wait@, pushed);
                    if behaves(*pt) {
                        assert(cloned(stop, pushed));
                    }
                }
                self.stops_with_new_wait.push(pushed);
            }
            let ghost fronts_before = self.new_wait_fronts;
            let ghost before = self.new_wait_fronts@[stop_id as int].view();
            self.new_wait_fronts[stop_id].add(journey, criteria, pt);
            proof {
                lemma_filter_below(
                    before,
                    not_dominated_by::<Wait, PT::Criteria, PT>(criteria, *pt),
                    wait_id(),
                    self.journeys_tree.nb_waits(),
                );
                self.lemma_inv_after_wait_update(old_self, stop_id as int);
                assert(stops_before.is_prefix_of(self.stops_with_new_wait@));
                if behaves(*pt) {
                    let s = stop_id as int;
                    assert forall|t: int|
                        0 <= t < front_views(fronts_before@).len() && t != s implies #[trigger] front_views(
                            self.new_wait_fronts@,
                        )[t] == front_views(fronts_before@)[t] by {
                        assert(self.new_wait_fronts@[t] == fronts_before@[t]);
                    }
                    lemma_listed_update(
                        *pt,
                        front_views(fronts_before@),
                        stops_before,
                        front_views(self.new_wait_fronts@),
                        self.stops_with_new_wait@,
                        s,
                    );
                    assert(self.new_wait_fronts@[s].view() == added(before, journey, criteria, *pt));
                    lemma_wait_at(journey);
                    assert(front_views(self.new_wait_fronts@) =~= front_views(fronts_before@).update(
                        s,
                        added(before, journey, criteria, *pt),
                    ));
                    assert(pt.spec_depart(pt.spec_departure(i as usize)) == (stop, criteria));
                    assert((front_views(self.new_wait_fronts@), self.stops_with_new_wait@) == departures_added(
                        *pt,
                        front_views(old(self).new_wait_fronts@),
                        old(self).stops_with_new_wait@,
                        old(self).journeys_tree.nb_waits(),
                        (i + 1) as nat,
                    ));
                    assert forall|j: int|
                        0 <= j < i + 1 implies spec_dominates(
                            self.new_wait_fronts@[pt.spec_stop_id(
                                pt.spec_depart(#[trigger] pt.spec_departure(j as usize)).0,
                            ) as int].view(),
                            pt.spec_depart(pt.spec_departure(j as usize)).1,
                            *pt,
                        ) by {
                        let d = pt.spec_depart(pt.spec_departure(j as usize));
                        let sj = pt.spec_stop_id(d.0) as int;
                        lemma_added_dominates(before, journey, criteria, d.1, *pt);
                        if j < i && sj != s {
                            assert(self.new_wait_fronts@[sj] == fronts_before@[sj]);
                        }
                    }
                }
                assert(pt.spec_stop_id(pt.spec_depart(pt.spec_departure(i as usize)).0) == stop_id);
                assert forall|t: int|
                    0 <= t < old(self).new_wait_fronts@.len() implies if departs_at(*pt, t, i + 1) {
                        (#[trigger] self.new_wait_fronts@[t]).view().len() > 0
                    } else {
                        self.new_wait_fronts@[t] == old(self).new_wait_fronts@[t]
                    } by {
                    if t == stop_id {
                        assert(departs_at(*pt, t, i + 1)) by {
                            assert(pt.spec_stop_id(pt.spec_depart(pt.spec_departure(i as usize)).0) == t);
                        }
                        if spec_dominates(before, criteria, *pt) {
                            let k = choose|k: int| 0 <= k < before.len() && pt.spec_is_lower(#[trigger] before[k].1, criteria);
                            assert(before.len() > 0);
                        }
                    } else {
                        assert(self.new_wait_fronts@[t] == fronts_before@[t]);
                        if departs_at(*pt, t, i + 1) {
                            let j = choose|j: int| 0 <= j < i + 1 && #[trigger] pt.spec_stop_id(pt.spec_depart(pt.spec_departure(j as usize)).0) == t;
                            assert(j != i);
                            assert(departs_at(*pt, t, i as int));
                        } else {
                            assert(!departs_at(*pt, t, i as int)) by {
                                if departs_at(*pt, t, i as int) {
                                    let j = choose|j: int| 0 <= j < i && #[trigger] pt.spec_stop_id(pt.spec_depart(pt.spec_departure(j as usize)).0) == t;
                                    assert(0 <= j < i + 1);
                                }
                            }
                        }
                    }
                }
            }
            i += 1;
        }
    }

    /// When the tree grew and only the new wait front at `s` changed, with all its
    /// waits stored in the tree, the invariant holds.
    proof fn lemma_inv_after_wait_update(&self, old_self: Self, s: int)
        requires
            old_self.inv(),
            self.journeys_tree.wf(),
            self.journeys_tree.nb_boards() >= old_self.journeys_tree.nb_boards(),
            self.journeys_tree.nb_debarks() >= old_self.journeys_tree.nb_debarks(),
            self.journeys_tree.nb_waits() >= old_self.journeys_tree.nb_waits(),
            self.journeys_tree.nb_arrives() >= old_self.journeys_tree.nb_arrives(),
            0 <= s < old_self.new_wait_fronts@.len(),
            self.wait_fronts == old_self.wait_fronts,
            self.debark_fronts == old_self.debark_fronts,
            self.new_debark_fronts == old_self.new_debark_fronts,
            self.board_front == old_self.board_front,
            self.new_board_front == old_self.new_board_front,
            self.arrive_front == old_self.arrive_front,
            self.new_wait_fronts@.len() == old_self.new_wait_fronts@.len(),
            forall|t: int|
                0 <= t < self.new_wait_fronts@.len() && t != s ==> #[trigger] self.new_wait_fronts@[t]
                    == old_self.new_wait_fronts@[t],
            all_below(self.new_wait_fronts@[s].view(), wait_id(), self.journeys_tree.nb_waits()),
        ensures
            self.inv(),
    {
        let n = self.journeys_tree.nb_waits();
        assert forall|t: int, k: int|
            0 <= t < self.new_wait_fronts@.len() && 0 <= k < self.new_wait_fronts@[t].view().len()
            implies wait_id()((#[trigger] self.new_wait_fronts@[t].view()[k]).0) < n by {
            if t != s {
                assert(self.new_wait_fronts@[t] == old_self.new_wait_fronts@[t]);
            }
        }
    }

    /// Identifies the missions that can be boarded from the stops with a new wait: each
    /// mission that can be boarded at one of `stops_with_new_wait`, with the position of the
    /// stop on it, is appended to `missions_with_new_wait`, stop after stop, as
    /// `boardable_at_stops` says; nothing else changes.
    fn identify_missions_with_new_waits(&mut self, pt: &PT)
        requires
            old(self).inv(),
            old(self).sized_for(*pt),
            is_pareto(old(self).arrive_front.view(), *pt),
        ensures
            final(self).inv(),
            final(self).sized_for(*pt),
            is_pareto(final(self).arrive_front.view(), *pt),
            final(self).nb_of_rounds == old(self).nb_of_rounds,
            final(self).journeys_tree == old(self).journeys_tree,
            final(self).wait_fronts == old(self).wait_fronts,
            final(self).new_wait_fronts == old(self).new_wait_fronts,
            final(self).debark_fronts == old(self).debark_fronts,
            final(self).new_debark_fronts == old(self).new_debark_fronts,
            final(self).board_front == old(self).board_front,
            final(self).new_board_front == old(self).new_board_front,
            final(self).arrive_front == old(self).arrive_front,
            final(self).results == old(self).results,
            final(self).stops_with_new_wait == old(self).stops_with_new_wait,
            final(self).stops_with_new_debark == old(self).stops_with_new_debark,
            final(self).missions_with_new_wait@ == old(self).missions_with_new_wait@ + boardable_at_stops(
                *pt,
                old(self).stops_with_new_wait@,
                old(self).stops_with_new_wait@.len(),
            ),
    {
        let ghost stops = self.stops_with_new_wait@;
        let ghost start = self.missions_with_new_wait@;
        let mut i: usize = 0;
        while i < self.stops_with_new_wait.len()
            invariant
                self.inv(),
                self.sized_for(*pt),
                is_pareto(self.arrive_front.view(), *pt),
                self.nb_of_rounds == old(self).nb_of_rounds,
                self.journeys_tree == old(self).journeys_tree,
                self.wait_fronts == old(self).wait_fronts,
                self.new_wait_fronts == old(self).new_wait_fronts,
                self.debark_fronts == old(self).debark_fronts,
                self.new_debark_fronts == old(self).new_debark_fronts,
                self.board_front == old(self).board_front,
                self.new_board_front == old(self).new_board_front,
                self.arrive_front == old(self).arrive_front,
                self.results == old(self).results,
                self.stops_with_new_wait == old(self).stops_with_new_wait,
                self.stops_with_new_debark == old(self).stops_with_new_debark,
                stops == old(self).stops_with_new_wait@,
                start == old(self).missions_with_new_wait@,
                i <= stops.len(),
                self.missions_with_new_wait@ == start + boardable_at_stops(*pt, stops, i as nat),
            decreases stops.len() - i,
        {
            let mut missions = pt.boardable_missions_at(&self.stops_with_new_wait[i]);
            let ghost v = missions@;
            self.missions_with_new_wait.append(&mut missions);
            proof {
                assert(v =~= Seq::new(
                    pt.spec_nb_of_boardable_missions_at(stops[i as int]) as nat,
                    |j: int| pt.spec_boardable_mission_at(stops[i as int], j as usize),
                ));
                assert(self.missions_with_new_wait@ =~= start + boardable_at_stops(*pt, stops, (i + 1) as nat));
            }
            i += 1;
        }
    }

    /// Updates the debark fronts of the stop `stop_id` with the debarks from `board_front`
    /// at `position`, as `debarks_along` says; the fronts of the other stops, the other
    /// fronts and the missions stay
    fn debark_along(&mut self, pt: &PT, position: &PT::Position, stop: &PT::Stop, stop_id: usize)
        requires
            old(self).inv(),
            old(self).sized_for(*pt),
            is_pareto(old(self).arrive_front.view(), *pt),
            stop_id < pt.spec_nb_of_stops(),
            pt.spec_stop_id(*stop) == stop_id,
        ensures
            behaves(*pt) && listed(*pt, front_views(old(self).new_debark_fronts@), old(self).stops_with_new_debark@)
                ==> listed(*pt, front_views(final(self).new_debark_fronts@), final(self).stops_with_new_debark@),
            behaves(*pt) ==> final(self).stops_with_new_debark@ == (if old(self).new_debark_fronts@[stop_id as int].view().len()
                == 0 {
                old(self).stops_with_new_debark@ + Seq::new(
                    (final(self).journeys_tree.nb_debarks() - old(self).journeys_tree.nb_debarks()) as nat,
                    |j: int| *stop,
                )
            } else {
                old(self).stops_with_new_debark@
            }),
            final(self).inv(),
            final(self).sized_for(*pt),
            is_pareto(final(self).arrive_front.view(), *pt),
            final(self).missions_with_new_wait == old(self).missions_with_new_wait,
            final(self).nb_of_rounds == old(self).nb_of_rounds,
            final(self).board_front == old(self).board_front,
            final(self).new_board_front == old(self).new_board_front,
            final(self).arrive_front == old(self).arrive_front,
            final(self).wait_fronts == old(self).wait_fronts,
            final(self).new_wait_fronts == old(self).new_wait_fronts,
            final(self).stops_with_new_wait == old(self).stops_with_new_wait,
            final(self).results == old(self).results,
            final(self).journeys_tree.nb_boards() == old(self).journeys_tree.nb_boards(),
            final(self).journeys_tree.nb_waits() == old(self).journeys_tree.nb_waits(),
            final(self).journeys_tree.nb_arrives() == old(self).journeys_tree.nb_arrives(),
            (
                final(self).debark_fronts@[stop_id as int].view(),
                final(self).new_debark_fronts@[stop_id as int].view(),
                final(self).journeys_tree.nb_debarks(),
            ) == debarks_along(
                *pt,
                *position,
                old(self).board_front.view(),
                old(self).debark_fronts@[stop_id as int].view(),
                old(self).new_debark_fronts@[stop_id as int].view(),
                old(self).journeys_tree.nb_debarks(),
            ),
            forall|t: int|
                0 <= t < old(self).debark_fronts@.len() && t != stop_id ==> #[trigger] final(self).debark_fronts@[t]
                    == old(self).debark_fronts@[t],
            forall|t: int|
                0 <= t < old(self).debark_fronts@.len() && t != stop_id ==> #[trigger] final(self).new_debark_fronts@[t]
                    == old(self).new_debark_fronts@[t],
    {
        let current_stop_has_new_debark = !self.new_debark_fronts[stop_id].is_empty();
        let mut k: usize = 0;
        while k < self.board_front.len()
            invariant
                self.inv(),
                self.sized_for(*pt),
                is_pareto(self.arrive_front.view(), *pt),
                stop_id < pt.spec_nb_of_stops(),
                self.missions_with_new_wait == old(self).missions_with_new_wait,
                self.nb_of_rounds == old(self).nb_of_rounds,
                self.board_front == old(self).board_front,
                self.new_board_front == old(self).new_board_front,
                self.arrive_front == old(self).arrive_front,
                self.wait_fronts == old(self).wait_fronts,
                self.new_wait_fronts == old(self).new_wait_fronts,
                self.stops_with_new_wait == old(self).stops_with_new_wait,
                self.results == old(self).results,
                self.journeys_tree.nb_boards() == old(self).journeys_tree.nb_boards(),
                self.journeys_tree.nb_waits() == old(self).journeys_tree.nb_waits(),
                self.journeys_tree.nb_arrives() == old(self).journeys_tree.nb_arrives(),
                k <= self.board_front.view().len(),
                pt.spec_stop_id(*stop) == stop_id,
                current_stop_has_new_debark == (old(self).new_debark_fronts@[stop_id as int].view().len() > 0),
                old(self).stops_with_new_debark@.is_prefix_of(self.stops_with_new_debark@),
                behaves(*pt) && listed(*pt, front_views(old(self).new_debark_fronts@), old(self).stops_with_new_debark@)
                    ==> listed(*pt, front_views(self.new_debark_fronts@), self.stops_with_new_debark@),
                self.journeys_tree.nb_debarks() >= old(self).journeys_tree.nb_debarks(),
                behaves(*pt) ==> self.stops_with_new_debark@ == (if current_stop_has_new_debark {
                    old(self).stops_with_new_debark@
                } else {
                    old(self).stops_with_new_debark@ + Seq::new(
                        (self.journeys_tree.nb_debarks() - old(self).journeys_tree.nb_debarks()) as nat,
                        |j: int| *stop,
                    )
                }),
                self.debark_fronts@.len() == old(self).debark_fronts@.len(),
                self.new_debark_fronts@.len() == old(self).new_debark_fronts@.len(),
                (
                    self.debark_fronts@[stop_id as int].view(),
                    self.new_debark_fronts@[stop_id as int].view(),
                    self.journeys_tree.nb_debarks(),
                ) == debarks_along(
                    *pt,
                    *position,
                    old(self).board_front.view().take(k as int),
                    old(self).debark_fronts@[stop_id as int].view(),
                    old(self).new_debark_fronts@[stop_id as int].view(),
                    old(self).journeys_tree.nb_debarks(),
                ),
                forall|t: int|
                    0 <= t < old(self).debark_fronts@.len() && t != stop_id ==> #[trigger] self.debark_fronts@[t]
                        == old(self).debark_fronts@[t],
                forall|t: int|
                    0 <= t < old(self).debark_fronts@.len() && t != stop_id ==> #[trigger] self.new_debark_fronts@[t]
                        == old(self).new_debark_fronts@[t],
            decreases self.board_front.view().len() - k,
        {
            proof {
                let boards = old(self).board_front.view();
                assert(boards.take(k + 1).drop_last() =~= boards.take(k as int));
                assert(boards.take(k + 1).last() == boards[k as int]);
            }
            let board = self.board_front.elements[k].0.0;
            let has_new_debark_criteria = pt.debark(
                &self.board_front.elements[k].0.1,
                position,
                &self.board_front.elements[k].1,
            );
            if let Some(new_debark_criteria) = has_new_debark_criteria {
                if !self.debark_fronts[stop_id].dominates(&new_debark_criteria, pt)
                    && !self.new_debark_fronts[stop_id].dominates(&new_debark_criteria, pt) {
                    let ghost old_self = *self;
                    assert(board_id::<PT::Trip>()(self.board_front.view()[k as int].0) < self.journeys_tree.nb_boards());
                    let new_debark = self.journeys_tree.debark(&board, position);
                    proof {
                        lemma_debark_at(new_debark);
                    }
                    let ghost before = self.debark_fronts@[stop_id as int].view();
                    let ghost new_before = self.new_debark_fronts@[stop_id as int].view();
                    self.debark_fronts[stop_id].remove_elements_dominated_by(
                        &new_debark_criteria,
                        pt,
                    );
                    self.new_debark_fronts[stop_id].add_and_remove_elements_dominated(
                        new_debark,
                        new_debark_criteria,
                        pt,
                    );
                    let ghost stops_before = self.stops_with_new_debark@;
                    if !current_stop_has_new_debark {
                        let pushed = stop.clone();
                        proof {
                            lemma_lists_pushed(*pt, self.stops_with_new_debark@, pushed);
                            if behaves(*pt) {
                                assert(cloned(*stop, pushed));
                            }
                        }
                        self.stops_with_new_debark.push(pushed);
                    }
                    proof {
                        let n = self.journeys_tree.nb_debarks();
                        if behaves(*pt) && !current_stop_has_new_debark {
                            let m = (old_self.journeys_tree.nb_debarks() - old(self).journeys_tree.nb_debarks()) as nat;
                            assert(self.stops_with_new_debark@ =~= old(self).stops_with_new_debark@ + Seq::new(
                                (m + 1) as nat,
                                |j: int| *stop,
                            ));
                        }
                        assert(stops_before.is_prefix_of(self.stops_with_new_debark@));
                        assert(old(self).stops_with_new_debark@.is_prefix_of(self.stops_with_new_debark@));
                        if behaves(*pt) && listed(
                            *pt,
                            front_views(old(self).new_debark_fronts@),
                            old(self).stops_with_new_debark@,
                        ) {
                            let s = stop_id as int;
                            if current_stop_has_new_debark {
                                assert(front_views(old(self).new_debark_fronts@)[s].len() > 0);
                                lemma_lists_stop_prefix(
                                    *pt,
                                    old(self).stops_with_new_debark@,
                                    self.stops_with_new_debark@,
                                    s,
                                );
                            }
                            assert forall|t: int|
                                0 <= t < front_views(old_self.new_debark_fronts@).len() && t != s implies #[trigger] front_views(
                                    self.new_debark_fronts@,
                                )[t] == front_views(old_self.new_debark_fronts@)[t] by {
                                assert(self.new_debark_fronts@[t] == old_self.new_debark_fronts@[t]);
                            }
                            lemma_listed_update(
                                *pt,
                                front_views(old_self.new_debark_fronts@),
                                stops_before,
                                front_views(self.new_debark_fronts@),
                                self.stops_with_new_debark@,
                                s,
                            );
                        }
                        let pred = not_dominated_by::<Debark, PT::Criteria, PT>(
                            new_debark_criteria,
                            *pt,
                        );
                        assert(all_below(before, debark_id(), n));
                        assert(all_below(new_before, debark_id(), n));
                        lemma_filter_below(before, pred, debark_id(), n);
                        lemma_filter_below(new_before, pred, debark_id(), n);
                        self.lemma_inv_after_debark_update(old_self, stop_id as int);
                        assert forall|t: int|
                            0 <= t < old(self).debark_fronts@.len() && t != stop_id implies #[trigger] self.debark_fronts@[t]
                                == old(self).debark_fronts@[t] by {
                            assert(self.debark_fronts@[t] == old_self.debark_fronts@[t]);
                        }
                        assert forall|t: int|
                            0 <= t < old(self).debark_fronts@.len() && t != stop_id implies #[trigger] self.new_debark_fronts@[t]
                                == old(self).new_debark_fronts@[t] by {
                            assert(self.new_debark_fronts@[t] == old_self.new_debark_fronts@[t]);
                        }
                    }
                }
            }
            k += 1;
        }
        proof {
            assert(old(self).board_front.view().take(k as int) =~= old(self).board_front.view());
        }
    }

    /// When the tree grew and only the debark fronts at `s` changed, with all their
    /// debarks stored in the tree, the invariant holds.
    proof fn lemma_inv_after_debark_update(&self, old_self: Self, s: int)
        requires
            old_self.inv(),
            self.journeys_tree.wf(),
            self.journeys_tree.nb_boards() >= old_self.journeys_tree.nb_boards(),
            self.journeys_tree.nb_debarks() >= old_self.journeys_tree.nb_debarks(),
            self.journeys_tree.nb_waits() >= old_self.journeys_tree.nb_waits(),
            self.journeys_tree.nb_arrives() >= old_self.journeys_tree.nb_arrives(),
            0 <= s < old_self.debark_fronts@.len(),
            self.wait_fronts == old_self.wait_fronts,
            self.new_wait_fronts == old_self.new_wait_fronts,
            self.board_front == old_self.board_front,
            self.new_board_front == old_self.new_board_front,
            self.arrive_front == old_self.arrive_front,
            self.debark_fronts@.len() == old_self.debark_fronts@.len(),
            self.new_debark_fronts@.len() == old_self.new_debark_fronts@.len(),
            forall|t: int|
                0 <= t < self.debark_fronts@.len() && t != s ==> #[trigger] self.debark_fronts@[t]
                    == old_self.debark_fronts@[t],
            forall|t: int|
                0 <= t < self.new_debark_fronts@.len() && t != s ==> #[trigger] self.new_debark_fronts@[t]
                    == old_self.new_debark_fronts@[t],
            all_below(self.debark_fronts@[s].view(), debark_id(), self.journeys_tree.nb_debarks()),
            all_below(self.new_debark_fronts@[s].view(), debark_id(), self.journeys_tree.nb_debarks()),
        ensures
            self.inv(),
    {
        let n = self.journeys_tree.nb_debarks();
        assert forall|t: int, k: int|
            0 <= t < self.debark_fronts@.len() && 0 <= k < self.debark_fronts@[t].view().len()
            implies debark_id()((#[trigger] self.debark_fronts@[t].view()[k]).0) < n by {
            if t != s {
                assert(self.debark_fronts@[t] == old_self.debark_fronts@[t]);
            }
        }
        assert forall|t: int, k: int|
            0 <= t < self.new_debark_fronts@.len() && 0 <= k < self.new_debark_fronts@[t].view().len()
            implies debark_id()((#[trigger] self.new_debark_fronts@[t].view()[k]).0) < n by {
            if t != s {
                assert(self.new_debark_fronts@[t] == old_self.new_debark_fronts@[t]);
            }
        }
    }

    /// Boards the best trips of `mission` at `position` from the new waits at `stop_id`,
    /// and rides the trips of `board_front` to the next position, into `new_board_front`:
    /// it is what `boards_from_waits` then `boards_ridden` give, the trips of `board_front`
    /// are moved into it and `board_front` is left empty; only the journeys tree, which
    /// gets the new boards, changes besides
    fn board_and_ride_along(
        &mut self,
        pt: &PT,
        position: &PT::Position,
        mission_idx: usize,
        stop_id: usize,
    )
        requires
            old(self).inv(),
            old(self).sized_for(*pt),
            is_pareto(old(self).arrive_front.view(), *pt),
            stop_id < pt.spec_nb_of_stops(),
            mission_idx < old(self).missions_with_new_wait@.len(),
        ensures
            final(self).inv(),
            final(self).sized_for(*pt),
            is_pareto(final(self).arrive_front.view(), *pt),
            final(self).missions_with_new_wait == old(self).missions_with_new_wait,
            final(self).nb_of_rounds == old(self).nb_of_rounds,
            final(self).stops_with_new_wait == old(self).stops_with_new_wait,
            final(self).stops_with_new_debark == old(self).stops_with_new_debark,
            final(self).wait_fronts == old(self).wait_fronts,
            final(self).new_wait_fronts == old(self).new_wait_fronts,
            final(self).debark_fronts == old(self).debark_fronts,
            final(self).new_debark_fronts == old(self).new_debark_fronts,
            final(self).arrive_front == old(self).arrive_front,
            final(self).results == old(self).results,
            final(self).journeys_tree.nb_waits() == old(self).journeys_tree.nb_waits(),
            final(self).journeys_tree.nb_debarks() == old(self).journeys_tree.nb_debarks(),
            final(self).journeys_tree.nb_arrives() == old(self).journeys_tree.nb_arrives(),
            final(self).board_front.view() == Seq::<((Board, PT::Trip), PT::Criteria)>::empty(),
            ({
                let boarded = boards_from_waits(
                    *pt,
                    *position,
                    old(self).missions_with_new_wait@[mission_idx as int].0,
                    old(self).new_wait_fronts@[stop_id as int].view(),
                    old(self).arrive_front.view(),
                    Seq::empty(),
                    old(self).journeys_tree.nb_boards(),
                );
                &&& final(self).journeys_tree.nb_boards() == boarded.1
                &&& final(self).new_board_front.view() == boards_ridden(
                    *pt,
                    *position,
                    old(self).board_front.view(),
                    old(self).arrive_front.view(),
                    boarded.0,
                )
            }),
    {
        let ghost mission = self.missions_with_new_wait@[mission_idx as int].0;
        let ghost waits = self.new_wait_fronts@[stop_id as int].view();
        let ghost arrive = self.arrive_front.view();
        let ghost nb0 = self.journeys_tree.nb_boards();
        self.new_board_front.clear();
        proof {
            assert(waits.take(0) =~= Seq::<(Wait, PT::Criteria)>::empty());
        }
        let mut k: usize = 0;
        while k < self.new_wait_fronts[stop_id].len()
            invariant
                self.inv(),
                self.sized_for(*pt),
                is_pareto(self.arrive_front.view(), *pt),
                stop_id < pt.spec_nb_of_stops(),
                self.missions_with_new_wait == old(self).missions_with_new_wait,
                self.nb_of_rounds == old(self).nb_of_rounds,
                self.new_wait_fronts == old(self).new_wait_fronts,
                mission_idx < self.missions_with_new_wait@.len(),
                self.stops_with_new_wait == old(self).stops_with_new_wait,
                self.stops_with_new_debark == old(self).stops_with_new_debark,
                self.wait_fronts == old(self).wait_fronts,
                self.debark_fronts == old(self).debark_fronts,
                self.new_debark_fronts == old(self).new_debark_fronts,
                self.board_front == old(self).board_front,
                self.arrive_front == old(self).arrive_front,
                self.results == old(self).results,
                self.journeys_tree.nb_waits() == old(self).journeys_tree.nb_waits(),
                self.journeys_tree.nb_debarks() == old(self).journeys_tree.nb_debarks(),
                self.journeys_tree.nb_arrives() == old(self).journeys_tree.nb_arrives(),
                mission == self.missions_with_new_wait@[mission_idx as int].0,
                waits == self.new_wait_fronts@[stop_id as int].view(),
                arrive == self.arrive_front.view(),
                nb0 == old(self).journeys_tree.nb_boards(),
                k <= waits.len(),
                (self.new_board_front.view(), self.journeys_tree.nb_boards()) == boards_from_waits(
                    *pt,
                    *position,
                    mission,
                    waits.take(k as int),
                    arrive,
                    Seq::empty(),
                    nb0,
                ),
            decreases self.new_wait_fronts@[stop_id as int].view().len() - k,
        {
            proof {
                assert(waits.take(k + 1).drop_last() =~= waits.take(k as int));
                assert(waits.take(k + 1).last() == waits[k as int]);
            }
            let wait = self.new_wait_fronts[stop_id].elements[k].0;
            let has_best = pt.best_trip_to_board(
                position,
                &self.missions_with_new_wait[mission_idx].0,
                &self.new_wait_fronts[stop_id].elements[k].1,
            );
            if let Some((trip, new_board_criteria)) = has_best {
                if pt.is_valid(&new_board_criteria) && !self.arrive_front.dominates(
                    &new_board_criteria,
                    pt,
                ) && !self.new_board_front.dominates(&new_board_criteria, pt) {
                    assert(wait_id()(self.new_wait_fronts@[stop_id as int].view()[k as int].0)
                        < self.journeys_tree.nb_waits());
                    let new_board = self.journeys_tree.board(&wait, &trip, position);
                    proof {
                        lemma_board_at(new_board);
                    }
                    let ghost before = self.new_board_front.view();
                    self.new_board_front.add_and_remove_elements_dominated(
                        (new_board, trip),
                        new_board_criteria,
                        pt,
                    );
                    proof {
                        lemma_filter_below(
                            before,
                            not_dominated_by::<(Board, PT::Trip), PT::Criteria, PT>(
                                new_board_criteria,
                                *pt,
                            ),
                            board_id::<PT::Trip>(),
                            self.journeys_tree.nb_boards(),
                        );
                    }
                }
            }
            k += 1;
        }
        let ghost boarded = boards_from_waits(*pt, *position, mission, waits, arrive, Seq::empty(), nb0);
        let ghost boards = self.board_front.view();
        proof {
            assert(waits.take(k as int) =~= waits);
            assert(boards.take(0) =~= Seq::<((Board, PT::Trip), PT::Criteria)>::empty());
            assert(all_below(boards, board_id::<PT::Trip>(), self.journeys_tree.nb_boards()));
        }
        let taken = self.board_front.take_elements();
        let nb_taken = taken.len();
        let mut rest = reversed(taken);
        let ghost nb1 = self.journeys_tree.nb_boards();
        let mut k: usize = 0;
        while rest.len() > 0
            invariant
                self.inv(),
                self.sized_for(*pt),
                is_pareto(self.arrive_front.view(), *pt),
                self.missions_with_new_wait == old(self).missions_with_new_wait,
                self.nb_of_rounds == old(self).nb_of_rounds,
                self.new_wait_fronts == old(self).new_wait_fronts,
                self.stops_with_new_wait == old(self).stops_with_new_wait,
                self.stops_with_new_debark == old(self).stops_with_new_debark,
                self.wait_fronts == old(self).wait_fronts,
                self.debark_fronts == old(self).debark_fronts,
                self.new_debark_fronts == old(self).new_debark_fronts,
                self.board_front.view() == Seq::<((Board, PT::Trip), PT::Criteria)>::empty(),
                self.arrive_front == old(self).arrive_front,
                self.results == old(self).results,
                self.journeys_tree.nb_waits() == old(self).journeys_tree.nb_waits(),
                self.journeys_tree.nb_debarks() == old(self).journeys_tree.nb_debarks(),
                self.journeys_tree.nb_arrives() == old(self).journeys_tree.nb_arrives(),
                self.journeys_tree.nb_boards() == boarded.1,
                nb1 == boarded.1,
                all_below(boards, board_id::<PT::Trip>(), nb1),
                arrive == self.arrive_front.view(),
                boards == old(self).board_front.view(),
                k + rest@.len() == boards.len(),
                boards.len() == nb_taken,
                forall|i: int| 0 <= i < rest@.len() ==> #[trigger] rest@[i] == boards[boards.len() - 1 - i],
                self.new_board_front.view() == boards_ridden(
                    *pt,
                    *position,
                    boards.take(k as int),
                    arrive,
                    boarded.0,
                ),
            decreases rest@.len(),
        {
            proof {
                assert(boards.take(k + 1).drop_last() =~= boards.take(k as int));
                assert(rest@[rest@.len() - 1] == boards[k as int]);
                assert(boards.take(k + 1).last() == boards[k as int]);
            }
            let ((board, trip), criteria) = rest.pop().unwrap();
            let new_criteria = pt.ride(&trip, position, &criteria);
            if pt.is_valid(&new_criteria) && !self.arrive_front.dominates(&new_criteria, pt)
                && !self.new_board_front.dominates(&new_criteria, pt) {
                assert(board_id::<PT::Trip>()(boards[k as int].0) < self.journeys_tree.nb_boards());
                let ghost before = self.new_board_front.view();
                self.new_board_front.add((board, trip), new_criteria, pt);
                proof {
                    lemma_filter_below(
                        before,
                        not_dominated_by::<(Board, PT::Trip), PT::Criteria, PT>(new_criteria, *pt),
                        board_id::<PT::Trip>(),
                        self.journeys_tree.nb_boards(),
                    );
                }
            }
            k += 1;
        }
        proof {
            assert(boards.take(k as int) =~= boards);
        }
    }

    /// The debark fronts and the new debark fronts by stop id, the numbers of debarks and of
    /// boards in the journeys tree, and the front of the boarded trips
    spec fn ride_state(&self) -> (
        Seq<Seq<(Debark, PT::Criteria)>>,
        Seq<Seq<(Debark, PT::Criteria)>>,
        nat,
        nat,
        Seq<((Board, PT::Trip), PT::Criteria)>,
    ) {
        (
            front_views(self.debark_fronts@),
            front_views(self.new_debark_fronts@),
            self.journeys_tree.nb_debarks(),
            self.journeys_tree.nb_boards(),
            self.board_front.view(),
        )
    }

    /// Rides all the missions with a new wait, in order, each from (a clone of) its
    /// position with a new wait, as `ride_missions` says: debarking the boarded trips
    /// along the way, boarding the new waits and propagating the boarded trips to the next
    /// positions. The wait fronts, the arrive front and the missions stay.
    fn ride(&mut self, pt: &PT)
        requires
            old(self).inv(),
            old(self).sized_for(*pt),
            is_pareto(old(self).arrive_front.view(), *pt),
        ensures
            final(self).inv(),
            final(self).sized_for(*pt),
            is_pareto(final(self).arrive_front.view(), *pt),
            final(self).nb_of_rounds == old(self).nb_of_rounds,
            final(self).missions_with_new_wait == old(self).missions_with_new_wait,
            final(self).stops_with_new_wait == old(self).stops_with_new_wait,
            final(self).wait_fronts == old(self).wait_fronts,
            final(self).new_wait_fronts == old(self).new_wait_fronts,
            final(self).arrive_front == old(self).arrive_front,
            final(self).results == old(self).results,
            final(self).journeys_tree.nb_waits() == old(self).journeys_tree.nb_waits(),
            final(self).journeys_tree.nb_arrives() == old(self).journeys_tree.nb_arrives(),
            behaves(*pt) && listed(*pt, front_views(old(self).new_debark_fronts@), old(self).stops_with_new_debark@)
                ==> listed(*pt, front_views(final(self).new_debark_fronts@), final(self).stops_with_new_debark@),
            exists|starts: Seq<Option<PT::Position>>|
                {
                    &&& starts.len() == old(self).missions_with_new_wait@.len()
                    &&& forall|m: int|
                        0 <= m < starts.len() ==> started_from(
                            Some(old(self).missions_with_new_wait@[m].1),
                            #[trigger] starts[m],
                        )
                    &&& ride_missions(
                        *pt,
                        pair_missions(old(self).missions_with_new_wait@),
                        starts,
                        front_views(old(self).new_wait_fronts@),
                        old(self).arrive_front.view(),
                        old(self).ride_state(),
                        starts.len(),
                    ) == final(self).ride_state()
                    &&& behaves(*pt) ==> ride_missions_stops(
                        *pt,
                        pair_missions(old(self).missions_with_new_wait@),
                        starts,
                        front_views(old(self).new_wait_fronts@),
                        old(self).arrive_front.view(),
                        old(self).ride_state(),
                        old(self).stops_with_new_debark@,
                        starts.len(),
                    ) == final(self).stops_with_new_debark@
                },
    {
        let ghost missions = pair_missions(self.missions_with_new_wait@);
        let ghost pairs = self.missions_with_new_wait@;
        let ghost new_waits = front_views(self.new_wait_fronts@);
        let ghost arrive = self.arrive_front.view();
        let ghost state0 = self.ride_state();
        let ghost mut starts: Seq<Option<PT::Position>> = Seq::empty();
        let mut m: usize = 0;
        while m < self.missions_with_new_wait.len()
            invariant
                self.inv(),
                self.sized_for(*pt),
                is_pareto(self.arrive_front.view(), *pt),
                self.nb_of_rounds == old(self).nb_of_rounds,
                self.missions_with_new_wait == old(self).missions_with_new_wait,
                self.stops_with_new_wait == old(self).stops_with_new_wait,
                self.wait_fronts == old(self).wait_fronts,
                self.new_wait_fronts == old(self).new_wait_fronts,
                self.arrive_front == old(self).arrive_front,
                self.results == old(self).results,
                self.journeys_tree.nb_waits() == old(self).journeys_tree.nb_waits(),
                self.journeys_tree.nb_arrives() == old(self).journeys_tree.nb_arrives(),
                behaves(*pt) && listed(*pt, front_views(old(self).new_debark_fronts@), old(self).stops_with_new_debark@)
                    ==> listed(*pt, front_views(self.new_debark_fronts@), self.stops_with_new_debark@),
                missions == pair_missions(self.missions_with_new_wait@),
                pairs == self.missions_with_new_wait@,
                new_waits == front_views(self.new_wait_fronts@),
                arrive == self.arrive_front.view(),
                state0 == old(self).ride_state(),
                m <= self.missions_with_new_wait@.len(),
                starts.len() == m,
                forall|j: int|
                    0 <= j < m ==> started_from(
                        Some(pairs[j].1),
                        #[trigger] starts[j],
                    ),
                ride_missions(*pt, missions, starts, new_waits, arrive, state0, m as nat) == self.ride_state(),
                behaves(*pt) ==> ride_missions_stops(
                    *pt,
                    missions,
                    starts,
                    new_waits,
                    arrive,
                    state0,
                    old(self).stops_with_new_debark@,
                    m as nat,
                ) == self.stops_with_new_debark@,
            decreases self.missions_with_new_wait@.len() - m,
        {
            let mut has_position = Some(self.missions_with_new_wait[m].1.clone());
            let ghost next_starts = starts.push(has_position);
            proof {
                lemma_ride_missions_prefix(*pt, missions, starts, next_starts, new_waits, arrive, state0, m as nat);
                lemma_ride_missions_stops_prefix(
                    *pt,
                    missions,
                    starts,
                    next_starts,
                    new_waits,
                    arrive,
                    state0,
                    old(self).stops_with_new_debark@,
                    m as nat,
                );
                assert(next_starts[m as int] == has_position);
            }
            self.board_front.clear();
            let ghost mission = self.missions_with_new_wait@[m as int].0;
            let ghost target = ride_missions(*pt, missions, next_starts, new_waits, arrive, state0, (m + 1) as nat);
            let ghost target_stops = ride_missions_stops(
                *pt,
                missions,
                next_starts,
                new_waits,
                arrive,
                state0,
                old(self).stops_with_new_debark@,
                (m + 1) as nat,
            );
            proof {
                let before = ride_missions(*pt, missions, starts, new_waits, arrive, state0, m as nat);
                assert(self.ride_state() == (before.0, before.1, before.2, before.3, Seq::<((Board, PT::Trip), PT::Criteria)>::empty()));
            }
            while has_position.is_some()
                invariant
                    self.inv(),
                    self.sized_for(*pt),
                    is_pareto(self.arrive_front.view(), *pt),
                    self.nb_of_rounds == old(self).nb_of_rounds,
                    self.missions_with_new_wait == old(self).missions_with_new_wait,
                    self.stops_with_new_wait == old(self).stops_with_new_wait,
                    self.wait_fronts == old(self).wait_fronts,
                    self.new_wait_fronts == old(self).new_wait_fronts,
                    self.arrive_front == old(self).arrive_front,
                    self.results == old(self).results,
                    self.journeys_tree.nb_waits() == old(self).journeys_tree.nb_waits(),
                    self.journeys_tree.nb_arrives() == old(self).journeys_tree.nb_arrives(),
                    behaves(*pt) && listed(*pt, front_views(old(self).new_debark_fronts@), old(self).stops_with_new_debark@)
                        ==> listed(*pt, front_views(self.new_debark_fronts@), self.stops_with_new_debark@),
                behaves(*pt) && listed(*pt, front_views(old(self).new_debark_fronts@), old(self).stops_with_new_debark@)
                    ==> listed(*pt, front_views(self.new_debark_fronts@), self.stops_with_new_debark@),
                    new_waits == front_views(self.new_wait_fronts@),
                    arrive == self.arrive_front.view(),
                    m < self.missions_with_new_wait@.len(),
                    mission == self.missions_with_new_wait@[m as int].0,
                    match has_position {
                        Some(p) => ride_from(*pt, mission, p, new_waits, arrive, self.ride_state()) == target,
                        None => self.ride_state() == target,
                    },
                    behaves(*pt) ==> match has_position {
                        Some(p) => ride_from_stops(
                            *pt,
                            mission,
                            p,
                            new_waits,
                            arrive,
                            self.ride_state(),
                            self.stops_with_new_debark@,
                        ) == target_stops,
                        None => self.stops_with_new_debark@ == target_stops,
                    },
                decreases (match has_position {
                    Some(p) => pt.spec_nb_of_positions_after(p, mission) + 1,
                    None => 0,
                }),
            {
                let position = has_position.unwrap();
                let stop = pt.stop_of(&position, &self.missions_with_new_wait[m].0);
                let stop_id = pt.stop_id(&stop);
                let ghost state = self.ride_state();
                let ghost s = stop_id as int;
                let ghost stops_state = self.stops_with_new_debark@;
                let ghost old_nd_front = self.new_debark_fronts@[stop_id as int].view();
                let ghost old_nb_debarks = self.journeys_tree.nb_debarks();

                self.debark_along(pt, &position, &stop, stop_id);
                proof {
                    let debarked = debarks_along(*pt, position, state.4, state.0[s], state.1[s], state.2);
                    assert(front_views(self.debark_fronts@) =~= state.0.update(s, debarked.0));
                    assert(front_views(self.new_debark_fronts@) =~= state.1.update(s, debarked.1));
                }
                let ghost after = self.ride_state();

                has_position = pt.next_on_mission(&position, &self.missions_with_new_wait[m].0);

                if has_position.is_some() {
                    self.board_and_ride_along(pt, &position, m, stop_id);
                    self.board_front.replace_with(&mut self.new_board_front);
                    proof {
                        let next = has_position->0;
                        let boarded = boards_from_waits(*pt, position, mission, new_waits[s], arrive, Seq::empty(), state.3);
                        assert(new_waits[s] == self.new_wait_fronts@[s].view());
                        assert(self.ride_state() == (after.0, after.1, after.2, boarded.1, boards_ridden(
                            *pt,
                            position,
                            state.4,
                            arrive,
                            boarded.0,
                        )));
                        assert(ride_from(*pt, mission, position, new_waits, arrive, state) == ride_from(
                            *pt,
                            mission,
                            next,
                            new_waits,
                            arrive,
                            self.ride_state(),
                        ));
                        if behaves(*pt) {
                            assert(state.1[s] == old_nd_front);
                            assert(ride_from_stops(*pt, mission, position, new_waits, arrive, state, stops_state)
                                == ride_from_stops(
                                *pt,
                                mission,
                                next,
                                new_waits,
                                arrive,
                                self.ride_state(),
                                self.stops_with_new_debark@,
                            ));
                        }
                    }
                } else {
                    proof {
                        assert(ride_from(*pt, mission, position, new_waits, arrive, state) == after);
                        if behaves(*pt) {
                            assert(state.1[s] == old_nd_front);
                            assert(ride_from_stops(*pt, mission, position, new_waits, arrive, state, stops_state)
                                == self.stops_with_new_debark@);
                        }
                    }
                }
            }
            proof {
                starts = next_starts;
            }
            m += 1;
        }
        proof {
            assert(starts.len() == missions.len());
        }
    }

    /// Moves the new debarks into the debark fronts: at each stop of
    /// `stops_with_new_debark`, the new debarks are appended to the debarks, and no new
    /// debark is left there; the fronts of the other stops and everything else stay.
    fn save_and_clear_new_debarks(&mut self, pt: &PT)
        requires
            old(self).inv(),
            old(self).sized_for(*pt),
            is_pareto(old(self).arrive_front.view(), *pt),
        ensures
            final(self).inv(),
            final(self).sized_for(*pt),
            is_pareto(final(self).arrive_front.view(), *pt),
            final(self).nb_of_rounds == old(self).nb_of_rounds,
            final(self).missions_with_new_wait == old(self).missions_with_new_wait,
            final(self).stops_with_new_wait == old(self).stops_with_new_wait,
            final(self).wait_fronts == old(self).wait_fronts,
            final(self).new_wait_fronts == old(self).new_wait_fronts,
            final(self).board_front == old(self).board_front,
            final(self).new_board_front == old(self).new_board_front,
            final(self).arrive_front == old(self).arrive_front,
            final(self).journeys_tree == old(self).journeys_tree,
            final(self).results == old(self).results,
            final(self).stops_with_new_debark@.len() == 0,
            forall|t: int|
                0 <= t < old(self).debark_fronts@.len() ==> moved_to(
                    lists_stop(*pt, old(self).stops_with_new_debark@, t),
                    old(self).debark_fronts@[t].view(),
                    old(self).new_debark_fronts@[t].view(),
                    (#[trigger] final(self).debark_fronts@[t]).view(),
                    final(self).new_debark_fronts@[t].view(),
                ),
    {
        let ghost stops = self.stops_with_new_debark@;
        let mut i: usize = 0;
        while i < self.stops_with_new_debark.len()
            invariant
                self.inv(),
                self.sized_for(*pt),
                is_pareto(self.arrive_front.view(), *pt),
                self.nb_of_rounds == old(self).nb_of_rounds,
                self.missions_with_new_wait == old(self).missions_with_new_wait,
                self.stops_with_new_wait == old(self).stops_with_new_wait,
                self.wait_fronts == old(self).wait_fronts,
                self.new_wait_fronts == old(self).new_wait_fronts,
                self.board_front == old(self).board_front,
                self.new_board_front == old(self).new_board_front,
                self.arrive_front == old(self).arrive_front,
                self.journeys_tree == old(self).journeys_tree,
                self.results == old(self).results,
                self.stops_with_new_debark == old(self).stops_with_new_debark,
                stops == old(self).stops_with_new_debark@,
                self.debark_fronts@.len() == old(self).debark_fronts@.len(),
                i <= self.stops_with_new_debark@.len(),
                forall|t: int|
                    0 <= t < old(self).debark_fronts@.len() ==> moved_to(
                        lists_stop(*pt, stops.take(i as int), t),
                        old(self).debark_fronts@[t].view(),
                        old(self).new_debark_fronts@[t].view(),
                        (#[trigger] self.debark_fronts@[t]).view(),
                        self.new_debark_fronts@[t].view(),
                    ),
            decreases self.stops_with_new_debark@.len() - i,
        {
            let stop_id = pt.stop_id(&self.stops_with_new_debark[i]);
            let ghost new_debark_fronts_before = self.new_debark_fronts;
            let ghost debark_fronts_before = self.debark_fronts;
            let ghost d0 = self.debark_fronts@[stop_id as int].view();
            let ghost n0 = self.new_debark_fronts@[stop_id as int].view();
            let mut k: usize = 0;
            while k < self.new_debark_fronts[stop_id].len()
                invariant
                    self.inv(),
                    self.sized_for(*pt),
                    is_pareto(self.arrive_front.view(), *pt),
                    self.nb_of_rounds == old(self).nb_of_rounds,
                    self.missions_with_new_wait == old(self).missions_with_new_wait,
                    self.stops_with_new_wait == old(self).stops_with_new_wait,
                    self.wait_fronts == old(self).wait_fronts,
                    self.new_wait_fronts == old(self).new_wait_fronts,
                    self.board_front == old(self).board_front,
                    self.new_board_front == old(self).new_board_front,
                    self.arrive_front == old(self).arrive_front,
                    self.journeys_tree == old(self).journeys_tree,
                    self.results == old(self).results,
                    i < self.stops_with_new_debark@.len(),
                    stop_id < pt.spec_nb_of_stops(),
                    self.stops_with_new_debark == old(self).stops_with_new_debark,
                    self.new_debark_fronts == new_debark_fronts_before,
                    n0 == self.new_debark_fronts@[stop_id as int].view(),
                    k <= n0.len(),
                    self.debark_fronts@.len() == debark_fronts_before@.len(),
                    appended_clones(d0, n0.take(k as int), self.debark_fronts@[stop_id as int].view()),
                    forall|t: int|
                        0 <= t < self.debark_fronts@.len() && t != stop_id ==> #[trigger] self.debark_fronts@[t]
                            == debark_fronts_before@[t],
                decreases self.new_debark_fronts@[stop_id as int].view().len() - k,
            {
                let debark = self.new_debark_fronts[stop_id].elements[k].0;
                let criteria = self.new_debark_fronts[stop_id].elements[k].1.clone();
                let ghost old_self = *self;
                assert(k < self.new_debark_fronts@[stop_id as int].view().len());
                assert(debark_id()(self.new_debark_fronts@[stop_id as int].view()[k as int].0)
                    < self.journeys_tree.nb_debarks());
                self.debark_fronts[stop_id].add_unchecked(debark, criteria);
                proof {
                    self.lemma_inv_after_debark_update(old_self, stop_id as int);
                    let after = self.debark_fronts@[stop_id as int].view();
                    assert forall|j: int| 0 <= j < n0.take(k + 1).len() implies (#[trigger] after[d0.len() + j]).0
                        == n0.take(k + 1)[j].0 && cloned(n0.take(k + 1)[j].1, after[d0.len() + j].1) by {
                        if j < k {
                            assert(n0.take(k + 1)[j] == n0.take(k as int)[j]);
                        }
                    }
                }
                k += 1;
            }
            let ghost old_self = *self;
            self.new_debark_fronts[stop_id].clear();
            proof {
                self.lemma_inv_after_debark_update(old_self, stop_id as int);
                assert(n0.take(k as int) =~= n0);
                lemma_lists_stop_take(*pt, stops, i as int);
                assert forall|t: int|
                    0 <= t < old(self).debark_fronts@.len() implies moved_to(
                        lists_stop(*pt, stops.take(i + 1), t),
                        old(self).debark_fronts@[t].view(),
                        old(self).new_debark_fronts@[t].view(),
                        (#[trigger] self.debark_fronts@[t]).view(),
                        self.new_debark_fronts@[t].view(),
                    ) by {
                    if t != stop_id {
                        assert(self.debark_fronts@[t] == debark_fronts_before@[t]);
                        assert(self.new_debark_fronts@[t] == new_debark_fronts_before@[t]);
                        assert(moved_to(
                            lists_stop(*pt, stops.take(i as int), t),
                            old(self).debark_fronts@[t].view(),
                            old(self).new_debark_fronts@[t].view(),
                            debark_fronts_before@[t].view(),
                            new_debark_fronts_before@[t].view(),
                        ));
                    } else {
                        assert(moved_to(
                            lists_stop(*pt, stops.take(i as int), t),
                            old(self).debark_fronts@[t].view(),
                            old(self).new_debark_fronts@[t].view(),
                            d0,
                            n0,
                        ));
                        let after = self.debark_fronts@[t].view();
                        if lists_stop(*pt, stops.take(i as int), t) {
                            assert(n0.len() == 0);
                            assert(after =~= d0);
                        }
                    }
                }
            }
            i += 1;
        }
        proof {
            assert(stops.take(i as int) =~= stops);
        }
        self.stops_with_new_debark.clear();
    }

    /// The parts of the engine that the arrivals and the transfers leave as they are
    spec fn kept_by_transfers(&self, other: Self) -> bool {
        &&& self.nb_of_rounds == other.nb_of_rounds
        &&& self.missions_with_new_wait == other.missions_with_new_wait
        &&& self.debark_fronts == other.debark_fronts
        &&& self.new_debark_fronts == other.new_debark_fronts
        &&& self.stops_with_new_debark == other.stops_with_new_debark
        &&& self.board_front == other.board_front
        &&& self.new_board_front == other.new_board_front
        &&& self.results == other.results
        &&& self.journeys_tree.nb_boards() == other.journeys_tree.nb_boards()
        &&& self.journeys_tree.nb_debarks() == other.journeys_tree.nb_debarks()
        &&& other.stops_with_new_wait@.is_prefix_of(self.stops_with_new_wait@)
    }

    /// Performs the arrivals and the transfers from the new debarks. First, each new debark
    /// at the stop of an arrival, arrival after arrival, gets an arrive in the journeys
    /// tree, which joins the arrive front unless the front dominates its criteria. Then each
    /// transfer from a new debark, stop of `stops_with_new_debark` after stop, whose
    /// criteria are valid and dominated neither by the arrive front nor by the wait fronts
    /// of the stop it reaches, gets a new wait in the new wait front of that stop. The
    /// debark fronts, the board fronts and the missions stay.
    fn perform_transfers_and_arrivals(&mut self, pt: &PT)
        requires
            old(self).inv(),
            old(self).sized_for(*pt),
            is_pareto(old(self).arrive_front.view(), *pt),
            behaves(*pt) ==> listed(*pt, front_views(old(self).new_wait_fronts@), old(self).stops_with_new_wait@),
        ensures
            behaves(*pt) ==> listed(*pt, front_views(final(self).new_wait_fronts@), final(self).stops_with_new_wait@),
            behaves(*pt) ==> final(self).stops_with_new_wait@ == waits_added_stops(
                *pt,
                final(self).arrive_front.view(),
                front_views(old(self).wait_fronts@),
                front_views(old(self).new_wait_fronts@),
                old(self).journeys_tree.nb_waits(),
                transfers_from_stops(
                    *pt,
                    old(self).stops_with_new_debark@,
                    front_views(old(self).new_debark_fronts@),
                    old(self).stops_with_new_debark@.len(),
                ),
                old(self).stops_with_new_wait@,
            ),
            final(self).inv(),
            final(self).journeys_tree.nb_waits() >= old(self).journeys_tree.nb_waits(),
            final(self).sized_for(*pt),
            is_pareto(final(self).arrive_front.view(), *pt),
            final(self).nb_of_rounds == old(self).nb_of_rounds,
            final(self).missions_with_new_wait == old(self).missions_with_new_wait,
            final(self).debark_fronts == old(self).debark_fronts,
            final(self).new_debark_fronts == old(self).new_debark_fronts,
            final(self).stops_with_new_debark == old(self).stops_with_new_debark,
            final(self).board_front == old(self).board_front,
            final(self).new_board_front == old(self).new_board_front,
            final(self).results == old(self).results,
            final(self).journeys_tree.nb_boards() == old(self).journeys_tree.nb_boards(),
            final(self).journeys_tree.nb_debarks() == old(self).journeys_tree.nb_debarks(),
            old(self).stops_with_new_wait@.is_prefix_of(final(self).stops_with_new_wait@),
            arrives_added(
                *pt,
                old(self).arrive_front.view(),
                old(self).journeys_tree.nb_arrives(),
                arrivals_of(*pt, front_views(old(self).new_debark_fronts@), pt.spec_nb_of_arrivals() as nat),
            ) == (final(self).arrive_front.view(), final(self).journeys_tree.nb_arrives()),
            waits_added(
                *pt,
                final(self).arrive_front.view(),
                front_views(old(self).wait_fronts@),
                front_views(old(self).new_wait_fronts@),
                old(self).journeys_tree.nb_waits(),
                transfers_from_stops(
                    *pt,
                    old(self).stops_with_new_debark@,
                    front_views(old(self).new_debark_fronts@),
                    old(self).stops_with_new_debark@.len(),
                ),
            ) == (
                front_views(final(self).wait_fronts@),
                front_views(final(self).new_wait_fronts@),
                final(self).journeys_tree.nb_waits(),
            ),
    {
        let ghost nd = front_views(self.new_debark_fronts@);
        let ghost a0 = self.arrive_front.view();
        let ghost n0 = self.journeys_tree.nb_arrives();
        let ghost w0 = front_views(self.wait_fronts@);
        let ghost nw0 = front_views(self.new_wait_fronts@);
        let ghost m0 = self.journeys_tree.nb_waits();
        let ghost snw0 = self.stops_with_new_wait@;
        let arrivals = pt.arrivals();
        let mut i: usize = 0;
        while i < arrivals.len()
            invariant
                self.inv(),
                self.sized_for(*pt),
                is_pareto(self.arrive_front.view(), *pt),
                self.kept_by_transfers(*old(self)),
                self.stops_with_new_wait == old(self).stops_with_new_wait,
                self.wait_fronts == old(self).wait_fronts,
                self.new_wait_fronts == old(self).new_wait_fronts,
                self.journeys_tree.nb_waits() == m0,
                nd == front_views(self.new_debark_fronts@),
                arrivals@.len() == pt.spec_nb_of_arrivals(),
                forall|j: int| 0 <= j < arrivals@.len() ==> #[trigger] arrivals@[j] == pt.spec_arrival(j as usize),
                i <= arrivals@.len(),
                arrives_added(*pt, a0, n0, arrivals_of(*pt, nd, i as nat)) == (
                    self.arrive_front.view(),
                    self.journeys_tree.nb_arrives(),
                ),
            decreases arrivals@.len() - i,
        {
            let arrival = &arrivals[i];
            let stop = pt.arrival_stop(arrival);
            let stop_id = pt.stop_id(&stop);
            let ghost before_i = arrivals_of(*pt, nd, i as nat);
            let ghost mapped = nd[stop_id as int].map_values(
                |e: (Debark, PT::Criteria)| pt.spec_arrive(*arrival, e.1),
            );
            proof {
                assert(*arrival == pt.spec_arrival(i));
                assert(before_i + mapped.take(0) =~= before_i);
            }
            let mut k: usize = 0;
            while k < self.new_debark_fronts[stop_id].len()
                invariant
                    self.inv(),
                    self.sized_for(*pt),
                    is_pareto(self.arrive_front.view(), *pt),
                    self.kept_by_transfers(*old(self)),
                    self.stops_with_new_wait == old(self).stops_with_new_wait,
                    self.wait_fronts == old(self).wait_fronts,
                    self.new_wait_fronts == old(self).new_wait_fronts,
                    self.journeys_tree.nb_waits() == m0,
                    nd == front_views(self.new_debark_fronts@),
                    stop_id < pt.spec_nb_of_stops(),
                    mapped.len() == self.new_debark_fronts@[stop_id as int].view().len(),
                    forall|j: int|
                        0 <= j < mapped.len() ==> #[trigger] mapped[j] == pt.spec_arrive(
                            *arrival,
                            self.new_debark_fronts@[stop_id as int].view()[j].1,
                        ),
                    k <= mapped.len(),
                    arrives_added(*pt, a0, n0, before_i + mapped.take(k as int)) == (
                        self.arrive_front.view(),
                        self.journeys_tree.nb_arrives(),
                    ),
                decreases self.new_debark_fronts@[stop_id as int].view().len() - k,
            {
                let debark = self.new_debark_fronts[stop_id].elements[k].0;
                assert(debark_id()(self.new_debark_fronts@[stop_id as int].view()[k as int].0)
                    < self.journeys_tree.nb_debarks());
                let arrive = self.journeys_tree.arrive(&debark, arrival);
                let arrive_criteria = pt.arrive(arrival, &self.new_debark_fronts[stop_id].elements[k].1);
                let ghost before = self.arrive_front.view();
                self.arrive_front.add(arrive, arrive_criteria, pt);
                proof {
                    lemma_arrive_at(arrive);
                    lemma_filter_push_increasing(
                        before,
                        not_dominated_by::<Arrive, PT::Criteria, PT>(arrive_criteria, *pt),
                        arrive_id(),
                        (self.journeys_tree.nb_arrives() - 1) as nat,
                        (arrive, arrive_criteria),
                    );
                    lemma_add_keeps_pareto(before, arrive, arrive_criteria, *pt);
                    lemma_filter_below(
                        before,
                        not_dominated_by::<Arrive, PT::Criteria, PT>(arrive_criteria, *pt),
                        arrive_id(),
                        self.journeys_tree.nb_arrives(),
                    );
                    lemma_arrive_at(arrive);
                    let prefix = before_i + mapped.take(k as int);
                    assert(mapped[k as int] == arrive_criteria);
                    assert((before_i + mapped.take(k + 1)).drop_last() =~= prefix);
                    assert((before_i + mapped.take(k + 1)).last() == arrive_criteria);
                }
                k += 1;
            }
            proof {
                assert(mapped.take(k as int) =~= mapped);
                assert(arrivals_of(*pt, nd, (i + 1) as nat) == before_i + mapped);
            }
            i += 1;
        }

        let ghost a1 = self.arrive_front.view();
        let ghost n1 = self.journeys_tree.nb_arrives();
        let ghost stops = self.stops_with_new_debark@;
        let mut i: usize = 0;
        while i < self.stops_with_new_debark.len()
            invariant
                self.inv(),
                self.sized_for(*pt),
                is_pareto(self.arrive_front.view(), *pt),
                self.kept_by_transfers(*old(self)),
                self.arrive_front.view() == a1,
                behaves(*pt) ==> listed(*pt, front_views(self.new_wait_fronts@), self.stops_with_new_wait@),
                self.journeys_tree.nb_arrives() == n1,
                nd == front_views(self.new_debark_fronts@),
                stops == self.stops_with_new_debark@,
                i <= self.stops_with_new_debark@.len(),
                waits_added(*pt, a1, w0, nw0, m0, transfers_from_stops(*pt, stops, nd, i as nat)) == (
                    front_views(self.wait_fronts@),
                    front_views(self.new_wait_fronts@),
                    self.journeys_tree.nb_waits(),
                ),
                behaves(*pt) ==> waits_added_stops(*pt, a1, w0, nw0, m0, transfers_from_stops(*pt, stops, nd, i as nat), snw0)
                    == self.stops_with_new_wait@,
            decreases self.stops_with_new_debark@.len() - i,
        {
            let stop_id = pt.stop_id(&self.stops_with_new_debark[i]);
            let ghost stop = stops[i as int];
            let ghost front = nd[stop_id as int];
            let ghost before_i = transfers_from_stops(*pt, stops, nd, i as nat);
            proof {
                assert(before_i + transfers_from_debarks(*pt, stop, front, 0) =~= before_i);
            }
            let mut k: usize = 0;
            while k < self.new_debark_fronts[stop_id].len()
                invariant
                    self.inv(),
                    self.sized_for(*pt),
                    is_pareto(self.arrive_front.view(), *pt),
                    self.kept_by_transfers(*old(self)),
                    self.arrive_front.view() == a1,
                behaves(*pt) ==> listed(*pt, front_views(self.new_wait_fronts@), self.stops_with_new_wait@),
                    self.journeys_tree.nb_arrives() == n1,
                    nd == front_views(self.new_debark_fronts@),
                    stops == self.stops_with_new_debark@,
                    i < self.stops_with_new_debark@.len(),
                    stop == stops[i as int],
                    stop_id == pt.spec_stop_id(stop),
                    stop_id < pt.spec_nb_of_stops(),
                    front == self.new_debark_fronts@[stop_id as int].view(),
                    k <= front.len(),
                    waits_added(
                        *pt,
                        a1,
                        w0,
                        nw0,
                        m0,
                        before_i + transfers_from_debarks(*pt, stop, front, k as nat),
                    ) == (
                        front_views(self.wait_fronts@),
                        front_views(self.new_wait_fronts@),
                        self.journeys_tree.nb_waits(),
                    ),
                    behaves(*pt) ==> waits_added_stops(
                        *pt,
                        a1,
                        w0,
                        nw0,
                        m0,
                        before_i + transfers_from_debarks(*pt, stop, front, k as nat),
                        snw0,
                    ) == self.stops_with_new_wait@,
                decreases self.new_debark_fronts@[stop_id as int].view().len() - k,
            {
                let transfers = pt.transfers_at(&self.stops_with_new_debark[i]);
                let ghost before_k = before_i + transfers_from_debarks(*pt, stop, front, k as nat);
                let ghost reached = transfers_from_debark(*pt, stop, front[k as int].1);
                proof {
                    assert(before_k + reached.take(0) =~= before_k);
                }
                let mut t: usize = 0;
                while t < transfers.len()
                    invariant
                        self.inv(),
                        self.sized_for(*pt),
                        is_pareto(self.arrive_front.view(), *pt),
                        self.kept_by_transfers(*old(self)),
                        self.arrive_front.view() == a1,
                behaves(*pt) ==> listed(*pt, front_views(self.new_wait_fronts@), self.stops_with_new_wait@),
                        self.journeys_tree.nb_arrives() == n1,
                        nd == front_views(self.new_debark_fronts@),
                        stops == self.stops_with_new_debark@,
                        i < self.stops_with_new_debark@.len(),
                        stop == stops[i as int],
                        stop_id == pt.spec_stop_id(stop),
                        stop_id < pt.spec_nb_of_stops(),
                        front == self.new_debark_fronts@[stop_id as int].view(),
                        k < front.len(),
                        reached == transfers_from_debark(*pt, stop, front[k as int].1),
                        transfers@.len() == pt.spec_nb_of_transfers_at(stop),
                        forall|j: int|
                            0 <= j < transfers@.len() ==> #[trigger] transfers@[j] == pt.spec_transfer_at(
                                stop,
                                j as usize,
                            ),
                        t <= transfers@.len(),
                        waits_added(*pt, a1, w0, nw0, m0, before_k + reached.take(t as int)) == (
                            front_views(self.wait_fronts@),
                            front_views(self.new_wait_fronts@),
                            self.journeys_tree.nb_waits(),
                        ),
                        behaves(*pt) ==> waits_added_stops(*pt, a1, w0, nw0, m0, before_k + reached.take(t as int), snw0)
                            == self.stops_with_new_wait@,
                    decreases transfers@.len() - t,
                {
                    let transfer = &transfers[t];
                    let (arrival_stop, arrival_criteria) = pt.transfer(
                        &self.stops_with_new_debark[i],
                        transfer,
                        &self.new_debark_fronts[stop_id].elements[k].1,
                    );
                    let arrival_id = pt.stop_id(&arrival_stop);
                    let ghost old_self = *self;
                    let ghost w = front_views(self.wait_fronts@);
                    let ghost nw = front_views(self.new_wait_fronts@);
                    proof {
                        assert(reached[t as int] == (arrival_stop, arrival_criteria));
                        assert((before_k + reached.take(t + 1)).drop_last() =~= before_k + reached.take(t as int));
                        assert((before_k + reached.take(t + 1)).last() == (arrival_stop, arrival_criteria));
                        assert(w[arrival_id as int] == self.wait_fronts@[arrival_id as int].view());
                        assert(nw[arrival_id as int] == self.new_wait_fronts@[arrival_id as int].view());
                    }
                    if pt.is_valid(&arrival_criteria) && !self.arrive_front.dominates(
                        &arrival_criteria,
                        pt,
                    ) && !self.wait_fronts[arrival_id].dominates(&arrival_criteria, pt)
                        && !self.new_wait_fronts[arrival_id].dominates(&arrival_criteria, pt) {
                        if self.new_wait_fronts[arrival_id].is_empty() {
                            let pushed = arrival_stop.clone();
                            proof {
                                lemma_lists_pushed(*pt, self.stops_with_new_wait@, pushed);
                                if behaves(*pt) {
                                    assert(cloned(arrival_stop, pushed));
                                }
                            }
                            self.stops_with_new_wait.push(pushed);
                        }
                        let debark = self.new_debark_fronts[stop_id].elements[k].0;
                        assert(debark_id()(self.new_debark_fronts@[stop_id as int].view()[k as int].0)
                            < self.journeys_tree.nb_debarks());
                        let ghost mid_self = *self;
                        let waiting = self.journeys_tree.transfer(&debark, transfer);
                        let ghost before = self.wait_fronts@[arrival_id as int].view();
                        let ghost new_before = self.new_wait_fronts@[arrival_id as int].view();
                        self.wait_fronts[arrival_id].remove_elements_dominated_by(
                            &arrival_criteria,
                            pt,
                        );
                        self.new_wait_fronts[arrival_id].add_and_remove_elements_dominated(
                            waiting,
                            arrival_criteria,
                            pt,
                        );
                        proof {
                            let n = self.journeys_tree.nb_waits();
                            let pred = not_dominated_by::<Wait, PT::Criteria, PT>(
                                arrival_criteria,
                                *pt,
                            );
                            assert(all_below(before, wait_id(), n));
                            assert(all_below(new_before, wait_id(), n));
                            lemma_filter_below(before, pred, wait_id(), n);
                            lemma_filter_below(new_before, pred, wait_id(), n);
                            self.lemma_inv_after_waits_update(mid_self, arrival_id as int);
                            lemma_wait_at(waiting);
                            assert(front_views(self.wait_fronts@) =~= w.update(
                                arrival_id as int,
                                w[arrival_id as int].filter(pred),
                            ));
                            assert(front_views(self.new_wait_fronts@) =~= nw.update(
                                arrival_id as int,
                                nw[arrival_id as int].filter(pred).push((wait_at(old_self.journeys_tree.nb_waits()), arrival_criteria)),
                            ));
                            assert(old(self).stops_with_new_wait@.is_prefix_of(self.stops_with_new_wait@));
                            assert(old_self.stops_with_new_wait@.is_prefix_of(self.stops_with_new_wait@));
                            if behaves(*pt) {
                                lemma_listed_update(
                                    *pt,
                                    nw,
                                    old_self.stops_with_new_wait@,
                                    front_views(self.new_wait_fronts@),
                                    self.stops_with_new_wait@,
                                    arrival_id as int,
                                );
                                assert(self.stops_with_new_wait@ == (if nw[arrival_id as int].len() == 0 {
                                    old_self.stops_with_new_wait@.push(arrival_stop)
                                } else {
                                    old_self.stops_with_new_wait@
                                }));
                                assert(waits_added_stops(*pt, a1, w0, nw0, m0, before_k + reached.take(t + 1), snw0)
                                    == self.stops_with_new_wait@);
                            }
                        }
                    } else {
                        proof {
                            if behaves(*pt) {
                                assert(waits_added_stops(*pt, a1, w0, nw0, m0, before_k + reached.take(t + 1), snw0)
                                    == self.stops_with_new_wait@);
                            }
                        }
                    }
                    t += 1;
                }
                proof {
                    assert(reached.take(t as int) =~= reached);
                    assert(transfers_from_debarks(*pt, stop, front, (k + 1) as nat)
                        == transfers_from_debarks(*pt, stop, front, k as nat) + reached);
                    assert(before_k + reached =~= before_i + transfers_from_debarks(*pt, stop, front, (k + 1) as nat));
                }
                k += 1;
            }
            proof {
                assert(transfers_from_stops(*pt, stops, nd, (i + 1) as nat) == before_i
                    + transfers_from_debarks(*pt, stop, front, front.len()));
            }
            i += 1;
        }
        proof {
            lemma_waits_added_grows(
                *pt,
                self.arrive_front.view(),
                front_views(old(self).wait_fronts@),
                front_views(old(self).new_wait_fronts@),
                old(self).journeys_tree.nb_waits(),
                transfers_from_stops(
                    *pt,
                    old(self).stops_with_new_debark@,
                    front_views(old(self).new_debark_fronts@),
                    old(self).stops_with_new_debark@.len(),
                ),
            );
        }
    }

    /// When the tree grew and only the wait fronts at `s` changed, with all their
    /// waits stored in the tree, the invariant holds.
    proof fn lemma_inv_after_waits_update(&self, old_self: Self, s: int)
        requires
            old_self.inv(),
            self.journeys_tree.wf(),
            self.journeys_tree.nb_boards() >= old_self.journeys_tree.nb_boards(),
            self.journeys_tree.nb_debarks() >= old_self.journeys_tree.nb_debarks(),
            self.journeys_tree.nb_waits() >= old_self.journeys_tree.nb_waits(),
            self.journeys_tree.nb_arrives() >= old_self.journeys_tree.nb_arrives(),
            0 <= s < old_self.wait_fronts@.len(),
            self.debark_fronts == old_self.debark_fronts,
            self.new_debark_fronts == old_self.new_debark_fronts,
            self.board_front == old_self.board_front,
            self.new_board_front == old_self.new_board_front,
            self.arrive_front == old_self.arrive_front,
            self.wait_fronts@.len() == old_self.wait_fronts@.len(),
            self.new_wait_fronts@.len() == old_self.new_wait_fronts@.len(),
            forall|t: int|
                0 <= t < self.wait_fronts@.len() && t != s ==> #[trigger] self.wait_fronts@[t]
                    == old_self.wait_fronts@[t],
            forall|t: int|
                0 <= t < self.new_wait_fronts@.len() && t != s ==> #[trigger] self.new_wait_fronts@[t]
                    == old_self.new_wait_fronts@[t],
            all_below(self.wait_fronts@[s].view(), wait_id(), self.journeys_tree.nb_waits()),
            all_below(self.new_wait_fronts@[s].view(), wait_id(), self.journeys_tree.nb_waits()),
        ensures
            self.inv(),
    {
        let n = self.journeys_tree.nb_waits();
        assert forall|t: int, k: int|
            0 <= t < self.wait_fronts@.len() && 0 <= k < self.wait_fronts@[t].view().len()
            implies wait_id()((#[trigger] self.wait_fronts@[t].view()[k]).0) < n by {
            if t != s {
                assert(self.wait_fronts@[t] == old_self.wait_fronts@[t]);
            }
        }
        assert forall|t: int, k: int|
            0 <= t < self.new_wait_fronts@.len() && 0 <= k < self.new_wait_fronts@[t].view().len()
            implies wait_id()((#[trigger] self.new_wait_fronts@[t].view()[k]).0) < n by {
            if t != s {
                assert(self.new_wait_fronts@[t] == old_self.new_wait_fronts@[t]);
            }
        }
    }

    /// Moves the new waits into the wait fronts, and forgets the missions with a new wait:
    /// at each stop of `stops_with_new_wait`, the new waits are appended to the waits, and
    /// no new wait is left there; the fronts of the other stops and the rest stay.
    fn save_and_clear_new_waits(&mut self, pt: &PT)
        requires
            old(self).inv(),
            old(self).sized_for(*pt),
            is_pareto(old(self).arrive_front.view(), *pt),
        ensures
            final(self).inv(),
            final(self).sized_for(*pt),
            is_pareto(final(self).arrive_front.view(), *pt),
            final(self).nb_of_rounds == old(self).nb_of_rounds,
            final(self).stops_with_new_debark == old(self).stops_with_new_debark,
            final(self).debark_fronts == old(self).debark_fronts,
            final(self).new_debark_fronts == old(self).new_debark_fronts,
            final(self).board_front == old(self).board_front,
            final(self).new_board_front == old(self).new_board_front,
            final(self).arrive_front == old(self).arrive_front,
            final(self).journeys_tree == old(self).journeys_tree,
            final(self).results == old(self).results,
            final(self).stops_with_new_wait@.len() == 0,
            final(self).missions_with_new_wait@.len() == 0,
            forall|t: int|
                0 <= t < old(self).wait_fronts@.len() ==> moved_to(
                    lists_stop(*pt, old(self).stops_with_new_wait@, t),
                    old(self).wait_fronts@[t].view(),
                    old(self).new_wait_fronts@[t].view(),
                    (#[trigger] final(self).wait_fronts@[t]).view(),
                    final(self).new_wait_fronts@[t].view(),
                ),
    {
        let ghost stops = self.stops_with_new_wait@;
        let mut i: usize = 0;
        while i < self.stops_with_new_wait.len()
            invariant
                self.inv(),
                self.sized_for(*pt),
                is_pareto(self.arrive_front.view(), *pt),
                self.nb_of_rounds == old(self).nb_of_rounds,
                self.missions_with_new_wait == old(self).missions_with_new_wait,
                self.stops_with_new_debark == old(self).stops_with_new_debark,
                self.debark_fronts == old(self).debark_fronts,
                self.new_debark_fronts == old(self).new_debark_fronts,
                self.board_front == old(self).board_front,
                self.new_board_front == old(self).new_board_front,
                self.arrive_front == old(self).arrive_front,
                self.journeys_tree == old(self).journeys_tree,
                self.results == old(self).results,
                self.stops_with_new_wait == old(self).stops_with_new_wait,
                stops == old(self).stops_with_new_wait@,
                self.wait_fronts@.len() == old(self).wait_fronts@.len(),
                i <= self.stops_with_new_wait@.len(),
                forall|t: int|
                    0 <= t < old(self).wait_fronts@.len() ==> moved_to(
                        lists_stop(*pt, stops.take(i as int), t),
                        old(self).wait_fronts@[t].view(),
                        old(self).new_wait_fronts@[t].view(),
                        (#[trigger] self.wait_fronts@[t]).view(),
                        self.new_wait_fronts@[t].view(),
                    ),
            decreases self.stops_with_new_wait@.len() - i,
        {
            let stop_id = pt.stop_id(&self.stops_with_new_wait[i]);
            let ghost new_wait_fronts_before = self.new_wait_fronts;
            let ghost wait_fronts_before = self.wait_fronts;
            let ghost d0 = self.wait_fronts@[stop_id as int].view();
            let ghost n0 = self.new_wait_fronts@[stop_id as int].view();
            let mut k: usize = 0;
            while k < self.new_wait_fronts[stop_id].len()
                invariant
                    self.inv(),
                    self.sized_for(*pt),
                    is_pareto(self.arrive_front.view(), *pt),
                    self.nb_of_rounds == old(self).nb_of_rounds,
                    self.missions_with_new_wait == old(self).missions_with_new_wait,
                    self.stops_with_new_debark == old(self).stops_with_new_debark,
                    self.debark_fronts == old(self).debark_fronts,
                    self.new_debark_fronts == old(self).new_debark_fronts,
                    self.board_front == old(self).board_front,
                    self.new_board_front == old(self).new_board_front,
                    self.arrive_front == old(self).arrive_front,
                    self.journeys_tree == old(self).journeys_tree,
                    self.results == old(self).results,
                    i < self.stops_with_new_wait@.len(),
                    stop_id < pt.spec_nb_of_stops(),
                    self.stops_with_new_wait == old(self).stops_with_new_wait,
                    self.new_wait_fronts == new_wait_fronts_before,
                    n0 == self.new_wait_fronts@[stop_id as int].view(),
                    k <= n0.len(),
                    self.wait_fronts@.len() == wait_fronts_before@.len(),
                    appended_clones(d0, n0.take(k as int), self.wait_fronts@[stop_id as int].view()),
                    forall|t: int|
                        0 <= t < self.wait_fronts@.len() && t != stop_id ==> #[trigger] self.wait_fronts@[t]
                            == wait_fronts_before@[t],
                decreases self.new_wait_fronts@[stop_id as int].view().len() - k,
            {
                let wait = self.new_wait_fronts[stop_id].elements[k].0;
                let criteria = self.new_wait_fronts[stop_id].elements[k].1.clone();
                let ghost old_self = *self;
                assert(wait_id()(self.new_wait_fronts@[stop_id as int].view()[k as int].0)
                    < self.journeys_tree.nb_waits());
                self.wait_fronts[stop_id].add_unchecked(wait, criteria);
                proof {
                    self.lemma_inv_after_waits_update(old_self, stop_id as int);
                    let after = self.wait_fronts@[stop_id as int].view();
                    assert forall|j: int| 0 <= j < n0.take(k + 1).len() implies (#[trigger] after[d0.len() + j]).0
                        == n0.take(k + 1)[j].0 && cloned(n0.take(k + 1)[j].1, after[d0.len() + j].1) by {
                        if j < k {
                            assert(n0.take(k + 1)[j] == n0.take(k as int)[j]);
                        }
                    }
                }
                k += 1;
            }
            let ghost old_self = *self;
            self.new_wait_fronts[stop_id].clear();
            proof {
                self.lemma_inv_after_waits_update(old_self, stop_id as int);
                assert(n0.take(k as int) =~= n0);
                lemma_lists_stop_take(*pt, stops, i as int);
                assert forall|t: int|
                    0 <= t < old(self).wait_fronts@.len() implies moved_to(
                        lists_stop(*pt, stops.take(i + 1), t),
                        old(self).wait_fronts@[t].view(),
                        old(self).new_wait_fronts@[t].view(),
                        (#[trigger] self.wait_fronts@[t]).view(),
                        self.new_wait_fronts@[t].view(),
                    ) by {
                    if t != stop_id {
                        assert(self.wait_fronts@[t] == wait_fronts_before@[t]);
                        assert(self.new_wait_fronts@[t] == new_wait_fronts_before@[t]);
                        assert(moved_to(
                            lists_stop(*pt, stops.take(i as int), t),
                            old(self).wait_fronts@[t].view(),
                            old(self).new_wait_fronts@[t].view(),
                            wait_fronts_before@[t].view(),
                            new_wait_fronts_before@[t].view(),
                        ));
                    } else {
                        assert(moved_to(
                            lists_stop(*pt, stops.take(i as int), t),
                            old(self).wait_fronts@[t].view(),
                            old(self).new_wait_fronts@[t].view(),
                            d0,
                            n0,
                        ));
                        let after = self.wait_fronts@[t].view();
                        if lists_stop(*pt, stops.take(i as int), t) {
                            assert(n0.len() == 0);
                            assert(after =~= d0);
                        }
                    }
                }
            }
            i += 1;
        }
        proof {
            assert(stops.take(i as int) =~= stops);
        }
        self.stops_with_new_wait.clear();
        self.missions_with_new_wait.clear();
    }

    /// Fills `results` with the journeys of `arrive_front`
    fn fill_results(&mut self)
        requires
            old(self).inv(),
        ensures
            final(self).inv(),
            final(self).arrive_front == old(self).arrive_front,
            final(self).journeys_tree == old(self).journeys_tree,
            final(self).wait_fronts == old(self).wait_fronts,
            final(self).nb_of_rounds == old(self).nb_of_rounds,
            final(self).arrive_front.view().len() <= final(self).results@.len(),
            forall|i: int|
                0 <= i < final(self).arrive_front.view().len() ==> final(self).journeys_tree.journey_matches(
                    (#[trigger] final(self).arrive_front.view()[i]).0.idx() as int,
                    final(self).arrive_front.view()[i].1,
                    final(self).results@[i],
                ),
    {
        let mut idx: usize = 0;
        while idx < self.arrive_front.len()
            invariant
                self.inv(),
                self.arrive_front == old(self).arrive_front,
                self.journeys_tree == old(self).journeys_tree,
                self.wait_fronts == old(self).wait_fronts,
                self.nb_of_rounds == old(self).nb_of_rounds,
                idx <= self.arrive_front.view().len(),
                idx <= self.results@.len(),
                forall|i: int|
                    0 <= i < idx ==> self.journeys_tree.journey_matches(
                        (#[trigger] self.arrive_front.view()[i]).0.idx() as int,
                        self.arrive_front.view()[i].1,
                        self.results@[i],
                    ),
            decreases self.arrive_front.view().len() - idx,
        {
            let arrived = self.arrive_front.elements[idx].0;
            assert(arrive_id()(self.arrive_front.view()[idx as int].0) < self.journeys_tree.nb_arrives());
            if idx < self.results.len() {
                self.journeys_tree.fill_journey(
                    &arrived,
                    &self.arrive_front.elements[idx].1,
                    &mut self.results[idx],
                );
            } else {
                let new_journey = self.journeys_tree.create_journey(
                    &arrived,
                    &self.arrive_front.elements[idx].1,
                );
                self.results.push(new_journey);
            }
            idx += 1;
        }
    }

    /// The journeys found by the last computation
    pub fn responses(&self) -> (r: &[Journey<PT>])
        requires
            self.wf(),
        ensures
            r@ == self.results_view().take(self.arrive_front_view().len() as int),
            r@.len() == self.arrive_front_view().len(),
            forall|i: int| 0 <= i < r@.len() ==> #[trigger] r@[i] == self.results_view()[i],
    {
        let nb_of_journeys = self.nb_of_journeys();
        self.results.as_slice().split_at(nb_of_journeys).0
    }

    /// Total number of moments stored in the journeys tree
    pub fn tree_size(&self) -> (r: usize)
        requires
            self.tree().nb_waits() + self.tree().nb_debarks() + self.tree().nb_boards()
                + self.tree().nb_arrives() <= usize::MAX,
        ensures
            r == self.tree().nb_waits() + self.tree().nb_debarks() + self.tree().nb_boards()
                + self.tree().nb_arrives(),
    {
        self.journeys_tree.size()
    }

    /// Number of rounds made by the last computation
    pub fn nb_of_rounds(&self) -> (r: usize)
        ensures
            r == self.rounds(),
    {
        self.nb_of_rounds
    }
}

} // verus!
