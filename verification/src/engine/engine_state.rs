use vstd::prelude::*;

use crate::engine::completeness::RideState;
use crate::engine::journeys_tree::{wait_at, Arrive, Debark, Wait};
use crate::engine::multicriteria_raptor::{
    arrivals_of, arrives_added, boardable_at_stops, boards_from_waits, boards_ridden, debarks_along, lists_stop,
    appended_clones, moved_to, pair_missions, ride_from, ride_missions, transfers_from_stops, waits_added,
};
use crate::engine::pareto_front::{added, spec_dominates};
use crate::engine::completeness::stop_ids_in_range;
use crate::engine::rounds::{
    behaves, clones_equal, lemma_boardable_at_stops_holds, lemma_listed_update, lemma_lists_pushed, listed,
};
use crate::traits::{Request, RequestTypes, RequestWithIters};

verus! {

/// What the rounds of the engine work on: the wait fronts, the new wait fronts, the debark
/// fronts and the new debark fronts by stop id, the arrive front, the stops with a new wait
/// and with a new debark, and the numbers of waits, boards, debarks and arrives in the
/// journeys tree
pub type EngineState<PT> = (
    Seq<Seq<(Wait, <PT as RequestTypes>::Criteria)>>,
    Seq<Seq<(Wait, <PT as RequestTypes>::Criteria)>>,
    Seq<Seq<(Debark, <PT as RequestTypes>::Criteria)>>,
    Seq<Seq<(Debark, <PT as RequestTypes>::Criteria)>>,
    Seq<(Arrive, <PT as RequestTypes>::Criteria)>,
    Seq<<PT as RequestTypes>::Stop>,
    Seq<<PT as RequestTypes>::Stop>,
    (nat, nat, nat, nat),
);

/// The new wait fronts by stop id and the stops with a new wait once the first `i`
/// departures of `pt` are added, in their order, from `new_waits`, `stops` and `next` waits:
/// each gets a new wait, added to the new wait front of its stop, and its stop is listed when
/// that front was empty
pub(crate) open spec fn departures_added<PT: RequestWithIters>(
    pt: PT,
    new_waits: Seq<Seq<(Wait, PT::Criteria)>>,
    stops: Seq<PT::Stop>,
    next: nat,
    i: nat,
) -> (Seq<Seq<(Wait, PT::Criteria)>>, Seq<PT::Stop>)
    decreases i,
{
    if i == 0 {
        (new_waits, stops)
    } else {
        let (nw, listed) = departures_added(pt, new_waits, stops, next, (i - 1) as nat);
        let departed = pt.spec_depart(pt.spec_departure((i - 1) as usize));
        let s = pt.spec_stop_id(departed.0) as int;
        (
            nw.update(s, added(nw[s], wait_at((next + i - 1) as nat), departed.1, pt)),
            if nw[s].len() == 0 {
                listed.push(departed.0)
            } else {
                listed
            },
        )
    }
}

/// The fronts and the new fronts by stop id once the new elements of the stops listed in
/// `stops` are appended to their fronts
pub(crate) open spec fn saved_fronts<D, PT: Request>(
    pt: PT,
    stops: Seq<PT::Stop>,
    fronts: Seq<Seq<(D, PT::Criteria)>>,
    new_fronts: Seq<Seq<(D, PT::Criteria)>>,
) -> (Seq<Seq<(D, PT::Criteria)>>, Seq<Seq<(D, PT::Criteria)>>) {
    (
        Seq::new(
            fronts.len(),
            |t: int|
                if lists_stop(pt, stops, t) {
                    fronts[t] + new_fronts[t]
                } else {
                    fronts[t]
                },
        ),
        Seq::new(
            fronts.len(),
            |t: int|
                if lists_stop(pt, stops, t) {
                    Seq::empty()
                } else {
                    new_fronts[t]
                },
        ),
    )
}

/// The stops with a new debark once riding along `mission` from `position` on, from
/// `state`, as `ride_from` says, starting from `stops`: at each position, when the new debark
/// front of its stop is empty, the stop is listed once per debark added there
pub(crate) open spec fn ride_from_stops<PT: Request>(
    pt: PT,
    mission: PT::Mission,
    position: PT::Position,
    new_waits: Seq<Seq<(Wait, PT::Criteria)>>,
    arrive: Seq<(Arrive, PT::Criteria)>,
    state: RideState<PT>,
    stops: Seq<PT::Stop>,
) -> Seq<PT::Stop>
    decreases pt.spec_nb_of_positions_after(position, mission),
{
    let stop = pt.spec_stop_of(position, mission);
    let s = pt.spec_stop_id(stop) as int;
    let debarked = debarks_along(pt, position, state.4, state.0[s], state.1[s], state.2);
    let listed = if state.1[s].len() == 0 {
        stops + Seq::new((debarked.2 - state.2) as nat, |j: int| stop)
    } else {
        stops
    };
    let after = (state.0.update(s, debarked.0), state.1.update(s, debarked.1), debarked.2, state.3, state.4);
    match pt.spec_next_on_mission(position, mission) {
        Some(next) => if pt.spec_nb_of_positions_after(next, mission) < pt.spec_nb_of_positions_after(
            position,
            mission,
        ) {
            let boarded = boards_from_waits(pt, position, mission, new_waits[s], arrive, Seq::empty(), state.3);
            ride_from_stops(
                pt,
                mission,
                next,
                new_waits,
                arrive,
                (after.0, after.1, after.2, boarded.1, boards_ridden(pt, position, state.4, arrive, boarded.0)),
                listed,
            )
        } else {
            listed
        },
        None => listed,
    }
}

/// The stops with a new debark once riding, from `state`, along the first `k` missions of
/// `missions`, as `ride_missions` says, starting from `stops`
pub(crate) open spec fn ride_missions_stops<PT: Request>(
    pt: PT,
    missions: Seq<PT::Mission>,
    starts: Seq<Option<PT::Position>>,
    new_waits: Seq<Seq<(Wait, PT::Criteria)>>,
    arrive: Seq<(Arrive, PT::Criteria)>,
    state: RideState<PT>,
    stops: Seq<PT::Stop>,
    k: nat,
) -> Seq<PT::Stop>
    decreases k,
{
    if k == 0 {
        stops
    } else {
        let before = ride_missions(pt, missions, starts, new_waits, arrive, state, (k - 1) as nat);
        let listed = ride_missions_stops(pt, missions, starts, new_waits, arrive, state, stops, (k - 1) as nat);
        let cleared = (before.0, before.1, before.2, before.3, Seq::empty());
        match starts[k - 1] {
            Some(p) => ride_from_stops(pt, missions[k - 1], p, new_waits, arrive, cleared, listed),
            None => listed,
        }
    }
}

/// The stops with a new wait once the stops and criteria `reached` are looked at, as
/// `waits_added` says, starting from `stops`: a stop is listed when it gets a new wait while
/// its new wait front is empty
pub(crate) open spec fn waits_added_stops<PT: Request>(
    pt: PT,
    arrive: Seq<(Arrive, PT::Criteria)>,
    waits: Seq<Seq<(Wait, PT::Criteria)>>,
    new_waits: Seq<Seq<(Wait, PT::Criteria)>>,
    next: nat,
    reached: Seq<(PT::Stop, PT::Criteria)>,
    stops: Seq<PT::Stop>,
) -> Seq<PT::Stop>
    decreases reached.len(),
{
    if reached.len() == 0 {
        stops
    } else {
        let (w, nw, n) = waits_added(pt, arrive, waits, new_waits, next, reached.drop_last());
        let listed = waits_added_stops(pt, arrive, waits, new_waits, next, reached.drop_last(), stops);
        let c = reached.last().1;
        let s = pt.spec_stop_id(reached.last().0) as int;
        if pt.spec_is_valid(c) && !spec_dominates(arrive, c, pt) && !spec_dominates(w[s], c, pt)
            && !spec_dominates(nw[s], c, pt) && nw[s].len() == 0 {
            listed.push(reached.last().0)
        } else {
            listed
        }
    }
}

/// The missions with a new wait of a state, each with its position, and the start of each
/// of them
pub(crate) open spec fn missions_of<PT: RequestWithIters>(pt: PT, state: EngineState<PT>) -> Seq<(PT::Mission, PT::Position)> {
    boardable_at_stops(pt, state.5, state.5.len())
}

/// The starts of the rides of a state: the position of each mission with a new wait
pub(crate) open spec fn starts_of<PT: RequestWithIters>(pt: PT, state: EngineState<PT>) -> Seq<Option<PT::Position>> {
    missions_of(pt, state).map_values(|pair: (PT::Mission, PT::Position)| Some(pair.1))
}

/// One round of the engine from `state`: the new debarks are saved, the missions with a new
/// wait are ridden, the new waits are saved, then the arrivals and the transfers from the
/// new debarks are made
pub(crate) open spec fn round_of<PT: RequestWithIters>(pt: PT, state: EngineState<PT>) -> EngineState<PT> {
    let debarks_saved = saved_fronts(pt, state.6, state.2, state.3);
    let ride_start: RideState<PT> = (debarks_saved.0, debarks_saved.1, state.7.2, state.7.1, Seq::empty());
    let missions = pair_missions(missions_of(pt, state));
    let starts = starts_of(pt, state);
    let ridden = ride_missions(pt, missions, starts, state.1, state.4, ride_start, starts.len());
    let debark_stops = ride_missions_stops(
        pt,
        missions,
        starts,
        state.1,
        state.4,
        ride_start,
        Seq::empty(),
        starts.len(),
    );
    let waits_saved = saved_fronts(pt, state.5, state.0, state.1);
    let arrived = arrives_added(pt, state.4, state.7.3, arrivals_of(pt, ridden.1, pt.spec_nb_of_arrivals() as nat));
    let reached = transfers_from_stops(pt, debark_stops, ridden.1, debark_stops.len());
    let waited = waits_added(pt, arrived.0, waits_saved.0, waits_saved.1, state.7.0, reached);
    (
        waited.0,
        waited.1,
        ridden.0,
        ridden.1,
        arrived.0,
        waits_added_stops(pt, arrived.0, waits_saved.0, waits_saved.1, state.7.0, reached, Seq::empty()),
        debark_stops,
        (waited.2, ridden.3, ridden.2, arrived.1),
    )
}

/// The state and the number of rounds once rounds are made from `state`, `rounds` rounds
/// being made already, until no mission has a new wait or the number of rounds reaches the
/// largest `usize`
pub(crate) open spec fn rounds_from<PT: RequestWithIters>(pt: PT, state: EngineState<PT>, rounds: nat) -> (
    EngineState<PT>,
    nat,
)
    decreases usize::MAX - rounds,
{
    if missions_of(pt, state).len() == 0 || rounds >= usize::MAX {
        (state, rounds)
    } else {
        rounds_from(pt, round_of(pt, state), rounds + 1)
    }
}

/// The state of the engine once the departures of `pt` are recorded, before the first round
pub(crate) open spec fn first_state<PT: RequestWithIters>(pt: PT) -> EngineState<PT> {
    let n = pt.spec_nb_of_stops() as nat;
    let no_waits = Seq::new(n, |s: int| Seq::<(Wait, PT::Criteria)>::empty());
    let no_debarks = Seq::new(n, |s: int| Seq::<(Debark, PT::Criteria)>::empty());
    let departed = departures_added(pt, no_waits, Seq::empty(), 0, pt.spec_nb_of_departures() as nat);
    (
        no_waits,
        departed.0,
        no_debarks,
        no_debarks,
        Seq::empty(),
        departed.1,
        Seq::empty(),
        (pt.spec_nb_of_departures() as nat, 0, 0, 0),
    )
}

/// The state and the number of rounds the engine ends with on `pt`: the state once the
/// departures are recorded, then rounds made until no mission has a new wait or the number
/// of rounds reaches the largest `usize`
pub closed spec fn computed<PT: RequestWithIters>(pt: PT) -> (EngineState<PT>, nat) {
    rounds_from(pt, first_state(pt), 0)
}

/// What the engine ends with on `pt` is what the rounds from its first state end with.
pub(crate) proof fn lemma_computed<PT: RequestWithIters>(pt: PT)
    ensures
        computed(pt) == rounds_from(pt, first_state(pt), 0),
{
}

/// When clones of criteria are equal to them, moving the new elements of the listed stops
/// into their fronts gives the fronts `saved_fronts` says.
pub(crate) proof fn lemma_saved_fronts<D, PT: Request>(
    pt: PT,
    stops: Seq<PT::Stop>,
    fronts: Seq<Seq<(D, PT::Criteria)>>,
    new_fronts: Seq<Seq<(D, PT::Criteria)>>,
    after: Seq<Seq<(D, PT::Criteria)>>,
    new_after: Seq<Seq<(D, PT::Criteria)>>,
)
    requires
        clones_equal::<PT::Criteria>(),
        new_fronts.len() == fronts.len(),
        after.len() == fronts.len(),
        new_after.len() == fronts.len(),
        forall|t: int|
            0 <= t < fronts.len() ==> moved_to(
                lists_stop(pt, stops, t),
                fronts[t],
                new_fronts[t],
                #[trigger] after[t],
                new_after[t],
            ),
    ensures
        (after, new_after) == saved_fronts(pt, stops, fronts, new_fronts),
{
    let saved = saved_fronts(pt, stops, fronts, new_fronts);
    assert forall|t: int| 0 <= t < fronts.len() implies #[trigger] after[t] == saved.0[t] && new_after[t]
        == saved.1[t] by {
        let b = fronts[t];
        let nb = new_fronts[t];
        let a = after[t];
        assert(moved_to(lists_stop(pt, stops, t), b, nb, a, new_after[t]));
        if lists_stop(pt, stops, t) {
            assert(appended_clones(b, nb, a));
            assert forall|j: int| 0 <= j < a.len() implies a[j] == (b + nb)[j] by {
                if j >= b.len() {
                    let i = j - b.len();
                    assert(a[b.len() + i].0 == nb[i].0);
                    assert(cloned(nb[i].1, a[b.len() + i].1));
                    assert(a[b.len() + i].1 == nb[i].1);
                } else {
                    assert(a[j] == b[j]);
                }
            }
            assert(a =~= b + nb);
            assert(new_after[t] =~= Seq::<(D, PT::Criteria)>::empty());
        }
    }
    assert forall|t: int| 0 <= t < fronts.len() implies #[trigger] new_after[t] == saved.1[t] by {
        assert(after[t] == saved.0[t]);
    }
    assert(after =~= saved.0);
    assert(new_after =~= saved.1);
}

/// Riding along missions only depends on the front of the boarded trips it starts with
/// through nothing: two states that differ only there give the same fronts, numbers and
/// listed stops.
pub(crate) proof fn lemma_ride_missions_board_front<PT: Request>(
    pt: PT,
    missions: Seq<PT::Mission>,
    starts: Seq<Option<PT::Position>>,
    new_waits: Seq<Seq<(Wait, PT::Criteria)>>,
    arrive: Seq<(Arrive, PT::Criteria)>,
    state: RideState<PT>,
    other: RideState<PT>,
    stops: Seq<PT::Stop>,
    k: nat,
)
    requires
        state.0 == other.0,
        state.1 == other.1,
        state.2 == other.2,
        state.3 == other.3,
    ensures
        ({
            let a = ride_missions(pt, missions, starts, new_waits, arrive, state, k);
            let b = ride_missions(pt, missions, starts, new_waits, arrive, other, k);
            a.0 == b.0 && a.1 == b.1 && a.2 == b.2 && a.3 == b.3
        }),
        ride_missions_stops(pt, missions, starts, new_waits, arrive, state, stops, k) == ride_missions_stops(
            pt,
            missions,
            starts,
            new_waits,
            arrive,
            other,
            stops,
            k,
        ),
    decreases k,
{
    if k > 0 {
        lemma_ride_missions_board_front(pt, missions, starts, new_waits, arrive, state, other, stops, (k - 1) as nat);
    }
}


/// The stops listed by riding along the first `k` missions only depend on their first `k`
/// starts.
pub(crate) proof fn lemma_ride_missions_stops_prefix<PT: Request>(
    pt: PT,
    missions: Seq<PT::Mission>,
    starts: Seq<Option<PT::Position>>,
    other: Seq<Option<PT::Position>>,
    new_waits: Seq<Seq<(Wait, PT::Criteria)>>,
    arrive: Seq<(Arrive, PT::Criteria)>,
    state: RideState<PT>,
    stops: Seq<PT::Stop>,
    k: nat,
)
    requires
        k <= starts.len(),
        k <= other.len(),
        forall|j: int| 0 <= j < k ==> starts[j] == other[j],
    ensures
        ride_missions_stops(pt, missions, starts, new_waits, arrive, state, stops, k) == ride_missions_stops(
            pt,
            missions,
            other,
            new_waits,
            arrive,
            state,
            stops,
            k,
        ),
        ride_missions(pt, missions, starts, new_waits, arrive, state, k) == ride_missions(
            pt,
            missions,
            other,
            new_waits,
            arrive,
            state,
            k,
        ),
    decreases k,
{
    if k > 0 {
        lemma_ride_missions_stops_prefix(pt, missions, starts, other, new_waits, arrive, state, stops, (k - 1) as nat);
        assert(starts[k - 1] == other[k - 1]);
    }
}


/// Rounds made from a state only add to the rounds already made.
pub(crate) proof fn lemma_rounds_from_grows<PT: RequestWithIters>(pt: PT, state: EngineState<PT>, rounds: nat)
    ensures
        rounds_from(pt, state, rounds).1 >= rounds,
    decreases usize::MAX - rounds,
{
    if !(missions_of(pt, state).len() == 0 || rounds >= usize::MAX) {
        lemma_rounds_from_grows(pt, round_of(pt, state), rounds + 1);
    }
}

/// Adding the first `i` departures keeps the new wait fronts listed by the stops, and leaves
/// the new wait front of the stop of each of them not empty.
pub(crate) proof fn lemma_departures_listed<PT: RequestWithIters>(
    pt: PT,
    new_waits: Seq<Seq<(Wait, PT::Criteria)>>,
    stops: Seq<PT::Stop>,
    next: nat,
    i: nat,
)
    requires
        stop_ids_in_range(pt),
        new_waits.len() == pt.spec_nb_of_stops(),
        listed(pt, new_waits, stops),
    ensures
        departures_added(pt, new_waits, stops, next, i).0.len() == new_waits.len(),
        listed(pt, departures_added(pt, new_waits, stops, next, i).0, departures_added(pt, new_waits, stops, next, i).1),
        forall|j: nat|
            j < i ==> departures_added(pt, new_waits, stops, next, i).0[pt.spec_stop_id(
                pt.spec_depart(#[trigger] pt.spec_departure(j as usize)).0,
            ) as int].len() > 0,
    decreases i,
{
    if i > 0 {
        lemma_departures_listed(pt, new_waits, stops, next, (i - 1) as nat);
        let (nw, listed_stops) = departures_added(pt, new_waits, stops, next, (i - 1) as nat);
        let departed = pt.spec_depart(pt.spec_departure((i - 1) as usize));
        let s = pt.spec_stop_id(departed.0) as int;
        let front = added(nw[s], wait_at((next + i - 1) as nat), departed.1, pt);
        let (after, after_stops) = departures_added(pt, new_waits, stops, next, i);
        assert(front.len() > 0) by {
            if spec_dominates(nw[s], departed.1, pt) {
                let k = choose|k: int| 0 <= k < nw[s].len() && pt.spec_is_lower(#[trigger] nw[s][k].1, departed.1);
            }
        }
        if nw[s].len() == 0 {
            lemma_lists_pushed(pt, listed_stops, departed.0);
        } else {
            assert(listed_stops.is_prefix_of(after_stops));
        }
        lemma_listed_update(pt, nw, listed_stops, after, after_stops, s);
        assert forall|j: nat| j < i implies after[pt.spec_stop_id(
            pt.spec_depart(#[trigger] pt.spec_departure(j as usize)).0,
        ) as int].len() > 0 by {
            let sj = pt.spec_stop_id(pt.spec_depart(pt.spec_departure(j as usize)).0) as int;
            if sj != s {
                assert(nw[sj].len() > 0);
            }
        }
    }
}

/// A request with a departure at a stop where a mission can be boarded makes at least one
/// round: the number of rounds the engine ends with on it is at least one.
pub proof fn lemma_rounds_made<PT: RequestWithIters>(pt: PT, j: nat)
    requires
        behaves(pt),
        j < pt.spec_nb_of_departures(),
        pt.spec_nb_of_boardable_missions_at(pt.spec_depart(pt.spec_departure(j as usize)).0) > 0,
    ensures
        computed(pt).1 >= 1,
{
    let first = first_state(pt);
    let n = pt.spec_nb_of_stops() as nat;
    let no_waits = Seq::new(n, |s: int| Seq::<(Wait, PT::Criteria)>::empty());
    assert(listed(pt, no_waits, Seq::empty()));
    lemma_departures_listed(pt, no_waits, Seq::empty(), 0, pt.spec_nb_of_departures() as nat);
    let stop = pt.spec_depart(pt.spec_departure(j as usize)).0;
    let s = pt.spec_stop_id(stop) as int;
    assert(first.1[s].len() > 0);
    assert(lists_stop(pt, first.5, s));
    let k = choose|k: int| 0 <= k < first.5.len() && pt.spec_stop_id(#[trigger] first.5[k]) == s;
    assert(pt.spec_nb_of_boardable_missions_at(first.5[k]) == pt.spec_nb_of_boardable_missions_at(stop));
    lemma_boardable_at_stops_holds(pt, first.5, first.5.len(), k, 0);
    assert(missions_of(pt, first).len() > 0);
    lemma_rounds_from_grows(pt, round_of(pt, first), 1);
}

} // verus!
