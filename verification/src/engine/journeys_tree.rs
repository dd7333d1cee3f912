use vstd::prelude::*;

use crate::traits::{ConnectionLeg, DepartureLeg, Journey, RequestTypes};

verus! {

/// Handle on a boarding moment stored in a `JourneysTree`
#[derive(Clone, Copy, Debug)]
pub struct Board {
    pub(crate) id: usize,
}

impl Board {
    /// The index of this moment in its `JourneysTree`
    pub closed spec fn idx(self) -> nat {
        self.id as nat
    }
}

/// Handle on a debarking moment stored in a `JourneysTree`
#[derive(Clone, Copy, Debug)]
pub struct Debark {
    pub(crate) id: usize,
}

impl Debark {
    /// The index of this moment in its `JourneysTree`
    pub closed spec fn idx(self) -> nat {
        self.id as nat
    }
}

/// Handle on a waiting moment stored in a `JourneysTree`
#[derive(Clone, Copy, Debug)]
pub struct Wait {
    pub(crate) id: usize,
}

impl Wait {
    /// The index of this moment in its `JourneysTree`
    pub closed spec fn idx(self) -> nat {
        self.id as nat
    }
}

/// Handle on an arrival moment stored in a `JourneysTree`
#[derive(Clone, Copy, Debug)]
pub struct Arrive {
    pub(crate) id: usize,
}

impl Arrive {
    /// The index of this moment in its `JourneysTree`
    pub closed spec fn idx(self) -> nat {
        self.id as nat
    }
}

/// The debark moment of index `n`
pub(crate) open spec fn debark_at(n: nat) -> Debark {
    Debark { id: n as usize }
}

/// A debark moment is the one of its index.
pub(crate) proof fn lemma_debark_at(d: Debark)
    ensures
        debark_at(d.idx()) == d,
{
}

/// The wait moment of index `n`
pub(crate) open spec fn wait_at(n: nat) -> Wait {
    Wait { id: n as usize }
}

/// A wait moment is the one of its index.
pub(crate) proof fn lemma_wait_at(w: Wait)
    ensures
        wait_at(w.idx()) == w,
{
}

/// The board moment of index `n`
pub(crate) open spec fn board_at(n: nat) -> Board {
    Board { id: n as usize }
}

/// A board moment is the one of its index.
pub(crate) proof fn lemma_board_at(b: Board)
    ensures
        board_at(b.idx()) == b,
{
}

/// The arrive moment of index `n`
pub(crate) open spec fn arrive_at(n: nat) -> Arrive {
    Arrive { id: n as usize }
}

/// An arrive moment is the one of its index.
pub(crate) proof fn lemma_arrive_at(a: Arrive)
    ensures
        arrive_at(a.idx()) == a,
{
}

/// What a wait comes from: a transfer after a debark, or the departure of the journey.
pub(crate) enum WaitData<PT: RequestTypes> {
    Transfer(PT::Transfer, Debark),
    Departure(PT::Departure),
}

/// A complete journey is a sequence of moments the form
///  Wait, Board, Debark, (Wait, Board, Debark)*, Arrive
///
/// We associate the minimum amount of data to each moment so as to be able to reconstruct
/// the whole journey :
///  - Board     -> a (Trip, Position) and the Wait before it
///  - Debark    -> a Position and the Board before it
///  - Wait      -> either a Transfer (with the Debark before it) or a Departure
///  - Arrive    -> an Arrival and the Debark before it
pub struct JourneysTree<PT: RequestTypes> {
    pub(crate) boards: Vec<(PT::Trip, PT::Position, Wait)>,
    pub(crate) debarks: Vec<(PT::Position, Board)>,
    pub(crate) waits: Vec<WaitData<PT>>,
    pub(crate) arrives: Vec<(PT::Arrival, Debark)>,
}

impl<PT: RequestTypes> JourneysTree<PT> {
    /// Number of boards stored
    pub closed spec fn nb_boards(&self) -> nat {
        self.boards@.len()
    }

    /// Number of debarks stored
    pub closed spec fn nb_debarks(&self) -> nat {
        self.debarks@.len()
    }

    /// Number of waits stored
    pub closed spec fn nb_waits(&self) -> nat {
        self.waits@.len()
    }

    /// Number of arrivals stored
    pub closed spec fn nb_arrives(&self) -> nat {
        self.arrives@.len()
    }

    /// The wait that precedes the board `b`
    pub closed spec fn wait_of_board(&self, b: int) -> int {
        self.boards@[b].2.id as int
    }

    /// The board that precedes the debark `d`
    pub closed spec fn board_of_debark(&self, d: int) -> int {
        self.debarks@[d].1.id as int
    }

    /// The debark that precedes the arrival `a`
    pub closed spec fn debark_of_arrive(&self, a: int) -> int {
        self.arrives@[a].1.id as int
    }

    /// `Some(d)` when the wait `w` is a transfer made after the debark `d`,
    /// `None` when `w` is the departure of a journey
    pub closed spec fn debark_before_wait(&self, w: int) -> Option<int> {
        match self.waits@[w] {
            WaitData::Transfer(_, d) => Some(d.id as int),
            WaitData::Departure(_) => None,
        }
    }

    /// The debark that comes before the debark `d` in its journey, if any
    pub open spec fn previous_debark(&self, d: int) -> Option<int> {
        self.debark_before_wait(self.wait_of_board(self.board_of_debark(d)))
    }

    /// Every stored moment refers to moments that exist, and following the moments
    /// backward from a debark always reaches a strictly earlier debark.
    pub closed spec fn wf(&self) -> bool {
        &&& forall|b: int|
            0 <= b < self.boards@.len() ==> (#[trigger] self.boards@[b]).2.id < self.waits@.len()
        &&& forall|d: int|
            0 <= d < self.debarks@.len() ==> (#[trigger] self.debarks@[d]).1.id
                < self.boards@.len()
        &&& forall|w: int|
            0 <= w < self.waits@.len() ==> match #[trigger] self.waits@[w] {
                WaitData::Transfer(_, d) => d.id < self.debarks@.len(),
                WaitData::Departure(_) => true,
            }
        &&& forall|a: int|
            0 <= a < self.arrives@.len() ==> (#[trigger] self.arrives@[a]).1.id
                < self.debarks@.len()
        &&& forall|d: int|
            0 <= d < self.debarks@.len() ==> match #[trigger] self.previous_debark(d) {
                Some(pd) => pd < d,
                None => true,
            }
    }

    /// The debarks of the journey that ends with the debark `d`, in travel order.
    pub open spec fn debark_chain(&self, d: int) -> Seq<int>
        decreases d,
    {
        if 0 <= d < self.nb_debarks() {
            match self.previous_debark(d) {
                Some(pd) => if 0 <= pd < d {
                    self.debark_chain(pd).push(d)
                } else {
                    seq![d]
                },
                None => seq![d],
            }
        } else {
            Seq::empty()
        }
    }

    /// The stored data of the debark `d`
    pub closed spec fn debark_position(&self, d: int) -> PT::Position {
        self.debarks@[d].0
    }

    /// The trip boarded at the board `b`
    pub closed spec fn board_trip(&self, b: int) -> PT::Trip {
        self.boards@[b].0
    }

    /// The position where the board `b` occurs
    pub closed spec fn board_position(&self, b: int) -> PT::Position {
        self.boards@[b].1
    }

    /// The transfer taken for the wait `w`, when it is a transfer
    pub closed spec fn wait_transfer(&self, w: int) -> PT::Transfer
        recommends
            self.debark_before_wait(w) is Some,
    {
        match self.waits@[w] {
            WaitData::Transfer(t, _) => t,
            WaitData::Departure(_) => arbitrary(),
        }
    }

    /// The departure of the wait `w`, when it is a departure
    pub closed spec fn wait_departure(&self, w: int) -> PT::Departure
        recommends
            self.debark_before_wait(w) is None,
    {
        match self.waits@[w] {
            WaitData::Departure(dep) => dep,
            WaitData::Transfer(_, _) => arbitrary(),
        }
    }

    /// The arrival stored for the arrive `a`
    pub closed spec fn arrive_arrival(&self, a: int) -> PT::Arrival {
        self.arrives@[a].0
    }

    /// `leg` is made of clones of the data stored along the debark `d`,
    /// which starts its journey.
    pub open spec fn departure_leg_matches(&self, d: int, leg: DepartureLeg<PT>) -> bool {
        let b = self.board_of_debark(d);
        let w = self.wait_of_board(b);
        &&& cloned(self.wait_departure(w), leg.departure)
        &&& cloned(self.board_trip(b), leg.trip)
        &&& cloned(self.board_position(b), leg.board_position)
        &&& cloned(self.debark_position(d), leg.debark_position)
    }

    /// `leg` is made of clones of the data stored along the debark `d`,
    /// which comes after a transfer.
    pub open spec fn connection_leg_matches(&self, d: int, leg: ConnectionLeg<PT>) -> bool {
        let b = self.board_of_debark(d);
        let w = self.wait_of_board(b);
        &&& cloned(self.wait_transfer(w), leg.transfer)
        &&& cloned(self.board_trip(b), leg.trip)
        &&& cloned(self.board_position(b), leg.board_position)
        &&& cloned(self.debark_position(d), leg.debark_position)
    }

    /// `journey` is the journey that ends with the arrive `a`, with `criteria` at arrival.
    pub open spec fn journey_matches(
        &self,
        a: int,
        criteria: PT::Criteria,
        journey: Journey<PT>,
    ) -> bool {
        let chain = self.debark_chain(self.debark_of_arrive(a));
        &&& chain.len() >= 1
        &&& cloned(self.arrive_arrival(a), journey.arrival)
        &&& cloned(criteria, journey.criteria_at_arrival)
        &&& self.departure_leg_matches(chain[0], journey.departure_leg)
        &&& journey.connection_legs@.len() + 1 == chain.len()
        &&& forall|k: int|
            0 <= k < journey.connection_legs@.len() ==> self.connection_leg_matches(
                chain[k + 1],
                #[trigger] journey.connection_legs@[k],
            )
    }

    /// `self` holds every moment of `old`, unchanged, and possibly more.
    pub open spec fn extends(&self, old: &Self) -> bool {
        &&& old.nb_boards() <= self.nb_boards()
        &&& old.nb_debarks() <= self.nb_debarks()
        &&& old.nb_waits() <= self.nb_waits()
        &&& old.nb_arrives() <= self.nb_arrives()
        &&& self.stored_prefix(old)
    }

    /// The stored moments of `old` are stored identically in `self`
    pub closed spec fn stored_prefix(&self, old: &Self) -> bool {
        &&& old.boards@ == self.boards@.take(old.boards@.len() as int)
        &&& old.debarks@ == self.debarks@.take(old.debarks@.len() as int)
        &&& old.waits@ == self.waits@.take(old.waits@.len() as int)
        &&& old.arrives@ == self.arrives@.take(old.arrives@.len() as int)
    }

    /// The number of moments stored
    pub open spec fn nb_moments(&self) -> nat {
        self.nb_waits() + self.nb_debarks() + self.nb_boards() + self.nb_arrives()
    }

    /// A tree that holds an arrival also holds the debark, the board and the wait that
    /// lead to it.
    pub proof fn lemma_arrive_has_moments(&self)
        requires
            self.wf(),
            self.nb_arrives() > 0,
        ensures
            self.nb_debarks() > 0,
            self.nb_boards() > 0,
            self.nb_waits() > 0,
    {
        assert(self.arrives@[0].1.id < self.debarks@.len());
        assert(self.debarks@[0].1.id < self.boards@.len());
        assert(self.boards@[0].2.id < self.waits@.len());
    }

    /// From an empty tree, a sequence of trees each holding one more moment than the one
    /// before, as each call recording a moment gives, ends with as many moments as calls.
    pub proof fn lemma_moments_along(trees: Seq<Self>)
        requires
            trees.len() >= 1,
            trees[0].nb_moments() == 0,
            forall|k: int| 0 <= k < trees.len() - 1 ==> (#[trigger] trees[k + 1]).nb_moments() == trees[k].nb_moments() + 1,
        ensures
            trees.last().nb_moments() == trees.len() - 1,
        decreases trees.len(),
    {
        if trees.len() > 1 {
            let before = trees.drop_last();
            assert forall|k: int| 0 <= k < before.len() - 1 implies (#[trigger] before[k + 1]).nb_moments()
                == before[k].nb_moments() + 1 by {
                assert(before[k + 1] == trees[k + 1] && before[k] == trees[k]);
            }
            Self::lemma_moments_along(before);
            assert(trees[trees.len() - 1].nb_moments() == trees[trees.len() - 2].nb_moments() + 1);
        }
    }

    /// Every tree extends itself
    pub proof fn lemma_extends_refl(&self)
        ensures
            self.extends(self),
    {
        assert(self.boards@ =~= self.boards@.take(self.boards@.len() as int));
        assert(self.debarks@ =~= self.debarks@.take(self.debarks@.len() as int));
        assert(self.waits@ =~= self.waits@.take(self.waits@.len() as int));
        assert(self.arrives@ =~= self.arrives@.take(self.arrives@.len() as int));
    }

    /// Extending is transitive
    pub proof fn lemma_extends_trans(a: &Self, b: &Self, c: &Self)
        requires
            b.extends(a),
            c.extends(b),
        ensures
            c.extends(a),
    {
        assert(a.boards@ =~= c.boards@.take(a.boards@.len() as int));
        assert(a.debarks@ =~= c.debarks@.take(a.debarks@.len() as int));
        assert(a.waits@ =~= c.waits@.take(a.waits@.len() as int));
        assert(a.arrives@ =~= c.arrives@.take(a.arrives@.len() as int));
    }

    /// An empty tree
    pub fn new() -> (r: Self)
        ensures
            r.wf(),
            r.nb_boards() == 0,
            r.nb_debarks() == 0,
            r.nb_waits() == 0,
            r.nb_arrives() == 0,
    {
        Self { boards: Vec::new(), debarks: Vec::new(), waits: Vec::new(), arrives: Vec::new() }
    }

    /// Records the departure of a journey
    pub fn depart(&mut self, departure: &PT::Departure) -> (r: Wait)
        requires
            old(self).wf(),
        ensures
            final(self).wf(),
            final(self).extends(old(self)),
            r.idx() == old(self).nb_waits(),
            final(self).nb_waits() == old(self).nb_waits() + 1,
            final(self).nb_boards() == old(self).nb_boards(),
            final(self).nb_debarks() == old(self).nb_debarks(),
            final(self).nb_arrives() == old(self).nb_arrives(),
            final(self).debark_before_wait(r.idx() as int) is None,
            cloned(*departure, final(self).wait_departure(r.idx() as int)),
    {
        let id = self.waits.len();
        self.waits.push(WaitData::Departure(departure.clone()));
        proof {
            self.lemma_prefix_after_push(old(self));
            self.lemma_wf_after_extension(old(self));
        }
        Wait { id }
    }

    /// Records the boarding of `trip` at `position` after `wait`
    pub fn board(&mut self, wait: &Wait, trip: &PT::Trip, position: &PT::Position) -> (r: Board)
        requires
            old(self).wf(),
            wait.idx() < old(self).nb_waits(),
        ensures
            final(self).wf(),
            final(self).extends(old(self)),
            r.idx() == old(self).nb_boards(),
            final(self).nb_boards() == old(self).nb_boards() + 1,
            final(self).nb_debarks() == old(self).nb_debarks(),
            final(self).nb_waits() == old(self).nb_waits(),
            final(self).nb_arrives() == old(self).nb_arrives(),
            final(self).wait_of_board(r.idx() as int) == wait.idx(),
            cloned(*trip, final(self).board_trip(r.idx() as int)),
            cloned(*position, final(self).board_position(r.idx() as int)),
    {
        let id = self.boards.len();
        self.boards.push((trip.clone(), position.clone(), *wait));
        proof {
            self.lemma_prefix_after_push(old(self));
            self.lemma_wf_after_extension(old(self));
        }
        Board { id }
    }

    /// Records the debarking at `position` from the trip boarded at `board`
    pub fn debark(&mut self, board: &Board, position: &PT::Position) -> (r: Debark)
        requires
            old(self).wf(),
            board.idx() < old(self).nb_boards(),
        ensures
            final(self).wf(),
            final(self).extends(old(self)),
            r.idx() == old(self).nb_debarks(),
            final(self).nb_boards() == old(self).nb_boards(),
            final(self).nb_debarks() == old(self).nb_debarks() + 1,
            final(self).nb_waits() == old(self).nb_waits(),
            final(self).nb_arrives() == old(self).nb_arrives(),
            final(self).board_of_debark(r.idx() as int) == board.idx(),
            cloned(*position, final(self).debark_position(r.idx() as int)),
    {
        let id = self.debarks.len();
        self.debarks.push((position.clone(), *board));
        proof {
            self.lemma_prefix_after_push(old(self));
            self.lemma_wf_after_extension(old(self));
        }
        Debark { id }
    }

    /// Records a transfer taken after `debark`
    pub fn transfer(&mut self, debark: &Debark, transfer: &PT::Transfer) -> (r: Wait)
        requires
            old(self).wf(),
            debark.idx() < old(self).nb_debarks(),
        ensures
            final(self).wf(),
            final(self).extends(old(self)),
            r.idx() == old(self).nb_waits(),
            final(self).nb_boards() == old(self).nb_boards(),
            final(self).nb_debarks() == old(self).nb_debarks(),
            final(self).nb_waits() == old(self).nb_waits() + 1,
            final(self).nb_arrives() == old(self).nb_arrives(),
            final(self).debark_before_wait(r.idx() as int) == Some(debark.idx() as int),
            cloned(*transfer, final(self).wait_transfer(r.idx() as int)),
    {
        let id = self.waits.len();
        self.waits.push(WaitData::Transfer(transfer.clone(), *debark));
        proof {
            self.lemma_prefix_after_push(old(self));
            self.lemma_wf_after_extension(old(self));
        }
        Wait { id }
    }

    /// Records the arrival `arrival` after `debark`
    pub fn arrive(&mut self, debark: &Debark, arrival: &PT::Arrival) -> (r: Arrive)
        requires
            old(self).wf(),
            debark.idx() < old(self).nb_debarks(),
        ensures
            final(self).wf(),
            final(self).extends(old(self)),
            r.idx() == old(self).nb_arrives(),
            final(self).nb_boards() == old(self).nb_boards(),
            final(self).nb_debarks() == old(self).nb_debarks(),
            final(self).nb_waits() == old(self).nb_waits(),
            final(self).nb_arrives() == old(self).nb_arrives() + 1,
            final(self).debark_of_arrive(r.idx() as int) == debark.idx(),
            cloned(*arrival, final(self).arrive_arrival(r.idx() as int)),
    {
        let id = self.arrives.len();
        self.arrives.push((arrival.clone(), *debark));
        proof {
            self.lemma_prefix_after_push(old(self));
            self.lemma_wf_after_extension(old(self));
        }
        Arrive { id }
    }

    /// After pushing on any of the vectors, the tree stores the old moments unchanged.
    proof fn lemma_prefix_after_push(&self, old: &Self)
        requires
            self.boards@ == old.boards@ || self.boards@ == old.boards@.push(self.boards@.last()),
            self.debarks@ == old.debarks@ || self.debarks@ == old.debarks@.push(
                self.debarks@.last(),
            ),
            self.waits@ == old.waits@ || self.waits@ == old.waits@.push(self.waits@.last()),
            self.arrives@ == old.arrives@ || self.arrives@ == old.arrives@.push(
                self.arrives@.last(),
            ),
        ensures
            self.stored_prefix(old),
    {
        assert(old.boards@ =~= self.boards@.take(old.boards@.len() as int));
        assert(old.debarks@ =~= self.debarks@.take(old.debarks@.len() as int));
        assert(old.waits@ =~= self.waits@.take(old.waits@.len() as int));
        assert(old.arrives@ =~= self.arrives@.take(old.arrives@.len() as int));
    }

    /// A tree that extends a well formed tree with well formed new moments is well formed.
    proof fn lemma_wf_after_extension(&self, old: &Self)
        requires
            old.wf(),
            self.stored_prefix(old),
            old.boards@.len() <= self.boards@.len(),
            old.debarks@.len() <= self.debarks@.len(),
            old.waits@.len() <= self.waits@.len(),
            old.arrives@.len() <= self.arrives@.len(),
            forall|b: int|
                old.boards@.len() <= b < self.boards@.len() ==> (#[trigger] self.boards@[b]).2.id
                    < self.waits@.len(),
            forall|d: int|
                old.debarks@.len() <= d < self.debarks@.len() ==> (#[trigger] self.debarks@[d]).1.id
                    < self.boards@.len(),
            forall|w: int|
                old.waits@.len() <= w < self.waits@.len() ==> match #[trigger] self.waits@[w] {
                    WaitData::Transfer(_, d) => d.id < self.debarks@.len(),
                    WaitData::Departure(_) => true,
                },
            forall|a: int|
                old.arrives@.len() <= a < self.arrives@.len() ==> (#[trigger] self.arrives@[a]).1.id
                    < self.debarks@.len(),
            forall|d: int|
                old.debarks@.len() <= d < self.debarks@.len() ==> match #[trigger] self.previous_debark(d) {
                    Some(pd) => pd < d,
                    None => true,
                },
        ensures
            self.wf(),
    {
        assert forall|b: int| 0 <= b < self.boards@.len() implies (#[trigger] self.boards@[b]).2.id
            < self.waits@.len() by {
            if b < old.boards@.len() {
                assert(self.boards@[b] == old.boards@[b]);
            }
        }
        assert forall|d: int| 0 <= d < self.debarks@.len() implies (#[trigger] self.debarks@[d]).1.id
            < self.boards@.len() by {
            if d < old.debarks@.len() {
                assert(self.debarks@[d] == old.debarks@[d]);
            }
        }
        assert forall|w: int| 0 <= w < self.waits@.len() implies match #[trigger] self.waits@[w] {
            WaitData::Transfer(_, d) => d.id < self.debarks@.len(),
            WaitData::Departure(_) => true,
        } by {
            if w < old.waits@.len() {
                assert(self.waits@[w] == old.waits@[w]);
            }
        }
        assert forall|a: int| 0 <= a < self.arrives@.len() implies (#[trigger] self.arrives@[a]).1.id
            < self.debarks@.len() by {
            if a < old.arrives@.len() {
                assert(self.arrives@[a] == old.arrives@[a]);
            }
        }
        assert forall|d: int| 0 <= d < self.debarks@.len() implies match #[trigger] self.previous_debark(d) {
            Some(pd) => pd < d,
            None => true,
        } by {
            if d < old.debarks@.len() {
                assert(self.debarks@[d] == old.debarks@[d]);
                assert(old.debarks@[d].1.id < old.boards@.len());
                let b = old.debarks@[d].1.id as int;
                assert(self.boards@[b] == old.boards@[b]);
                assert(old.boards@[b].2.id < old.waits@.len());
                let w = old.boards@[b].2.id as int;
                assert(self.waits@[w] == old.waits@[w]);
                assert(self.previous_debark(d) == old.previous_debark(d));
            }
        }
    }

    /// Overwrites `journey` with the journey that ends with `arrive`, with `criteria` at arrival
    pub fn fill_journey(&self, arrive: &Arrive, criteria: &PT::Criteria, journey: &mut Journey<PT>)
        requires
            self.wf(),
            arrive.idx() < self.nb_arrives(),
        ensures
            self.journey_matches(arrive.idx() as int, *criteria, *final(journey)),
    {
        journey.arrival = self.arrives[arrive.id].0.clone();
        let new_departure_leg = self.fill_journey_data(arrive, &mut journey.connection_legs);
        journey.departure_leg = new_departure_leg;
        journey.criteria_at_arrival = criteria.clone();
    }

    /// The journey that ends with `arrive`, with `criteria` at arrival
    pub fn create_journey(&self, arrive: &Arrive, criteria: &PT::Criteria) -> (r: Journey<PT>)
        requires
            self.wf(),
            arrive.idx() < self.nb_arrives(),
        ensures
            self.journey_matches(arrive.idx() as int, *criteria, r),
    {
        let arrival = self.arrives[arrive.id].0.clone();
        let mut connection_legs: Vec<ConnectionLeg<PT>> = Vec::new();
        let departure_leg = self.fill_journey_data(arrive, &mut connection_legs);
        Journey { departure_leg, connection_legs, arrival, criteria_at_arrival: criteria.clone() }
    }

    /// Total number of moments stored
    pub fn size(&self) -> (r: usize)
        requires
            self.nb_waits() + self.nb_debarks() + self.nb_boards() + self.nb_arrives()
                <= usize::MAX,
        ensures
            r == self.nb_waits() + self.nb_debarks() + self.nb_boards() + self.nb_arrives(),
    {
        self.waits.len() + self.debarks.len() + self.boards.len() + self.arrives.len()
    }

    /// The debark chain of `d` ends with `d` and each of its elements is a valid debark
    /// whose predecessor is the previous element of the chain.
    proof fn lemma_debark_chain(&self, d: int)
        requires
            self.wf(),
            0 <= d < self.nb_debarks(),
        ensures
            self.debark_chain(d).len() >= 1,
            self.debark_chain(d).last() == d,
            forall|k: int|
                0 <= k < self.debark_chain(d).len() ==> 0 <= #[trigger] self.debark_chain(d)[k]
                    < self.nb_debarks(),
            self.previous_debark(self.debark_chain(d)[0]) is None,
            forall|k: int|
                0 < k < self.debark_chain(d).len() ==> self.previous_debark(
                    #[trigger] self.debark_chain(d)[k],
                ) == Some(self.debark_chain(d)[k - 1]),
        decreases d,
    {
        assert(self.previous_debark(d) matches Some(pd) ==> pd < d);
        let b = self.board_of_debark(d);
        assert(self.debarks@[d].1.id < self.boards@.len());
        assert(self.boards@[b].2.id < self.waits@.len());
        let w = self.wait_of_board(b);
        assert(self.waits@[w] matches WaitData::Transfer(_, pd) ==> pd.id < self.debarks@.len());
        match self.previous_debark(d) {
            Some(pd) => {
                self.lemma_debark_chain(pd);
                let c = self.debark_chain(pd);
                assert(self.debark_chain(d) == c.push(d));
                assert forall|k: int| 0 < k < self.debark_chain(d).len() implies self.previous_debark(
                    #[trigger] self.debark_chain(d)[k],
                ) == Some(self.debark_chain(d)[k - 1]) by {
                    if k < c.len() {
                        assert(self.debark_chain(d)[k] == c[k]);
                        assert(self.debark_chain(d)[k - 1] == c[k - 1]);
                    } else {
                        assert(self.debark_chain(d)[k - 1] == c.last());
                    }
                }
            },
            None => {},
        }
    }

    /// Fills `connections` with the connection legs of the journey that ends with `arrive`,
    /// and returns its departure leg.
    fn fill_journey_data(
        &self,
        arrive: &Arrive,
        connections: &mut Vec<ConnectionLeg<PT>>,
    ) -> (r: DepartureLeg<PT>)
        requires
            self.wf(),
            arrive.idx() < self.nb_arrives(),
        ensures
            ({
                let chain = self.debark_chain(self.debark_of_arrive(arrive.idx() as int));
                &&& chain.len() >= 1
                &&& self.departure_leg_matches(chain[0], r)
                &&& final(connections)@.len() + 1 == chain.len()
                &&& forall|k: int|
                    0 <= k < final(connections)@.len() ==> self.connection_leg_matches(
                        chain[k + 1],
                        #[trigger] final(connections)@[k],
                    )
            }),
    {
        connections.clear();
        let ghost a = arrive.id as int;
        assert(self.arrives@[a].1.id < self.debarks@.len());
        let ghost d0 = self.debark_of_arrive(a);
        assert(d0 == self.debark_of_arrive(arrive.idx() as int));
        let ghost chain = self.debark_chain(d0);
        proof {
            self.lemma_debark_chain(d0);
        }
        let mut debark: Debark = self.arrives[arrive.id].1;
        let ghost mut pos: int = chain.len() - 1;
        // connections are collected from the arrival backward
        let mut reversed: Vec<ConnectionLeg<PT>> = Vec::new();
        loop
            invariant
                self.wf(),
                chain == self.debark_chain(d0),
                d0 == self.debark_of_arrive(arrive.idx() as int),
                chain.len() >= 1,
                0 <= pos < chain.len(),
                chain[pos] == debark.id,
                debark.id < self.nb_debarks(),
                reversed@.len() == chain.len() - 1 - pos,
                connections@.len() == 0,
                forall|k: int|
                    0 <= k < reversed@.len() ==> self.connection_leg_matches(
                        chain[chain.len() - 1 - k],
                        #[trigger] reversed@[k],
                    ),
                forall|k: int|
                    0 <= k < chain.len() ==> 0 <= #[trigger] chain[k] < self.nb_debarks(),
                self.previous_debark(chain[0]) is None,
                forall|k: int|
                    0 < k < chain.len() ==> self.previous_debark(#[trigger] chain[k]) == Some(
                        chain[k - 1],
                    ),
            decreases pos,
        {
            let d = debark.id;
            assert(self.debarks@[d as int].1.id < self.boards@.len());
            let board = self.debarks[d].1;
            let debark_position = self.debarks[d].0.clone();
            assert(self.boards@[board.id as int].2.id < self.waits@.len());
            let wait = self.boards[board.id].2;
            let trip = self.boards[board.id].0.clone();
            let board_position = self.boards[board.id].1.clone();
            match &self.waits[wait.id] {
                WaitData::Departure(departure) => {
                    let departure_leg = DepartureLeg::<PT> {
                        departure: departure.clone(),
                        trip,
                        board_position,
                        debark_position,
                    };
                    proof {
                        if pos > 0 {
                            assert(self.previous_debark(chain[pos]) == Some(chain[pos - 1]));
                        }
                    }
                    assert(pos == 0);
                    assert(chain[0] == d);
                    assert(self.board_of_debark(d as int) == board.id);
                    assert(self.wait_of_board(board.id as int) == wait.id);
                    assert(self.wait_departure(wait.id as int) == *departure);
                    assert(self.departure_leg_matches(chain[0], departure_leg));
                    // put the connections back in travel order
                    while reversed.len() > 0
                        invariant
                            connections@.len() + reversed@.len() == chain.len() - 1,
                            forall|k: int|
                                0 <= k < reversed@.len() ==> self.connection_leg_matches(
                                    chain[chain.len() - 1 - k],
                                    #[trigger] reversed@[k],
                                ),
                            forall|k: int|
                                0 <= k < connections@.len() ==> self.connection_leg_matches(
                                    chain[k + 1],
                                    #[trigger] connections@[k],
                                ),
                        decreases reversed@.len(),
                    {
                        let leg = reversed.pop().unwrap();
                        connections.push(leg);
                    }
                    assert(d0 == self.debark_of_arrive(arrive.idx() as int));
                    assert(connections@.len() + 1 == chain.len());
                    return departure_leg;
                },
                WaitData::Transfer(transfer, prev_debark) => {
                    let connection_leg = ConnectionLeg {
                        transfer: transfer.clone(),
                        trip,
                        board_position,
                        debark_position,
                    };
                    proof {
                        if pos == 0 {
                            assert(self.previous_debark(chain[0]) is None);
                        }
                        assert(self.previous_debark(chain[pos]) == Some(chain[pos - 1]));
                    }
                    reversed.push(connection_leg);
                    debark = *prev_debark;
                    proof {
                        pos = pos - 1;
                    }
                },
            }
        }
    }

    /// Removes all moments
    pub fn clear(&mut self)
        ensures
            final(self).wf(),
            final(self).nb_boards() == 0,
            final(self).nb_debarks() == 0,
            final(self).nb_waits() == 0,
            final(self).nb_arrives() == 0,
    {
        self.boards.clear();
        self.debarks.clear();
        self.waits.clear();
        self.arrives.clear();
    }

    /// `true` when no moment is stored
    pub fn is_empty(&self) -> (r: bool)
        ensures
            r == (self.nb_boards() == 0 && self.nb_debarks() == 0 && self.nb_waits() == 0
                && self.nb_arrives() == 0),
    {
        self.boards.is_empty() && self.debarks.is_empty() && self.waits.is_empty()
            && self.arrives.is_empty()
    }
}

} // verus!
