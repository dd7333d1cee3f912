use vstd::prelude::*;

use crate::public_transit::PublicTransit;

verus! {

/// Handle on an onboard moment
#[derive(Clone, Copy, Debug)]
pub struct Onboard {
    id: usize,
}

/// Handle on a debarked moment
#[derive(Clone, Copy, Debug)]
pub struct Debarked {
    id: usize,
}

/// Handle on a waiting moment
#[derive(Clone, Copy, Debug)]
pub struct Waiting {
    id: usize,
}

/// Handle on an arrived moment
#[derive(Clone, Copy, Debug)]
pub struct Arrived {
    id: usize,
}

impl Onboard {
    /// The index of this moment in its tree
    pub closed spec fn idx(self) -> nat {
        self.id as nat
    }
}

impl Debarked {
    /// The index of this moment in its tree
    pub closed spec fn idx(self) -> nat {
        self.id as nat
    }
}

impl Waiting {
    /// The index of this moment in its tree
    pub closed spec fn idx(self) -> nat {
        self.id as nat
    }
}

impl Arrived {
    /// The index of this moment in its tree
    pub closed spec fn idx(self) -> nat {
        self.id as nat
    }
}

/// A complete journey is a sequence of moments the form
///  Waiting, (Onboard, Debarked, Waiting)* , Onboard, Debarked, Arrived
///
/// We associate the minimum amount of data to each moment so as to be able to reconstruct
/// the whole journey :
///  - Onboard  -> a Trip, and the Waiting before it
///  - Debarked -> the Stop where we alight, and the Onboard before it
///  - Waiting  -> the Stop where we wait, and the Debarked before it, if any
///  - Arrived  -> the Debarked before it
pub struct JourneysTree<PT: PublicTransit> {
    onboards: Vec<PT::Trip>,
    debarkeds: Vec<PT::Stop>,
    waitings: Vec<PT::Stop>,
    onboard_parents: Vec<Waiting>,
    debarked_parents: Vec<Onboard>,
    waiting_parents: Vec<Option<Debarked>>,
    arrived_parents: Vec<Debarked>,
}

impl<PT: PublicTransit> JourneysTree<PT> {
    /// Number of onboard moments stored
    pub closed spec fn nb_onboards(&self) -> nat {
        self.onboards@.len()
    }

    /// Number of debarked moments stored
    pub closed spec fn nb_debarkeds(&self) -> nat {
        self.debarkeds@.len()
    }

    /// Number of waiting moments stored
    pub closed spec fn nb_waitings(&self) -> nat {
        self.waitings@.len()
    }

    /// Number of arrived moments stored
    pub closed spec fn nb_arriveds(&self) -> nat {
        self.arrived_parents@.len()
    }

    /// The trip of the onboard moment `o`
    pub closed spec fn trip_of(&self, o: int) -> PT::Trip {
        self.onboards@[o]
    }

    /// The stop of the debarked moment `d`
    pub closed spec fn debarked_stop_of(&self, d: int) -> PT::Stop {
        self.debarkeds@[d]
    }

    /// The stop of the waiting moment `w`
    pub closed spec fn waiting_stop_of(&self, w: int) -> PT::Stop {
        self.waitings@[w]
    }

    /// The waiting before the onboard moment `o`
    pub closed spec fn onboard_parent(&self, o: int) -> int {
        self.onboard_parents@[o].id as int
    }

    /// The onboard before the debarked moment `d`
    pub closed spec fn debarked_parent(&self, d: int) -> int {
        self.debarked_parents@[d].id as int
    }

    /// The debarked before the waiting moment `w`, if any
    pub closed spec fn waiting_parent(&self, w: int) -> Option<int> {
        match self.waiting_parents@[w] {
            Some(d) => Some(d.id as int),
            None => None,
        }
    }

    /// The debarked before the arrived moment `a`
    pub closed spec fn arrived_parent(&self, a: int) -> int {
        self.arrived_parents@[a].id as int
    }

    /// `self` holds every moment of `other`, with the same data and the same parent
    pub open spec fn extends(&self, other: &Self) -> bool {
        &&& other.nb_onboards() <= self.nb_onboards()
        &&& other.nb_debarkeds() <= self.nb_debarkeds()
        &&& other.nb_waitings() <= self.nb_waitings()
        &&& other.nb_arriveds() <= self.nb_arriveds()
        &&& forall|o: int|
            0 <= o < other.nb_onboards() ==> #[trigger] self.trip_of(o) == other.trip_of(o)
                && self.onboard_parent(o) == other.onboard_parent(o)
        &&& forall|d: int|
            0 <= d < other.nb_debarkeds() ==> #[trigger] self.debarked_stop_of(d) == other.debarked_stop_of(d)
                && self.debarked_parent(d) == other.debarked_parent(d)
        &&& forall|w: int|
            0 <= w < other.nb_waitings() ==> #[trigger] self.waiting_stop_of(w) == other.waiting_stop_of(w)
                && self.waiting_parent(w) == other.waiting_parent(w)
        &&& forall|a: int| 0 <= a < other.nb_arriveds() ==> #[trigger] self.arrived_parent(a) == other.arrived_parent(a)
    }

    /// Every tree extends itself.
    pub proof fn lemma_extends_refl(&self)
        ensures
            self.extends(self),
    {
    }

    /// A tree that extends a tree extending `a` extends `a`: along any sequence of recorded
    /// moments, the data and parent of every earlier moment stay.
    pub proof fn lemma_extends_trans(a: &Self, b: &Self, c: &Self)
        requires
            b.extends(a),
            c.extends(b),
        ensures
            c.extends(a),
    {
        assert forall|o: int| 0 <= o < a.nb_onboards() implies #[trigger] c.trip_of(o) == a.trip_of(o)
            && c.onboard_parent(o) == a.onboard_parent(o) by {
            assert(b.trip_of(o) == a.trip_of(o));
            assert(c.trip_of(o) == b.trip_of(o));
        }
        assert forall|d: int| 0 <= d < a.nb_debarkeds() implies #[trigger] c.debarked_stop_of(d)
            == a.debarked_stop_of(d) && c.debarked_parent(d) == a.debarked_parent(d) by {
            assert(b.debarked_stop_of(d) == a.debarked_stop_of(d));
            assert(c.debarked_stop_of(d) == b.debarked_stop_of(d));
        }
        assert forall|w: int| 0 <= w < a.nb_waitings() implies #[trigger] c.waiting_stop_of(w)
            == a.waiting_stop_of(w) && c.waiting_parent(w) == a.waiting_parent(w) by {
            assert(b.waiting_stop_of(w) == a.waiting_stop_of(w));
            assert(c.waiting_stop_of(w) == b.waiting_stop_of(w));
        }
        assert forall|x: int| 0 <= x < a.nb_arriveds() implies #[trigger] c.arrived_parent(x)
            == a.arrived_parent(x) by {
            assert(b.arrived_parent(x) == a.arrived_parent(x));
        }
    }

    /// Along a sequence of trees, each extending the one before, the last one extends
    /// every earlier one.
    pub proof fn lemma_extends_along(trees: Seq<Self>, i: int)
        requires
            0 <= i < trees.len(),
            forall|k: int| 0 <= k < trees.len() - 1 ==> (#[trigger] trees[k + 1]).extends(&trees[k]),
        ensures
            trees.last().extends(&trees[i]),
        decreases trees.len() - i,
    {
        if i == trees.len() - 1 {
            trees[i].lemma_extends_refl();
        } else {
            Self::lemma_extends_along(trees, i + 1);
            assert(trees[i + 1].extends(&trees[i]));
            Self::lemma_extends_trans(&trees[i], &trees[i + 1], &trees.last());
        }
    }

    /// Each moment has exactly one parent entry, which refers to a stored moment
    pub closed spec fn wf(&self) -> bool {
        &&& self.onboard_parents@.len() == self.onboards@.len()
        &&& self.debarked_parents@.len() == self.debarkeds@.len()
        &&& self.waiting_parents@.len() == self.waitings@.len()
        &&& forall|o: int|
            0 <= o < self.onboards@.len() ==> (#[trigger] self.onboard_parents@[o]).id
                < self.waitings@.len()
        &&& forall|d: int|
            0 <= d < self.debarkeds@.len() ==> (#[trigger] self.debarked_parents@[d]).id
                < self.onboards@.len()
        &&& forall|w: int|
            0 <= w < self.waitings@.len() ==> match #[trigger] self.waiting_parents@[w] {
                Some(d) => d.id < self.debarkeds@.len(),
                None => true,
            }
        &&& forall|a: int|
            0 <= a < self.arrived_parents@.len() ==> (#[trigger] self.arrived_parents@[a]).id
                < self.debarkeds@.len()
    }

    /// An empty tree
    pub fn new() -> (r: Self)
        ensures
            r.wf(),
            r.nb_onboards() == 0,
            r.nb_debarkeds() == 0,
            r.nb_waitings() == 0,
            r.nb_arriveds() == 0,
    {
        Self {
            onboards: Vec::new(),
            debarkeds: Vec::new(),
            waitings: Vec::new(),
            onboard_parents: Vec::new(),
            debarked_parents: Vec::new(),
            waiting_parents: Vec::new(),
            arrived_parents: Vec::new(),
        }
    }

    /// Records the beginning of a journey, waiting at `route_stop`
    pub fn depart(&mut self, route_stop: &PT::Stop) -> (r: Waiting)
        requires
            old(self).wf(),
        ensures
            final(self).wf(),
            final(self).extends(&*old(self)),
            r.idx() == old(self).nb_waitings(),
            final(self).nb_waitings() == old(self).nb_waitings() + 1,
            final(self).nb_onboards() == old(self).nb_onboards(),
            final(self).nb_debarkeds() == old(self).nb_debarkeds(),
            final(self).nb_arriveds() == old(self).nb_arriveds(),
            final(self).waiting_parent(r.idx() as int) is None,
            cloned(*route_stop, final(self).waiting_stop_of(r.idx() as int)),
    {
        let id = self.waitings.len();
        self.waitings.push(route_stop.clone());
        self.waiting_parents.push(None);
        proof {
            self.lemma_wf_after(old(self));
        }
        Waiting { id }
    }

    /// Records the boarding of `trip` after `waiting`
    pub fn board(&mut self, waiting: &Waiting, trip: &PT::Trip) -> (r: Onboard)
        requires
            old(self).wf(),
            waiting.idx() < old(self).nb_waitings(),
        ensures
            final(self).wf(),
            final(self).extends(&*old(self)),
            r.idx() == old(self).nb_onboards(),
            final(self).nb_onboards() == old(self).nb_onboards() + 1,
            final(self).nb_waitings() == old(self).nb_waitings(),
            final(self).nb_debarkeds() == old(self).nb_debarkeds(),
            final(self).nb_arriveds() == old(self).nb_arriveds(),
            final(self).onboard_parent(r.idx() as int) == waiting.idx(),
            cloned(*trip, final(self).trip_of(r.idx() as int)),
    {
        let id = self.onboards.len();
        self.onboards.push(trip.clone());
        self.onboard_parents.push(*waiting);
        proof {
            self.lemma_wf_after(old(self));
        }
        Onboard { id }
    }

    /// Records the debarking at `route_stop` from the trip of `onboard`
    pub fn debark(&mut self, onboard: &Onboard, route_stop: &PT::Stop) -> (r: Debarked)
        requires
            old(self).wf(),
            onboard.idx() < old(self).nb_onboards(),
        ensures
            final(self).wf(),
            final(self).extends(&*old(self)),
            r.idx() == old(self).nb_debarkeds(),
            final(self).nb_debarkeds() == old(self).nb_debarkeds() + 1,
            final(self).nb_onboards() == old(self).nb_onboards(),
            final(self).nb_waitings() == old(self).nb_waitings(),
            final(self).nb_arriveds() == old(self).nb_arriveds(),
            final(self).debarked_parent(r.idx() as int) == onboard.idx(),
            cloned(*route_stop, final(self).debarked_stop_of(r.idx() as int)),
    {
        let id = self.debarkeds.len();
        self.debarkeds.push(route_stop.clone());
        self.debarked_parents.push(*onboard);
        proof {
            self.lemma_wf_after(old(self));
        }
        Debarked { id }
    }

    /// Records a transfer from `debarked` to wait at `route_stop`
    pub fn transfer(&mut self, debarked: &Debarked, route_stop: &PT::Stop) -> (r: Waiting)
        requires
            old(self).wf(),
            debarked.idx() < old(self).nb_debarkeds(),
        ensures
            final(self).wf(),
            final(self).extends(&*old(self)),
            r.idx() == old(self).nb_waitings(),
            final(self).nb_waitings() == old(self).nb_waitings() + 1,
            final(self).nb_onboards() == old(self).nb_onboards(),
            final(self).nb_debarkeds() == old(self).nb_debarkeds(),
            final(self).nb_arriveds() == old(self).nb_arriveds(),
            final(self).waiting_parent(r.idx() as int) == Some(debarked.idx() as int),
            cloned(*route_stop, final(self).waiting_stop_of(r.idx() as int)),
    {
        let id = self.waitings.len();
        self.waitings.push(route_stop.clone());
        self.waiting_parents.push(Some(*debarked));
        proof {
            self.lemma_wf_after(old(self));
        }
        Waiting { id }
    }

    /// Records the arrival after `debarked`
    pub fn arrive(&mut self, debarked: &Debarked) -> (r: Arrived)
        requires
            old(self).wf(),
            debarked.idx() < old(self).nb_debarkeds(),
        ensures
            final(self).wf(),
            final(self).extends(&*old(self)),
            r.idx() == old(self).nb_arriveds(),
            final(self).nb_arriveds() == old(self).nb_arriveds() + 1,
            final(self).nb_onboards() == old(self).nb_onboards(),
            final(self).nb_debarkeds() == old(self).nb_debarkeds(),
            final(self).nb_waitings() == old(self).nb_waitings(),
            final(self).arrived_parent(r.idx() as int) == debarked.idx(),
    {
        let id = self.arrived_parents.len();
        self.arrived_parents.push(*debarked);
        proof {
            self.lemma_wf_after(old(self));
        }
        Arrived { id }
    }

    /// Pushing moments whose parents are stored keeps the tree well formed
    proof fn lemma_wf_after(&self, old: &Self)
        requires
            old.wf(),
            self.onboard_parents@.len() == self.onboards@.len(),
            self.debarked_parents@.len() == self.debarkeds@.len(),
            self.waiting_parents@.len() == self.waitings@.len(),
            old.onboards@.len() <= self.onboards@.len(),
            old.debarkeds@.len() <= self.debarkeds@.len(),
            old.waitings@.len() <= self.waitings@.len(),
            old.arrived_parents@.len() <= self.arrived_parents@.len(),
            forall|o: int| 0 <= o < old.onboards@.len() ==> self.onboard_parents@[o] == old.onboard_parents@[o],
            forall|d: int| 0 <= d < old.debarkeds@.len() ==> self.debarked_parents@[d] == old.debarked_parents@[d],
            forall|w: int| 0 <= w < old.waitings@.len() ==> self.waiting_parents@[w] == old.waiting_parents@[w],
            forall|a: int| 0 <= a < old.arrived_parents@.len() ==> self.arrived_parents@[a] == old.arrived_parents@[a],
            forall|o: int|
                old.onboards@.len() <= o < self.onboards@.len() ==> (#[trigger] self.onboard_parents@[o]).id
                    < self.waitings@.len(),
            forall|d: int|
                old.debarkeds@.len() <= d < self.debarkeds@.len() ==> (#[trigger] self.debarked_parents@[d]).id
                    < self.onboards@.len(),
            forall|w: int|
                old.waitings@.len() <= w < self.waitings@.len() ==> match #[trigger] self.waiting_parents@[w] {
                    Some(d) => d.id < self.debarkeds@.len(),
                    None => true,
                },
            forall|a: int|
                old.arrived_parents@.len() <= a < self.arrived_parents@.len() ==> (#[trigger] self.arrived_parents@[a]).id
                    < self.debarkeds@.len(),
        ensures
            self.wf(),
    {
        assert forall|o: int| 0 <= o < self.onboards@.len() implies (#[trigger] self.onboard_parents@[o]).id
            < self.waitings@.len() by {
            if o < old.onboards@.len() {
                assert(self.onboard_parents@[o] == old.onboard_parents@[o]);
            }
        }
        assert forall|d: int| 0 <= d < self.debarkeds@.len() implies (#[trigger] self.debarked_parents@[d]).id
            < self.onboards@.len() by {
            if d < old.debarkeds@.len() {
                assert(self.debarked_parents@[d] == old.debarked_parents@[d]);
            }
        }
        assert forall|w: int| 0 <= w < self.waitings@.len() implies match #[trigger] self.waiting_parents@[w] {
            Some(d) => d.id < self.debarkeds@.len(),
            None => true,
        } by {
            if w < old.waitings@.len() {
                assert(self.waiting_parents@[w] == old.waiting_parents@[w]);
            }
        }
        assert forall|a: int| 0 <= a < self.arrived_parents@.len() implies (#[trigger] self.arrived_parents@[a]).id
            < self.debarkeds@.len() by {
            if a < old.arrived_parents@.len() {
                assert(self.arrived_parents@[a] == old.arrived_parents@[a]);
            }
        }
    }

    /// The trip of `onboard`
    pub fn onboard_trip(&self, onboard: &Onboard) -> (r: &PT::Trip)
        requires
            self.wf(),
            onboard.idx() < self.nb_onboards(),
        ensures
            *r == self.trip_of(onboard.idx() as int),
    {
        &self.onboards[onboard.id]
    }

    /// The stop of `debarked`
    pub fn debarked_stop(&self, debarked: &Debarked) -> (r: &PT::Stop)
        requires
            self.wf(),
            debarked.idx() < self.nb_debarkeds(),
        ensures
            *r == self.debarked_stop_of(debarked.idx() as int),
    {
        &self.debarkeds[debarked.id]
    }

    /// The stop of `waiting`
    pub fn waiting_stop(&self, waiting: &Waiting) -> (r: &PT::Stop)
        requires
            self.wf(),
            waiting.idx() < self.nb_waitings(),
        ensures
            *r == self.waiting_stop_of(waiting.idx() as int),
    {
        &self.waitings[waiting.id]
    }
}

} // verus!
