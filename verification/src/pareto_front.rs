use vstd::prelude::*;

use crate::journeys_tree::{Arrived, Debarked, Onboard, Waiting};
use crate::public_transit::PublicTransit;
use vstd::std_specs::iter::IteratorSpec;
use crate::engine::pareto_front::{lemma_filter_indices, lemma_filter_step, lemma_filter_subset};

verus! {

/// A set of ids, each with its criteria, such that no element is dominated by another one.
pub struct ParetoFront<Id, PT: PublicTransit> {
    elements: Vec<(Id, PT::Criteria)>,
}

pub type OnboardFront<PT> = ParetoFront<(Onboard, <PT as PublicTransit>::Trip), PT>;

pub type DebarkedFront<PT> = ParetoFront<Debarked, PT>;

pub type WaitingFront<PT> = ParetoFront<Waiting, PT>;

pub type ArrivedFront<PT> = ParetoFront<Arrived, PT>;

/// `true` when some element of `elements` is lower than `criteria` for `pt`
pub open spec fn spec_dominates<Id, PT: PublicTransit>(
    elements: Seq<(Id, PT::Criteria)>,
    criteria: PT::Criteria,
    pt: PT,
) -> bool {
    exists|i: int| 0 <= i < elements.len() && pt.spec_is_lower(#[trigger] elements[i].1, criteria)
}

/// `true` when no element of `elements` is lower than another element at a different index
pub open spec fn is_pareto<Id, PT: PublicTransit>(elements: Seq<(Id, PT::Criteria)>, pt: PT) -> bool {
    forall|i: int, j: int|
        0 <= i < elements.len() && 0 <= j < elements.len() && i != j ==> !pt.spec_is_lower(
            #[trigger] elements[i].1,
            #[trigger] elements[j].1,
        )
}

/// The elements kept when removing those dominated by `criteria`
pub open spec fn not_dominated_by<Id, PT: PublicTransit>(
    criteria: PT::Criteria,
    pt: PT,
) -> spec_fn((Id, PT::Criteria)) -> bool {
    |e: (Id, PT::Criteria)| !pt.spec_is_lower(criteria, e.1)
}

/// `b` is a clone of `a`, member by member
pub open spec fn pair_cloned<A: Clone, B: Clone>(a: (A, B), b: (A, B)) -> bool {
    cloned(a.0, b.0) && cloned(a.1, b.1)
}

/// `result` is `s` after adding each element of `added`, in order, where `added` holds
/// clones of the elements of `other`
pub open spec fn merged_from<Id: Clone, PT: PublicTransit>(
    s: Seq<(Id, PT::Criteria)>,
    other: Seq<(Id, PT::Criteria)>,
    pt: PT,
    added: Seq<(Id, PT::Criteria)>,
    result: Seq<(Id, PT::Criteria)>,
) -> bool {
    &&& added.len() == other.len()
    &&& forall|m: int| 0 <= m < added.len() ==> #[trigger] pair_cloned(other[m], added[m])
    &&& result == spec_merge::<Id, PT>(s, added, pt)
}

/// The front `s` after adding `e`: unchanged when an element of `s` dominates the criteria
/// of `e`; otherwise the elements dominated by them are removed and `e` is appended.
pub open spec fn spec_add<Id, PT: PublicTransit>(
    s: Seq<(Id, PT::Criteria)>,
    e: (Id, PT::Criteria),
    pt: PT,
) -> Seq<(Id, PT::Criteria)> {
    if spec_dominates::<Id, PT>(s, e.1, pt) {
        s
    } else {
        s.filter(not_dominated_by::<Id, PT>(e.1, pt)).push(e)
    }
}

/// The front `s` after adding each element of `added`, in order
pub open spec fn spec_merge<Id, PT: PublicTransit>(
    s: Seq<(Id, PT::Criteria)>,
    added: Seq<(Id, PT::Criteria)>,
    pt: PT,
) -> Seq<(Id, PT::Criteria)>
    decreases added.len(),
{
    if added.len() == 0 {
        s
    } else {
        spec_add::<Id, PT>(spec_merge::<Id, PT>(s, added.drop_last(), pt), added.last(), pt)
    }
}

impl<Id: Clone, PT: PublicTransit> ParetoFront<Id, PT> {
    /// The sequence of elements, with their criteria, in insertion order
    pub closed spec fn view(&self) -> Seq<(Id, PT::Criteria)> {
        self.elements@
    }

    /// An empty front
    pub fn new() -> (r: Self)
        ensures
            r.view() == Seq::<(Id, PT::Criteria)>::empty(),
    {
        Self { elements: Vec::new() }
    }

    /// `true` when some element of the front is lower than `criteria`
    pub fn dominates(&self, criteria: &PT::Criteria, pt: &PT) -> (r: bool)
        ensures
            r == spec_dominates::<Id, PT>(self.view(), *criteria, *pt),
    {
        let mut i: usize = 0;
        while i < self.elements.len()
            invariant
                i <= self.elements@.len(),
                forall|k: int| 0 <= k < i ==> !pt.spec_is_lower(#[trigger] self.elements@[k].1, *criteria),
            decreases self.elements@.len() - i,
        {
            if pt.is_lower(&self.elements[i].1, criteria) {
                return true;
            }
            i += 1;
        }
        false
    }

    /// Removes the elements dominated by `criteria`, then adds `(id, criteria)`.
    /// Returns `true` if some element was removed because it was dominated by `criteria`.
    pub fn add_unchecked(&mut self, id: Id, criteria: PT::Criteria, pt: &PT) -> (r: bool)
        ensures
            final(self).view() == old(self).view().filter(not_dominated_by::<Id, PT>(criteria, *pt)).push(
                (id, criteria),
            ),
            r == (old(self).view().filter(not_dominated_by::<Id, PT>(criteria, *pt)).len() < old(
                self,
            ).view().len()),
    {
        let ghost pred = not_dominated_by::<Id, PT>(criteria, *pt);
        let ghost s = self.elements@;
        let old_len = self.elements.len();
        let mut i: usize = 0;
        let ghost mut j: int = 0;
        while i < self.elements.len()
            invariant
                0 <= j <= s.len(),
                i <= self.elements@.len(),
                i == s.take(j).filter(pred).len(),
                self.elements@ == s.take(j).filter(pred) + s.skip(j),
                pred == not_dominated_by::<Id, PT>(criteria, *pt),
                old_len == s.len(),
            decreases self.elements@.len() - i,
        {
            proof {
                lemma_filter_step(s, j, pred);
                assert(self.elements@[i as int] == s[j]);
            }
            if pt.is_lower(&criteria, &self.elements[i].1) {
                self.elements.remove(i);
                proof {
                    assert(self.elements@ =~= s.take(j + 1).filter(pred) + s.skip(j + 1));
                    j = j + 1;
                }
            } else {
                proof {
                    assert(self.elements@ =~= s.take(j + 1).filter(pred) + s.skip(j + 1));
                    j = j + 1;
                }
                i += 1;
            }
        }
        proof {
            assert(j == s.len()) by {
                if j < s.len() {
                    assert(self.elements@.len() == s.take(j).filter(pred).len() + s.len() - j);
                }
            }
            assert(s.take(j) =~= s);
            assert(s.skip(j) =~= Seq::<(Id, PT::Criteria)>::empty());
            assert(self.elements@ =~= s.filter(pred));
        }
        let new_len = self.elements.len();
        self.elements.push((id, criteria));
        new_len < old_len
    }

    /// Adds `(id, criteria)` unless an element of the front dominates `criteria`, in which
    /// case the front is left unchanged. When added, the elements dominated by `criteria`
    /// are removed. Returns `true` if some element was removed.
    pub fn add(&mut self, id: Id, criteria: PT::Criteria, pt: &PT) -> (r: bool)
        ensures
            final(self).view() == spec_add::<Id, PT>(old(self).view(), (id, criteria), *pt),
            r == (!spec_dominates::<Id, PT>(old(self).view(), criteria, *pt) && old(self).view().filter(
                not_dominated_by::<Id, PT>(criteria, *pt),
            ).len() < old(self).view().len()),
    {
        if self.dominates(&criteria, pt) {
            return false;
        }
        let some_element_removed = self.add_unchecked(id, criteria, pt);
        some_element_removed
    }

    /// Adds a clone of each element of `other` to `self`, in order, as `add` does
    pub fn merge_with(&mut self, other: &Self, pt: &PT)
        ensures
            exists|added: Seq<(Id, PT::Criteria)>|
                #[trigger] merged_from::<Id, PT>(old(self).view(), other.view(), *pt, added, final(self).view()),
    {
        let ghost s = self.elements@;
        let ghost mut added: Seq<(Id, PT::Criteria)> = Seq::empty();
        let mut i: usize = 0;
        while i < other.elements.len()
            invariant
                i <= other.elements@.len(),
                added.len() == i,
                forall|m: int|
                    0 <= m < added.len() ==> #[trigger] pair_cloned(other.elements@[m], added[m]),
                self.elements@ == spec_merge::<Id, PT>(s, added, *pt),
            decreases other.elements@.len() - i,
        {
            let id = other.elements[i].0.clone();
            let criteria = other.elements[i].1.clone();
            proof {
                assert(cloned(other.elements@[i as int].0, id));
                assert(cloned(other.elements@[i as int].1, criteria));
            }
            let ghost before = added;
            self.add(id, criteria, pt);
            proof {
                added = added.push((id, criteria));
                assert(added.drop_last() =~= before);
                assert forall|m: int| 0 <= m < added.len() implies #[trigger] pair_cloned(
                    other.elements@[m],
                    added[m],
                ) by {
                    if m < i {
                        assert(added[m] == before[m]);
                    } else {
                        assert(m == i);
                        assert(added[m] == (id, criteria));
                    }
                }
            }
            i += 1;
        }
        proof {
            assert(other.view() == other.elements@);
            assert(added.len() == other.view().len());
            assert(s == old(self).view());
            assert(merged_from::<Id, PT>(old(self).view(), other.view(), *pt, added, self.view()));
        }
    }

    /// The elements of the front, in insertion order
    pub fn iter(&self) -> (r: std::slice::Iter<'_, (Id, PT::Criteria)>)
        ensures
            r.remaining() == self.view().as_ref(),
    {
        let slice = self.elements.as_slice();
        let r = slice.iter();
        proof {
            vstd::std_specs::slice::axiom_spec_slice_iter(slice);
        }
        r
    }
}

/// Removing elements from a Pareto front leaves a Pareto front.
proof fn lemma_filter_keeps_pareto<Id, PT: PublicTransit>(
    s: Seq<(Id, PT::Criteria)>,
    pred: spec_fn((Id, PT::Criteria)) -> bool,
    pt: PT,
)
    requires
        is_pareto::<Id, PT>(s, pt),
    ensures
        is_pareto::<Id, PT>(s.filter(pred), pt),
{
    let idx = lemma_filter_indices(s, pred);
    let f = s.filter(pred);
    assert forall|i: int, j: int|
        0 <= i < f.len() && 0 <= j < f.len() && i != j implies !pt.spec_is_lower(
        #[trigger] f[i].1,
        #[trigger] f[j].1,
    ) by {
        assert(s[idx[i]] == f[i]);
        assert(s[idx[j]] == f[j]);
        if i < j {
            assert(idx[i] < idx[j]);
        } else {
            assert(idx[j] < idx[i]);
        }
    }
}

/// Adding an element to a Pareto front, as `add` does, gives a Pareto front.
pub proof fn lemma_add_keeps_pareto<Id, PT: PublicTransit>(
    s: Seq<(Id, PT::Criteria)>,
    e: (Id, PT::Criteria),
    pt: PT,
)
    requires
        is_pareto::<Id, PT>(s, pt),
    ensures
        is_pareto::<Id, PT>(spec_add::<Id, PT>(s, e, pt), pt),
{
    if !spec_dominates::<Id, PT>(s, e.1, pt) {
        let pred = not_dominated_by::<Id, PT>(e.1, pt);
        let f = s.filter(pred);
        lemma_filter_keeps_pareto::<Id, PT>(s, pred, pt);
        lemma_filter_subset(s, pred);
        let g = f.push(e);
        assert forall|i: int, j: int|
            0 <= i < g.len() && 0 <= j < g.len() && i != j implies !pt.spec_is_lower(
            #[trigger] g[i].1,
            #[trigger] g[j].1,
        ) by {
            if i < f.len() && j < f.len() {
                assert(g[i] == f[i] && g[j] == f[j]);
            } else if i == f.len() {
                assert(g[j] == f[j]);
                assert(pred(f[j]));
            } else {
                assert(g[i] == f[i]);
                assert(s.contains(f[i]));
                let m = choose|m: int| 0 <= m < s.len() && s[m] == f[i];
                assert(!pt.spec_is_lower(s[m].1, e.1));
            }
        }
    }
}

/// Merging elements into a Pareto front, as `merge_with` does, gives a Pareto front.
pub proof fn lemma_merge_keeps_pareto<Id, PT: PublicTransit>(
    s: Seq<(Id, PT::Criteria)>,
    added: Seq<(Id, PT::Criteria)>,
    pt: PT,
)
    requires
        is_pareto::<Id, PT>(s, pt),
    ensures
        is_pareto::<Id, PT>(spec_merge::<Id, PT>(s, added, pt), pt),
    decreases added.len(),
{
    if added.len() > 0 {
        lemma_merge_keeps_pareto::<Id, PT>(s, added.drop_last(), pt);
        lemma_add_keeps_pareto::<Id, PT>(spec_merge::<Id, PT>(s, added.drop_last(), pt), added.last(), pt);
    }
}

} // verus!
