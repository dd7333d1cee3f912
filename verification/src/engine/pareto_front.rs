use vstd::prelude::*;

use crate::engine::journeys_tree::{Arrive, Board, Debark, Wait};
use crate::traits::{Request, RequestTypes};
use vstd::std_specs::iter::IteratorSpec;

verus! {

/// A set of items, each with its criteria, such that no item is dominated by another one.
pub struct ParetoFront<ItemData, T: RequestTypes> {
    pub(crate) elements: Vec<(ItemData, T::Criteria)>,
}

pub type BoardFront<T> = ParetoFront<(Board, <T as RequestTypes>::Trip), T>;

pub type DebarkFront<T> = ParetoFront<Debark, T>;

pub type WaitFront<T> = ParetoFront<Wait, T>;

pub type ArriveFront<T> = ParetoFront<Arrive, T>;

/// `true` when some element of `elements` is lower than `criteria` for `request`
pub open spec fn spec_dominates<ItemData, C, R: Request<Criteria = C>>(
    elements: Seq<(ItemData, C)>,
    criteria: C,
    request: R,
) -> bool {
    exists|i: int| 0 <= i < elements.len() && request.spec_is_lower(#[trigger] elements[i].1, criteria)
}

/// `true` when no element of `elements` is lower than another element at a different index
pub open spec fn is_pareto<ItemData, C, R: Request<Criteria = C>>(
    elements: Seq<(ItemData, C)>,
    request: R,
) -> bool {
    forall|i: int, j: int|
        0 <= i < elements.len() && 0 <= j < elements.len() && i != j ==> !request.spec_is_lower(
            #[trigger] elements[i].1,
            #[trigger] elements[j].1,
        )
}

/// The elements kept when removing those dominated by `criteria`
pub open spec fn not_dominated_by<ItemData, C, R: Request<Criteria = C>>(
    criteria: C,
    request: R,
) -> spec_fn((ItemData, C)) -> bool {
    |e: (ItemData, C)| !request.spec_is_lower(criteria, e.1)
}

/// The elements kept when removing those that can be discarded by `criteria`
pub open spec fn not_discarded_by<ItemData, C, R: Request<Criteria = C>>(
    criteria: C,
    request: R,
) -> spec_fn((ItemData, C)) -> bool {
    |e: (ItemData, C)| !request.spec_can_be_discarded(e.1, criteria)
}

/// Every item data of `s`, seen through `id`, is below `n`
pub open spec fn all_below<ItemData, C>(s: Seq<(ItemData, C)>, id: spec_fn(ItemData) -> nat, n: nat) -> bool {
    forall|k: int| 0 <= k < s.len() ==> id(#[trigger] s[k].0) < n
}

/// The ids of the item data of `s` increase strictly along `s`
pub open spec fn ids_increasing<ItemData, C>(s: Seq<(ItemData, C)>, id: spec_fn(ItemData) -> nat) -> bool {
    forall|k: int, l: int| 0 <= k < l < s.len() ==> id(#[trigger] s[k].0) < id(#[trigger] s[l].0)
}

/// Filtering, then appending an element whose id is above those of the sequence, keeps
/// the ids increasing.
pub proof fn lemma_filter_push_increasing<ItemData, C>(
    s: Seq<(ItemData, C)>,
    pred: spec_fn((ItemData, C)) -> bool,
    id: spec_fn(ItemData) -> nat,
    n: nat,
    last: (ItemData, C),
)
    requires
        ids_increasing(s, id),
        all_below(s, id, n),
        id(last.0) == n,
    ensures
        ids_increasing(s.filter(pred), id),
        ids_increasing(s.filter(pred).push(last), id),
{
    let idx = lemma_filter_indices(s, pred);
    let f = s.filter(pred);
    assert forall|k: int, l: int| 0 <= k < l < f.len() implies id(#[trigger] f[k].0) < id(#[trigger] f[l].0) by {
        assert(idx[k] < idx[l]);
        assert(s[idx[k]] == f[k] && s[idx[l]] == f[l]);
    }
    let g = f.push(last);
    assert forall|k: int, l: int| 0 <= k < l < g.len() implies id(#[trigger] g[k].0) < id(#[trigger] g[l].0) by {
        if l < f.len() {
            assert(g[k] == f[k] && g[l] == f[l]);
        } else {
            assert(g[k] == f[k]);
            assert(s[idx[k]] == f[k]);
            assert(id(s[idx[k]].0) < n);
        }
    }
}

/// Filtering keeps item data below a bound
pub proof fn lemma_filter_below<ItemData, C>(
    s: Seq<(ItemData, C)>,
    pred: spec_fn((ItemData, C)) -> bool,
    id: spec_fn(ItemData) -> nat,
    n: nat,
)
    requires
        all_below(s, id, n),
    ensures
        all_below(s.filter(pred), id, n),
        s.filter(pred).len() <= s.len(),
{
    s.lemma_filter_len(pred);
    lemma_filter_subset(s, pred);
    let f = s.filter(pred);
    assert forall|k: int| 0 <= k < f.len() implies id(#[trigger] f[k].0) < n by {
        assert(s.contains(f[k]));
        let m = choose|m: int| 0 <= m < s.len() && s[m] == f[k];
        assert(id(s[m].0) < n);
    }
}

/// One step of a filter: keeping or dropping the last element of a prefix.
pub(crate) proof fn lemma_filter_step<A>(s: Seq<A>, j: int, pred: spec_fn(A) -> bool)
    requires
        0 <= j < s.len(),
    ensures
        s.take(j + 1).filter(pred) == (if pred(s[j]) {
            s.take(j).filter(pred).push(s[j])
        } else {
            s.take(j).filter(pred)
        }),
{
    reveal(Seq::filter);
    assert(s.take(j + 1).drop_last() =~= s.take(j));
}

/// Every element of a filtered sequence is one of the elements of the sequence.
pub proof fn lemma_filter_subset<A>(s: Seq<A>, pred: spec_fn(A) -> bool)
    ensures
        forall|k: int|
            0 <= k < s.filter(pred).len() ==> s.contains(#[trigger] s.filter(pred)[k]) && pred(
                s.filter(pred)[k],
            ),
    decreases s.len(),
{
    reveal(Seq::filter);
    if s.len() > 0 {
        lemma_filter_subset(s.drop_last(), pred);
        let f = s.filter(pred);
        assert forall|k: int| 0 <= k < f.len() implies s.contains(#[trigger] f[k]) && pred(f[k]) by {
            let sub = s.drop_last().filter(pred);
            if k < sub.len() {
                assert(f[k] == sub[k]);
                assert(s.drop_last().contains(sub[k]));
                let m = choose|m: int| 0 <= m < s.drop_last().len() && s.drop_last()[m] == sub[k];
                assert(s[m] == f[k]);
            } else {
                assert(f[k] == s.last());
                assert(s[s.len() - 1] == f[k]);
            }
        }
    }
}

/// A filtered sequence keeps the relative order of the elements of the sequence:
/// it is the image of a strictly increasing map of indices.
pub(crate) proof fn lemma_filter_indices<A>(s: Seq<A>, pred: spec_fn(A) -> bool) -> (idx: Seq<int>)
    ensures
        idx.len() == s.filter(pred).len(),
        forall|k: int| 0 <= k < idx.len() ==> 0 <= #[trigger] idx[k] < s.len() && s[idx[k]] == s.filter(pred)[k],
        forall|k: int, l: int| 0 <= k < l < idx.len() ==> #[trigger] idx[k] < #[trigger] idx[l],
    decreases s.len(),
{
    reveal(Seq::filter);
    if s.len() == 0 {
        Seq::empty()
    } else {
        let sub = lemma_filter_indices(s.drop_last(), pred);
        if pred(s.last()) {
            let r = sub.push(s.len() - 1);
            assert forall|k: int| 0 <= k < r.len() implies 0 <= #[trigger] r[k] < s.len() && s[r[k]] == s.filter(pred)[k] by {
                if k < sub.len() {
                    assert(s.drop_last()[sub[k]] == s[sub[k]]);
                }
            }
            r
        } else {
            assert forall|k: int| 0 <= k < sub.len() implies 0 <= #[trigger] sub[k] < s.len() && s[sub[k]] == s.filter(pred)[k] by {
                assert(s.drop_last()[sub[k]] == s[sub[k]]);
            }
            sub
        }
    }
}

/// Removing elements from a Pareto front leaves a Pareto front.
proof fn lemma_filter_keeps_pareto<ItemData, C, R: Request<Criteria = C>>(
    s: Seq<(ItemData, C)>,
    pred: spec_fn((ItemData, C)) -> bool,
    request: R,
)
    requires
        is_pareto(s, request),
    ensures
        is_pareto(s.filter(pred), request),
{
    let idx = lemma_filter_indices(s, pred);
    let f = s.filter(pred);
    assert forall|i: int, j: int|
        0 <= i < f.len() && 0 <= j < f.len() && i != j implies !request.spec_is_lower(
        #[trigger] f[i].1,
        #[trigger] f[j].1,
    ) by {
        assert(s[idx[i]] == f[i]);
        assert(s[idx[j]] == f[j]);
        if i < j {
            assert(idx[i] < idx[j]);
        } else {
            assert(idx[j] < idx[i]);
        }
    }
}

impl<ItemData, T: RequestTypes> ParetoFront<ItemData, T> {
    /// The sequence of elements, with their criteria, in insertion order
    pub closed spec fn view(&self) -> Seq<(ItemData, T::Criteria)> {
        self.elements@
    }

    /// Creates an empty front
    pub fn new() -> (r: Self)
        ensures
            r.view() == Seq::<(ItemData, T::Criteria)>::empty(),
    {
        Self { elements: Vec::new() }
    }

    /// Exchanges the content of `self` and `other`
    pub fn replace_with(&mut self, other: &mut Self)
        ensures
            final(self).view() == old(other).view(),
            final(other).view() == old(self).view(),
    {
        std::mem::swap(&mut self.elements, &mut other.elements);
    }

    /// Number of elements in the front
    pub fn len(&self) -> (r: usize)
        ensures
            r == self.view().len(),
    {
        self.elements.len()
    }

    /// Removes all elements
    pub fn clear(&mut self)
        ensures
            final(self).view() == Seq::<(ItemData, T::Criteria)>::empty(),
    {
        self.elements.clear();
    }

    /// Removes all the elements and hands them out, in their order
    pub fn take_elements(&mut self) -> (r: Vec<(ItemData, T::Criteria)>)
        ensures
            r@ == old(self).view(),
            final(self).view() == Seq::<(ItemData, T::Criteria)>::empty(),
    {
        let mut taken: Vec<(ItemData, T::Criteria)> = Vec::new();
        std::mem::swap(&mut taken, &mut self.elements);
        taken
    }

    /// `true` when the front has no element
    pub fn is_empty(&self) -> (r: bool)
        ensures
            r == (self.view().len() == 0),
    {
        self.elements.is_empty()
    }

    /// `true` when some element of the front is lower than `criteria`
    pub fn dominates<R: Request<Criteria = T::Criteria>>(
        &self,
        criteria: &T::Criteria,
        request: &R,
    ) -> (r: bool)
        ensures
            r == spec_dominates(self.view(), *criteria, *request),
    {
        let mut i: usize = 0;
        while i < self.elements.len()
            invariant
                i <= self.elements@.len(),
                forall|k: int|
                    0 <= k < i ==> !request.spec_is_lower(#[trigger] self.elements@[k].1, *criteria),
            decreases self.elements@.len() - i,
        {
            if request.is_lower(&self.elements[i].1, criteria) {
                return true;
            }
            i += 1;
        }
        false
    }

    /// Adds an element without any check
    pub fn add_unchecked(&mut self, item_data: ItemData, criteria: T::Criteria)
        ensures
            final(self).view() == old(self).view().push((item_data, criteria)),
    {
        self.elements.push((item_data, criteria));
    }

    /// Removes the elements `e` such that `is_lower(criteria, e)`, keeping the order of the others
    pub fn remove_elements_dominated_by<R: Request<Criteria = T::Criteria>>(
        &mut self,
        criteria: &T::Criteria,
        request: &R,
    )
        ensures
            final(self).view() == old(self).view().filter(
                not_dominated_by::<ItemData, T::Criteria, R>(*criteria, *request),
            ),
    {
        let ghost pred = not_dominated_by::<ItemData, T::Criteria, R>(*criteria, *request);
        let ghost s = self.elements@;
        let mut i: usize = 0;
        let ghost mut j: int = 0;
        while i < self.elements.len()
            invariant
                0 <= j <= s.len(),
                i <= self.elements@.len(),
                i == s.take(j).filter(pred).len(),
                self.elements@ == s.take(j).filter(pred) + s.skip(j),
                pred == not_dominated_by::<ItemData, T::Criteria, R>(*criteria, *request),
            decreases self.elements@.len() - i,
        {
            proof {
                lemma_filter_step(s, j, pred);
                assert(self.elements@[i as int] == s[j]);
            }
            if request.is_lower(criteria, &self.elements[i].1) {
                let ghost before = self.elements@;
                self.elements.remove(i);
                proof {
                    assert(self.elements@ =~= s.take(j + 1).filter(pred) + s.skip(j + 1));
                    j = j + 1;
                }
            } else {
                proof {
                    assert(self.elements@ =~= s.take(j + 1).filter(pred) + s.skip(j + 1));
                    j = j + 1;
                }
                i += 1;
            }
        }
        proof {
            assert(j == s.len()) by {
                if j < s.len() {
                    assert(self.elements@.len() == s.take(j).filter(pred).len() + s.len() - j);
                }
            }
            assert(s.take(j) =~= s);
            assert(s.skip(j) =~= Seq::<(ItemData, T::Criteria)>::empty());
            assert(self.elements@ =~= s.filter(pred));
        }
    }

    /// Removes the elements `e` such that `can_be_discarded(e, criteria)`, keeping the order of the others
    pub fn remove_elements_that_can_be_discarded_by<R: Request<Criteria = T::Criteria>>(
        &mut self,
        criteria: &T::Criteria,
        request: &R,
    )
        ensures
            final(self).view() == old(self).view().filter(
                not_discarded_by::<ItemData, T::Criteria, R>(*criteria, *request),
            ),
    {
        let ghost pred = not_discarded_by::<ItemData, T::Criteria, R>(*criteria, *request);
        let ghost s = self.elements@;
        let mut i: usize = 0;
        let ghost mut j: int = 0;
        while i < self.elements.len()
            invariant
                0 <= j <= s.len(),
                i <= self.elements@.len(),
                i == s.take(j).filter(pred).len(),
                self.elements@ == s.take(j).filter(pred) + s.skip(j),
                pred == not_discarded_by::<ItemData, T::Criteria, R>(*criteria, *request),
            decreases self.elements@.len() - i,
        {
            proof {
                lemma_filter_step(s, j, pred);
                assert(self.elements@[i as int] == s[j]);
            }
            if request.can_be_discarded(&self.elements[i].1, criteria) {
                self.elements.remove(i);
                proof {
                    assert(self.elements@ =~= s.take(j + 1).filter(pred) + s.skip(j + 1));
                    j = j + 1;
                }
            } else {
                proof {
                    assert(self.elements@ =~= s.take(j + 1).filter(pred) + s.skip(j + 1));
                    j = j + 1;
                }
                i += 1;
            }
        }
        proof {
            assert(j == s.len()) by {
                if j < s.len() {
                    assert(self.elements@.len() == s.take(j).filter(pred).len() + s.len() - j);
                }
            }
            assert(s.take(j) =~= s);
            assert(s.skip(j) =~= Seq::<(ItemData, T::Criteria)>::empty());
            assert(self.elements@ =~= s.filter(pred));
        }
    }

    /// Removes the elements dominated by `criteria`, then adds `(item_data, criteria)`
    pub fn add_and_remove_elements_dominated<R: Request<Criteria = T::Criteria>>(
        &mut self,
        item_data: ItemData,
        criteria: T::Criteria,
        request: &R,
    )
        ensures
            final(self).view() == old(self).view().filter(
                not_dominated_by::<ItemData, T::Criteria, R>(criteria, *request),
            ).push((item_data, criteria)),
    {
        self.remove_elements_dominated_by(&criteria, request);
        self.add_unchecked(item_data, criteria);
    }

    /// Adds `(item_data, criteria)` unless an element of the front dominates `criteria`,
    /// in which case the front is left unchanged. When added, the elements dominated by
    /// `criteria` are removed.
    pub fn add<R: Request<Criteria = T::Criteria>>(
        &mut self,
        item_data: ItemData,
        criteria: T::Criteria,
        request: &R,
    )
        ensures
            spec_dominates(old(self).view(), criteria, *request) ==> final(self).view() == old(
                self,
            ).view(),
            !spec_dominates(old(self).view(), criteria, *request) ==> final(self).view() == old(
                self,
            ).view().filter(not_dominated_by::<ItemData, T::Criteria, R>(criteria, *request)).push(
                (item_data, criteria),
            ),
            final(self).view() == added(old(self).view(), item_data, criteria, *request),
    {
        if self.dominates(&criteria, request) {
            return ;
        }
        self.remove_elements_dominated_by(&criteria, request);
        self.add_unchecked(item_data, criteria);
    }

    /// The elements of the front, in insertion order
    pub fn iter(&self) -> (r: std::slice::Iter<'_, (ItemData, T::Criteria)>)
        ensures
            r.remaining() == self.view().as_ref(),
    {
        let slice = self.elements.as_slice();
        let r = slice.iter();
        proof {
            vstd::std_specs::slice::axiom_spec_slice_iter(slice);
        }
        r
    }
}

/// The view of a front is the sequence of its stored elements
pub(crate) broadcast proof fn lemma_view_is_elements<ItemData, T: RequestTypes>(
    front: &ParetoFront<ItemData, T>,
)
    ensures
        #[trigger] front.view() == front.elements@,
{
}

/// `is_lower` is a preorder on the criteria of `request`: every criteria is lower than
/// itself, and lower than what a criteria above it is lower than.
pub open spec fn is_preorder<C, R: Request<Criteria = C>>(request: R) -> bool {
    &&& forall|c: C| #[trigger] request.spec_is_lower(c, c)
    &&& forall|a: C, b: C, c: C|
        #[trigger] request.spec_is_lower(a, b) && #[trigger] request.spec_is_lower(b, c) ==> request.spec_is_lower(a, c)
}

/// The front `front` once `(item_data, criteria)` is added to it as `add` does
pub open spec fn added<ItemData, C, R: Request<Criteria = C>>(
    front: Seq<(ItemData, C)>,
    item_data: ItemData,
    criteria: C,
    request: R,
) -> Seq<(ItemData, C)> {
    if spec_dominates(front, criteria, request) {
        front
    } else {
        front.filter(not_dominated_by::<ItemData, C, R>(criteria, request)).push((item_data, criteria))
    }
}

/// The front `front` once the elements of `items` are added to it in their order
pub open spec fn added_all<ItemData, C, R: Request<Criteria = C>>(
    front: Seq<(ItemData, C)>,
    items: Seq<(ItemData, C)>,
    request: R,
) -> Seq<(ItemData, C)>
    decreases items.len(),
{
    if items.len() == 0 {
        front
    } else {
        let before = added_all(front, items.drop_last(), request);
        added(before, items.last().0, items.last().1, request)
    }
}

/// When `is_lower` is a preorder, nothing added to a front is lost: once `criteria` is
/// added, the front dominates it, and it still dominates every criteria it dominated
/// before, an element being removed only for a lower one.
pub proof fn lemma_added_dominates<ItemData, C, R: Request<Criteria = C>>(
    front: Seq<(ItemData, C)>,
    item_data: ItemData,
    criteria: C,
    other: C,
    request: R,
)
    requires
        is_preorder(request),
    ensures
        spec_dominates(added(front, item_data, criteria, request), criteria, request),
        spec_dominates(front, other, request) ==> spec_dominates(
            added(front, item_data, criteria, request),
            other,
            request,
        ),
{
    if !spec_dominates(front, criteria, request) {
        let pred = not_dominated_by::<ItemData, C, R>(criteria, request);
        let f = front.filter(pred);
        let g = f.push((item_data, criteria));
        assert(request.spec_is_lower(criteria, criteria));
        assert(g[f.len() as int] == (item_data, criteria));
        assert(request.spec_is_lower(g[f.len() as int].1, criteria));
        assert(spec_dominates(g, criteria, request));
        if spec_dominates(front, other, request) {
            let i = choose|i: int| 0 <= i < front.len() && request.spec_is_lower(#[trigger] front[i].1, other);
            if pred(front[i]) {
                front.lemma_filter_contains(pred, i);
                let k = choose|k: int| 0 <= k < f.len() && f[k] == front[i];
                assert(g[k] == front[i]);
                assert(request.spec_is_lower(g[k].1, other));
            } else {
                assert(request.spec_is_lower(criteria, front[i].1));
                assert(request.spec_is_lower(criteria, other));
                assert(request.spec_is_lower(g[f.len() as int].1, other));
            }
            assert(spec_dominates(g, other, request));
        }
    }
}

/// When `is_lower` is a preorder, a front to which `items` are added in their order
/// dominates, at the end, each of them and every criteria it dominated at the start.
pub proof fn lemma_added_all_dominates<ItemData, C, R: Request<Criteria = C>>(
    front: Seq<(ItemData, C)>,
    items: Seq<(ItemData, C)>,
    other: C,
    request: R,
)
    requires
        is_preorder(request),
    ensures
        forall|k: int|
            0 <= k < items.len() ==> spec_dominates(added_all(front, items, request), #[trigger] items[k].1, request),
        spec_dominates(front, other, request) ==> spec_dominates(added_all(front, items, request), other, request),
    decreases items.len(),
{
    if items.len() > 0 {
        let rest = items.drop_last();
        let before = added_all(front, rest, request);
        let last = items.last();
        lemma_added_all_dominates(front, rest, other, request);
        lemma_added_dominates(before, last.0, last.1, other, request);
        assert forall|k: int| 0 <= k < items.len() implies spec_dominates(
            added_all(front, items, request),
            #[trigger] items[k].1,
            request,
        ) by {
            if k < rest.len() {
                assert(rest[k] == items[k]);
                lemma_added_all_dominates(front, rest, items[k].1, request);
                lemma_added_dominates(before, last.0, last.1, items[k].1, request);
            }
        }
    }
}

/// Adding to a Pareto front with `add` gives a Pareto front.
pub proof fn lemma_add_keeps_pareto<ItemData, C, R: Request<Criteria = C>>(
    front: Seq<(ItemData, C)>,
    item_data: ItemData,
    criteria: C,
    request: R,
)
    requires
        is_pareto(front, request),
    ensures
        !spec_dominates(front, criteria, request) ==> is_pareto(
            front.filter(not_dominated_by::<ItemData, C, R>(criteria, request)).push(
                (item_data, criteria),
            ),
            request,
        ),
{
    if !spec_dominates(front, criteria, request) {
        lemma_remove_then_push_keeps_pareto(front, item_data, criteria, request);
    }
}

/// Removing the elements dominated by `criteria`, then pushing `criteria`, keeps a Pareto
/// front a Pareto front, provided no element of the front dominates `criteria`.
pub proof fn lemma_remove_then_push_keeps_pareto<ItemData, C, R: Request<Criteria = C>>(
    front: Seq<(ItemData, C)>,
    item_data: ItemData,
    criteria: C,
    request: R,
)
    requires
        is_pareto(front, request),
        !spec_dominates(front, criteria, request),
    ensures
        is_pareto(
            front.filter(not_dominated_by::<ItemData, C, R>(criteria, request)).push(
                (item_data, criteria),
            ),
            request,
        ),
{
    let pred = not_dominated_by::<ItemData, C, R>(criteria, request);
    let f = front.filter(pred);
    lemma_filter_keeps_pareto(front, pred, request);
    lemma_filter_subset(front, pred);
    let g = f.push((item_data, criteria));
    assert forall|i: int, j: int|
        0 <= i < g.len() && 0 <= j < g.len() && i != j implies !request.spec_is_lower(
        #[trigger] g[i].1,
        #[trigger] g[j].1,
    ) by {
        if i < f.len() && j < f.len() {
            assert(g[i] == f[i] && g[j] == f[j]);
        } else if i == f.len() {
            assert(g[j] == f[j]);
            assert(pred(f[j]));
        } else {
            assert(g[i] == f[i]);
            assert(front.contains(f[i]));
            let m = choose|m: int| 0 <= m < front.len() && front[m] == f[i];
            assert(!request.spec_is_lower(front[m].1, criteria));
        }
    }
}

} // verus!
