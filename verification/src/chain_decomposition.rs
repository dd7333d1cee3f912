use vstd::prelude::*;

verus! {

/// Two vectors of the same length are comparable when one of them is lower than or equal
/// to the other at every position.
pub open spec fn comparable(a: Seq<u32>, b: Seq<u32>) -> bool {
    ||| forall|p: int| 0 <= p < a.len() ==> #[trigger] a[p] <= b[p]
    ||| forall|p: int| 0 <= p < a.len() ==> #[trigger] b[p] <= a[p]
}

/// The items of a chain are pairwise comparable.
pub open spec fn is_chain<Id>(items: Seq<(Id, Seq<u32>)>) -> bool {
    forall|i: int, j: int|
        0 <= i < items.len() && 0 <= j < items.len() ==> comparable(
            #[trigger] items[i].1,
            #[trigger] items[j].1,
        )
}

/// `a` is lower than or equal to `b` at every position of `a`.
pub open spec fn lower_or_equal(a: Seq<u32>, b: Seq<u32>) -> bool {
    forall|p: int| 0 <= p < a.len() ==> #[trigger] a[p] <= b[p]
}

/// Every item holds `n` values.
pub open spec fn all_of_len<Id>(items: Seq<(Id, Seq<u32>)>, n: nat) -> bool {
    forall|i: int| 0 <= i < items.len() ==> (#[trigger] items[i]).1.len() == n
}

/// The index of the first item of `items`, from `i` on, whose values are greater than or
/// equal to `values` at every position; `items.len()` when there is none.
pub open spec fn first_at_least<Id>(items: Seq<(Id, Seq<u32>)>, values: Seq<u32>, i: int) -> int
    decreases items.len() - i,
{
    if i < 0 || i >= items.len() {
        items.len() as int
    } else if lower_or_equal(values, items[i].1) {
        i
    } else {
        first_at_least(items, values, i + 1)
    }
}

/// Where `values` goes in the chain `items` so that it stays sorted: just before the first
/// item that is greater than or equal to it at every position, or at the end when there is
/// none.
pub open spec fn insertion_index<Id>(items: Seq<(Id, Seq<u32>)>, values: Seq<u32>) -> int {
    first_at_least(items, values, 0)
}

/// The first item at least `values`, from `i` on, is between `i` and the end, and no item
/// between `i` and it is at least `values`.
pub proof fn lemma_first_at_least<Id>(items: Seq<(Id, Seq<u32>)>, values: Seq<u32>, i: int)
    requires
        0 <= i <= items.len(),
    ensures
        i <= first_at_least(items, values, i) <= items.len(),
        forall|j: int|
            i <= j < first_at_least(items, values, i) ==> !lower_or_equal(values, #[trigger] items[j].1),
        first_at_least(items, values, i) < items.len() ==> lower_or_equal(
            values,
            items[first_at_least(items, values, i)].1,
        ),
    decreases items.len() - i,
{
    if i < items.len() {
        lemma_first_at_least(items, values, i + 1);
    }
}

/// At each of the first `nb_positions` positions, the values of the vectors `items` do not
/// decrease from one vector to the next.
pub open spec fn positions_sorted<Id>(items: Seq<(Id, Seq<u32>)>, nb_positions: nat) -> bool {
    forall|p: int, k: int, l: int|
        #![trigger items[k].1[p], items[l].1[p]]
        0 <= p < nb_positions && 0 <= k && l == k + 1 && l < items.len() ==> items[k].1[p] <= items[l].1[p]
}

/// A chain: vectors of values, each with its id, that are pairwise comparable.
pub struct Chain<Id> {
    ids: Vec<Id>,
    values_by_position: Vec<Vec<u32>>,
}

/// A set of vectors of values, each with its id, split into chains of pairwise comparable
/// vectors.
pub struct ChainDecomposition<Id> {
    nb_of_positions: usize,
    chains: Vec<Chain<Id>>,
}

impl<Id> Chain<Id> {
    /// The number of values of each vector
    pub closed spec fn nb_positions(&self) -> nat {
        self.values_by_position@.len()
    }

    /// The values of the vector stored at index `k`
    pub closed spec fn values_of(&self, k: int) -> Seq<u32> {
        Seq::new(self.values_by_position@.len(), |p: int| self.values_by_position@[p]@[k])
    }

    /// The vectors of the chain, each with its id, in storage order
    pub closed spec fn view(&self) -> Seq<(Id, Seq<u32>)> {
        Seq::new(self.ids@.len(), |k: int| (self.ids@[k], self.values_of(k)))
    }

    /// Each position holds one value per vector, and there is at least one position.
    pub closed spec fn wf(&self) -> bool {
        &&& self.values_by_position@.len() >= 1
        &&& forall|p: int|
            0 <= p < self.values_by_position@.len() ==> (#[trigger] self.values_by_position@[p])@.len()
                == self.ids@.len()
    }

    /// The vectors of a well-formed chain all hold `nb_positions` values.
    pub proof fn lemma_view_lengths(&self)
        requires
            self.wf(),
        ensures
            all_of_len(self.view(), self.nb_positions()),
            self.nb_positions() >= 1,
    {
    }

    /// The values of the vector stored at index `id_idx`, position after position
    pub fn id_values(&self, id_idx: usize) -> (r: Vec<u32>)
        requires
            self.wf(),
            id_idx < self.view().len(),
        ensures
            r@ == self.view()[id_idx as int].1,
    {
        let mut r: Vec<u32> = Vec::new();
        let mut p: usize = 0;
        while p < self.values_by_position.len()
            invariant
                self.wf(),
                id_idx < self.ids@.len(),
                p <= self.values_by_position@.len(),
                r@ == self.values_of(id_idx as int).take(p as int),
            decreases self.values_by_position@.len() - p,
        {
            r.push(self.values_by_position[p][id_idx]);
            p += 1;
            assert(r@ =~= self.values_of(id_idx as int).take(p as int));
        }
        assert(r@ =~= self.values_of(id_idx as int));
        r
    }

    /// `true` when, at each position, the values of the vectors do not decrease from one
    /// vector to the next, in storage order
    pub fn is_sorted(&self) -> (r: bool)
        requires
            self.wf(),
            self.view().len() > 0,
        ensures
            r == positions_sorted(self.view(), self.nb_positions()),
    {
        let nb_of_ids = self.ids.len();
        let mut p: usize = 0;
        while p < self.values_by_position.len()
            invariant
                self.wf(),
                nb_of_ids == self.ids@.len() > 0,
                p <= self.values_by_position@.len(),
                positions_sorted(self.view(), p as nat),
            decreases self.values_by_position@.len() - p,
        {
            let pos_values = &self.values_by_position[p];
            let mut i: usize = 0;
            while i < nb_of_ids - 1
                invariant
                    self.wf(),
                    nb_of_ids == self.ids@.len() > 0,
                    p < self.values_by_position@.len(),
                    *pos_values == self.values_by_position@[p as int],
                    i <= nb_of_ids - 1,
                    positions_sorted(self.view(), p as nat),
                    forall|k: int| 0 <= k < i ==> #[trigger] pos_values@[k] <= pos_values@[k + 1],
                decreases nb_of_ids - 1 - i,
            {
                if pos_values[i] > pos_values[i + 1] {
                    assert(self.view()[i as int].1[p as int] > self.view()[i + 1].1[p as int]);
                    return false;
                }
                i += 1;
            }
            p += 1;
            assert forall|q: int, k: int, l: int|
                0 <= q < p && 0 <= k && l == k + 1 && l < self.view().len() implies #[trigger] self.view()[k].1[q]
                    <= #[trigger] self.view()[l].1[q] by {
                if q == p - 1 {
                    assert(pos_values@[k] <= pos_values@[k + 1]);
                }
            }
        }
        true
    }

    /// An empty chain for vectors of `nb_of_positions` values
    pub fn new(nb_of_positions: usize) -> (r: Self)
        requires
            nb_of_positions >= 1,
        ensures
            r.wf(),
            r.nb_positions() == nb_of_positions,
            r.view() == Seq::<(Id, Seq<u32>)>::empty(),
    {
        let mut values_by_position: Vec<Vec<u32>> = Vec::new();
        let mut p: usize = 0;
        while p < nb_of_positions
            invariant
                p <= nb_of_positions,
                values_by_position@.len() == p,
                forall|q: int| 0 <= q < p ==> (#[trigger] values_by_position@[q])@.len() == 0,
            decreases nb_of_positions - p,
        {
            values_by_position.push(Vec::new());
            p += 1;
        }
        let r = Chain { ids: Vec::new(), values_by_position };
        assert(r.view() =~= Seq::<(Id, Seq<u32>)>::empty());
        r
    }

    /// The number of values of each vector
    pub fn nb_of_positions(&self) -> (r: usize)
        ensures
            r == self.nb_positions(),
    {
        self.values_by_position.len()
    }

    /// `true` when `values` is comparable with the vector stored at `k`
    fn is_comparable_with(&self, k: usize, values: &[u32]) -> (r: bool)
        requires
            self.wf(),
            k < self.ids@.len(),
            values@.len() == self.nb_positions(),
        ensures
            r == comparable(values@, self.values_of(k as int)),
    {
        let ghost item = self.values_of(k as int);
        let mut all_lower = true;
        let mut all_greater = true;
        let mut p: usize = 0;
        while p < values.len()
            invariant
                self.wf(),
                k < self.ids@.len(),
                values@.len() == self.nb_positions(),
                item == self.values_of(k as int),
                p <= values@.len(),
                all_lower == forall|q: int| 0 <= q < p ==> #[trigger] values@[q] <= item[q],
                all_greater == forall|q: int| 0 <= q < p ==> #[trigger] item[q] <= values@[q],
            decreases values@.len() - p,
        {
            let v = self.values_by_position[p][k];
            assert(v == item[p as int]);
            if values[p] > v {
                all_lower = false;
            }
            if values[p] < v {
                all_greater = false;
            }
            p += 1;
        }
        all_lower || all_greater
    }

    /// `true` when `values` is comparable with every vector of the chain: lower than or
    /// equal to it at every position, or greater than or equal to it at every position.
    pub fn accept(&self, values: &[u32]) -> (r: bool)
        requires
            self.wf(),
            values@.len() == self.nb_positions(),
        ensures
            r == forall|k: int| 0 <= k < self.view().len() ==> comparable(values@, #[trigger] self.view()[k].1),
    {
        let mut k: usize = 0;
        while k < self.ids.len()
            invariant
                self.wf(),
                values@.len() == self.nb_positions(),
                k <= self.ids@.len(),
                forall|j: int| 0 <= j < k ==> comparable(values@, #[trigger] self.view()[j].1),
            decreases self.ids@.len() - k,
        {
            if !self.is_comparable_with(k, values) {
                assert(!comparable(values@, self.view()[k as int].1));
                return false;
            }
            k += 1;
        }
        true
    }

    /// `true` when `values` is lower than or equal to the vector stored at `k` at every
    /// position
    fn is_at_most(&self, k: usize, values: &[u32]) -> (r: bool)
        requires
            self.wf(),
            k < self.ids@.len(),
            values@.len() == self.nb_positions(),
        ensures
            r == lower_or_equal(values@, self.view()[k as int].1),
    {
        let ghost item = self.values_of(k as int);
        let mut p: usize = 0;
        while p < values.len()
            invariant
                self.wf(),
                k < self.ids@.len(),
                values@.len() == self.nb_positions(),
                item == self.values_of(k as int),
                p <= values@.len(),
                forall|q: int| 0 <= q < p ==> #[trigger] values@[q] <= item[q],
            decreases values@.len() - p,
        {
            let v = self.values_by_position[p][k];
            assert(v == item[p as int]);
            if values[p] > v {
                return false;
            }
            p += 1;
        }
        true
    }

    /// Inserts `values`, with its `id`, just before the first vector that is greater than or
    /// equal to it at every position, or at the end when there is none: when the chain
    /// accepts `values`, sorted positions stay sorted, and a chain stays a chain.
    pub fn insert(&mut self, values: &[u32], id: Id)
        requires
            old(self).wf(),
            values@.len() == old(self).nb_positions(),
        ensures
            final(self).wf(),
            final(self).nb_positions() == old(self).nb_positions(),
            final(self).view() == old(self).view().insert(insertion_index(old(self).view(), values@), (id, values@)),
            positions_sorted(old(self).view(), old(self).nb_positions()) && accepts(old(self).view(), values@)
                ==> positions_sorted(final(self).view(), final(self).nb_positions()),
            is_chain(old(self).view()) && accepts(old(self).view(), values@) ==> is_chain(final(self).view()),
    {
        let ghost old_view = self.view();
        let nb_of_ids = self.ids.len();
        let mut k: usize = 0;
        while k < nb_of_ids && !self.is_at_most(k, values)
            invariant
                self.wf(),
                self == old(self),
                old_view == self.view(),
                values@.len() == self.nb_positions(),
                nb_of_ids == self.ids@.len(),
                k <= nb_of_ids,
                first_at_least(old_view, values@, 0) == first_at_least(old_view, values@, k as int),
            decreases nb_of_ids - k,
        {
            k += 1;
        }
        proof {
            if k < nb_of_ids {
                assert(first_at_least(old_view, values@, k as int) == k);
            }
            assert(k == insertion_index(old_view, values@));
            lemma_first_at_least(old_view, values@, 0);
            self.lemma_view_lengths();
            if positions_sorted(old_view, self.nb_positions()) && accepts(old_view, values@) {
                lemma_insert_keeps_sorted(old_view, k as int, (id, values@), self.nb_positions());
            }
            if is_chain(old_view) && accepts(old_view, values@) {
                lemma_insert_accepted_keeps_chain(old_view, k as int, (id, values@), self.nb_positions());
            }
        }
        let nb_of_positions = self.values_by_position.len();
        let mut pos: usize = 0;
        while pos < nb_of_positions
            invariant
                nb_of_positions == self.values_by_position@.len(),
                nb_of_positions == old(self).values_by_position@.len(),
                nb_of_positions >= 1,
                values@.len() == nb_of_positions,
                pos <= nb_of_positions,
                self.ids == old(self).ids,
                k <= self.ids@.len(),
                forall|p: int|
                    0 <= p < pos ==> (#[trigger] self.values_by_position@[p])@ == old(
                        self,
                    ).values_by_position@[p]@.insert(k as int, values@[p]),
                forall|p: int|
                    pos <= p < nb_of_positions ==> (#[trigger] self.values_by_position@[p])@ == old(
                        self,
                    ).values_by_position@[p]@,
                forall|p: int|
                    0 <= p < nb_of_positions ==> (#[trigger] old(self).values_by_position@[p])@.len()
                        == self.ids@.len(),
            decreases nb_of_positions - pos,
        {
            self.values_by_position[pos].insert(k, values[pos]);
            pos += 1;
        }
        self.ids.insert(k, id);
        proof {
            let new_view = self.view();
            assert forall|j: int| 0 <= j < new_view.len() implies #[trigger] new_view[j] == old_view.insert(
                k as int,
                (id, values@),
            )[j] by {
                if j < k {
                    assert(new_view[j].1 =~= old_view[j].1);
                } else if j == k {
                    assert(new_view[j].1 =~= values@);
                } else {
                    assert(new_view[j].1 =~= old_view[j - 1].1);
                }
            }
            assert(new_view =~= old_view.insert(k as int, (id, values@)));
        }
    }
}

impl<Id> ChainDecomposition<Id> {
    /// The number of values of each vector
    pub closed spec fn nb_positions(&self) -> nat {
        self.nb_of_positions as nat
    }

    /// The chains, each as the sequence of its vectors with their ids
    pub closed spec fn view(&self) -> Seq<Seq<(Id, Seq<u32>)>> {
        Seq::new(self.chains@.len(), |c: int| self.chains@[c].view())
    }

    /// Each chain is well formed, holds vectors of `nb_positions` values, is sorted at
    /// every position and holds pairwise comparable vectors.
    pub closed spec fn wf(&self) -> bool {
        forall|c: int|
            0 <= c < self.chains@.len() ==> {
                &&& (#[trigger] self.chains@[c]).wf()
                &&& self.chains@[c].nb_positions() == self.nb_of_positions
                &&& is_chain(self.chains@[c].view())
                &&& positions_sorted(self.chains@[c].view(), self.nb_of_positions as nat)
            }
    }

    /// What a well-formed decomposition states of its chains
    pub proof fn lemma_wf_chains(&self)
        requires
            self.wf(),
        ensures
            forall|c: int|
                0 <= c < self.view().len() ==> {
                    &&& all_of_len(#[trigger] self.view()[c], self.nb_positions())
                    &&& is_chain(self.view()[c])
                    &&& positions_sorted(self.view()[c], self.nb_positions())
                },
    {
        assert forall|c: int| 0 <= c < self.view().len() implies {
            &&& all_of_len(#[trigger] self.view()[c], self.nb_positions())
            &&& is_chain(self.view()[c])
            &&& positions_sorted(self.view()[c], self.nb_positions())
        } by {
            self.chains@[c].lemma_view_lengths();
        }
    }

    /// An empty decomposition for vectors of `nb_of_positions` values
    pub fn new(nb_of_positions: usize) -> (r: Self)
        ensures
            r.wf(),
            r.nb_positions() == nb_of_positions,
            r.view() == Seq::<Seq<(Id, Seq<u32>)>>::empty(),
    {
        let r = Self { nb_of_positions, chains: Vec::new() };
        assert(r.view() =~= Seq::<Seq<(Id, Seq<u32>)>>::empty());
        r
    }

    /// Inserts `values`, with its `id`, in the first chain that accepts it, or in a new
    /// chain at the end when none does.
    pub fn insert(&mut self, values: &[u32], id: Id)
        requires
            old(self).wf(),
            values@.len() == old(self).nb_positions(),
            old(self).nb_positions() >= 1,
        ensures
            final(self).wf(),
            final(self).nb_positions() == old(self).nb_positions(),
            forall|c: int|
                #[trigger] first_accepting(old(self).view(), values@, c) ==> final(self).view()
                    == old(self).view().update(
                    c,
                    old(self).view()[c].insert(insertion_index(old(self).view()[c], values@), (id, values@)),
                ),
            (forall|c: int| 0 <= c < old(self).view().len() ==> !accepts(#[trigger] old(self).view()[c], values@))
                ==> final(self).view() == old(self).view().push(seq![(id, values@)]),
    {
        let ghost old_view = self.view();
        let mut c: usize = 0;
        while c < self.chains.len()
            invariant
                self == old(self),
                old_view == self.view(),
                self.wf(),
                values@.len() == self.nb_positions(),
                c <= self.chains@.len(),
                forall|d: int| 0 <= d < c ==> !accepts(#[trigger] old_view[d], values@),
            decreases self.chains@.len() - c,
        {
            assert(old_view[c as int] == self.chains@[c as int].view());
            if self.chains[c].accept(values) {
                let ghost before = self.chains@[c as int];
                self.chains[c].insert(values, id);
                proof {
                    let after = self.chains@[c as int];
                    assert forall|d: int| 0 <= d < self.chains@.len() && d != c implies #[trigger] self.view()[d]
                        == old_view[d] by {
                        assert(self.chains@[d] == old(self).chains@[d]);
                    }
                    assert(self.view() =~= old_view.update(c as int, after.view()));
                    assert forall|e: int| #[trigger] first_accepting(old_view, values@, e) implies e == c by {
                        if e < c {
                        } else if e > c {
                            assert(!accepts(old_view[c as int], values@));
                        }
                    }
                    assert forall|e: int| 0 <= e < self.chains@.len() implies {
                        &&& (#[trigger] self.chains@[e]).wf()
                        &&& self.chains@[e].nb_positions() == self.nb_of_positions
                        &&& is_chain(self.chains@[e].view())
                        &&& positions_sorted(self.chains@[e].view(), self.nb_of_positions as nat)
                    } by {
                        if e != c {
                            assert(self.chains@[e] == old(self).chains@[e]);
                        }
                    }
                }
                return;
            }
            c += 1;
        }
        let mut new_chain = Chain::new(self.nb_of_positions);
        new_chain.insert(values, id);
        proof {
            assert(new_chain.view() =~= seq![(id, values@)]);
            assert(comparable(values@, values@));
        }
        self.chains.push(new_chain);
        proof {
            assert(self.view() =~= old_view.push(seq![(id, values@)]));
            assert forall|e: int| #[trigger] first_accepting(old_view, values@, e) implies false by {
                assert(!accepts(old_view[e], values@));
            }
            assert forall|e: int| 0 <= e < self.chains@.len() implies {
                &&& (#[trigger] self.chains@[e]).wf()
                &&& self.chains@[e].nb_positions() == self.nb_of_positions
                &&& is_chain(self.chains@[e].view())
                &&& positions_sorted(self.chains@[e].view(), self.nb_of_positions as nat)
            } by {
                if e < old_view.len() {
                    assert(self.chains@[e] == old(self).chains@[e]);
                }
            }
        }
    }
}

/// `values` is comparable with every vector of the chain `items`.
pub open spec fn accepts<Id>(items: Seq<(Id, Seq<u32>)>, values: Seq<u32>) -> bool {
    forall|k: int| 0 <= k < items.len() ==> comparable(values, #[trigger] items[k].1)
}

/// `c` is the first chain of `chains` that accepts `values`.
pub open spec fn first_accepting<Id>(chains: Seq<Seq<(Id, Seq<u32>)>>, values: Seq<u32>, c: int) -> bool {
    &&& 0 <= c < chains.len()
    &&& accepts(chains[c], values)
    &&& forall|d: int| 0 <= d < c ==> !accepts(#[trigger] chains[d], values)
}

/// Inserting anywhere in a chain a vector comparable with every vector of the chain gives
/// a chain.
pub proof fn lemma_insert_accepted_keeps_chain<Id>(
    before: Seq<(Id, Seq<u32>)>,
    k: int,
    item: (Id, Seq<u32>),
    n: nat,
)
    requires
        0 <= k <= before.len(),
        all_of_len(before, n),
        item.1.len() == n,
        is_chain(before),
        accepts(before, item.1),
    ensures
        all_of_len(before.insert(k, item), n),
        is_chain(before.insert(k, item)),
{
    let after = before.insert(k, item);
    assert forall|i: int| 0 <= i < after.len() implies (#[trigger] after[i]).1.len() == n by {
        if i > k {
            assert(after[i] == before[i - 1]);
        }
    }
    assert forall|i: int, j: int|
        0 <= i < after.len() && 0 <= j < after.len() implies comparable(
        #[trigger] after[i].1,
        #[trigger] after[j].1,
    ) by {
        let bi = if i < k { i } else { i - 1 };
        let bj = if j < k { j } else { j - 1 };
        if i != k && j != k {
            assert(after[i] == before[bi] && after[j] == before[bj]);
            assert(comparable(before[bi].1, before[bj].1));
        } else if i == k && j != k {
            assert(after[j] == before[bj]);
            assert(comparable(item.1, before[bj].1));
        } else if i != k && j == k {
            assert(after[i] == before[bi]);
            assert(comparable(item.1, before[bi].1));
            let a = item.1;
            let b = before[bi].1;
            assert(b.len() == a.len());
            if forall|p: int| 0 <= p < a.len() ==> #[trigger] a[p] <= b[p] {
                assert forall|p: int| 0 <= p < b.len() implies #[trigger] a[p] <= b[p] by {}
            } else {
                assert forall|p: int| 0 <= p < b.len() implies #[trigger] b[p] <= a[p] by {}
            }
        }
    }
}

/// Inserting a vector comparable with every vector of a chain sorted at every position,
/// just before the first vector that is greater than or equal to it at every position,
/// gives a chain sorted at every position.
pub proof fn lemma_insert_keeps_sorted<Id>(before: Seq<(Id, Seq<u32>)>, k: int, item: (Id, Seq<u32>), n: nat)
    requires
        all_of_len(before, n),
        item.1.len() == n,
        positions_sorted(before, n),
        accepts(before, item.1),
        0 <= k <= before.len(),
        forall|j: int| 0 <= j < k ==> !lower_or_equal(item.1, #[trigger] before[j].1),
        k < before.len() ==> lower_or_equal(item.1, before[k].1),
    ensures
        all_of_len(before.insert(k, item), n),
        is_chain(before) ==> is_chain(before.insert(k, item)),
        positions_sorted(before.insert(k, item), n),
{
    let after = before.insert(k, item);
    assert forall|i: int| 0 <= i < after.len() implies (#[trigger] after[i]).1.len() == n by {
        if i > k {
            assert(after[i] == before[i - 1]);
        }
    }
    if is_chain(before) {
        lemma_insert_accepted_keeps_chain(before, k, item, n);
    }
    assert forall|p: int, i: int, l: int|
        #![trigger after[i].1[p], after[l].1[p]]
        0 <= p < n && 0 <= i && l == i + 1 && l < after.len() implies after[i].1[p] <= after[l].1[p] by {
        if l < k {
            assert(after[i] == before[i] && after[l] == before[l]);
            assert(before[i].1[p] <= before[l].1[p]);
        } else if l == k {
            assert(after[i] == before[i]);
            assert(comparable(item.1, before[i].1));
            assert(!lower_or_equal(item.1, before[i].1));
        } else if i == k {
            assert(after[l] == before[k]);
            assert(lower_or_equal(item.1, before[k].1));
        } else {
            assert(after[i] == before[i - 1] && after[l] == before[l - 1]);
            assert(before[i - 1].1[p] <= before[i].1[p]);
        }
    }
}

} // verus!
