use vstd::prelude::*;

use crate::chain_decomposition::{
    accepts,
    all_of_len,
    comparable,
    first_accepting,
    first_at_least,
    insertion_index,
    is_chain,
    lemma_first_at_least,
    lemma_insert_keeps_sorted,
    lower_or_equal,
    positions_sorted,
};
use crate::data::data::Position;
use std::cmp::Ordering;

verus! {

/// How `a` compares to `b`, position by position: equal everywhere, lower than or equal
/// everywhere, greater than or equal everywhere, or none of these.
pub open spec fn order_of(a: Seq<u32>, b: Seq<u32>) -> Option<Ordering> {
    if a =~= b {
        Some(Ordering::Equal)
    } else if lower_or_equal(a, b) {
        Some(Ordering::Less)
    } else if lower_or_equal(b, a) {
        Some(Ordering::Greater)
    } else {
        None
    }
}

/// The index of the first value of `row`, from `i` on, that is greater than or equal to
/// `value`; `row.len()` when there is none.
pub open spec fn first_not_below(row: Seq<u32>, value: u32, i: int) -> int
    decreases row.len() - i,
{
    if i < 0 || i >= row.len() {
        row.len() as int
    } else if row[i] >= value {
        i
    } else {
        first_not_below(row, value, i + 1)
    }
}

/// The item found for `value` in `row`: the first one whose value is greater than or equal
/// to `value`; none when every value of `row` is lower than `value`.
pub open spec fn lookup(row: Seq<u32>, value: u32) -> Option<int> {
    let f = first_not_below(row, value, 0);
    if f == row.len() {
        None
    } else {
        Some(f)
    }
}

/// An optional index as a `usize`
pub open spec fn to_usize(o: Option<int>) -> Option<usize> {
    match o {
        Some(i) => Some(i as usize),
        None => None,
    }
}

/// The values at `position` of the items of `items`
pub open spec fn row_at<D>(items: Seq<(D, Seq<u32>)>, position: int) -> Seq<u32> {
    Seq::new(items.len(), |k: int| items[k].1[position])
}

/// The items found for `value` at `position` in the chains `chains[..n]`, as pairs of a
/// chain index and an item index, in the order of the chains
pub open spec fn lookups<D>(chains: Seq<Seq<(D, Seq<u32>)>>, value: u32, position: int, n: int) -> Seq<(int, int)>
    decreases n,
{
    if n <= 0 {
        Seq::empty()
    } else {
        let before = lookups(chains, value, position, n - 1);
        match lookup(row_at(chains[n - 1], position), value) {
            Some(i) => before.push((n - 1, i)),
            None => before,
        }
    }
}

/// The number of items of the chains
pub open spec fn total_items<D>(chains: Seq<Seq<(D, Seq<u32>)>>) -> nat
    decreases chains.len(),
{
    if chains.len() == 0 {
        0
    } else {
        total_items(chains.drop_last()) + chains.last().len()
    }
}

/// A set of vectors of values, each with its data, split into chains of pairwise comparable
/// vectors.
pub struct ChainDecomposition<ItemData> {
    nb_of_positions: usize,
    chains: Vec<Chain<ItemData>>,
}

struct Chain<ItemData> {
    items_data: Vec<ItemData>,
    values_by_position: Vec<Vec<u32>>,
}

/// The index of a chain in its decomposition
pub struct ChainIdx {
    idx: usize,
}

/// The place of an item in a decomposition: the index of its chain, and its index in the
/// chain
pub struct ItemIdx {
    chain_idx: usize,
    item_idx: usize,
}

impl ItemIdx {
    /// The pair (chain index, item index)
    pub closed spec fn view(&self) -> (int, int) {
        (self.chain_idx as int, self.item_idx as int)
    }
}

impl ChainIdx {
    /// The index of the chain
    pub closed spec fn view(&self) -> int {
        self.idx as int
    }
}

impl<ItemData> Chain<ItemData> {
    spec fn nb_positions(&self) -> nat {
        self.values_by_position@.len()
    }

    spec fn values_of(&self, k: int) -> Seq<u32> {
        Seq::new(self.values_by_position@.len(), |p: int| self.values_by_position@[p]@[k])
    }

    spec fn values_at_item(&self, k: usize) -> Seq<u32> {
        self.values_of(k as int)
    }

    spec fn view(&self) -> Seq<(ItemData, Seq<u32>)> {
        Seq::new(self.items_data@.len(), |k: int| (self.items_data@[k], self.values_of(k)))
    }

    spec fn wf(&self) -> bool {
        &&& self.values_by_position@.len() >= 1
        &&& forall|p: int|
            0 <= p < self.values_by_position@.len() ==> (#[trigger] self.values_by_position@[p])@.len()
                == self.items_data@.len()
    }

    spec fn item_values_match(&self) -> bool {
        forall|k: usize| k < self.items_data@.len() ==> #[trigger] self.values_at_item(k) == self.view()[k as int].1
    }

    proof fn lemma_item_value(&self, p: usize, k: usize)
        requires
            self.wf(),
            p < self.nb_positions(),
            k < self.items_data@.len(),
        ensures
            self.values_at_item(k)[p as int] == self.values_by_position@[p as int]@[k as int],
    {
    }

    proof fn lemma_view(&self)
        requires
            self.wf(),
        ensures
            all_of_len(self.view(), self.nb_positions()),
            self.item_values_match(),
            forall|p: int, k: int|
                0 <= p < self.nb_positions() && 0 <= k < self.items_data@.len() ==> #[trigger] self.view()[k].1[p]
                    == self.values_by_position@[p]@[k],
    {
    }

    fn new(nb_of_positions: usize) -> (r: Self)
        requires
            nb_of_positions >= 1,
        ensures
            r.wf(),
            r.nb_positions() == nb_of_positions,
            r.view() == Seq::<(ItemData, Seq<u32>)>::empty(),
    {
        let mut values_by_position: Vec<Vec<u32>> = Vec::new();
        let mut p: usize = 0;
        while p < nb_of_positions
            invariant
                p <= nb_of_positions,
                values_by_position@.len() == p,
                forall|q: int| 0 <= q < p ==> (#[trigger] values_by_position@[q])@.len() == 0,
            decreases nb_of_positions - p,
        {
            values_by_position.push(Vec::new());
            p += 1;
        }
        let r = Chain { items_data: Vec::new(), values_by_position };
        assert(r.view() =~= Seq::<(ItemData, Seq<u32>)>::empty());
        r
    }

    fn nb_of_positions(&self) -> (r: usize)
        ensures
            r == self.nb_positions(),
    {
        self.values_by_position.len()
    }

    fn nb_of_items(&self) -> (r: usize)
        ensures
            r == self.view().len(),
    {
        self.items_data.len()
    }

    /// The values of the vector stored at `item_idx`, position after position
    fn item_values(&self, item_idx: usize) -> (r: Vec<u32>)
        requires
            self.wf(),
            item_idx < self.items_data@.len(),
        ensures
            r@ == self.view()[item_idx as int].1,
    {
        let mut r: Vec<u32> = Vec::new();
        let mut p: usize = 0;
        while p < self.values_by_position.len()
            invariant
                self.wf(),
                item_idx < self.items_data@.len(),
                p <= self.values_by_position@.len(),
                r@ == self.values_of(item_idx as int).take(p as int),
            decreases self.values_by_position@.len() - p,
        {
            r.push(self.values_by_position[p][item_idx]);
            p += 1;
            assert(r@ =~= self.values_of(item_idx as int).take(p as int));
        }
        assert(r@ =~= self.values_of(item_idx as int));
        r
    }

    /// `true` when, at each position, the values of the items do not decrease from one item
    /// to the next
    fn is_sorted(&self) -> (r: bool)
        requires
            self.wf(),
            self.view().len() > 0,
        ensures
            r == positions_sorted(self.view(), self.nb_positions()),
    {
        let nb_of_items = self.nb_of_items();
        let mut p: usize = 0;
        while p < self.nb_of_positions()
            invariant
                self.wf(),
                nb_of_items == self.items_data@.len() > 0,
                p <= self.values_by_position@.len(),
                positions_sorted(self.view(), p as nat),
            decreases self.values_by_position@.len() - p,
        {
            let pos_values = &self.values_by_position[p];
            let mut i: usize = 0;
            while i < nb_of_items - 1
                invariant
                    self.wf(),
                    nb_of_items == self.items_data@.len() > 0,
                    p < self.values_by_position@.len(),
                    *pos_values == self.values_by_position@[p as int],
                    i <= nb_of_items - 1,
                    positions_sorted(self.view(), p as nat),
                    forall|k: int| 0 <= k < i ==> #[trigger] pos_values@[k] <= pos_values@[k + 1],
                decreases nb_of_items - 1 - i,
            {
                if pos_values[i] > pos_values[i + 1] {
                    assert(self.view()[i as int].1[p as int] > self.view()[i + 1].1[p as int]);
                    return false;
                }
                i += 1;
            }
            p += 1;
            assert forall|q: int, k: int, l: int|
                0 <= q < p && 0 <= k && l == k + 1 && l < self.view().len() implies #[trigger] self.view()[k].1[q]
                    <= #[trigger] self.view()[l].1[q] by {
                if q == p - 1 {
                    assert(pos_values@[k] <= pos_values@[k + 1]);
                }
            }
        }
        true
    }

    fn value_at(&self, item_idx: usize, pos_idx: usize) -> (r: &u32)
        requires
            self.wf(),
            item_idx < self.items_data@.len(),
            pos_idx < self.nb_positions(),
        ensures
            *r == self.view()[item_idx as int].1[pos_idx as int],
    {
        &self.values_by_position[pos_idx][item_idx]
    }

    /// How `values` compares with the vector stored at `item_idx`
    fn partial_cmp(&self, item_idx: usize, values: &[u32]) -> (r: Option<Ordering>)
        requires
            self.wf(),
            item_idx < self.items_data@.len(),
            values@.len() == self.nb_positions(),
        ensures
            r == order_of(values@, self.values_at_item(item_idx)),
    {
        let ghost item = self.values_at_item(item_idx);
        let mut all_lower = true;
        let mut all_greater = true;
        let mut p: usize = 0;
        while p < values.len()
            invariant
                self.wf(),
                item_idx < self.items_data@.len(),
                values@.len() == self.nb_positions(),
                item == self.values_at_item(item_idx),
                item.len() == values@.len(),
                p <= values@.len(),
                all_lower == forall|q: int| 0 <= q < p ==> #[trigger] values@[q] <= item[q],
                all_greater == forall|q: int| 0 <= q < p ==> #[trigger] item[q] <= values@[q],
            decreases values@.len() - p,
        {
            let v = self.values_by_position[p][item_idx];
            proof {
                self.lemma_item_value(p, item_idx);
            }
            if values[p] > v {
                all_lower = false;
            }
            if values[p] < v {
                all_greater = false;
            }
            p += 1;
        }
        if all_lower && all_greater {
            assert(values@ =~= item);
            Some(Ordering::Equal)
        } else if all_lower {
            Some(Ordering::Less)
        } else if all_greater {
            assert(!(values@ =~= item));
            Some(Ordering::Greater)
        } else {
            None
        }
    }

    /// `true` when `values` is comparable with every vector of the chain
    fn accept(&self, values: &[u32]) -> (r: bool)
        requires
            self.wf(),
            values@.len() == self.nb_positions(),
        ensures
            r == accepts(self.view(), values@),
    {
        proof {
            self.lemma_view();
        }
        let mut k: usize = 0;
        while k < self.nb_of_items()
            invariant
                self.wf(),
                values@.len() == self.nb_positions(),
                k <= self.items_data@.len(),
                all_of_len(self.view(), self.nb_positions()),
                self.item_values_match(),
                forall|j: int| 0 <= j < k ==> comparable(values@, #[trigger] self.view()[j].1),
            decreases self.items_data@.len() - k,
        {
            let r = self.partial_cmp(k, values);
            proof {
                lemma_order_of_none(values@, self.values_at_item(k));
            }
            if r.is_none() {
                return false;
            }
            k += 1;
        }
        true
    }

    /// The index where `values` goes: just before the first vector that is greater than or
    /// equal to it at every position, or at the end
    fn insertion_idx(&self, values: &[u32]) -> (r: usize)
        requires
            self.wf(),
            values@.len() == self.nb_positions(),
        ensures
            r == insertion_index(self.view(), values@),
            r <= self.view().len(),
    {
        proof {
            self.lemma_view();
        }
        let nb_of_items = self.nb_of_items();
        let ghost items = self.view();
        let ghost mut i: int = 0;
        let mut idx: usize = 0;
        while idx < nb_of_items
            invariant
                self.wf(),
                values@.len() == self.nb_positions(),
                items == self.view(),
                nb_of_items == items.len(),
                i == idx,
                idx <= nb_of_items,
                all_of_len(items, self.nb_positions()),
                self.item_values_match(),
                first_at_least(items, values@, 0) == first_at_least(items, values@, i),
            decreases nb_of_items - idx,
        {
            let r = self.partial_cmp(idx, values);
            proof {
                lemma_order_of_le(values@, self.values_at_item(idx));
            }
            let found = match r {
                Some(Ordering::Equal) => true,
                Some(Ordering::Less) => true,
                _ => false,
            };
            if found {
                proof {
                    assert(first_at_least(items, values@, i) == idx);
                }
                return idx;
            }
            proof {
                assert(first_at_least(items, values@, i) == first_at_least(items, values@, idx + 1));
                i = i + 1;
            }
            idx += 1;
        }
        nb_of_items
    }

    /// Inserts `values`, with its data, at `insert_idx`
    fn insert_at(&mut self, insert_idx: usize, values: &[u32], item_data: ItemData)
        requires
            old(self).wf(),
            values@.len() == old(self).nb_positions(),
            insert_idx <= old(self).view().len(),
        ensures
            final(self).wf(),
            final(self).nb_positions() == old(self).nb_positions(),
            final(self).view() == old(self).view().insert(insert_idx as int, (item_data, values@)),
    {
        let ghost old_view = self.view();
        let k = insert_idx;
        let nb_of_positions = self.values_by_position.len();
        let mut pos: usize = 0;
        while pos < nb_of_positions
            invariant
                nb_of_positions == self.values_by_position@.len(),
                nb_of_positions == old(self).values_by_position@.len(),
                nb_of_positions >= 1,
                values@.len() == nb_of_positions,
                pos <= nb_of_positions,
                self.items_data == old(self).items_data,
                k <= self.items_data@.len(),
                forall|p: int|
                    0 <= p < pos ==> (#[trigger] self.values_by_position@[p])@ == old(
                        self,
                    ).values_by_position@[p]@.insert(k as int, values@[p]),
                forall|p: int|
                    pos <= p < nb_of_positions ==> (#[trigger] self.values_by_position@[p])@ == old(
                        self,
                    ).values_by_position@[p]@,
                forall|p: int|
                    0 <= p < nb_of_positions ==> (#[trigger] old(self).values_by_position@[p])@.len()
                        == self.items_data@.len(),
            decreases nb_of_positions - pos,
        {
            self.values_by_position[pos].insert(k, values[pos]);
            pos += 1;
        }
        self.items_data.insert(k, item_data);
        proof {
            let new_view = self.view();
            assert forall|j: int| 0 <= j < new_view.len() implies #[trigger] new_view[j] == old_view.insert(
                k as int,
                (item_data, values@),
            )[j] by {
                if j < k {
                    assert(new_view[j].1 =~= old_view[j].1);
                } else if j == k {
                    assert(new_view[j].1 =~= values@);
                } else {
                    assert(new_view[j].1 =~= old_view[j - 1].1);
                }
            }
            assert(new_view =~= old_view.insert(k as int, (item_data, values@)));
        }
    }

    fn insert(&mut self, values: &[u32], item_data: ItemData)
        requires
            old(self).wf(),
            values@.len() == old(self).nb_positions(),
        ensures
            final(self).wf(),
            final(self).nb_positions() == old(self).nb_positions(),
            final(self).view() == old(self).view().insert(
                insertion_index(old(self).view(), values@),
                (item_data, values@),
            ),
            is_chain(old(self).view()) && positions_sorted(old(self).view(), old(self).nb_positions()) && accepts(
                old(self).view(),
                values@,
            ) ==> is_chain(final(self).view()) && positions_sorted(final(self).view(), final(self).nb_positions()),
    {
        let insert_idx = self.insertion_idx(values);
        proof {
            self.lemma_view();
            lemma_first_at_least(self.view(), values@, 0);
            if is_chain(self.view()) && positions_sorted(self.view(), self.nb_positions()) && accepts(self.view(), values@) {
                lemma_insert_keeps_sorted(self.view(), insert_idx as int, (item_data, values@), self.nb_positions());
            }
        }
        self.insert_at(insert_idx, values, item_data);
    }

    /// The item found for `value` at `position`: the first one whose value there is greater
    /// than or equal to `value`
    fn get_idx_of_first_item_greater_or_equal(&self, value: &u32, position: usize) -> (r: Option<usize>)
        requires
            self.wf(),
            position < self.nb_positions(),
        ensures
            r == to_usize(lookup(self.values_by_position@[position as int]@, *value)),
    {
        let row = &self.values_by_position[position];
        let ghost mut i: int = 0;
        let mut idx: usize = 0;
        while idx < row.len()
            invariant
                row@ == self.values_by_position@[position as int]@,
                i == idx,
                idx <= row@.len(),
                first_not_below(row@, *value, 0) == first_not_below(row@, *value, i),
            decreases row@.len() - idx,
        {
            if row[idx] >= *value {
                proof {
                    assert(first_not_below(row@, *value, i) == idx);
                    lemma_first_not_below_range(row@, *value, 0);
                }
                return Some(idx);
            }
            proof {
                assert(first_not_below(row@, *value, i) == first_not_below(row@, *value, idx + 1));
                i = i + 1;
            }
            idx += 1;
        }
        None
    }
}

/// The first value at least `value`, from `i` on, is between `i` and the end.
proof fn lemma_first_not_below_range(row: Seq<u32>, value: u32, i: int)
    requires
        0 <= i <= row.len(),
    ensures
        i <= first_not_below(row, value, i) <= row.len(),
    decreases row.len() - i,
{
    if i < row.len() {
        lemma_first_not_below_range(row, value, i + 1);
    }
}

/// The number of items of the first `c` chains is at most the number of items of all chains,
/// and grows by the size of chain `c` when `c` is added.
proof fn lemma_total_take<D>(chains: Seq<Seq<(D, Seq<u32>)>>, c: int)
    requires
        0 <= c <= chains.len(),
    ensures
        total_items(chains.take(c)) <= total_items(chains),
        c < chains.len() ==> total_items(chains.take(c + 1)) == total_items(chains.take(c)) + chains[c].len(),
    decreases chains.len() - c,
{
    if c < chains.len() {
        assert(chains.take(c + 1).drop_last() =~= chains.take(c));
        lemma_total_take(chains, c + 1);
    } else {
        assert(chains.take(c) =~= chains);
    }
}

/// Replacing one chain changes the number of items by the difference of sizes.
proof fn lemma_total_update<D>(chains: Seq<Seq<(D, Seq<u32>)>>, c: int, x: Seq<(D, Seq<u32>)>)
    requires
        0 <= c < chains.len(),
    ensures
        total_items(chains.update(c, x)) == total_items(chains) - chains[c].len() + x.len(),
    decreases chains.len(),
{
    let u = chains.update(c, x);
    if c == chains.len() - 1 {
        assert(u.drop_last() =~= chains.drop_last());
    } else {
        assert(u.drop_last() =~= chains.drop_last().update(c, x));
        lemma_total_update(chains.drop_last(), c, x);
    }
}

impl<ItemData> ChainDecomposition<ItemData> {
    /// The number of values of each vector
    pub closed spec fn nb_positions(&self) -> nat {
        self.nb_of_positions as nat
    }

    /// The chains, each as the sequence of its vectors with their data
    pub closed spec fn view(&self) -> Seq<Seq<(ItemData, Seq<u32>)>> {
        Seq::new(self.chains@.len(), |c: int| self.chains@[c].view())
    }

    /// Each chain is well formed, holds vectors of `nb_positions` values that are pairwise
    /// comparable and sorted increasingly at every position, and the number of items fits in
    /// a `usize`.
    pub closed spec fn wf(&self) -> bool {
        &&& forall|c: int|
            0 <= c < self.chains@.len() ==> {
                &&& (#[trigger] self.chains@[c]).wf()
                &&& self.chains@[c].nb_positions() == self.nb_of_positions
                &&& is_chain(self.chains@[c].view())
                &&& positions_sorted(self.chains@[c].view(), self.nb_of_positions as nat)
            }
        &&& total_items(self.view()) <= usize::MAX
    }

    /// What a well-formed decomposition states of its chains
    pub proof fn lemma_wf_chains(&self)
        requires
            self.wf(),
        ensures
            forall|c: int|
                0 <= c < self.view().len() ==> {
                    &&& all_of_len(#[trigger] self.view()[c], self.nb_positions())
                    &&& is_chain(self.view()[c])
                    &&& positions_sorted(self.view()[c], self.nb_positions())
                },
            total_items(self.view()) <= usize::MAX,
    {
        assert forall|c: int| 0 <= c < self.view().len() implies {
            &&& all_of_len(#[trigger] self.view()[c], self.nb_positions())
            &&& is_chain(self.view()[c])
            &&& positions_sorted(self.view()[c], self.nb_positions())
        } by {
            self.chains@[c].lemma_view();
        }
    }

    /// An empty decomposition for vectors of `nb_of_positions` values
    pub fn new(nb_of_positions: usize) -> (r: Self)
        ensures
            r.wf(),
            r.nb_positions() == nb_of_positions,
            r.view() == Seq::<Seq<(ItemData, Seq<u32>)>>::empty(),
    {
        let r = Self { nb_of_positions, chains: Vec::new() };
        assert(r.view() =~= Seq::<Seq<(ItemData, Seq<u32>)>>::empty());
        r
    }

    /// The number of items of all chains
    pub fn nb_of_items(&self) -> (r: usize)
        requires
            self.wf(),
        ensures
            r == total_items(self.view()),
    {
        let ghost v = self.view();
        let mut total: usize = 0;
        let mut c: usize = 0;
        while c < self.chains.len()
            invariant
                self.wf(),
                v == self.view(),
                c <= self.chains@.len(),
                total == total_items(v.take(c as int)),
            decreases self.chains@.len() - c,
        {
            proof {
                lemma_total_take(v, c as int);
                lemma_total_take(v, c as int + 1);
            }
            total = total + self.chains[c].nb_of_items();
            c += 1;
        }
        proof {
            assert(v.take(c as int) =~= v);
        }
        total
    }

    /// Inserts `values`, with its data, in the first chain that accepts it, just before the
    /// first item that is greater than or equal to it at every position, or in a new chain
    /// at the end when none does; every chain stays sorted at every position.
    pub fn insert(&mut self, values: &[u32], item_data: ItemData)
        requires
            old(self).wf(),
            values@.len() == old(self).nb_positions(),
            old(self).nb_positions() >= 1,
            total_items(old(self).view()) < usize::MAX,
        ensures
            final(self).wf(),
            final(self).nb_positions() == old(self).nb_positions(),
            total_items(final(self).view()) == total_items(old(self).view()) + 1,
            forall|c: int|
                #[trigger] first_accepting(old(self).view(), values@, c) ==> final(self).view()
                    == old(self).view().update(
                    c,
                    old(self).view()[c].insert(
                        insertion_index(old(self).view()[c], values@),
                        (item_data, values@),
                    ),
                ),
            (forall|c: int| 0 <= c < old(self).view().len() ==> !accepts(#[trigger] old(self).view()[c], values@))
                ==> final(self).view() == old(self).view().push(seq![(item_data, values@)]),
    {
        let ghost old_view = self.view();
        let mut c: usize = 0;
        while c < self.chains.len()
            invariant
                self == old(self),
                old_view == self.view(),
                self.wf(),
                values@.len() == self.nb_positions(),
                total_items(old_view) < usize::MAX,
                c <= self.chains@.len(),
                forall|d: int| 0 <= d < c ==> !accepts(#[trigger] old_view[d], values@),
            decreases self.chains@.len() - c,
        {
            assert(old_view[c as int] == self.chains@[c as int].view());
            if self.chains[c].accept(values) {
                proof {
                    assert(first_accepting(old_view, values@, c as int));
                }
                let ghost before = self.chains@[c as int];
                self.chains[c].insert(values, item_data);
                proof {
                    let after = self.chains@[c as int];
                    before.lemma_view();
                    assert(is_chain(before.view()));
                    assert(positions_sorted(before.view(), before.nb_positions()));
                    assert(accepts(before.view(), values@));
                    assert(is_chain(after.view()));
                    assert(positions_sorted(after.view(), self.nb_of_positions as nat));
                    assert(self.view() =~= old_view.update(c as int, after.view()));
                    lemma_total_update(old_view, c as int, after.view());
                    lemma_first_at_least(before.view(), values@, 0);
                    assert(after.view().len() == before.view().len() + 1);
                    assert(total_items(self.view()) <= usize::MAX);
                    assert forall|e: int| #[trigger] first_accepting(old_view, values@, e) implies e == c by {
                        if e < c {
                        } else if e > c {
                            assert(!accepts(old_view[c as int], values@));
                        }
                    }
                    assert forall|e: int| 0 <= e < self.chains@.len() implies {
                        &&& (#[trigger] self.chains@[e]).wf()
                        &&& self.chains@[e].nb_positions() == self.nb_of_positions
                        &&& is_chain(self.chains@[e].view())
                        &&& positions_sorted(self.chains@[e].view(), self.nb_of_positions as nat)
                    } by {
                        if e != c {
                            assert(self.chains@[e] == old(self).chains@[e]);
                        }
                    }
                }
                return;
            }
            c += 1;
        }
        let mut new_chain = Chain::new(self.nb_of_positions);
        new_chain.insert(values, item_data);
        proof {
            assert(new_chain.view() =~= seq![(item_data, values@)]);
            assert(comparable(values@, values@));
        }
        self.chains.push(new_chain);
        proof {
            assert(self.view() =~= old_view.push(seq![(item_data, values@)]));
            assert(self.view().drop_last() =~= old_view);
            assert forall|e: int| #[trigger] first_accepting(old_view, values@, e) implies false by {
                assert(!accepts(old_view[e], values@));
            }
            assert forall|e: int| 0 <= e < self.chains@.len() implies {
                &&& (#[trigger] self.chains@[e]).wf()
                &&& self.chains@[e].nb_positions() == self.nb_of_positions
                &&& is_chain(self.chains@[e].view())
                &&& positions_sorted(self.chains@[e].view(), self.nb_of_positions as nat)
            } by {
                if e < old_view.len() {
                    assert(self.chains@[e] == old(self).chains@[e]);
                }
            }
        }
    }

    /// The value at `position` of the item at `item_idx`
    pub fn get_value(&self, item_idx: &ItemIdx, position: &Position) -> (r: &u32)
        requires
            self.wf(),
            0 <= item_idx@.0 < self.view().len(),
            0 <= item_idx@.1 < self.view()[item_idx@.0].len(),
            position.idx < self.nb_positions(),
        ensures
            *r == self.view()[item_idx@.0][item_idx@.1].1[position.idx as int],
    {
        self.chains[item_idx.chain_idx].value_at(item_idx.item_idx, position.idx)
    }

    /// The data of the item at `item_idx`
    pub fn get_data(&self, item_idx: &ItemIdx) -> (r: &ItemData)
        requires
            0 <= item_idx@.0 < self.view().len(),
            0 <= item_idx@.1 < self.view()[item_idx@.0].len(),
        ensures
            *r == self.view()[item_idx@.0][item_idx@.1].0,
    {
        &self.chains[item_idx.chain_idx].items_data[item_idx.item_idx]
    }

    /// For each chain, in order, the first item whose value at `position` is greater than
    /// or equal to `value`, if any: in a chain sorted at every position, the items before
    /// it are lower than `value` there, and those from it on greater or equal.
    pub fn get_items_greater_or_equal(&self, value: u32, position: Position) -> (r: Vec<ItemIdx>)
        requires
            self.wf(),
            position.idx < self.nb_positions(),
        ensures
            r@.map_values(|x: ItemIdx| x@) == lookups(self.view(), value, position.idx as int, self.view().len() as int),
    {
        let ghost v = self.view();
        let mut r: Vec<ItemIdx> = Vec::new();
        let mut c: usize = 0;
        while c < self.chains.len()
            invariant
                self.wf(),
                v == self.view(),
                position.idx < self.nb_positions(),
                c <= self.chains@.len(),
                r@.map_values(|x: ItemIdx| x@) == lookups(v, value, position.idx as int, c as int),
            decreases self.chains@.len() - c,
        {
            let ghost chain = self.chains@[c as int];
            proof {
                chain.lemma_view();
                assert(row_at(v[c as int], position.idx as int) =~= chain.values_by_position@[position.idx as int]@);
                lemma_first_not_below_range(row_at(v[c as int], position.idx as int), value, 0);
            }
            // the length of the chain, a `usize`, bounds the index found in it
            let _chain_len = self.chains[c].nb_of_items();
            let found = self.chains[c].get_idx_of_first_item_greater_or_equal(&value, position.idx);
            let ghost before = r@;
            match found {
                Some(item_idx) => {
                    r.push(ItemIdx { chain_idx: c, item_idx });
                    proof {
                        assert(lookup(row_at(v[c as int], position.idx as int), value) == Some(item_idx as int));
                        assert(r@.map_values(|x: ItemIdx| x@) =~= before.map_values(|x: ItemIdx| x@).push(
                            (c as int, item_idx as int),
                        ));
                    }
                },
                None => {
                    proof {
                        assert(lookup(row_at(v[c as int], position.idx as int), value) is None);
                    }
                },
            }
            proof {
                let row = row_at(v[c as int], position.idx as int);
                let prev = lookups(v, value, position.idx as int, c as int);
                assert(lookups(v, value, position.idx as int, c as int + 1) == match lookup(row, value) {
                    Some(i) => prev.push((c as int, i)),
                    None => prev,
                });
            }
            c += 1;
        }
        r
    }
}

/// From an empty decomposition, a sequence of decompositions each holding one more item than
/// the one before, as each `insert` gives, ends with as many items as inserts.
pub proof fn lemma_items_along<D>(views: Seq<Seq<Seq<(D, Seq<u32>)>>>)
    requires
        views.len() >= 1,
        total_items(views[0]) == 0,
        forall|k: int| 0 <= k < views.len() - 1 ==> total_items(#[trigger] views[k + 1]) == total_items(views[k]) + 1,
    ensures
        total_items(views.last()) == views.len() - 1,
    decreases views.len(),
{
    if views.len() > 1 {
        let before = views.drop_last();
        assert forall|k: int| 0 <= k < before.len() - 1 implies total_items(#[trigger] before[k + 1])
            == total_items(before[k]) + 1 by {
            assert(before[k + 1] == views[k + 1] && before[k] == views[k]);
        }
        lemma_items_along(before);
        assert(total_items(views[views.len() - 1]) == total_items(views[views.len() - 2]) + 1);
    }
}

/// `order_of` gives no ordering exactly on vectors that are not comparable.
pub(crate) proof fn lemma_order_of_none(a: Seq<u32>, b: Seq<u32>)
    requires
        a.len() == b.len(),
    ensures
        order_of(a, b).is_none() == !comparable(a, b),
{
}

/// `order_of` gives an equal or lower ordering exactly when the first vector is lower than
/// or equal to the second one at every position.
pub(crate) proof fn lemma_order_of_le(a: Seq<u32>, b: Seq<u32>)
    requires
        a.len() == b.len(),
    ensures
        (order_of(a, b) == Some(Ordering::Equal) || order_of(a, b) == Some(Ordering::Less))
            == lower_or_equal(a, b),
{
    if a =~= b {
        assert(lower_or_equal(a, b));
    }
}

} // verus!
