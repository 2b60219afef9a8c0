use vstd::prelude::*;

use crate::items::Item;

verus! {

/// The descending order on items: `a` comes no later than `b` when its
/// size is at least as large.
pub open spec fn size_descending() -> spec_fn(Item, Item) -> bool {
    |a: Item, b: Item| a.size >= b.size
}

/// The descending order is a total ordering, so a sequence sorted by it
/// is determined by its multiset of items alone.
pub proof fn lemma_size_descending_total_ordering()
    ensures
        vstd::relations::total_ordering(size_descending()),
{
    let leq = size_descending();
    assert forall|a: Item, b: Item| #[trigger] leq(a, b) && #[trigger] leq(b, a) implies a == b by {
        assert(a.size == b.size);
    }
}

/// Sorts the given items into descending order of size, by repeatedly
/// moving the largest remaining item to the end of the output.
pub(crate) fn sort_descending(items: Vec<Item>) -> (sorted: Vec<Item>)
    ensures
        sorted@.len() == items@.len(),
        vstd::relations::sorted_by(sorted@, size_descending()),
        sorted@.to_multiset() == items@.to_multiset(),
        sorted@ == items@.sort_by(size_descending()),
{
    let mut work = items;
    let ghost all = work@;
    let mut sorted: Vec<Item> = Vec::new();
    proof {
        broadcast use vstd::seq_lib::group_to_multiset_ensures;
        broadcast use vstd::multiset::group_multiset_axioms;

        assert(sorted@.to_multiset().len() == 0);
        assert(sorted@.to_multiset().add(work@.to_multiset()) =~= all.to_multiset());
    }
    while work.len() > 0
        invariant
            sorted@.to_multiset().add(work@.to_multiset()) == all.to_multiset(),
            sorted@.len() + work@.len() == all.len(),
            vstd::relations::sorted_by(sorted@, size_descending()),
            forall|k: int, j: int|
                0 <= k < sorted@.len() && 0 <= j < work@.len() ==> (#[trigger] sorted@[k]).size
                    >= (#[trigger] work@[j]).size,
        decreases work@.len(),
    {
        let mut m: usize = 0;
        let mut j: usize = 1;
        while j < work.len()
            invariant
                0 < work@.len(),
                m < j,
                j <= work@.len(),
                forall|k: int| 0 <= k < j ==> work@[m as int].size >= (#[trigger] work@[k]).size,
            decreases work@.len() - j,
        {
            if work[j].size > work[m].size {
                m = j;
            }
            j = j + 1;
        }
        let ghost prev_sorted = sorted@;
        let ghost prev_work = work@;
        let largest = work.remove(m);
        sorted.push(largest);
        proof {
            broadcast use vstd::seq_lib::group_to_multiset_ensures;
            broadcast use vstd::multiset::group_multiset_axioms;

            assert(prev_work.to_multiset().contains(largest));
            assert(work@.to_multiset() =~= prev_work.to_multiset().remove(largest));
            assert(sorted@.to_multiset().add(work@.to_multiset()) =~= prev_sorted.to_multiset().add(
                prev_work.to_multiset(),
            ));
            assert forall|k: int, i: int|
                0 <= k < sorted@.len() && 0 <= i < work@.len() implies (#[trigger] sorted@[k]).size
                >= (#[trigger] work@[i]).size by {
                assert(work@[i] == if i < m {
                    prev_work[i]
                } else {
                    prev_work[i + 1]
                });
                if k < prev_sorted.len() {
                    assert(sorted@[k] == prev_sorted[k]);
                } else {
                    assert(sorted@[k] == largest);
                }
            }
            assert forall|k: int, i: int| 0 <= k < i < sorted@.len() implies size_descending()(
                sorted@[k],
                sorted@[i],
            ) by {
                if i < prev_sorted.len() {
                    assert(size_descending()(prev_sorted[k], prev_sorted[i]));
                } else {
                    assert(sorted@[i] == largest);
                    assert(prev_sorted[k].size >= prev_work[m as int].size);
                }
            }
        }
    }
    proof {
        broadcast use vstd::seq_lib::group_to_multiset_ensures;
        broadcast use vstd::multiset::group_multiset_axioms;

        assert(work@.to_multiset().len() == 0);
        assert(sorted@.to_multiset() =~= all.to_multiset());
        lemma_size_descending_total_ordering();
        all.lemma_sort_by_ensures(size_descending());
        vstd::seq_lib::lemma_sorted_unique(sorted@, all.sort_by(size_descending()), size_descending());
    }
    sorted
}

} // verus!
