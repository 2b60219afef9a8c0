use vstd::prelude::*;

use crate::items::Bin;
use crate::items::Item;
use crate::items::PackError;
use crate::sorting::size_descending;
use crate::sorting::sort_descending;

verus! {

/// The total size of a sequence of items.
pub open spec fn sum_sizes(s: Seq<Item>) -> int
    decreases s.len(),
{
    if s.len() == 0 {
        0
    } else {
        s[0].size + sum_sizes(s.drop_first())
    }
}

/// The contents of a sequence of bins, bin by bin.
pub open spec fn bins_view(bins: Seq<Bin>) -> Seq<Seq<Item>> {
    bins.map_values(|b: Bin| b@)
}

/// One greedy pass over the remaining items: scanning `r` from the
/// front with `sum` already in the open bin, every item that still fits
/// is placed, and the pass stops early as soon as the bin is exactly
/// full or no item at all is left over. `skipped` records whether an
/// earlier item of this pass was passed over; such an item is left
/// over, so the pass cannot stop for want of items. Returns the items
/// placed in the bin and the items left over, both in scan order.
pub open spec fn fill_bin(cap: u32, r: Seq<Item>, sum: int, skipped: bool) -> (Seq<Item>, Seq<Item>)
    decreases r.len(),
{
    if r.len() == 0 {
        (Seq::<Item>::empty(), Seq::<Item>::empty())
    } else {
        let x = r[0];
        let rest = r.drop_first();
        if sum + x.size <= cap {
            if sum + x.size == cap || (rest.len() == 0 && !skipped) {
                (seq![x], rest)
            } else {
                let p = fill_bin(cap, rest, sum + x.size, skipped);
                (seq![x] + p.0, p.1)
            }
        } else {
            let p = fill_bin(cap, rest, sum, true);
            (p.0, seq![x] + p.1)
        }
    }
}

/// The whole packing: bins are filled one after another from the
/// remaining items until none are left. Every pass places at least one
/// item whenever the first remaining item fits on its own, which is why
/// the guard on the recursive call is always taken in that case.
pub open spec fn pack_bins(cap: u32, r: Seq<Item>) -> Seq<Seq<Item>>
    decreases r.len(),
{
    if r.len() == 0 {
        Seq::<Seq<Item>>::empty()
    } else {
        let p = fill_bin(cap, r, 0, false);
        if p.1.len() < r.len() {
            seq![p.0] + pack_bins(cap, p.1)
        } else {
            seq![p.0]
        }
    }
}

/// Appending an item adds its size to the total.
pub proof fn lemma_sum_sizes_push(s: Seq<Item>, x: Item)
    ensures
        sum_sizes(s.push(x)) == sum_sizes(s) + x.size,
    decreases s.len(),
{
    if s.len() == 0 {
        assert(s.push(x)[0] == x);
        assert(s.push(x).drop_first() =~= Seq::<Item>::empty());
        assert(sum_sizes(Seq::<Item>::empty()) == 0);
        assert(sum_sizes(s.push(x)) == x.size + sum_sizes(Seq::<Item>::empty()));
        assert(sum_sizes(s) == 0);
    } else {
        assert(s.push(x).drop_first() =~= s.drop_first().push(x));
        lemma_sum_sizes_push(s.drop_first(), x);
        assert(s.push(x)[0] == s[0]);
        assert(sum_sizes(s.push(x)) == s[0].size + sum_sizes(s.drop_first().push(x)));
        assert(sum_sizes(s) == s[0].size + sum_sizes(s.drop_first()));
    }
}

/// A single pass neither loses nor invents items, keeps the open bin
/// within the capacity, and places at least one item whenever the first
/// remaining item fits.
pub proof fn lemma_fill_bin_props(cap: u32, r: Seq<Item>, sum: int, skipped: bool)
    requires
        0 <= sum <= cap,
    ensures
        fill_bin(cap, r, sum, skipped).0.to_multiset().add(
            fill_bin(cap, r, sum, skipped).1.to_multiset(),
        ) == r.to_multiset(),
        fill_bin(cap, r, sum, skipped).0.len() + fill_bin(cap, r, sum, skipped).1.len() == r.len(),
        sum + sum_sizes(fill_bin(cap, r, sum, skipped).0) <= cap,
        r.len() > 0 && sum + r[0].size <= cap ==> fill_bin(cap, r, sum, skipped).0.len() >= 1,
    decreases r.len(),
{
    broadcast use vstd::seq_lib::group_to_multiset_ensures;
    broadcast use vstd::multiset::group_multiset_axioms;

    let p = fill_bin(cap, r, sum, skipped);
    if r.len() == 0 {
        assert(p.0.to_multiset().add(p.1.to_multiset()) =~= r.to_multiset());
    } else {
        let x = r[0];
        let rest = r.drop_first();
        assert(r =~= seq![x] + rest);
        vstd::seq_lib::lemma_multiset_commutative(seq![x], rest);
        assert(seq![x] =~= Seq::<Item>::empty().push(x));
        if sum + x.size <= cap {
            if sum + x.size == cap || (rest.len() == 0 && !skipped) {
                assert(seq![x][0] == x);
                assert(seq![x].drop_first() =~= Seq::<Item>::empty());
                assert(sum_sizes(Seq::<Item>::empty()) == 0);
                assert(sum_sizes(seq![x]) == x.size + sum_sizes(seq![x].drop_first()));
                assert(sum_sizes(seq![x]) == x.size);
                assert(p.0.to_multiset().add(p.1.to_multiset()) =~= r.to_multiset());
            } else {
                let q = fill_bin(cap, rest, sum + x.size, skipped);
                lemma_fill_bin_props(cap, rest, sum + x.size, skipped);
                vstd::seq_lib::lemma_multiset_commutative(seq![x], q.0);
                assert(p.0.to_multiset().add(p.1.to_multiset()) =~= r.to_multiset());
                assert((seq![x] + q.0).drop_first() =~= q.0);
                assert(sum_sizes(p.0) == x.size + sum_sizes(q.0));
            }
        } else {
            let q = fill_bin(cap, rest, sum, true);
            lemma_fill_bin_props(cap, rest, sum, true);
            vstd::seq_lib::lemma_multiset_commutative(seq![x], q.1);
            assert(p.0.to_multiset().add(p.1.to_multiset()) =~= r.to_multiset());
        }
    }
}

/// The packing as a whole conserves the multiset of items, keeps every
/// bin within the capacity, and seals no empty bin, as long as every
/// item fits in a bin of its own.
pub proof fn lemma_pack_bins_props(cap: u32, r: Seq<Item>)
    requires
        forall|i: int| 0 <= i < r.len() ==> (#[trigger] r[i]).size <= cap,
    ensures
        pack_bins(cap, r).flatten().to_multiset() == r.to_multiset(),
        forall|i: int|
            0 <= i < pack_bins(cap, r).len() ==> sum_sizes(#[trigger] pack_bins(cap, r)[i]) <= cap,
        forall|i: int| 0 <= i < pack_bins(cap, r).len() ==> (#[trigger] pack_bins(cap, r)[i]).len() >= 1,
    decreases r.len(),
{
    broadcast use vstd::seq_lib::group_to_multiset_ensures;
    broadcast use vstd::multiset::group_multiset_axioms;

    let bs = pack_bins(cap, r);
    if r.len() == 0 {
        assert(bs.flatten().to_multiset() =~= r.to_multiset());
    } else {
        let p = fill_bin(cap, r, 0, false);
        lemma_fill_bin_props(cap, r, 0, false);
        assert(r[0].size <= cap);
        assert(p.1.len() < r.len());
        assert forall|i: int| 0 <= i < p.1.len() implies (#[trigger] p.1[i]).size <= cap by {
            assert(p.1.contains(p.1[i]));
            assert(r.to_multiset().count(p.1[i]) > 0);
            assert(r.contains(p.1[i]));
            let j = choose|j: int| 0 <= j < r.len() && r[j] == p.1[i];
            assert(r[j].size <= cap);
        }
        lemma_pack_bins_props(cap, p.1);
        let tail = pack_bins(cap, p.1);
        assert(bs == seq![p.0] + tail);
        assert(bs.drop_first() =~= tail);
        assert(bs.first() == p.0);
        assert(bs.flatten() == p.0 + tail.flatten());
        vstd::seq_lib::lemma_multiset_commutative(p.0, tail.flatten());
        assert(bs.flatten().to_multiset() =~= r.to_multiset());
        assert forall|i: int| 0 <= i < bs.len() implies sum_sizes(#[trigger] bs[i]) <= cap by {
            if i == 0 {
                assert(bs[0] == p.0);
            } else {
                assert(bs[i] == tail[i - 1]);
            }
        }
        assert forall|i: int| 0 <= i < bs.len() implies (#[trigger] bs[i]).len() >= 1 by {
            if i == 0 {
                assert(bs[0] == p.0);
            } else {
                assert(bs[i] == tail[i - 1]);
            }
        }
    }
}

/// The packer: it owns the fixed capacity that every bin must respect.
pub struct Packing {
    pub bin_size: u32,
}

impl Packing {
    /// Constructs a new `Packing` with the given bin capacity.
    pub fn new(bin_size: u32) -> (packing: Packing)
        ensures
            packing.bin_size == bin_size,
    {
        Packing { bin_size }
    }

    /// Packs the given items into bins by the best-fit-decreasing
    /// heuristic.
    ///
    /// The items are sorted into descending order of size; then, while
    /// items remain, a fresh bin is filled by one greedy pass over the
    /// remaining items and sealed. The result is exactly the bins of
    /// [`pack_bins`] on the sorted items. If any item is larger than
    /// the bin capacity, no assignment exists and the call fails with
    /// [`PackError::CapacityViolation`], returning no bins at all; on
    /// every other input it succeeds. No item is lost or duplicated, no
    /// bin outgrows the capacity, and no sealed bin is empty.
    pub fn pack_items(&mut self, packages: Vec<Item>) -> (result: Result<Vec<Bin>, PackError>)
        ensures
            *final(self) == *old(self),
            (result is Err) <==> exists|i: int|
                0 <= i < packages@.len() && (#[trigger] packages@[i]).size > old(self).bin_size,
            result is Err ==> result == Err::<Vec<Bin>, PackError>(PackError::CapacityViolation),
            result matches Ok(bins) ==> bins_view(bins@) == pack_bins(
                old(self).bin_size,
                packages@.sort_by(size_descending()),
            ),
            result matches Ok(bins) ==> bins_view(bins@).flatten().to_multiset()
                == packages@.to_multiset(),
            result matches Ok(bins) ==> forall|i: int|
                0 <= i < bins@.len() ==> sum_sizes((#[trigger] bins@[i])@) <= old(self).bin_size,
            result matches Ok(bins) ==> forall|i: int|
                0 <= i < bins@.len() ==> (#[trigger] bins@[i])@.len() >= 1,
    {
        let ghost input = packages@;
        let cap = self.bin_size;
        if packages.len() == 0 {
            let bins: Vec<Bin> = Vec::new();
            proof {
                broadcast use vstd::seq_lib::group_to_multiset_ensures;
                broadcast use vstd::multiset::group_multiset_axioms;

                crate::sorting::lemma_size_descending_total_ordering();
                input.lemma_sort_by_ensures(size_descending());
                assert(input.sort_by(size_descending()).len() == 0);
                assert(bins_view(bins@) =~= pack_bins(cap, input.sort_by(size_descending())));
                assert(bins_view(bins@).flatten().to_multiset() =~= input.to_multiset());
            }
            return Ok(bins);
        }
        let sorted = sort_descending(packages);
        if sorted[0].size > cap {
            proof {
                broadcast use vstd::seq_lib::group_to_multiset_ensures;
                broadcast use vstd::multiset::group_multiset_axioms;

                assert(sorted@.contains(sorted@[0]));
                assert(input.to_multiset().count(sorted@[0]) > 0);
                assert(input.contains(sorted@[0]));
            }
            return Err(PackError::CapacityViolation);
        }
        proof {
            broadcast use vstd::seq_lib::group_to_multiset_ensures;
            broadcast use vstd::multiset::group_multiset_axioms;

            assert forall|i: int| 0 <= i < sorted@.len() implies (#[trigger] sorted@[i]).size
                <= cap by {
                if i > 0 {
                    assert(size_descending()(sorted@[0], sorted@[i]));
                }
            }
            assert forall|i: int| 0 <= i < input.len() implies (#[trigger] input[i]).size <= cap by {
                assert(input.contains(input[i]));
                assert(sorted@.to_multiset().count(input[i]) > 0);
                assert(sorted@.contains(input[i]));
                let j = choose|j: int| 0 <= j < sorted@.len() && sorted@[j] == input[i];
                assert(sorted@[j].size <= cap);
            }
        }
        let ghost sorted_all = sorted@;
        let mut bins: Vec<Bin> = Vec::new();
        let mut rem = sorted;
        proof {
            assert(bins_view(bins@) =~= Seq::<Seq<Item>>::empty());
            assert(bins_view(bins@) + pack_bins(cap, rem@) =~= pack_bins(cap, sorted_all));
        }
        while rem.len() > 0
            invariant
                forall|i: int| 0 <= i < rem@.len() ==> (#[trigger] rem@[i]).size <= cap,
                bins_view(bins@) + pack_bins(cap, rem@) == pack_bins(cap, sorted_all),
            decreases rem@.len(),
        {
            let ghost r0 = rem@;
            let mut contents: Vec<Item> = Vec::new();
            let mut kept: Vec<Item> = Vec::new();
            let mut sum: u32 = 0;
            let mut idx: usize = 0;
            let mut sealed = false;
            proof {
                assert(r0.skip(0) =~= r0);
                assert(contents@ + fill_bin(cap, r0, 0, false).0 =~= fill_bin(cap, r0, 0, false).0);
                assert(kept@ + fill_bin(cap, r0, 0, false).1 =~= fill_bin(cap, r0, 0, false).1);
            }
            while idx < rem.len() && !sealed
                invariant
                    rem@ == r0,
                    idx <= r0.len(),
                    sum <= cap,
                    sum as int == sum_sizes(contents@),
                    !sealed ==> fill_bin(cap, r0, 0, false) == (
                        contents@ + fill_bin(cap, r0.skip(idx as int), sum as int, kept@.len() > 0).0,
                        kept@ + fill_bin(cap, r0.skip(idx as int), sum as int, kept@.len() > 0).1,
                    ),
                    sealed ==> fill_bin(cap, r0, 0, false) == (
                        contents@,
                        kept@ + r0.skip(idx as int),
                    ),
                decreases r0.len() - idx,
            {
                let x = rem[idx];
                let ghost s = r0.skip(idx as int);
                let ghost prev_contents = contents@;
                let ghost prev_kept = kept@;
                let ghost prev_sum = sum as int;
                proof {
                    assert(s[0] == r0[idx as int]);
                    assert(s.drop_first() =~= r0.skip(idx as int + 1));
                }
                if x.size <= cap - sum {
                    contents.push(x);
                    sum = sum + x.size;
                    idx = idx + 1;
                    proof {
                        lemma_sum_sizes_push(prev_contents, x);
                    }
                    if sum == cap || (idx == rem.len() && kept.len() == 0) {
                        sealed = true;
                        proof {
                            assert(fill_bin(cap, s, prev_sum, prev_kept.len() > 0) == (
                                seq![x],
                                s.drop_first(),
                            ));
                            assert(contents@ =~= prev_contents + seq![x]);
                            assert(prev_contents + seq![x] =~= prev_contents + fill_bin(
                                cap,
                                s,
                                prev_sum,
                                prev_kept.len() > 0,
                            ).0);
                        }
                    } else {
                        proof {
                            let q = fill_bin(
                                cap,
                                r0.skip(idx as int),
                                sum as int,
                                kept@.len() > 0,
                            );
                            assert(fill_bin(cap, s, prev_sum, prev_kept.len() > 0) == (
                                seq![x] + q.0,
                                q.1,
                            ));
                            assert(contents@ =~= prev_contents + seq![x]);
                            assert(contents@ + q.0 =~= prev_contents + (seq![x] + q.0));
                        }
                    }
                } else {
                    kept.push(x);
                    idx = idx + 1;
                    proof {
                        let q = fill_bin(cap, r0.skip(idx as int), sum as int, kept@.len() > 0);
                        assert(fill_bin(cap, s, prev_sum, prev_kept.len() > 0) == (
                            q.0,
                            seq![x] + q.1,
                        ));
                        assert(kept@ =~= prev_kept + seq![x]);
                        assert(kept@ + q.1 =~= prev_kept + (seq![x] + q.1));
                    }
                }
            }
            proof {
                if !sealed {
                    assert(idx == r0.len());
                    assert(r0.skip(idx as int) =~= Seq::<Item>::empty());
                    assert(fill_bin(cap, r0.skip(idx as int), sum as int, kept@.len() > 0) == (
                        Seq::<Item>::empty(),
                        Seq::<Item>::empty(),
                    ));
                    assert(contents@ + Seq::<Item>::empty() =~= contents@);
                    assert(kept@ + Seq::<Item>::empty() =~= kept@);
                    assert(kept@ + r0.skip(idx as int) =~= kept@);
                }
            }
            let ghost pass = fill_bin(cap, r0, 0, false);
            while idx < rem.len()
                invariant
                    rem@ == r0,
                    idx <= r0.len(),
                    contents@ == pass.0,
                    kept@ + r0.skip(idx as int) == pass.1,
                decreases r0.len() - idx,
            {
                let x = rem[idx];
                let ghost prev_kept = kept@;
                kept.push(x);
                idx = idx + 1;
                proof {
                    assert(r0.skip(idx as int - 1) =~= seq![x] + r0.skip(idx as int));
                    assert(kept@ =~= prev_kept + seq![x]);
                    assert(kept@ + r0.skip(idx as int) =~= prev_kept + r0.skip(idx as int - 1));
                }
            }
            proof {
                assert(r0.skip(r0.len() as int) =~= Seq::<Item>::empty());
                assert(kept@ + Seq::<Item>::empty() =~= kept@);
            }
            let ghost prev_bins = bins@;
            bins.push(Bin { contents });
            rem = kept;
            proof {
                broadcast use vstd::seq_lib::group_to_multiset_ensures;
                broadcast use vstd::multiset::group_multiset_axioms;

                lemma_fill_bin_props(cap, r0, 0, false);
                assert(pass.0.len() >= 1);
                assert(rem@.len() < r0.len());
                assert(pack_bins(cap, r0) == seq![pass.0] + pack_bins(cap, rem@));
                assert(bins_view(bins@) =~= bins_view(prev_bins).push(pass.0));
                assert(bins_view(bins@) + pack_bins(cap, rem@) =~= bins_view(prev_bins) + (
                    seq![pass.0] + pack_bins(cap, rem@)));
                assert forall|i: int| 0 <= i < rem@.len() implies (#[trigger] rem@[i]).size
                    <= cap by {
                    assert(rem@.contains(rem@[i]));
                    assert(r0.to_multiset().count(rem@[i]) > 0);
                    assert(r0.contains(rem@[i]));
                    let j = choose|j: int| 0 <= j < r0.len() && r0[j] == rem@[i];
                    assert(r0[j].size <= cap);
                }
            }
        }
        proof {
            broadcast use vstd::seq_lib::group_to_multiset_ensures;
            broadcast use vstd::multiset::group_multiset_axioms;

            assert(pack_bins(cap, rem@) =~= Seq::<Seq<Item>>::empty());
            assert(bins_view(bins@) + pack_bins(cap, rem@) =~= bins_view(bins@));
            assert(bins_view(bins@) == pack_bins(cap, sorted_all));
            crate::sorting::lemma_size_descending_total_ordering();
            input.lemma_sort_by_ensures(size_descending());
            vstd::seq_lib::lemma_sorted_unique(
                sorted_all,
                input.sort_by(size_descending()),
                size_descending(),
            );
            assert(sorted_all == input.sort_by(size_descending()));
            lemma_pack_bins_props(cap, sorted_all);
            assert(bins_view(bins@).flatten().to_multiset() == sorted_all.to_multiset());
            assert forall|i: int| 0 <= i < bins@.len() implies sum_sizes((#[trigger] bins@[i])@)
                <= cap by {
                assert(bins_view(bins@)[i] == bins@[i]@);
            }
            assert forall|i: int| 0 <= i < bins@.len() implies (#[trigger] bins@[i])@.len() >= 1 by {
                assert(bins_view(bins@)[i] == bins@[i]@);
            }
        }
        Ok(bins)
    }
}

} // verus!
