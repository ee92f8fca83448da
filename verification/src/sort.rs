//! Sorting of item indices by key.
//!
//! Items are named by index and `keys[i]` is the key of item `i`. Indices are
//! ordered by key, and indices with equal keys by their own value, so the
//! order is total and a sorted arrangement of given indices is unique.

use vstd::prelude::*;
use vstd::relations::{sorted_by, total_ordering};

verus! {

/// Item `a` comes no later than item `b`: its key is smaller, or the keys are
/// equal and `a` is not the larger index.
pub open spec fn key_le(keys: Seq<i128>, a: usize, b: usize) -> bool {
    keys[a as int] < keys[b as int] || (keys[a as int] == keys[b as int] && a <= b)
}

/// The order of item indices under `keys`, as a relation.
pub open spec fn key_order(keys: Seq<i128>) -> spec_fn(usize, usize) -> bool {
    |a: usize, b: usize| key_le(keys, a, b)
}

/// Every index in `ids` names an item: it is below `len`.
pub open spec fn all_below(ids: Seq<usize>, len: nat) -> bool {
    forall|k: int| 0 <= k < ids.len() ==> #[trigger] ids[k] < len
}

/// The order of item indices is total.
pub proof fn lemma_key_order_total(keys: Seq<i128>)
    ensures
        total_ordering(key_order(keys)),
{
    let r = key_order(keys);
    assert forall|x: usize, y: usize| #[trigger] r(x, y) && #[trigger] r(y, x) implies x == y by {}
}

/// Sorted arrangements are unique: a sorted sequence with the elements of
/// `ids` is `ids.sort_by(key_order(keys))`.
pub proof fn lemma_sorted_is_sort_by(keys: Seq<i128>, ids: Seq<usize>, out: Seq<usize>)
    requires
        sorted_by(out, key_order(keys)),
        out.to_multiset() == ids.to_multiset(),
    ensures
        out == ids.sort_by(key_order(keys)),
        out.len() == ids.len(),
{
    broadcast use vstd::seq_lib::group_to_multiset_ensures;

    lemma_key_order_total(keys);
    ids.lemma_sort_by_ensures(key_order(keys));
    vstd::seq_lib::lemma_sorted_unique(out, ids.sort_by(key_order(keys)), key_order(keys));
    assert(out.to_multiset().len() == out.len());
    assert(ids.to_multiset().len() == ids.len());
}

/// Merges two sorted runs into one.
fn merge(left: &Vec<usize>, right: &Vec<usize>, keys: &Vec<i128>) -> (out: Vec<usize>)
    requires
        all_below(left@, keys@.len()),
        all_below(right@, keys@.len()),
        sorted_by(left@, key_order(keys@)),
        sorted_by(right@, key_order(keys@)),
    ensures
        all_below(out@, keys@.len()),
        sorted_by(out@, key_order(keys@)),
        out@.to_multiset() == left@.to_multiset().add(right@.to_multiset()),
{
    broadcast use vstd::seq_lib::group_to_multiset_ensures;
    broadcast use vstd::multiset::group_multiset_axioms;

    let mut out: Vec<usize> = Vec::new();
    let mut i: usize = 0;
    let mut j: usize = 0;
    assert(left@.take(0) =~= Seq::empty());
    assert(right@.take(0) =~= Seq::empty());
    assert(out@.to_multiset() =~= left@.take(0).to_multiset().add(right@.take(0).to_multiset()));
    while i < left.len() || j < right.len()
        invariant
            i <= left.len(),
            j <= right.len(),
            all_below(left@, keys@.len()),
            all_below(right@, keys@.len()),
            all_below(out@, keys@.len()),
            sorted_by(left@, key_order(keys@)),
            sorted_by(right@, key_order(keys@)),
            sorted_by(out@, key_order(keys@)),
            out@.len() == i + j,
            out@.to_multiset() == left@.take(i as int).to_multiset().add(
                right@.take(j as int).to_multiset(),
            ),
            forall|k: int, m: int|
                #![trigger out@[k], left@[m]]
                0 <= k < out@.len() && i <= m < left@.len() ==> key_le(keys@, out@[k], left@[m]),
            forall|k: int, m: int|
                #![trigger out@[k], right@[m]]
                0 <= k < out@.len() && j <= m < right@.len() ==> key_le(keys@, out@[k], right@[m]),
        decreases left.len() - i + (right.len() - j),
    {
        broadcast use vstd::multiset::group_multiset_axioms;

        let take_left = if i >= left.len() {
            false
        } else if j >= right.len() {
            true
        } else {
            let a = left[i];
            let b = right[j];
            keys[a] < keys[b] || (keys[a] == keys[b] && a <= b)
        };
        let ghost before = out@;
        if take_left {
            let a = left[i];
            assert(left@.take(i + 1) =~= left@.take(i as int).push(a));
            assert forall|m: int| i <= m < left@.len() implies key_le(keys@, a, #[trigger] left@[m]) by {
                if m > i {
                    assert(key_order(keys@)(left@[i as int], left@[m]));
                }
            }
            assert forall|m: int| j <= m < right@.len() implies key_le(
                keys@,
                a,
                #[trigger] right@[m],
            ) by {
                assert(key_le(keys@, a, right@[j as int]));
                if m > j {
                    assert(key_order(keys@)(right@[j as int], right@[m]));
                }
            }
            out.push(a);
            proof {
                vstd::seq_lib::to_multiset_build(before, a);
                vstd::seq_lib::to_multiset_build(left@.take(i as int), a);
            }
            i += 1;
        } else {
            let b = right[j];
            assert(right@.take(j + 1) =~= right@.take(j as int).push(b));
            assert forall|m: int| j <= m < right@.len() implies key_le(
                keys@,
                b,
                #[trigger] right@[m],
            ) by {
                if m > j {
                    assert(key_order(keys@)(right@[j as int], right@[m]));
                }
            }
            assert forall|m: int| i <= m < left@.len() implies key_le(keys@, b, #[trigger] left@[m]) by {
                assert(key_le(keys@, b, left@[i as int]));
                if m > i {
                    assert(key_order(keys@)(left@[i as int], left@[m]));
                }
            }
            out.push(b);
            proof {
                vstd::seq_lib::to_multiset_build(before, b);
                vstd::seq_lib::to_multiset_build(right@.take(j as int), b);
            }
            j += 1;
        }
        assert forall|p: int, q: int| 0 <= p < q < out@.len() implies #[trigger] key_order(keys@)(
            out@[p],
            out@[q],
        ) by {
            if q < before.len() {
                assert(key_order(keys@)(before[p], before[q]));
            }
        }
        assert(out@.to_multiset() =~= left@.take(i as int).to_multiset().add(
            right@.take(j as int).to_multiset(),
        ));
    }
    assert(left@.take(i as int) =~= left@);
    assert(right@.take(j as int) =~= right@);
    out
}

/// Sorts item indices by key, and indices with equal keys by their own value.
///
/// The result is the one sorted arrangement of `ids`.
pub fn sort_by_key(ids: Vec<usize>, keys: &Vec<i128>) -> (out: Vec<usize>)
    requires
        all_below(ids@, keys@.len()),
    ensures
        all_below(out@, keys@.len()),
        sorted_by(out@, key_order(keys@)),
        out@.to_multiset() == ids@.to_multiset(),
        out@.len() == ids@.len(),
        out@ == ids@.sort_by(key_order(keys@)),
    decreases ids@.len(),
{
    let n = ids.len();
    if n <= 1 {
        proof {
            lemma_sorted_is_sort_by(keys@, ids@, ids@);
        }
        return ids;
    }
    let mut left = ids;
    let right = left.split_off(n / 2);
    proof {
        assert(ids@ =~= left@ + right@);
        vstd::seq_lib::lemma_multiset_commutative(left@, right@);
    }
    let left = sort_by_key(left, keys);
    let right = sort_by_key(right, keys);
    let out = merge(&left, &right, keys);
    proof {
        lemma_sorted_is_sort_by(keys@, ids@, out@);
    }
    out
}

} // verus!
