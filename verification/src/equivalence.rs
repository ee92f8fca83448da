//! A hierarchy and a list find the same closest hit.
//!
//! The queries of this library do not know what a ray or a shape is; they
//! see the answers of two tests. The laws here hold for tests that behave as
//! intersection tests do:
//!
//! - a primitive has at most one candidate parameter on the ray from `t_min`
//!   on, its nearest, and its test over an interval answers with that
//!   candidate if the interval reaches it;
//! - a ray that hits a primitive within an interval passes, over that
//!   interval, every box that holds the primitive's box.

use crate::aabb::AABB;
use crate::bvh::{lemma_bounds_hold_leaves, BVHContents, BVH};
use crate::hittable::{index_range, scan_model, HitRecord};
use vstd::prelude::*;

verus! {

/// The candidate `nearest` as seen over an interval that ends at `t_max`.
pub open spec fn within(nearest: Option<i64>, t_max: i64) -> Option<i64> {
    match nearest {
        Some(t) => if t <= t_max {
            Some(t)
        } else {
            None
        },
        None => None,
    }
}

/// Over every interval from `t_min` on, the test of a primitive answers with
/// the primitive's nearest candidate, if the interval reaches it.
pub open spec fn answers_nearest(
    test: spec_fn(usize, i64, i64) -> Option<i64>,
    nearest: spec_fn(usize) -> Option<i64>,
    t_min: i64,
) -> bool {
    forall|id: usize, t_max: i64| #[trigger] test(id, t_min, t_max) == within(nearest(id), t_max)
}

/// The box test never fails a box that holds the box of a primitive which
/// the ray hits within the interval.
pub open spec fn box_test_sound(
    box_test: spec_fn(AABB, i64, i64) -> bool,
    test: spec_fn(usize, i64, i64) -> Option<i64>,
    boxes: Seq<AABB>,
    t_min: i64,
) -> bool {
    forall|bb: AABB, id: usize, t_max: i64|
        #![trigger box_test(bb, t_min, t_max), test(id, t_min, t_max)]
        id < boxes.len() && bb.contains(boxes[id as int]) && test(id, t_min, t_max) is Some
            ==> box_test(bb, t_min, t_max)
}

/// Some primitive of `ids` has its nearest candidate at or below `bound`.
pub open spec fn reaches(nearest: spec_fn(usize) -> Option<i64>, ids: Seq<usize>, bound: i64) -> bool {
    exists|k: int| 0 <= k < ids.len() && within(nearest(#[trigger] ids[k]), bound) is Some
}

/// The least of `bound` and the nearest candidates of the primitives `ids`.
pub open spec fn least(nearest: spec_fn(usize) -> Option<i64>, ids: Seq<usize>, bound: i64) -> i64
    decreases ids.len(),
{
    if ids.len() == 0 {
        bound
    } else {
        let first = match within(nearest(ids[0]), bound) {
            Some(t) => t,
            None => bound,
        };
        least(nearest, ids.drop_first(), first)
    }
}

/// `rec` is a hit of one of the primitives `ids` at that primitive's nearest
/// candidate, and no candidate of `ids`, nor `bound`, lies below it.
pub open spec fn is_closest(
    nearest: spec_fn(usize) -> Option<i64>,
    ids: Seq<usize>,
    bound: i64,
    rec: HitRecord,
) -> bool {
    &&& ids.contains(rec.id)
    &&& nearest(rec.id) == Some(rec.t)
    &&& rec.t <= bound
    &&& forall|k: int|
        0 <= k < ids.len() ==> (nearest(#[trigger] ids[k]) matches Some(t) ==> rec.t <= t)
}

/// `least` is the minimum of the bound and the candidates: it is below them
/// all, and it is one of them.
pub proof fn lemma_least_is_minimum(
    nearest: spec_fn(usize) -> Option<i64>,
    ids: Seq<usize>,
    bound: i64,
)
    ensures
        least(nearest, ids, bound) <= bound,
        forall|k: int|
            0 <= k < ids.len() ==> (nearest(#[trigger] ids[k]) matches Some(t) ==> least(
                nearest,
                ids,
                bound,
            ) <= t),
        reaches(nearest, ids, bound) ==> exists|k: int|
            0 <= k < ids.len() && nearest(#[trigger] ids[k]) == Some(least(nearest, ids, bound)),
        !reaches(nearest, ids, bound) ==> least(nearest, ids, bound) == bound,
    decreases ids.len(),
{
    if ids.len() > 0 {
        let rest = ids.drop_first();
        let first = match within(nearest(ids[0]), bound) {
            Some(t) => t,
            None => bound,
        };
        lemma_least_is_minimum(nearest, rest, first);
        let m = least(nearest, ids, bound);
        assert forall|k: int| 0 <= k < ids.len() implies (nearest(#[trigger] ids[k]) matches Some(t)
            ==> m <= t) by {
            if k > 0 {
                assert(ids[k] == rest[k - 1]);
            }
        }
        if reaches(nearest, ids, bound) {
            if reaches(nearest, rest, first) {
                let k = choose|k: int|
                    0 <= k < rest.len() && nearest(#[trigger] rest[k]) == Some(m);
                assert(ids[k + 1] == rest[k]);
            } else {
                let k = choose|k: int|
                    0 <= k < ids.len() && within(nearest(#[trigger] ids[k]), bound) is Some;
                if k > 0 {
                    assert(ids[k] == rest[k - 1]);
                    assert(within(nearest(rest[k - 1]), first) is None);
                }
                assert(within(nearest(ids[0]), bound) is Some);
                assert(nearest(ids[0]) == Some(m));
            }
        } else {
            assert(within(nearest(ids[0]), bound) is None);
            assert forall|k: int| 0 <= k < rest.len() implies within(
                nearest(#[trigger] rest[k]),
                first,
            ) is None by {
                assert(ids[k + 1] == rest[k]);
            }
        }
    }
}

/// Two arrangements of the same primitives have the same least candidate,
/// and one reaches the bound if the other does.
pub proof fn lemma_least_of_rearranged(
    nearest: spec_fn(usize) -> Option<i64>,
    a: Seq<usize>,
    b: Seq<usize>,
    bound: i64,
)
    requires
        a.to_multiset() == b.to_multiset(),
    ensures
        least(nearest, a, bound) == least(nearest, b, bound),
        reaches(nearest, a, bound) == reaches(nearest, b, bound),
{
    broadcast use vstd::seq_lib::group_to_multiset_ensures;

    lemma_least_is_minimum(nearest, a, bound);
    lemma_least_is_minimum(nearest, b, bound);
    assert forall|k: int| 0 <= k < a.len() implies b.contains(#[trigger] a[k]) by {
        assert(a.contains(a[k]));
        assert(b.to_multiset().count(a[k]) > 0);
    }
    assert forall|k: int| 0 <= k < b.len() implies a.contains(#[trigger] b[k]) by {
        assert(b.contains(b[k]));
        assert(a.to_multiset().count(b[k]) > 0);
    }
    if reaches(nearest, a, bound) {
        let k = choose|k: int| 0 <= k < a.len() && within(nearest(#[trigger] a[k]), bound) is Some;
        let j = choose|j: int| 0 <= j < b.len() && b[j] == a[k];
        assert(within(nearest(b[j]), bound) is Some);
        let k2 = choose|k: int|
            0 <= k < a.len() && nearest(#[trigger] a[k]) == Some(least(nearest, a, bound));
        let j2 = choose|j: int| 0 <= j < b.len() && b[j] == a[k2];
        assert(nearest(b[j2]) == Some(least(nearest, a, bound)));
    }
    if reaches(nearest, b, bound) {
        let k = choose|k: int| 0 <= k < b.len() && within(nearest(#[trigger] b[k]), bound) is Some;
        let j = choose|j: int| 0 <= j < a.len() && a[j] == b[k];
        assert(within(nearest(a[j]), bound) is Some);
        let k2 = choose|k: int|
            0 <= k < b.len() && nearest(#[trigger] b[k]) == Some(least(nearest, b, bound));
        let j2 = choose|j: int| 0 <= j < a.len() && a[j] == b[k2];
        assert(nearest(a[j2]) == Some(least(nearest, b, bound)));
    }
}

/// The least candidate of two runs of primitives is the least of the second
/// run below the least of the first.
pub proof fn lemma_least_concat(
    nearest: spec_fn(usize) -> Option<i64>,
    a: Seq<usize>,
    b: Seq<usize>,
    bound: i64,
)
    ensures
        least(nearest, a + b, bound) == least(nearest, b, least(nearest, a, bound)),
    decreases a.len(),
{
    if a.len() == 0 {
        assert(a + b =~= b);
    } else {
        let first = match within(nearest(a[0]), bound) {
            Some(t) => t,
            None => bound,
        };
        assert((a + b).drop_first() =~= a.drop_first() + b);
        assert((a + b)[0] == a[0]);
        lemma_least_concat(nearest, a.drop_first(), b, first);
    }
}

/// A scan finds the closest hit: if a primitive of `ids` has its candidate
/// at or below `bound`, the scan yields a hit at the least candidate, else
/// it yields the hit it began with.
pub proof fn lemma_scan_finds_least(
    test: spec_fn(usize, i64, i64) -> Option<i64>,
    nearest: spec_fn(usize) -> Option<i64>,
    ids: Seq<usize>,
    t_min: i64,
    bound: i64,
    hit: Option<HitRecord>,
)
    requires
        answers_nearest(test, nearest, t_min),
    ensures
        reaches(nearest, ids, bound) ==> (scan_model(test, ids, t_min, bound, hit) matches Some(rec)
            && rec.t == least(nearest, ids, bound) && ids.contains(rec.id) && nearest(rec.id)
            == Some(rec.t)),
        !reaches(nearest, ids, bound) ==> scan_model(test, ids, t_min, bound, hit) == hit,
    decreases ids.len(),
{
    if ids.len() > 0 {
        let rest = ids.drop_first();
        assert(test(ids[0], t_min, bound) == within(nearest(ids[0]), bound));
        assert forall|k: int| 0 <= k < rest.len() implies ids.contains(#[trigger] rest[k]) by {
            assert(ids[k + 1] == rest[k]);
        }
        match within(nearest(ids[0]), bound) {
            Some(t) => {
                let found = Some(HitRecord { t, id: ids[0] });
                lemma_scan_finds_least(test, nearest, rest, t_min, t, found);
                lemma_least_is_minimum(nearest, rest, t);
                assert(ids.contains(ids[0]));
                if reaches(nearest, rest, t) {
                    let rec = scan_model(test, rest, t_min, t, found).unwrap();
                    let k = choose|k: int| 0 <= k < rest.len() && rest[k] == rec.id;
                    assert(ids.contains(rest[k]));
                }
            },
            None => {
                lemma_scan_finds_least(test, nearest, rest, t_min, bound, hit);
                if reaches(nearest, ids, bound) {
                    let k = choose|k: int|
                        0 <= k < ids.len() && within(nearest(#[trigger] ids[k]), bound) is Some;
                    assert(ids[k] == rest[k - 1]);
                    let rec = scan_model(test, rest, t_min, bound, hit).unwrap();
                    let j = choose|j: int| 0 <= j < rest.len() && rest[j] == rec.id;
                    assert(ids.contains(rest[j]));
                } else {
                    assert forall|k: int| 0 <= k < rest.len() implies within(
                        nearest(#[trigger] rest[k]),
                        bound,
                    ) is None by {
                        assert(ids[k + 1] == rest[k]);
                    }
                }
            },
        }
    }
}

/// A walk finds the closest hit: if a primitive at the leaves of `tree` has
/// its candidate at or below `bound`, the walk yields a hit at the least
/// candidate, else it yields nothing. Skipping the nodes whose boxes the ray
/// misses loses no hit.
pub proof fn lemma_walk_finds_least(
    tree: BVH,
    boxes: Seq<AABB>,
    box_test: spec_fn(AABB, i64, i64) -> bool,
    test: spec_fn(usize, i64, i64) -> Option<i64>,
    nearest: spec_fn(usize) -> Option<i64>,
    t_min: i64,
    bound: i64,
)
    requires
        tree.wf(boxes),
        answers_nearest(test, nearest, t_min),
        box_test_sound(box_test, test, boxes, t_min),
    ensures
        reaches(nearest, tree.leaves(), bound) ==> (tree.hit_model(box_test, test, t_min, bound) matches Some(
            rec,
        ) && rec.t == least(nearest, tree.leaves(), bound) && tree.leaves().contains(rec.id)
            && nearest(rec.id) == Some(rec.t)),
        !reaches(nearest, tree.leaves(), bound) ==> tree.hit_model(box_test, test, t_min, bound)
            is None,
    decreases tree,
{
    let leaves = tree.leaves();
    if !box_test(tree.bounding_box, t_min, bound) {
        assert forall|k: int| 0 <= k < leaves.len() implies within(
            nearest(#[trigger] leaves[k]),
            bound,
        ) is None by {
            lemma_bounds_hold_leaves(tree, boxes, k);
            assert(test(leaves[k], t_min, bound) == within(nearest(leaves[k]), bound));
        }
    } else {
        match tree.contents {
            BVHContents::Leaf(id) => {
                assert(leaves[0] == id);
                assert(test(id, t_min, bound) == within(nearest(id), bound));
                assert(leaves.drop_first().len() == 0);
                match within(nearest(id), bound) {
                    Some(t) => {
                        assert(leaves.contains(id));
                        assert(least(nearest, leaves.drop_first(), t) == t);
                    },
                    None => {
                        assert forall|k: int| 0 <= k < leaves.len() implies within(
                            nearest(#[trigger] leaves[k]),
                            bound,
                        ) is None by {}
                    },
                }
            },
            BVHContents::Node { left, right } => {
                let a = left.leaves();
                let b = right.leaves();
                lemma_walk_finds_least(*left, boxes, box_test, test, nearest, t_min, bound);
                let l = left.hit_model(box_test, test, t_min, bound);
                let cut = match l {
                    Some(rec) => rec.t,
                    None => bound,
                };
                lemma_least_is_minimum(nearest, a, bound);
                assert(cut == least(nearest, a, bound));
                lemma_walk_finds_least(*right, boxes, box_test, test, nearest, t_min, cut);
                lemma_least_concat(nearest, a, b, bound);
                lemma_least_is_minimum(nearest, b, cut);
                assert forall|k: int| 0 <= k < a.len() implies leaves[k] == a[k] by {}
                assert forall|k: int| 0 <= k < b.len() implies leaves[a.len() + k] == b[k] by {}
                if reaches(nearest, b, cut) {
                    let rec = right.hit_model(box_test, test, t_min, cut).unwrap();
                    let k = choose|k: int| 0 <= k < b.len() && b[k] == rec.id;
                    assert(leaves[a.len() + k] == rec.id);
                    let j = choose|j: int|
                        0 <= j < b.len() && within(nearest(#[trigger] b[j]), cut) is Some;
                    assert(within(nearest(leaves[a.len() + j]), bound) is Some);
                } else if reaches(nearest, a, bound) {
                    let rec = l.unwrap();
                    let k = choose|k: int| 0 <= k < a.len() && a[k] == rec.id;
                    assert(leaves[k] == rec.id);
                    let j = choose|j: int|
                        0 <= j < a.len() && within(nearest(#[trigger] a[j]), bound) is Some;
                    assert(within(nearest(leaves[j]), bound) is Some);
                } else {
                    assert forall|k: int| 0 <= k < leaves.len() implies within(
                        nearest(#[trigger] leaves[k]),
                        bound,
                    ) is None by {
                        if k < a.len() {
                            assert(leaves[k] == a[k]);
                        } else {
                            assert(leaves[k] == b[k - a.len()]);
                        }
                    }
                }
            },
        }
    }
}

/// A hierarchy and a list agree on the closest hit.
///
/// Let `tree` fit the primitives with the boxes `boxes` and have exactly
/// them at its leaves, and let the two tests behave as intersection tests
/// do. Then for every interval the walk of the hierarchy and the scan of the
/// list both miss or both hit, at the same parameter; each names a primitive
/// whose candidate that parameter is; and no primitive has a candidate
/// below it. Where two primitives share the least candidate, the two may
/// name different ones.
pub proof fn lemma_bvh_agrees_with_list(
    tree: BVH,
    boxes: Seq<AABB>,
    box_test: spec_fn(AABB, i64, i64) -> bool,
    test: spec_fn(usize, i64, i64) -> Option<i64>,
    nearest: spec_fn(usize) -> Option<i64>,
    t_min: i64,
    t_max: i64,
)
    requires
        tree.wf(boxes),
        tree.leaves().to_multiset() == index_range(0, boxes.len()).to_multiset(),
        answers_nearest(test, nearest, t_min),
        box_test_sound(box_test, test, boxes, t_min),
    ensures
        ({
            let walked = tree.hit_model(box_test, test, t_min, t_max);
            let scanned = scan_model(test, index_range(0, boxes.len()), t_min, t_max, None);
            &&& walked is Some <==> scanned is Some
            &&& walked matches Some(w) ==> {
                &&& scanned matches Some(s) && w.t == s.t
                &&& is_closest(nearest, index_range(0, boxes.len()), t_max, w)
                &&& is_closest(nearest, index_range(0, boxes.len()), t_max, scanned.unwrap())
            }
        }),
{
    broadcast use vstd::seq_lib::group_to_multiset_ensures;

    let all = index_range(0, boxes.len());
    let leaves = tree.leaves();
    lemma_walk_finds_least(tree, boxes, box_test, test, nearest, t_min, t_max);
    lemma_scan_finds_least(test, nearest, all, t_min, t_max, None);
    lemma_least_of_rearranged(nearest, leaves, all, t_max);
    lemma_least_is_minimum(nearest, all, t_max);
    if reaches(nearest, all, t_max) {
        let w = tree.hit_model(box_test, test, t_min, t_max).unwrap();
        assert(leaves.contains(w.id));
        assert(all.to_multiset().count(w.id) > 0);
        assert(all.contains(w.id));
    }
}

} // verus!
