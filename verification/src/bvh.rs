//! Bounding volume hierarchies.
//!
//! A hierarchy is a binary tree over the primitives of a scene. A leaf names
//! one primitive; an interior node has two subtrees; every node carries the
//! union of the bounding boxes below it. Construction splits the primitives
//! at the median along the axis on which their hull is widest.

use crate::aabb::{lemma_contains_transitive, lemma_merge_contains, AABB};
use crate::hittable::{hull, index_range, HittableList};
use crate::sort::{all_below, key_order, lemma_key_order_total, sort_by_key};
use vstd::prelude::*;

verus! {

/// What a node of the hierarchy holds.
#[derive(Debug)]
pub enum BVHContents {
    /// Two subtrees.
    Node { left: Box<BVH>, right: Box<BVH> },
    /// One primitive, named by its index.
    Leaf(usize),
}

/// A node of the hierarchy with the box that bounds everything below it.
#[derive(Debug)]
pub struct BVH {
    pub contents: BVHContents,
    pub bounding_box: AABB,
}

/// The bounding boxes of the primitives `ids`, in that order.
pub open spec fn selected(boxes: Seq<AABB>, ids: Seq<usize>) -> Seq<AABB> {
    Seq::new(ids.len(), |k: int| boxes[ids[k] as int])
}

/// The axis on which `bb` is widest; of axes of equal width the first.
pub open spec fn widest_axis(bb: AABB) -> int {
    let a: int = if bb.extent_spec(1) > bb.extent_spec(0) {
        1
    } else {
        0
    };
    if bb.extent_spec(2) > bb.extent_spec(a) {
        2
    } else {
        a
    }
}

/// For each primitive, twice the centre of its box on `axis`.
pub open spec fn centroid_keys(boxes: Seq<AABB>, axis: int) -> Seq<i128> {
    Seq::new(boxes.len(), |i: int| boxes[i].centroid_spec(axis) as i128)
}

/// The primitives `ids` in the order in which a node splits them: sorted by
/// the centre of their boxes along the widest axis of their hull, those with
/// equal centres by index.
pub open spec fn split_order(boxes: Seq<AABB>, ids: Seq<usize>) -> Seq<usize> {
    ids.sort_by(key_order(centroid_keys(boxes, widest_axis(hull(selected(boxes, ids))))))
}

/// The primitives that go to the left subtree: the first half of the split
/// order, rounded down.
pub open spec fn left_part(boxes: Seq<AABB>, ids: Seq<usize>) -> Seq<usize> {
    Seq::new(ids.len() / 2, |k: int| split_order(boxes, ids)[k])
}

/// The primitives that go to the right subtree: the rest of the split order.
pub open spec fn right_part(boxes: Seq<AABB>, ids: Seq<usize>) -> Seq<usize> {
    Seq::new((ids.len() - ids.len() / 2) as nat, |k: int| split_order(boxes, ids)[ids.len() / 2 + k])
}

/// The hierarchy over the primitives `ids`.
///
/// One primitive makes a leaf with the primitive's own box. Two or more are
/// split at the median of the split order; the node's box is the union of
/// the boxes of its two subtrees.
pub open spec fn built(boxes: Seq<AABB>, ids: Seq<usize>) -> BVH
    decreases ids.len(),
{
    if ids.len() <= 1 {
        BVH { contents: BVHContents::Leaf(ids[0]), bounding_box: boxes[ids[0] as int] }
    } else {
        let left = built(boxes, left_part(boxes, ids));
        let right = built(boxes, right_part(boxes, ids));
        BVH {
            contents: BVHContents::Node { left: Box::new(left), right: Box::new(right) },
            bounding_box: AABB::merge_spec(left.bounding_box, right.bounding_box),
        }
    }
}

impl BVH {
    /// The primitives at the leaves, from left to right.
    pub open spec fn leaves(self) -> Seq<usize>
        decreases self,
    {
        match self.contents {
            BVHContents::Leaf(id) => seq![id],
            BVHContents::Node { left, right } => left.leaves() + right.leaves(),
        }
    }

    /// The number of nodes on the longest path from this node to a leaf.
    pub open spec fn height_spec(self) -> nat
        decreases self,
    {
        match self.contents {
            BVHContents::Leaf(_) => 1,
            BVHContents::Node { left, right } => {
                let l = left.height_spec();
                let r = right.height_spec();
                if l >= r {
                    l + 1
                } else {
                    r + 1
                }
            },
        }
    }

    /// The hierarchy fits the primitives with the bounding boxes `boxes`:
    /// every leaf names one of them and carries its box, and every interior
    /// node carries the union of the boxes of its two subtrees.
    pub open spec fn wf(self, boxes: Seq<AABB>) -> bool
        decreases self,
    {
        match self.contents {
            BVHContents::Leaf(id) => id < boxes.len() && self.bounding_box == boxes[id as int],
            BVHContents::Node { left, right } => {
                &&& left.wf(boxes)
                &&& right.wf(boxes)
                &&& self.bounding_box == AABB::merge_spec(left.bounding_box, right.bounding_box)
            },
        }
    }
}

/// The box of a hierarchy that fits its primitives holds the box of every
/// primitive at its leaves.
pub proof fn lemma_bounds_hold_leaves(tree: BVH, boxes: Seq<AABB>, k: int)
    requires
        tree.wf(boxes),
        0 <= k < tree.leaves().len(),
    ensures
        tree.leaves()[k] < boxes.len(),
        tree.bounding_box.contains(boxes[tree.leaves()[k] as int]),
    decreases tree,
{
    match tree.contents {
        BVHContents::Leaf(_) => {},
        BVHContents::Node { left, right } => {
            lemma_merge_contains(left.bounding_box, right.bounding_box);
            if k < left.leaves().len() {
                lemma_bounds_hold_leaves(*left, boxes, k);
                lemma_contains_transitive(
                    tree.bounding_box,
                    left.bounding_box,
                    boxes[tree.leaves()[k] as int],
                );
            } else {
                lemma_bounds_hold_leaves(*right, boxes, k - left.leaves().len());
                lemma_contains_transitive(
                    tree.bounding_box,
                    right.bounding_box,
                    boxes[tree.leaves()[k] as int],
                );
            }
        },
    }
}

/// The box of a hierarchy over well-formed boxes is well formed.
pub proof fn lemma_bounds_wf(tree: BVH, boxes: Seq<AABB>)
    requires
        tree.wf(boxes),
        forall|i: int| 0 <= i < boxes.len() ==> (#[trigger] boxes[i]).wf(),
    ensures
        tree.bounding_box.wf(),
    decreases tree,
{
    match tree.contents {
        BVHContents::Leaf(id) => {
            assert(boxes[id as int].wf());
        },
        BVHContents::Node { left, right } => {
            lemma_bounds_wf(*left, boxes);
            lemma_merge_contains(left.bounding_box, right.bounding_box);
        },
    }
}

/// The split order is the sorted arrangement of the primitives, and its two
/// parts make it up.
pub proof fn lemma_split_parts(boxes: Seq<AABB>, ids: Seq<usize>)
    requires
        all_below(ids, boxes.len()),
    ensures
        vstd::relations::sorted_by(
            split_order(boxes, ids),
            key_order(centroid_keys(boxes, widest_axis(hull(selected(boxes, ids))))),
        ),
        split_order(boxes, ids).len() == ids.len(),
        split_order(boxes, ids).to_multiset() == ids.to_multiset(),
        all_below(split_order(boxes, ids), boxes.len()),
        left_part(boxes, ids) + right_part(boxes, ids) == split_order(boxes, ids),
        all_below(left_part(boxes, ids), boxes.len()),
        all_below(right_part(boxes, ids), boxes.len()),
{
    broadcast use vstd::seq_lib::group_to_multiset_ensures;

    let keys = centroid_keys(boxes, widest_axis(hull(selected(boxes, ids))));
    let order = split_order(boxes, ids);
    lemma_key_order_total(keys);
    ids.lemma_sort_by_ensures(key_order(keys));
    assert(order.to_multiset().len() == order.len());
    assert(ids.to_multiset().len() == ids.len());
    assert forall|k: int| 0 <= k < order.len() implies #[trigger] order[k] < boxes.len() by {
        assert(order.contains(order[k]));
        assert(ids.to_multiset().count(order[k]) > 0);
        assert(ids.contains(order[k]));
    }
    assert(left_part(boxes, ids) + right_part(boxes, ids) =~= order);
}

/// Construction is complete: the hierarchy over `ids` fits the primitives,
/// its leaves are exactly the primitives `ids`, each once, and its box holds
/// the box of every one of them.
pub proof fn lemma_built_complete(boxes: Seq<AABB>, ids: Seq<usize>)
    requires
        ids.len() > 0,
        all_below(ids, boxes.len()),
    ensures
        built(boxes, ids).wf(boxes),
        built(boxes, ids).leaves().len() == ids.len(),
        built(boxes, ids).leaves().to_multiset() == ids.to_multiset(),
        forall|k: int|
            0 <= k < ids.len() ==> built(boxes, ids).bounding_box.contains(
                boxes[#[trigger] ids[k] as int],
            ),
    decreases ids.len(),
{
    broadcast use vstd::seq_lib::group_to_multiset_ensures;

    let tree = built(boxes, ids);
    if ids.len() == 1 {
        assert(tree.leaves() =~= ids);
    } else {
        let l = left_part(boxes, ids);
        let r = right_part(boxes, ids);
        lemma_split_parts(boxes, ids);
        lemma_built_complete(boxes, l);
        lemma_built_complete(boxes, r);
        vstd::seq_lib::lemma_multiset_commutative(l, r);
        vstd::seq_lib::lemma_multiset_commutative(built(boxes, l).leaves(), built(boxes, r).leaves());
    }
    assert forall|k: int| 0 <= k < ids.len() implies tree.bounding_box.contains(
        boxes[#[trigger] ids[k] as int],
    ) by {
        assert(ids.contains(ids[k]));
        assert(tree.leaves().to_multiset().count(ids[k]) > 0);
        assert(tree.leaves().contains(ids[k]));
        let m = choose|m: int| 0 <= m < tree.leaves().len() && tree.leaves()[m] == ids[k];
        lemma_bounds_hold_leaves(tree, boxes, m);
    }
}

/// The height of a hierarchy over `n` primitives: one level for a single
/// primitive, and one more than for the larger half for two or more.
pub open spec fn levels(n: nat) -> nat
    decreases n,
{
    if n <= 1 {
        1
    } else {
        1 + levels((n - n / 2) as nat)
    }
}

/// More primitives never make a lower hierarchy.
pub proof fn lemma_levels_monotonic(m: nat, n: nat)
    requires
        m <= n,
    ensures
        levels(m) <= levels(n),
    decreases n,
{
    if m > 1 {
        lemma_levels_monotonic((m - m / 2) as nat, (n - n / 2) as nat);
    }
}

/// The height grows with the logarithm of the number of primitives: fewer
/// than `2^k` primitives make at most `k + 1` levels.
pub proof fn lemma_levels_logarithmic(n: nat, k: nat)
    requires
        n <= vstd::arithmetic::power2::pow2(k),
    ensures
        levels(n) <= k + 1,
    decreases k,
{
    vstd::arithmetic::power2::lemma2_to64();
    if n > 1 {
        if k == 0 {
        } else {
            vstd::arithmetic::power2::lemma_pow2_unfold(k);
            lemma_levels_logarithmic((n - n / 2) as nat, (k - 1) as nat);
        }
    }
}

/// Construction is balanced: the height of the hierarchy over `ids` is
/// `levels` of their number.
pub proof fn lemma_built_height(boxes: Seq<AABB>, ids: Seq<usize>)
    ensures
        built(boxes, ids).height_spec() == levels(ids.len()),
    decreases ids.len(),
{
    if ids.len() > 1 {
        lemma_built_height(boxes, left_part(boxes, ids));
        lemma_built_height(boxes, right_part(boxes, ids));
        lemma_levels_monotonic(ids.len() / 2, (ids.len() - ids.len() / 2) as nat);
    }
}

/// The axis on which `bb` is widest; of axes of equal width the first.
pub fn widest(bb: &AABB) -> (axis: i32)
    ensures
        axis == widest_axis(*bb),
        0 <= axis < 3,
{
    let a: i32 = if bb.extent(1) > bb.extent(0) {
        1
    } else {
        0
    };
    if bb.extent(2) > bb.extent(a) {
        2
    } else {
        a
    }
}

/// For each primitive, twice the centre of its box on `axis`.
fn centroids(boxes: &Vec<AABB>, axis: i32) -> (keys: Vec<i128>)
    requires
        0 <= axis < 3,
    ensures
        keys@ == centroid_keys(boxes@, axis as int),
{
    let mut keys: Vec<i128> = Vec::new();
    let mut i: usize = 0;
    while i < boxes.len()
        invariant
            0 <= axis < 3,
            i <= boxes.len(),
            keys@.len() == i,
            forall|k: int| 0 <= k < i ==> keys@[k] == boxes@[k].centroid_spec(axis as int),
        decreases boxes.len() - i,
    {
        keys.push(boxes[i].centroid(axis));
        i += 1;
    }
    assert(keys@ =~= centroid_keys(boxes@, axis as int));
    keys
}

/// The union of the boxes of the primitives `ids`.
fn hull_of(boxes: &Vec<AABB>, ids: &Vec<usize>) -> (bb: AABB)
    requires
        ids@.len() > 0,
        all_below(ids@, boxes@.len()),
    ensures
        bb == hull(selected(boxes@, ids@)),
{
    let mut bb = boxes[ids[0]];
    let mut k: usize = 1;
    assert(selected(boxes@, ids@.take(1)) =~= seq![boxes@[ids@[0] as int]]);
    while k < ids.len()
        invariant
            1 <= k <= ids.len(),
            all_below(ids@, boxes@.len()),
            bb == hull(selected(boxes@, ids@.take(k as int))),
        decreases ids.len() - k,
    {
        bb.expand(&boxes[ids[k]]);
        assert(selected(boxes@, ids@.take(k + 1)).drop_last() =~= selected(
            boxes@,
            ids@.take(k as int),
        ));
        k += 1;
    }
    assert(ids@.take(k as int) =~= ids@);
    bb
}

/// Builds the hierarchy over the primitives `ids`; `keys_x`, `keys_y` and
/// `keys_z` hold the centroid keys of all primitives on the three axes.
fn build(
    boxes: &Vec<AABB>,
    keys_x: &Vec<i128>,
    keys_y: &Vec<i128>,
    keys_z: &Vec<i128>,
    ids: Vec<usize>,
) -> (tree: BVH)
    requires
        ids@.len() > 0,
        all_below(ids@, boxes@.len()),
        keys_x@ == centroid_keys(boxes@, 0),
        keys_y@ == centroid_keys(boxes@, 1),
        keys_z@ == centroid_keys(boxes@, 2),
    ensures
        tree == built(boxes@, ids@),
    decreases ids@.len(),
{
    let n = ids.len();
    if n == 1 {
        return BVH { contents: BVHContents::Leaf(ids[0]), bounding_box: boxes[ids[0]] };
    }
    let bb = hull_of(boxes, &ids);
    let axis = widest(&bb);
    let keys = if axis == 0 {
        keys_x
    } else if axis == 1 {
        keys_y
    } else {
        keys_z
    };
    proof {
        lemma_split_parts(boxes@, ids@);
    }
    let mut left_ids = sort_by_key(ids, keys);
    let right_ids = left_ids.split_off(n / 2);
    assert(left_ids@ =~= left_part(boxes@, ids@));
    assert(right_ids@ =~= right_part(boxes@, ids@));
    let right = build(boxes, keys_x, keys_y, keys_z, right_ids);
    let left = build(boxes, keys_x, keys_y, keys_z, left_ids);
    BVH {
        bounding_box: AABB::merge(&left.bounding_box, &right.bounding_box),
        contents: BVHContents::Node { left: Box::new(left), right: Box::new(right) },
    }
}

impl BVH {
    /// Builds the hierarchy over all primitives of a scene, `objs[i]` being
    /// the bounding box of primitive `i`. There must be at least one.
    ///
    /// The result is a function of the boxes alone. Its leaves are exactly
    /// the primitives, each once, and its box holds every primitive's box.
    pub fn new(objs: Vec<AABB>) -> (tree: BVH)
        requires
            objs@.len() > 0,
        ensures
            tree == built(objs@, index_range(0, objs@.len())),
            tree.wf(objs@),
            tree.leaves().len() == objs@.len(),
            tree.leaves().to_multiset() == index_range(0, objs@.len()).to_multiset(),
            forall|i: int| 0 <= i < objs@.len() ==> tree.bounding_box.contains(#[trigger] objs@[i]),
            (forall|i: int| 0 <= i < objs@.len() ==> (#[trigger] objs@[i]).wf())
                ==> tree.bounding_box.wf(),
            tree.height_spec() == levels(objs@.len()),
            tree.height_spec() <= 65,
    {
        let n = objs.len();
        let mut ids: Vec<usize> = Vec::new();
        let mut i: usize = 0;
        while i < n
            invariant
                i <= n,
                ids@.len() == i,
                forall|k: int| 0 <= k < i ==> ids@[k] == k,
            decreases n - i,
        {
            ids.push(i);
            i += 1;
        }
        assert(ids@ =~= index_range(0, n as nat));
        let keys_x = centroids(&objs, 0);
        let keys_y = centroids(&objs, 1);
        let keys_z = centroids(&objs, 2);
        let tree = build(&objs, &keys_x, &keys_y, &keys_z, ids);
        proof {
            lemma_built_complete(objs@, ids@);
            if forall|i: int| 0 <= i < objs@.len() ==> (#[trigger] objs@[i]).wf() {
                lemma_bounds_wf(tree, objs@);
            }
            lemma_built_height(objs@, ids@);
            vstd::arithmetic::power2::lemma2_to64();
            vstd::arithmetic::power2::lemma2_to64_rest();
            lemma_levels_logarithmic(objs@.len(), 64);
            assert forall|i: int| 0 <= i < objs@.len() implies tree.bounding_box.contains(
                #[trigger] objs@[i],
            ) by {
                assert(ids@[i] == i);
            }
        }
        tree
    }

    /// Builds the hierarchy over the primitives of a list, which must not be
    /// empty.
    pub fn from_hittable_list(h: HittableList) -> (tree: BVH)
        requires
            h.list@.len() > 0,
        ensures
            tree == built(h.list@, index_range(0, h.list@.len())),
            tree.wf(h.list@),
            tree.leaves().len() == h.list@.len(),
            tree.leaves().to_multiset() == index_range(0, h.list@.len()).to_multiset(),
            forall|i: int|
                0 <= i < h.list@.len() ==> tree.bounding_box.contains(#[trigger] h.list@[i]),
            (forall|i: int| 0 <= i < h.list@.len() ==> (#[trigger] h.list@[i]).wf())
                ==> tree.bounding_box.wf(),
            tree.height_spec() == levels(h.list@.len()),
            tree.height_spec() <= 65,
    {
        BVH::new(h.list)
    }

    /// The box that bounds everything below this node.
    pub fn bounding_box(&self) -> (bb: AABB)
        ensures
            bb == self.bounding_box,
    {
        self.bounding_box
    }

    /// The number of nodes on the longest path from this node to a leaf: 1
    /// for a leaf, one more than the higher subtree for an interior node.
    pub fn height(&self) -> (h: i32)
        requires
            self.height_spec() <= i32::MAX,
        ensures
            h == self.height_spec(),
        decreases self,
    {
        match &self.contents {
            BVHContents::Leaf(_) => 1,
            BVHContents::Node { left, right } => {
                let l = left.height();
                let r = right.height();
                if l >= r {
                    l + 1
                } else {
                    r + 1
                }
            },
        }
    }
}

} // verus!
