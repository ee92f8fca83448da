//! Closest-hit queries against a list of primitives.
//!
//! The library does not intersect rays with shapes: the test of a ray
//! against a primitive is a function of the caller, which is given the
//! primitive and the interval of the ray parameter and answers with the
//! parameter of the hit, if there is one. `HittableList::hit` asks it for
//! one primitive after the other and keeps the closest hit.
//!
//! A query can also be driven step by step, by a caller that cannot hand
//! over a function: `HittableList::scan` starts a `Scan`, which says what
//! to test next and takes the answer.
//!
//! Ray parameters are ordered keys; all that is used of them is their
//! order.

use crate::aabb::{lemma_contains_transitive, lemma_merge_contains, AABB};
use crate::key::{lt, lt_spec, ZERO};
use vstd::prelude::*;

verus! {

/// The closest hit found by a query: the ray parameter and the primitive hit.
#[derive(Copy, Clone, Debug, PartialEq, Eq, Structural)]
pub struct HitRecord {
    pub t: i64,
    pub id: usize,
}

/// Whether a ray meets a surface from the front: it does where it runs
/// against the outward normal, the dot product `facing` of its direction
/// with that normal being negative. The normal of a hit is then the outward
/// normal, else its opposite.
pub fn front_face(facing: i64) -> (front: bool)
    ensures
        front == lt_spec(facing, ZERO),
{
    lt(facing, ZERO)
}

/// What a query asks of its caller next.
#[derive(Copy, Clone, Debug, PartialEq, Eq)]
pub enum Step {
    /// Test the ray against `bounds` over `[t_min, t_max]` and report whether
    /// it passes.
    TestBox { bounds: AABB, t_min: i64, t_max: i64 },
    /// Test the ray against primitive `id` over `[t_min, t_max]` and report
    /// the parameter of the hit, if there is one.
    TestPrimitive { id: usize, t_min: i64, t_max: i64 },
    /// The query is over, with this result.
    Done(Option<HitRecord>),
}

/// The result of scanning the primitives `ids` in order, starting with the
/// upper bound `closest` and the hit `hit` found before: each primitive is
/// tested over `[t_min, closest]`, and a hit replaces `hit` and lowers
/// `closest` to its parameter.
pub open spec fn scan_model(
    test: spec_fn(usize, i64, i64) -> Option<i64>,
    ids: Seq<usize>,
    t_min: i64,
    closest: i64,
    hit: Option<HitRecord>,
) -> Option<HitRecord>
    decreases ids.len(),
{
    if ids.len() == 0 {
        hit
    } else {
        match test(ids[0], t_min, closest) {
            Some(t) => scan_model(
                test,
                ids.drop_first(),
                t_min,
                t,
                Some(HitRecord { t, id: ids[0] }),
            ),
            None => scan_model(test, ids.drop_first(), t_min, closest, hit),
        }
    }
}

/// The test `test` computes `model`: whatever it answers is what `model`
/// says.
pub open spec fn computes<P: Fn(usize, i64, i64) -> Option<i64>>(
    test: P,
    model: spec_fn(usize, i64, i64) -> Option<i64>,
) -> bool {
    forall|id: usize, t_min: i64, t_max: i64, t: Option<i64>|
        call_ensures(test, (id, t_min, t_max), t) ==> t == model(id, t_min, t_max)
}

/// The test `test` can answer for primitive `id`, over some interval from
/// `t_min`, with a hit at `t`.
pub open spec fn answers<P: Fn(usize, i64, i64) -> Option<i64>>(
    test: P,
    id: usize,
    t_min: i64,
    t: i64,
) -> bool {
    exists|t_max: i64| call_ensures(test, (id, t_min, t_max), Some(t))
}

/// The indices `from, from + 1, .., to - 1`.
pub open spec fn index_range(from: nat, to: nat) -> Seq<usize> {
    Seq::new((to - from) as nat, |k: int| (from + k) as usize)
}

/// The union of all boxes of `boxes`, taken from the first to the last; the
/// point at the origin if there are none.
pub open spec fn hull(boxes: Seq<AABB>) -> AABB
    decreases boxes.len(),
{
    if boxes.len() == 0 {
        AABB::origin()
    } else if boxes.len() == 1 {
        boxes[0]
    } else {
        AABB::merge_spec(hull(boxes.drop_last()), boxes.last())
    }
}

/// The hull holds every box it was made of.
pub proof fn lemma_hull_contains(boxes: Seq<AABB>, i: int)
    requires
        0 <= i < boxes.len(),
    ensures
        hull(boxes).contains(boxes[i]),
    decreases boxes.len(),
{
    if boxes.len() > 1 {
        lemma_merge_contains(hull(boxes.drop_last()), boxes.last());
        if i < boxes.len() - 1 {
            lemma_hull_contains(boxes.drop_last(), i);
            lemma_contains_transitive(hull(boxes), hull(boxes.drop_last()), boxes[i]);
        }
    }
}

/// The hull of well-formed boxes is well formed.
pub proof fn lemma_hull_wf(boxes: Seq<AABB>)
    requires
        forall|i: int| 0 <= i < boxes.len() ==> (#[trigger] boxes[i]).wf(),
    ensures
        hull(boxes).wf(),
    decreases boxes.len(),
{
    if boxes.len() > 1 {
        assert(boxes.last().wf());
        lemma_merge_contains(hull(boxes.drop_last()), boxes.last());
    } else if boxes.len() == 1 {
        assert(boxes[0].wf());
    }
}

/// The primitives of a scene, each known by its bounding box, in the order
/// in which they were added. A primitive is named by its position.
#[derive(Debug)]
pub struct HittableList {
    pub list: Vec<AABB>,
}

impl HittableList {
    /// The result of a closest-hit query over `[t_min, t_max]` when the
    /// primitive tests answer as `test` does: the primitives are scanned in
    /// order, each over the interval that ends at the closest hit so far.
    pub open spec fn hit_model(
        self,
        test: spec_fn(usize, i64, i64) -> Option<i64>,
        t_min: i64,
        t_max: i64,
    ) -> Option<HitRecord> {
        scan_model(test, index_range(0, self.list@.len()), t_min, t_max, None)
    }

    /// Adds a primitive with the bounding box `h` at the end of the list.
    pub fn add(&mut self, h: AABB)
        ensures
            final(self).list@ == old(self).list@.push(h),
    {
        self.list.push(h);
    }

    /// Removes all primitives.
    pub fn clear(&mut self)
        ensures
            final(self).list@ == Seq::<AABB>::empty(),
    {
        self.list = Vec::new()
    }

    /// The union of the bounding boxes of all primitives; the point at the
    /// origin for an empty list.
    pub fn bounding_box(&self) -> (bb: AABB)
        ensures
            bb == hull(self.list@),
            forall|i: int| 0 <= i < self.list@.len() ==> bb.contains(#[trigger] self.list@[i]),
            (forall|i: int| 0 <= i < self.list@.len() ==> (#[trigger] self.list@[i]).wf())
                ==> bb.wf(),
    {
        if self.list.len() == 0 {
            return AABB::default();
        }
        let mut bounding_box = self.list[0];
        let mut i: usize = 1;
        assert(self.list@.take(1) =~= seq![self.list@[0]]);
        while i < self.list.len()
            invariant
                1 <= i <= self.list.len(),
                bounding_box == hull(self.list@.take(i as int)),
            decreases self.list.len() - i,
        {
            bounding_box.expand(&self.list[i]);
            assert(self.list@.take(i + 1).drop_last() =~= self.list@.take(i as int));
            i += 1;
        }
        assert(self.list@.take(i as int) =~= self.list@);
        assert forall|k: int| 0 <= k < self.list@.len() implies bounding_box.contains(
            #[trigger] self.list@[k],
        ) by {
            lemma_hull_contains(self.list@, k);
        }
        proof {
            if forall|i: int| 0 <= i < self.list@.len() ==> (#[trigger] self.list@[i]).wf() {
                lemma_hull_wf(self.list@);
            }
        }
        bounding_box
    }

    /// Starts a closest-hit query over `[t_min, t_max]`, for the caller to
    /// drive.
    pub fn scan(&self, t_min: i64, t_max: i64) -> (scan: Scan)
        ensures
            scan.next == 0,
            scan.len == self.list@.len(),
            scan.t_min == t_min,
            scan.closest_so_far == t_max,
            scan.hit == None::<HitRecord>,
            forall|test: spec_fn(usize, i64, i64) -> Option<i64>|
                #[trigger] scan.outcome(test) == self.hit_model(test, t_min, t_max),
    {
        Scan { next: 0, len: self.list.len(), t_min, closest_so_far: t_max, hit: None }
    }

    /// The closest hit over `[t_min, t_max]`, with `test` as the test of a
    /// ray against a primitive: the primitives are tested in order, each
    /// over the interval that ends at the closest hit so far, and the last
    /// hit is the closest.
    ///
    /// Where `test` computes a function, the result is `hit_model` of that
    /// function. Whatever `test` answers, a hit that is found is one of its
    /// answers for the primitive that is named.
    pub fn hit<P: Fn(usize, i64, i64) -> Option<i64>>(
        &self,
        test: P,
        t_min: i64,
        t_max: i64,
    ) -> (found: Option<HitRecord>)
        requires
            forall|id: usize, lo: i64, hi: i64|
                id < self.list@.len() ==> call_requires(test, (id, lo, hi)),
        ensures
            forall|model: spec_fn(usize, i64, i64) -> Option<i64>|
                computes(test, model) ==> found == #[trigger] self.hit_model(model, t_min, t_max),
            found matches Some(rec) ==> rec.id < self.list@.len() && answers(
                test,
                rec.id,
                t_min,
                rec.t,
            ),
    {
        let mut scan = self.scan(t_min, t_max);
        while scan.next < scan.len
            invariant
                scan.len == self.list@.len(),
                scan.t_min == t_min,
                scan.hit matches Some(rec) ==> rec.id < self.list@.len() && answers(
                    test,
                    rec.id,
                    t_min,
                    rec.t,
                ),
                forall|id: usize, lo: i64, hi: i64|
                    id < self.list@.len() ==> call_requires(test, (id, lo, hi)),
                forall|model: spec_fn(usize, i64, i64) -> Option<i64>|
                    computes(test, model) ==> #[trigger] scan.outcome(model) == self.hit_model(
                        model,
                        t_min,
                        t_max,
                    ),
            decreases scan.cost(),
        {
            let t = test(scan.next, scan.t_min, scan.closest_so_far);
            let ghost before = scan;
            scan.primitive_result(t);
            assert(t matches Some(at) ==> answers(test, before.next, t_min, at)) by {
                assert(call_ensures(test, (before.next, t_min, before.closest_so_far), t));
            }
            assert forall|model: spec_fn(usize, i64, i64) -> Option<i64>|
                computes(test, model) implies #[trigger] scan.outcome(model) == self.hit_model(
                model,
                t_min,
                t_max,
            ) by {
                assert(before.outcome(model) == self.hit_model(model, t_min, t_max));
                assert(model(before.next, before.t_min, before.closest_so_far) == t);
            }
        }
        proof {
            assert forall|model: spec_fn(usize, i64, i64) -> Option<i64>|
                computes(test, model) implies scan.hit == #[trigger] self.hit_model(
                model,
                t_min,
                t_max,
            ) by {
                assert(scan.outcome(model) == self.hit_model(model, t_min, t_max));
                assert(scan.next >= scan.len);
                if scan.next == scan.len {
                    assert(index_range(scan.next as nat, scan.len as nat).len() == 0);
                }
            }
        }
        scan.hit
    }
}

impl Default for HittableList {
    /// The empty list.
    fn default() -> (l: HittableList)
        ensures
            l.list@ == Seq::<AABB>::empty(),
    {
        HittableList { list: Vec::new() }
    }
}

/// A closest-hit query over a list, part of the way through: the primitives
/// below `next` have been tested.
#[derive(Copy, Clone, Debug, PartialEq, Eq)]
pub struct Scan {
    /// The primitive to test next.
    pub next: usize,
    /// The number of primitives in the list.
    pub len: usize,
    /// The lower end of the interval.
    pub t_min: i64,
    /// The upper end of the interval: the parameter of the closest hit so
    /// far, or the upper end that the query began with.
    pub closest_so_far: i64,
    /// The closest hit so far.
    pub hit: Option<HitRecord>,
}

impl Scan {
    /// Where the query ends when the remaining primitive tests answer as
    /// `test` does.
    pub open spec fn outcome(self, test: spec_fn(usize, i64, i64) -> Option<i64>) -> Option<
        HitRecord,
    > {
        if self.next <= self.len {
            scan_model(
                test,
                index_range(self.next as nat, self.len as nat),
                self.t_min,
                self.closest_so_far,
                self.hit,
            )
        } else {
            self.hit
        }
    }

    /// What the query asks next, as a specification.
    pub open spec fn step_spec(self) -> Step {
        if self.next < self.len {
            Step::TestPrimitive { id: self.next, t_min: self.t_min, t_max: self.closest_so_far }
        } else {
            Step::Done(self.hit)
        }
    }

    /// The query after the test of primitive `next` has answered `t`; the
    /// query itself where no primitive is left to test.
    pub open spec fn after(self, t: Option<i64>) -> Scan {
        if self.next < self.len {
            match t {
                Some(t) => Scan {
                    next: (self.next + 1) as usize,
                    closest_so_far: t,
                    hit: Some(HitRecord { t, id: self.next }),
                    ..self
                },
                None => Scan { next: (self.next + 1) as usize, ..self },
            }
        } else {
            self
        }
    }

    /// The number of tests that the query can still ask for.
    pub open spec fn cost(self) -> nat {
        if self.next < self.len {
            (self.len - self.next) as nat
        } else {
            0
        }
    }

    /// What the query asks next: the test of the next primitive over the
    /// interval up to the closest hit so far, or nothing more.
    pub fn step(&self) -> (s: Step)
        ensures
            s == self.step_spec(),
            s matches Step::Done(h) ==> forall|test: spec_fn(usize, i64, i64) -> Option<i64>|
                #[trigger] self.outcome(test) == h,
    {
        if self.next < self.len {
            Step::TestPrimitive { id: self.next, t_min: self.t_min, t_max: self.closest_so_far }
        } else {
            assert(self.next == self.len ==> index_range(self.next as nat, self.len as nat).len()
                == 0);
            Step::Done(self.hit)
        }
    }

    /// Takes the answer of the test that `step` asked for. A hit becomes the
    /// closest hit so far. Where `step` asked for no test, nothing changes.
    ///
    /// Feeding the query the answers of a test function does not change
    /// where it ends, and brings it nearer to its end.
    pub fn primitive_result(&mut self, t: Option<i64>)
        ensures
            *final(self) == old(self).after(t),
            old(self).step_spec() is TestPrimitive ==> final(self).cost() < old(self).cost(),
            forall|test: spec_fn(usize, i64, i64) -> Option<i64>|
                (old(self).step_spec() matches Step::TestPrimitive { id, t_min, t_max } && test(
                    id,
                    t_min,
                    t_max,
                ) == t) ==> #[trigger] final(self).outcome(test) == old(self).outcome(test),
    {
        if self.next >= self.len {
            return ;
        }
        proof {
            let rest = index_range(self.next as nat, self.len as nat);
            assert(rest[0] == self.next);
            assert(rest.drop_first() =~= index_range((self.next + 1) as nat, self.len as nat));
        }
        match t {
            Some(t) => {
                self.hit = Some(HitRecord { t, id: self.next });
                self.closest_so_far = t;
            },
            None => {},
        }
        self.next = self.next + 1;
    }
}

} // verus!
