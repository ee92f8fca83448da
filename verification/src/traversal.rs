//! Closest-hit queries against a bounding volume hierarchy.
//!
//! A query walks the hierarchy from the root. It tests the ray against the
//! box of a node; a node whose box the ray misses is skipped with everything
//! below it. At a leaf it tests the leaf's primitive. The left subtree of a
//! node is walked before the right one, and every test is made over the
//! interval that ends at the closest hit so far.
//!
//! The two tests are functions of the caller. `BVH::hit` walks the whole
//! hierarchy with them. `BVH::walk` starts a `Traversal`, which a caller
//! that cannot hand over functions drives step by step.

use crate::aabb::AABB;
use crate::bvh::{BVHContents, BVH};
use crate::hittable::{answers, computes, HitRecord, Step};
use vstd::prelude::*;

verus! {

/// A piece of work that a query has still to do.
#[derive(Debug)]
pub enum Pending<'a> {
    /// Walk this subtree, beginning with the test of its box.
    Enter(&'a BVH),
    /// Test this primitive; the box of its leaf has passed.
    Probe(usize),
}

/// A closest-hit query over a hierarchy, part of the way through.
#[derive(Debug)]
pub struct Traversal<'a> {
    /// The work still to do; the last entry comes first.
    pub stack: Vec<Pending<'a>>,
    /// The lower end of the interval.
    pub t_min: i64,
    /// The upper end of the interval: the parameter of the closest hit so
    /// far, or the upper end that the query began with.
    pub closest_so_far: i64,
    /// The closest hit so far.
    pub hit: Option<HitRecord>,
}

impl BVH {
    /// The result of a closest-hit query over `[t_min, t_max]` when the box
    /// tests answer as `box_test` does and the primitive tests as `test`.
    ///
    /// A node whose box fails the test yields nothing. A leaf yields what
    /// the test of its primitive yields. An interior node asks its left
    /// subtree, then its right subtree over the interval cut down to the
    /// left hit, and yields the right hit if there is one, else the left.
    pub open spec fn hit_model(
        self,
        box_test: spec_fn(AABB, i64, i64) -> bool,
        test: spec_fn(usize, i64, i64) -> Option<i64>,
        t_min: i64,
        t_max: i64,
    ) -> Option<HitRecord>
        decreases self,
    {
        if box_test(self.bounding_box, t_min, t_max) {
            match self.contents {
                BVHContents::Leaf(id) => match test(id, t_min, t_max) {
                    Some(t) => Some(HitRecord { t, id }),
                    None => None,
                },
                BVHContents::Node { left, right } => {
                    let l = left.hit_model(box_test, test, t_min, t_max);
                    let cut = match l {
                        Some(rec) => rec.t,
                        None => t_max,
                    };
                    let r = right.hit_model(box_test, test, t_min, cut);
                    if r is Some {
                        r
                    } else {
                        l
                    }
                },
            }
        } else {
            None
        }
    }

    /// The number of tests that a walk of this subtree can ask for.
    pub open spec fn walk_cost(self) -> nat
        decreases self,
    {
        match self.contents {
            BVHContents::Leaf(_) => 2,
            BVHContents::Node { left, right } => 1 + left.walk_cost() + right.walk_cost(),
        }
    }
}

/// The number of tests that a piece of work can ask for.
pub open spec fn pending_cost(p: Pending) -> nat {
    match p {
        Pending::Enter(node) => node.walk_cost(),
        Pending::Probe(_) => 1,
    }
}

/// The number of tests that the work on `stack` can ask for.
pub open spec fn stack_cost(stack: Seq<Pending>) -> nat
    decreases stack.len(),
{
    if stack.len() == 0 {
        0
    } else {
        pending_cost(stack.last()) + stack_cost(stack.drop_last())
    }
}

/// The work on `stack` after the box test at its top has answered `passed`:
/// a failed node is dropped, a leaf that passed leaves the test of its
/// primitive, an interior node that passed leaves its two subtrees, the left
/// one on top. A stack without a box test at its top stays as it is.
pub open spec fn stack_after_box(stack: Seq<Pending>, passed: bool) -> Seq<Pending> {
    if stack.len() == 0 {
        stack
    } else {
        match stack.last() {
            Pending::Probe(_) => stack,
            Pending::Enter(node) => if passed {
                match node.contents {
                    BVHContents::Leaf(id) => stack.drop_last().push(Pending::Probe(id)),
                    BVHContents::Node { left, right } => stack.drop_last().push(
                        Pending::Enter(&*right),
                    ).push(Pending::Enter(&*left)),
                }
            } else {
                stack.drop_last()
            },
        }
    }
}

/// Pushing a piece of work adds its cost.
pub proof fn lemma_stack_cost_push(stack: Seq<Pending>, p: Pending)
    ensures
        stack_cost(stack.push(p)) == stack_cost(stack) + pending_cost(p),
{
    assert(stack.push(p).drop_last() =~= stack);
}

/// Every answer to a box test lowers the cost of the work left.
pub proof fn lemma_box_lowers_cost(stack: Seq<Pending>, passed: bool)
    requires
        stack.len() > 0,
        stack.last() is Enter,
    ensures
        stack_cost(stack_after_box(stack, passed)) < stack_cost(stack),
{
    let rest = stack.drop_last();
    match stack.last() {
        Pending::Probe(_) => {},
        Pending::Enter(node) => {
            if passed {
                match node.contents {
                    BVHContents::Leaf(id) => {
                        lemma_stack_cost_push(rest, Pending::Probe(id));
                    },
                    BVHContents::Node { left, right } => {
                        lemma_stack_cost_push(rest, Pending::Enter(&*right));
                        lemma_stack_cost_push(
                            rest.push(Pending::Enter(&*right)),
                            Pending::Enter(&*left),
                        );
                    },
                }
            }
        },
    }
}

/// Where the work on `stack` ends when the box tests answer as `box_test`
/// does and the primitive tests as `test`, from the closest hit `hit` with
/// the parameter bound `closest`.
pub open spec fn run(
    box_test: spec_fn(AABB, i64, i64) -> bool,
    test: spec_fn(usize, i64, i64) -> Option<i64>,
    stack: Seq<Pending>,
    t_min: i64,
    closest: i64,
    hit: Option<HitRecord>,
) -> Option<HitRecord>
    decreases stack_cost(stack),
{
    if stack.len() == 0 {
        hit
    } else {
        match stack.last() {
            Pending::Probe(id) => match test(id, t_min, closest) {
                Some(t) => run(
                    box_test,
                    test,
                    stack.drop_last(),
                    t_min,
                    t,
                    Some(HitRecord { t, id }),
                ),
                None => run(box_test, test, stack.drop_last(), t_min, closest, hit),
            },
            Pending::Enter(node) => {
                let passed = box_test(node.bounding_box, t_min, closest);
                proof {
                    lemma_box_lowers_cost(stack, passed);
                }
                run(box_test, test, stack_after_box(stack, passed), t_min, closest, hit)
            },
        }
    }
}

/// Walking a subtree to its end has the effect of its model: if the model
/// yields a hit, the work below goes on from that hit, else from where it
/// was.
pub proof fn lemma_run_enter(
    box_test: spec_fn(AABB, i64, i64) -> bool,
    test: spec_fn(usize, i64, i64) -> Option<i64>,
    rest: Seq<Pending>,
    node: &BVH,
    t_min: i64,
    closest: i64,
    hit: Option<HitRecord>,
)
    ensures
        run(box_test, test, rest.push(Pending::Enter(node)), t_min, closest, hit) == (match node.hit_model(
            box_test,
            test,
            t_min,
            closest,
        ) {
            Some(rec) => run(box_test, test, rest, t_min, rec.t, Some(rec)),
            None => run(box_test, test, rest, t_min, closest, hit),
        }),
    decreases node,
{
    let stack = rest.push(Pending::Enter(node));
    assert(stack.drop_last() =~= rest);
    let passed = box_test(node.bounding_box, t_min, closest);
    let after = stack_after_box(stack, passed);
    assert(run(box_test, test, stack, t_min, closest, hit) == run(
        box_test,
        test,
        after,
        t_min,
        closest,
        hit,
    ));
    if passed {
        match node.contents {
            BVHContents::Leaf(id) => {
                assert(after == rest.push(Pending::Probe(id)));
                assert(after.drop_last() =~= rest);
                assert(run(box_test, test, after, t_min, closest, hit) == (match test(
                    id,
                    t_min,
                    closest,
                ) {
                    Some(t) => run(box_test, test, rest, t_min, t, Some(HitRecord { t, id })),
                    None => run(box_test, test, rest, t_min, closest, hit),
                }));
            },
            BVHContents::Node { left, right } => {
                let below = rest.push(Pending::Enter(&*right));
                assert(after == below.push(Pending::Enter(&*left)));
                lemma_run_enter(box_test, test, below, &*left, t_min, closest, hit);
                match left.hit_model(box_test, test, t_min, closest) {
                    Some(rec) => {
                        lemma_run_enter(box_test, test, rest, &*right, t_min, rec.t, Some(rec));
                    },
                    None => {
                        lemma_run_enter(box_test, test, rest, &*right, t_min, closest, hit);
                    },
                }
            },
        }
    } else {
        assert(after == rest);
    }
}

impl<'a> Traversal<'a> {
    /// Where the query ends when the remaining box tests answer as
    /// `box_test` does and the remaining primitive tests as `test`.
    pub open spec fn outcome(
        self,
        box_test: spec_fn(AABB, i64, i64) -> bool,
        test: spec_fn(usize, i64, i64) -> Option<i64>,
    ) -> Option<HitRecord> {
        run(box_test, test, self.stack@, self.t_min, self.closest_so_far, self.hit)
    }

    /// The number of tests that the query can still ask for.
    pub open spec fn cost(self) -> nat {
        stack_cost(self.stack@)
    }

    /// What the query asks next, as a specification.
    pub open spec fn step_spec(self) -> Step {
        if self.stack@.len() == 0 {
            Step::Done(self.hit)
        } else {
            match self.stack@.last() {
                Pending::Enter(node) => Step::TestBox {
                    bounds: node.bounding_box,
                    t_min: self.t_min,
                    t_max: self.closest_so_far,
                },
                Pending::Probe(id) => Step::TestPrimitive {
                    id,
                    t_min: self.t_min,
                    t_max: self.closest_so_far,
                },
            }
        }
    }

    /// What the query asks next: the test of a box or of a primitive over
    /// the interval up to the closest hit so far, or nothing more.
    pub fn step(&self) -> (s: Step)
        ensures
            s == self.step_spec(),
            s matches Step::Done(h) ==> forall|
                box_test: spec_fn(AABB, i64, i64) -> bool,
                test: spec_fn(usize, i64, i64) -> Option<i64>,
            | #[trigger] self.outcome(box_test, test) == h,
    {
        let n = self.stack.len();
        if n == 0 {
            Step::Done(self.hit)
        } else {
            match &self.stack[n - 1] {
                Pending::Enter(node) => Step::TestBox {
                    bounds: node.bounding_box,
                    t_min: self.t_min,
                    t_max: self.closest_so_far,
                },
                Pending::Probe(id) => Step::TestPrimitive {
                    id: *id,
                    t_min: self.t_min,
                    t_max: self.closest_so_far,
                },
            }
        }
    }

    /// Takes the answer of the box test that `step` asked for. A node whose
    /// box the ray misses is dropped with all below it; a leaf goes on to
    /// the test of its primitive; an interior node goes on to its left
    /// subtree and then to its right one. Where `step` asked for no box
    /// test, nothing changes.
    ///
    /// Feeding the query the answers of a test function does not change
    /// where it ends, and brings it nearer to its end.
    pub fn box_result(&mut self, passed: bool)
        ensures
            final(self).stack@ == stack_after_box(old(self).stack@, passed),
            final(self).t_min == old(self).t_min,
            final(self).closest_so_far == old(self).closest_so_far,
            final(self).hit == old(self).hit,
            old(self).step_spec() is TestBox ==> final(self).cost() < old(self).cost(),
            forall|
                box_test: spec_fn(AABB, i64, i64) -> bool,
                test: spec_fn(usize, i64, i64) -> Option<i64>,
            |
                (old(self).step_spec() matches Step::TestBox { bounds, t_min, t_max } && box_test(
                    bounds,
                    t_min,
                    t_max,
                ) == passed) ==> #[trigger] final(self).outcome(box_test, test) == old(self).outcome(
                    box_test,
                    test,
                ),
    {
        let n = self.stack.len();
        if n == 0 {
            return ;
        }
        proof {
            if self.stack@.last() is Enter {
                lemma_box_lowers_cost(self.stack@, passed);
            }
        }
        let node: &'a BVH = match &self.stack[n - 1] {
            Pending::Enter(node) => *node,
            Pending::Probe(_) => {
                return ;
            },
        };
        self.stack.pop();
        if passed {
            match &node.contents {
                BVHContents::Leaf(id) => {
                    self.stack.push(Pending::Probe(*id));
                },
                BVHContents::Node { left, right } => {
                    self.stack.push(Pending::Enter(&**right));
                    self.stack.push(Pending::Enter(&**left));
                },
            }
        }
    }

    /// Takes the answer of the primitive test that `step` asked for. A hit
    /// becomes the closest hit so far. Where `step` asked for no primitive
    /// test, nothing changes.
    ///
    /// Feeding the query the answers of a test function does not change
    /// where it ends, and brings it nearer to its end.
    pub fn primitive_result(&mut self, t: Option<i64>)
        ensures
            old(self).step_spec() matches Step::TestPrimitive { id, .. } ==> {
                &&& final(self).stack@ == old(self).stack@.drop_last()
                &&& final(self).t_min == old(self).t_min
                &&& final(self).closest_so_far == (match t {
                    Some(t) => t,
                    None => old(self).closest_so_far,
                })
                &&& final(self).hit == (match t {
                    Some(t) => Some(HitRecord { t, id }),
                    None => old(self).hit,
                })
                &&& final(self).cost() < old(self).cost()
            },
            !(old(self).step_spec() is TestPrimitive) ==> *final(self) == *old(self),
            forall|
                box_test: spec_fn(AABB, i64, i64) -> bool,
                test: spec_fn(usize, i64, i64) -> Option<i64>,
            |
                (old(self).step_spec() matches Step::TestPrimitive { id, t_min, t_max } && test(
                    id,
                    t_min,
                    t_max,
                ) == t) ==> #[trigger] final(self).outcome(box_test, test) == old(self).outcome(
                    box_test,
                    test,
                ),
    {
        let n = self.stack.len();
        if n == 0 {
            return ;
        }
        let id: usize = match &self.stack[n - 1] {
            Pending::Probe(id) => *id,
            Pending::Enter(_) => {
                return ;
            },
        };
        self.stack.pop();
        match t {
            Some(t) => {
                self.hit = Some(HitRecord { t, id });
                self.closest_so_far = t;
            },
            None => {},
        }
    }
}

/// The box test `box_test` computes `model`: whatever it answers is what
/// `model` says.
pub open spec fn computes_box<B: Fn(AABB, i64, i64) -> bool>(
    box_test: B,
    model: spec_fn(AABB, i64, i64) -> bool,
) -> bool {
    forall|bounds: AABB, t_min: i64, t_max: i64, passed: bool|
        call_ensures(box_test, (bounds, t_min, t_max), passed) ==> passed == model(
            bounds,
            t_min,
            t_max,
        )
}

/// All primitives that the work on `stack` can come to are among `ids`.
pub open spec fn stays_within(stack: Seq<Pending>, ids: Seq<usize>) -> bool {
    forall|k: int|
        0 <= k < stack.len() ==> match #[trigger] stack[k] {
            Pending::Probe(id) => ids.contains(id),
            Pending::Enter(node) => forall|m: int|
                0 <= m < node.leaves().len() ==> ids.contains(#[trigger] node.leaves()[m]),
        }
}

/// Answers to box tests lead to no primitive that was not within reach.
pub proof fn lemma_box_stays_within(stack: Seq<Pending>, passed: bool, ids: Seq<usize>)
    requires
        stays_within(stack, ids),
    ensures
        stays_within(stack_after_box(stack, passed), ids),
{
    let after = stack_after_box(stack, passed);
    if stack.len() > 0 {
        let n = stack.len() - 1;
        assert forall|k: int| 0 <= k < after.len() implies match #[trigger] after[k] {
            Pending::Probe(id) => ids.contains(id),
            Pending::Enter(node) => forall|m: int|
                0 <= m < node.leaves().len() ==> ids.contains(#[trigger] node.leaves()[m]),
        } by {
            if k < n {
                assert(after[k] == stack[k]);
            } else {
                match stack[n] {
                    Pending::Probe(_) => {},
                    Pending::Enter(node) => {
                        match node.contents {
                            BVHContents::Leaf(id) => {
                                assert(node.leaves()[0] == id);
                            },
                            BVHContents::Node { left, right } => {
                                let l = left.leaves();
                                let r = right.leaves();
                                assert forall|m: int| 0 <= m < l.len() implies ids.contains(
                                    #[trigger] l[m],
                                ) by {
                                    assert(node.leaves()[m] == l[m]);
                                }
                                assert forall|m: int| 0 <= m < r.len() implies ids.contains(
                                    #[trigger] r[m],
                                ) by {
                                    assert(node.leaves()[l.len() + m] == r[m]);
                                }
                            },
                        }
                    },
                }
            }
        }
    }
}

impl BVH {
    /// Starts a closest-hit query over `[t_min, t_max]` at this node, for
    /// the caller to drive.
    ///
    /// Driven to its end with the answers of a box test and a primitive
    /// test, the query yields what `hit_model` yields for them.
    pub fn walk<'a>(&'a self, t_min: i64, t_max: i64) -> (query: Traversal<'a>)
        ensures
            query.stack@ == seq![Pending::Enter(self)],
            query.t_min == t_min,
            query.closest_so_far == t_max,
            query.hit == None::<HitRecord>,
            forall|
                box_test: spec_fn(AABB, i64, i64) -> bool,
                test: spec_fn(usize, i64, i64) -> Option<i64>,
            | #[trigger]
                query.outcome(box_test, test) == self.hit_model(box_test, test, t_min, t_max),
    {
        let mut stack: Vec<Pending<'a>> = Vec::new();
        stack.push(Pending::Enter(self));
        let query = Traversal { stack, t_min, closest_so_far: t_max, hit: None };
        proof {
            assert(query.stack@ =~= Seq::<Pending>::empty().push(Pending::Enter(self)));
            assert forall|
                box_test: spec_fn(AABB, i64, i64) -> bool,
                test: spec_fn(usize, i64, i64) -> Option<i64>,
            | #[trigger]
                query.outcome(box_test, test) == self.hit_model(
                    box_test,
                    test,
                    t_min,
                    t_max,
                ) by {
                lemma_run_enter(
                    box_test,
                    test,
                    Seq::<Pending>::empty(),
                    self,
                    t_min,
                    t_max,
                    None,
                );
            }
        }
        query
    }

    /// The closest hit over `[t_min, t_max]`, with `box_test` as the test of
    /// a ray against a box and `test` as its test against a primitive.
    ///
    /// A node whose box fails the test is skipped with all below it. The
    /// left subtree of a node is asked before the right one, and every test
    /// is made over the interval that ends at the closest hit so far. Only
    /// primitives at the leaves are tested.
    ///
    /// Where `box_test` and `test` compute functions, the result is
    /// `hit_model` of those functions. Whatever they answer, a hit that is
    /// found is one of the answers of `test` for the primitive that is
    /// named, and that primitive is at a leaf.
    pub fn hit<B: Fn(AABB, i64, i64) -> bool, P: Fn(usize, i64, i64) -> Option<i64>>(
        &self,
        box_test: B,
        test: P,
        t_min: i64,
        t_max: i64,
    ) -> (found: Option<HitRecord>)
        requires
            forall|bounds: AABB, lo: i64, hi: i64| call_requires(box_test, (bounds, lo, hi)),
            forall|id: usize, lo: i64, hi: i64|
                self.leaves().contains(id) ==> call_requires(test, (id, lo, hi)),
        ensures
            forall|
                box_model: spec_fn(AABB, i64, i64) -> bool,
                model: spec_fn(usize, i64, i64) -> Option<i64>,
            |
                computes_box(box_test, box_model) && computes(test, model) ==> found
                    == #[trigger] self.hit_model(box_model, model, t_min, t_max),
            found matches Some(rec) ==> self.leaves().contains(rec.id) && answers(
                test,
                rec.id,
                t_min,
                rec.t,
            ),
    {
        let mut walk = self.walk(t_min, t_max);
        assert(stays_within(walk.stack@, self.leaves())) by {
            assert(walk.stack@[0] == Pending::Enter(self));
        }
        loop
            invariant
                stays_within(walk.stack@, self.leaves()),
                walk.t_min == t_min,
                walk.hit matches Some(rec) ==> self.leaves().contains(rec.id) && answers(
                    test,
                    rec.id,
                    t_min,
                    rec.t,
                ),
                forall|bounds: AABB, lo: i64, hi: i64| call_requires(box_test, (bounds, lo, hi)),
                forall|id: usize, lo: i64, hi: i64|
                    self.leaves().contains(id) ==> call_requires(test, (id, lo, hi)),
                forall|
                    box_model: spec_fn(AABB, i64, i64) -> bool,
                    model: spec_fn(usize, i64, i64) -> Option<i64>,
                |
                    computes_box(box_test, box_model) && computes(test, model)
                        ==> #[trigger] walk.outcome(box_model, model) == self.hit_model(
                        box_model,
                        model,
                        t_min,
                        t_max,
                    ),
            decreases walk.cost(),
        {
            let ghost before = walk;
            match walk.step() {
                Step::TestBox { bounds, t_min: lo, t_max: hi } => {
                    let passed = box_test(bounds, lo, hi);
                    walk.box_result(passed);
                    proof {
                        lemma_box_stays_within(before.stack@, passed, self.leaves());
                        assert forall|
                            box_model: spec_fn(AABB, i64, i64) -> bool,
                            model: spec_fn(usize, i64, i64) -> Option<i64>,
                        |
                            computes_box(box_test, box_model) && computes(
                                test,
                                model,
                            ) implies #[trigger] walk.outcome(box_model, model) == self.hit_model(
                            box_model,
                            model,
                            t_min,
                            t_max,
                        ) by {
                            assert(before.outcome(box_model, model) == self.hit_model(
                                box_model,
                                model,
                                t_min,
                                t_max,
                            ));
                            assert(box_model(bounds, lo, hi) == passed);
                        }
                    }
                },
                Step::TestPrimitive { id, t_min: lo, t_max: hi } => {
                    assert(before.stack@[before.stack@.len() - 1] == Pending::Probe(id));
                    let t = test(id, lo, hi);
                    walk.primitive_result(t);
                    assert(t matches Some(at) ==> answers(test, id, t_min, at)) by {
                        assert(call_ensures(test, (id, t_min, hi), t));
                    }
                    proof {
                        assert forall|k: int| 0 <= k < walk.stack@.len() implies walk.stack@[k]
                            == before.stack@[k] by {}
                        assert forall|
                            box_model: spec_fn(AABB, i64, i64) -> bool,
                            model: spec_fn(usize, i64, i64) -> Option<i64>,
                        |
                            computes_box(box_test, box_model) && computes(
                                test,
                                model,
                            ) implies #[trigger] walk.outcome(box_model, model) == self.hit_model(
                            box_model,
                            model,
                            t_min,
                            t_max,
                        ) by {
                            assert(before.outcome(box_model, model) == self.hit_model(
                                box_model,
                                model,
                                t_min,
                                t_max,
                            ));
                            assert(model(id, lo, hi) == t);
                        }
                    }
                },
                Step::Done(found) => {
                    assert forall|
                        box_model: spec_fn(AABB, i64, i64) -> bool,
                        model: spec_fn(usize, i64, i64) -> Option<i64>,
                    |
                        computes_box(box_test, box_model) && computes(test, model) implies found
                        == #[trigger] self.hit_model(box_model, model, t_min, t_max) by {
                        assert(walk.outcome(box_model, model) == found);
                    }
                    return found;
                },
            }
        }
    }
}

} // verus!
