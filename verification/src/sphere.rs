//! The choice of root in the test of a ray against a sphere.
//!
//! A ray meets a sphere at the roots of a quadratic. The caller solves it;
//! whether there is a hit, and which root it is over a given interval, is
//! decided here. The discriminant, the roots and the ends of the interval
//! are ordered keys.

use crate::equivalence::{answers_nearest, within};
use crate::key::{is_number_spec, lt, lt_spec, ZERO};
use vstd::prelude::*;

verus! {

/// The root that counts over the interval from `t_min` to `t_max`: none
/// where the discriminant is negative; else the nearer root if it lies in
/// the interval, else the farther root if that does, else none.
pub open spec fn select_root_spec(
    discriminant: i64,
    near: i64,
    far: i64,
    t_min: i64,
    t_max: i64,
) -> Option<i64> {
    if lt_spec(discriminant, ZERO) {
        None
    } else if t_min <= near <= t_max {
        Some(near)
    } else if t_min <= far <= t_max {
        Some(far)
    } else {
        None
    }
}

/// The first root at or after `t_min`; none where the discriminant is
/// negative.
pub open spec fn nearest_root(discriminant: i64, near: i64, far: i64, t_min: i64) -> Option<i64> {
    if lt_spec(discriminant, ZERO) {
        None
    } else if t_min <= near {
        Some(near)
    } else if t_min <= far {
        Some(far)
    } else {
        None
    }
}

/// The parameter of the hit of a ray on a sphere over the interval from
/// `t_min` to `t_max`, given the discriminant of the quadratic and its two
/// roots, the nearer one first.
pub fn select_root(discriminant: i64, near: i64, far: i64, t_min: i64, t_max: i64) -> (t: Option<
    i64,
>)
    ensures
        t == select_root_spec(discriminant, near, far, t_min, t_max),
{
    if lt(discriminant, ZERO) {
        return None;
    }
    let mut root = near;
    if root < t_min || root > t_max {
        root = far;
        if root < t_min || root > t_max {
            return None;
        }
    }
    Some(root)
}

/// Over an interval of numbers the hit is a number: a root that is not a
/// number lies outside.
pub proof fn lemma_select_is_number(
    discriminant: i64,
    near: i64,
    far: i64,
    t_min: i64,
    t_max: i64,
)
    requires
        is_number_spec(t_min),
        is_number_spec(t_max),
    ensures
        select_root_spec(discriminant, near, far, t_min, t_max) matches Some(t) ==> is_number_spec(
            t,
        ) && t_min <= t <= t_max,
{
}

/// With the nearer root first, the choice over an interval is the first root
/// at or after `t_min`, if the interval reaches it.
pub proof fn lemma_select_is_nearest(
    discriminant: i64,
    near: i64,
    far: i64,
    t_min: i64,
    t_max: i64,
)
    requires
        near <= far,
    ensures
        select_root_spec(discriminant, near, far, t_min, t_max) == within(
            nearest_root(discriminant, near, far, t_min),
            t_max,
        ),
{
}

/// Spheres behave as the agreement of hierarchy and list asks of a
/// primitive: where every primitive is a sphere with its nearer root first,
/// the test answers with the nearest candidate.
pub proof fn lemma_spheres_answer_nearest(
    discriminant: spec_fn(usize) -> i64,
    near: spec_fn(usize) -> i64,
    far: spec_fn(usize) -> i64,
    t_min: i64,
)
    requires
        forall|id: usize| #[trigger] near(id) <= far(id),
    ensures
        answers_nearest(
            |id: usize, lo: i64, hi: i64|
                select_root_spec(discriminant(id), near(id), far(id), lo, hi),
            |id: usize| nearest_root(discriminant(id), near(id), far(id), t_min),
            t_min,
        ),
{
    let test = |id: usize, lo: i64, hi: i64|
        select_root_spec(discriminant(id), near(id), far(id), lo, hi);
    let nearest = |id: usize| nearest_root(discriminant(id), near(id), far(id), t_min);
    assert forall|id: usize, t_max: i64| #[trigger]
        test(id, t_min, t_max) == within(nearest(id), t_max) by {
        assert(near(id) <= far(id));
        lemma_select_is_nearest(discriminant(id), near(id), far(id), t_min, t_max);
    }
}

} // verus!
