//! Axis-aligned bounding boxes on the integer lattice.

use crate::vec3::{Point, Vec3};
use vstd::prelude::*;

verus! {

/// An axis-aligned box, given by its two extreme corners.
///
/// A box is well formed when `min` is component-wise at most `max`. The
/// operations below do not ask for it; they keep it where it holds.
#[derive(Copy, Clone, Debug, PartialEq, Eq, Structural)]
pub struct AABB {
    pub min: Point,
    pub max: Point,
}

impl AABB {
    /// `min` does not exceed `max` on any axis.
    pub open spec fn wf(self) -> bool {
        self.min.le(self.max)
    }

    /// `other` lies inside `self`: on every axis the extent of `other` is
    /// within the extent of `self`.
    pub open spec fn contains(self, other: AABB) -> bool {
        self.min.le(other.min) && other.max.le(self.max)
    }

    /// The union of two boxes: the smallest box that holds both.
    pub open spec fn merge_spec(bb1: AABB, bb2: AABB) -> AABB {
        AABB { min: Vec3::min_spec(bb1.min, bb2.min), max: Vec3::max_spec(bb1.max, bb2.max) }
    }

    /// The width of the box on axis `i`.
    pub open spec fn extent_spec(self, i: int) -> int {
        self.max.component(i) - self.min.component(i)
    }

    /// Twice the centre of the box on axis `i`: the sum of its two bounds.
    pub open spec fn centroid_spec(self, i: int) -> int {
        self.min.component(i) + self.max.component(i)
    }

    /// The box that is the single point at the origin.
    pub open spec fn origin() -> AABB {
        AABB { min: Vec3 { x: 0, y: 0, z: 0 }, max: Vec3 { x: 0, y: 0, z: 0 } }
    }

    /// The union of two boxes.
    pub fn merge(bb1: &AABB, bb2: &AABB) -> (bb: AABB)
        ensures
            bb == AABB::merge_spec(*bb1, *bb2),
            bb.contains(*bb1),
            bb.contains(*bb2),
            bb1.wf() || bb2.wf() ==> bb.wf(),
    {
        AABB { min: Vec3::min(&bb1.min, &bb2.min), max: Vec3::max(&bb1.max, &bb2.max) }
    }

    /// Grows the box until it also holds `other`.
    pub fn expand(&mut self, other: &AABB)
        ensures
            *final(self) == AABB::merge_spec(*old(self), *other),
            final(self).contains(*old(self)),
            final(self).contains(*other),
            old(self).wf() || other.wf() ==> final(self).wf(),
    {
        let min = Vec3::min(&self.min, &other.min);
        let max = Vec3::max(&self.max, &other.max);
        self.min = min;
        self.max = max;
    }

    /// The width of the box on axis `i`, which must be 0, 1 or 2.
    pub fn extent(&self, i: i32) -> (w: i128)
        requires
            0 <= i < 3,
        ensures
            w == self.extent_spec(i as int),
    {
        self.max.get(i) as i128 - self.min.get(i) as i128
    }

    /// Twice the centre of the box on axis `i`, which must be 0, 1 or 2.
    pub fn centroid(&self, i: i32) -> (c: i128)
        requires
            0 <= i < 3,
        ensures
            c == self.centroid_spec(i as int),
    {
        self.min.get(i) as i128 + self.max.get(i) as i128
    }
}

impl Default for AABB {
    /// The box that is the single point at the origin.
    fn default() -> (bb: AABB)
        ensures
            bb == AABB::origin(),
    {
        AABB { min: Vec3::zero(), max: Vec3::zero() }
    }
}

/// The union holds both of its parts, and is well formed if one of them is.
pub proof fn lemma_merge_contains(a: AABB, b: AABB)
    ensures
        AABB::merge_spec(a, b).contains(a),
        AABB::merge_spec(a, b).contains(b),
        a.wf() || b.wf() ==> AABB::merge_spec(a, b).wf(),
{
}

/// The union is the least box that holds both parts.
pub proof fn lemma_merge_least(a: AABB, b: AABB, c: AABB)
    requires
        c.contains(a),
        c.contains(b),
    ensures
        c.contains(AABB::merge_spec(a, b)),
{
}

/// Containment is transitive.
pub proof fn lemma_contains_transitive(a: AABB, b: AABB, c: AABB)
    requires
        a.contains(b),
        b.contains(c),
    ensures
        a.contains(c),
{
}

} // verus!
