//! Triples of numbers: points on the integer lattice, and colours.
//!
//! Scene bounds are laid out on a lattice of `i64` coordinates; the unit is
//! the caller's. A colour is a triple of channels, each an ordered key. Only
//! what the bounding volumes need is defined here: component access and the
//! component-wise minimum and maximum.

use vstd::prelude::*;

verus! {

/// A triple of numbers.
#[derive(Copy, Clone, Debug, PartialEq, Eq, Structural)]
pub struct Vec3 {
    pub x: i64,
    pub y: i64,
    pub z: i64,
}

/// A position in the scene, in lattice coordinates.
pub type Point = Vec3;

/// A colour: the keys of its red, green and blue channels.
pub type Color = Vec3;

/// The smaller of two coordinates.
pub open spec fn min_of(a: int, b: int) -> int {
    if a <= b {
        a
    } else {
        b
    }
}

/// The larger of two coordinates.
pub open spec fn max_of(a: int, b: int) -> int {
    if a >= b {
        a
    } else {
        b
    }
}

impl Vec3 {
    /// The component on axis `i`: 0 is x, 1 is y, anything else is z.
    pub open spec fn component(self, i: int) -> int {
        if i == 0 {
            self.x as int
        } else if i == 1 {
            self.y as int
        } else {
            self.z as int
        }
    }

    /// Component-wise minimum, as a specification.
    pub open spec fn min_spec(v1: Vec3, v2: Vec3) -> Vec3 {
        Vec3 {
            x: min_of(v1.x as int, v2.x as int) as i64,
            y: min_of(v1.y as int, v2.y as int) as i64,
            z: min_of(v1.z as int, v2.z as int) as i64,
        }
    }

    /// Component-wise maximum, as a specification.
    pub open spec fn max_spec(v1: Vec3, v2: Vec3) -> Vec3 {
        Vec3 {
            x: max_of(v1.x as int, v2.x as int) as i64,
            y: max_of(v1.y as int, v2.y as int) as i64,
            z: max_of(v1.z as int, v2.z as int) as i64,
        }
    }

    /// Every component of `self` is at most the matching component of `other`.
    pub open spec fn le(self, other: Vec3) -> bool {
        self.x <= other.x && self.y <= other.y && self.z <= other.z
    }

    pub fn new(x: i64, y: i64, z: i64) -> (v: Self)
        ensures
            v == (Vec3 { x, y, z }),
    {
        Vec3 { x, y, z }
    }

    /// The origin.
    pub fn zero() -> (v: Self)
        ensures
            v == (Vec3 { x: 0, y: 0, z: 0 }),
    {
        Vec3 { x: 0, y: 0, z: 0 }
    }

    /// The origin.
    pub fn default() -> (v: Self)
        ensures
            v == (Vec3 { x: 0, y: 0, z: 0 }),
    {
        Self::zero()
    }

    /// The component on axis `i`, which must be 0, 1 or 2.
    pub fn get(&self, i: i32) -> (c: i64)
        requires
            0 <= i < 3,
        ensures
            c == self.component(i as int),
    {
        if i == 0 {
            self.x
        } else if i == 1 {
            self.y
        } else {
            self.z
        }
    }

    /// Component-wise minimum.
    pub fn min(v1: &Vec3, v2: &Vec3) -> (v: Vec3)
        ensures
            v == Vec3::min_spec(*v1, *v2),
    {
        Vec3 {
            x: if v1.x <= v2.x { v1.x } else { v2.x },
            y: if v1.y <= v2.y { v1.y } else { v2.y },
            z: if v1.z <= v2.z { v1.z } else { v2.z },
        }
    }

    /// Component-wise maximum.
    pub fn max(v1: &Vec3, v2: &Vec3) -> (v: Vec3)
        ensures
            v == Vec3::max_spec(*v1, *v2),
    {
        Vec3 {
            x: if v1.x >= v2.x { v1.x } else { v2.x },
            y: if v1.y >= v2.y { v1.y } else { v2.y },
            z: if v1.z >= v2.z { v1.z } else { v2.z },
        }
    }
}

} // verus!
