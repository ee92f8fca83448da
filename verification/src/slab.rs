//! The slab test of a ray against a box.
//!
//! On each axis a box is the slab between two planes, and the ray is inside
//! the slab between the parameters at which it crosses them. The ray passes
//! the box over an interval if cutting the interval down by the three slabs
//! in turn leaves something of it. The parameters are the caller's to
//! compute; what is decided here is which of the two a ray enters by, how
//! the interval shrinks, and when it is empty.
//!
//! Parameters are ordered keys. A ray that runs along a slab never crosses
//! its planes: the parameters are infinite, and the slab cuts nothing off
//! or everything. Where such a ray lies in a bounding plane the parameter
//! is not a number, and cuts nothing off.

use crate::key::{is_number, is_number_spec};
use crate::vec3::{max_of, min_of};
use vstd::prelude::*;

verus! {

/// The crossing of a ray with the slab of one axis.
#[derive(Copy, Clone, Debug, PartialEq, Eq, Structural)]
pub struct Slab {
    /// The ray parameter at the plane of the box's lower bound.
    pub t0: i64,
    /// The ray parameter at the plane of the box's upper bound.
    pub t1: i64,
    /// The ray runs against the axis, so that it enters by the upper plane.
    pub reversed: bool,
}

impl Slab {
    /// The parameter at which the ray enters the slab.
    pub open spec fn entry(self) -> int {
        if self.reversed {
            self.t1 as int
        } else {
            self.t0 as int
        }
    }

    /// The parameter at which the ray leaves the slab.
    pub open spec fn exit(self) -> int {
        if self.reversed {
            self.t0 as int
        } else {
            self.t1 as int
        }
    }

    /// `other` is the crossing of the same slab by the ray run backwards:
    /// both parameters change sign, and so does the sense of the ray.
    pub open spec fn mirrors(self, other: Slab) -> bool {
        &&& other.t0 == -self.t0
        &&& other.t1 == -self.t1
        &&& other.reversed == !self.reversed
    }
}

/// The lower end `t_min` raised to the entry of `slab`; an entry that is not
/// a number leaves it where it is.
pub open spec fn raised(t_min: int, slab: Slab) -> int {
    if is_number_spec(slab.entry() as i64) {
        max_of(t_min, slab.entry())
    } else {
        t_min
    }
}

/// The upper end `t_max` lowered to the exit of `slab`; an exit that is not
/// a number leaves it where it is.
pub open spec fn lowered(t_max: int, slab: Slab) -> int {
    if is_number_spec(slab.exit() as i64) {
        min_of(t_max, slab.exit())
    } else {
        t_max
    }
}

/// The ray passes the slabs `slabs` over the interval from `t_min` to
/// `t_max`: cut down by each slab in turn, the interval keeps its lower end
/// below its upper end.
pub open spec fn passes(slabs: Seq<Slab>, t_min: int, t_max: int) -> bool
    decreases slabs.len(),
{
    if slabs.len() == 0 {
        true
    } else {
        let lo = raised(t_min, slabs[0]);
        let hi = lowered(t_max, slabs[0]);
        hi > lo && passes(slabs.drop_first(), lo, hi)
    }
}

/// The slab test is symmetric: the ray run backwards, over the interval
/// mirrored with it, passes the same boxes.
pub proof fn lemma_passes_mirrored(
    slabs: Seq<Slab>,
    mirrored: Seq<Slab>,
    t_min: int,
    t_max: int,
)
    requires
        mirrored.len() == slabs.len(),
        forall|i: int| 0 <= i < slabs.len() ==> (#[trigger] slabs[i]).mirrors(mirrored[i]),
    ensures
        passes(mirrored, -t_max, -t_min) == passes(slabs, t_min, t_max),
    decreases slabs.len(),
{
    if slabs.len() > 0 {
        let lo = raised(t_min, slabs[0]);
        let hi = lowered(t_max, slabs[0]);
        assert(slabs[0].mirrors(mirrored[0]));
        assert(raised(-t_max, mirrored[0]) == -hi);
        assert(lowered(-t_min, mirrored[0]) == -lo);
        let rest = slabs.drop_first();
        let mirrored_rest = mirrored.drop_first();
        assert forall|i: int| 0 <= i < rest.len() implies (#[trigger] rest[i]).mirrors(
            mirrored_rest[i],
        ) by {
            assert(slabs[i + 1].mirrors(mirrored[i + 1]));
        }
        lemma_passes_mirrored(slabs.drop_first(), mirrored.drop_first(), lo, hi);
    }
}

/// The crossing `outer` is that of a slab that holds the slab of `inner`:
/// the ray enters it no later and leaves it no earlier.
pub open spec fn holds(outer: Slab, inner: Slab) -> bool {
    &&& is_number_spec(outer.entry() as i64) ==> is_number_spec(inner.entry() as i64)
        && outer.entry() <= inner.entry()
    &&& is_number_spec(outer.exit() as i64) ==> is_number_spec(inner.exit() as i64)
        && outer.exit() >= inner.exit()
}

/// The slab test is monotone: a ray that passes a box over an interval
/// passes every box that holds it, over every interval that holds the
/// interval. A hierarchy can therefore skip what lies below a box that the
/// ray misses.
pub proof fn lemma_passes_monotone(
    inner: Seq<Slab>,
    outer: Seq<Slab>,
    t_min: int,
    t_max: int,
    wider_min: int,
    wider_max: int,
)
    requires
        outer.len() == inner.len(),
        forall|i: int| 0 <= i < inner.len() ==> holds(#[trigger] outer[i], inner[i]),
        wider_min <= t_min,
        t_max <= wider_max,
        passes(inner, t_min, t_max),
    ensures
        passes(outer, wider_min, wider_max),
    decreases inner.len(),
{
    if inner.len() > 0 {
        assert(holds(outer[0], inner[0]));
        assert forall|i: int| 0 <= i < inner.drop_first().len() implies holds(
            #[trigger] outer.drop_first()[i],
            inner.drop_first()[i],
        ) by {
            assert(holds(outer[i + 1], inner[i + 1]));
        }
        lemma_passes_monotone(
            inner.drop_first(),
            outer.drop_first(),
            raised(t_min, inner[0]),
            lowered(t_max, inner[0]),
            raised(wider_min, outer[0]),
            lowered(wider_max, outer[0]),
        );
    }
}

/// The slab test: whether the ray with the crossings `slabs`, one for each
/// axis, passes the box over the interval from `t_min` to `t_max`.
pub fn hit(slabs: &[Slab; 3], t_min: i64, t_max: i64) -> (b: bool)
    ensures
        b == passes(slabs@, t_min as int, t_max as int),
{
    let mut lo = t_min;
    let mut hi = t_max;
    let mut a: usize = 0;
    assert(slabs@.skip(0) =~= slabs@);
    while a < 3
        invariant
            a <= 3,
            slabs@.len() == 3,
            passes(slabs@, t_min as int, t_max as int) == passes(
                slabs@.skip(a as int),
                lo as int,
                hi as int,
            ),
        decreases 3 - a,
    {
        let slab = slabs[a];
        let (near, far) = if slab.reversed {
            (slab.t1, slab.t0)
        } else {
            (slab.t0, slab.t1)
        };
        let ghost rest = slabs@.skip(a as int);
        assert(rest[0] == slabs@[a as int]);
        assert(rest.drop_first() =~= slabs@.skip(a + 1));
        if is_number(near) && near > lo {
            lo = near;
        }
        if is_number(far) && far < hi {
            hi = far;
        }
        if hi <= lo {
            return false;
        }
        a += 1;
    }
    true
}

} // verus!
