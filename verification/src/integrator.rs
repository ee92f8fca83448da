//! The control of a light path.
//!
//! A path follows a ray from bounce to bounce, for at most a fixed number of
//! bounces. The colours belong to the caller: at every bounce it casts the
//! ray, lets the surface scatter it, and reports what happened. What is
//! decided here is whether the path goes on, and with which light it ends.
//! The radiance of the path is the product of the attenuations of its
//! bounces with that light.
//!
//! `trace` follows a whole path, with the cast as a function of the caller.
//! A `Path` is the same, driven step by step.

use crate::key::INFINITY;
use vstd::prelude::*;

verus! {

/// The number of bounces after which a path is cut off.
pub const MAX_DEPTH: i32 = 50;

/// The lower end of the interval over which the ray of a path is cast, the
/// key of 0.001: a hit nearer than this is the surface that the ray left.
pub const T_MIN: i64 = 0x3f50_624d_d2f1_a9fc;

/// The upper end of the interval over which the ray of a path is cast, the
/// key of infinity.
pub const T_MAX: i64 = INFINITY;

/// What happened to the ray of a path when it was cast into the scene.
#[derive(Copy, Clone, Debug, PartialEq, Eq, Structural)]
pub enum Bounce {
    /// The ray hit nothing.
    Miss,
    /// The ray hit a surface that absorbed it.
    Absorbed,
    /// The ray hit a surface that scattered it; the path goes on with the
    /// scattered ray.
    Scattered,
}

/// The light that a path ends with.
#[derive(Copy, Clone, Debug, PartialEq, Eq, Structural)]
pub enum Light {
    /// No light: the ray was absorbed, or the path was cut off.
    Black,
    /// The background in the direction of the last ray.
    Sky,
}

/// A path, part of the way through.
#[derive(Copy, Clone, Debug, PartialEq, Eq, Structural)]
pub struct Path {
    /// The number of bounces that the path may still make.
    pub depth: i32,
    /// The light that the path ended with, once it has ended.
    pub ended: Option<Light>,
}

/// The light at the end of a path that may still make `depth` bounces, when
/// the cast made with `d` bounces left is reported as `reports(d)`.
///
/// A path with no bounce left ends black. A miss ends it with the sky, an
/// absorption black; a scattering uses up one bounce.
pub open spec fn path_model(reports: spec_fn(int) -> Bounce, depth: int) -> Light
    decreases depth,
{
    if depth <= 0 {
        Light::Black
    } else {
        match reports(depth) {
            Bounce::Miss => Light::Sky,
            Bounce::Absorbed => Light::Black,
            Bounce::Scattered => path_model(reports, depth - 1),
        }
    }
}

/// The number of casts on a path that may still make `depth` bounces, when
/// the cast made with `d` bounces left is reported as `reports(d)`.
pub open spec fn casts(reports: spec_fn(int) -> Bounce, depth: int) -> nat
    decreases depth,
{
    if depth <= 0 {
        0
    } else if reports(depth) == Bounce::Scattered {
        1 + casts(reports, depth - 1)
    } else {
        1
    }
}

/// A path casts its ray at most as often as it has bounces, and one that
/// is scattered at every cast ends black.
pub proof fn lemma_path_is_bounded(reports: spec_fn(int) -> Bounce, depth: int)
    ensures
        casts(reports, depth) <= (if depth > 0 {
            depth
        } else {
            0
        }),
        path_model(reports, depth) == Light::Sky ==> exists|d: int|
            0 < d <= depth && #[trigger] reports(d) == Bounce::Miss,
        (forall|d: int| 0 < d <= depth ==> #[trigger] reports(d) == Bounce::Scattered)
            ==> path_model(reports, depth) == Light::Black,
    decreases depth,
{
    if depth > 0 {
        lemma_path_is_bounded(reports, depth - 1);
        if path_model(reports, depth) == Light::Sky {
            if reports(depth) == Bounce::Miss {
            } else {
                let d = choose|d: int| 0 < d <= depth - 1 && #[trigger] reports(d) == Bounce::Miss;
                assert(0 < d <= depth && reports(d) == Bounce::Miss);
            }
        }
    }
}

impl Path {
    /// The light with which the path ends when the casts to come are
    /// reported as `reports` says.
    pub open spec fn outcome(self, reports: spec_fn(int) -> Bounce) -> Light {
        match self.ended {
            Some(light) => light,
            None => path_model(reports, self.depth as int),
        }
    }

    /// The light that the path has ended with; `None` while it goes on.
    pub open spec fn light_spec(self) -> Option<Light> {
        match self.ended {
            Some(light) => Some(light),
            None => if self.depth <= 0 {
                Some(Light::Black)
            } else {
                None
            },
        }
    }

    /// The path after a cast has been reported; the path itself where it had
    /// ended.
    pub open spec fn after(self, bounce: Bounce) -> Path {
        if self.light_spec() is Some {
            self
        } else {
            match bounce {
                Bounce::Miss => Path { ended: Some(Light::Sky), ..self },
                Bounce::Absorbed => Path { ended: Some(Light::Black), ..self },
                Bounce::Scattered => Path { depth: (self.depth - 1) as i32, ..self },
            }
        }
    }

    /// A path that may make `depth` bounces.
    pub fn new(depth: i32) -> (path: Path)
        ensures
            path == (Path { depth, ended: None }),
            forall|reports: spec_fn(int) -> Bounce| #[trigger]
                path.outcome(reports) == path_model(reports, depth as int),
    {
        Path { depth, ended: None }
    }

    /// The light that the path has ended with, or `None` if the ray is to be
    /// cast once more. A path ends when it has no bounce left, when its ray
    /// misses the scene, and when its ray is absorbed.
    pub fn light(&self) -> (l: Option<Light>)
        ensures
            l == self.light_spec(),
            l matches Some(light) ==> forall|reports: spec_fn(int) -> Bounce| #[trigger]
                self.outcome(reports) == light,
    {
        match self.ended {
            Some(light) => Some(light),
            None => if self.depth <= 0 {
                Some(Light::Black)
            } else {
                None
            },
        }
    }

    /// Takes the report of a cast. A miss or an absorption ends the path; a
    /// scattering uses up one bounce. On a path that has ended nothing
    /// changes.
    ///
    /// Feeding the path the reports of a report function does not change
    /// where it ends.
    pub fn report(&mut self, bounce: Bounce)
        ensures
            *final(self) == old(self).after(bounce),
            forall|reports: spec_fn(int) -> Bounce|
                reports(old(self).depth as int) == bounce ==> #[trigger] final(self).outcome(
                    reports,
                ) == old(self).outcome(reports),
    {
        if self.ended.is_some() || self.depth <= 0 {
            return ;
        }
        match bounce {
            Bounce::Miss => {
                self.ended = Some(Light::Sky);
            },
            Bounce::Absorbed => {
                self.ended = Some(Light::Black);
            },
            Bounce::Scattered => {
                self.depth = self.depth - 1;
            },
        }
    }
}

/// The cast `cast` computes `reports`: whatever it reports with `d` bounces
/// left is what `reports(d)` says.
pub open spec fn computes_reports<C: Fn(i32) -> Bounce>(
    cast: C,
    reports: spec_fn(int) -> Bounce,
) -> bool {
    forall|d: i32, bounce: Bounce| call_ensures(cast, (d,), bounce) ==> bounce == reports(d as int)
}

/// Follows a path of at most `depth` bounces to its end and yields the light
/// that it ends with. `cast` casts the ray of the path, lets the surface
/// scatter it, and reports what happened; it is given the number of bounces
/// left, and is called as long as the path goes on.
///
/// Where `cast` computes a function, the result is `path_model` of that
/// function. Whatever `cast` reports, a path ends with the sky only after a
/// miss.
pub fn trace<C: Fn(i32) -> Bounce>(depth: i32, cast: C) -> (light: Light)
    requires
        forall|d: i32| 0 < d <= depth ==> call_requires(cast, (d,)),
    ensures
        forall|reports: spec_fn(int) -> Bounce|
            computes_reports(cast, reports) ==> light == #[trigger] path_model(reports, depth as int),
        light == Light::Sky ==> exists|d: i32| 0 < d <= depth && call_ensures(cast, (d,), Bounce::Miss),
{
    let mut path = Path::new(depth);
    loop
        invariant
            path.depth <= depth,
            path.ended == Some(Light::Sky) ==> exists|d: i32|
                0 < d <= depth && call_ensures(cast, (d,), Bounce::Miss),
            forall|d: i32| 0 < d <= depth ==> call_requires(cast, (d,)),
            forall|reports: spec_fn(int) -> Bounce|
                computes_reports(cast, reports) ==> #[trigger] path.outcome(reports) == path_model(
                    reports,
                    depth as int,
                ),
        decreases
                (if path.light_spec() is Some {
                    0
                } else {
                    path.depth as int
                }),
    {
        match path.light() {
            Some(light) => {
                assert forall|reports: spec_fn(int) -> Bounce|
                    computes_reports(cast, reports) implies light == #[trigger] path_model(
                    reports,
                    depth as int,
                ) by {
                    assert(path.outcome(reports) == light);
                }
                return light;
            },
            None => {
                let ghost before = path;
                let bounce = cast(path.depth);
                path.report(bounce);
                assert forall|reports: spec_fn(int) -> Bounce|
                    computes_reports(cast, reports) implies #[trigger] path.outcome(reports)
                    == path_model(reports, depth as int) by {
                    assert(before.outcome(reports) == path_model(reports, depth as int));
                    assert(reports(before.depth as int) == bounce);
                }
            },
        }
    }
}

} // verus!
