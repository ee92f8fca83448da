//! What a surface does with a ray.
//!
//! A diffuse surface always scatters, with the colour of its texture. A
//! metal reflects with its albedo, and absorbs the ray where the roughened
//! reflection would run into the surface. A dielectric always scatters, by
//! reflection or by refraction, and takes nothing from the light. The
//! directions are the caller's to compute; which of them the ray takes, and
//! with which attenuation, is decided here, on the quantities that the rule
//! of each material turns on. Quantities and colour channels are ordered
//! keys.

use crate::key::{gt, gt_spec, lt, lt_spec, ONE, ZERO};
use crate::vec3::{Color, Vec3};
use vstd::prelude::*;

verus! {

/// The key of 1e-8: a direction with every component nearer to zero than
/// this is too short to use.
pub const NEAR_ZERO: i64 = 0x3e45_798e_e230_8c3a;

/// The material of a surface with what its rule turns on at one hit.
#[derive(Copy, Clone, Debug, PartialEq, Eq, Structural)]
pub enum Surface {
    /// A diffuse surface. `albedo` is the value of its texture at the hit;
    /// `sampled` is the sampled direction, the normal plus a random unit
    /// vector.
    Lambertian { albedo: Color, sampled: Vec3 },
    /// A metal. `facing` is the dot product of the roughened reflection with
    /// the normal.
    Metal { albedo: Color, facing: i64 },
    /// A dielectric. `bend` is the refraction ratio times the sine of the
    /// angle of incidence; `reflectance` is the reflectance at that angle
    /// and `draw` a random number against which it is compared.
    Dielectric { bend: i64, reflectance: i64, draw: i64 },
}

/// The direction in which a ray leaves a surface.
#[derive(Copy, Clone, Debug, PartialEq, Eq, Structural)]
pub enum Direction {
    /// The sampled diffuse direction.
    Diffuse,
    /// The surface normal, in place of a degenerate diffuse direction.
    Normal,
    /// The mirror reflection, roughened for a metal.
    Reflected,
    /// The refraction.
    Refracted,
}

/// White: every channel is 1.
pub open spec fn white() -> Color {
    Vec3 { x: ONE, y: ONE, z: ONE }
}

/// The component `c` is nearer to zero than `NEAR_ZERO`.
pub open spec fn tiny(c: i64) -> bool {
    lt_spec(c, NEAR_ZERO) && gt_spec(c, (-NEAR_ZERO) as i64)
}

/// Every component of `v` is nearer to zero than `NEAR_ZERO`.
pub open spec fn near_zero_spec(v: Vec3) -> bool {
    tiny(v.x) && tiny(v.y) && tiny(v.z)
}

/// The rule of each material: the attenuation and the direction of the
/// scattered ray, or `None` where the ray is absorbed.
///
/// A diffuse surface scatters in the sampled direction, or along the normal
/// where the sampled direction is near zero. A metal reflects where the
/// reflection faces away from the surface. A dielectric reflects where it
/// cannot refract, the bend being greater than one, and where the
/// reflectance is greater than the draw; else it refracts.
pub open spec fn scatter_spec(surface: Surface) -> Option<(Color, Direction)> {
    match surface {
        Surface::Lambertian { albedo, sampled } => if near_zero_spec(sampled) {
            Some((albedo, Direction::Normal))
        } else {
            Some((albedo, Direction::Diffuse))
        },
        Surface::Metal { albedo, facing } => if gt_spec(facing, ZERO) {
            Some((albedo, Direction::Reflected))
        } else {
            None
        },
        Surface::Dielectric { bend, reflectance, draw } => if gt_spec(bend, ONE) || gt_spec(
            reflectance,
            draw,
        ) {
            Some((white(), Direction::Reflected))
        } else {
            Some((white(), Direction::Refracted))
        },
    }
}

/// Whether every component of `v` is nearer to zero than `NEAR_ZERO`.
pub fn near_zero(v: &Vec3) -> (b: bool)
    ensures
        b == near_zero_spec(*v),
{
    lt(v.x, NEAR_ZERO) && gt(v.x, -NEAR_ZERO) && lt(v.y, NEAR_ZERO) && gt(v.y, -NEAR_ZERO) && lt(
        v.z,
        NEAR_ZERO,
    ) && gt(v.z, -NEAR_ZERO)
}

/// Decides what the surface does with the ray: the attenuation and the
/// direction of the scattered ray, or `None` where the ray is absorbed.
pub fn scatter(surface: Surface) -> (scattered: Option<(Color, Direction)>)
    ensures
        scattered == scatter_spec(surface),
{
    match surface {
        Surface::Lambertian { albedo, sampled } => if near_zero(&sampled) {
            Some((albedo, Direction::Normal))
        } else {
            Some((albedo, Direction::Diffuse))
        },
        Surface::Metal { albedo, facing } => if gt(facing, ZERO) {
            Some((albedo, Direction::Reflected))
        } else {
            None
        },
        Surface::Dielectric { bend, reflectance, draw } => {
            let white = Vec3 { x: ONE, y: ONE, z: ONE };
            if gt(bend, ONE) || gt(reflectance, draw) {
                Some((white, Direction::Reflected))
            } else {
                Some((white, Direction::Refracted))
            }
        },
    }
}

/// Diffuse surfaces and dielectrics always scatter; only a metal absorbs,
/// and only where the reflection does not face away from the surface.
pub proof fn lemma_only_metal_absorbs(surface: Surface)
    ensures
        scatter_spec(surface) is None <==> (surface matches Surface::Metal { facing, .. }
            && !gt_spec(facing, ZERO)),
{
}

/// Every channel of `c` lies between 0 and 1.
pub open spec fn in_unit_range(c: Color) -> bool {
    ZERO <= c.x <= ONE && ZERO <= c.y <= ONE && ZERO <= c.z <= ONE
}

/// No surface adds light: where the albedo of a diffuse surface or of a
/// metal lies between 0 and 1, so does the attenuation, and the attenuation
/// of a dielectric is exactly white.
pub proof fn lemma_material_energy(surface: Surface)
    requires
        surface matches Surface::Lambertian { albedo, .. } ==> in_unit_range(albedo),
        surface matches Surface::Metal { albedo, .. } ==> in_unit_range(albedo),
    ensures
        scatter_spec(surface) matches Some((attenuation, _)) ==> in_unit_range(attenuation),
        surface is Dielectric ==> (scatter_spec(surface) matches Some((attenuation, _))
            && attenuation == white()),
{
}

/// Total internal reflection: a dielectric that cannot refract reflects,
/// whatever the reflectance and the draw.
pub proof fn lemma_total_internal_reflection(bend: i64, reflectance: i64, draw: i64)
    requires
        gt_spec(bend, ONE),
    ensures
        scatter_spec(Surface::Dielectric { bend, reflectance, draw }) == Some(
            (white(), Direction::Reflected),
        ),
{
}

} // verus!
