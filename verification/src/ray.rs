//! Rays and the scattered-ray result of a material interaction.

use vstd::prelude::*;

use crate::fixed::{mul_fp, DMAX, OMAX, TMAX};
use crate::vec3::{fits, s_add, s_scale, Point, Vec3, V3};

verus! {

/// Ghost mirror of a ray.
pub ghost struct RayV {
    pub orig: V3,
    pub dir: V3,
}

/// A half-line: origin point plus direction vector; the direction is
/// not required to be unit length.
#[derive(PartialEq, Eq, Structural, Debug, Clone, Copy)]
pub struct Ray {
    pub orig: Point,
    pub direction: Vec3,
}

impl View for Ray {
    type V = RayV;

    open spec fn view(&self) -> RayV {
        RayV { orig: self.orig@, dir: self.direction@ }
    }
}

/// The point a ray reaches at parameter `t`.
pub open spec fn s_ray_at(r: RayV, t: int) -> V3 {
    s_add(r.orig, s_scale(r.dir, t))
}

impl Ray {
    pub fn new(orig: Point, direction: Vec3) -> (r: Self)
        ensures
            r@ == (RayV { orig: orig@, dir: direction@ }),
    {
        Self { orig, direction }
    }

    /// Evaluate `origin + t * direction`.
    pub fn at(self, t: i64) -> (r: Point)
        requires
            fits(self@.orig, OMAX as int),
            fits(self@.dir, DMAX as int),
            -TMAX <= t <= TMAX,
        ensures
            r@ == s_ray_at(self@, t as int),
    {
        proof {
            crate::fixed::lemma_smul_le(self@.dir.x, t as int, 64_000_000_000, 100_000_000_000_000, 6_400_000_000_000_000_000);
            crate::fixed::lemma_smul_le(self@.dir.y, t as int, 64_000_000_000, 100_000_000_000_000, 6_400_000_000_000_000_000);
            crate::fixed::lemma_smul_le(self@.dir.z, t as int, 64_000_000_000, 100_000_000_000_000, 6_400_000_000_000_000_000);
        }
        let step: Vec3 = Vec3 {
            x: mul_fp(self.direction.x, t),
            y: mul_fp(self.direction.y, t),
            z: mul_fp(self.direction.z, t),
        };
        self.orig.add(step)
    }
}

/// Ghost mirror of a scattered ray.
pub ghost struct ScatteredRayV {
    pub attenuation: V3,
    pub ray: RayV,
}

/// A material's response to an incident ray: the outgoing ray and the
/// color filter it applies to whatever light that ray brings back.
#[derive(PartialEq, Eq, Structural, Debug, Clone, Copy)]
pub struct ScatteredRay {
    pub attenuation: crate::vec3::Vec3,
    pub ray: Ray,
}

impl View for ScatteredRay {
    type V = ScatteredRayV;

    open spec fn view(&self) -> ScatteredRayV {
        ScatteredRayV { attenuation: self.attenuation@, ray: self.ray@ }
    }
}

} // verus!
