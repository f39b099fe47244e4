//! The sphere primitive and its ray-intersection test.

use vstd::prelude::*;

use crate::fixed::{
    abs_i, isqrt_u128, lemma_smul_le, mul_fp, s_mul, sqrt_floor, tdiv, tdiv_i128, CMAX, DMAX,
    OMAX, SCALE, TMAX,
};
use crate::hittable::{s_face_normal, s_front_face, HitRecord, HitV};
use crate::interval::{s_surrounds, Interval, IntervalV};
use crate::material::Material;
use crate::ray::{s_ray_at, Ray, RayV};
use crate::vec3::{
    approx_unit, fits, s_add, s_divs, s_dot, s_sub, Point, Vec3, V3,
};

verus! {

/// A sphere: center, radius and surface material. A negative radius
/// flips the outward normal, describing a hollow shell.
#[derive(Clone, Copy, Debug)]
pub struct Sphere {
    pub center: Point,
    pub radius: i64,
    pub material: Material,
}

impl Sphere {
    /// Geometric validity: scene-bounded center, nonzero bounded
    /// radius, valid material.
    pub open spec fn wf(self) -> bool {
        &&& fits(self.center@, CMAX as int)
        &&& self.radius != 0
        &&& -CMAX <= self.radius <= CMAX
        &&& self.material.wf()
    }

    pub fn new(center: Point, radius: i64, material: Material) -> (r: Self)
        requires
            fits(center@, CMAX as int),
            radius != 0,
            -CMAX <= radius <= CMAX,
            material.wf(),
        ensures
            r.center == center,
            r.radius == radius,
            r.material == material,
            r.wf(),
    {
        Self { center, radius, material }
    }
}

/// The record a sphere reports for parameter `t`: the hit point, and
/// the unit outward normal oriented against the ray. A hit whose
/// point leaves the scene bounds, or whose normal cannot be
/// normalized within tolerance, is discarded as degenerate.
pub open spec fn s_sphere_record(s: Sphere, ray: RayV, t: int) -> Option<HitV> {
    let point = s_ray_at(ray, t);
    if !fits(point, OMAX as int) {
        None
    } else {
        let on = s_divs(s_sub(point, s.center@), s.radius as int);
        if !approx_unit(on) {
            None
        } else {
            Some(
                HitV {
                    point,
                    normal: s_face_normal(ray, on),
                    t,
                    material: s.material,
                    front_face: s_front_face(ray, on),
                },
            )
        }
    }
}

/// The accepted root of the sphere's quadratic: solve the
/// half-coefficient quadratic for the ray parameter, preferring the
/// nearer root; a root is accepted only strictly inside the
/// interval, so objects in front occlude objects behind and tangency
/// at a bound counts as a miss.
pub open spec fn s_sphere_roots(s: Sphere, ray: RayV, ray_t: IntervalV) -> Option<int> {
    let oc = s_sub(ray.orig, s.center@);
    let a = s_dot(ray.dir, ray.dir);
    let b = s_dot(ray.dir, oc);
    let c = s_dot(oc, oc) - s_mul(s.radius as int, s.radius as int);
    if a <= 0 {
        None
    } else {
        let disc = b * b - a * c;
        if disc < 0 {
            None
        } else {
            let sq = sqrt_floor(disc);
            let t1 = tdiv((-b - sq) * SCALE, a);
            let t2 = tdiv((-b + sq) * SCALE, a);
            if -TMAX <= t1 <= TMAX && s_surrounds(ray_t, t1) {
                Some(t1)
            } else if -TMAX <= t2 <= TMAX && s_surrounds(ray_t, t2) {
                Some(t2)
            } else {
                None
            }
        }
    }
}

/// The sphere intersection: the record at the accepted root, if any.
pub open spec fn s_sphere_hit(s: Sphere, ray: RayV, ray_t: IntervalV) -> Option<HitV> {
    match s_sphere_roots(s, ray, ray_t) {
        Option::None => None,
        Option::Some(t) => s_sphere_record(s, ray, t),
    }
}

impl Sphere {
    /// Return the hit record at which the ray intersects the sphere,
    /// if it does so strictly inside the interval.
    pub fn hit(&self, ray: Ray, ray_t: Interval) -> (r: Option<HitRecord>)
        requires
            self.wf(),
            fits(ray@.orig, OMAX as int),
            fits(ray@.dir, DMAX as int),
        ensures
            crate::hittable::hit_matches(r, s_sphere_hit(*self, ray@, ray_t@)),
            r matches Some(h) ==> {
                &&& s_surrounds(ray_t@, h@.t)
                &&& approx_unit(h@.normal)
                &&& s_dot(ray@.dir, h@.normal) <= 0
                &&& fits(h@.point, OMAX as int)
                &&& -TMAX <= h@.t <= TMAX
                &&& h@.material == self.material
                &&& h@.material.wf()
            },
    {
        let oc: Vec3 = ray.orig.sub(self.center);
        let a: i64 = Vec3::dot(ray.direction, ray.direction);
        let b: i64 = Vec3::dot(ray.direction, oc);
        proof {
            lemma_smul_le(
                self.radius as int,
                self.radius as int,
                4_000_000_000,
                4_000_000_000,
                16_000_000_000_000,
            );
        }
        let cdot: i64 = Vec3::dot(oc, oc);
        let c: i64 = cdot - mul_fp(self.radius, self.radius);
        if a <= 0 {
            return None;
        }
        proof {
            assert((b as i128) * (b as i128) == (b as int) * (b as int)) by (nonlinear_arith)
                requires
                    abs_i(b as int) <= 12_288_000_000_000_000,
            ;
            assert(-160000000000000000000000000000000 <= (b as int) * (b as int)
                <= 160000000000000000000000000000000) by (nonlinear_arith)
                requires
                    abs_i(b as int) <= 12_288_000_000_000_000,
            ;
            assert(-160000000000000000000000000000000 <= (a as int) * (c as int)
                <= 160000000000000000000000000000000) by (nonlinear_arith)
                requires
                    abs_i(a as int) <= 12_288_000_000_000_000,
                    abs_i(c as int) <= 12_304_000_000_000_000,
            ;
        }
        let disc: i128 = (b as i128) * (b as i128) - (a as i128) * (c as i128);
        if disc < 0 {
            return None;
        }
        let sq: u128 = isqrt_u128(disc as u128);
        proof {
            assert(sq as int <= 20_000_000_000_000_000) by (nonlinear_arith)
                requires
                    (sq as int) * (sq as int) <= disc as int,
                    0 <= disc as int <= 320000000000000000000000000000000,
            ;
        }
        let num1: i128 = -(b as i128) - (sq as i128);
        let num2: i128 = -(b as i128) + (sq as i128);
        proof {
            assert(-170000000000000000000000000000000000000 < (num1 as int) * (SCALE as int)
                < 170000000000000000000000000000000000000) by (nonlinear_arith)
                requires
                    abs_i(num1 as int) <= 40_000_000_000_000_000,
                    SCALE == 1_000_000,
            ;
            assert(-170000000000000000000000000000000000000 < (num2 as int) * (SCALE as int)
                < 170000000000000000000000000000000000000) by (nonlinear_arith)
                requires
                    abs_i(num2 as int) <= 40_000_000_000_000_000,
                    SCALE == 1_000_000,
            ;
        }
        let t1_128: i128 = tdiv_i128(num1 * (SCALE as i128), a as i128);
        let t2_128: i128 = tdiv_i128(num2 * (SCALE as i128), a as i128);
        let t: i64 = if -(TMAX as i128) <= t1_128 && t1_128 <= TMAX as i128 && ray_t.surrounds(
            t1_128 as i64,
        ) {
            t1_128 as i64
        } else if -(TMAX as i128) <= t2_128 && t2_128 <= TMAX as i128 && ray_t.surrounds(
            t2_128 as i64,
        ) {
            t2_128 as i64
        } else {
            return None;
        };
        let point: Point = ray.at(t);
        if point.x > OMAX || point.x < -OMAX || point.y > OMAX || point.y < -OMAX || point.z
            > OMAX || point.z < -OMAX {
            return None;
        }
        let on: Vec3 = point.sub(self.center).div(self.radius);
        if on.x > 2 * SCALE || on.x < -2 * SCALE || on.y > 2 * SCALE || on.y < -2 * SCALE
            || on.z > 2 * SCALE || on.z < -2 * SCALE {
            proof {
                lemma_big_component_not_unit(on@);
            }
            return None;
        }
        let nsq: i128 = on.norm2();
        if nsq < 999_800_010_000 || nsq > 1_000_200_010_000 {
            return None;
        }
        Some(HitRecord::new(point, on, ray, t, self.material))
    }
}

/// Intersecting a sphere at center `c` with a ray is the same
/// computation as intersecting a sphere at the origin with the ray
/// translated by `-c`: the accepted root is identical; whenever both
/// hit points pass the coordinate-bound guard (a machine limit, the
/// one place the two computations can part), the two tests agree on
/// whether a hit is reported; and when both report one, the records
/// agree up to translating the hit point back.
pub proof fn lemma_sphere_hit_translation(s: Sphere, ray: RayV, ray_t: IntervalV)
    ensures
        ({
            let s0 = Sphere {
                center: Vec3 { x: 0, y: 0, z: 0 },
                radius: s.radius,
                material: s.material,
            };
            let ray0 = RayV { orig: s_sub(ray.orig, s.center@), dir: ray.dir };
            &&& s_sphere_roots(s, ray, ray_t) == s_sphere_roots(s0, ray0, ray_t)
            &&& (match s_sphere_roots(s, ray, ray_t) {
                Option::None => s_sphere_hit(s, ray, ray_t) is None && s_sphere_hit(
                    s0,
                    ray0,
                    ray_t,
                ) is None,
                Option::Some(t) => (fits(s_ray_at(ray, t), OMAX as int) && fits(
                    s_ray_at(ray0, t),
                    OMAX as int,
                )) ==> (s_sphere_hit(s, ray, ray_t) is Some == s_sphere_hit(
                    s0,
                    ray0,
                    ray_t,
                ) is Some),
            })
            &&& (match (s_sphere_hit(s, ray, ray_t), s_sphere_hit(s0, ray0, ray_t)) {
                (Option::Some(h), Option::Some(h0)) => {
                    &&& h.t == h0.t
                    &&& h.normal == h0.normal
                    &&& h.front_face == h0.front_face
                    &&& h.point == s_add(h0.point, s.center@)
                },
                _ => true,
            })
        }),
{
    let s0 = Sphere { center: Vec3 { x: 0, y: 0, z: 0 }, radius: s.radius, material: s.material };
    let ray0 = RayV { orig: s_sub(ray.orig, s.center@), dir: ray.dir };
    assert(s_sub(ray0.orig, s0.center@) == s_sub(ray.orig, s.center@));
    match s_sphere_roots(s, ray, ray_t) {
        Option::None => {},
        Option::Some(t) => {
            let point = s_ray_at(ray, t);
            let point0 = s_ray_at(ray0, t);
            assert(point == s_add(point0, s.center@));
            assert(s_sub(point, s.center@) == s_sub(point0, s0.center@));
        },
    }
}

/// A hit a sphere reports carries the sphere's own material.
pub proof fn lemma_sphere_hit_material(s: Sphere, ray: RayV, ray_t: IntervalV, h: HitV)
    requires
        s_sphere_hit(s, ray, ray_t) == Option::Some(h),
    ensures
        h.material == s.material,
{
}

/// A vector with a component beyond two units cannot be in the unit
/// window.
proof fn lemma_big_component_not_unit(v: V3)
    requires
        abs_i(v.x) > 2_000_000 || abs_i(v.y) > 2_000_000 || abs_i(v.z) > 2_000_000,
    ensures
        !approx_unit(v),
{
    assert(crate::vec3::s_norm2(v) > 1_000_200_010_000) by (nonlinear_arith)
        requires
            abs_i(v.x) > 2_000_000 || abs_i(v.y) > 2_000_000 || abs_i(v.z) > 2_000_000,
    ;
}

} // verus!
