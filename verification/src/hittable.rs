//! The intersection protocol: hit records and the closed set of
//! hittable objects.

use vstd::prelude::*;

use crate::fixed::{DMAX, OMAX, TMAX};
use crate::interval::{s_surrounds, Interval, IntervalV};
use crate::material::Material;
use crate::objects::sphere::{s_sphere_hit, Sphere};
use crate::ray::{Ray, RayV};
use crate::vec3::{
    approx_unit, fits, lemma_approx_unit_fits, lemma_dot_neg_right, lemma_norm2_neg, s_dot,
    s_neg, Point, Vec3, V3,
};

verus! {

/// Ghost mirror of a hit record.
pub ghost struct HitV {
    pub point: V3,
    pub normal: V3,
    pub t: int,
    pub material: Material,
    pub front_face: bool,
}

/// Everything the scattering step needs to know about a successful
/// ray-object intersection.
pub struct HitRecord {
    pub point: Point,
    /// Unit normal at the hit point, always oriented against the
    /// incoming ray.
    pub normal: Vec3,
    pub t: i64,
    /// The material of the object that was hit, consulted by the
    /// scattering step.
    pub material: Material,
    /// Whether the ray struck the outward-facing side.
    pub front_face: bool,
}

impl View for HitRecord {
    type V = HitV;

    open spec fn view(&self) -> HitV {
        HitV {
            point: self.point@,
            normal: self.normal@,
            t: self.t as int,
            material: self.material,
            front_face: self.front_face,
        }
    }
}

/// The ray strikes the outward-facing side when its direction opposes
/// the outward normal.
pub open spec fn s_front_face(ray: RayV, outward: V3) -> bool {
    s_dot(ray.dir, outward) < 0
}

/// The stored normal: the outward normal, flipped when the ray struck
/// the inside, so that it always faces the incoming ray.
pub open spec fn s_face_normal(ray: RayV, outward: V3) -> V3 {
    if s_front_face(ray, outward) {
        outward
    } else {
        s_neg(outward)
    }
}

impl HitRecord {
    /// Build a record from the geometric outward normal; the stored
    /// normal is flipped to oppose the ray, whichever side was hit.
    pub fn new(point: Point, outward_normal: Vec3, ray: Ray, t: i64, material: Material) -> (r: Self)
        requires
            approx_unit(outward_normal@),
            fits(ray@.dir, DMAX as int),
        ensures
            r.point == point,
            r.t == t,
            r.material == material,
            r.front_face == s_front_face(ray@, outward_normal@),
            r.normal@ == s_face_normal(ray@, outward_normal@),
            approx_unit(r.normal@),
            s_dot(ray@.dir, r.normal@) <= 0,
    {
        proof {
            lemma_approx_unit_fits(outward_normal@);
            lemma_norm2_neg(outward_normal@);
            lemma_dot_neg_right(ray@.dir, outward_normal@);
        }
        let d: i64 = Vec3::dot(ray.direction, outward_normal);
        let front_face: bool = d < 0;
        let normal: Vec3 = if front_face {
            outward_normal
        } else {
            outward_normal.neg()
        };
        Self { point, normal, t, material, front_face }
    }
}

/// The closed set of objects a ray can intersect.
#[derive(Clone, Copy, Debug)]
pub enum Hittable {
    Sphere(Sphere),
}

/// Mirror of the intersection test, by object kind.
pub open spec fn s_hittable_hit(h: Hittable, ray: RayV, ray_t: IntervalV) -> Option<HitV> {
    match h {
        Hittable::Sphere(s) => s_sphere_hit(s, ray, ray_t),
    }
}

impl Hittable {
    /// Geometric validity of the object.
    pub open spec fn wf(self) -> bool {
        match self {
            Hittable::Sphere(s) => s.wf(),
        }
    }

    /// Return the hit record at which the ray intersects the object,
    /// if it does so strictly inside the interval.
    pub fn hit(&self, ray: Ray, ray_t: Interval) -> (r: Option<HitRecord>)
        requires
            self.wf(),
            fits(ray@.orig, OMAX as int),
            fits(ray@.dir, DMAX as int),
        ensures
            hit_matches(r, s_hittable_hit(*self, ray@, ray_t@)),
            r matches Some(h) ==> {
                &&& s_surrounds(ray_t@, h@.t)
                &&& approx_unit(h@.normal)
                &&& s_dot(ray@.dir, h@.normal) <= 0
                &&& fits(h@.point, OMAX as int)
                &&& -TMAX <= h@.t <= TMAX
                &&& h@.material.wf()
            },
    {
        match self {
            Hittable::Sphere(s) => s.hit(ray, ray_t),
        }
    }
}

/// The executable result agrees with the ghost mirror, field by field.
pub open spec fn hit_matches(r: Option<HitRecord>, s: Option<HitV>) -> bool {
    match r {
        Option::None => s is None,
        Option::Some(h) => s == Option::Some(h@),
    }
}

} // verus!
