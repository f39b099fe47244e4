//! Surface materials and their scattering behaviour.
//!
//! Each material answers an incident ray with an outgoing ray and a
//! color attenuation, or absorbs it. The stochastic inputs (a unit
//! vector, a uniform draw) enter as explicit arguments of the
//! `scatter_with` functions, whose contracts pin the result exactly;
//! the `scatter` entry points draw those inputs from the random
//! source and are deterministic under the `Fixed` policy.

use vstd::prelude::*;

use crate::color::{valid_color, Color};
use crate::fixed::{
    abs_i, div_fp, lemma_sdiv_le_denom, lemma_smul_le, mul_fp, s_div, s_mul, s_sqrt, sqrt_fp,
    DMAX, SCALE,
};
use crate::hittable::{HitRecord, HitV};
use crate::ray::{Ray, RayV, ScatteredRay, ScatteredRayV};
use crate::rng::Rng;
use crate::vec3::{
    approx_unit, fits, lemma_approx_unit_fits, random_unit_vector, reflect, refract, s_add,
    s_dot, s_neg, s_norm2, s_reflect, s_refract, s_scale, s_unitv, Vec3, V3,
};

verus! {

/// The unit vector every `Fixed`-policy draw produces.
pub open spec fn fixed_unit_vector() -> V3 {
    V3 { x: 0, y: 0, z: SCALE as int }
}

/// A diffuse surface scattering rays with a cosine-weighted
/// distribution toward the normal.
#[derive(Clone, Copy, Debug)]
pub struct Lambertian {
    /// The reduction in intensity of a ray that hits the surface.
    pub albedo: Color,
}

/// A glossy surface mirror-reflecting incident rays, perturbed by a
/// fuzz factor.
#[derive(Clone, Copy, Debug)]
pub struct Metal {
    pub albedo: Color,
    /// Magnitude of the random perturbation added to the reflected
    /// direction, clamped to `[0, 1]`.
    pub fuzz: i64,
}

/// A transparent boundary refracting and partially reflecting rays.
#[derive(Clone, Copy, Debug)]
pub struct Dielectric {
    /// Index of refraction, at least one.
    pub ir: i64,
}

/// The closed set of surface materials.
#[derive(Clone, Copy, Debug)]
pub enum Material {
    Lambertian(Lambertian),
    Metal(Metal),
    Dielectric(Dielectric),
}

/// The diffuse outgoing direction: the surface normal plus a random
/// unit vector, with the normal itself as fallback when the two
/// cancel.
pub open spec fn s_lambertian_dir(normal: V3, ruv: V3) -> V3 {
    let d = s_add(normal, ruv);
    if d == (V3 { x: 0, y: 0, z: 0 }) {
        normal
    } else {
        d
    }
}

/// The full diffuse response: the ray leaves the hit point in the
/// diffuse direction, attenuated by the albedo.
pub open spec fn s_lambertian_scatter(albedo: V3, hit: HitV, ruv: V3) -> ScatteredRayV {
    ScatteredRayV {
        attenuation: albedo,
        ray: RayV { orig: hit.point, dir: s_lambertian_dir(hit.normal, ruv) },
    }
}

impl Lambertian {
    pub open spec fn wf(self) -> bool {
        valid_color(self.albedo@)
    }

    pub fn new(albedo: Color) -> (r: Self)
        requires
            valid_color(albedo@),
        ensures
            r.albedo == albedo,
            r.wf(),
    {
        Self { albedo }
    }

    /// The scattered ray for a given unit-vector sample; always
    /// scatters.
    pub fn scatter_with(&self, hit_record: &HitRecord, ruv: Vec3) -> (r: ScatteredRay)
        requires
            approx_unit(hit_record@.normal),
            fits(ruv@, SCALE as int),
        ensures
            r@ == s_lambertian_scatter(self.albedo@, hit_record@, ruv@),
            fits(r@.ray.dir, 3 * SCALE as int),
    {
        proof {
            lemma_approx_unit_fits(hit_record@.normal);
        }
        let mut direction: Vec3 = hit_record.normal.add(ruv);
        if direction.near_zero() {
            direction = hit_record.normal;
        }
        ScatteredRay { ray: Ray::new(hit_record.point, direction), attenuation: self.albedo }
    }

    /// Scatter an incident ray; a diffuse surface never absorbs.
    pub fn scatter(&self, ray: Ray, hit_record: &HitRecord, rng: &Rng) -> (r: Option<
        ScatteredRay,
    >)
        requires
            approx_unit(hit_record@.normal),
        ensures
            r is Some,
            r matches Some(s) ==> {
                &&& s@.ray.orig == hit_record@.point
                &&& s@.attenuation == self.albedo@
                &&& fits(s@.ray.dir, 3 * SCALE as int)
            },
            r matches Some(s) ==> exists|u: V3|
                approx_unit(u) && fits(u, SCALE as int) && s@ == s_lambertian_scatter(
                    self.albedo@,
                    hit_record@,
                    u,
                ),
            *rng == Rng::Fixed ==> (r matches Some(s) && s@ == s_lambertian_scatter(
                self.albedo@,
                hit_record@,
                fixed_unit_vector(),
            )),
    {
        let ruv: Vec3 = random_unit_vector(rng);
        let res: ScatteredRay = self.scatter_with(hit_record, ruv);
        proof {
            assert(exists|u: V3|
                approx_unit(u) && fits(u, SCALE as int) && res@ == s_lambertian_scatter(
                    self.albedo@,
                    hit_record@,
                    u,
                )) by {
                assert(approx_unit(ruv@) && fits(ruv@, SCALE as int) && res@
                    == s_lambertian_scatter(self.albedo@, hit_record@, ruv@));
            }
        }
        Some(res)
    }
}

/// The glossy outgoing direction: the unit incident direction
/// mirror-reflected about the normal, perturbed by the fuzz factor
/// times a random unit vector.
pub open spec fn s_metal_dir(ray: RayV, normal: V3, fuzz: int, ruv: V3) -> V3 {
    s_add(s_reflect(s_unitv(ray.dir), normal), s_scale(ruv, fuzz))
}

/// The full glossy response.
pub open spec fn s_metal_scatter(albedo: V3, fuzz: int, ray: RayV, hit: HitV, ruv: V3) -> ScatteredRayV {
    ScatteredRayV {
        attenuation: albedo,
        ray: RayV { orig: hit.point, dir: s_metal_dir(ray, hit.normal, fuzz, ruv) },
    }
}

impl Metal {
    pub open spec fn wf(self) -> bool {
        valid_color(self.albedo@) && 0 <= self.fuzz <= SCALE
    }

    /// The fuzz factor is clamped into `[0, 1]`.
    pub fn new(albedo: Color, fuzz: i64) -> (r: Self)
        requires
            valid_color(albedo@),
        ensures
            r.albedo == albedo,
            r.fuzz == (if fuzz < 0 { 0i64 } else if fuzz > SCALE { SCALE } else { fuzz }),
            r.wf(),
    {
        let f: i64 = if fuzz < 0 { 0 } else if fuzz > SCALE { SCALE } else { fuzz };
        Self { albedo, fuzz: f }
    }

    /// The scattered ray for a given unit-vector sample; always
    /// scatters. A fuzzed direction may point into the surface; that
    /// is deliberately left unfiltered.
    pub fn scatter_with(&self, ray: Ray, hit_record: &HitRecord, ruv: Vec3) -> (r: ScatteredRay)
        requires
            self.wf(),
            approx_unit(hit_record@.normal),
            fits(ruv@, SCALE as int),
            fits(ray@.dir, DMAX as int),
            s_norm2(ray@.dir) > 0,
        ensures
            r@ == s_metal_scatter(self.albedo@, self.fuzz as int, ray@, hit_record@, ruv@),
            fits(r@.ray.dir, 65 * SCALE as int),
    {
        proof {
            lemma_approx_unit_fits(hit_record@.normal);
            lemma_smul_le(ruv@.x, self.fuzz as int, 1_000_000, 1_000_000, 1_000_000);
            lemma_smul_le(ruv@.y, self.fuzz as int, 1_000_000, 1_000_000, 1_000_000);
            lemma_smul_le(ruv@.z, self.fuzz as int, 1_000_000, 1_000_000, 1_000_000);
        }
        let reflected: Vec3 = reflect(ray.direction.unit(), hit_record.normal).add(
            ruv.scale(self.fuzz),
        );
        ScatteredRay { ray: Ray::new(hit_record.point, reflected), attenuation: self.albedo }
    }

    /// Scatter an incident ray; a metal surface never absorbs.
    pub fn scatter(&self, ray: Ray, hit_record: &HitRecord, rng: &Rng) -> (r: Option<
        ScatteredRay,
    >)
        requires
            self.wf(),
            approx_unit(hit_record@.normal),
            fits(ray@.dir, DMAX as int),
            s_norm2(ray@.dir) > 0,
        ensures
            r is Some,
            r matches Some(s) ==> {
                &&& s@.ray.orig == hit_record@.point
                &&& s@.attenuation == self.albedo@
                &&& fits(s@.ray.dir, 65 * SCALE as int)
            },
            r matches Some(s) ==> exists|u: V3|
                approx_unit(u) && fits(u, SCALE as int) && s@ == s_metal_scatter(
                    self.albedo@,
                    self.fuzz as int,
                    ray@,
                    hit_record@,
                    u,
                ),
            *rng == Rng::Fixed ==> (r matches Some(s) && s@ == s_metal_scatter(
                self.albedo@,
                self.fuzz as int,
                ray@,
                hit_record@,
                fixed_unit_vector(),
            )),
    {
        let ruv: Vec3 = random_unit_vector(rng);
        let res: ScatteredRay = self.scatter_with(ray, hit_record, ruv);
        proof {
            assert(exists|u: V3|
                approx_unit(u) && fits(u, SCALE as int) && res@ == s_metal_scatter(
                    self.albedo@,
                    self.fuzz as int,
                    ray@,
                    hit_record@,
                    u,
                )) by {
                assert(approx_unit(ruv@) && fits(ruv@, SCALE as int) && res@
                    == s_metal_scatter(
                    self.albedo@,
                    self.fuzz as int,
                    ray@,
                    hit_record@,
                    ruv@,
                ));
            }
        }
        Some(res)
    }
}

} // verus!

verus! {

/// Schlick's closed-form approximation of the Fresnel reflectance
/// coefficient, over the relative refraction ratio.
pub open spec fn s_reflectance(cosine: int, ref_index: int) -> int {
    let q = s_div(SCALE - ref_index, SCALE + ref_index);
    let r0 = s_mul(q, q);
    let p = SCALE - cosine;
    let p2 = s_mul(p, p);
    let p4 = s_mul(p2, p2);
    let p5 = s_mul(p4, p);
    r0 + s_mul(SCALE - r0, p5)
}

/// The transmissive outgoing direction: reflect on total internal
/// reflection or a reflectance draw, refract otherwise.
pub open spec fn s_dielectric_dir(ray: RayV, hit: HitV, ir: int, rand: int) -> V3 {
    let u = s_unitv(ray.dir);
    let cos_theta = s_dot(u, s_neg(hit.normal));
    let sin2 = SCALE - s_mul(cos_theta, cos_theta);
    let sin_theta = s_sqrt(if sin2 >= 0 { sin2 } else { 0 });
    let ratio = if hit.front_face { s_div(SCALE as int, ir) } else { ir };
    if s_mul(sin_theta, ratio) > SCALE || s_reflectance(cos_theta, ratio) > rand {
        s_reflect(u, hit.normal)
    } else {
        s_refract(u, hit.normal, ratio)
    }
}

/// The full transmissive response: pure white attenuation, no
/// absorption.
pub open spec fn s_dielectric_scatter(ray: RayV, hit: HitV, ir: int, rand: int) -> ScatteredRayV {
    ScatteredRayV {
        attenuation: V3 { x: SCALE as int, y: SCALE as int, z: SCALE as int },
        ray: RayV { orig: hit.point, dir: s_dielectric_dir(ray, hit, ir, rand) },
    }
}

impl Dielectric {
    pub open spec fn wf(self) -> bool {
        SCALE <= self.ir <= 16 * SCALE
    }

    pub fn new(index_of_refraction: i64) -> (r: Self)
        requires
            SCALE <= index_of_refraction <= 16 * SCALE,
        ensures
            r.ir == index_of_refraction,
            r.wf(),
    {
        Self { ir: index_of_refraction }
    }

    /// Schlick's reflectance over the relative refraction ratio.
    fn reflectance(cosine: i64, ref_index: i64) -> (r: i64)
        requires
            0 <= ref_index <= 16 * SCALE,
            abs_i(cosine as int) <= 12 * SCALE,
        ensures
            r == s_reflectance(cosine as int, ref_index as int),
    {
        proof {
            lemma_sdiv_le_denom(SCALE - ref_index, SCALE + ref_index, 15_000_000);
        }
        let q: i64 = div_fp(SCALE - ref_index, SCALE + ref_index);
        proof {
            lemma_smul_le(q as int, q as int, 15_000_000, 15_000_000, 225_000_000);
        }
        let r0: i64 = mul_fp(q, q);
        let p: i64 = SCALE - cosine;
        proof {
            lemma_smul_le(p as int, p as int, 13_000_000, 13_000_000, 169_000_000);
        }
        let p2: i64 = mul_fp(p, p);
        proof {
            lemma_smul_le(p2 as int, p2 as int, 169_000_000, 169_000_000, 28_561_000_000);
        }
        let p4: i64 = mul_fp(p2, p2);
        proof {
            lemma_smul_le(p4 as int, p as int, 28_561_000_000, 13_000_000, 371_293_000_000);
        }
        let p5: i64 = mul_fp(p4, p);
        proof {
            lemma_smul_le(
                (SCALE - r0) as int,
                p5 as int,
                226_000_000,
                371_293_000_000,
                83_912_218_000_000,
            );
        }
        r0 + mul_fp(SCALE - r0, p5)
    }

    /// The scattered ray for a given reflectance draw; always
    /// scatters, by reflection or refraction.
    pub fn scatter_with(&self, ray: Ray, hit_record: &HitRecord, rand_fp: i64) -> (r: ScatteredRay)
        requires
            self.wf(),
            approx_unit(hit_record@.normal),
            fits(ray@.dir, DMAX as int),
            s_norm2(ray@.dir) > 0,
        ensures
            r@ == s_dielectric_scatter(ray@, hit_record@, self.ir as int, rand_fp as int),
            fits(r@.ray.dir, 1000 * SCALE as int),
    {
        proof {
            lemma_approx_unit_fits(hit_record@.normal);
        }
        let u: Vec3 = ray.direction.unit();
        let neg_n: Vec3 = hit_record.normal.neg();
        let cos_theta: i64 = Vec3::dot(u, neg_n);
        proof {
            crate::vec3::lemma_dot_small(u@, s_neg(hit_record@.normal));
            lemma_smul_le(cos_theta as int, cos_theta as int, 12_000_000, 12_000_000, 144_000_000);
        }
        proof {
            assert((cos_theta as int) * (cos_theta as int) >= 0) by (nonlinear_arith);
            crate::fixed::lemma_tdiv((cos_theta as int) * (cos_theta as int), SCALE as int);
        }
        let sin2: i64 = SCALE - mul_fp(cos_theta, cos_theta);
        let clamped: i64 = if sin2 >= 0 {
            sin2
        } else {
            0
        };
        proof {
            crate::vec3::lemma_sqrt_le_scale(clamped as int);
        }
        let sin_theta: i64 = sqrt_fp(clamped);
        proof {
            lemma_sdiv_le_denom(SCALE as int, self.ir as int, 1_000_000);
        }
        let refraction_ratio: i64 = if hit_record.front_face {
            div_fp(SCALE, self.ir)
        } else {
            self.ir
        };
        proof {
            assert(s_div(SCALE as int, self.ir as int) >= 0) by {
                crate::fixed::lemma_tdiv((SCALE as int) * SCALE, self.ir as int);
            }
            lemma_smul_le(sin_theta as int, refraction_ratio as int, 1_000_000, 16_000_000, 16_000_000);
        }
        let cannot_refract: bool = mul_fp(sin_theta, refraction_ratio) > SCALE;
        let direction: Vec3 = if cannot_refract || Dielectric::reflectance(cos_theta, refraction_ratio)
            > rand_fp {
            reflect(u, hit_record.normal)
        } else {
            refract(u, hit_record.normal, refraction_ratio)
        };
        ScatteredRay {
            ray: Ray::new(hit_record.point, direction),
            attenuation: Color::new(SCALE, SCALE, SCALE),
        }
    }

    /// Scatter an incident ray; a dielectric never absorbs.
    pub fn scatter(&self, ray: Ray, hit_record: &HitRecord, rng: &Rng) -> (r: Option<
        ScatteredRay,
    >)
        requires
            self.wf(),
            approx_unit(hit_record@.normal),
            fits(ray@.dir, DMAX as int),
            s_norm2(ray@.dir) > 0,
        ensures
            r is Some,
            r matches Some(s) ==> {
                &&& s@.ray.orig == hit_record@.point
                &&& s@.attenuation == (V3 { x: SCALE as int, y: SCALE as int, z: SCALE as int })
                &&& fits(s@.ray.dir, 1000 * SCALE as int)
            },
            r matches Some(s) ==> exists|rand: int|
                (0 <= rand < SCALE) && s@ == s_dielectric_scatter(
                    ray@,
                    hit_record@,
                    self.ir as int,
                    rand,
                ),
            *rng == Rng::Fixed ==> (r matches Some(s) && s@ == s_dielectric_scatter(
                ray@,
                hit_record@,
                self.ir as int,
                500_000,
            )),
    {
        let rand_fp: i64 = rng.next_fp();
        let res: ScatteredRay = self.scatter_with(ray, hit_record, rand_fp);
        proof {
            assert(exists|rand: int|
                (0 <= rand < SCALE) && res@ == s_dielectric_scatter(
                    ray@,
                    hit_record@,
                    self.ir as int,
                    rand,
                )) by {
                assert(0 <= rand_fp && rand_fp < SCALE && res@ == s_dielectric_scatter(
                    ray@,
                    hit_record@,
                    self.ir as int,
                    rand_fp as int,
                ));
            }
        }
        Some(res)
    }
}

/// The response of a material for given stochastic inputs: a unit
/// vector sample for the diffuse and glossy kinds, a reflectance draw
/// for the transmissive kind.
pub open spec fn s_scatter(m: Material, ray: RayV, hit: HitV, u: V3, rand: int) -> ScatteredRayV {
    match m {
        Material::Lambertian(l) => s_lambertian_scatter(l.albedo@, hit, u),
        Material::Metal(mt) => s_metal_scatter(mt.albedo@, mt.fuzz as int, ray, hit, u),
        Material::Dielectric(d) => s_dielectric_scatter(ray, hit, d.ir as int, rand),
    }
}

/// The response of a material under the deterministic draw policy.
pub open spec fn s_scatter_fixed(m: Material, ray: RayV, hit: HitV) -> ScatteredRayV {
    s_scatter(m, ray, hit, fixed_unit_vector(), 500_000)
}

impl Material {
    /// Validity of the material's parameters.
    pub open spec fn wf(self) -> bool {
        match self {
            Material::Lambertian(l) => l.wf(),
            Material::Metal(m) => m.wf(),
            Material::Dielectric(d) => d.wf(),
        }
    }

    /// Describe the scattered ray off the material for an incident
    /// ray with the given hit record; none of the current materials
    /// absorbs, though the contract leaves absorption to future
    /// variants.
    pub fn scatter(&self, ray: Ray, hit_record: &HitRecord, rng: &Rng) -> (r: Option<
        ScatteredRay,
    >)
        requires
            self.wf(),
            approx_unit(hit_record@.normal),
            fits(ray@.dir, DMAX as int),
            s_norm2(ray@.dir) > 0,
        ensures
            r is Some,
            r matches Some(s) ==> {
                &&& s@.ray.orig == hit_record@.point
                &&& valid_color(s@.attenuation)
                &&& fits(s@.ray.dir, 1000 * SCALE as int)
            },
            r matches Some(s) ==> exists|u: V3, rand: int|
                approx_unit(u) && fits(u, SCALE as int) && (0 <= rand < SCALE) && s@
                    == s_scatter(*self, ray@, hit_record@, u, rand),
            *rng == Rng::Fixed ==> (r matches Some(s) && s@ == s_scatter_fixed(
                *self,
                ray@,
                hit_record@,
            )),
    {
        let r: Option<ScatteredRay> = match self {
            Material::Lambertian(l) => l.scatter(ray, hit_record, rng),
            Material::Metal(m) => m.scatter(ray, hit_record, rng),
            Material::Dielectric(d) => d.scatter(ray, hit_record, rng),
        };
        proof {
            let s = r->Some_0;
            match *self {
                Material::Lambertian(l) => {
                    let u = choose|u: V3|
                        approx_unit(u) && fits(u, SCALE as int) && s@ == s_lambertian_scatter(
                            l.albedo@,
                            hit_record@,
                            u,
                        );
                    assert(approx_unit(u) && fits(u, SCALE as int) && (0 <= 0 < SCALE) && s@
                        == s_scatter(*self, ray@, hit_record@, u, 0));
                },
                Material::Metal(m) => {
                    let u = choose|u: V3|
                        approx_unit(u) && fits(u, SCALE as int) && s@ == s_metal_scatter(
                            m.albedo@,
                            m.fuzz as int,
                            ray@,
                            hit_record@,
                            u,
                        );
                    assert(approx_unit(u) && fits(u, SCALE as int) && (0 <= 0 < SCALE) && s@
                        == s_scatter(*self, ray@, hit_record@, u, 0));
                },
                Material::Dielectric(d) => {
                    let rand = choose|rand: int|
                        (0 <= rand < SCALE) && s@ == s_dielectric_scatter(
                            ray@,
                            hit_record@,
                            d.ir as int,
                            rand,
                        );
                    assert(s_norm2(fixed_unit_vector()) == 1_000_000_000_000) by (nonlinear_arith)
                        requires
                            SCALE == 1_000_000,
                    ;
                    assert(approx_unit(fixed_unit_vector()) && fits(
                        fixed_unit_vector(),
                        SCALE as int,
                    ) && (0 <= rand < SCALE) && s@ == s_scatter(
                        *self,
                        ray@,
                        hit_record@,
                        fixed_unit_vector(),
                        rand,
                    ));
                },
            }
        }
        r
    }
}

} // verus!

verus! {

/// A perfect mirror reflects a head-on ray straight back: with zero
/// fuzz and an incident direction exactly antiparallel to an exactly
/// unit normal, the outgoing direction is exactly the normal, the
/// reverse of the incoming direction.
pub proof fn lemma_metal_mirror_reflection(ray: RayV, normal: V3, ruv: V3)
    requires
        s_norm2(normal) == 1_000_000_000_000,
        ray.dir == s_neg(normal),
    ensures
        s_metal_dir(ray, normal, 0, ruv) == normal,
        s_metal_dir(ray, normal, 0, ruv) == s_neg(ray.dir),
{
    let n = normal;
    crate::vec3::lemma_norm2_neg(n);
    crate::fixed::lemma_sqrt_floor_unique(1_000_000_000_000, 1_000_000);
    assert(crate::vec3::s_len(s_neg(n)) == SCALE as int);
    crate::fixed::lemma_tdiv_mult(s_neg(n).x);
    crate::fixed::lemma_tdiv_mult(s_neg(n).y);
    crate::fixed::lemma_tdiv_mult(s_neg(n).z);
    let u = s_unitv(ray.dir);
    assert(u == s_neg(n));
    assert(s_neg(u) == n);
    crate::fixed::lemma_tdiv_mult(1_000_000);
    assert(s_dot(n, n) == SCALE as int) by {
        assert(1_000_000_000_000 == 1_000_000int * 1_000_000);
    }
    let two_n = s_scale(n, 2 * SCALE);
    assert(two_n == (V3 { x: 2 * n.x, y: 2 * n.y, z: 2 * n.z })) by {
        assert(n.x * (2 * SCALE) == (2 * n.x) * SCALE) by (nonlinear_arith);
        assert(n.y * (2 * SCALE) == (2 * n.y) * SCALE) by (nonlinear_arith);
        assert(n.z * (2 * SCALE) == (2 * n.z) * SCALE) by (nonlinear_arith);
        crate::fixed::lemma_tdiv_mult(2 * n.x);
        crate::fixed::lemma_tdiv_mult(2 * n.y);
        crate::fixed::lemma_tdiv_mult(2 * n.z);
    }
    assert(s_scale(two_n, SCALE as int) == two_n) by {
        crate::fixed::lemma_tdiv_mult(two_n.x);
        crate::fixed::lemma_tdiv_mult(two_n.y);
        crate::fixed::lemma_tdiv_mult(two_n.z);
    }
    assert(s_reflect(u, n) == n);
    assert(s_scale(ruv, 0) == (V3 { x: 0, y: 0, z: 0 })) by {
        crate::fixed::lemma_smul_zero(ruv.x);
        crate::fixed::lemma_smul_zero(ruv.y);
        crate::fixed::lemma_smul_zero(ruv.z);
    }
}

/// A dielectric with index of refraction exactly one does not bend a
/// head-on ray: for an incident direction exactly antiparallel to an
/// exactly unit normal, the outgoing direction equals the incoming
/// one, whatever the reflectance draw.
pub proof fn lemma_dielectric_identity(ray: RayV, hit: HitV, rand: int)
    requires
        s_norm2(hit.normal) == 1_000_000_000_000,
        ray.dir == s_neg(hit.normal),
        0 <= rand,
    ensures
        s_dielectric_dir(ray, hit, SCALE as int, rand) == ray.dir,
{
    let n = hit.normal;
    crate::vec3::lemma_norm2_neg(n);
    crate::fixed::lemma_sqrt_floor_unique(1_000_000_000_000, 1_000_000);
    crate::fixed::lemma_tdiv_mult(s_neg(n).x);
    crate::fixed::lemma_tdiv_mult(s_neg(n).y);
    crate::fixed::lemma_tdiv_mult(s_neg(n).z);
    let u = s_unitv(ray.dir);
    assert(u == s_neg(n));
    assert((-n.x) * (-n.x) == n.x * n.x) by (nonlinear_arith);
    assert((-n.y) * (-n.y) == n.y * n.y) by (nonlinear_arith);
    assert((-n.z) * (-n.z) == n.z * n.z) by (nonlinear_arith);
    crate::fixed::lemma_tdiv_mult(1_000_000);
    let cos_theta = s_dot(u, s_neg(n));
    assert(cos_theta == SCALE as int) by {
        assert(1_000_000_000_000 == 1_000_000int * 1_000_000);
    }
    assert(s_mul(SCALE as int, SCALE as int) == SCALE as int) by {
        assert((SCALE as int) * SCALE == (SCALE as int) * SCALE);
    }
    crate::fixed::lemma_sqrt_floor_unique(0, 0);
    vstd::arithmetic::div_mod::lemma_div_of0(SCALE as int);
    assert(crate::fixed::s_sqrt(0) == 0) by {
        assert(0int * SCALE == 0) by (nonlinear_arith);
    }
    let ratio = if hit.front_face { s_div(SCALE as int, SCALE as int) } else { SCALE as int };
    assert(s_div(SCALE as int, SCALE as int) == SCALE as int);
    assert(ratio == SCALE as int);
    assert(s_mul(0, ratio) == 0) by {
        assert(0int * ratio == 0) by (nonlinear_arith);
        vstd::arithmetic::div_mod::lemma_div_of0(SCALE as int);
    }
    assert(s_reflectance(SCALE as int, SCALE as int) == 0) by {
        assert(s_div(0, 2 * SCALE as int) == 0) by {
            assert(0int * SCALE == 0) by (nonlinear_arith);
            vstd::arithmetic::div_mod::lemma_div_of0(2 * SCALE as int);
        }
        assert(s_mul(0, 0) == 0) by {
            assert(0int * 0 == 0) by (nonlinear_arith);
            vstd::arithmetic::div_mod::lemma_div_of0(SCALE as int);
        }
        crate::fixed::lemma_smul_zero(SCALE as int);
    }
    assert(s_refract(u, n, SCALE as int) == u) by {
        assert(s_scale(n, SCALE as int) == n) by {
            crate::fixed::lemma_tdiv_mult(n.x);
            crate::fixed::lemma_tdiv_mult(n.y);
            crate::fixed::lemma_tdiv_mult(n.z);
        }
        assert(s_add(u, n) == (V3 { x: 0, y: 0, z: 0 }));
        let zero = V3 { x: 0, y: 0, z: 0 };
        assert(s_scale(zero, SCALE as int) == zero) by {
            crate::fixed::lemma_tdiv_mult(0);
        }
        assert(s_norm2(zero) == 0) by {
            assert(0int * 0 == 0) by (nonlinear_arith);
        }
        crate::fixed::lemma_sqrt_floor_unique(0, 0);
        assert(crate::vec3::s_len(zero) == 0);
        assert(s_mul(0, 0) == 0) by {
            assert(0int * 0 == 0) by (nonlinear_arith);
            vstd::arithmetic::div_mod::lemma_div_of0(SCALE as int);
        }
        assert(crate::fixed::s_sqrt(SCALE as int) == SCALE as int) by {
            crate::fixed::lemma_sqrt_floor_unique((SCALE as int) * SCALE, SCALE as int);
        }
        assert(s_scale(s_neg(n), SCALE as int) == s_neg(n)) by {
            crate::fixed::lemma_tdiv_mult(s_neg(n).x);
            crate::fixed::lemma_tdiv_mult(s_neg(n).y);
            crate::fixed::lemma_tdiv_mult(s_neg(n).z);
        }
        assert(s_add(zero, s_neg(n)) == s_neg(n));
    }
}

} // verus!

verus! {

/// A valid material attenuates with a valid color, whatever the
/// stochastic inputs.
pub proof fn lemma_scatter_attenuation_valid(m: Material, ray: RayV, hit: HitV, u: V3, rand: int)
    requires
        m.wf(),
    ensures
        valid_color(s_scatter(m, ray, hit, u, rand).attenuation),
{
}

} // verus!
