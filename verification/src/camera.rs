//! The camera: viewport construction, ray generation, and the path
//! integrator resolving each ray's color.

use vstd::prelude::*;

use crate::color::{s_quantize, valid_color, write_color, Color};
use crate::fixed::{
    abs_i, div_fp, lemma_sdiv_count, lemma_smul_le, lemma_smul_zero, lemma_tdiv,
    lemma_tdiv_mult, mul_fp, s_div, s_mul, tdiv, tdiv_i128, CMAX, DMAX, OMAX, SCALE,
};
use crate::hittable::Hittable;
use crate::interval::Interval;
use crate::material::s_scatter_fixed;
use crate::objects::hittable_list::{s_list_hit, HittableList};
use crate::ray::{Ray, RayV};
use crate::rng::Rng;
use crate::vec3::{
    fits, lemma_norm2_zero, random_in_unit_disk, s_add, s_cmul, s_cross, s_divs, s_neg,
    s_norm2, s_scale, s_sub, s_unitv, Point, Vec3, V3,
};

verus! {

/// Why a camera configuration was rejected.
#[derive(Clone, Copy, PartialEq, Eq, Structural, Debug)]
pub enum CameraError {
    /// Image width or derived height outside `[1, 20000]`, or an
    /// aspect ratio beyond 4:1 either way.
    InvalidImage,
    /// Sample count outside `[1, 100000]`.
    InvalidSamples,
    /// Camera orientation vectors that span no basis: look-from equal
    /// to look-at, or an up vector parallel to the viewing direction.
    DegenerateOrientation,
}

/// Immutable-after-construction viewport state: image dimensions, the
/// top-left pixel center, per-pixel deltas, sampling and recursion
/// limits, and the defocus-disk basis.
#[derive(Debug)]
pub struct Camera {
    pub image_width: i32,
    pub image_height: i32,
    pub center: Point,
    pub pixel00_loc: Point,
    pub pixel_delta_u: Vec3,
    pub pixel_delta_v: Vec3,
    pub samples_per_pixel: i32,
    pub max_depth: i32,
    /// Tangent of half the defocus angle; nonpositive disables
    /// depth-of-field.
    pub defocus_tan: i64,
    pub defocus_disk_u: Vec3,
    pub defocus_disk_v: Vec3,
}

impl Camera {
    /// The bounds that keep every ray the camera emits within the
    /// geometry's numeric budget.
    pub open spec fn wf(self) -> bool {
        &&& 1 <= self.image_width <= 20000
        &&& 1 <= self.image_height <= 20000
        &&& 1 <= self.samples_per_pixel <= 100_000
        &&& fits(self.center@, CMAX as int)
        &&& fits(self.pixel00_loc@, 26_000_000_000)
        &&& fits(self.pixel_delta_u@, 16_000_000_000)
        &&& fits(self.pixel_delta_v@, 4_000_000_000)
        &&& abs_i(self.pixel_delta_u@.x) * (self.image_width as int) <= 16_000_000_000
        &&& abs_i(self.pixel_delta_u@.y) * (self.image_width as int) <= 16_000_000_000
        &&& abs_i(self.pixel_delta_u@.z) * (self.image_width as int) <= 16_000_000_000
        &&& abs_i(self.pixel_delta_v@.x) * (self.image_height as int) <= 4_000_000_000
        &&& abs_i(self.pixel_delta_v@.y) * (self.image_height as int) <= 4_000_000_000
        &&& abs_i(self.pixel_delta_v@.z) * (self.image_height as int) <= 4_000_000_000
        &&& fits(self.defocus_disk_u@, 2_000_000_000)
        &&& fits(self.defocus_disk_v@, 2_000_000_000)
    }
}

/// The color of a ray that escapes to the environment: a vertical
/// linear gradient from white at the horizon to sky blue at the
/// zenith, driven by the unit direction's vertical component.
pub open spec fn s_background(dir: V3) -> V3 {
    let y = s_mul(500_000, s_unitv(dir).y + SCALE);
    s_add(
        s_scale(V3 { x: SCALE as int, y: SCALE as int, z: SCALE as int }, SCALE - y),
        s_scale(V3 { x: 500_000, y: 700_000, z: SCALE as int }, y),
    )
}

/// The color a ray resolves to under the deterministic draw policy:
/// black once the bounce budget is exhausted or the direction is
/// degenerate; otherwise the scattered color filtered by the
/// surface's attenuation, or the background gradient on a miss. The
/// intersection interval starts at a small positive bound, keeping
/// rays from re-hitting the surface they were spawned on.
pub open spec fn s_ray_color_fixed(world: Seq<Hittable>, ray: RayV, depth: int) -> V3
    decreases depth,
{
    if depth <= 0 {
        V3 { x: 0, y: 0, z: 0 }
    } else if ray.dir == (V3 { x: 0, y: 0, z: 0 }) {
        V3 { x: 0, y: 0, z: 0 }
    } else {
        match s_list_hit(world, ray, crate::interval::IntervalV { min: 1000, max: i64::MAX as int }) {
            Option::Some(h) => {
                let s = s_scatter_fixed(h.material, ray, h);
                s_cmul(s.attenuation, s_ray_color_fixed(world, s.ray, depth - 1))
            },
            Option::None => s_background(ray.dir),
        }
    }
}

/// A product of two channel values in `[0, 1]` stays in `[0, 1]`.
proof fn lemma_valid_channel_mul(a: int, b: int)
    requires
        0 <= a <= SCALE,
        0 <= b <= SCALE,
    ensures
        0 <= s_mul(a, b) <= SCALE,
{
    lemma_tdiv(a * b, SCALE as int);
    assert(0 <= a * b <= (SCALE as int) * (SCALE as int)) by (nonlinear_arith)
        requires
            0 <= a <= SCALE,
            0 <= b <= SCALE,
    ;
    vstd::arithmetic::div_mod::lemma_div_is_ordered(a * b, (SCALE as int) * (SCALE as int), SCALE as int);
    vstd::arithmetic::div_mod::lemma_div_by_multiple(SCALE as int, SCALE as int);
    assert((SCALE as int) * (SCALE as int) / (SCALE as int) == SCALE as int);
}

/// The background gradient at any nonzero direction is a valid color.
fn background(direction: Vec3) -> (r: Color)
    requires
        fits(direction@, DMAX as int),
        s_norm2(direction@) > 0,
    ensures
        r@ == s_background(direction@),
        valid_color(r@),
{
    let u: Vec3 = direction.unit();
    let y: i64 = mul_fp(500_000, u.y + SCALE);
    proof {
        lemma_tdiv(500_000 * (u@.y + SCALE), SCALE as int);
        assert(0 <= 500_000 * (u@.y + SCALE) <= (SCALE as int) * (SCALE as int))
            by (nonlinear_arith)
            requires
                -SCALE <= u@.y <= SCALE,
                SCALE == 1_000_000,
        ;
        assert(0 <= s_mul(500_000, u@.y + SCALE) <= SCALE) by {
            vstd::arithmetic::div_mod::lemma_div_is_ordered(
                500_000 * (u@.y + SCALE),
                (SCALE as int) * (SCALE as int),
                SCALE as int,
            );
            vstd::arithmetic::div_mod::lemma_div_by_multiple(SCALE as int, SCALE as int);
            assert((SCALE as int) * (SCALE as int) / (SCALE as int) == SCALE as int);
        }
    }
    let white: Color = Color::new(SCALE, SCALE, SCALE);
    let sky: Color = Color::new(500_000, 700_000, SCALE);
    proof {
        lemma_valid_channel_mul(SCALE as int, (SCALE - y) as int);
        lemma_valid_channel_mul(500_000, y as int);
        lemma_valid_channel_mul(700_000, y as int);
        lemma_valid_channel_mul(SCALE as int, y as int);
        lemma_tdiv_mult((SCALE - y) as int);
        assert((SCALE as int) * ((SCALE - y) as int) == ((SCALE - y) as int) * SCALE)
            by (nonlinear_arith);
        assert(s_mul(SCALE as int, (SCALE - y) as int) == SCALE - y);
        lemma_tdiv_mult(y as int);
        assert((SCALE as int) * (y as int) == (y as int) * SCALE) by (nonlinear_arith);
        assert(s_mul(SCALE as int, y as int) == y as int);
        assert(s_mul(500_000, y as int) * SCALE <= 500_000 * (y as int)) by {
            lemma_tdiv(500_000 * (y as int), SCALE as int);
        }
        assert(s_mul(500_000, y as int) <= y as int) by (nonlinear_arith)
            requires
                s_mul(500_000, y as int) * SCALE <= 500_000 * (y as int),
                0 <= y <= SCALE,
                SCALE == 1_000_000,
        ;
        assert(s_mul(700_000, y as int) * SCALE <= 700_000 * (y as int)) by {
            lemma_tdiv(700_000 * (y as int), SCALE as int);
        }
        assert(s_mul(700_000, y as int) <= y as int) by (nonlinear_arith)
            requires
                s_mul(700_000, y as int) * SCALE <= 700_000 * (y as int),
                0 <= y <= SCALE,
                SCALE == 1_000_000,
    ;
    }
    white.scale(SCALE - y).add(sky.scale(y))
}

impl Camera {
    /// Resolve a ray's color by bouncing it through the scene's
    /// materials until it escapes, is absorbed, or exhausts the
    /// recursion budget.
    #[verifier::rlimit(100)]
    #[verifier::spinoff_prover]
    pub fn ray_color(ray: Ray, depth: i32, world: &HittableList, rng: &Rng) -> (r: Color)
        requires
            world.wf(),
            fits(ray@.orig, OMAX as int),
            fits(ray@.dir, DMAX as int),
        ensures
            valid_color(r@),
            depth <= 0 ==> r@ == (V3 { x: 0, y: 0, z: 0 }),
            depth > 0 && ray@.dir == (V3 { x: 0, y: 0, z: 0 }) ==> r@ == (V3 {
                x: 0,
                y: 0,
                z: 0,
            }),
            depth > 0 && ray@.dir != (V3 { x: 0, y: 0, z: 0 }) && s_list_hit(
                world@,
                ray@,
                crate::interval::IntervalV { min: 1000, max: i64::MAX as int },
            ) is None ==> r@ == s_background(ray@.dir),
            *rng == Rng::Fixed ==> r@ == s_ray_color_fixed(world@, ray@, depth as int),
        decreases depth,
    {
        if depth <= 0 {
            return Color::new(0, 0, 0);
        }
        if ray.direction.near_zero() {
            return Color::new(0, 0, 0);
        }
        proof {
            lemma_norm2_zero(ray@.dir);
        }
        let hit: Option<crate::hittable::HitRecord> = world.hit(ray, Interval::new(1000, i64::MAX));
        match hit {
            Option::Some(hit_record) => {
                let scattered: Option<crate::ray::ScatteredRay> = hit_record.material.scatter(
                    ray,
                    &hit_record,
                    rng,
                );
                match scattered {
                    Option::Some(s) => {
                        let rec: Color = Camera::ray_color(s.ray, depth - 1, world, rng);
                        proof {
                            lemma_valid_channel_mul(s@.attenuation.x, rec@.x);
                            lemma_valid_channel_mul(s@.attenuation.y, rec@.y);
                            lemma_valid_channel_mul(s@.attenuation.z, rec@.z);
                        }
                        s.attenuation.mul(rec)
                    },
                    Option::None => Color::new(0, 0, 0),
                }
            },
            Option::None => background(ray.direction),
        }
    }
}

} // verus!

verus! {

/// The point lies on the camera's defocus disk: the center offset by
/// disk coordinates of length below one applied to the defocus
/// basis.
pub open spec fn on_defocus_disk(c: Camera, origin: V3) -> bool {
    exists|dx: int, dy: int|
        #![trigger s_scale(c.defocus_disk_u@, dx), s_scale(c.defocus_disk_v@, dy)]
        dx * dx + dy * dy < (SCALE as int) * (SCALE as int) && origin == s_add(
            s_add(c.center@, s_scale(c.defocus_disk_u@, dx)),
            s_scale(c.defocus_disk_v@, dy),
        )
}

/// The ray the camera emits toward pixel `(i, j)` for given jitter
/// offsets and ray origin: the jittered sample point inside the
/// pixel's square, aimed from the origin.
pub open spec fn s_get_ray(c: Camera, i: int, j: int, off_u: int, off_v: int, origin: V3) -> RayV {
    let pc = s_add(
        s_add(c.pixel00_loc@, s_scale(c.pixel_delta_u@, j * SCALE)),
        s_scale(c.pixel_delta_v@, i * SCALE),
    );
    let sample = s_add(
        s_add(pc, s_scale(c.pixel_delta_u@, off_u)),
        s_scale(c.pixel_delta_v@, off_v),
    );
    RayV { orig: origin, dir: s_sub(sample, origin) }
}

/// The ray the camera emits toward pixel `(i, j)` under the
/// deterministic draw policy: no jitter, no defocus offset.
pub open spec fn s_get_ray_fixed(c: Camera, i: int, j: int) -> RayV {
    let pc = s_add(
        s_add(c.pixel00_loc@, s_scale(c.pixel_delta_u@, j * SCALE)),
        s_scale(c.pixel_delta_v@, i * SCALE),
    );
    RayV { orig: c.center@, dir: s_sub(pc, c.center@) }
}

/// A pixel delta scaled by a whole pixel count is the exact product,
/// and a span of at most `count` pixels plus one jitter step stays in
/// the budget.
proof fn lemma_delta_span(d: int, count: int, j: int, off: int, budget: int)
    requires
        abs_i(d) * count <= budget,
        0 <= budget,
        1 <= count,
        0 <= j < count,
        abs_i(off) <= 500_000,
    ensures
        s_mul(d, j * SCALE) == d * j,
        abs_i(d * j) + abs_i(s_mul(d, off)) <= budget,
{
    assert(d * (j * SCALE) == (d * j) * SCALE) by (nonlinear_arith);
    lemma_tdiv_mult(d * j);
    lemma_smul_le(d, off, abs_i(d), 1_000_000, abs_i(d));
    assert(abs_i(d * j) <= abs_i(d) * j) by (nonlinear_arith)
        requires
            0 <= j,
    ;
    assert(abs_i(d) * j + abs_i(d) <= abs_i(d) * count) by (nonlinear_arith)
        requires
            j < count,
            0 <= abs_i(d),
    ;
}

impl Camera {
    /// A point sampled from the defocus disk around the camera
    /// center.
    fn defocus_disk_sample(&self, rng: &Rng) -> (r: Point)
        requires
            self.wf(),
        ensures
            fits(r@, OMAX as int),
            on_defocus_disk(*self, r@),
            *rng == Rng::Fixed ==> r@ == self.center@,
    {
        let disk: Vec3 = random_in_unit_disk(rng);
        proof {
            lemma_smul_le(self.defocus_disk_u@.x, disk@.x, 2_000_000_000, 1_000_000, 2_000_000_000);
            lemma_smul_le(self.defocus_disk_u@.y, disk@.x, 2_000_000_000, 1_000_000, 2_000_000_000);
            lemma_smul_le(self.defocus_disk_u@.z, disk@.x, 2_000_000_000, 1_000_000, 2_000_000_000);
            lemma_smul_le(self.defocus_disk_v@.x, disk@.y, 2_000_000_000, 1_000_000, 2_000_000_000);
            lemma_smul_le(self.defocus_disk_v@.y, disk@.y, 2_000_000_000, 1_000_000, 2_000_000_000);
            lemma_smul_le(self.defocus_disk_v@.z, disk@.y, 2_000_000_000, 1_000_000, 2_000_000_000);
            if *rng == Rng::Fixed {
                lemma_smul_zero(self.defocus_disk_u@.x);
                lemma_smul_zero(self.defocus_disk_u@.y);
                lemma_smul_zero(self.defocus_disk_u@.z);
                lemma_smul_zero(self.defocus_disk_v@.x);
                lemma_smul_zero(self.defocus_disk_v@.y);
                lemma_smul_zero(self.defocus_disk_v@.z);
            }
        }
        let a: Vec3 = self.defocus_disk_u.scale(disk.x);
        let b: Vec3 = self.defocus_disk_v.scale(disk.y);
        let r: Point = self.center.add(a).add(b);
        proof {
            assert(disk@.z * disk@.z == 0) by (nonlinear_arith)
                requires
                    disk@.z == 0,
            ;
            assert(on_defocus_disk(*self, r@)) by {
                assert(disk@.x * disk@.x + disk@.y * disk@.y < (SCALE as int) * (SCALE as int)
                    && r@ == s_add(
                    s_add(self.center@, s_scale(self.defocus_disk_u@, disk@.x)),
                    s_scale(self.defocus_disk_v@, disk@.y),
                ));
            }
        }
        r
    }

    /// The ray toward a random point within the square surrounding
    /// pixel `(i, j)`, from the camera center or a random point of the
    /// defocus disk.
    #[verifier::rlimit(100)]
    #[verifier::spinoff_prover]
    pub fn get_ray(&self, i: i32, j: i32, rng: &Rng) -> (r: Ray)
        requires
            self.wf(),
            0 <= i < self.image_height,
            0 <= j < self.image_width,
        ensures
            fits(r@.orig, OMAX as int),
            fits(r@.dir, DMAX as int),
            exists|off_u: int, off_v: int, origin: V3|
                {
                    &&& -500_000 <= off_u < 500_000
                    &&& -500_000 <= off_v < 500_000
                    &&& fits(origin, OMAX as int)
                    &&& (self.defocus_tan <= 0 ==> origin == self.center@)
                    &&& (self.defocus_tan > 0 ==> on_defocus_disk(*self, origin))
                    &&& r@ == s_get_ray(*self, i as int, j as int, off_u, off_v, origin)
                },
            *rng == Rng::Fixed ==> r@ == s_get_ray_fixed(*self, i as int, j as int),
    {
        proof {
            lemma_delta_span(self.pixel_delta_u@.x, self.image_width as int, j as int, 0, 16_000_000_000);
            lemma_delta_span(self.pixel_delta_u@.y, self.image_width as int, j as int, 0, 16_000_000_000);
            lemma_delta_span(self.pixel_delta_u@.z, self.image_width as int, j as int, 0, 16_000_000_000);
            lemma_delta_span(self.pixel_delta_v@.x, self.image_height as int, i as int, 0, 4_000_000_000);
            lemma_delta_span(self.pixel_delta_v@.y, self.image_height as int, i as int, 0, 4_000_000_000);
            lemma_delta_span(self.pixel_delta_v@.z, self.image_height as int, i as int, 0, 4_000_000_000);
        }
        let du_j: Vec3 = self.pixel_delta_u.scale((j as i64) * SCALE);
        let dv_i: Vec3 = self.pixel_delta_v.scale((i as i64) * SCALE);
        let pixel_center: Point = self.pixel00_loc.add(du_j).add(dv_i);
        let off_u: i64 = rng.next_fp() - 500_000;
        let off_v: i64 = rng.next_fp() - 500_000;
        proof {
            lemma_delta_span(self.pixel_delta_u@.x, self.image_width as int, j as int, off_u as int, 16_000_000_000);
            lemma_delta_span(self.pixel_delta_u@.y, self.image_width as int, j as int, off_u as int, 16_000_000_000);
            lemma_delta_span(self.pixel_delta_u@.z, self.image_width as int, j as int, off_u as int, 16_000_000_000);
            lemma_delta_span(self.pixel_delta_v@.x, self.image_height as int, i as int, off_v as int, 4_000_000_000);
            lemma_delta_span(self.pixel_delta_v@.y, self.image_height as int, i as int, off_v as int, 4_000_000_000);
            lemma_delta_span(self.pixel_delta_v@.z, self.image_height as int, i as int, off_v as int, 4_000_000_000);
            if *rng == Rng::Fixed {
                lemma_smul_zero(self.pixel_delta_u@.x);
                lemma_smul_zero(self.pixel_delta_u@.y);
                lemma_smul_zero(self.pixel_delta_u@.z);
                lemma_smul_zero(self.pixel_delta_v@.x);
                lemma_smul_zero(self.pixel_delta_v@.y);
                lemma_smul_zero(self.pixel_delta_v@.z);
            }
        }
        let jit_u: Vec3 = self.pixel_delta_u.scale(off_u);
        let jit_v: Vec3 = self.pixel_delta_v.scale(off_v);
        let pixel_sample: Point = pixel_center.add(jit_u).add(jit_v);
        let ray_origin: Point = if self.defocus_tan <= 0 {
            self.center
        } else {
            self.defocus_disk_sample(rng)
        };
        let ray_direction: Vec3 = pixel_sample.sub(ray_origin);
        let r: Ray = Ray::new(ray_origin, ray_direction);
        proof {
            assert(exists|ou: int, ov: int, origin: V3|
                {
                    &&& -500_000 <= ou < 500_000
                    &&& -500_000 <= ov < 500_000
                    &&& fits(origin, OMAX as int)
                    &&& (self.defocus_tan <= 0 ==> origin == self.center@)
                    &&& (self.defocus_tan > 0 ==> on_defocus_disk(*self, origin))
                    &&& r@ == s_get_ray(*self, i as int, j as int, ou, ov, origin)
                }) by {
                assert({
                    &&& -500_000 <= off_u && off_u < 500_000
                    &&& -500_000 <= off_v && off_v < 500_000
                    &&& fits(ray_origin@, OMAX as int)
                    &&& (self.defocus_tan <= 0 ==> ray_origin@ == self.center@)
                    &&& (self.defocus_tan > 0 ==> on_defocus_disk(*self, ray_origin@))
                    &&& r@ == s_get_ray(*self, i as int, j as int, off_u as int, off_v as int, ray_origin@)
                });
            }
        }
        r
    }
}

} // verus!

verus! {

/// The image height derived from the width and aspect ratio.
pub open spec fn derived_height(aspect: int, w: int) -> int {
    tdiv(w * SCALE, aspect)
}

/// An image configuration the camera rejects: width or derived
/// height outside `[1, 20000]`, or an aspect beyond 4:1 either way.
pub open spec fn invalid_image_config(aspect: int, w: int) -> bool {
    let h = derived_height(aspect, w);
    !(1 <= w <= 20000) || !(1 <= h <= 20000) || w > 4 * h || h > 4 * w
}

/// A sample count the camera rejects.
pub open spec fn invalid_samples_config(samples: int) -> bool {
    !(1 <= samples <= 100_000)
}

/// Orientation vectors that span no viewport basis.
pub open spec fn degenerate_orientation(lookfrom: V3, lookat: V3, vup: V3) -> bool {
    let wd = s_sub(lookfrom, lookat);
    let wb = s_unitv(wd);
    let cu = s_cross(vup, wb);
    let ub = s_unitv(cu);
    let cv = s_cross(wb, ub);
    s_norm2(wd) == 0 || s_norm2(cu) == 0 || s_norm2(cv) == 0
}

/// Every derived field of a freshly built camera, step by step: the
/// orthonormal basis, the viewport extents from the half-height
/// tangent and the focus distance, the pixel deltas, the top-left
/// pixel center, and the defocus-disk basis.
pub open spec fn camera_fields_correct(
    c: Camera,
    aspect: int,
    w: int,
    tanv: int,
    samples: int,
    depth: int,
    lookfrom: V3,
    lookat: V3,
    vup: V3,
    tand: int,
    focus: int,
) -> bool {
    let h = derived_height(aspect, w);
    let wb = s_unitv(s_sub(lookfrom, lookat));
    let ub = s_unitv(s_cross(vup, wb));
    let vb = s_unitv(s_cross(wb, ub));
    let hh = s_mul(tanv, focus);
    let vh = 2 * hh;
    let vw = s_div(s_mul(vh, w * SCALE), h * SCALE);
    let vu = s_scale(ub, vw);
    let vv = s_scale(s_neg(vb), vh);
    let du = s_divs(vu, w * SCALE);
    let dv = s_divs(vv, h * SCALE);
    let ul = s_sub(
        s_sub(s_sub(lookfrom, s_divs(vu, 2 * SCALE)), s_divs(vv, 2 * SCALE)),
        s_scale(wb, focus),
    );
    let p00 = s_add(ul, s_scale(s_add(du, dv), 500_000));
    let dr = s_mul(tand, focus);
    &&& c.image_width == w
    &&& c.image_height == h
    &&& c.samples_per_pixel == samples
    &&& c.max_depth == depth
    &&& c.center@ == lookfrom
    &&& c.pixel00_loc@ == p00
    &&& c.pixel_delta_u@ == du
    &&& c.pixel_delta_v@ == dv
    &&& c.defocus_tan == tand
    &&& c.defocus_disk_u@ == s_scale(ub, dr)
    &&& c.defocus_disk_v@ == s_scale(vb, dr)
}

impl Camera {
    /// Build the camera's viewport state from placement parameters.
    /// The field-of-view and defocus angles enter as the tangents of
    /// their half-angles, precomputed by the caller; a malformed
    /// configuration is rejected with a descriptive error.
    #[verifier::rlimit(100)]
    #[verifier::spinoff_prover]
    pub fn new(
        aspect_ratio: i64,
        image_width: i32,
        tan_half_vfov: i64,
        samples_per_pixel: i32,
        max_depth: i32,
        lookfrom: Point,
        lookat: Point,
        vup: Vec3,
        tan_half_defocus: i64,
        focus_dist: i64,
    ) -> (r: Result<Camera, CameraError>)
        requires
            100_000 <= aspect_ratio <= 100_000_000,
            0 < tan_half_vfov <= SCALE,
            -SCALE <= tan_half_defocus <= SCALE,
            0 < focus_dist <= 2_000_000_000,
            fits(lookfrom@, CMAX as int),
            fits(lookat@, CMAX as int),
            fits(vup@, CMAX as int),
        ensures
            (r == Result::<Camera, CameraError>::Err(CameraError::InvalidImage))
                == invalid_image_config(aspect_ratio as int, image_width as int),
            (r == Result::<Camera, CameraError>::Err(CameraError::InvalidSamples)) == (
            !invalid_image_config(aspect_ratio as int, image_width as int)
                && invalid_samples_config(samples_per_pixel as int)),
            (r == Result::<Camera, CameraError>::Err(CameraError::DegenerateOrientation)) == (
            !invalid_image_config(aspect_ratio as int, image_width as int)
                && !invalid_samples_config(samples_per_pixel as int) && degenerate_orientation(
                lookfrom@,
                lookat@,
                vup@,
            )),
            r is Ok == (!invalid_image_config(aspect_ratio as int, image_width as int)
                && !invalid_samples_config(samples_per_pixel as int) && !degenerate_orientation(
                lookfrom@,
                lookat@,
                vup@,
            )),
            r matches Ok(c) ==> c.wf() && camera_fields_correct(
                c,
                aspect_ratio as int,
                image_width as int,
                tan_half_vfov as int,
                samples_per_pixel as int,
                max_depth as int,
                lookfrom@,
                lookat@,
                vup@,
                tan_half_defocus as int,
                focus_dist as int,
            ),
    {
        let h128: i128 = tdiv_i128(
            (image_width as i128) * (SCALE as i128),
            aspect_ratio as i128,
        );
        if image_width < 1 || image_width > 20000 || h128 < 1 || h128 > 20000 {
            return Err(CameraError::InvalidImage);
        }
        let image_height: i32 = h128 as i32;
        if image_width > 4 * image_height || image_height > 4 * image_width {
            return Err(CameraError::InvalidImage);
        }
        if samples_per_pixel < 1 || samples_per_pixel > 100_000 {
            return Err(CameraError::InvalidSamples);
        }
        let wd: Vec3 = lookfrom.sub(lookat);
        let wn2: i128 = wd.norm2();
        if wn2 == 0 {
            return Err(CameraError::DegenerateOrientation);
        }
        let w_basis: Vec3 = wd.unit();
        let cu: Vec3 = Vec3::cross(vup, w_basis);
        proof {
            crate::vec3::lemma_cross_bound(vup@, w_basis@, 4_000_000_000, 1_000_000, 8_000_000_000);
        }
        let cun2: i128 = cu.norm2();
        if cun2 == 0 {
            return Err(CameraError::DegenerateOrientation);
        }
        let u_basis: Vec3 = cu.unit();
        let cv: Vec3 = Vec3::cross(w_basis, u_basis);
        proof {
            crate::vec3::lemma_cross_bound(w_basis@, u_basis@, 1_000_000, 1_000_000, 2_000_000);
        }
        let cvn2: i128 = cv.norm2();
        if cvn2 == 0 {
            return Err(CameraError::DegenerateOrientation);
        }
        let v_basis: Vec3 = cv.unit();
        proof {
            lemma_smul_le(tan_half_vfov as int, focus_dist as int, 1_000_000, 2_000_000_000, 2_000_000_000);
            crate::fixed::lemma_tdiv((tan_half_vfov as int) * (focus_dist as int), SCALE as int);
            assert((tan_half_vfov as int) * (focus_dist as int) >= 0) by (nonlinear_arith)
                requires
                    tan_half_vfov >= 0,
                    focus_dist >= 0,
            ;
        }
        let hh: i64 = mul_fp(tan_half_vfov, focus_dist);
        let viewport_height: i64 = 2 * hh;
        proof {
            lemma_smul_le(
                viewport_height as int,
                (image_width as int) * (SCALE as int),
                4_000_000_000,
                20_000_000_000,
                80_000_000_000_000,
            );
        }
        let m: i64 = mul_fp(viewport_height, (image_width as i64) * SCALE);
        proof {
            lemma_vw_bounds(
                viewport_height as int,
                image_width as int,
                image_height as int,
                m as int,
            );
        }
        let viewport_width: i64 = div_fp(m, (image_height as i64) * SCALE);
        proof {
            lemma_smul_le(u_basis@.x, viewport_width as int, 1_000_000, 16_000_000_000, 16_000_000_000);
            lemma_smul_le(u_basis@.y, viewport_width as int, 1_000_000, 16_000_000_000, 16_000_000_000);
            lemma_smul_le(u_basis@.z, viewport_width as int, 1_000_000, 16_000_000_000, 16_000_000_000);
        }
        let viewport_u: Vec3 = u_basis.scale(viewport_width);
        proof {
            lemma_smul_le(s_neg(v_basis@).x, viewport_height as int, 1_000_000, 4_000_000_000, 4_000_000_000);
            lemma_smul_le(s_neg(v_basis@).y, viewport_height as int, 1_000_000, 4_000_000_000, 4_000_000_000);
            lemma_smul_le(s_neg(v_basis@).z, viewport_height as int, 1_000_000, 4_000_000_000, 4_000_000_000);
        }
        let viewport_v: Vec3 = v_basis.neg().scale(viewport_height);
        proof {
            lemma_delta_budget(viewport_u@.x, image_width as int, 16_000_000_000);
            lemma_delta_budget(viewport_u@.y, image_width as int, 16_000_000_000);
            lemma_delta_budget(viewport_u@.z, image_width as int, 16_000_000_000);
            lemma_delta_budget(viewport_v@.x, image_height as int, 4_000_000_000);
            lemma_delta_budget(viewport_v@.y, image_height as int, 4_000_000_000);
            lemma_delta_budget(viewport_v@.z, image_height as int, 4_000_000_000);
        }
        let pixel_delta_u: Vec3 = viewport_u.div((image_width as i64) * SCALE);
        let pixel_delta_v: Vec3 = viewport_v.div((image_height as i64) * SCALE);
        proof {
            lemma_delta_budget(viewport_u@.x, 2, 16_000_000_000);
            lemma_delta_budget(viewport_u@.y, 2, 16_000_000_000);
            lemma_delta_budget(viewport_u@.z, 2, 16_000_000_000);
            lemma_delta_budget(viewport_v@.x, 2, 4_000_000_000);
            lemma_delta_budget(viewport_v@.y, 2, 4_000_000_000);
            lemma_delta_budget(viewport_v@.z, 2, 4_000_000_000);
        }
        let half_u: Vec3 = viewport_u.div(2 * SCALE);
        let half_v: Vec3 = viewport_v.div(2 * SCALE);
        proof {
            lemma_smul_le(w_basis@.x, focus_dist as int, 1_000_000, 2_000_000_000, 2_000_000_000);
            lemma_smul_le(w_basis@.y, focus_dist as int, 1_000_000, 2_000_000_000, 2_000_000_000);
            lemma_smul_le(w_basis@.z, focus_dist as int, 1_000_000, 2_000_000_000, 2_000_000_000);
        }
        let w_scaled: Vec3 = w_basis.scale(focus_dist);
        let viewport_upper_left: Point = lookfrom.sub(half_u).sub(half_v).sub(w_scaled);
        let dsum: Vec3 = pixel_delta_u.add(pixel_delta_v);
        proof {
            lemma_smul_le(dsum@.x, 500_000, 20_000_000_000, 500_000, 10_000_000_000);
            lemma_smul_le(dsum@.y, 500_000, 20_000_000_000, 500_000, 10_000_000_000);
            lemma_smul_le(dsum@.z, 500_000, 20_000_000_000, 500_000, 10_000_000_000);
        }
        let half_step: Vec3 = dsum.scale(500_000);
        let pixel00_loc: Point = viewport_upper_left.add(half_step);
        proof {
            lemma_smul_le(tan_half_defocus as int, focus_dist as int, 1_000_000, 2_000_000_000, 2_000_000_000);
        }
        let defocus_radius: i64 = mul_fp(tan_half_defocus, focus_dist);
        proof {
            lemma_smul_le(u_basis@.x, defocus_radius as int, 1_000_000, 2_000_000_000, 2_000_000_000);
            lemma_smul_le(u_basis@.y, defocus_radius as int, 1_000_000, 2_000_000_000, 2_000_000_000);
            lemma_smul_le(u_basis@.z, defocus_radius as int, 1_000_000, 2_000_000_000, 2_000_000_000);
            lemma_smul_le(v_basis@.x, defocus_radius as int, 1_000_000, 2_000_000_000, 2_000_000_000);
            lemma_smul_le(v_basis@.y, defocus_radius as int, 1_000_000, 2_000_000_000, 2_000_000_000);
            lemma_smul_le(v_basis@.z, defocus_radius as int, 1_000_000, 2_000_000_000, 2_000_000_000);
        }
        let defocus_disk_u: Vec3 = u_basis.scale(defocus_radius);
        let defocus_disk_v: Vec3 = v_basis.scale(defocus_radius);
        Ok(
            Camera {
                image_width,
                image_height,
                center: lookfrom,
                pixel00_loc,
                pixel_delta_u,
                pixel_delta_v,
                samples_per_pixel,
                max_depth,
                defocus_tan: tan_half_defocus,
                defocus_disk_u,
                defocus_disk_v,
            },
        )
    }
}

/// The viewport width stays within four viewport heights when the
/// aspect check has passed.
proof fn lemma_vw_bounds(vh: int, w: int, h: int, m: int)
    requires
        0 <= vh <= 4_000_000_000,
        1 <= h <= 20000,
        1 <= w <= 4 * h,
        m == s_mul(vh, w * SCALE),
    ensures
        m == vh * w,
        abs_i(s_div(m, h * SCALE)) <= 16_000_000_000,
        i64::MIN <= s_div(m, h * SCALE) <= i64::MAX,
{
    assert(vh * (w * SCALE) == (vh * w) * SCALE) by (nonlinear_arith);
    lemma_tdiv_mult(vh * w);
    lemma_sdiv_count(m, h);
    assert(abs_i(m) <= 4 * vh * h) by (nonlinear_arith)
        requires
            m == vh * w,
            0 <= vh,
            1 <= w <= 4 * h,
    ;
    assert(abs_i(s_div(m, h * SCALE)) <= 4 * vh) by (nonlinear_arith)
        requires
            abs_i(s_div(m, h * SCALE)) * h <= abs_i(m),
            abs_i(m) <= 4 * vh * h,
            1 <= h,
            0 <= vh,
    ;
}

/// Dividing a viewport extent by its pixel count keeps both the
/// component and its product with the count inside the budget.
proof fn lemma_delta_budget(a: int, count: int, budget: int)
    requires
        abs_i(a) <= budget,
        1 <= count,
        0 <= budget <= 100_000_000_000,
    ensures
        abs_i(s_div(a, count * SCALE)) * count <= budget,
        abs_i(s_div(a, count * SCALE)) <= budget,
        i64::MIN <= s_div(a, count * SCALE) <= i64::MAX,
{
    lemma_sdiv_count(a, count);
    assert(abs_i(s_div(a, count * SCALE)) <= abs_i(s_div(a, count * SCALE)) * count)
        by (nonlinear_arith)
        requires
            1 <= count,
            0 <= abs_i(s_div(a, count * SCALE)),
    ;
}

} // verus!

verus! {

/// The quantized channels of pixel `(i, j)` under the deterministic
/// draw policy: every sample of the pixel resolves to the same
/// color, so the accumulated value is the sample count times it.
pub open spec fn s_pixel_fixed(c: Camera, world: Seq<Hittable>, i: int, j: int) -> (int, int, int) {
    let col = s_ray_color_fixed(world, s_get_ray_fixed(c, i, j), c.max_depth as int);
    let n = c.samples_per_pixel as int;
    (s_quantize(n * col.x, n), s_quantize(n * col.y, n), s_quantize(n * col.z, n))
}

impl Camera {
    /// Render one row of the image: for every pixel, accumulate the
    /// color of `samples_per_pixel` rays and quantize the average.
    #[verifier::rlimit(100)]
    #[verifier::spinoff_prover]
    pub fn render_row(&self, world: &HittableList, i: i32, rng: &Rng) -> (r: Vec<(u8, u8, u8)>)
        requires
            self.wf(),
            world.wf(),
            0 <= i < self.image_height,
        ensures
            r@.len() == self.image_width as int,
            *rng == Rng::Fixed ==> forall|j: int|
                0 <= j < r@.len() ==> {
                    &&& (#[trigger] r@[j]).0 == s_pixel_fixed(*self, world@, i as int, j).0
                    &&& r@[j].1 == s_pixel_fixed(*self, world@, i as int, j).1
                    &&& r@[j].2 == s_pixel_fixed(*self, world@, i as int, j).2
                },
    {
        let mut row: Vec<(u8, u8, u8)> = Vec::new();
        let mut j: i32 = 0;
        while j < self.image_width
            invariant
                self.wf(),
                world.wf(),
                0 <= i < self.image_height,
                0 <= j <= self.image_width,
                row@.len() == j as int,
                *rng == Rng::Fixed ==> forall|k: int|
                    0 <= k < j ==> {
                        &&& (#[trigger] row@[k]).0 == s_pixel_fixed(*self, world@, i as int, k).0
                        &&& row@[k].1 == s_pixel_fixed(*self, world@, i as int, k).1
                        &&& row@[k].2 == s_pixel_fixed(*self, world@, i as int, k).2
                    },
            decreases self.image_width - j,
        {
            let ghost fixed_color: V3 = s_ray_color_fixed(
                world@,
                s_get_ray_fixed(*self, i as int, j as int),
                self.max_depth as int,
            );
            let mut agg: Color = Color::new(0, 0, 0);
            let mut s: i32 = 0;
            while s < self.samples_per_pixel
                invariant
                    self.wf(),
                    world.wf(),
                    0 <= i < self.image_height,
                    0 <= j < self.image_width,
                    0 <= s <= self.samples_per_pixel,
                    0 <= agg@.x <= (s as int) * SCALE,
                    0 <= agg@.y <= (s as int) * SCALE,
                    0 <= agg@.z <= (s as int) * SCALE,
                    fixed_color == s_ray_color_fixed(
                        world@,
                        s_get_ray_fixed(*self, i as int, j as int),
                        self.max_depth as int,
                    ),
                    *rng == Rng::Fixed ==> {
                        &&& agg@.x == (s as int) * fixed_color.x
                        &&& agg@.y == (s as int) * fixed_color.y
                        &&& agg@.z == (s as int) * fixed_color.z
                    },
                decreases self.samples_per_pixel - s,
            {
                let ray: Ray = self.get_ray(i, j, rng);
                let color: Color = Camera::ray_color(ray, self.max_depth, world, rng);
                proof {
                    assert((s as int) * SCALE + SCALE == ((s as int) + 1) * SCALE)
                        by (nonlinear_arith);
                    if *rng == Rng::Fixed {
                        assert((s as int) * fixed_color.x + fixed_color.x == ((
                        s as int) + 1) * fixed_color.x) by (nonlinear_arith);
                        assert((s as int) * fixed_color.y + fixed_color.y == ((
                        s as int) + 1) * fixed_color.y) by (nonlinear_arith);
                        assert((s as int) * fixed_color.z + fixed_color.z == ((
                        s as int) + 1) * fixed_color.z) by (nonlinear_arith);
                    }
                }
                agg = agg.add(color);
                s = s + 1;
            }
            let px: (u8, u8, u8) = write_color(agg, self.samples_per_pixel);
            row.push(px);
            j = j + 1;
        }
        row
    }

    /// Render the full image in raster order: row-major, top to
    /// bottom, left to right. Rows are independent; this driver
    /// computes them in order.
    pub fn render(&self, world: &HittableList, rng: &Rng) -> (r: Vec<Vec<(u8, u8, u8)>>)
        requires
            self.wf(),
            world.wf(),
        ensures
            r@.len() == self.image_height as int,
            forall|i: int| 0 <= i < r@.len() ==> (#[trigger] r@[i])@.len() == self.image_width as int,
            *rng == Rng::Fixed ==> forall|i: int, j: int|
                0 <= i < r@.len() && 0 <= j < (#[trigger] r@[i])@.len() ==> {
                    &&& (#[trigger] r@[i]@[j]).0 == s_pixel_fixed(*self, world@, i, j).0
                    &&& r@[i]@[j].1 == s_pixel_fixed(*self, world@, i, j).1
                    &&& r@[i]@[j].2 == s_pixel_fixed(*self, world@, i, j).2
                },
    {
        let mut rows: Vec<Vec<(u8, u8, u8)>> = Vec::new();
        let mut i: i32 = 0;
        while i < self.image_height
            invariant
                self.wf(),
                world.wf(),
                0 <= i <= self.image_height,
                rows@.len() == i as int,
                forall|k: int| 0 <= k < i ==> (#[trigger] rows@[k])@.len() == self.image_width as int,
                *rng == Rng::Fixed ==> forall|k: int, j: int|
                    0 <= k < i && 0 <= j < (#[trigger] rows@[k])@.len() ==> {
                        &&& (#[trigger] rows@[k]@[j]).0 == s_pixel_fixed(*self, world@, k, j).0
                        &&& rows@[k]@[j].1 == s_pixel_fixed(*self, world@, k, j).1
                        &&& rows@[k]@[j].2 == s_pixel_fixed(*self, world@, k, j).2
                    },
            decreases self.image_height - i,
        {
            let row: Vec<(u8, u8, u8)> = self.render_row(world, i, rng);
            rows.push(row);
            i = i + 1;
        }
        rows
    }
}

/// Re-running the renderer with the deterministic draw policy on the
/// same camera and scene produces the identical image: both results
/// are pinned, pixel by pixel, to the same function of the inputs.
pub proof fn lemma_fixed_render_idempotent(
    c: Camera,
    world: Seq<Hittable>,
    a: Seq<Seq<(u8, u8, u8)>>,
    b: Seq<Seq<(u8, u8, u8)>>,
)
    requires
        a.len() == c.image_height as int,
        b.len() == c.image_height as int,
        forall|i: int| 0 <= i < a.len() ==> (#[trigger] a[i]).len() == c.image_width as int,
        forall|i: int| 0 <= i < b.len() ==> (#[trigger] b[i]).len() == c.image_width as int,
        forall|i: int, j: int|
            0 <= i < a.len() && 0 <= j < (#[trigger] a[i]).len() ==> {
                &&& (#[trigger] a[i][j]).0 == s_pixel_fixed(c, world, i, j).0
                &&& a[i][j].1 == s_pixel_fixed(c, world, i, j).1
                &&& a[i][j].2 == s_pixel_fixed(c, world, i, j).2
            },
        forall|i: int, j: int|
            0 <= i < b.len() && 0 <= j < (#[trigger] b[i]).len() ==> {
                &&& (#[trigger] b[i][j]).0 == s_pixel_fixed(c, world, i, j).0
                &&& b[i][j].1 == s_pixel_fixed(c, world, i, j).1
                &&& b[i][j].2 == s_pixel_fixed(c, world, i, j).2
            },
    ensures
        a =~~= b,
{
    assert forall|i: int| 0 <= i < a.len() implies a[i] =~= b[i] by {
        assert forall|j: int| 0 <= j < a[i].len() implies a[i][j] == b[i][j] by {
            assert(a[i][j].0 == b[i][j].0);
            assert(a[i][j].1 == b[i][j].1);
            assert(a[i][j].2 == b[i][j].2);
        }
    }
}

} // verus!

verus! {

/// A ray that escapes all geometry resolves to the background
/// gradient: with bounce budget left and a nonzero direction, a miss
/// (in particular, any ray in an empty scene) yields the linear
/// blend between white and sky blue driven by the unit direction's
/// vertical component.
pub proof fn lemma_ray_color_escapes(world: Seq<Hittable>, ray: RayV, depth: int)
    requires
        depth >= 1,
        ray.dir != (V3 { x: 0, y: 0, z: 0 }),
        world.len() == 0 || s_list_hit(
            world,
            ray,
            crate::interval::IntervalV { min: 1000, max: i64::MAX as int },
        ) is None,
    ensures
        s_ray_color_fixed(world, ray, depth) == s_background(ray.dir),
{
}

} // verus!

verus! {

/// The background gradient is a valid color for every nonzero
/// direction.
proof fn lemma_background_valid(dir: V3)
    requires
        dir != (V3 { x: 0, y: 0, z: 0 }),
    ensures
        valid_color(s_background(dir)),
{
    crate::vec3::lemma_norm2_zero(dir);
    crate::vec3::lemma_unitv_fits(dir);
    let u = s_unitv(dir);
    let y = s_mul(500_000, u.y + SCALE);
    lemma_tdiv(500_000 * (u.y + SCALE), SCALE as int);
    assert(0 <= 500_000 * (u.y + SCALE) <= (SCALE as int) * (SCALE as int)) by (nonlinear_arith)
        requires
            -SCALE <= u.y <= SCALE,
            SCALE == 1_000_000,
    ;
    assert(0 <= y <= SCALE) by {
        vstd::arithmetic::div_mod::lemma_div_is_ordered(
            500_000 * (u.y + SCALE),
            (SCALE as int) * (SCALE as int),
            SCALE as int,
        );
        vstd::arithmetic::div_mod::lemma_div_by_multiple(SCALE as int, SCALE as int);
        assert((SCALE as int) * (SCALE as int) / (SCALE as int) == SCALE as int);
    }
    lemma_valid_channel_mul(SCALE as int, SCALE - y);
    lemma_valid_channel_mul(500_000, y);
    lemma_valid_channel_mul(700_000, y);
    lemma_valid_channel_mul(SCALE as int, y);
    lemma_tdiv_mult(SCALE - y);
    assert((SCALE as int) * (SCALE - y) == (SCALE - y) * SCALE) by (nonlinear_arith);
    assert(s_mul(SCALE as int, SCALE - y) == SCALE - y);
    assert(s_mul(500_000, y) * SCALE <= 500_000 * y) by {
        lemma_tdiv(500_000 * y, SCALE as int);
    }
    assert(s_mul(500_000, y) <= y) by (nonlinear_arith)
        requires
            s_mul(500_000, y) * SCALE <= 500_000 * y,
            0 <= y <= SCALE,
            SCALE == 1_000_000,
    ;
    assert(s_mul(700_000, y) * SCALE <= 700_000 * y) by {
        lemma_tdiv(700_000 * y, SCALE as int);
    }
    assert(s_mul(700_000, y) <= y) by (nonlinear_arith)
        requires
            s_mul(700_000, y) * SCALE <= 700_000 * y,
            0 <= y <= SCALE,
            SCALE == 1_000_000,
    ;
    lemma_tdiv_mult(y);
    assert((SCALE as int) * y == y * SCALE) by (nonlinear_arith);
    assert(s_mul(SCALE as int, y) == y);
}

/// In a valid scene the deterministic-policy ray color is a valid
/// color at every depth.
pub proof fn lemma_ray_color_fixed_valid(world: Seq<Hittable>, ray: RayV, depth: int)
    requires
        crate::objects::hittable_list::s_world_wf(world),
    ensures
        valid_color(s_ray_color_fixed(world, ray, depth)),
    decreases depth,
{
    if depth <= 0 {
    } else if ray.dir == (V3 { x: 0, y: 0, z: 0 }) {
    } else {
        let itv = crate::interval::IntervalV { min: 1000, max: i64::MAX as int };
        match s_list_hit(world, ray, itv) {
            Option::Some(h) => {
                crate::objects::hittable_list::lemma_list_hit_material_wf(world, ray, itv, h);
                crate::material::lemma_scatter_attenuation_valid(
                    h.material,
                    ray,
                    h,
                    crate::material::fixed_unit_vector(),
                    500_000,
                );
                let s = s_scatter_fixed(h.material, ray, h);
                lemma_ray_color_fixed_valid(world, s.ray, depth - 1);
                let rec = s_ray_color_fixed(world, s.ray, depth - 1);
                lemma_valid_channel_mul(s.attenuation.x, rec.x);
                lemma_valid_channel_mul(s.attenuation.y, rec.y);
                lemma_valid_channel_mul(s.attenuation.z, rec.z);
            },
            Option::None => {
                lemma_background_valid(ray.dir);
            },
        }
    }
}

/// Scaling a channel by a factor in `[0, 1]` is monotone in the
/// channel.
proof fn lemma_channel_mul_monotone(a: int, b1: int, b2: int)
    requires
        0 <= a,
        0 <= b1 <= b2,
    ensures
        s_mul(a, b1) <= s_mul(a, b2),
{
    assert(0 <= a * b1 <= a * b2) by (nonlinear_arith)
        requires
            0 <= a,
            0 <= b1 <= b2,
    ;
    lemma_tdiv(a * b1, SCALE as int);
    lemma_tdiv(a * b2, SCALE as int);
    vstd::arithmetic::div_mod::lemma_div_is_ordered(a * b1, a * b2, SCALE as int);
}

/// Deepening the bounce budget never loses light: under the
/// deterministic draw policy, the color a ray resolves to is
/// componentwise nondecreasing in the depth limit, since the only
/// effect of a smaller budget is to cut a path short at black.
pub proof fn lemma_ray_color_fixed_monotone(world: Seq<Hittable>, ray: RayV, d1: int, d2: int)
    requires
        crate::objects::hittable_list::s_world_wf(world),
        d1 <= d2,
    ensures
        s_ray_color_fixed(world, ray, d1).x <= s_ray_color_fixed(world, ray, d2).x,
        s_ray_color_fixed(world, ray, d1).y <= s_ray_color_fixed(world, ray, d2).y,
        s_ray_color_fixed(world, ray, d1).z <= s_ray_color_fixed(world, ray, d2).z,
    decreases d2,
{
    lemma_ray_color_fixed_valid(world, ray, d2);
    if d1 <= 0 {
    } else if ray.dir == (V3 { x: 0, y: 0, z: 0 }) {
    } else {
        let itv = crate::interval::IntervalV { min: 1000, max: i64::MAX as int };
        match s_list_hit(world, ray, itv) {
            Option::Some(h) => {
                crate::objects::hittable_list::lemma_list_hit_material_wf(world, ray, itv, h);
                crate::material::lemma_scatter_attenuation_valid(
                    h.material,
                    ray,
                    h,
                    crate::material::fixed_unit_vector(),
                    500_000,
                );
                let s = s_scatter_fixed(h.material, ray, h);
                lemma_ray_color_fixed_monotone(world, s.ray, d1 - 1, d2 - 1);
                lemma_ray_color_fixed_valid(world, s.ray, d1 - 1);
                let r1 = s_ray_color_fixed(world, s.ray, d1 - 1);
                let r2 = s_ray_color_fixed(world, s.ray, d2 - 1);
                lemma_channel_mul_monotone(s.attenuation.x, r1.x, r2.x);
                lemma_channel_mul_monotone(s.attenuation.y, r1.y, r2.y);
                lemma_channel_mul_monotone(s.attenuation.z, r1.z, r2.z);
            },
            Option::None => {},
        }
    }
}

} // verus!
