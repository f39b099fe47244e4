//! Three-component fixed-point vectors and points.
//!
//! Every operation has an exact contract: the ghost type `V3` holds
//! the raw components as unbounded integers, and each executable
//! method returns precisely the value of its spec-level mirror.

use vstd::prelude::*;

use crate::fixed::{
    abs_i, div_fp, isqrt_u128, mul_fp, s_div, s_mul, s_sqrt, sqrt_fp, sqrt_floor, tdiv,
    lemma_smul_le, lemma_sqrt_floor_unique, lemma_tdiv, lemma_tdiv_neg, SCALE, VMAX,
};
use crate::rng::Rng;

verus! {

/// Ghost mirror of a vector: the raw fixed-point components as
/// mathematical integers.
pub ghost struct V3 {
    pub x: int,
    pub y: int,
    pub z: int,
}

/// A vector of three fixed-point components; also used for points and
/// colors, as raw value `x` standing for the real number `x / SCALE`.
#[derive(Clone, Copy, PartialEq, Eq, Structural, Debug)]
pub struct Vec3 {
    pub x: i64,
    pub y: i64,
    pub z: i64,
}

pub use Vec3 as Point;

impl View for Vec3 {
    type V = V3;

    open spec fn view(&self) -> V3 {
        V3 { x: self.x as int, y: self.y as int, z: self.z as int }
    }
}

/// All three components lie within `m` in magnitude.
pub open spec fn fits(v: V3, m: int) -> bool {
    &&& -m <= v.x <= m
    &&& -m <= v.y <= m
    &&& -m <= v.z <= m
}

pub open spec fn s_add(a: V3, b: V3) -> V3 {
    V3 { x: a.x + b.x, y: a.y + b.y, z: a.z + b.z }
}

pub open spec fn s_sub(a: V3, b: V3) -> V3 {
    V3 { x: a.x - b.x, y: a.y - b.y, z: a.z - b.z }
}

pub open spec fn s_neg(a: V3) -> V3 {
    V3 { x: -a.x, y: -a.y, z: -a.z }
}

/// Component-wise fixed-point product.
pub open spec fn s_cmul(a: V3, b: V3) -> V3 {
    V3 { x: s_mul(a.x, b.x), y: s_mul(a.y, b.y), z: s_mul(a.z, b.z) }
}

/// Product with a fixed-point scalar.
pub open spec fn s_scale(a: V3, k: int) -> V3 {
    V3 { x: s_mul(a.x, k), y: s_mul(a.y, k), z: s_mul(a.z, k) }
}

/// Quotient by a fixed-point scalar.
pub open spec fn s_divs(a: V3, k: int) -> V3 {
    V3 { x: s_div(a.x, k), y: s_div(a.y, k), z: s_div(a.z, k) }
}

/// Dot product: the sum of the raw products carries scale squared, so
/// one truncating division by the scale brings it back.
pub open spec fn s_dot(a: V3, b: V3) -> int {
    tdiv(a.x * b.x + a.y * b.y + a.z * b.z, SCALE as int)
}

/// Squared Euclidean length in raw products (scale squared).
pub open spec fn s_norm2(a: V3) -> int {
    a.x * a.x + a.y * a.y + a.z * a.z
}

/// Euclidean length: the raw components already carry one factor of
/// the scale, so the plain integer square root of `s_norm2` is the
/// length at the same scale.
pub open spec fn s_len(a: V3) -> int {
    sqrt_floor(s_norm2(a))
}

/// Unit-normalized vector.
pub open spec fn s_unitv(a: V3) -> V3 {
    s_divs(a, s_len(a))
}

pub open spec fn s_cross(a: V3, b: V3) -> V3 {
    V3 {
        x: tdiv(a.y * b.z - a.z * b.y, SCALE as int),
        y: tdiv(a.z * b.x - a.x * b.z, SCALE as int),
        z: tdiv(a.x * b.y - a.y * b.x, SCALE as int),
    }
}

/// Mirror reflection of `d` about the normal `n`, computed as the
/// incident vector plus twice the normal scaled by `dot(-d, n)`.
pub open spec fn s_reflect(d: V3, n: V3) -> V3 {
    s_add(d, s_scale(s_scale(n, 2 * SCALE), s_dot(s_neg(d), n)))
}

/// Snell refraction of unit direction `d` at unit normal `n` with
/// relative index `ratio`: perpendicular and parallel components.
/// A rounding-induced negative radicand is clamped to zero, where
/// unguarded floating point would produce an undefined value.
pub open spec fn s_refract(d: V3, n: V3, ratio: int) -> V3 {
    let cos_theta = s_dot(d, s_neg(n));
    let r_perp = s_scale(s_add(d, s_scale(n, cos_theta)), ratio);
    let lp = s_len(r_perp);
    let one_minus = SCALE - s_mul(lp, lp);
    let sq = s_sqrt(if one_minus >= 0 { one_minus } else { 0 });
    s_add(r_perp, s_scale(s_neg(n), sq))
}

impl Vec3 {
    pub fn new(x: i64, y: i64, z: i64) -> (r: Self)
        ensures
            r@ == (V3 { x: x as int, y: y as int, z: z as int }),
    {
        Self { x, y, z }
    }

    pub fn add(self, other: Vec3) -> (r: Vec3)
        requires
            i64::MIN <= self@.x + other@.x <= i64::MAX,
            i64::MIN <= self@.y + other@.y <= i64::MAX,
            i64::MIN <= self@.z + other@.z <= i64::MAX,
        ensures
            r@ == s_add(self@, other@),
    {
        Vec3 { x: self.x + other.x, y: self.y + other.y, z: self.z + other.z }
    }

    pub fn sub(self, other: Vec3) -> (r: Vec3)
        requires
            i64::MIN <= self@.x - other@.x <= i64::MAX,
            i64::MIN <= self@.y - other@.y <= i64::MAX,
            i64::MIN <= self@.z - other@.z <= i64::MAX,
        ensures
            r@ == s_sub(self@, other@),
    {
        Vec3 { x: self.x - other.x, y: self.y - other.y, z: self.z - other.z }
    }

    pub fn neg(self) -> (r: Vec3)
        requires
            self@.x > i64::MIN,
            self@.y > i64::MIN,
            self@.z > i64::MIN,
        ensures
            r@ == s_neg(self@),
    {
        Vec3 { x: -self.x, y: -self.y, z: -self.z }
    }

    /// Component-wise product, as colors multiply.
    pub fn mul(self, other: Vec3) -> (r: Vec3)
        requires
            fits(self@, VMAX as int),
            fits(other@, VMAX as int),
        ensures
            r@ == s_cmul(self@, other@),
    {
        proof {
            lemma_component_mul_fits(self@.x, other@.x);
            lemma_component_mul_fits(self@.y, other@.y);
            lemma_component_mul_fits(self@.z, other@.z);
        }
        Vec3 {
            x: mul_fp(self.x, other.x),
            y: mul_fp(self.y, other.y),
            z: mul_fp(self.z, other.z),
        }
    }

    /// Product with a fixed-point scalar.
    pub fn scale(self, k: i64) -> (r: Vec3)
        requires
            fits(self@, VMAX as int),
            abs_i(k as int) <= VMAX,
        ensures
            r@ == s_scale(self@, k as int),
    {
        proof {
            lemma_component_mul_fits(self@.x, k as int);
            lemma_component_mul_fits(self@.y, k as int);
            lemma_component_mul_fits(self@.z, k as int);
        }
        Vec3 { x: mul_fp(self.x, k), y: mul_fp(self.y, k), z: mul_fp(self.z, k) }
    }

    /// Quotient by a fixed-point scalar.
    pub fn div(self, k: i64) -> (r: Vec3)
        requires
            fits(self@, VMAX as int),
            k != 0,
        ensures
            r@ == s_divs(self@, k as int),
    {
        proof {
            lemma_component_div_fits(self@.x, k as int);
            lemma_component_div_fits(self@.y, k as int);
            lemma_component_div_fits(self@.z, k as int);
        }
        Vec3 { x: div_fp(self.x, k), y: div_fp(self.y, k), z: div_fp(self.z, k) }
    }

    pub fn dot(v: Vec3, u: Vec3) -> (r: i64)
        requires
            fits(v@, VMAX as int),
            fits(u@, VMAX as int),
        ensures
            r == s_dot(v@, u@),
            abs_i(r as int) <= 12_288_000_000_000_000,
    {
        proof {
            lemma_dot_fits(v@, u@);
        }
        let s: i128 = (v.x as i128) * (u.x as i128) + (v.y as i128) * (u.y as i128)
            + (v.z as i128) * (u.z as i128);
        let r: i128 = crate::fixed::tdiv_i128(s, SCALE as i128);
        r as i64
    }

    pub fn cross(v: Vec3, u: Vec3) -> (r: Vec3)
        requires
            fits(v@, VMAX as int),
            fits(u@, VMAX as int),
        ensures
            r@ == s_cross(v@, u@),
    {
        proof {
            lemma_cross_fits(v@, u@);
        }
        let x: i128 = (v.y as i128) * (u.z as i128) - (v.z as i128) * (u.y as i128);
        let y: i128 = (v.z as i128) * (u.x as i128) - (v.x as i128) * (u.z as i128);
        let z: i128 = (v.x as i128) * (u.y as i128) - (v.y as i128) * (u.x as i128);
        let rx: i128 = crate::fixed::tdiv_i128(x, SCALE as i128);
        let ry: i128 = crate::fixed::tdiv_i128(y, SCALE as i128);
        let rz: i128 = crate::fixed::tdiv_i128(z, SCALE as i128);
        Vec3 { x: rx as i64, y: ry as i64, z: rz as i64 }
    }

    pub fn norm2(self) -> (r: i128)
        requires
            fits(self@, VMAX as int),
        ensures
            r == s_norm2(self@),
            0 <= r <= 12_288_000_000_000_000_000_000,
    {
        proof {
            lemma_norm2_fits(self@);
        }
        let xx: i128 = (self.x as i128) * (self.x as i128);
        let yy: i128 = (self.y as i128) * (self.y as i128);
        let zz: i128 = (self.z as i128) * (self.z as i128);
        xx + yy + zz
    }

    pub fn length(self) -> (r: i64)
        requires
            fits(self@, VMAX as int),
        ensures
            r == s_len(self@),
            0 <= r <= 120_000_000_000,
            r * r <= s_norm2(self@),
            s_norm2(self@) < (r + 1) * (r + 1),
    {
        let n: i128 = self.norm2();
        let r: u128 = isqrt_u128(n as u128);
        proof {
            assert(r as int <= 120_000_000_000) by (nonlinear_arith)
                requires
                    (r as int) * (r as int) <= n,
                    0 <= n <= 12_288_000_000_000_000_000_000,
            ;
        }
        r as i64
    }

    /// Unit-normalized vector; every component magnitude stays within
    /// one fixed-point unit, and for any input of length at least a
    /// hundredth of a unit the result lies in the unit tolerance
    /// window.
    pub fn unit(self) -> (r: Vec3)
        requires
            fits(self@, VMAX as int),
            s_norm2(self@) > 0,
        ensures
            r@ == s_unitv(self@),
            fits(r@, SCALE as int),
            s_norm2(self@) >= 10_000_000_000 ==> approx_unit(r@),
    {
        proof {
            if s_norm2(self@) >= 10_000_000_000 {
                lemma_unit_tolerance(self@);
            }
        }
        let l: i64 = self.length();
        proof {
            let n = s_norm2(self@);
            let ll = s_len(self@);
            lemma_len_pos(n, ll);
            assert(self@.x * self@.x <= n && self@.y * self@.y <= n && self@.z * self@.z
                <= n) by (nonlinear_arith)
                requires
                    n == s_norm2(self@),
            ;
            assert(n <= ll * ll + 2 * ll) by (nonlinear_arith)
                requires
                    n < (ll + 1) * (ll + 1),
            ;
            lemma_unit_fits(self@.x, ll);
            lemma_unit_fits(self@.y, ll);
            lemma_unit_fits(self@.z, ll);
        }
        self.div(l)
    }

    /// Whether every component is below the degeneracy threshold;
    /// the threshold is smaller than one raw unit, so this is an
    /// exact test for the zero vector.
    pub fn near_zero(&self) -> (r: bool)
        ensures
            r == (self@ == (V3 { x: 0, y: 0, z: 0 })),
    {
        self.x == 0 && self.y == 0 && self.z == 0
    }
}

proof fn lemma_component_mul_fits(a: int, b: int)
    requires
        abs_i(a) <= VMAX,
        abs_i(b) <= VMAX,
    ensures
        i64::MIN <= s_mul(a, b) <= i64::MAX,
{
    lemma_tdiv(a * b, SCALE as int);
    assert(abs_i(a * b) <= (VMAX as int) * (VMAX as int)) by (nonlinear_arith)
        requires
            abs_i(a) <= VMAX,
            abs_i(b) <= VMAX,
    ;
    assert(abs_i(a * b) / (SCALE as int) <= (VMAX as int) * (VMAX as int)) by (nonlinear_arith)
        requires
            abs_i(a * b) <= (VMAX as int) * (VMAX as int),
            SCALE == 1_000_000,
    ;
}

proof fn lemma_component_div_fits(a: int, k: int)
    requires
        abs_i(a) <= VMAX,
        k != 0,
    ensures
        i64::MIN <= s_div(a, k) <= i64::MAX,
{
    let b = abs_i(k);
    lemma_tdiv(a * SCALE, b);
    assert(tdiv(a * SCALE, k) == tdiv(a * SCALE, b) || tdiv(a * SCALE, k) == -tdiv(
        a * SCALE,
        b,
    ));
    assert(abs_i(a * SCALE) <= (VMAX as int) * (SCALE as int)) by (nonlinear_arith)
        requires
            abs_i(a) <= VMAX,
            SCALE == 1_000_000,
    ;
    assert(abs_i(a * SCALE) / b <= abs_i(a * SCALE)) by {
        vstd::arithmetic::div_mod::lemma_div_nonincreasing(abs_i(a * SCALE), b);
    }
}

proof fn lemma_dot_fits(a: V3, b: V3)
    requires
        fits(a, VMAX as int),
        fits(b, VMAX as int),
    ensures
        abs_i(a.x * b.x + a.y * b.y + a.z * b.z) <= 3 * (VMAX as int) * (VMAX as int),
        abs_i(s_dot(a, b)) <= 12_288_000_000_000_000,
        abs_i(a.x * b.x) <= (VMAX as int) * (VMAX as int),
        abs_i(a.y * b.y) <= (VMAX as int) * (VMAX as int),
        abs_i(a.z * b.z) <= (VMAX as int) * (VMAX as int),
{
    assert(abs_i(a.x * b.x) <= (VMAX as int) * (VMAX as int)) by (nonlinear_arith)
        requires
            -VMAX <= a.x <= VMAX,
            -VMAX <= b.x <= VMAX,
    ;
    assert(abs_i(a.y * b.y) <= (VMAX as int) * (VMAX as int)) by (nonlinear_arith)
        requires
            -VMAX <= a.y <= VMAX,
            -VMAX <= b.y <= VMAX,
    ;
    assert(abs_i(a.z * b.z) <= (VMAX as int) * (VMAX as int)) by (nonlinear_arith)
        requires
            -VMAX <= a.z <= VMAX,
            -VMAX <= b.z <= VMAX,
    ;
    lemma_tdiv(a.x * b.x + a.y * b.y + a.z * b.z, SCALE as int);
    assert(abs_i(s_dot(a, b)) <= 12_288_000_000_000_000) by (nonlinear_arith)
        requires
            abs_i(s_dot(a, b)) <= abs_i(a.x * b.x + a.y * b.y + a.z * b.z) / (SCALE as int),
            abs_i(a.x * b.x + a.y * b.y + a.z * b.z) <= 3 * (VMAX as int) * (VMAX as int),
            SCALE == 1_000_000,
            VMAX == 64_000_000_000,
    ;
}

proof fn lemma_cross_fits(a: V3, b: V3)
    requires
        fits(a, VMAX as int),
        fits(b, VMAX as int),
    ensures
        abs_i(a.y * b.z - a.z * b.y) <= 2 * (VMAX as int) * (VMAX as int),
        abs_i(a.z * b.x - a.x * b.z) <= 2 * (VMAX as int) * (VMAX as int),
        abs_i(a.x * b.y - a.y * b.x) <= 2 * (VMAX as int) * (VMAX as int),
        abs_i(a.y * b.z) <= (VMAX as int) * (VMAX as int),
        abs_i(a.z * b.y) <= (VMAX as int) * (VMAX as int),
        abs_i(a.z * b.x) <= (VMAX as int) * (VMAX as int),
        abs_i(a.x * b.z) <= (VMAX as int) * (VMAX as int),
        abs_i(a.x * b.y) <= (VMAX as int) * (VMAX as int),
        abs_i(a.y * b.x) <= (VMAX as int) * (VMAX as int),
        abs_i(s_cross(a, b).x) <= i64::MAX,
        abs_i(s_cross(a, b).y) <= i64::MAX,
        abs_i(s_cross(a, b).z) <= i64::MAX,
{
    assert(abs_i(a.y * b.z - a.z * b.y) <= 2 * (VMAX as int) * (VMAX as int)
        && abs_i(a.y * b.z) <= (VMAX as int) * (VMAX as int)
        && abs_i(a.z * b.y) <= (VMAX as int) * (VMAX as int)) by (nonlinear_arith)
        requires
            -VMAX <= a.y <= VMAX,
            -VMAX <= a.z <= VMAX,
            -VMAX <= b.y <= VMAX,
            -VMAX <= b.z <= VMAX,
    ;
    assert(abs_i(a.z * b.x - a.x * b.z) <= 2 * (VMAX as int) * (VMAX as int)
        && abs_i(a.z * b.x) <= (VMAX as int) * (VMAX as int)
        && abs_i(a.x * b.z) <= (VMAX as int) * (VMAX as int)) by (nonlinear_arith)
        requires
            -VMAX <= a.z <= VMAX,
            -VMAX <= a.x <= VMAX,
            -VMAX <= b.z <= VMAX,
            -VMAX <= b.x <= VMAX,
    ;
    assert(abs_i(a.x * b.y - a.y * b.x) <= 2 * (VMAX as int) * (VMAX as int)
        && abs_i(a.x * b.y) <= (VMAX as int) * (VMAX as int)
        && abs_i(a.y * b.x) <= (VMAX as int) * (VMAX as int)) by (nonlinear_arith)
        requires
            -VMAX <= a.x <= VMAX,
            -VMAX <= a.y <= VMAX,
            -VMAX <= b.x <= VMAX,
            -VMAX <= b.y <= VMAX,
    ;
    lemma_cross_comp_fit(a.y * b.z - a.z * b.y);
    lemma_cross_comp_fit(a.z * b.x - a.x * b.z);
    lemma_cross_comp_fit(a.x * b.y - a.y * b.x);
}

proof fn lemma_cross_comp_fit(p: int)
    requires
        abs_i(p) <= 2 * (VMAX as int) * (VMAX as int),
    ensures
        abs_i(tdiv(p, SCALE as int)) <= i64::MAX,
{
    lemma_tdiv(p, SCALE as int);
    assert(abs_i(p) / (SCALE as int) <= i64::MAX) by (nonlinear_arith)
        requires
            abs_i(p) <= 2 * (VMAX as int) * (VMAX as int),
            SCALE == 1_000_000,
            VMAX == 64_000_000_000,
    ;
}

proof fn lemma_norm2_fits(a: V3)
    requires
        fits(a, VMAX as int),
    ensures
        0 <= s_norm2(a) <= 12_288_000_000_000_000_000_000,
        0 <= a.x * a.x <= 4_096_000_000_000_000_000_000,
        0 <= a.y * a.y <= 4_096_000_000_000_000_000_000,
        0 <= a.z * a.z <= 4_096_000_000_000_000_000_000,
{
    assert(0 <= a.x * a.x <= 4_096_000_000_000_000_000_000) by (nonlinear_arith)
        requires
            -VMAX <= a.x <= VMAX,
            VMAX == 64_000_000_000,
    ;
    assert(0 <= a.y * a.y <= 4_096_000_000_000_000_000_000) by (nonlinear_arith)
        requires
            -VMAX <= a.y <= VMAX,
            VMAX == 64_000_000_000,
    ;
    assert(0 <= a.z * a.z <= 4_096_000_000_000_000_000_000) by (nonlinear_arith)
        requires
            -VMAX <= a.z <= VMAX,
            VMAX == 64_000_000_000,
    ;
}

proof fn lemma_len_pos(n: int, l: int)
    requires
        n > 0,
        0 <= l,
        n < (l + 1) * (l + 1),
    ensures
        l >= 1,
{
    if l < 1 {
        assert(false) by (nonlinear_arith)
            requires
                0 <= l < 1,
                n < (l + 1) * (l + 1),
                n > 0,
        ;
    }
}

/// A component divided by the vector's own length stays within one
/// fixed-point unit.
proof fn lemma_unit_fits(x: int, l: int)
    requires
        l >= 1,
        x * x <= l * l + 2 * l,
    ensures
        abs_i(s_div(x, l)) <= SCALE,
{
    assert(abs_i(x) <= l) by (nonlinear_arith)
        requires
            l >= 1,
            x * x <= l * l + 2 * l,
    ;
    lemma_tdiv(x * SCALE, l);
    assert(abs_i(x * SCALE) <= l * SCALE) by (nonlinear_arith)
        requires
            abs_i(x) <= l,
            SCALE == 1_000_000,
    ;
    assert(abs_i(x * SCALE) / l <= SCALE) by (nonlinear_arith)
        requires
            l >= 1,
            abs_i(x * SCALE) <= l * SCALE,
            SCALE == 1_000_000,
    ;
}

} // verus!

verus! {

/// The direction a ray takes when it mirror-reflects off a surface
/// with the given normal; both arguments are expected to be unit
/// vectors up to tolerance.
pub fn reflect(direction: Vec3, normal: Vec3) -> (r: Vec3)
    requires
        fits(direction@, 2 * SCALE as int),
        fits(normal@, 2 * SCALE as int),
    ensures
        r@ == s_reflect(direction@, normal@),
        fits(r@, 64 * SCALE as int),
{
    let neg_d: Vec3 = direction.neg();
    let d: i64 = Vec3::dot(neg_d, normal);
    proof {
        lemma_dot_small(s_neg(direction@), normal@);
    }
    let two_n: Vec3 = normal.scale(2 * SCALE);
    proof {
        lemma_smul_le(normal@.x, 2_000_000, 2_000_000, 2_000_000, 4_000_000);
        lemma_smul_le(normal@.y, 2_000_000, 2_000_000, 2_000_000, 4_000_000);
        lemma_smul_le(normal@.z, 2_000_000, 2_000_000, 2_000_000, 4_000_000);
        lemma_smul_le(s_scale(normal@, 2_000_000).x, s_dot(s_neg(direction@), normal@), 4_000_000, 12_000_000, 48_000_000);
        lemma_smul_le(s_scale(normal@, 2_000_000).y, s_dot(s_neg(direction@), normal@), 4_000_000, 12_000_000, 48_000_000);
        lemma_smul_le(s_scale(normal@, 2_000_000).z, s_dot(s_neg(direction@), normal@), 4_000_000, 12_000_000, 48_000_000);
    }
    let scaled: Vec3 = two_n.scale(d);
    direction.add(scaled)
}

/// The dot product of two vectors whose components stay within two
/// fixed-point units is at most twelve units in magnitude.
pub proof fn lemma_dot_small(a: V3, b: V3)
    requires
        fits(a, 2 * SCALE as int),
        fits(b, 2 * SCALE as int),
    ensures
        abs_i(s_dot(a, b)) <= 12 * SCALE as int,
{
    assert(abs_i(a.x * b.x + a.y * b.y + a.z * b.z) <= 12 * (SCALE as int) * (SCALE as int))
        by (nonlinear_arith)
        requires
            fits(a, 2 * SCALE as int),
            fits(b, 2 * SCALE as int),
    ;
    lemma_tdiv(a.x * b.x + a.y * b.y + a.z * b.z, SCALE as int);
    assert(abs_i(a.x * b.x + a.y * b.y + a.z * b.z) / (SCALE as int) <= 12 * SCALE as int)
        by (nonlinear_arith)
        requires
            abs_i(a.x * b.x + a.y * b.y + a.z * b.z) <= 12 * (SCALE as int) * (SCALE as int),
            SCALE == 1_000_000,
    ;
}

/// The direction a ray takes when it crosses a refractive boundary,
/// per Snell's law; `direction` and `normal` are expected to be unit
/// vectors up to tolerance and `refraction_ratio` the relative index.
pub fn refract(direction: Vec3, normal: Vec3, refraction_ratio: i64) -> (r: Vec3)
    requires
        fits(direction@, 2 * SCALE as int),
        fits(normal@, 2 * SCALE as int),
        0 <= refraction_ratio <= 16 * SCALE as int,
    ensures
        r@ == s_refract(direction@, normal@, refraction_ratio as int),
        fits(r@, 1000 * SCALE as int),
{
    let neg_n: Vec3 = normal.neg();
    let cos_theta: i64 = Vec3::dot(direction, neg_n);
    proof {
        lemma_dot_small(direction@, s_neg(normal@));
        lemma_smul_le(normal@.x, cos_theta as int, 2_000_000, 12_000_000, 24_000_000);
        lemma_smul_le(normal@.y, cos_theta as int, 2_000_000, 12_000_000, 24_000_000);
        lemma_smul_le(normal@.z, cos_theta as int, 2_000_000, 12_000_000, 24_000_000);
    }
    let shifted: Vec3 = direction.add(normal.scale(cos_theta));
    proof {
        let sh = s_add(direction@, s_scale(normal@, cos_theta as int));
        lemma_smul_le(sh.x, refraction_ratio as int, 26_000_000, 16_000_000, 416_000_000);
        lemma_smul_le(sh.y, refraction_ratio as int, 26_000_000, 16_000_000, 416_000_000);
        lemma_smul_le(sh.z, refraction_ratio as int, 26_000_000, 16_000_000, 416_000_000);
    }
    let r_perp: Vec3 = shifted.scale(refraction_ratio);
    let lp: i64 = r_perp.length();
    proof {
        lemma_len_small(r_perp@);
        lemma_smul_le(lp as int, lp as int, 721_000_000, 721_000_000, 519_841_000_000);
    }
    let lsq: i64 = mul_fp(lp, lp);
    let one_minus: i64 = SCALE - lsq;
    let clamped: i64 = if one_minus >= 0 { one_minus } else { 0 };
    let sq: i64 = sqrt_fp(clamped);
    proof {
        lemma_sqrt_le_scale(clamped as int);
        lemma_smul_le(s_neg(normal@).x, sq as int, 2_000_000, 1_000_000, 2_000_000);
        lemma_smul_le(s_neg(normal@).y, sq as int, 2_000_000, 1_000_000, 2_000_000);
        lemma_smul_le(s_neg(normal@).z, sq as int, 2_000_000, 1_000_000, 2_000_000);
    }
    let r_par: Vec3 = neg_n.scale(sq);
    r_perp.add(r_par)
}

/// A vector whose components stay within 416 fixed-point units has
/// length below 721 units.
proof fn lemma_len_small(a: V3)
    requires
        fits(a, 416 * SCALE as int),
    ensures
        0 <= s_len(a) <= 721 * SCALE as int,
        s_len(a) * s_len(a) <= s_norm2(a),
        s_norm2(a) < (s_len(a) + 1) * (s_len(a) + 1),
{
    assert(0 <= s_norm2(a) <= 3 * 416 * 416 * (SCALE as int) * (SCALE as int))
        by (nonlinear_arith)
        requires
            fits(a, 416 * SCALE as int),
            SCALE == 1_000_000,
    ;
    lemma_sqrt_floor_props(s_norm2(a));
    assert(s_len(a) <= 721 * SCALE as int) by (nonlinear_arith)
        requires
            s_len(a) * s_len(a) <= s_norm2(a),
            0 <= s_len(a),
            s_norm2(a) <= 3 * 416 * 416 * (SCALE as int) * (SCALE as int),
            SCALE == 1_000_000,
    ;
}

/// The fixed-point square root of a value at most one is at most one.
pub proof fn lemma_sqrt_le_scale(a: int)
    requires
        0 <= a <= SCALE,
    ensures
        0 <= s_sqrt(a) <= SCALE,
{
    lemma_sqrt_floor_props(a * SCALE);
    assert(a * SCALE <= (SCALE as int) * (SCALE as int)) by (nonlinear_arith)
        requires
            0 <= a <= SCALE,
    ;
    assert(s_sqrt(a) <= SCALE) by (nonlinear_arith)
        requires
            0 <= s_sqrt(a),
            s_sqrt(a) * s_sqrt(a) <= (SCALE as int) * (SCALE as int),
            SCALE == 1_000_000,
    ;
}

/// A nonnegative integer has a floor square root, so the chosen one
/// satisfies its defining property.
pub proof fn lemma_sqrt_floor_props(n: int)
    requires
        0 <= n,
    ensures
        0 <= sqrt_floor(n),
        sqrt_floor(n) * sqrt_floor(n) <= n,
        n < (sqrt_floor(n) + 1) * (sqrt_floor(n) + 1),
    decreases n,
{
    if n == 0 {
        lemma_sqrt_floor_unique(0, 0);
    } else {
        lemma_sqrt_floor_props(n - 1);
        let r = sqrt_floor(n - 1);
        if n < (r + 1) * (r + 1) {
            lemma_sqrt_floor_unique(n, r);
        } else {
            assert(n == (r + 1) * (r + 1));
            assert((r + 1) * (r + 1) < (r + 2) * (r + 2)) by (nonlinear_arith)
                requires
                    0 <= r,
            ;
            lemma_sqrt_floor_unique(n, r + 1);
        }
    }
}

} // verus!

verus! {

impl Vec3 {
    /// A vector with each component drawn uniformly from `[0, 1)`.
    pub fn random(rng: &Rng) -> (r: Vec3)
        ensures
            0 <= r@.x < SCALE,
            0 <= r@.y < SCALE,
            0 <= r@.z < SCALE,
            *rng == Rng::Fixed ==> r@ == (V3 {
                x: (SCALE / 2) as int,
                y: (SCALE / 2) as int,
                z: (SCALE / 2) as int,
            }),
    {
        Vec3 { x: rng.next_fp(), y: rng.next_fp(), z: rng.next_fp() }
    }

    /// A vector with each component drawn from the closed range
    /// `[min, max]`.
    pub fn random_range(rng: &Rng, min: i64, max: i64) -> (r: Vec3)
        requires
            -VMAX <= min <= max <= VMAX,
        ensures
            min <= r@.x <= max,
            min <= r@.y <= max,
            min <= r@.z <= max,
            fits(r@, VMAX as int),
            *rng == Rng::Fixed ==> r@.x == r@.y == r@.z == min + (max - min) / 2,
    {
        Vec3 {
            x: rng.next_range(min, max),
            y: rng.next_range(min, max),
            z: rng.next_range(min, max),
        }
    }

    /// A vector with each component drawn from the closed range
    /// `[min, max]`.
    pub fn random_disk(rng: &Rng, min: i64, max: i64) -> (r: Vec3)
        requires
            -VMAX <= min <= max <= VMAX,
        ensures
            min <= r@.x <= max,
            min <= r@.y <= max,
            min <= r@.z <= max,
            fits(r@, VMAX as int),
            *rng == Rng::Fixed ==> r@.x == r@.y == r@.z == min + (max - min) / 2,
    {
        Vec3::random_range(rng, min, max)
    }
}

/// A vector sampled from the interior of the unit ball by rejection;
/// points closer to the center than a tenth of a unit are rejected
/// as well, since so short a vector has too little resolution to
/// normalize. After a bounded number of rejected draws the axis
/// vector is returned, so the result is always usable.
fn random_in_unit_sphere(rng: &Rng) -> (r: Vec3)
    ensures
        10_000_000_000 <= s_norm2(r@) <= (SCALE as int) * (SCALE as int),
        fits(r@, SCALE as int),
        *rng == Rng::Fixed ==> r@ == (V3 { x: 0, y: 0, z: SCALE as int }),
{
    let mut attempts: u64 = 64;
    while attempts > 0
        decreases attempts,
    {
        let p: Vec3 = Vec3::random_range(rng, -SCALE, SCALE);
        let n: i128 = p.norm2();
        if 10_000_000_000 <= n && n < (SCALE as i128) * (SCALE as i128) {
            // a Fixed draw is the zero vector, which is never accepted
            proof {
                vstd::arithmetic::div_mod::lemma_div_by_multiple(SCALE as int, 2);
                assert((2 * SCALE as int) / 2 == SCALE as int);
                assert(*rng != Rng::Fixed);
            }
            return p;
        }
        attempts = attempts - 1;
    }
    Vec3 { x: 0, y: 0, z: SCALE }
}

/// A vector of unit length up to the library's tolerance, sampled by
/// normalizing a point from the unit ball.
pub fn random_unit_vector(rng: &Rng) -> (r: Vec3)
    ensures
        fits(r@, SCALE as int),
        approx_unit(r@),
        *rng == Rng::Fixed ==> r@ == (V3 { x: 0, y: 0, z: SCALE as int }),
{
    let p: Vec3 = random_in_unit_sphere(rng);
    let u: Vec3 = p.unit();
    proof {
        if *rng == Rng::Fixed {
            lemma_fixed_axis_unit();
        }
    }
    u
}

/// The axis vector of exactly one unit normalizes to itself.
proof fn lemma_fixed_axis_unit()
    ensures
        s_unitv(V3 { x: 0, y: 0, z: SCALE as int }) == (V3 { x: 0, y: 0, z: SCALE as int }),
{
    let v = V3 { x: 0, y: 0, z: SCALE as int };
    assert(s_norm2(v) == (SCALE as int) * (SCALE as int));
    lemma_sqrt_floor_unique((SCALE as int) * (SCALE as int), SCALE as int);
    assert(s_len(v) == SCALE as int);
    vstd::arithmetic::div_mod::lemma_div_of0(SCALE as int);
    assert(tdiv(0, SCALE as int) == 0);
    vstd::arithmetic::div_mod::lemma_div_by_multiple(SCALE as int, SCALE as int);
    assert(tdiv((SCALE as int) * (SCALE as int), SCALE as int) == SCALE as int);
}

/// A point sampled from the unit disk in the plane of the first two
/// axes, by rejection; the center is returned after a bounded number
/// of rejected draws.
pub fn random_in_unit_disk(rng: &Rng) -> (r: Vec3)
    ensures
        s_norm2(r@) < (SCALE as int) * (SCALE as int),
        r@.z == 0,
        fits(r@, SCALE as int),
        *rng == Rng::Fixed ==> r@ == (V3 { x: 0, y: 0, z: 0 }),
{
    let mut attempts: u64 = 64;
    while attempts > 0
        decreases attempts,
    {
        let p: Vec3 = Vec3::new(rng.next_range(-SCALE, SCALE), rng.next_range(-SCALE, SCALE), 0);
        let n: i128 = p.norm2();
        if n < (SCALE as i128) * (SCALE as i128) {
            return p;
        }
        attempts = attempts - 1;
    }
    Vec3 { x: 0, y: 0, z: 0 }
}

/// A unit-length vector in the half-space of the given normal.
pub fn random_on_hemisphere(normal: Vec3, rng: &Rng) -> (r: Vec3)
    requires
        fits(normal@, VMAX as int),
    ensures
        fits(r@, SCALE as int),
        approx_unit(r@),
        s_dot(r@, normal@) >= 0,
{
    let on_unit_sphere: Vec3 = random_unit_vector(rng);
    let d: i64 = Vec3::dot(on_unit_sphere, normal);
    if d > 0 {
        on_unit_sphere
    } else {
        proof {
            lemma_dot_neg(on_unit_sphere@, normal@);
            lemma_norm2_neg(on_unit_sphere@);
        }
        on_unit_sphere.neg()
    }
}

/// Negating one argument negates the dot product.
proof fn lemma_dot_neg(a: V3, b: V3)
    ensures
        s_dot(s_neg(a), b) == -s_dot(a, b),
{
    assert((-a.x) * b.x == -(a.x * b.x)) by (nonlinear_arith);
    assert((-a.y) * b.y == -(a.y * b.y)) by (nonlinear_arith);
    assert((-a.z) * b.z == -(a.z * b.z)) by (nonlinear_arith);
    lemma_tdiv_neg(a.x * b.x + a.y * b.y + a.z * b.z, SCALE as int);
}

} // verus!

verus! {

/// The squared length lies within the unit window: length within
/// one ten-thousandth of one (the bounds are `(SCALE - 100)^2` and
/// `(SCALE + 100)^2`).
pub open spec fn approx_unit(v: V3) -> bool {
    999_800_010_000 <= s_norm2(v) <= 1_000_200_010_000
}

/// A vector in the unit window has components within `SCALE + 100`.
pub proof fn lemma_approx_unit_fits(v: V3)
    requires
        approx_unit(v),
    ensures
        fits(v, 1_000_100),
        fits(v, 2 * SCALE as int),
{
    assert(fits(v, 1_000_100)) by (nonlinear_arith)
        requires
            s_norm2(v) <= 1_000_200_010_000,
    ;
}

/// Negation preserves the squared length.
pub proof fn lemma_norm2_neg(v: V3)
    ensures
        s_norm2(s_neg(v)) == s_norm2(v),
{
    assert((-v.x) * (-v.x) == v.x * v.x) by (nonlinear_arith);
    assert((-v.y) * (-v.y) == v.y * v.y) by (nonlinear_arith);
    assert((-v.z) * (-v.z) == v.z * v.z) by (nonlinear_arith);
}

/// Negating the second argument negates the dot product.
pub proof fn lemma_dot_neg_right(a: V3, b: V3)
    ensures
        s_dot(a, s_neg(b)) == -s_dot(a, b),
{
    assert(a.x * (-b.x) == -(a.x * b.x)) by (nonlinear_arith);
    assert(a.y * (-b.y) == -(a.y * b.y)) by (nonlinear_arith);
    assert(a.z * (-b.z) == -(a.z * b.z)) by (nonlinear_arith);
    lemma_tdiv_neg(a.x * b.x + a.y * b.y + a.z * b.z, SCALE as int);
}

/// Magnitude bound for a cross product.
pub proof fn lemma_cross_bound(a: V3, b: V3, ma: int, mb: int, bound: int)
    requires
        fits(a, ma),
        fits(b, mb),
        0 <= ma,
        0 <= mb,
        0 <= bound,
        2 * ma * mb <= bound * SCALE,
    ensures
        fits(s_cross(a, b), bound),
{
    lemma_cross_term(a.y * b.z - a.z * b.y, a.y, b.z, a.z, b.y, ma, mb, bound);
    lemma_cross_term(a.z * b.x - a.x * b.z, a.z, b.x, a.x, b.z, ma, mb, bound);
    lemma_cross_term(a.x * b.y - a.y * b.x, a.x, b.y, a.y, b.x, ma, mb, bound);
}

proof fn lemma_cross_term(p: int, a1: int, b1: int, a2: int, b2: int, ma: int, mb: int, bound: int)
    requires
        p == a1 * b1 - a2 * b2,
        abs_i(a1) <= ma,
        abs_i(a2) <= ma,
        abs_i(b1) <= mb,
        abs_i(b2) <= mb,
        0 <= bound,
        2 * ma * mb <= bound * SCALE,
    ensures
        -bound <= tdiv(p, SCALE as int) <= bound,
{
    assert(abs_i(p) <= 2 * ma * mb) by (nonlinear_arith)
        requires
            p == a1 * b1 - a2 * b2,
            abs_i(a1) <= ma,
            abs_i(a2) <= ma,
            abs_i(b1) <= mb,
            abs_i(b2) <= mb,
    ;
    lemma_tdiv(p, SCALE as int);
    vstd::arithmetic::div_mod::lemma_div_is_ordered(abs_i(p), bound * SCALE, SCALE as int);
    vstd::arithmetic::div_mod::lemma_div_by_multiple(bound, SCALE as int);
}

/// A nonzero vector has positive squared length, and conversely.
pub proof fn lemma_norm2_zero(v: V3)
    ensures
        (s_norm2(v) == 0) == (v == (V3 { x: 0, y: 0, z: 0 })),
        s_norm2(v) >= 0,
{
    assert(v.x * v.x >= 0 && (v.x * v.x == 0) == (v.x == 0)) by (nonlinear_arith);
    assert(v.y * v.y >= 0 && (v.y * v.y == 0) == (v.y == 0)) by (nonlinear_arith);
    assert(v.z * v.z >= 0 && (v.z * v.z == 0) == (v.z == 0)) by (nonlinear_arith);
}

} // verus!

verus! {

/// A unit-normalized nonzero vector has components within one
/// fixed-point unit.
pub proof fn lemma_unitv_fits(v: V3)
    requires
        s_norm2(v) > 0,
    ensures
        fits(s_unitv(v), SCALE as int),
{
    let n = s_norm2(v);
    let l = s_len(v);
    lemma_sqrt_floor_props(n);
    lemma_len_pos(n, l);
    assert(v.x * v.x <= n && v.y * v.y <= n && v.z * v.z <= n) by (nonlinear_arith)
        requires
            n == s_norm2(v),
    ;
    assert(n <= l * l + 2 * l) by (nonlinear_arith)
        requires
            n < (l + 1) * (l + 1),
    ;
    lemma_unit_fits(v.x, l);
    lemma_unit_fits(v.y, l);
    lemma_unit_fits(v.z, l);
}

} // verus!

verus! {

/// The truncation error of one normalized component: the scaled
/// component differs from the result times the length by less than
/// the length.
proof fn lemma_unit_component_error(x: int, l: int)
    requires
        l >= 1,
    ensures
        ({
            let u = s_div(x, l);
            let d = x * SCALE - u * l;
            -l < d < l && u * l == x * SCALE - d
        }),
{
    lemma_tdiv(x * SCALE, l);
}

/// One component of the squared expansion of a normalized vector.
proof fn lemma_unit_comp_sq(x: int, l: int, u: int, d: int)
    requires
        u * l == x * SCALE - d,
    ensures
        u * u * (l * l) == (SCALE as int) * SCALE * (x * x) - 2 * SCALE * (x * d) + d * d,
{
    assert(u * u * (l * l) == (x * SCALE - d) * (x * SCALE - d)) by (nonlinear_arith)
        requires
            u * l == x * SCALE - d,
    ;
    assert((x * SCALE - d) * (x * SCALE - d) == (SCALE as int) * SCALE * (x * x) - 2 * SCALE
        * (x * d) + d * d) by (nonlinear_arith);
}

/// Normalizing a vector of length at least a hundredth of a unit
/// lands inside the unit-length tolerance window.
pub proof fn lemma_unit_tolerance(v: V3)
    requires
        s_norm2(v) >= 10_000_000_000,
    ensures
        approx_unit(s_unitv(v)),
{
    let n = s_norm2(v);
    let l = s_len(v);
    lemma_sqrt_floor_props(n);
    assert(l >= 100_000) by (nonlinear_arith)
        requires
            n < (l + 1) * (l + 1),
            n >= 10_000_000_000,
            l >= 0,
    ;
    assert(n <= l * l + 2 * l) by (nonlinear_arith)
        requires
            n < (l + 1) * (l + 1),
    ;
    assert(v.x * v.x <= n && v.y * v.y <= n && v.z * v.z <= n) by (nonlinear_arith)
        requires
            n == s_norm2(v),
    ;
    assert(abs_i(v.x) <= l && abs_i(v.y) <= l && abs_i(v.z) <= l) by (nonlinear_arith)
        requires
            v.x * v.x <= l * l + 2 * l,
            v.y * v.y <= l * l + 2 * l,
            v.z * v.z <= l * l + 2 * l,
            l >= 1,
    ;
    lemma_unit_component_error(v.x, l);
    lemma_unit_component_error(v.y, l);
    lemma_unit_component_error(v.z, l);
    let ux = s_div(v.x, l);
    let uy = s_div(v.y, l);
    let uz = s_div(v.z, l);
    let dx = v.x * SCALE - ux * l;
    let dy = v.y * SCALE - uy * l;
    let dz = v.z * SCALE - uz * l;
    let su = ux * ux + uy * uy + uz * uz;
    lemma_unit_comp_sq(v.x, l, ux, dx);
    lemma_unit_comp_sq(v.y, l, uy, dy);
    lemma_unit_comp_sq(v.z, l, uz, dz);
    assert(su * (l * l) == ux * ux * (l * l) + uy * uy * (l * l) + uz * uz * (l * l))
        by (nonlinear_arith)
        requires
            su == ux * ux + uy * uy + uz * uz,
    ;
    assert((SCALE as int) * SCALE * (v.x * v.x) + (SCALE as int) * SCALE * (v.y * v.y) + (
    SCALE as int) * SCALE * (v.z * v.z) == (SCALE as int) * SCALE * n) by (nonlinear_arith)
        requires
            n == v.x * v.x + v.y * v.y + v.z * v.z,
    ;
    assert(su * (l * l) == (SCALE as int) * SCALE * n - 2 * SCALE * (v.x * dx + v.y * dy
        + v.z * dz) + (dx * dx + dy * dy + dz * dz));
    assert(-(l * l) <= v.x * dx <= l * l && -(l * l) <= v.y * dy <= l * l && -(l * l) <= v.z
        * dz <= l * l) by (nonlinear_arith)
        requires
            abs_i(v.x) <= l,
            abs_i(v.y) <= l,
            abs_i(v.z) <= l,
            -l < dx < l,
            -l < dy < l,
            -l < dz < l,
    ;
    assert(0 <= dx * dx <= l * l && 0 <= dy * dy <= l * l && 0 <= dz * dz <= l * l)
        by (nonlinear_arith)
        requires
            -l < dx < l,
            -l < dy < l,
            -l < dz < l,
    ;
    let lsq = l * l;
    let t = v.x * dx + v.y * dy + v.z * dz;
    let dsq = dx * dx + dy * dy + dz * dz;
    assert(-3 * lsq <= t <= 3 * lsq && 0 <= dsq <= 3 * lsq);
    assert(-6 * SCALE * lsq <= 2 * SCALE * t <= 6 * SCALE * lsq) by (nonlinear_arith)
        requires
            -3 * lsq <= t <= 3 * lsq,
            SCALE == 1_000_000,
    ;
    assert(su * lsq == (SCALE as int) * SCALE * n - 2 * SCALE * t + dsq);
    assert(su * lsq >= (SCALE as int) * SCALE * n - 6 * SCALE * lsq);
    assert(su * lsq <= (SCALE as int) * SCALE * n + 6 * SCALE * lsq + 3 * lsq)
        by (nonlinear_arith)
        requires
            su * lsq == (SCALE as int) * SCALE * n - 2 * SCALE * t + dsq,
            -6 * SCALE * lsq <= 2 * SCALE * t,
            dsq <= 3 * lsq,
            SCALE == 1_000_000,
    ;
    assert((SCALE as int) * SCALE * n >= (SCALE as int) * SCALE * lsq) by (nonlinear_arith)
        requires
            n >= l * l,
            lsq == l * l,
    ;
    assert((SCALE as int) * SCALE * n <= (SCALE as int) * SCALE * lsq + 2 * (SCALE as int)
        * SCALE * l) by (nonlinear_arith)
        requires
            n <= l * l + 2 * l,
            lsq == l * l,
    ;
    assert(su * lsq >= 999_800_010_000 * lsq) by (nonlinear_arith)
        requires
            su * lsq >= (SCALE as int) * SCALE * lsq - 6 * SCALE * lsq,
            SCALE == 1_000_000,
            lsq >= 0,
    ;
    assert(su * lsq <= 1_000_200_010_000 * lsq) by (nonlinear_arith)
        requires
            su * lsq <= (SCALE as int) * SCALE * lsq + 2 * (SCALE as int) * SCALE * l + 6
                * SCALE * lsq + 3 * lsq,
            SCALE == 1_000_000,
            lsq == l * l,
            l >= 100_000,
    ;
    assert(999_800_010_000 <= su <= 1_000_200_010_000) by (nonlinear_arith)
        requires
            su * lsq >= 999_800_010_000 * lsq,
            su * lsq <= 1_000_200_010_000 * lsq,
            lsq >= 1,
    ;
}

} // verus!
