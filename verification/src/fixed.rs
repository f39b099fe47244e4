//! Fixed-point scalar arithmetic.
//!
//! Every quantity of the library is a fixed-point number: a raw `i64`
//! value `x` stands for the real number `x / SCALE`. All operations
//! are exact integer computations whose results are pinned down by the
//! spec functions below; the only rounding is the truncating division
//! `tdiv`, which rounds toward zero exactly as hardware division does.

use vstd::prelude::*;

verus! {

/// Scale factor of the fixed-point representation: raw value `x`
/// stands for the real number `x / SCALE`.
pub const SCALE: i64 = 1_000_000;

/// Largest raw component magnitude the geometric operations accept;
/// keeps every intermediate product inside `i128`.
pub const VMAX: i64 = 64_000_000_000;

/// Largest raw coordinate magnitude of scene contents: sphere centers
/// and radii, and camera placement.
pub const CMAX: i64 = 4_000_000_000;

/// Largest raw coordinate magnitude of a ray origin: a point on a
/// scene surface stays within twice the scene bound.
pub const OMAX: i64 = 8_000_000_000;

/// Largest raw component magnitude of a ray direction.
pub const DMAX: i64 = 64_000_000_000;

/// Largest intersection parameter magnitude the geometry reports.
pub const TMAX: i64 = 100_000_000_000_000;

pub open spec fn abs_i(a: int) -> int {
    if a >= 0 {
        a
    } else {
        -a
    }
}

/// Truncating (round-toward-zero) integer division: the rounding that
/// hardware division on signed integers performs.
pub open spec fn tdiv(a: int, b: int) -> int {
    if (a >= 0) == (b >= 0) {
        abs_i(a) / abs_i(b)
    } else {
        -(abs_i(a) / abs_i(b))
    }
}

/// Floor of the square root of a nonnegative integer.
pub open spec fn sqrt_floor(n: int) -> int {
    choose|r: int| 0 <= r && #[trigger] (r * r) <= n < (r + 1) * (r + 1)
}

/// Fixed-point product: `(a * b) / SCALE`, truncated toward zero.
pub open spec fn s_mul(a: int, b: int) -> int {
    tdiv(a * b, SCALE as int)
}

/// Fixed-point quotient: `(a * SCALE) / b`, truncated toward zero.
pub open spec fn s_div(a: int, b: int) -> int {
    tdiv(a * SCALE, b)
}

/// Fixed-point square root of a nonnegative value: since raw `x`
/// stands for `x / SCALE`, the root's raw value is `sqrt(x * SCALE)`.
pub open spec fn s_sqrt(a: int) -> int {
    sqrt_floor(a * SCALE)
}

/// The truncated quotient differs from the exact one by less than one:
/// `tdiv(a, b) * b` lands within `b - 1` of `a`, on the zero side.
pub proof fn lemma_tdiv(a: int, b: int)
    requires
        b > 0,
    ensures
        a >= 0 ==> 0 <= a - tdiv(a, b) * b < b,
        a <= 0 ==> -b < a - tdiv(a, b) * b <= 0,
        a >= 0 ==> tdiv(a, b) >= 0,
        a <= 0 ==> tdiv(a, b) <= 0,
        abs_i(tdiv(a, b)) <= abs_i(a) / b,
        abs_i(tdiv(a, b)) * b <= abs_i(a),
{
    let m = abs_i(a);
    let q = m / b;
    vstd::arithmetic::div_mod::lemma_fundamental_div_mod(m, b);
    vstd::arithmetic::div_mod::lemma_mod_bound(m, b);
    vstd::arithmetic::div_mod::lemma_div_pos_is_pos(m, b);
    assert(m == b * q + m % b);
    assert(b * q == q * b) by (nonlinear_arith);
    if a >= 0 {
        assert(tdiv(a, b) == q);
        assert(a - q * b == m % b);
    } else {
        assert(tdiv(a, b) == -q);
        assert((-q) * b == -(q * b)) by (nonlinear_arith);
        assert(a - (-q) * b == -(m % b));
    }
    assert(abs_i(tdiv(a, b)) == q);
    assert(q * b <= m);
}

/// Magnitude bound for a fixed-point product: if the raw product is
/// bounded by `bound` times the scale, the result is bounded by
/// `bound`.
pub proof fn lemma_smul_le(a: int, b: int, ma: int, mb: int, bound: int)
    requires
        abs_i(a) <= ma,
        abs_i(b) <= mb,
        0 <= bound,
        ma * mb <= bound * SCALE,
    ensures
        abs_i(s_mul(a, b)) <= bound,
{
    lemma_tdiv(a * b, SCALE as int);
    assert(abs_i(a * b) <= ma * mb) by (nonlinear_arith)
        requires
            abs_i(a) <= ma,
            abs_i(b) <= mb,
    ;
    vstd::arithmetic::div_mod::lemma_div_is_ordered(abs_i(a * b), bound * SCALE, SCALE as int);
    vstd::arithmetic::div_mod::lemma_div_by_multiple(bound, SCALE as int);
}

/// Magnitude bound for a fixed-point quotient with a denominator of
/// at least one: the result is no larger than the numerator.
pub proof fn lemma_sdiv_le_denom(a: int, b: int, ma: int)
    requires
        abs_i(a) <= ma,
        b >= SCALE,
    ensures
        abs_i(s_div(a, b)) <= ma,
{
    lemma_tdiv(a * SCALE, b);
    assert(abs_i(a * SCALE) <= ma * SCALE) by (nonlinear_arith)
        requires
            abs_i(a) <= ma,
            SCALE == 1_000_000,
    ;
    vstd::arithmetic::div_mod::lemma_div_is_ordered(abs_i(a * SCALE), ma * SCALE, b);
    vstd::arithmetic::div_mod::lemma_div_is_ordered_by_denominator(ma * SCALE, SCALE as int, b);
    vstd::arithmetic::div_mod::lemma_div_by_multiple(ma, SCALE as int);
    assert(ma * SCALE == (SCALE as int) * ma) by (nonlinear_arith);
}

/// A product with the scale divides back out exactly.
pub proof fn lemma_tdiv_mult(x: int)
    ensures
        tdiv(x * SCALE, SCALE as int) == x,
{
    vstd::arithmetic::div_mod::lemma_div_by_multiple(abs_i(x), SCALE as int);
    assert(abs_i(x * SCALE) == abs_i(x) * SCALE) by (nonlinear_arith)
        requires
            SCALE >= 1,
    ;
    assert((abs_i(x) * SCALE) / (SCALE as int) == abs_i(x));
    if x < 0 {
        assert(x * SCALE < 0) by (nonlinear_arith)
            requires
                x < 0,
                SCALE >= 1,
        ;
    }
}

/// Multiplying by zero yields zero.
pub proof fn lemma_smul_zero(x: int)
    ensures
        s_mul(x, 0) == 0,
{
    assert(x * 0 == 0) by (nonlinear_arith);
    vstd::arithmetic::div_mod::lemma_div_of0(SCALE as int);
}

/// Dividing by a count (times the scale) shrinks the magnitude by
/// that count.
pub proof fn lemma_sdiv_count(a: int, w: int)
    requires
        1 <= w,
    ensures
        abs_i(s_div(a, w * SCALE)) * w <= abs_i(a),
{
    let b = w * (SCALE as int);
    assert(b >= SCALE) by (nonlinear_arith)
        requires
            w >= 1,
            SCALE == 1_000_000,
            b == w * SCALE,
    ;
    lemma_tdiv(a * SCALE, b);
    let q = abs_i(tdiv(a * SCALE, b));
    assert(q * b <= abs_i(a * SCALE));
    assert(abs_i(a * SCALE) == abs_i(a) * SCALE) by (nonlinear_arith)
        requires
            SCALE >= 1,
    ;
    assert(q * w <= abs_i(a)) by (nonlinear_arith)
        requires
            q * (w * SCALE) <= abs_i(a) * SCALE,
            b == w * SCALE,
            q >= 0,
            w >= 1,
            SCALE == 1_000_000,
    ;
}

/// Truncating division commutes with negating the dividend.
pub proof fn lemma_tdiv_neg(a: int, b: int)
    requires
        b != 0,
    ensures
        tdiv(-a, b) == -tdiv(a, b),
{
    if a == 0 {
        vstd::arithmetic::div_mod::lemma_div_of0(abs_i(b));
    }
}

/// The floor square root is unique: any witness is the chosen one.
pub proof fn lemma_sqrt_floor_unique(n: int, r: int)
    requires
        0 <= r,
        r * r <= n,
        n < (r + 1) * (r + 1),
    ensures
        sqrt_floor(n) == r,
{
    assert(exists|q: int| 0 <= q && #[trigger] (q * q) <= n < (q + 1) * (q + 1)) by {
        assert(0 <= r && r * r <= n < (r + 1) * (r + 1));
    }
    let c = sqrt_floor(n);
    assert(0 <= c && c * c <= n < (c + 1) * (c + 1));
    assert(c == r) by (nonlinear_arith)
        requires
            0 <= r,
            r * r <= n < (r + 1) * (r + 1),
            0 <= c,
            c * c <= n < (c + 1) * (c + 1),
    ;
}

/// Truncating division on `i128`, computed through unsigned
/// magnitudes so that its result is exactly `tdiv`.
pub fn tdiv_i128(a: i128, b: i128) -> (r: i128)
    requires
        b != 0,
        a != i128::MIN,
        b != i128::MIN,
    ensures
        r == tdiv(a as int, b as int),
{
    let neg: bool = (a < 0) != (b < 0);
    let ua: u128 = if a >= 0 { a as u128 } else { (-a) as u128 };
    let ub: u128 = if b >= 0 { b as u128 } else { (-b) as u128 };
    let q: u128 = ua / ub;
    proof {
        vstd::arithmetic::div_mod::lemma_div_nonincreasing(ua as int, ub as int);
        vstd::arithmetic::div_mod::lemma_div_pos_is_pos(ua as int, ub as int);
    }
    if neg {
        -(q as i128)
    } else {
        q as i128
    }
}

/// Fixed-point product `a * b`, exact up to the final truncation.
pub fn mul_fp(a: i64, b: i64) -> (r: i64)
    requires
        i64::MIN <= s_mul(a as int, b as int) <= i64::MAX,
    ensures
        r == s_mul(a as int, b as int),
{
    proof {
        assert(-0x40000000000000000000000000000000 <= (a as int) * (b as int)
            <= 0x40000000000000000000000000000000) by (nonlinear_arith)
            requires
                i64::MIN <= a <= i64::MAX,
                i64::MIN <= b <= i64::MAX,
        ;
    }
    let p: i128 = (a as i128) * (b as i128);
    let q: i128 = tdiv_i128(p, SCALE as i128);
    q as i64
}

/// Fixed-point quotient `a / b`, exact up to the final truncation.
pub fn div_fp(a: i64, b: i64) -> (r: i64)
    requires
        b != 0,
        i64::MIN <= s_div(a as int, b as int) <= i64::MAX,
    ensures
        r == s_div(a as int, b as int),
{
    let p: i128 = (a as i128) * (SCALE as i128);
    let q: i128 = tdiv_i128(p, b as i128);
    q as i64
}

/// Floor square root by binary search; the contract pins the result
/// exactly.
pub fn isqrt_u128(n: u128) -> (r: u128)
    requires
        n < 0x40000000000000000000000000000000,
    ensures
        r == sqrt_floor(n as int),
        r * r <= n,
        n < (r + 1) * (r + 1),
{
    if n == 0 {
        proof {
            lemma_sqrt_floor_unique(0, 0);
        }
        return 0;
    }
    let mut lo: u128 = 0;
    let mut hi: u128 = 0x8000000000000000;
    proof {
        assert(hi * hi == 0x40000000000000000000000000000000);
    }
    while hi - lo > 1
        invariant
            lo < hi,
            hi <= 0x8000000000000000,
            lo * lo <= n,
            n < hi * hi,
        decreases hi - lo,
    {
        let mid: u128 = lo + (hi - lo) / 2;
        assert(lo < mid < hi);
        assert(mid * mid < 0x40000000000000000000000000000000) by (nonlinear_arith)
            requires
                mid < 0x8000000000000000,
        ;
        if mid * mid <= n {
            lo = mid;
        } else {
            hi = mid;
        }
    }
    proof {
        lemma_sqrt_floor_unique(n as int, lo as int);
    }
    lo
}

/// Fixed-point square root of a nonnegative value.
pub fn sqrt_fp(a: i64) -> (r: i64)
    requires
        a >= 0,
    ensures
        r == s_sqrt(a as int),
        r >= 0,
{
    proof {
        assert((a as int) * (SCALE as int) < 0x40000000000000000000000000000000)
            by (nonlinear_arith)
            requires
                0 <= a <= i64::MAX,
                SCALE == 1_000_000,
        ;
    }
    let n: u128 = (a as u128) * (SCALE as u128);
    let r: u128 = isqrt_u128(n);
    proof {
        assert(r * r <= n);
        assert(r as int <= 4_000_000_000_000) by (nonlinear_arith)
            requires
                r * r <= n,
                n == (a as int) * SCALE,
                0 <= a <= i64::MAX,
                SCALE == 1_000_000,
        ;
    }
    r as i64
}

} // verus!
