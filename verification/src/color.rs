//! Colors, gamma correction and quantization to output channels.

use vstd::prelude::*;

use crate::fixed::{s_sqrt, sqrt_fp, tdiv, tdiv_i128, lemma_tdiv, SCALE};
use crate::vec3::V3;

pub use crate::vec3::Vec3;

pub use Vec3 as Color;

verus! {

/// Each channel lies in `[0, 1]`.
pub open spec fn valid_color(c: V3) -> bool {
    &&& 0 <= c.x <= SCALE
    &&& 0 <= c.y <= SCALE
    &&& 0 <= c.z <= SCALE
}

/// The square-root transfer function taking linear intensity to
/// gamma-corrected intensity.
fn linear_to_gamma(x: i64) -> (r: i64)
    requires
        x >= 0,
    ensures
        r == s_sqrt(x as int),
        r >= 0,
{
    sqrt_fp(x)
}

/// Clamp an intensity to `[0, 0.999]`.
pub open spec fn s_clamp999(x: int) -> int {
    if x < 0 {
        0
    } else if x > 999_000 {
        999_000
    } else {
        x
    }
}

/// One output channel: average the accumulated intensity over the
/// sample count, gamma-correct, clamp to `[0, 0.999]`, scale by 256
/// and truncate.
pub open spec fn s_quantize(x: int, n: int) -> int {
    tdiv(256 * s_clamp999(s_sqrt(tdiv(x, n))), SCALE as int)
}

fn quantize_channel(x: i64, n: i64) -> (r: u8)
    requires
        n >= 1,
        0 <= x <= n * SCALE,
    ensures
        r == s_quantize(x as int, n as int),
{
    let avg128: i128 = tdiv_i128(x as i128, n as i128);
    proof {
        lemma_tdiv(x as int, n as int);
        vstd::arithmetic::div_mod::lemma_div_is_ordered(x as int, n * SCALE, n as int);
        vstd::arithmetic::div_mod::lemma_div_by_multiple(SCALE as int, n as int);
        assert((n * SCALE) as int / (n as int) == SCALE as int) by {
            assert(n * SCALE == (SCALE as int) * (n as int)) by (nonlinear_arith);
        }
    }
    let avg: i64 = avg128 as i64;
    let g: i64 = linear_to_gamma(avg);
    proof {
        crate::vec3::lemma_sqrt_le_scale(avg as int);
    }
    let cl: i64 = if g > 999_000 {
        999_000
    } else {
        g
    };
    let scaled: i128 = tdiv_i128((256 * cl) as i128, SCALE as i128);
    proof {
        lemma_tdiv(256 * cl as int, SCALE as int);
    }
    scaled as u8
}

/// The three quantized output channels of a pixel, from the color sum
/// accumulated over `num_samples` samples. Emitting them is the
/// caller's concern.
pub fn write_color(agg_pixel_color: Color, num_samples: i32) -> (r: (u8, u8, u8))
    requires
        num_samples >= 1,
        0 <= agg_pixel_color@.x <= num_samples * SCALE,
        0 <= agg_pixel_color@.y <= num_samples * SCALE,
        0 <= agg_pixel_color@.z <= num_samples * SCALE,
    ensures
        r.0 == s_quantize(agg_pixel_color@.x, num_samples as int),
        r.1 == s_quantize(agg_pixel_color@.y, num_samples as int),
        r.2 == s_quantize(agg_pixel_color@.z, num_samples as int),
{
    let n: i64 = num_samples as i64;
    (
        quantize_channel(agg_pixel_color.x, n),
        quantize_channel(agg_pixel_color.y, n),
        quantize_channel(agg_pixel_color.z, n),
    )
}

} // verus!
