//! Explicit random source.
//!
//! Every sampling operation takes the random source as an argument
//! rather than reaching for ambient global state: the `Entropy` policy
//! draws from the process random number generator, while the `Fixed`
//! policy returns the midpoint of the requested range on every draw,
//! which makes a whole render a deterministic function of its inputs.

use vstd::prelude::*;

use crate::fixed::SCALE;

verus! {

/// A source of fixed-point random draws.
#[derive(Clone, Copy, PartialEq, Eq, Structural, Debug)]
pub enum Rng {
    /// Draws come from the process random number generator.
    Entropy,
    /// Every draw is the midpoint of its range: deterministic.
    Fixed,
}

/// Relies on rand::random::<u64>: a machine word drawn from the
/// thread-local generator; nothing is assumed of its value.
#[verifier::external_body]
fn entropy_u64() -> u64 {
    rand::random::<u64>()
}

impl Rng {
    /// A draw in `[0, SCALE)`: a fixed-point value in `[0, 1)`.
    pub fn next_fp(&self) -> (r: i64)
        ensures
            0 <= r < SCALE,
            *self == Rng::Fixed ==> r == SCALE / 2,
    {
        match *self {
            Rng::Fixed => SCALE / 2,
            Rng::Entropy => {
                let w: u64 = entropy_u64();
                (w % (SCALE as u64)) as i64
            },
        }
    }

    /// A draw in the closed range `[min, max]`.
    pub fn next_range(&self, min: i64, max: i64) -> (r: i64)
        requires
            min <= max,
            max - min < i64::MAX,
        ensures
            min <= r <= max,
            *self == Rng::Fixed ==> r == min + (max - min) / 2,
    {
        let span: u64 = ((max - min) as u64) + 1;
        match *self {
            Rng::Fixed => {
                let h: u64 = (span - 1) / 2;
                proof {
                    assert(span - 1 == max - min);
                    assert((span - 1) as int / 2 == (max - min) as int / 2);
                }
                min + (h as i64)
            },
            Rng::Entropy => {
                let w: u64 = entropy_u64();
                min + ((w % span) as i64)
            },
        }
    }
}

} // verus!
