//! Core simulation of a timed arithmetic-combat game: descending enemy ships
//! carry an equation, the player types an integer answer, a correct answer
//! ignites a ping-pong explosion animation and a countdown targeting beam,
//! while two star layers scroll behind everything with seamless wraparound
//! tiling.
//!
//! All quantities are modelled as integers: screen-relative positions are
//! fixed-point fractions of the screen (units of `1/COORD_SCALE`), and time
//! is counted in milliseconds.  Rendering, audio and the window loop are the
//! host program's business; this crate computes every state transition and
//! every draw decision.

use vstd::prelude::*;

pub mod alien;
pub mod background;
pub mod explosion;
pub mod game;
pub mod level;
pub mod message;
pub mod rng;

verus! {

/// Positions and lengths are fractions of the screen held in units of
/// `1/COORD_SCALE`, so `COORD_SCALE` stands for the full screen extent.
pub const COORD_SCALE: i64 = 1_000_000;

/// Largest per-tick elapsed time the simulation accepts (one hour); a frame
/// delta beyond this is not a meaningful wall-clock tick.
pub const MAX_TICK_MS: u32 = 3_600_000;

/// Largest screen dimension, in pixels, that the fixed-point pixel
/// conversions accept.
pub const MAX_SCREEN_PX: u32 = 100_000;

/// Largest magnitude of a fixed-point coordinate the pixel conversion
/// accepts (a million screens, far beyond what the simulation produces).
pub const MAX_COORD: i64 = 1_000_000_000_000;

/// A screen-relative fixed-point coordinate scaled to pixels: the fraction
/// `c / COORD_SCALE` of `extent` pixels, rounded towards zero.
pub open spec fn spec_scaled(c: int, extent: int) -> int {
    if c >= 0 {
        c * extent / (COORD_SCALE as int)
    } else {
        -((-c) * extent / (COORD_SCALE as int))
    }
}

/// Convert a fixed-point screen fraction to a pixel position on a screen of
/// `extent` pixels.
pub fn scale_to_pixels(c: i64, extent: u32) -> (r: i64)
    requires
        -MAX_COORD <= c <= MAX_COORD,
        extent <= MAX_SCREEN_PX,
    ensures
        r == spec_scaled(c as int, extent as int),
{
    if c >= 0 {
        proof {
            vstd::arithmetic::mul::lemma_mul_upper_bound(
                c as int,
                MAX_COORD as int,
                extent as int,
                MAX_SCREEN_PX as int,
            );
        }
        let product: u64 = (c as u64) * (extent as u64);
        (product / (COORD_SCALE as u64)) as i64
    } else {
        proof {
            vstd::arithmetic::mul::lemma_mul_upper_bound(
                -c as int,
                MAX_COORD as int,
                extent as int,
                MAX_SCREEN_PX as int,
            );
        }
        let product: u64 = ((-c) as u64) * (extent as u64);
        -((product / (COORD_SCALE as u64)) as i64)
    }
}

} // verus!
