//! Frame-indexed explosion animation: elapsed wall time is mapped onto a
//! palindromic (ping-pong) sequence of sprite-sheet frames.

use vstd::arithmetic::div_mod::lemma_div_is_ordered;
use vstd::arithmetic::div_mod::lemma_div_multiples_vanish;
use vstd::arithmetic::div_mod::lemma_div_of0;
use vstd::arithmetic::div_mod::lemma_div_pos_is_pos;
use vstd::arithmetic::div_mod::lemma_fundamental_div_mod;
use vstd::arithmetic::div_mod::lemma_fundamental_div_mod_converse;
use vstd::arithmetic::div_mod::lemma_mod_division_less_than_divisor;
use vstd::prelude::*;

use crate::MAX_TICK_MS;

verus! {

/// Canonical explosion lifetime in milliseconds.
pub const EXPLOSION_DURATION_MS: u32 = 500;

/// Upper bound on a configurable explosion lifetime.
pub const MAX_EXPLOSION_DURATION_MS: u32 = 1_000_000;

/// Edge of one 4x4-grid tile, in 1/255ths of the sprite sheet's extent
/// (the sheet carries a slight padding, so a tile is 64/255 of it).
pub const SHEET_TILE_UNITS: u32 = 64;

/// Explosion animation state: `elapsed` advances while the owning enemy is
/// exploding, `index` is the derived ping-pong frame in `0..=15`.
pub struct Explosion {
    /// Total lifetime of the animation in milliseconds.
    pub duration: u32,
    /// Milliseconds spent exploding so far; advances until it first passes
    /// `duration`, then freezes.
    pub elapsed: u32,
    /// Current ping-pong frame index, always `ping_pong_frame(elapsed, duration)`.
    pub index: u32,
}

/// Raw frame number: the half-open lifetime `[0, duration]` mapped onto
/// `0..=30` by `floor(elapsed / duration * 30)`.
pub open spec fn raw_frame(elapsed: int, duration: int) -> int
    recommends
        1 <= duration,
{
    30 * elapsed / duration
}

/// Ping-pong frame index in `0..=15`: the raw frame rises `0..=15` over the
/// first half of the lifetime and mirrors back down over the second half
/// (values past the lifetime are capped at the mirrored start).
pub open spec fn ping_pong_frame(elapsed: int, duration: int) -> int
    recommends
        1 <= duration,
{
    let raw = raw_frame(elapsed, duration);
    let capped = if raw > 30 {
        30
    } else {
        raw
    };
    if capped > 15 {
        30 - capped
    } else {
        capped
    }
}

/// Sprite-sheet lookup index for a ping-pong frame: the sheet stores the
/// frames in reverse order.
pub open spec fn sheet_frame(elapsed: int, duration: int) -> int
    recommends
        1 <= duration,
{
    15 - ping_pong_frame(elapsed, duration)
}

/// The ping-pong frame of any point in time lies in `0..=15`.
pub proof fn lemma_frame_bounds(elapsed: int, duration: int)
    requires
        1 <= duration,
        0 <= elapsed,
    ensures
        0 <= ping_pong_frame(elapsed, duration) <= 15,
{
    lemma_div_pos_is_pos(30 * elapsed, duration);
}

/// The explosion state one tick later: while `elapsed` has not yet passed
/// `duration`, time advances and the frame is recomputed; afterwards the
/// state is frozen.
pub open spec fn spec_explosion_updated(e: Explosion, dt_ms: u32) -> Explosion
    recommends
        e.elapsed + dt_ms <= u32::MAX,
{
    if e.elapsed <= e.duration {
        Explosion {
            duration: e.duration,
            elapsed: (e.elapsed + dt_ms) as u32,
            index: ping_pong_frame(e.elapsed + dt_ms, e.duration as int) as u32,
        }
    } else {
        e
    }
}

impl Explosion {
    /// Well-formed animation state: a positive, bounded lifetime and a frame
    /// index that is the ping-pong mapping of the elapsed time.
    pub open spec fn wf(self) -> bool {
        &&& 1 <= self.duration <= MAX_EXPLOSION_DURATION_MS
        &&& self.index == ping_pong_frame(self.elapsed as int, self.duration as int)
    }

    /// The freshly created state: nothing elapsed, first frame.
    pub open spec fn initial() -> Explosion {
        Explosion { duration: EXPLOSION_DURATION_MS, elapsed: 0, index: 0 }
    }

    /// The animation still runs: elapsed time has not passed the lifetime.
    /// While this holds the frame is live; afterwards it is frozen and the
    /// owning enemy is about to be marked dead.
    pub open spec fn active(self) -> bool {
        self.elapsed <= self.duration
    }

    pub fn new() -> (e: Explosion)
        ensures
            e == Explosion::initial(),
            e.wf(),
    {
        proof {
            lemma_div_of0(EXPLOSION_DURATION_MS as int);
        }
        Explosion { duration: EXPLOSION_DURATION_MS, elapsed: 0, index: 0 }
    }

    /// Advance the animation by one tick of `dt_ms` milliseconds.
    pub fn update(&mut self, dt_ms: u32)
        requires
            old(self).wf(),
            dt_ms <= MAX_TICK_MS,
        ensures
            final(self).wf(),
            *final(self) == spec_explosion_updated(*old(self), dt_ms),
    {
        if self.elapsed <= self.duration {
            self.elapsed = self.elapsed + dt_ms;
            let raw64: u64 = (self.elapsed as u64) * 30 / (self.duration as u64);
            let raw: u32 = if raw64 > 30 {
                30
            } else {
                raw64 as u32
            };
            self.index = if raw > 15 {
                30 - raw
            } else {
                raw
            };
            proof {
                lemma_frame_bounds(self.elapsed as int, self.duration as int);
            }
        }
    }

    /// The current frame still advances (or would, on the next tick).
    pub fn is_active(&self) -> (r: bool)
        ensures
            r == self.active(),
    {
        self.elapsed <= self.duration
    }

    /// UV rectangle of the current frame on the 4x4 sprite sheet, as
    /// `(x, y, w, h)` in 1/255ths of the sheet: the sheet index is
    /// `15 - index` (reverse storage order), laid out row-major.
    pub fn get_rect(&self) -> (r: (u32, u32, u32, u32))
        requires
            self.wf(),
        ensures
            ({
                let sheet = sheet_frame(self.elapsed as int, self.duration as int);
                &&& r.0 == (sheet % 4) * SHEET_TILE_UNITS
                &&& r.1 == (sheet / 4) * SHEET_TILE_UNITS
                &&& r.2 == SHEET_TILE_UNITS
                &&& r.3 == SHEET_TILE_UNITS
            }),
    {
        proof {
            lemma_frame_bounds(self.elapsed as int, self.duration as int);
        }
        let sheet: u32 = 15 - self.index;
        let col: u32 = sheet % 4;
        let row: u32 = sheet / 4;
        (col * SHEET_TILE_UNITS, row * SHEET_TILE_UNITS, SHEET_TILE_UNITS, SHEET_TILE_UNITS)
    }
}

/// The animation is palindromic: the first and last instants both show sheet
/// index 15, and for every `t` in the lifetime the frame at `t` and the frame
/// at `duration - t` agree within one step of integer rounding — exactly,
/// whenever `30 * t` falls on a multiple of `duration`.
pub proof fn lemma_palindromic_animation(t: int, duration: int)
    requires
        1 <= duration,
        0 <= t <= duration,
    ensures
        sheet_frame(0, duration) == 15,
        sheet_frame(duration, duration) == 15,
        ping_pong_frame(t, duration) - ping_pong_frame(duration - t, duration) <= 1,
        ping_pong_frame(duration - t, duration) - ping_pong_frame(t, duration) <= 1,
        (30 * t) % duration == 0 ==> ping_pong_frame(t, duration) == ping_pong_frame(
            duration - t,
            duration,
        ),
{
    let d = duration;
    lemma_div_of0(d);
    lemma_div_multiples_vanish(30, d);
    assert(raw_frame(0, d) == 0);
    assert(raw_frame(d, d) == 30);
    let q = raw_frame(t, d);
    lemma_fundamental_div_mod(30 * t, d);
    lemma_mod_division_less_than_divisor(30 * t, d);
    let r = (30 * t) % d;
    lemma_div_pos_is_pos(30 * t, d);
    assert(30 * t <= 30 * d);
    lemma_div_is_ordered(30 * t, 30 * d, d);
    assert(q <= 30);
    assert(30 * (d - t) == 30 * d - 30 * t);
    if r == 0 {
        assert(30 * (d - t) == (30 - q) * d + 0) by (nonlinear_arith)
            requires
                30 * t == q * d + r,
                r == 0,
                30 * (d - t) == 30 * d - 30 * t,
        ;
        lemma_fundamental_div_mod_converse(30 * (d - t), d, 30 - q, 0);
        assert(raw_frame(d - t, d) == 30 - q);
    } else {
        assert(30 * (d - t) == (29 - q) * d + (d - r)) by (nonlinear_arith)
            requires
                30 * t == q * d + r,
                30 * (d - t) == 30 * d - 30 * t,
        ;
        lemma_fundamental_div_mod_converse(30 * (d - t), d, 29 - q, d - r);
        assert(raw_frame(d - t, d) == 29 - q);
    }
}

} // verus!
