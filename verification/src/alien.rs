//! Enemy lifecycle: an alien descends, may be ignited into a ping-pong
//! explosion by a correct answer, and is marked dead once the explosion has
//! run its course.  Dead aliens are never moved or drawn again.

use vstd::prelude::*;

use crate::explosion::spec_explosion_updated;
use crate::explosion::Explosion;
use crate::level::Operation;
use crate::spec_scaled;
use crate::COORD_SCALE;
use crate::MAX_SCREEN_PX;
use crate::MAX_TICK_MS;

verus! {

/// Lifecycle of an alien: `Alive` initially, `Exploding` after a correct
/// answer, `Dead` once the explosion has finished; `Dead` is terminal.
#[derive(Clone, Copy, Debug, PartialEq, Eq, Structural)]
pub enum AlienState {
    Alive,
    Exploding,
    Dead,
}

/// Top of the entry-acceleration zone: while an alien's `pos_y` is above
/// this fraction of the screen (0.07), it descends at three times its speed
/// so it snaps quickly past its spawn point.
pub const ENTRY_ZONE_LIMIT: i64 = 70_000;

/// Descent multiplier inside the entry-acceleration zone.
pub const ENTRY_ZONE_GAIN: u64 = 3;

/// A speed of `1000` here is one screen height per 100 seconds: an alien
/// advances by `speed * gain * dt_ms / 100` fixed-point units per tick.
pub const MAX_SPEED: u32 = 1_000_000;

/// Aliens are clamped this far below the screen (ten screen heights): far
/// off-screen descent is immaterial and the clamp keeps the fixed-point
/// position bounded.
pub const POS_Y_LIMIT: i64 = 10_000_000;

/// Lowest spawn position the generator produces (one thousand screen
/// heights above the screen top).
pub const MIN_POS_Y: i64 = -1_000_000_000;

/// A descending enemy ship: an equation and its answer, a screen-relative
/// fixed-point position, an owned explosion animation and a lifecycle state.
pub struct Alien {
    pub operation: Operation,
    /// Descent speed in units of `1/1000` screen height per 100 seconds.
    pub speed: u32,
    /// Horizontal position, a fixed-point fraction of the screen width.
    pub pos_x: i64,
    /// Vertical position, a fixed-point fraction of the screen height;
    /// negative above the screen top.
    pub pos_y: i64,
    /// The rendered equation, e.g. `3+4`.
    pub text: Vec<char>,
    /// The integer that answers the equation.
    pub answer: i32,
    pub explosion: Explosion,
    pub state: AlienState,
}

/// Descent multiplier at a given vertical position: three inside the
/// entry-acceleration zone near the screen top, one below it.
pub open spec fn spec_speed_gain(y: int) -> int {
    if y < ENTRY_ZONE_LIMIT as int {
        ENTRY_ZONE_GAIN as int
    } else {
        1
    }
}

/// The vertical position one tick later: advance by
/// `speed * gain * dt / 100` fixed-point units, clamped far off-screen.
pub open spec fn spec_moved_y(y: int, speed: int, dt_ms: int) -> int {
    let advanced = y + speed * spec_speed_gain(y) * dt_ms / 100;
    if advanced > POS_Y_LIMIT as int {
        POS_Y_LIMIT as int
    } else {
        advanced
    }
}

/// The alien one tick later.  A dead alien is untouched.  A live one
/// descends; an exploding one also advances its explosion, and once the
/// explosion's elapsed time has passed its duration the alien is dead.
pub open spec fn spec_alien_updated(a: Alien, dt_ms: u32) -> Alien {
    if a.state == AlienState::Dead {
        a
    } else {
        let explosion = if a.state == AlienState::Exploding {
            spec_explosion_updated(a.explosion, dt_ms)
        } else {
            a.explosion
        };
        let state = if explosion.elapsed > explosion.duration {
            AlienState::Dead
        } else {
            a.state
        };
        Alien {
            pos_y: spec_moved_y(a.pos_y as int, a.speed as int, dt_ms as int) as i64,
            explosion,
            state,
            ..a
        }
    }
}

/// An alien ignited by a correct answer: same ship, now exploding.
pub open spec fn spec_ignited(a: Alien) -> Alien {
    Alien { state: AlienState::Exploding, ..a }
}

impl Alien {
    /// Well-formed alien: position and speed within the fixed-point bounds,
    /// a well-formed explosion that has not advanced while the alien is
    /// still alive.
    pub open spec fn wf(self) -> bool {
        &&& 0 <= self.pos_x < COORD_SCALE as int
        &&& MIN_POS_Y as int <= self.pos_y <= POS_Y_LIMIT as int
        &&& self.speed <= MAX_SPEED
        &&& self.explosion.wf()
        &&& self.state == AlienState::Alive ==> self.explosion.elapsed == 0
    }

    /// Advance this alien by one tick of `dt_ms` milliseconds.
    pub fn update(&mut self, dt_ms: u32)
        requires
            old(self).wf(),
            dt_ms <= MAX_TICK_MS,
        ensures
            final(self).wf(),
            *final(self) == spec_alien_updated(*old(self), dt_ms),
    {
        if self.state == AlienState::Dead {
            return ;
        }
        let gain: u64 = if self.pos_y < ENTRY_ZONE_LIMIT {
            ENTRY_ZONE_GAIN
        } else {
            1
        };
        proof {
            vstd::arithmetic::mul::lemma_mul_upper_bound(
                self.speed as int,
                MAX_SPEED as int,
                gain as int,
                ENTRY_ZONE_GAIN as int,
            );
            vstd::arithmetic::mul::lemma_mul_upper_bound(
                self.speed as int * gain as int,
                MAX_SPEED as int * ENTRY_ZONE_GAIN as int,
                dt_ms as int,
                MAX_TICK_MS as int,
            );
            vstd::arithmetic::mul::lemma_mul_nonnegative(self.speed as int, gain as int);
            vstd::arithmetic::mul::lemma_mul_nonnegative(
                self.speed as int * gain as int,
                dt_ms as int,
            );
        }
        let step: u64 = (self.speed as u64) * gain * (dt_ms as u64) / 100;
        let advanced: i64 = self.pos_y + (step as i64);
        self.pos_y = if advanced > POS_Y_LIMIT {
            POS_Y_LIMIT
        } else {
            advanced
        };
        if self.state == AlienState::Exploding {
            self.explosion.update(dt_ms);
        }
        if self.explosion.elapsed > self.explosion.duration {
            self.state = AlienState::Dead;
        }
    }

    /// The ship sprite and its equation text are drawn while the alien is
    /// not dead and the explosion is still in its first half — the alien's
    /// visual identity is hidden during the second half of the explosion.
    pub open spec fn ship_visible(self) -> bool {
        &&& self.state != AlienState::Dead
        &&& 2 * self.explosion.elapsed < self.explosion.duration
    }

    pub fn is_ship_visible(&self) -> (r: bool)
        ensures
            r == self.ship_visible(),
    {
        self.state != AlienState::Dead && 2 * (self.explosion.elapsed as u64) < (
        self.explosion.duration as u64)
    }

    /// The explosion sprite is drawn while the alien is exploding and the
    /// animation is still within its lifetime.
    pub open spec fn explosion_visible(self) -> bool {
        self.state == AlienState::Exploding && self.explosion.active()
    }

    pub fn is_explosion_visible(&self) -> (r: bool)
        ensures
            r == self.explosion_visible(),
    {
        self.state == AlienState::Exploding && self.explosion.elapsed <= self.explosion.duration
    }

    /// The alien's position in pixels on a screen of the given dimensions.
    pub fn screen_pos(&self, screen_w: u32, screen_h: u32) -> (p: (i64, i64))
        requires
            self.wf(),
            screen_w <= MAX_SCREEN_PX,
            screen_h <= MAX_SCREEN_PX,
        ensures
            p.0 == spec_scaled(self.pos_x as int, screen_w as int),
            p.1 == spec_scaled(self.pos_y as int, screen_h as int),
    {
        (crate::scale_to_pixels(self.pos_x, screen_w), crate::scale_to_pixels(
            self.pos_y,
            screen_h,
        ))
    }
}

/// Entry-zone acceleration: over one tick whose displacement divides evenly
/// into the fixed-point grid, an alien inside the entry zone moves exactly
/// three times as far as an otherwise identical alien below it, as long as
/// neither hits the off-screen clamp.
pub proof fn lemma_entry_zone_acceleration(y_in: int, y_out: int, speed: int, dt_ms: int)
    requires
        0 <= speed,
        0 <= dt_ms,
        y_in < ENTRY_ZONE_LIMIT as int,
        ENTRY_ZONE_LIMIT as int <= y_out,
        (speed * dt_ms) % 100 == 0,
        y_in + speed * 3 * dt_ms / 100 <= POS_Y_LIMIT as int,
        y_out + speed * dt_ms / 100 <= POS_Y_LIMIT as int,
    ensures
        spec_moved_y(y_in, speed, dt_ms) - y_in == 3 * (spec_moved_y(y_out, speed, dt_ms) - y_out),
{
    vstd::arithmetic::div_mod::lemma_fundamental_div_mod(speed * dt_ms, 100);
    let q = speed * dt_ms / 100;
    assert(speed * 1 * dt_ms == 100 * q) by (nonlinear_arith)
        requires
            speed * dt_ms == 100 * q + (speed * dt_ms) % 100,
            (speed * dt_ms) % 100 == 0,
    ;
    assert(speed * 3 * dt_ms == (3 * q) * 100) by (nonlinear_arith)
        requires
            speed * dt_ms == 100 * q,
    ;
    vstd::arithmetic::div_mod::lemma_div_multiples_vanish(3 * q, 100);
    vstd::arithmetic::div_mod::lemma_div_multiples_vanish(q, 100);
    assert(speed * 1 * dt_ms == q * 100) by (nonlinear_arith)
        requires
            speed * dt_ms == 100 * q,
    ;
}

/// Dead suppression: a dead alien is never moved, never advanced and never
/// drawn again, whatever further ticks arrive.
pub proof fn lemma_dead_suppression(a: Alien, dt_ms: u32)
    requires
        a.state == AlienState::Dead,
    ensures
        spec_alien_updated(a, dt_ms) == a,
        !a.ship_visible(),
        !a.explosion_visible(),
{
}

} // verus!
