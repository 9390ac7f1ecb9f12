//! Parallax background: two star layers scroll at independent periods, and
//! each is drawn as a two-pass tile grid whose second pass wraps the rows
//! that scrolled off the bottom back to the top of the screen.

use vstd::arithmetic::div_mod::lemma_div_pos_is_pos;
use vstd::arithmetic::div_mod::lemma_fundamental_div_mod;
use vstd::arithmetic::div_mod::lemma_fundamental_div_mod_converse;
use vstd::arithmetic::div_mod::lemma_mod_add_multiples_vanish;
use vstd::arithmetic::div_mod::lemma_mod_division_less_than_divisor;
use vstd::arithmetic::div_mod::lemma_mod_multiples_basic;
use vstd::arithmetic::div_mod::lemma_small_mod;
use vstd::arithmetic::mul::lemma_mul_inequality;
use vstd::arithmetic::mul::lemma_mul_is_commutative;
use vstd::arithmetic::mul::lemma_mul_nonnegative;
use vstd::prelude::*;

use crate::MAX_SCREEN_PX;

verus! {

/// Scroll period of the near star layer: a full cycle every 8 seconds.
pub const STARS1_PERIOD_MS: u64 = 8_000;

/// Scroll period of the far star layer: a full cycle every 16 seconds.
pub const STARS2_PERIOD_MS: u64 = 16_000;

/// Largest period a layer may be configured with.
pub const MAX_PERIOD_MS: u64 = 1_000_000_000_000;

/// One scrolling background layer.  Its offset in `[0, 1)` of a full cycle
/// is the exact fraction `cycle_ms / period_ms`.
#[derive(Clone, Copy, Debug, PartialEq, Eq, Structural)]
pub struct ParallaxLayer {
    /// Milliseconds for one full scroll cycle.
    pub period_ms: u64,
    /// Elapsed milliseconds within the current cycle, always below the
    /// period.
    pub cycle_ms: u64,
}

impl ParallaxLayer {
    pub open spec fn wf(self) -> bool {
        &&& 1 <= self.period_ms <= MAX_PERIOD_MS
        &&& self.cycle_ms < self.period_ms
    }

    /// The layer after `dt` more milliseconds: the position within the
    /// cycle advances and wraps at the period.
    pub open spec fn spec_advanced(self, dt: int) -> ParallaxLayer
        recommends
            self.wf(),
            0 <= dt,
    {
        ParallaxLayer {
            period_ms: self.period_ms,
            cycle_ms: ((self.cycle_ms + dt) % (self.period_ms as int)) as u64,
        }
    }

    pub fn new(period_ms: u64) -> (l: ParallaxLayer)
        requires
            1 <= period_ms <= MAX_PERIOD_MS,
        ensures
            l == (ParallaxLayer { period_ms, cycle_ms: 0 }),
            l.wf(),
    {
        ParallaxLayer { period_ms, cycle_ms: 0 }
    }

    /// Advance the layer's scroll position by one tick.
    pub fn advance(&mut self, dt_ms: u32)
        requires
            old(self).wf(),
        ensures
            final(self).wf(),
            *final(self) == old(self).spec_advanced(dt_ms as int),
    {
        self.cycle_ms = (self.cycle_ms + dt_ms as u64) % self.period_ms;
        proof {
            lemma_mod_division_less_than_divisor(
                old(self).cycle_ms + dt_ms,
                self.period_ms as int,
            );
        }
    }

    /// The pixel row the tiling starts at on a screen `screen_h` pixels
    /// tall: `floor(offset * screen_h)` for the layer's exact offset
    /// `cycle_ms / period_ms`.
    pub open spec fn spec_start_row(self, screen_h: int) -> int
        recommends
            self.wf(),
    {
        self.cycle_ms * screen_h / (self.period_ms as int)
    }

    pub fn start_row(&self, screen_h: u32) -> (r: u32)
        requires
            self.wf(),
            1 <= screen_h <= MAX_SCREEN_PX,
        ensures
            r == self.spec_start_row(screen_h as int),
            r < screen_h,
    {
        proof {
            vstd::arithmetic::mul::lemma_mul_upper_bound(
                self.cycle_ms as int,
                MAX_PERIOD_MS as int,
                screen_h as int,
                MAX_SCREEN_PX as int,
            );
            lemma_mul_nonnegative(self.cycle_ms as int, screen_h as int);
            assert((self.cycle_ms as int) * (screen_h as int) < (self.period_ms as int) * (
            screen_h as int)) by (nonlinear_arith)
                requires
                    self.cycle_ms < self.period_ms,
                    1 <= screen_h,
            ;
            vstd::arithmetic::div_mod::lemma_multiply_divide_lt(
                (self.cycle_ms as int) * (screen_h as int),
                self.period_ms as int,
                screen_h as int,
            );
        }
        ((self.cycle_ms * (screen_h as u64)) / self.period_ms) as u32
    }
}

/// Advancing a layer tick by tick adds up: two advances are one advance by
/// the summed time.
pub proof fn lemma_advance_additive(l: ParallaxLayer, a: int, b: int)
    requires
        l.wf(),
        0 <= a,
        0 <= b,
    ensures
        l.spec_advanced(a).spec_advanced(b) == l.spec_advanced(a + b),
{
    let p = l.period_ms as int;
    let c = l.cycle_ms as int;
    lemma_mod_division_less_than_divisor(c + a, p);
    vstd::arithmetic::div_mod::lemma_add_mod_noop_right(b, c + a, p);
    assert(b + (c + a) % p == (c + a) % p + b);
}

/// Scroll wraparound: advancing a layer by exactly its period returns the
/// offset to its starting value.
pub proof fn lemma_scroll_wraparound(l: ParallaxLayer)
    requires
        l.wf(),
    ensures
        l.spec_advanced(l.period_ms as int) == l,
{
    let p = l.period_ms as int;
    let c = l.cycle_ms as int;
    lemma_mod_add_multiples_vanish(c, p);
    lemma_small_mod(l.cycle_ms as nat, l.period_ms as nat);
}

/// The two star layers of the scene, scrolling at independent periods.
pub struct Background {
    pub stars1: ParallaxLayer,
    pub stars2: ParallaxLayer,
}

/// The background one tick later: both layers advanced independently.
pub open spec fn spec_background_updated(b: Background, dt_ms: u32) -> Background {
    Background {
        stars1: b.stars1.spec_advanced(dt_ms as int),
        stars2: b.stars2.spec_advanced(dt_ms as int),
    }
}

impl Background {
    pub open spec fn wf(self) -> bool {
        &&& self.stars1.wf()
        &&& self.stars2.wf()
    }

    /// The scene's initial background: both layers at the start of their
    /// cycle.
    pub open spec fn initial() -> Background {
        Background {
            stars1: ParallaxLayer { period_ms: STARS1_PERIOD_MS, cycle_ms: 0 },
            stars2: ParallaxLayer { period_ms: STARS2_PERIOD_MS, cycle_ms: 0 },
        }
    }

    pub fn new() -> (b: Background)
        ensures
            b == Background::initial(),
            b.wf(),
    {
        Background {
            stars1: ParallaxLayer::new(STARS1_PERIOD_MS),
            stars2: ParallaxLayer::new(STARS2_PERIOD_MS),
        }
    }

    /// Advance both layers' scroll positions by one tick.
    pub fn update(&mut self, dt_ms: u32)
        requires
            old(self).wf(),
        ensures
            final(self).wf(),
            *final(self) == spec_background_updated(*old(self), dt_ms),
    {
        self.stars1.advance(dt_ms);
        self.stars2.advance(dt_ms);
    }
}

/// Where the wrapped second tiling pass starts above the screen top: the
/// height left over after the first pass, taken modulo the tile height.
pub open spec fn spec_wrap_start(start: int, extent: int, tile: int) -> int
    recommends
        1 <= tile,
{
    (extent - start) % tile
}

/// Ceiling division for positive divisors.
pub open spec fn spec_ceil_div(a: int, b: int) -> int
    recommends
        1 <= b,
{
    (a + b - 1) / b
}

/// A row laid by the first pass: tiles step from the scroll row down to the
/// bottom of the screen.
pub open spec fn pass1_row(start: int, extent: int, tile: int, y: int) -> bool {
    exists|i: int|
        0 <= i < spec_ceil_div(extent - start, tile) && y == start + #[trigger] (i * tile)
}

/// A row laid by the second pass: tiles step from just above the screen top
/// (the wrapped remainder) down to the scroll row.
pub open spec fn pass2_row(start: int, extent: int, tile: int, y: int) -> bool {
    exists|i: int|
        0 <= i < spec_ceil_div(start + spec_wrap_start(start, extent, tile), tile) && y
            == #[trigger] (i * tile) - spec_wrap_start(start, extent, tile)
}

/// A row laid by either pass.
pub open spec fn tiling_row(start: int, extent: int, tile: int, y: int) -> bool {
    pass1_row(start, extent, tile, y) || pass2_row(start, extent, tile, y)
}

/// The row of the tile that covers pixel `p`: `p` rounded down to the
/// progression of rows congruent to the wrapped start.
pub open spec fn spec_cover_row(start: int, extent: int, tile: int, p: int) -> int {
    p - ((p + spec_wrap_start(start, extent, tile)) % tile)
}

/// Bounds of the ceiling division: it is the least multiple-count reaching
/// the dividend.
pub proof fn lemma_ceil_div_bounds(a: int, b: int)
    requires
        1 <= b,
        0 <= a,
    ensures
        spec_ceil_div(a, b) * b >= a,
        (spec_ceil_div(a, b) - 1) * b < a,
        spec_ceil_div(a, b) >= 0,
{
    broadcast use lemma_mul_is_commutative;

    let n = spec_ceil_div(a, b);
    lemma_fundamental_div_mod(a + b - 1, b);
    lemma_mod_division_less_than_divisor(a + b - 1, b);
    lemma_div_pos_is_pos(a + b - 1, b);
    let r = (a + b - 1) % b;
    assert(n * b == a + b - 1 - r) by (nonlinear_arith)
        requires
            a + b - 1 == n * b + r,
    ;
    assert((n - 1) * b == n * b - b) by (nonlinear_arith);
}

/// The count that just reaches the dividend is the ceiling division.
pub proof fn lemma_ceil_div_unique(a: int, b: int, n: int)
    requires
        1 <= b,
        0 <= a,
        n * b >= a,
        (n - 1) * b < a,
    ensures
        n == spec_ceil_div(a, b),
{
    broadcast use lemma_mul_is_commutative;

    assert((n - 1) * b == n * b - b) by (nonlinear_arith);
    let r = a + b - 1 - n * b;
    lemma_fundamental_div_mod_converse(a + b - 1, b, n, r);
}

/// The tile rows of one layer's draw, first pass then second: the first
/// pass steps from `start_y` down to the screen bottom, the second from the
/// wrapped remainder above the top down to `start_y`.
pub fn tile_rows(start_y: u32, screen_h: u32, tile_h: u32) -> (rows: Vec<i64>)
    requires
        1 <= tile_h,
        start_y < screen_h,
        screen_h <= MAX_SCREEN_PX,
    ensures
        ({
            let start = start_y as int;
            let sh = screen_h as int;
            let th = tile_h as int;
            let wrap = spec_wrap_start(start, sh, th);
            let n1 = spec_ceil_div(sh - start, th);
            let n2 = spec_ceil_div(start + wrap, th);
            &&& rows@.len() == n1 + n2
            &&& forall|i: int| 0 <= i < n1 ==> rows@[i] == start + #[trigger] (i * th)
            &&& forall|i: int|
                n1 <= i < n1 + n2 ==> rows@[i] == #[trigger] ((i - n1) * th) - wrap
        }),
{
    let ghost start = start_y as int;
    let ghost sh = screen_h as int;
    let ghost th = tile_h as int;
    let mut rows: Vec<i64> = Vec::new();
    let mut y: i64 = start_y as i64;
    while y < screen_h as i64
        invariant
            start == start_y as int,
            sh == screen_h as int,
            th == tile_h as int,
            1 <= th,
            0 <= start < sh <= MAX_SCREEN_PX as int,
            y == start + rows@.len() * th,
            y - th < sh,
            start <= y,
            forall|i: int| 0 <= i < rows@.len() ==> rows@[i] == start + #[trigger] (i * th),
        decreases sh + th - y,
    {
        rows.push(y);
        proof {
            let n = rows@.len() as int;
            assert(n * th == (n - 1) * th + th) by (nonlinear_arith);
            lemma_mul_nonnegative(n, th);
        }
        y = y + tile_h as i64;
    }
    proof {
        let n = rows@.len() as int;
        assert((n - 1) * th == n * th - th) by (nonlinear_arith);
        lemma_ceil_div_unique(sh - start, th, n);
    }
    let ghost n1 = rows@.len() as int;
    let remaining: u32 = screen_h - start_y;
    let wrap: u32 = remaining % tile_h;
    let mut y2: i64 = -(wrap as i64);
    while y2 < start_y as i64
        invariant
            start == start_y as int,
            sh == screen_h as int,
            th == tile_h as int,
            1 <= th,
            0 <= start < sh <= MAX_SCREEN_PX as int,
            wrap as int == spec_wrap_start(start, sh, th),
            0 <= (wrap as int) < th,
            n1 == spec_ceil_div(sh - start, th),
            rows@.len() >= n1,
            y2 == (rows@.len() - n1) * th - wrap,
            y2 - th < start,
            -(wrap as int) <= y2,
            forall|i: int| 0 <= i < n1 ==> rows@[i] == start + #[trigger] (i * th),
            forall|i: int|
                n1 <= i < rows@.len() ==> rows@[i] == #[trigger] ((i - n1) * th) - wrap,
        decreases start + th - y2,
    {
        rows.push(y2);
        proof {
            let k = rows@.len() - n1;
            assert(k * th == (k - 1) * th + th) by (nonlinear_arith);
            lemma_mul_nonnegative(k, th);
        }
        y2 = y2 + tile_h as i64;
    }
    proof {
        let k = rows@.len() - n1;
        assert((k - 1) * th == k * th - th) by (nonlinear_arith);
        lemma_ceil_div_unique(start + wrap as int, th, k);
    }
    rows
}

/// The column positions of one layer's draw: tiles step from the left edge
/// across the screen width.
pub fn tile_cols(screen_w: u32, tile_w: u32) -> (cols: Vec<i64>)
    requires
        1 <= tile_w,
        1 <= screen_w <= MAX_SCREEN_PX,
    ensures
        cols@.len() == spec_ceil_div(screen_w as int, tile_w as int),
        forall|i: int|
            0 <= i < cols@.len() ==> cols@[i] == #[trigger] (i * tile_w as int),
{
    let ghost sw = screen_w as int;
    let ghost tw = tile_w as int;
    let mut cols: Vec<i64> = Vec::new();
    let mut x: i64 = 0;
    proof {
        assert(cols@.len() * tw == 0) by (nonlinear_arith)
            requires
                cols@.len() == 0,
        ;
    }
    while x < screen_w as i64
        invariant
            sw == screen_w as int,
            tw == tile_w as int,
            1 <= tw,
            1 <= sw <= MAX_SCREEN_PX as int,
            x == cols@.len() * tw,
            x - tw < sw,
            0 <= x,
            forall|i: int| 0 <= i < cols@.len() ==> cols@[i] == #[trigger] (i * tw),
        decreases sw + tw - x,
    {
        cols.push(x);
        proof {
            let n = cols@.len() as int;
            assert(n * tw == (n - 1) * tw + tw) by (nonlinear_arith);
            lemma_mul_nonnegative(n, tw);
        }
        x = x + tile_w as i64;
    }
    proof {
        let n = cols@.len() as int;
        assert((n - 1) * tw == n * tw - tw) by (nonlinear_arith);
        lemma_ceil_div_unique(sw, tw, n);
    }
    cols
}

/// Seamless tiling: when the tile height divides the screen height, the two
/// passes together lay tiles at exactly the arithmetic progression of step
/// `tile` through `(-tile, extent)` anchored at the wrapped start — every
/// screen pixel row is covered by exactly one tile, with no gap, no overlap
/// and no row laid twice.  (With a tile height that does not divide the
/// screen height the junction at the scroll row misaligns, so that case is
/// excluded here.)
pub proof fn lemma_seamless_tiling(start: int, extent: int, tile: int)
    requires
        1 <= tile,
        0 <= start < extent,
        extent % tile == 0,
    ensures
        ({
            let wrap = spec_wrap_start(start, extent, tile);
            // the combined rows are one arithmetic progression with step `tile`
            &&& forall|y: int|
                #[trigger] tiling_row(start, extent, tile, y) <==> (-tile < y < extent && (y
                    + wrap) % tile == 0)
            // no row is laid by both passes
            &&& forall|y: int|
                !(#[trigger] pass1_row(start, extent, tile, y) && pass2_row(
                    start,
                    extent,
                    tile,
                    y,
                ))
            // distinct rows are at least a full tile apart: no overlap
            &&& forall|y1: int, y2: int|
                #[trigger] tiling_row(start, extent, tile, y1) && #[trigger] tiling_row(
                    start,
                    extent,
                    tile,
                    y2,
                ) && y1 != y2 ==> (y1 - y2 >= tile || y2 - y1 >= tile)
            // every pixel row on screen is covered by the tile at its cover row
            &&& forall|p: int|
                #![trigger spec_cover_row(start, extent, tile, p)]
                0 <= p < extent ==> {
                    let y = spec_cover_row(start, extent, tile, p);
                    &&& tiling_row(start, extent, tile, y)
                    &&& y <= p < y + tile
                }
        }),
{
    broadcast use lemma_mul_is_commutative;

    let wrap = spec_wrap_start(start, extent, tile);
    lemma_mod_division_less_than_divisor(extent - start, tile);
    lemma_fundamental_div_mod(extent - start, tile);
    let q1 = (extent - start) / tile;
    lemma_fundamental_div_mod(extent, tile);
    let q2 = extent / tile;
    let m = q2 - q1;
    assert(start + wrap == m * tile) by (nonlinear_arith)
        requires
            extent - start == q1 * tile + wrap,
            extent == q2 * tile + extent % tile,
            extent % tile == 0,
            m == q2 - q1,
    ;
    let n1 = spec_ceil_div(extent - start, tile);
    let n2 = spec_ceil_div(start + wrap, tile);
    lemma_ceil_div_bounds(extent - start, tile);
    assert(m >= 0) by (nonlinear_arith)
        requires
            m * tile == start + wrap,
            start + wrap >= 0,
            tile >= 1,
    ;
    assert((m - 1) * tile < start + wrap) by (nonlinear_arith)
        requires
            m * tile == start + wrap,
            tile >= 1,
    ;
    lemma_ceil_div_unique(start + wrap, tile, m);
    assert(n2 == m);
    assert(n2 * tile == start + wrap);

    // Every pass-1 row lies in [start, extent) on the progression.
    assert forall|y: int| pass1_row(start, extent, tile, y) implies start <= y < extent && (y
        + wrap) % tile == 0 by {
        let i = choose|i: int|
            0 <= i < spec_ceil_div(extent - start, tile) && y == start + #[trigger] (i * tile);
        lemma_mul_nonnegative(i, tile);
        lemma_mul_inequality(i, n1 - 1, tile);
        assert(y + wrap == (m + i) * tile) by (nonlinear_arith)
            requires
                y == start + i * tile,
                start + wrap == m * tile,
        ;
        lemma_mod_multiples_basic(m + i, tile);
    }
    // Every pass-2 row lies in [-wrap, start) on the progression.
    assert forall|y: int| pass2_row(start, extent, tile, y) implies -tile < y < start && (y
        + wrap) % tile == 0 by {
        let i = choose|i: int|
            0 <= i < spec_ceil_div(start + spec_wrap_start(start, extent, tile), tile) && y
                == #[trigger] (i * tile) - spec_wrap_start(start, extent, tile);
        lemma_mul_nonnegative(i, tile);
        lemma_mul_inequality(i, n2 - 1, tile);
        assert((n2 - 1) * tile == n2 * tile - tile) by (nonlinear_arith);
        assert(y + wrap == i * tile);
        lemma_mod_multiples_basic(i, tile);
    }
    // Conversely, every value of the progression inside (-tile, extent) is a
    // row of one of the passes.
    assert forall|y: int| -tile < y < extent && (y + wrap) % tile == 0 implies tiling_row(
        start,
        extent,
        tile,
        y,
    ) by {
        lemma_fundamental_div_mod(y + wrap, tile);
        let k = (y + wrap) / tile;
        assert(y + wrap == k * tile);
        assert(k >= 0) by (nonlinear_arith)
            requires
                k * tile == y + wrap,
                y + wrap > -tile,
                tile >= 1,
        ;
        if y >= start {
            let i = k - m;
            assert(i * tile == y - start) by (nonlinear_arith)
                requires
                    k * tile == y + wrap,
                    m * tile == start + wrap,
                    i == k - m,
            ;
            assert(i >= 0) by (nonlinear_arith)
                requires
                    i * tile == y - start,
                    y - start >= 0,
                    tile >= 1,
            ;
            assert(i < n1) by (nonlinear_arith)
                requires
                    i * tile == y - start,
                    y < extent,
                    n1 * tile >= extent - start,
                    tile >= 1,
            ;
            assert(0 <= i < spec_ceil_div(extent - start, tile) && y == start + i * tile);
            assert(pass1_row(start, extent, tile, y));
        } else {
            assert(y + wrap < start + wrap);
            assert(k < n2) by (nonlinear_arith)
                requires
                    k * tile == y + wrap,
                    n2 * tile == start + wrap,
                    y + wrap < start + wrap,
                    tile >= 1,
            ;
            assert(0 <= k < spec_ceil_div(start + spec_wrap_start(start, extent, tile), tile)
                && y == k * tile - spec_wrap_start(start, extent, tile));
            assert(pass2_row(start, extent, tile, y));
        }
    }
    // No row is laid by both passes: pass 1 lies at or below the scroll row,
    // pass 2 strictly above it.
    assert forall|y: int| !(pass1_row(start, extent, tile, y) && pass2_row(
        start,
        extent,
        tile,
        y,
    )) by {
        if pass1_row(start, extent, tile, y) && pass2_row(start, extent, tile, y) {
            assert(start <= y);
            assert(y < start);
        }
    }
    // Distinct rows are at least one tile apart.
    assert forall|y1: int, y2: int|
        tiling_row(start, extent, tile, y1) && tiling_row(start, extent, tile, y2) && y1
            != y2 implies (y1 - y2 >= tile || y2 - y1 >= tile) by {
        assert((y1 + wrap) % tile == 0);
        assert((y2 + wrap) % tile == 0);
        lemma_fundamental_div_mod(y1 + wrap, tile);
        lemma_fundamental_div_mod(y2 + wrap, tile);
        let k1 = (y1 + wrap) / tile;
        let k2 = (y2 + wrap) / tile;
        assert(y1 - y2 >= tile || y2 - y1 >= tile) by (nonlinear_arith)
            requires
                y1 + wrap == k1 * tile,
                y2 + wrap == k2 * tile,
                y1 != y2,
                tile >= 1,
        ;
    }
    // The cover row of each screen pixel is a laid row whose tile holds it.
    assert forall|p: int| #![trigger spec_cover_row(start, extent, tile, p)] 0 <= p
        < extent implies {
        let y = spec_cover_row(start, extent, tile, p);
        &&& tiling_row(start, extent, tile, y)
        &&& y <= p < y + tile
    } by {
        lemma_fundamental_div_mod(p + wrap, tile);
        lemma_mod_division_less_than_divisor(p + wrap, tile);
        let y = spec_cover_row(start, extent, tile, p);
        let k = (p + wrap) / tile;
        assert(y + wrap == k * tile);
        lemma_mod_multiples_basic(k, tile);
        assert((y + wrap) % tile == 0);
        assert(-tile < y < extent);
        assert(tiling_row(start, extent, tile, y));
    }
}

} // verus!
