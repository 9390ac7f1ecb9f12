use math_invaders::background::tile_cols;
use math_invaders::background::tile_rows;
use math_invaders::background::Background;
use math_invaders::background::ParallaxLayer;

#[test]
fn initial_background_layers() {
    let b = Background::new();
    assert_eq!(b.stars1.period_ms, 8_000);
    assert_eq!(b.stars2.period_ms, 16_000);
    assert_eq!(b.stars1.cycle_ms, 0);
    assert_eq!(b.stars2.cycle_ms, 0);
}

#[test]
fn layers_scroll_at_independent_rates() {
    let mut b = Background::new();
    b.update(4_000);
    assert_eq!(b.stars1.cycle_ms, 4_000);
    assert_eq!(b.stars2.cycle_ms, 4_000);
    b.update(4_000);
    assert_eq!(b.stars1.cycle_ms, 0);
    assert_eq!(b.stars2.cycle_ms, 8_000);
    b.update(8_000);
    assert_eq!(b.stars1.cycle_ms, 0);
    assert_eq!(b.stars2.cycle_ms, 0);
}

#[test]
fn advancing_by_the_period_returns_to_start() {
    let mut l = ParallaxLayer { period_ms: 8_000, cycle_ms: 1_234 };
    l.advance(8_000);
    assert_eq!(l.cycle_ms, 1_234);
}

#[test]
fn split_advance_adds_up_to_the_period() {
    let mut l = ParallaxLayer { period_ms: 8_000, cycle_ms: 4_321 };
    l.advance(3_000);
    l.advance(5_000);
    assert_eq!(l.cycle_ms, 4_321);
}

#[test]
fn start_row_is_the_offset_fraction_of_the_screen() {
    let l = ParallaxLayer { period_ms: 8_000, cycle_ms: 4_000 };
    assert_eq!(l.start_row(600), 300);
    let l = ParallaxLayer { period_ms: 8_000, cycle_ms: 0 };
    assert_eq!(l.start_row(600), 0);
    let l = ParallaxLayer { period_ms: 8_000, cycle_ms: 7_999 };
    assert_eq!(l.start_row(600), 599);
}

#[test]
fn tile_rows_lists_both_passes() {
    let rows = tile_rows(300, 600, 50);
    assert_eq!(
        rows,
        vec![300, 350, 400, 450, 500, 550, 0, 50, 100, 150, 200, 250]
    );
}

#[test]
fn tile_rows_wrap_reaches_above_the_top() {
    // start 100 on a 600-pixel screen with 64-pixel tiles: the first pass
    // runs 100..600, the wrapped pass starts at -(500 % 64) = -52.
    let rows = tile_rows(100, 600, 64);
    assert_eq!(
        rows,
        vec![100, 164, 228, 292, 356, 420, 484, 548, -52, 12, 76]
    );
}

#[test]
fn zero_offset_needs_no_wrapped_pass() {
    let rows = tile_rows(0, 600, 50);
    assert_eq!(
        rows,
        vec![0, 50, 100, 150, 200, 250, 300, 350, 400, 450, 500, 550]
    );
}

#[test]
fn tile_cols_step_across_the_screen() {
    assert_eq!(tile_cols(800, 256), vec![0, 256, 512, 768]);
    assert_eq!(tile_cols(512, 256), vec![0, 256]);
}

#[test]
fn tiling_is_seamless_when_tile_divides_screen() {
    let screen_h: u32 = 600;
    let tile_h: u32 = 50;
    for start in 0..screen_h {
        let mut rows = tile_rows(start, screen_h, tile_h);
        rows.sort();
        // One progression with step tile_h, anchored within (-tile_h, 0].
        assert!(rows[0] > -(tile_h as i64) && rows[0] <= 0);
        for w in rows.windows(2) {
            assert_eq!(w[1] - w[0], tile_h as i64);
        }
        // Every pixel row of the screen is covered by exactly one tile.
        let last = rows[rows.len() - 1];
        assert!(last < screen_h as i64 && last + tile_h as i64 >= screen_h as i64);
    }
}
