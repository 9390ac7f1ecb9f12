use math_invaders::explosion::Explosion;

fn rect_at(elapsed: u32) -> (u32, u32, u32, u32) {
    let mut e = Explosion::new();
    e.update(elapsed);
    e.get_rect()
}

fn ping_pong_at(elapsed: u32) -> i64 {
    let (x, y, _, _) = rect_at(elapsed);
    let sheet = (y / 64) * 4 + x / 64;
    15 - sheet as i64
}

#[test]
fn new_explosion_is_canonical() {
    let e = Explosion::new();
    assert_eq!(e.duration, 500);
    assert_eq!(e.elapsed, 0);
    assert_eq!(e.index, 0);
    assert!(e.is_active());
}

#[test]
fn first_and_last_instant_share_sheet_index_fifteen() {
    // Sheet index 15 sits at column 3, row 3 of the 4x4 grid.
    assert_eq!(rect_at(0), (192, 192, 64, 64));
    assert_eq!(rect_at(500), (192, 192, 64, 64));
}

#[test]
fn midpoint_reaches_sheet_index_zero() {
    // elapsed 250 of 500 maps to raw 15, the peak of the ping-pong.
    assert_eq!(rect_at(250), (0, 0, 64, 64));
}

#[test]
fn early_frame_rises() {
    // elapsed 100: raw = 100 * 30 / 500 = 6, sheet = 9 -> column 1, row 2.
    assert_eq!(rect_at(100), (64, 128, 64, 64));
}

#[test]
fn palindromic_within_rounding() {
    for t in 0..=500u32 {
        let diff = ping_pong_at(t) - ping_pong_at(500 - t);
        assert!(diff.abs() <= 1, "t={} diff={}", t, diff);
    }
}

#[test]
fn update_advances_and_recomputes_frame() {
    let mut e = Explosion::new();
    e.update(100);
    assert_eq!(e.elapsed, 100);
    assert_eq!(e.index, 6);
    e.update(100);
    assert_eq!(e.elapsed, 200);
    assert_eq!(e.index, 12);
}

#[test]
fn overshoot_freezes_the_animation() {
    let mut e = Explosion::new();
    e.update(600);
    assert_eq!(e.elapsed, 600);
    assert!(!e.is_active());
    let frozen_index = e.index;
    e.update(250);
    assert_eq!(e.elapsed, 600);
    assert_eq!(e.index, frozen_index);
}

#[test]
fn reflection_kicks_in_past_the_midpoint() {
    // elapsed 300: raw = 18 > 15, reflected to 12.
    let mut e = Explosion::new();
    e.update(300);
    assert_eq!(e.index, 12);
}
