use math_invaders::alien::AlienState;
use math_invaders::level::make_alien;
use math_invaders::level::Operation;

#[test]
fn entry_zone_triples_the_descent() {
    // Same ship at y = 0.05 (inside the zone) and y = 0.5 (outside): with
    // speed 2.0 and dt = 100 ms the first moves three times as far.
    let mut fast = make_alien(Operation::Add, 2_000, 1, 1, 0, 50_000);
    let mut slow = make_alien(Operation::Add, 2_000, 1, 1, 0, 500_000);
    fast.update(100);
    slow.update(100);
    assert_eq!(fast.pos_y - 50_000, 6_000);
    assert_eq!(slow.pos_y - 500_000, 2_000);
    assert_eq!(fast.pos_y - 50_000, 3 * (slow.pos_y - 500_000));
}

#[test]
fn acceleration_stops_at_the_zone_boundary() {
    let mut at_limit = make_alien(Operation::Add, 2_000, 1, 1, 0, 70_000);
    at_limit.update(100);
    assert_eq!(at_limit.pos_y, 72_000);
    let mut just_above = make_alien(Operation::Add, 2_000, 1, 1, 0, 69_999);
    just_above.update(100);
    assert_eq!(just_above.pos_y, 75_999);
}

#[test]
fn explosion_overrun_kills_the_alien() {
    let mut a = make_alien(Operation::Add, 2_000, 2, 2, 0, 100_000);
    a.state = AlienState::Exploding;
    a.update(600);
    assert_eq!(a.state, AlienState::Dead);
}

#[test]
fn dead_alien_is_never_moved_or_drawn_again() {
    let mut a = make_alien(Operation::Add, 2_000, 2, 2, 0, 100_000);
    a.state = AlienState::Exploding;
    a.update(600);
    assert_eq!(a.state, AlienState::Dead);
    let frozen_y = a.pos_y;
    let frozen_elapsed = a.explosion.elapsed;
    a.update(250);
    a.update(250);
    assert_eq!(a.state, AlienState::Dead);
    assert_eq!(a.pos_y, frozen_y);
    assert_eq!(a.explosion.elapsed, frozen_elapsed);
    assert!(!a.is_ship_visible());
    assert!(!a.is_explosion_visible());
}

#[test]
fn ship_hides_after_half_the_explosion() {
    let mut a = make_alien(Operation::Add, 2_000, 2, 2, 0, 100_000);
    a.state = AlienState::Exploding;
    a.update(200);
    assert!(a.is_ship_visible());
    assert!(a.is_explosion_visible());
    a.update(100);
    // elapsed 300 is past half of 500: identity hidden, explosion still on.
    assert!(!a.is_ship_visible());
    assert!(a.is_explosion_visible());
    assert_eq!(a.state, AlienState::Exploding);
}

#[test]
fn alive_alien_keeps_its_explosion_untouched() {
    let mut a = make_alien(Operation::Add, 2_000, 2, 2, 0, 100_000);
    a.update(400);
    assert_eq!(a.state, AlienState::Alive);
    assert_eq!(a.explosion.elapsed, 0);
    assert!(a.is_ship_visible());
    assert!(!a.is_explosion_visible());
}

#[test]
fn screen_pos_scales_to_pixels() {
    let mut a = make_alien(Operation::Add, 2_000, 2, 2, 250_000, 0);
    a.pos_y = -100_000;
    assert_eq!(a.screen_pos(800, 600), (200, -60));
    a.pos_y = 500_000;
    assert_eq!(a.screen_pos(800, 600), (200, 300));
}
