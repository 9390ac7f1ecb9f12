use math_invaders::alien::Alien;
use math_invaders::alien::AlienState;
use math_invaders::background::Background;
use math_invaders::game::parse_answer;
use math_invaders::game::MainState;
use math_invaders::game::Target;
use math_invaders::level::make_alien;
use math_invaders::level::LevelSpec;
use math_invaders::level::Operation;

fn alien_with_answer(answer_parts: (u32, u32), y: i64) -> Alien {
    make_alien(Operation::Add, 2_000, answer_parts.0, answer_parts.1, 0, y)
}

fn fleet_4_7_4() -> MainState {
    MainState {
        aliens: vec![
            alien_with_answer((2, 2), 100_000),
            alien_with_answer((3, 4), 200_000),
            alien_with_answer((1, 3), 300_000),
        ],
        background: Background::new(),
        target: None,
        input: Vec::new(),
    }
}

#[test]
fn first_match_ignites_only_the_earliest() {
    let mut s = fleet_4_7_4();
    s.push_digit('4');
    let fired = s.submit_answer();
    assert_eq!(fired, Some(0));
    assert_eq!(s.aliens[0].state, AlienState::Exploding);
    assert_eq!(s.aliens[1].state, AlienState::Alive);
    assert_eq!(s.aliens[2].state, AlienState::Alive);
    assert_eq!(s.target, Some(Target { index: 0, remaining_ms: 500 }));
    assert!(s.input.is_empty());
}

#[test]
fn miss_changes_nothing_but_clears_the_buffer() {
    let mut s = fleet_4_7_4();
    s.push_digit('9');
    let fired = s.submit_answer();
    assert_eq!(fired, None);
    assert_eq!(s.aliens[0].state, AlienState::Alive);
    assert_eq!(s.target, None);
    assert!(s.input.is_empty());
}

#[test]
fn empty_submit_is_a_no_op() {
    let mut s = fleet_4_7_4();
    let fired = s.submit_answer();
    assert_eq!(fired, None);
    assert_eq!(s.target, None);
}

#[test]
fn new_match_replaces_the_target() {
    let mut s = fleet_4_7_4();
    s.push_digit('4');
    s.submit_answer();
    s.update(100);
    assert_eq!(s.target, Some(Target { index: 0, remaining_ms: 400 }));
    s.push_digit('7');
    let fired = s.submit_answer();
    assert_eq!(fired, Some(1));
    assert_eq!(s.target, Some(Target { index: 1, remaining_ms: 500 }));
}

#[test]
fn countdown_expiry_clears_the_target() {
    let mut s = fleet_4_7_4();
    s.aliens[0].state = AlienState::Exploding;
    s.target = Some(Target { index: 0, remaining_ms: 500 });
    s.update(600);
    assert_eq!(s.target, None);
}

#[test]
fn countdown_survives_until_it_would_go_negative() {
    let mut s = fleet_4_7_4();
    s.aliens[0].state = AlienState::Exploding;
    s.target = Some(Target { index: 0, remaining_ms: 500 });
    s.update(500);
    assert_eq!(s.target, Some(Target { index: 0, remaining_ms: 0 }));
    s.update(1);
    assert_eq!(s.target, None);
}

#[test]
fn digits_accumulate_and_backspace_pops() {
    let mut s = fleet_4_7_4();
    s.push_digit('1');
    s.push_digit('2');
    s.push_digit('a');
    assert_eq!(s.input, vec!['1', '2']);
    s.backspace();
    assert_eq!(s.input, vec!['1']);
    s.backspace();
    s.backspace();
    assert!(s.input.is_empty());
}

#[test]
fn parse_accepts_plain_decimal() {
    assert_eq!(parse_answer(&vec!['4', '2']), Some(42));
    assert_eq!(parse_answer(&vec!['0', '0', '7']), Some(7));
    assert_eq!(parse_answer(&vec!['2', '1', '4', '7', '4', '8', '3', '6', '4', '7']), Some(i32::MAX));
}

#[test]
fn parse_rejects_empty_nondigit_and_overflow() {
    assert_eq!(parse_answer(&Vec::new()), None);
    assert_eq!(parse_answer(&vec!['4', 'x']), None);
    assert_eq!(parse_answer(&vec!['2', '1', '4', '7', '4', '8', '3', '6', '4', '8']), None);
    assert_eq!(parse_answer(&vec!['9', '9', '9', '9', '9', '9', '9', '9', '9', '9', '9']), None);
}

#[test]
fn tick_moves_every_alien_before_the_countdown() {
    let mut s = fleet_4_7_4();
    s.update(100);
    assert_eq!(s.aliens[0].pos_y, 102_000);
    assert_eq!(s.aliens[1].pos_y, 202_000);
    assert_eq!(s.aliens[2].pos_y, 302_000);
    assert_eq!(s.background.stars1.cycle_ms, 100);
    assert_eq!(s.background.stars2.cycle_ms, 100);
}

#[test]
fn zero_delta_tick_changes_nothing() {
    let mut s = fleet_4_7_4();
    s.aliens[0].state = AlienState::Exploding;
    s.target = Some(Target { index: 0, remaining_ms: 0 });
    s.update(0);
    assert_eq!(s.aliens[0].pos_y, 100_000);
    assert_eq!(s.target, Some(Target { index: 0, remaining_ms: 0 }));
    assert_eq!(s.background.stars1.cycle_ms, 0);
}

#[test]
fn laser_runs_from_turret_to_target() {
    let mut s = fleet_4_7_4();
    s.aliens[0].pos_x = 500_000;
    s.aliens[0].pos_y = 250_000;
    assert_eq!(s.laser_endpoints(800, 600), None);
    s.aliens[0].state = AlienState::Exploding;
    s.target = Some(Target { index: 0, remaining_ms: 500 });
    assert_eq!(s.laser_endpoints(800, 600), Some(((400, 540), (400, 150))));
}

#[test]
fn new_level_spawns_a_stacked_alive_fleet() {
    let level = LevelSpec {
        speed: 2_000,
        max_number: 1,
        operations: vec![Operation::Add],
        num_ships: 3,
    };
    let mut rng = rand::thread_rng();
    let s = MainState::new(&level, &mut rng);
    assert_eq!(s.aliens.len(), 3);
    assert_eq!(s.target, None);
    assert!(s.input.is_empty());
    for (i, a) in s.aliens.iter().enumerate() {
        assert_eq!(a.state, AlienState::Alive);
        assert_eq!(a.speed, 2_000);
        assert_eq!(a.answer, 0);
        assert_eq!(a.text, "0+0".chars().collect::<Vec<char>>());
        assert_eq!(a.pos_y, -(i as i64) * 100_000);
        assert!(a.pos_x >= 0 && a.pos_x < 1_000_000);
        assert_eq!(a.explosion.duration, 500);
        assert_eq!(a.explosion.elapsed, 0);
    }
}
