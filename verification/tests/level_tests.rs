use math_invaders::alien::AlienState;
use math_invaders::level::decimal_chars;
use math_invaders::level::equation_text;
use math_invaders::level::gen_aliens;
use math_invaders::level::op_answer;
use math_invaders::level::op_symbol;
use math_invaders::level::LevelSpec;
use math_invaders::level::Operation;

fn chars(s: &str) -> Vec<char> {
    s.chars().collect()
}

#[test]
fn decimal_renders_most_significant_first() {
    assert_eq!(decimal_chars(0), chars("0"));
    assert_eq!(decimal_chars(7), chars("7"));
    assert_eq!(decimal_chars(40), chars("40"));
    assert_eq!(decimal_chars(405), chars("405"));
    assert_eq!(decimal_chars(32_768), chars("32768"));
}

#[test]
fn equation_text_joins_operands_with_the_symbol() {
    assert_eq!(equation_text(Operation::Add, 12, 5), chars("12+5"));
    assert_eq!(equation_text(Operation::Subtract, 3, 9), chars("3-9"));
    assert_eq!(equation_text(Operation::Multiply, 4, 4), chars("4x4"));
    assert_eq!(equation_text(Operation::Divide, 8, 2), chars("8/2"));
}

#[test]
fn op_symbols_match_the_rendering() {
    assert_eq!(op_symbol(Operation::Add), '+');
    assert_eq!(op_symbol(Operation::Subtract), '-');
    assert_eq!(op_symbol(Operation::Multiply), 'x');
    assert_eq!(op_symbol(Operation::Divide), '/');
}

#[test]
fn answers_follow_integer_arithmetic() {
    assert_eq!(op_answer(Operation::Add, 2, 3), 5);
    assert_eq!(op_answer(Operation::Subtract, 2, 3), -1);
    assert_eq!(op_answer(Operation::Multiply, 5, 6), 30);
    assert_eq!(op_answer(Operation::Divide, 7, 2), 3);
    assert_eq!(op_answer(Operation::Divide, 6, 3), 2);
    assert_eq!(op_answer(Operation::Multiply, 32_768, 32_768), 1_073_741_824);
}

#[test]
fn generated_fleet_is_alive_and_consistent() {
    let level = LevelSpec {
        speed: 2_000,
        max_number: 1,
        operations: vec![Operation::Add],
        num_ships: 5,
    };
    let mut rng = rand::thread_rng();
    let aliens = gen_aliens(&level, &mut rng);
    assert_eq!(aliens.len(), 5);
    for (i, a) in aliens.iter().enumerate() {
        assert_eq!(a.state, AlienState::Alive);
        assert_eq!(a.operation, Operation::Add);
        // With operands drawn below 1 both must be zero.
        assert_eq!(a.answer, 0);
        assert_eq!(a.text, "0+0".chars().collect::<Vec<char>>());
        assert_eq!(a.pos_y, -(i as i64) * 100_000);
        assert!(a.pos_x >= 0 && a.pos_x < 1_000_000);
    }
}

#[test]
fn zero_divisor_is_bumped_to_one() {
    let level = LevelSpec {
        speed: 2_000,
        max_number: 1,
        operations: vec![Operation::Divide],
        num_ships: 4,
    };
    let mut rng = rand::thread_rng();
    let aliens = gen_aliens(&level, &mut rng);
    for a in &aliens {
        assert_eq!(a.text, "0/1".chars().collect::<Vec<char>>());
        assert_eq!(a.answer, 0);
    }
}

#[test]
fn generator_draws_from_the_configured_operations() {
    let level = LevelSpec {
        speed: 2_000,
        max_number: 5,
        operations: vec![Operation::Add, Operation::Multiply],
        num_ships: 20,
    };
    let mut rng = rand::thread_rng();
    let aliens = gen_aliens(&level, &mut rng);
    for a in &aliens {
        assert!(a.operation == Operation::Add || a.operation == Operation::Multiply);
        assert!(a.answer >= 0 && a.answer <= 16);
    }
}
