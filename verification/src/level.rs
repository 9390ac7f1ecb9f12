//! Level generation: each alien gets a randomly drawn arithmetic operation,
//! two bounded operands, the rendered equation text, the stored integer
//! answer and a spawn position above the screen top.

use vstd::prelude::*;

use crate::alien::Alien;
use crate::alien::AlienState;
use crate::alien::MAX_SPEED;
use crate::alien::MIN_POS_Y;
use crate::alien::POS_Y_LIMIT;
use crate::explosion::Explosion;
use crate::rng::rand_below;
use crate::COORD_SCALE;

verus! {

/// The four arithmetic operations an alien's equation can carry.
#[derive(Clone, Copy, Debug, PartialEq, Eq, Structural)]
pub enum Operation {
    Add,
    Subtract,
    Multiply,
    Divide,
}

/// Largest operand bound a level may configure; keeps every answer well
/// inside `i32`.
pub const MAX_OPERAND: u32 = 32_768;

/// Largest number of ships a level may configure.
pub const MAX_SHIPS: usize = 10_000;

/// Largest operation list a level may configure.
pub const MAX_OPERATION_CHOICES: usize = 1_000;

/// Spawn spacing: consecutive aliens start one tenth of a screen apart
/// above the top edge.
pub const SPAWN_SPACING: i64 = 100_000;

/// Configuration of one level: descent speed, operand bound, the operations
/// to draw from, and how many ships to spawn.
pub struct LevelSpec {
    /// Descent speed of every alien, in units of `1/1000` screen height per
    /// 100 seconds.
    pub speed: u32,
    /// Operands are drawn from `0 .. max_number`.
    pub max_number: u32,
    /// The operations an alien may be assigned, drawn uniformly.
    pub operations: Vec<Operation>,
    /// How many aliens the level spawns.
    pub num_ships: usize,
}

impl LevelSpec {
    pub open spec fn wf(self) -> bool {
        &&& self.speed <= MAX_SPEED
        &&& 1 <= self.max_number <= MAX_OPERAND
        &&& 1 <= self.operations@.len() <= MAX_OPERATION_CHOICES as int
        &&& self.num_ships <= MAX_SHIPS
    }
}

/// The character an operation is rendered with in an equation.
pub open spec fn spec_op_symbol(op: Operation) -> char {
    match op {
        Operation::Add => '+',
        Operation::Subtract => '-',
        Operation::Multiply => 'x',
        Operation::Divide => '/',
    }
}

pub fn op_symbol(op: Operation) -> (c: char)
    ensures
        c == spec_op_symbol(op),
{
    match op {
        Operation::Add => '+',
        Operation::Subtract => '-',
        Operation::Multiply => 'x',
        Operation::Divide => '/',
    }
}

/// The integer answer of `a op b`; division truncates towards zero.
pub open spec fn spec_op_answer(op: Operation, a: int, b: int) -> int
    recommends
        op == Operation::Divide ==> b != 0,
{
    match op {
        Operation::Add => a + b,
        Operation::Subtract => a - b,
        Operation::Multiply => a * b,
        Operation::Divide => a / b,
    }
}

pub fn op_answer(op: Operation, num1: u32, num2: u32) -> (r: i32)
    requires
        num1 <= MAX_OPERAND,
        num2 <= MAX_OPERAND,
        op == Operation::Divide ==> num2 >= 1,
    ensures
        r as int == spec_op_answer(op, num1 as int, num2 as int),
{
    match op {
        Operation::Add => (num1 + num2) as i32,
        Operation::Subtract => num1 as i32 - num2 as i32,
        Operation::Multiply => {
            proof {
                vstd::arithmetic::mul::lemma_mul_upper_bound(
                    num1 as int,
                    MAX_OPERAND as int,
                    num2 as int,
                    MAX_OPERAND as int,
                );
                vstd::arithmetic::mul::lemma_mul_nonnegative(num1 as int, num2 as int);
            }
            (num1 * num2) as i32
        },
        Operation::Divide => (num1 / num2) as i32,
    }
}

/// The digit character for a value in `0..=9`.
pub open spec fn spec_digit_char(d: int) -> char {
    if d == 0 {
        '0'
    } else if d == 1 {
        '1'
    } else if d == 2 {
        '2'
    } else if d == 3 {
        '3'
    } else if d == 4 {
        '4'
    } else if d == 5 {
        '5'
    } else if d == 6 {
        '6'
    } else if d == 7 {
        '7'
    } else if d == 8 {
        '8'
    } else {
        '9'
    }
}

pub fn digit_char(d: u32) -> (c: char)
    requires
        d < 10,
    ensures
        c == spec_digit_char(d as int),
{
    if d == 0 {
        '0'
    } else if d == 1 {
        '1'
    } else if d == 2 {
        '2'
    } else if d == 3 {
        '3'
    } else if d == 4 {
        '4'
    } else if d == 5 {
        '5'
    } else if d == 6 {
        '6'
    } else if d == 7 {
        '7'
    } else if d == 8 {
        '8'
    } else {
        '9'
    }
}

/// The decimal rendering of a natural number, most significant digit first.
pub open spec fn spec_decimal(n: nat) -> Seq<char>
    decreases n,
{
    if n < 10 {
        seq![spec_digit_char(n as int)]
    } else {
        spec_decimal(n / 10).push(spec_digit_char((n % 10) as int))
    }
}

pub fn decimal_chars(n: u32) -> (r: Vec<char>)
    ensures
        r@ == spec_decimal(n as nat),
    decreases n,
{
    if n < 10 {
        let mut v: Vec<char> = Vec::new();
        v.push(digit_char(n));
        assert(v@ =~= seq![spec_digit_char(n as int)]);
        v
    } else {
        let mut v = decimal_chars(n / 10);
        v.push(digit_char(n % 10));
        v
    }
}

/// The rendered equation `num1 op num2`.
pub open spec fn spec_equation_text(op: Operation, a: nat, b: nat) -> Seq<char> {
    spec_decimal(a) + seq![spec_op_symbol(op)] + spec_decimal(b)
}

pub fn equation_text(op: Operation, num1: u32, num2: u32) -> (r: Vec<char>)
    ensures
        r@ == spec_equation_text(op, num1 as nat, num2 as nat),
{
    let mut v = decimal_chars(num1);
    v.push(op_symbol(op));
    let mut tail = decimal_chars(num2);
    v.append(&mut tail);
    assert(v@ =~= spec_equation_text(op, num1 as nat, num2 as nat));
    v
}

/// The divisor actually used by the generator: a drawn zero divisor is
/// bumped to one so a division equation stays well defined.
pub open spec fn spec_divisor_guard(op: Operation, n: int) -> int {
    if op == Operation::Divide && n == 0 {
        1
    } else {
        n
    }
}

/// Build one alien from its drawn ingredients: everything the generator's
/// randomness decided is passed in as a plain value.
pub fn make_alien(operation: Operation, speed: u32, num1: u32, num2: u32, pos_x: i64, pos_y: i64) -> (a:
    Alien)
    requires
        speed <= MAX_SPEED,
        0 <= pos_x < COORD_SCALE,
        MIN_POS_Y <= pos_y <= POS_Y_LIMIT,
        num1 <= MAX_OPERAND,
        num2 <= MAX_OPERAND,
        operation == Operation::Divide ==> num2 >= 1,
    ensures
        a.wf(),
        a.operation == operation,
        a.speed == speed,
        a.pos_x == pos_x,
        a.pos_y == pos_y,
        a.state == AlienState::Alive,
        a.explosion == Explosion::initial(),
        a.answer as int == spec_op_answer(operation, num1 as int, num2 as int),
        a.text@ == spec_equation_text(operation, num1 as nat, num2 as nat),
{
    Alien {
        operation,
        speed,
        pos_x,
        pos_y,
        text: equation_text(operation, num1, num2),
        answer: op_answer(operation, num1, num2),
        explosion: Explosion::new(),
        state: AlienState::Alive,
    }
}

/// What level generation guarantees of the alien at spawn slot `i`: a live,
/// well-formed ship of the level's speed, one tenth of a screen above the
/// previous one, whose answer and text agree on one drawn pair of operands.
pub open spec fn spec_generated_alien(a: Alien, level: LevelSpec, i: int) -> bool {
    &&& a.wf()
    &&& a.state == AlienState::Alive
    &&& a.speed == level.speed
    &&& a.explosion == Explosion::initial()
    &&& level.operations@.contains(a.operation)
    &&& 0 <= a.pos_x < COORD_SCALE as int
    &&& a.pos_y == -SPAWN_SPACING * i
    &&& exists|n1: int, n2: int|
        {
            &&& 0 <= n1 < level.max_number
            &&& 0 <= n2 < level.max_number
            &&& a.answer == #[trigger] spec_op_answer(
                a.operation,
                n1,
                spec_divisor_guard(a.operation, n2),
            )
            &&& a.text@ == spec_equation_text(
                a.operation,
                n1 as nat,
                spec_divisor_guard(a.operation, n2) as nat,
            )
        }
}

/// Spawn the level's aliens, drawing operation, operands and horizontal
/// position from the given generator.
pub fn gen_aliens(level: &LevelSpec, rng: &mut rand::rngs::ThreadRng) -> (aliens: Vec<Alien>)
    requires
        level.wf(),
    ensures
        aliens@.len() == level.num_ships,
        forall|i: int|
            0 <= i < aliens@.len() ==> spec_generated_alien(#[trigger] aliens@[i], *level, i),
{
    let mut aliens: Vec<Alien> = Vec::new();
    let op_count: u32 = level.operations.len() as u32;
    let mut i: usize = 0;
    while i < level.num_ships
        invariant
            level.wf(),
            op_count == level.operations@.len(),
            i <= level.num_ships,
            aliens@.len() == i,
            forall|j: int| 0 <= j < i ==> spec_generated_alien(#[trigger] aliens@[j], *level, j),
        decreases level.num_ships - i,
    {
        let op_idx = rand_below(rng, op_count) as usize;
        let operation = level.operations[op_idx];
        let num1 = rand_below(rng, level.max_number);
        let drawn2 = rand_below(rng, level.max_number);
        let num2: u32 = if operation == Operation::Divide && drawn2 == 0 {
            1
        } else {
            drawn2
        };
        let pos_x = rand_below(rng, COORD_SCALE as u32) as i64;
        let pos_y: i64 = -(SPAWN_SPACING * (i as i64));
        let alien = make_alien(operation, level.speed, num1, num2, pos_x, pos_y);
        proof {
            assert(level.operations@.contains(alien.operation)) by {
                assert(level.operations@[op_idx as int] == alien.operation);
            }
            assert(spec_divisor_guard(alien.operation, drawn2 as int) == num2 as int);
            assert(spec_op_answer(
                alien.operation,
                num1 as int,
                spec_divisor_guard(alien.operation, drawn2 as int),
            ) == alien.answer as int);
            assert(spec_generated_alien(alien, *level, i as int));
        }
        aliens.push(alien);
        i = i + 1;
    }
    aliens
}

} // verus!
