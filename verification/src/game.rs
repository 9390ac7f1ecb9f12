//! The simulation state: the alien fleet, the scrolling background, the
//! typed-digit input buffer, and the single countdown targeting beam.
//! Input events arrive between ticks; each tick advances aliens first, then
//! the background, then the beam countdown.

use vstd::prelude::*;

use crate::alien::spec_alien_updated;
use crate::alien::spec_ignited;
use crate::alien::Alien;
use crate::alien::AlienState;
use crate::background::spec_background_updated;
use crate::background::Background;
use crate::explosion::EXPLOSION_DURATION_MS;
use crate::level::gen_aliens;
use crate::level::spec_generated_alien;
use crate::level::LevelSpec;
use crate::scale_to_pixels;
use crate::spec_scaled;
use crate::MAX_SCREEN_PX;
use crate::MAX_TICK_MS;

verus! {

/// The turret's fixed horizontal position: the middle of the screen.
pub const TURRET_X: i64 = 500_000;

/// The turret's fixed vertical position: nine tenths down the screen.
pub const TURRET_Y: i64 = 900_000;

/// The targeting beam: a weak reference (an index into the alien list) plus
/// a countdown; the beam lives exactly as long as the countdown is not yet
/// below zero.
#[derive(Clone, Copy, Debug, PartialEq, Eq, Structural)]
pub struct Target {
    /// Index of the targeted alien in the fleet.
    pub index: usize,
    /// Milliseconds of beam life left.
    pub remaining_ms: u32,
}

/// The target one tick later: the countdown loses the tick's delta, and the
/// target is cleared the moment the countdown would fall below zero.
pub open spec fn spec_target_ticked(t: Option<Target>, dt_ms: u32) -> Option<Target> {
    match t {
        None => None,
        Some(tg) => if dt_ms > tg.remaining_ms {
            None
        } else {
            Some(Target { index: tg.index, remaining_ms: (tg.remaining_ms - dt_ms) as u32 })
        },
    }
}

/// A digit character.
pub open spec fn is_digit_char(c: char) -> bool {
    c == '0' || c == '1' || c == '2' || c == '3' || c == '4' || c == '5' || c == '6' || c == '7'
        || c == '8' || c == '9'
}

/// The value of a digit character (zero on non-digits).
pub open spec fn spec_digit_val(c: char) -> int {
    if c == '1' {
        1
    } else if c == '2' {
        2
    } else if c == '3' {
        3
    } else if c == '4' {
        4
    } else if c == '5' {
        5
    } else if c == '6' {
        6
    } else if c == '7' {
        7
    } else if c == '8' {
        8
    } else if c == '9' {
        9
    } else {
        0
    }
}

/// Every character of the sequence is a digit.
pub open spec fn all_digits(s: Seq<char>) -> bool {
    forall|i: int| 0 <= i < s.len() ==> is_digit_char(#[trigger] s[i])
}

/// The decimal value of a digit sequence, most significant digit first.
pub open spec fn spec_digits_value(s: Seq<char>) -> int
    decreases s.len(),
{
    if s.len() == 0 {
        0
    } else {
        10 * spec_digits_value(s.drop_last()) + spec_digit_val(s.last())
    }
}

/// What submitting the buffer parses to: the buffer's decimal value if it is
/// a non-empty digit string whose value fits an `i32`, nothing otherwise.
pub open spec fn spec_parse_answer(s: Seq<char>) -> Option<int> {
    if s.len() > 0 && all_digits(s) && spec_digits_value(s) <= i32::MAX {
        Some(spec_digits_value(s))
    } else {
        None
    }
}

/// The value of a digit string never drops when digits are appended: any
/// prefix is worth at most the whole.
pub proof fn lemma_digits_value_bounds(s: Seq<char>, i: int)
    requires
        all_digits(s),
        0 <= i <= s.len(),
    ensures
        0 <= spec_digits_value(s.take(i)) <= spec_digits_value(s),
    decreases s.len(),
{
    if s.len() == 0 {
        assert(s.take(i) =~= s);
    } else if i == s.len() {
        assert(s.take(i) =~= s);
        assert(all_digits(s.drop_last())) by {
            assert(forall|j: int|
                0 <= j < s.drop_last().len() ==> s.drop_last()[j] == #[trigger] s[j]);
        }
        lemma_digits_value_bounds(s.drop_last(), s.drop_last().len() as int);
    } else {
        assert(all_digits(s.drop_last())) by {
            assert(forall|j: int|
                0 <= j < s.drop_last().len() ==> s.drop_last()[j] == #[trigger] s[j]);
        }
        assert(s.take(i) =~= s.drop_last().take(i));
        lemma_digits_value_bounds(s.drop_last(), i);
        assert(spec_digit_val(s.last()) >= 0);
    }
}

/// Decode one digit character, or nothing.
pub fn digit_val(c: char) -> (r: Option<u32>)
    ensures
        is_digit_char(c) ==> r == Some(spec_digit_val(c) as u32),
        !is_digit_char(c) ==> r is None,
{
    if c == '0' {
        Some(0)
    } else if c == '1' {
        Some(1)
    } else if c == '2' {
        Some(2)
    } else if c == '3' {
        Some(3)
    } else if c == '4' {
        Some(4)
    } else if c == '5' {
        Some(5)
    } else if c == '6' {
        Some(6)
    } else if c == '7' {
        Some(7)
    } else if c == '8' {
        Some(8)
    } else if c == '9' {
        Some(9)
    } else {
        None
    }
}

/// Parse the typed buffer with plain `i32` parse semantics: a
/// non-empty all-digit string within `i32` range yields its value, anything
/// else (empty, non-numeric, out of range) yields nothing.
pub fn parse_answer(digits: &Vec<char>) -> (r: Option<i32>)
    ensures
        spec_parse_answer(digits@) matches Some(v) ==> r == Some(v as i32),
        spec_parse_answer(digits@) is None ==> r is None,
{
    let n = digits.len();
    if n == 0 {
        return None;
    }
    let mut acc: u64 = 0;
    let mut k: usize = 0;
    while k < n
        invariant
            n == digits@.len(),
            0 <= k <= n,
            all_digits(digits@.take(k as int)),
            acc == spec_digits_value(digits@.take(k as int)),
            acc <= i32::MAX as u64,
        decreases n - k,
    {
        let c = digits[k];
        let d = match digit_val(c) {
            Some(d) => d,
            None => {
                proof {
                    assert(!is_digit_char(digits@[k as int]));
                    assert(!all_digits(digits@));
                }
                return None;
            },
        };
        acc = acc * 10 + d as u64;
        proof {
            let taken = digits@.take(k + 1 as int);
            assert(taken.drop_last() =~= digits@.take(k as int));
            assert(taken.last() == digits@[k as int]);
        }
        if acc > i32::MAX as u64 {
            proof {
                if all_digits(digits@) {
                    lemma_digits_value_bounds(digits@, k + 1 as int);
                }
            }
            return None;
        }
        k = k + 1;
    }
    proof {
        assert(digits@.take(n as int) =~= digits@);
    }
    Some(acc as i32)
}

/// The alien at an index answers the submitted value: it is alive and its
/// stored answer equals the value.
pub open spec fn spec_answer_matches(a: Alien, n: int) -> bool {
    a.state == AlienState::Alive && a.answer == n
}

/// The whole simulation: the alien fleet, the scrolling background, at most
/// one targeting beam, and the digits typed since the last submit.
pub struct MainState {
    pub aliens: Vec<Alien>,
    pub background: Background,
    pub target: Option<Target>,
    /// Digit characters typed since the last submit or clear.
    pub input: Vec<char>,
}

impl MainState {
    /// Well-formed simulation: every alien is well formed, the background
    /// layers are well formed, the typed buffer holds only digits, and a
    /// live target always references an alien that is no longer alive.
    pub open spec fn wf(self) -> bool {
        &&& forall|i: int| 0 <= i < self.aliens@.len() ==> (#[trigger] self.aliens@[i]).wf()
        &&& self.background.wf()
        &&& forall|i: int| 0 <= i < self.input@.len() ==> is_digit_char(#[trigger] self.input@[i])
        &&& match self.target {
            None => true,
            Some(t) => t.index < self.aliens@.len() && self.aliens@[t.index as int].state
                != AlienState::Alive,
        }
    }

    /// Start a level: spawn its aliens from the given generator; no beam,
    /// empty input, background at the start of its cycles.
    pub fn new(level: &LevelSpec, rng: &mut rand::rngs::ThreadRng) -> (s: MainState)
        requires
            level.wf(),
        ensures
            s.wf(),
            s.aliens@.len() == level.num_ships,
            forall|i: int|
                0 <= i < s.aliens@.len() ==> spec_generated_alien(
                    #[trigger] s.aliens@[i],
                    *level,
                    i,
                ),
            s.background == Background::initial(),
            s.target is None,
            s.input@ =~= Seq::<char>::empty(),
    {
        MainState {
            aliens: gen_aliens(level, rng),
            background: Background::new(),
            target: None,
            input: Vec::new(),
        }
    }

    /// A typed character: a digit is appended to the buffer, anything else
    /// is ignored.
    pub fn push_digit(&mut self, c: char)
        requires
            old(self).wf(),
        ensures
            final(self).wf(),
            is_digit_char(c) ==> final(self).input@ == old(self).input@.push(c),
            !is_digit_char(c) ==> final(self).input@ == old(self).input@,
            final(self).aliens == old(self).aliens,
            final(self).background == old(self).background,
            final(self).target == old(self).target,
    {
        match digit_val(c) {
            Some(_) => self.input.push(c),
            None => (),
        }
    }

    /// A backspace: drop the last typed digit, if any.
    pub fn backspace(&mut self)
        requires
            old(self).wf(),
        ensures
            final(self).wf(),
            final(self).input@ == old(self).input@.drop_last() || (old(self).input@.len() == 0
                && final(self).input@ == old(self).input@),
            old(self).input@.len() > 0 ==> final(self).input@ == old(self).input@.drop_last(),
            final(self).aliens == old(self).aliens,
            final(self).background == old(self).background,
            final(self).target == old(self).target,
    {
        let _ = self.input.pop();
    }

    /// A submit event.  The buffer is parsed as an integer; on success the
    /// first alive alien (in stored list order) whose answer equals it is
    /// ignited and becomes the beam's target, replacing any previous beam.
    /// A parse failure or a miss changes nothing.  The buffer is cleared
    /// either way.  The returned index is the ignited alien's, for the host
    /// to fire the explosion audio cue.
    pub fn submit_answer(&mut self) -> (fired: Option<usize>)
        requires
            old(self).wf(),
        ensures
            final(self).wf(),
            final(self).input@ =~= Seq::<char>::empty(),
            final(self).background == old(self).background,
            final(self).aliens@.len() == old(self).aliens@.len(),
            ({
                let aliens0 = old(self).aliens@;
                match spec_parse_answer(old(self).input@) {
                    Some(n) => match fired {
                        Some(i) => {
                            &&& i < aliens0.len()
                            &&& spec_answer_matches(aliens0[i as int], n)
                            &&& forall|j: int|
                                0 <= j < i ==> !spec_answer_matches(#[trigger] aliens0[j], n)
                            &&& final(self).aliens@ == aliens0.update(
                                i as int,
                                spec_ignited(aliens0[i as int]),
                            )
                            &&& final(self).target == Some(
                                Target { index: i, remaining_ms: EXPLOSION_DURATION_MS },
                            )
                        },
                        None => {
                            &&& forall|j: int|
                                0 <= j < aliens0.len() ==> !spec_answer_matches(
                                    #[trigger] aliens0[j],
                                    n,
                                )
                            &&& final(self).aliens@ == aliens0
                            &&& final(self).target == old(self).target
                        },
                    },
                    None => {
                        &&& fired is None
                        &&& final(self).aliens@ == aliens0
                        &&& final(self).target == old(self).target
                    },
                }
            }),
    {
        let parsed = parse_answer(&self.input);
        self.input.clear();
        let n = match parsed {
            Some(n) => n,
            None => {
                return None;
            },
        };
        proof {
            let s = old(self).input@;
            if spec_parse_answer(s) is Some {
                lemma_digits_value_bounds(s, s.len() as int);
                assert(s.take(s.len() as int) =~= s);
            }
        }
        let len = self.aliens.len();
        let mut i: usize = 0;
        while i < len
            invariant
                len == self.aliens@.len(),
                0 <= i <= len,
                old(self).wf(),
                self.aliens == old(self).aliens,
                self.background == old(self).background,
                self.target == old(self).target,
                self.input@ =~= Seq::<char>::empty(),
                spec_parse_answer(old(self).input@) == Some(n as int),
                forall|j: int|
                    0 <= j < i ==> !spec_answer_matches(#[trigger] self.aliens@[j], n as int),
            decreases len - i,
        {
            let hit = {
                let a = &self.aliens[i];
                a.answer == n && a.state == AlienState::Alive
            };
            if hit {
                let mut ignited = self.aliens.remove(i);
                ignited.state = AlienState::Exploding;
                self.aliens.insert(i, ignited);
                self.target = Some(Target { index: i, remaining_ms: EXPLOSION_DURATION_MS });
                proof {
                    assert(self.aliens@ =~= old(self).aliens@.update(
                        i as int,
                        spec_ignited(old(self).aliens@[i as int]),
                    ));
                    assert forall|j: int|
                        0 <= j < self.aliens@.len() implies (#[trigger] self.aliens@[j]).wf() by {
                        assert(old(self).aliens@[j].wf());
                    }
                }
                return Some(i);
            }
            i = i + 1;
        }
        proof {
            assert forall|j: int|
                0 <= j < self.aliens@.len() implies (#[trigger] self.aliens@[j]).wf() by {
                assert(old(self).aliens@[j].wf());
            }
        }
        None
    }

    /// One simulation tick: every alien advances (and may die), then the
    /// background scrolls, then the beam countdown runs and the beam is
    /// cleared the moment it would fall below zero.
    pub fn update(&mut self, dt_ms: u32)
        requires
            old(self).wf(),
            dt_ms <= MAX_TICK_MS,
        ensures
            final(self).wf(),
            final(self).aliens@.len() == old(self).aliens@.len(),
            forall|i: int|
                0 <= i < old(self).aliens@.len() ==> final(self).aliens@[i]
                    == spec_alien_updated(#[trigger] old(self).aliens@[i], dt_ms),
            final(self).background == spec_background_updated(old(self).background, dt_ms),
            final(self).target == spec_target_ticked(old(self).target, dt_ms),
            final(self).input == old(self).input,
    {
        let len = self.aliens.len();
        let mut i: usize = 0;
        while i < len
            invariant
                len == self.aliens@.len(),
                len == old(self).aliens@.len(),
                0 <= i <= len,
                dt_ms <= MAX_TICK_MS,
                self.background == old(self).background,
                self.target == old(self).target,
                self.input == old(self).input,
                forall|j: int| i <= j < len ==> self.aliens@[j] == old(self).aliens@[j],
                forall|j: int| 0 <= j < len ==> (#[trigger] old(self).aliens@[j]).wf(),
                forall|j: int| 0 <= j < i ==> (#[trigger] self.aliens@[j]).wf(),
                forall|j: int|
                    0 <= j < i ==> self.aliens@[j] == spec_alien_updated(
                        #[trigger] old(self).aliens@[j],
                        dt_ms,
                    ),
            decreases len - i,
        {
            let mut a = self.aliens.remove(i);
            let ghost before = self.aliens@;
            a.update(dt_ms);
            self.aliens.insert(i, a);
            proof {
                assert(self.aliens@ =~= before.insert(i as int, a));
                assert forall|j: int|
                    0 <= j < i + 1 implies self.aliens@[j] == spec_alien_updated(
                    #[trigger] old(self).aliens@[j],
                    dt_ms,
                ) by {}
            }
            i = i + 1;
        }
        self.background.update(dt_ms);
        match self.target {
            None => {},
            Some(t) => {
                if dt_ms > t.remaining_ms {
                    self.target = None;
                } else {
                    self.target = Some(
                        Target { index: t.index, remaining_ms: t.remaining_ms - dt_ms },
                    );
                }
            },
        }
        proof {
            match self.target {
                None => {},
                Some(t) => {
                    let a0 = old(self).aliens@[t.index as int];
                    assert(self.aliens@[t.index as int] == spec_alien_updated(a0, dt_ms));
                    assert(spec_alien_updated(a0, dt_ms).state != AlienState::Alive);
                },
            }
        }
    }

    /// The beam's endpoints in pixels, turret muzzle to targeted alien, when
    /// a beam is live.
    pub fn laser_endpoints(&self, screen_w: u32, screen_h: u32) -> (r: Option<
        ((i64, i64), (i64, i64)),
    >)
        requires
            self.wf(),
            screen_w <= MAX_SCREEN_PX,
            screen_h <= MAX_SCREEN_PX,
        ensures
            match self.target {
                None => r is None,
                Some(t) => {
                    let a = self.aliens@[t.index as int];
                    r matches Some(p) && {
                        &&& p.0.0 == spec_scaled(TURRET_X as int, screen_w as int)
                        &&& p.0.1 == spec_scaled(TURRET_Y as int, screen_h as int)
                        &&& p.1.0 == spec_scaled(a.pos_x as int, screen_w as int)
                        &&& p.1.1 == spec_scaled(a.pos_y as int, screen_h as int)
                    }
                },
            },
    {
        match self.target {
            None => None,
            Some(t) => {
                let turret = turret_screen_pos(screen_w, screen_h);
                let alien_pos = self.aliens[t.index].screen_pos(screen_w, screen_h);
                Some((turret, alien_pos))
            },
        }
    }
}

/// The turret's position in pixels on a screen of the given dimensions.
pub fn turret_screen_pos(screen_w: u32, screen_h: u32) -> (p: (i64, i64))
    requires
        screen_w <= MAX_SCREEN_PX,
        screen_h <= MAX_SCREEN_PX,
    ensures
        p.0 == spec_scaled(TURRET_X as int, screen_w as int),
        p.1 == spec_scaled(TURRET_Y as int, screen_h as int),
{
    (scale_to_pixels(TURRET_X, screen_w), scale_to_pixels(TURRET_Y, screen_h))
}

} // verus!
