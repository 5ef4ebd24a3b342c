//! The quadratic-equation quiz: integer equations with verified root
//! computation.
//!
//! An equation `ax² + bx + c = 0` is built either from raw coefficients or
//! from two intended roots, and `calculate` returns the truncated integer
//! roots exactly as specified by `spec_roots`. Randomness comes from the
//! generator of an outside crate through two trusted wrappers; everything
//! decided from the drawn values is verified, including that a freshly
//! created question always has a non-zero leading coefficient and stays
//! within the bounds `calculate` needs.

use vstd::prelude::*;
use rand::rngs::StdRng;
use rand::RngExt;

pub mod particle_effects;

verus! {

/// An integer quadratic equation `ax² + bx + c = 0`.
#[derive(Debug, Clone, Copy, PartialEq, Eq, Structural)]
pub struct QuadraticEquation {
    pub a: i64,
    pub b: i64,
    pub c: i64,
}

/// The discriminant `b² - 4ac`.
pub open spec fn discriminant(q: QuadraticEquation) -> int {
    q.b * q.b - 4 * q.a * q.c
}

/// Rust's truncating integer division (toward zero), as a mathematical
/// function.
pub open spec fn trunc_div(x: int, d: int) -> int {
    if x == 0 {
        0
    } else if x > 0 && d > 0 {
        x / d
    } else if x < 0 && d < 0 {
        ((x * -1) / (d * -1))
    } else if x < 0 {
        ((x * -1) / d) * -1
    } else {
        (x / (d * -1)) * -1
    }
}

/// Whether `s` is the floor of the square root of `n`.
pub open spec fn is_isqrt(s: int, n: int) -> bool {
    0 <= s && s * s <= n < (s + 1) * (s + 1)
}

/// The floor of the square root of a non-negative number.
pub open spec fn floor_sqrt(n: int) -> int {
    choose|s: int| is_isqrt(s, n)
}

/// The floor square root is unique, so any witness equals `floor_sqrt`.
pub proof fn lemma_isqrt_unique(s: int, n: int)
    requires
        is_isqrt(s, n),
    ensures
        floor_sqrt(n) == s,
{
    let t = floor_sqrt(n);
    assert(is_isqrt(t, n));
    assert(s == t) by (nonlinear_arith)
        requires
            is_isqrt(s, n),
            is_isqrt(t, n),
    ;
}

/// Truncating division never grows the magnitude of its dividend.
proof fn lemma_trunc_div_in_range(x: int, d: int)
    requires
        d != 0,
        -(i64::MAX as int) <= x <= i64::MAX,
    ensures
        -(i64::MAX as int) <= trunc_div(x, d) <= i64::MAX,
{
    if x == 0 {
    } else if x > 0 && d > 0 {
        vstd::arithmetic::div_mod::lemma_div_pos_is_pos(x, d);
        vstd::arithmetic::div_mod::lemma_div_nonincreasing(x, d);
    } else if x < 0 && d < 0 {
        vstd::arithmetic::div_mod::lemma_div_pos_is_pos(x * -1, d * -1);
        vstd::arithmetic::div_mod::lemma_div_nonincreasing(x * -1, d * -1);
    } else if x < 0 {
        vstd::arithmetic::div_mod::lemma_div_pos_is_pos(x * -1, d);
        vstd::arithmetic::div_mod::lemma_div_nonincreasing(x * -1, d);
    } else {
        vstd::arithmetic::div_mod::lemma_div_pos_is_pos(x, d * -1);
        vstd::arithmetic::div_mod::lemma_div_nonincreasing(x, d * -1);
    }
}

/// The truncated integer roots of an equation, or nothing when the
/// discriminant is negative (no real roots). For a zero discriminant both
/// roots coincide; the general formula gives exactly that, since the square
/// root of zero is zero.
pub open spec fn spec_roots(q: QuadraticEquation) -> Option<(int, int)> {
    let d = discriminant(q);
    if d < 0 {
        Option::None
    } else {
        let s = floor_sqrt(d);
        Option::Some(
            (trunc_div(-q.b + s, 2 * q.a), trunc_div(-q.b - s, 2 * q.a)),
        )
    }
}

/// Whether an equation is `a(x - x1)(x - x2) = 0` expanded: built from the
/// two given roots.
pub open spec fn built_from_roots(q: QuadraticEquation, x1: int, x2: int) -> bool {
    q.b == -(q.a as int) * (x1 + x2) && q.c == q.a * x1 * x2
}

/// Coefficient bounds that a generated question satisfies and that keep
/// every step of `calculate` inside `i64`.
pub open spec fn question_in_range(q: QuadraticEquation) -> bool {
    1 <= q.a <= 10 && -2000 <= q.b <= 2000 && -100000 <= q.c <= 100000
}

// ---------------------------------------------------------------------------
// Trusted wrappers around the outside crates
// ---------------------------------------------------------------------------

/// Relies on num's integer `Roots::sqrt`: the truncated principal square
/// root of a non-negative number, `r² ≤ x < (r+1)²`. It panics on a
/// negative input, which the precondition excludes.
#[verifier::external_body]
fn i64_sqrt(x: i64) -> (r: i64)
    requires
        0 <= x,
    ensures
        is_isqrt(r as int, x as int),
{
    num::integer::Roots::sqrt(&x)
}

#[verifier::external_type_specification]
#[verifier::external_body]
pub struct ExStdRng(StdRng);

/// Relies on rand's `make_rng`: a standard generator seeded from the
/// system's one. Nothing can be promised of its state; it aborts only if
/// the operating system cannot supply entropy at all.
#[verifier::external_body]
fn rng_from_system() -> StdRng {
    rand::make_rng()
}

/// Relies on rand's `random_range` over an inclusive range: a value between
/// the two bounds. It panics on an empty range, which the precondition
/// excludes; nothing more than the bounds holds of any one outcome.
#[verifier::external_body]
fn rng_range_i64(rng: &mut StdRng, lo: i64, hi: i64) -> (r: i64)
    requires
        lo <= hi,
    ensures
        lo <= r <= hi,
{
    rng.random_range(lo..=hi)
}

// ---------------------------------------------------------------------------
// The equation
// ---------------------------------------------------------------------------

impl QuadraticEquation {
    /// Build an equation from raw coefficients; a zero leading coefficient
    /// is rejected, it would not be quadratic.
    pub fn new(a: i64, b: i64, c: i64) -> (r: Option<Self>)
        ensures
            a == 0 ==> r is None,
            a != 0 ==> r == Some(QuadraticEquation { a, b, c }),
    {
        if a == 0 {
            return None;
        }
        Some(Self { a, b, c })
    }

    /// Build the equation `a(x - x1)(x - x2) = 0` from its intended roots:
    /// coefficients `a`, `-a(x1 + x2)` and `a·x1·x2`. The bounds only keep
    /// each product inside `i64`.
    pub fn from_x_and_a(x1: i64, x2: i64, a: i64) -> (r: Option<Self>)
        requires
            i64::MIN <= x1 + x2 <= i64::MAX,
            i64::MIN <= -(a as int) <= i64::MAX,
            i64::MIN <= -(a as int) * (x1 + x2) <= i64::MAX,
            i64::MIN <= a * x1 <= i64::MAX,
            i64::MIN <= a * x1 * x2 <= i64::MAX,
        ensures
            a == 0 ==> r is None,
            a != 0 ==> (r matches Some(q) && q.a == a && q.b == -(a as int) * (x1 + x2)
                && q.c == a * x1 * x2),
    {
        Self::new(a, (-a) * (x1 + x2), a * x1 * x2)
    }

    /// The truncated integer roots, or `None` when the discriminant is
    /// negative. The bounds keep the discriminant computation inside `i64`;
    /// a zero leading coefficient is excluded, the division would panic.
    pub fn calculate(&self) -> (r: Option<(i64, i64)>)
        requires
            self.a != 0,
            i64::MIN <= self.b * self.b <= i64::MAX,
            i64::MIN <= 4 * self.a <= i64::MAX,
            i64::MIN <= 4 * self.a * self.c <= i64::MAX,
            i64::MIN <= self.b * self.b - 4 * self.a * self.c <= i64::MAX,
            i64::MIN <= 2 * self.a <= i64::MAX,
        ensures
            discriminant(*self) < 0 ==> r is None,
            discriminant(*self) >= 0 ==> (r matches Some((x1, x2)) && Some((
                x1 as int,
                x2 as int,
            )) == spec_roots(*self)),
    {
        proof {
            assert(-(i64::MAX as int) <= self.b * self.b) by (nonlinear_arith);
            assert(self.b != i64::MIN && i64::MIN <= -(self.b as int) <= i64::MAX
                && -3037000499 <= self.b <= 3037000499) by (nonlinear_arith)
                requires
                    self.b * self.b <= i64::MAX,
            ;
        }
        let b2: i64 = self.b * self.b;
        let four_ac: i64 = 4 * self.a * self.c;
        let delta: i64 = b2 - four_ac;
        if delta < 0 {
            return None;
        }
        let two_a: i64 = 2 * self.a;
        let sqrt_delta: i64 = i64_sqrt(delta);
        proof {
            lemma_isqrt_unique(sqrt_delta as int, delta as int);
            assert(0 <= sqrt_delta <= 3037000499) by (nonlinear_arith)
                requires
                    is_isqrt(sqrt_delta as int, delta as int),
                    delta <= i64::MAX,
            ;
        }
        let minus_b: i64 = -self.b;
        proof {
            lemma_trunc_div_in_range(minus_b + sqrt_delta, two_a as int);
            lemma_trunc_div_in_range(minus_b - sqrt_delta, two_a as int);
        }
        let x1: i64 = match (minus_b + sqrt_delta).checked_div(two_a) {
            Some(v) => v,
            None => {
                proof {
                    assert(false);
                }
                0
            },
        };
        let x2: i64 = match (minus_b - sqrt_delta).checked_div(two_a) {
            Some(v) => v,
            None => {
                proof {
                    assert(false);
                }
                0
            },
        };
        proof {
            assert(x1 as int == trunc_div(minus_b + sqrt_delta, two_a as int));
            assert(x2 as int == trunc_div(minus_b - sqrt_delta, two_a as int));
            assert(floor_sqrt(discriminant(*self)) == sqrt_delta as int);
        }
        Some((x1, x2))
    }
}

// ---------------------------------------------------------------------------
// The quiz
// ---------------------------------------------------------------------------

/// The quiz state: a random generator and the question now posed, if any.
pub struct Game {
    pub rng: StdRng,
    current_question: Option<QuadraticEquation>,
}

impl Game {
    /// The question now posed, if any.
    pub closed spec fn spec_current_question(&self) -> Option<QuadraticEquation> {
        self.current_question
    }

    /// Every question a game ever poses stays in generated range.
    pub open spec fn wf(&self) -> bool {
        self.spec_current_question() matches Some(q) ==> question_in_range(q)
    }

    /// A fresh game with no question posed.
    pub fn new() -> (r: Game)
        ensures
            r.spec_current_question() is None,
            r.wf(),
    {
        Game { rng: rng_from_system(), current_question: None }
    }

    /// Draw two roots in [-100, 100] and a leading coefficient in [1, 10],
    /// build the equation with those roots, and pose it. The drawn
    /// coefficient is never zero, so the construction cannot fail, and the
    /// posed question always supports `calculate`.
    pub fn create_quadratic_equation(&mut self) -> (r: QuadraticEquation)
        ensures
            final(self).spec_current_question() == Some(r),
            question_in_range(r),
            final(self).wf(),
            exists|x1: int, x2: int|
                -100 <= x1 <= 100 && -100 <= x2 <= 100 && #[trigger] built_from_roots(
                    r,
                    x1,
                    x2,
                ),
    {
        let x1 = rng_range_i64(&mut self.rng, -100, 100);
        let x2 = rng_range_i64(&mut self.rng, -100, 100);
        let a = rng_range_i64(&mut self.rng, 1, 10);
        proof {
            assert(-2000 <= -(a as int) * (x1 + x2) <= 2000 && -1000 <= a * x1 <= 1000
                && -100000 <= a * x1 * x2 <= 100000) by (nonlinear_arith)
                requires
                    1 <= a <= 10,
                    -100 <= x1 <= 100,
                    -100 <= x2 <= 100,
            ;
        }
        let result = match QuadraticEquation::from_x_and_a(x1, x2, a) {
            Some(q) => q,
            None => {
                proof {
                    assert(false);
                }
                QuadraticEquation { a: 1, b: 0, c: 0 }
            },
        };
        self.current_question = Some(result.clone());
        proof {
            assert(built_from_roots(result, x1 as int, x2 as int));
        }
        result
    }

    /// The question now posed, if any.
    pub fn current_question(&self) -> (r: Option<&QuadraticEquation>)
        ensures
            r is Some <==> self.spec_current_question() is Some,
            r matches Some(q) ==> self.spec_current_question() == Some(*q),
    {
        self.current_question.as_ref()
    }
}

/// Whether the two offered roots solve the question now posed: true exactly
/// when a question is posed, it has real roots, and the offer matches them
/// in either order.
pub fn is_right(game: &Game, x1: i64, x2: i64) -> (r: bool)
    requires
        game.wf(),
    ensures
        r <==> (game.spec_current_question() matches Some(q) && spec_roots(q) matches Some(
            (r1, r2),
        ) && ((r1 == x1 && r2 == x2) || (r1 == x2 && r2 == x1))),
{
    match game.current_question() {
        Some(equation) => {
            proof {
                lemma_question_supports_calculate(*equation);
            }
            match equation.calculate() {
                Some((r1, r2)) => (r1 == x1 && r2 == x2) || (r1 == x2 && r2 == x1),
                None => false,
            }
        },
        None => false,
    }
}

/// The roots of the question now posed, if a question is posed and it has
/// real roots.
pub fn get_right(game: &Game) -> (r: Option<(i64, i64)>)
    requires
        game.wf(),
    ensures
        match r {
            Some((x1, x2)) => game.spec_current_question() matches Some(q) && spec_roots(q)
                == Some((x1 as int, x2 as int)),
            None => game.spec_current_question() is None || (game.spec_current_question()
                matches Some(q) && spec_roots(q) is None),
        },
{
    match game.current_question() {
        Some(equation) => {
            proof {
                lemma_question_supports_calculate(*equation);
            }
            equation.calculate()
        },
        None => None,
    }
}

/// A question in generated range meets every bound `calculate` asks for.
proof fn lemma_question_supports_calculate(q: QuadraticEquation)
    requires
        question_in_range(q),
    ensures
        q.a != 0,
        i64::MIN <= q.b * q.b <= i64::MAX,
        i64::MIN <= 4 * q.a * q.c <= i64::MAX,
        i64::MIN <= q.b * q.b - 4 * q.a * q.c <= i64::MAX,
        i64::MIN <= 2 * q.a <= i64::MAX,
{
    assert(0 <= q.b * q.b <= 4000000 && -4000000 <= 4 * q.a * q.c <= 4000000)
        by (nonlinear_arith)
        requires
            question_in_range(q),
    ;
}

} // verus!
