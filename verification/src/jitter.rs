//! The random nudge that separates nodes lying on top of each other.

use vstd::prelude::*;
use rand::rngs::StdRng;
use crate::fixed::ONE;
use crate::geometry::Vec2;
use crate::geometry::vec2;
use crate::geometry::v_len;
use crate::geometry::v_unit;
use crate::geometry::lemma_unit_length;
use crate::geometry::MIN_DIRECTED_LENGTH;
use crate::fixed::is_sqrt;
use crate::fixed::isqrt;
use crate::fixed::lemma_sqrt_exists;
use crate::fixed::lemma_sqrt_is;

verus! {

/// `Rng::gen` for `u32`: the generator's next word. It may be any word.
#[verifier::external_body]
pub(crate) fn random_word(rng: &mut StdRng) -> (w: u32) {
    rand::Rng::gen::<u32>(rng)
}

/// The coordinate that a random word stands for, in thousandths of a
/// fixed-point unit: a number between minus and plus a thousand million.
pub open spec fn jitter_coordinate(w: u32) -> int {
    w % 2_000_000_000 - 1_000_000_000
}

/// The direction that two random words stand for: the vector of length one
/// toward the point they name, or along the x axis where that point is too
/// close to the origin to give a direction of length one.
pub open spec fn jitter_spec(draw: (u32, u32)) -> Vec2 {
    let raw = vec2(jitter_coordinate(draw.0), jitter_coordinate(draw.1));
    if v_len(raw) >= MIN_DIRECTED_LENGTH {
        v_unit(raw)
    } else {
        vec2(ONE as int, 0)
    }
}

/// The random push has length one, less three millionths at most.
pub proof fn lemma_jitter_length(draw: (u32, u32))
    ensures
        ONE - 3 <= v_len(jitter_spec(draw)) <= ONE,
        -ONE <= jitter_spec(draw).x <= ONE,
        -ONE <= jitter_spec(draw).y <= ONE,
{
    let raw = vec2(jitter_coordinate(draw.0), jitter_coordinate(draw.1));
    let x = raw.x as int;
    let y = raw.y as int;
    assert(0 <= x * x + y * y <= 2_000_000_000_000_000_000) by (nonlinear_arith)
        requires
            -1_000_000_000 <= x <= 1_000_000_000,
            -1_000_000_000 <= y <= 1_000_000_000,
    ;
    lemma_sqrt_exists(x * x + y * y);
    let len = isqrt(x * x + y * y);
    assert(len <= 2_000_000_000) by (nonlinear_arith)
        requires
            0 <= len,
            len * len <= 2_000_000_000_000_000_000,
    ;
    if v_len(raw) >= MIN_DIRECTED_LENGTH {
        lemma_unit_length(raw);
    } else {
        assert(is_sqrt((ONE as int) * (ONE as int) + 0 * 0, ONE as int));
        lemma_sqrt_is((ONE as int) * (ONE as int) + 0 * 0, ONE as int);
    }
}

/// Turns two random words into a direction.
pub fn jitter_from(draw: (u32, u32)) -> (v: Vec2)
    ensures
        v == jitter_spec(draw),
{
    let x: i64 = (draw.0 % 2_000_000_000) as i64 - 1_000_000_000;
    let y: i64 = (draw.1 % 2_000_000_000) as i64 - 1_000_000_000;
    let raw = Vec2::new(x, y);
    if raw.length() >= MIN_DIRECTED_LENGTH {
        raw.normalized()
    } else {
        Vec2::new(ONE, 0)
    }
}

/// Draws two words from `rng`.
pub fn draw_pair(rng: &mut StdRng) -> (draw: (u32, u32)) {
    let a: u32 = random_word(rng);
    let b: u32 = random_word(rng);
    (a, b)
}

/// A random direction: a vector of length one, less three millionths at most.
pub fn rand_vec(rng: &mut StdRng) -> (v: Vec2)
    ensures
        exists|draw: (u32, u32)| v == jitter_spec(draw),
        ONE - 3 <= v_len(v) <= ONE,
{
    let draw = draw_pair(rng);
    proof {
        lemma_jitter_length(draw);
    }
    jitter_from(draw)
}

} // verus!
