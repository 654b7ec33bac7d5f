//! Points, vectors and boxes of the plane, in fixed-point coordinates.

use vstd::prelude::*;
use crate::fixed::sat;
use crate::fixed::mul_spec;
use crate::fixed::mul_div_spec;
use crate::fixed::hypot_spec;
use crate::fixed::fx_add;
use crate::fixed::fx_sub;
use crate::fixed::fx_neg;
use crate::fixed::fx_mul;
use crate::fixed::mul_div;
use crate::fixed::mul_div_wide;
use crate::fixed::hypot_exact;
use crate::fixed::hypot;
use crate::fixed::ONE;
use crate::fixed::lemma_mul_div_odd;
use crate::fixed::lemma_sqrt_exists;
use crate::fixed::lemma_trunc_div_error;
use crate::fixed::is_sqrt;
use crate::fixed::isqrt;
use crate::fixed::trunc_div;
use crate::fixed::LIMIT;

verus! {

/// A point or a displacement of the plane.
#[derive(Clone, Copy, Debug, PartialEq, Eq, Structural)]
pub struct Vec2 {
    pub x: i64,
    pub y: i64,
}

/// The vector with the given coordinates, each of which fits the fixed-point range.
pub open spec fn vec2(x: int, y: int) -> Vec2 {
    Vec2 { x: x as i64, y: y as i64 }
}

/// The origin.
pub open spec fn origin() -> Vec2 {
    Vec2 { x: 0, y: 0 }
}

/// The saturating sum of two vectors.
pub open spec fn v_add(a: Vec2, b: Vec2) -> Vec2 {
    vec2(sat(a.x + b.x), sat(a.y + b.y))
}

/// The saturating difference of two vectors.
pub open spec fn v_sub(a: Vec2, b: Vec2) -> Vec2 {
    vec2(sat(a.x - b.x), sat(a.y - b.y))
}

/// The opposite vector.
pub open spec fn v_neg(a: Vec2) -> Vec2 {
    vec2(sat(-a.x), sat(-a.y))
}

/// The vector `a` with both coordinates multiplied by the fixed-point factor `k`.
pub open spec fn v_scale(a: Vec2, k: int) -> Vec2 {
    vec2(mul_spec(a.x as int, k), mul_spec(a.y as int, k))
}

/// The vector `a` with both coordinates multiplied by `n / d`.
pub open spec fn v_mul_div(a: Vec2, n: int, d: int) -> Vec2 {
    vec2(mul_div_spec(a.x as int, n, d), mul_div_spec(a.y as int, n, d))
}

/// The length of `a`, rounded down and saturated.
pub open spec fn v_len(a: Vec2) -> int {
    hypot_spec(a.x as int, a.y as int)
}

/// The length of `a`, rounded down, whether or not it fits a fixed-point
/// number.
pub open spec fn v_true_len(a: Vec2) -> int {
    isqrt(a.x * a.x + a.y * a.y)
}

/// The vector of length one that points where `a` points, or the origin
/// where `a` has no length.
pub open spec fn v_unit(a: Vec2) -> Vec2 {
    if v_len(a) > 0 {
        v_mul_div(a, ONE as int, v_len(a))
    } else {
        origin()
    }
}

/// Opposite vectors have the same length.
pub proof fn lemma_len_even(a: Vec2, b: Vec2)
    requires
        b.x == -a.x,
        b.y == -a.y,
    ensures
        v_len(a) == v_len(b),
{
    assert(a.x * a.x == b.x * b.x) by (nonlinear_arith)
        requires
            b.x == -a.x,
    ;
    assert(a.y * a.y == b.y * b.y) by (nonlinear_arith)
        requires
            b.y == -a.y,
    ;
}

/// Multiplying the opposite vector by `n / d` gives the opposite result.
pub proof fn lemma_mul_div_opposite(a: Vec2, b: Vec2, n: int, d: int)
    requires
        b.x == -a.x,
        b.y == -a.y,
        d > 0,
    ensures
        v_mul_div(b, n, d).x == -v_mul_div(a, n, d).x,
        v_mul_div(b, n, d).y == -v_mul_div(a, n, d).y,
{
    lemma_mul_div_odd(a.x as int, n, d);
    lemma_mul_div_odd(a.y as int, n, d);
}

/// The shortest vector whose unit vector has length one to a few millionths:
/// rounding the length down stretches the unit vector by up to one part in
/// the length.
pub const MIN_DIRECTED_LENGTH: i64 = 1_000_000;

/// For `a` and `b` not negative and `len` the rounded length of `(a, b)`,
/// at least a million: the squares of `a / len` and `b / len`, as
/// fixed-point numbers, add up to one, give or take a few millionths.
proof fn lemma_unit_squares(a: int, b: int, len: int)
    requires
        0 <= a,
        0 <= b,
        1_000_000 <= len,
        is_sqrt(a * a + b * b, len),
    ensures
        ({
            let p = trunc_div(a * ONE, len);
            let q = trunc_div(b * ONE, len);
            &&& 0 <= p <= ONE
            &&& 0 <= q <= ONE
            &&& (ONE - 3) * (ONE - 3) <= p * p + q * q
            &&& p * p + q * q < (ONE + 1) * (ONE + 1)
        }),
{
    let one = ONE as int;
    let n = a * a + b * b;
    let p = trunc_div(a * one, len);
    let q = trunc_div(b * one, len);
    assert(0 <= a * one && 0 <= b * one) by (nonlinear_arith)
        requires
            0 <= a,
            0 <= b,
            one == 1_000_000,
    ;
    lemma_trunc_div_error(a * one, len);
    lemma_trunc_div_error(b * one, len);
    // a and b are at most len
    assert(a <= len && b <= len) by (nonlinear_arith)
        requires
            0 <= a,
            0 <= b,
            0 <= len,
            a * a + b * b < (len + 1) * (len + 1),
    ;
    assert(p <= one && q <= one) by (nonlinear_arith)
        requires
            len > 0,
            a <= len,
            b <= len,
            one == 1_000_000,
            len * p <= a * one,
            len * q <= b * one,
    ;
    let ll = len * len;
    let oo = one * one;
    let m = p * p + q * q;
    assert(ll >= 1 && oo == 1_000_000_000_000) by (nonlinear_arith)
        requires
            ll == len * len,
            oo == one * one,
            len >= 1_000_000,
            one == 1_000_000,
    ;
    assert(ll * m == ll * (p * p) + ll * (q * q)) by (nonlinear_arith)
        requires
            m == p * p + q * q,
    ;
    assert(n * oo == (a * a) * oo + (b * b) * oo) by (nonlinear_arith)
        requires
            n == a * a + b * b,
    ;
    assert((a * a) * oo == (a * one) * (a * one)) by (nonlinear_arith)
        requires
            oo == one * one,
    ;
    assert((b * b) * oo == (b * one) * (b * one)) by (nonlinear_arith)
        requires
            oo == one * one,
    ;
    // from above
    assert(ll * (p * p) == (len * p) * (len * p)) by (nonlinear_arith)
        requires
            ll == len * len,
    ;
    assert(ll * (q * q) == (len * q) * (len * q)) by (nonlinear_arith)
        requires
            ll == len * len,
    ;
    assert(0 <= len * p && 0 <= len * q) by (nonlinear_arith)
        requires
            len > 0,
            p >= 0,
            q >= 0,
    ;
    assert((len * p) * (len * p) <= (a * one) * (a * one)) by (nonlinear_arith)
        requires
            0 <= len * p <= a * one,
    ;
    assert((len * q) * (len * q) <= (b * one) * (b * one)) by (nonlinear_arith)
        requires
            0 <= len * q <= b * one,
    ;
    assert(ll * m <= n * oo);
    let top = (one + 1) * (one + 1);
    assert(n * oo < ((len + 1) * (len + 1)) * oo) by (nonlinear_arith)
        requires
            n < (len + 1) * (len + 1),
            oo > 0,
    ;
    let grown = (len + 1) * one;
    let wide = len * (one + 1);
    assert(0 <= grown <= wide) by (nonlinear_arith)
        requires
            grown == (len + 1) * one,
            wide == len * (one + 1),
            len >= one,
            one == 1_000_000,
    ;
    assert(grown * grown <= wide * wide) by (nonlinear_arith)
        requires
            0 <= grown <= wide,
    ;
    assert(grown * grown == ((len + 1) * (len + 1)) * oo) by (nonlinear_arith)
        requires
            grown == (len + 1) * one,
            oo == one * one,
    ;
    assert(wide * wide == ll * top) by (nonlinear_arith)
        requires
            wide == len * (one + 1),
            ll == len * len,
            top == (one + 1) * (one + 1),
    ;
    assert(m < top) by (nonlinear_arith)
        requires
            ll >= 1,
            ll * m < ll * top,
    ;
    // from below
    let p_up = p + 1;
    let q_up = q + 1;
    let m_up = p_up * p_up + q_up * q_up;
    assert(ll * m_up == ll * (p_up * p_up) + ll * (q_up * q_up)) by (nonlinear_arith)
        requires
            m_up == p_up * p_up + q_up * q_up,
    ;
    assert(ll * (p_up * p_up) == (len * p_up) * (len * p_up)) by (nonlinear_arith)
        requires
            ll == len * len,
    ;
    assert(ll * (q_up * q_up) == (len * q_up) * (len * q_up)) by (nonlinear_arith)
        requires
            ll == len * len,
    ;
    assert(len * p_up == len * p + len && len * q_up == len * q + len) by (nonlinear_arith)
        requires
            p_up == p + 1,
            q_up == q + 1,
    ;
    assert((a * one) * (a * one) < (len * p_up) * (len * p_up)) by (nonlinear_arith)
        requires
            0 <= a * one < len * p_up,
    ;
    assert((b * one) * (b * one) < (len * q_up) * (len * q_up)) by (nonlinear_arith)
        requires
            0 <= b * one < len * q_up,
    ;
    assert(n * oo < ll * m_up);
    assert(ll * oo <= n * oo) by (nonlinear_arith)
        requires
            ll <= n,
            oo > 0,
    ;
    assert(oo < m_up) by (nonlinear_arith)
        requires
            ll >= 1,
            ll * oo < ll * m_up,
    ;
    assert(m_up == m + 2 * (p + q) + 2) by (nonlinear_arith)
        requires
            m == p * p + q * q,
            m_up == p_up * p_up + q_up * q_up,
            p_up == p + 1,
            q_up == q + 1,
    ;
}

/// A vector of length `MIN_DIRECTED_LENGTH` or more has a unit vector of
/// length one, less three millionths at most.
pub proof fn lemma_unit_length(a: Vec2)
    requires
        MIN_DIRECTED_LENGTH <= v_len(a) < LIMIT,
    ensures
        ONE - 3 <= v_len(v_unit(a)) <= ONE,
        -ONE <= v_unit(a).x <= ONE,
        -ONE <= v_unit(a).y <= ONE,
{
    let one = ONE as int;
    let x = a.x as int;
    let y = a.y as int;
    let ax = if x >= 0 {
        x
    } else {
        -x
    };
    let ay = if y >= 0 {
        y
    } else {
        -y
    };
    assert(x * x == ax * ax && y * y == ay * ay) by (nonlinear_arith)
        requires
            ax == x || ax == -x,
            ay == y || ay == -y,
    ;
    assert(0 <= x * x + y * y) by (nonlinear_arith);
    lemma_sqrt_exists(x * x + y * y);
    let len = isqrt(x * x + y * y);
    assert(len == v_len(a));
    lemma_unit_squares(ax, ay, len);
    let p = trunc_div(ax * one, len);
    let q = trunc_div(ay * one, len);
    assert((-ax) * one == -(ax * one) && (-ay) * one == -(ay * one)) by (nonlinear_arith);
    crate::fixed::lemma_trunc_div_odd(ax * one, len);
    crate::fixed::lemma_trunc_div_odd(ay * one, len);
    let u = v_unit(a);
    assert(u.x == p || u.x == -p);
    assert(u.y == q || u.y == -q);
    assert(u.x * u.x == p * p && u.y * u.y == q * q) by (nonlinear_arith)
        requires
            u.x == p || u.x == -p,
            u.y == q || u.y == -q,
    ;
    let m = p * p + q * q;
    assert(0 <= m) by (nonlinear_arith)
        requires
            m == p * p + q * q,
    ;
    lemma_sqrt_exists(m);
    let root = isqrt(m);
    assert(root >= one - 3) by (nonlinear_arith)
        requires
            0 <= root,
            one == 1_000_000,
            (one - 3) * (one - 3) <= m,
            m < (root + 1) * (root + 1),
    ;
    assert(root <= one) by (nonlinear_arith)
        requires
            0 <= root,
            one == 1_000_000,
            root * root <= m,
            m < (one + 1) * (one + 1),
    ;
}

impl Vec2 {
    /// The vector with the given coordinates.
    pub fn new(x: i64, y: i64) -> (v: Vec2)
        ensures
            v == (Vec2 { x, y }),
    {
        Vec2 { x, y }
    }

    /// The origin.
    pub fn zero() -> (v: Vec2)
        ensures
            v == origin(),
    {
        Vec2 { x: 0, y: 0 }
    }

    /// The vector whose coordinates both are `v`.
    pub fn splat(v: i64) -> (r: Vec2)
        ensures
            r == (Vec2 { x: v, y: v }),
    {
        Vec2 { x: v, y: v }
    }

    /// The horizontal vector of the given length.
    pub fn from_x(x: i64) -> (v: Vec2)
        ensures
            v == (Vec2 { x, y: 0 }),
    {
        Vec2 { x, y: 0 }
    }

    /// The saturating sum.
    pub fn plus(self, other: Vec2) -> (r: Vec2)
        ensures
            r == v_add(self, other),
    {
        Vec2 { x: fx_add(self.x, other.x), y: fx_add(self.y, other.y) }
    }

    /// The saturating difference.
    pub fn minus(self, other: Vec2) -> (r: Vec2)
        ensures
            r == v_sub(self, other),
    {
        Vec2 { x: fx_sub(self.x, other.x), y: fx_sub(self.y, other.y) }
    }

    /// The opposite vector.
    pub fn negated(self) -> (r: Vec2)
        ensures
            r == v_neg(self),
    {
        Vec2 { x: fx_neg(self.x), y: fx_neg(self.y) }
    }

    /// This vector multiplied by the fixed-point factor `k`.
    pub fn scaled(self, k: i64) -> (r: Vec2)
        ensures
            r == v_scale(self, k as int),
    {
        Vec2 { x: fx_mul(self.x, k), y: fx_mul(self.y, k) }
    }

    /// This vector multiplied by `n / d`.
    pub fn times_ratio(self, n: i64, d: i64) -> (r: Vec2)
        requires
            d > 0,
        ensures
            r == v_mul_div(self, n as int, d as int),
    {
        Vec2 { x: mul_div(self.x, n, d), y: mul_div(self.y, n, d) }
    }

    /// This vector multiplied by `n / d`, for a divisor that may be wider
    /// than a fixed-point number.
    pub fn times_wide_ratio(self, n: i64, d: u64) -> (r: Vec2)
        requires
            d > 0,
        ensures
            r == v_mul_div(self, n as int, d as int),
    {
        Vec2 { x: mul_div_wide(self.x, n, d), y: mul_div_wide(self.y, n, d) }
    }

    /// The length, rounded down, whether or not it fits a fixed-point number.
    pub fn true_length(self) -> (r: u64)
        ensures
            r == v_true_len(self),
    {
        hypot_exact(self.x, self.y)
    }

    /// The length, rounded down and saturated.
    pub fn length(self) -> (r: i64)
        ensures
            r == v_len(self),
            r >= 0,
    {
        hypot(self.x, self.y)
    }

    /// The vector of length one that points where this one points, or the
    /// origin where this one has no length.
    pub fn normalized(self) -> (r: Vec2)
        ensures
            r == v_unit(self),
    {
        let len: i64 = self.length();
        if len > 0 {
            self.times_ratio(ONE, len)
        } else {
            Vec2::zero()
        }
    }
}

/// A box with sides along the axes, borders included.
#[derive(Clone, Copy, Debug, PartialEq, Eq, Structural)]
pub struct Aabb2 {
    pub min: Vec2,
    pub max: Vec2,
}

/// The coordinate `x`, held to the range of `i64`.
pub open spec fn within_range(x: int) -> int {
    if x > i64::MAX {
        i64::MAX as int
    } else if x < i64::MIN {
        i64::MIN as int
    } else {
        x
    }
}

/// The box that reaches `extents` to each side of `center`, as far as
/// coordinates go.
pub open spec fn box_around(center: Vec2, extents: Vec2) -> Aabb2 {
    Aabb2 {
        min: vec2(within_range(center.x - extents.x), within_range(center.y - extents.y)),
        max: vec2(within_range(center.x + extents.x), within_range(center.y + extents.y)),
    }
}

/// A box around a point holds the point.
pub proof fn lemma_box_holds_center(center: Vec2, extents: Vec2)
    requires
        0 <= extents.x,
        0 <= extents.y,
    ensures
        box_contains(box_around(center, extents), center),
{
}

/// Whether `p` lies in `b` or on its border.
pub open spec fn box_contains(b: Aabb2, p: Vec2) -> bool {
    b.min.x <= p.x <= b.max.x && b.min.y <= p.y <= b.max.y
}

/// Holds a wide coordinate to the range of `i64`.
fn hold(x: i128) -> (r: i64)
    ensures
        r == within_range(x as int),
{
    if x > i64::MAX as i128 {
        i64::MAX
    } else if x < i64::MIN as i128 {
        i64::MIN
    } else {
        x as i64
    }
}

impl Aabb2 {
    /// The box that reaches `extents` to each side of `center`.
    pub fn around_point(center: Vec2, extents: Vec2) -> (b: Aabb2)
        ensures
            b == box_around(center, extents),
    {
        Aabb2 {
            min: Vec2 {
                x: hold(center.x as i128 - extents.x as i128),
                y: hold(center.y as i128 - extents.y as i128),
            },
            max: Vec2 {
                x: hold(center.x as i128 + extents.x as i128),
                y: hold(center.y as i128 + extents.y as i128),
            },
        }
    }

    /// Whether `p` lies in this box or on its border.
    pub fn contains_point(&self, p: Vec2) -> (inside: bool)
        ensures
            inside == box_contains(*self, p),
    {
        self.min.x <= p.x && p.x <= self.max.x && self.min.y <= p.y && p.y <= self.max.y
    }
}

} // verus!
