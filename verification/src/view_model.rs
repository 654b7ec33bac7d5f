//! The view of a graph: its layout and the camera that looks at it.

use vstd::prelude::*;
use rand::rngs::StdRng;
use crate::fixed::LIMIT;
use crate::fixed::ONE;
use crate::fixed::mul_div;
use crate::fixed::mul_div_spec;
use crate::fixed::sat;
use crate::fixed::trunc_div;
use crate::fixed::lemma_trunc_div_error;
use crate::geometry::Aabb2;
use crate::geometry::Vec2;
use crate::geometry::box_around;
use crate::geometry::box_contains;
use crate::geometry::origin;
use crate::geometry::vec2;
use crate::geometry::v_add;
use crate::geometry::v_mul_div;
use crate::geometry::v_neg;
use crate::model::Model;
use crate::model::NodeId;
use crate::projection::all_at_origin;
use crate::projection::distinct_ids;
use crate::projection::has_id;
use crate::projection::merge_spec;
use crate::projection::position_in;
use crate::projection::Entry;
use crate::projection::GraphProjection;
use crate::simulation::relax;
use crate::simulation::relaxed;
use crate::simulation::LayoutConfig;

verus! {

/// The side of the square that stands for a node.
pub const NODE_SIZE: i64 = 250_000;

/// Half the side of the square that stands for a node.
pub const NODE_HALF_EXTENT: i64 = 125_000;

/// The number of steps that settle a fresh layout before it is shown.
pub const WARM_START_STEPS: u32 = 200;

/// The number of steps between two frames.
pub const FRAME_STEPS: u32 = 20;

/// The largest zoom, in thirds, to either side: the scale ranges from two to
/// the power -42 to two to the power 42, which is as far as a ratio of two
/// fixed-point numbers carries it.
pub const ZOOM_LIMIT: i32 = 126;

/// Two to the power `n`.
pub open spec fn two_to(n: nat) -> int
    decreases n,
{
    if n == 0 {
        1
    } else {
        2 * two_to((n - 1) as nat)
    }
}

/// Two to the power `r / 3` as a fixed-point number, for `r` below three.
pub open spec fn cube_root_step(r: int) -> int {
    if r == 0 {
        1_000_000
    } else if r == 1 {
        1_259_921
    } else {
        1_587_401
    }
}

/// Whether a camera can have the zoom `zoom`.
pub open spec fn in_zoom_range(zoom: int) -> bool {
    -ZOOM_LIMIT <= zoom <= ZOOM_LIMIT
}

/// The numerator of the scale of a camera with zoom `zoom`. The scale, two
/// to the power `zoom / 3`, is `scale_num_spec(zoom) / scale_den_spec(zoom)`:
/// how many world units one unit of the view covers.
pub open spec fn scale_num_spec(zoom: int) -> int {
    let whole = zoom / 3;
    let step = cube_root_step(zoom % 3);
    if whole >= 0 {
        step * two_to(whole as nat)
    } else {
        step
    }
}

/// The denominator of the scale of a camera with zoom `zoom`.
pub open spec fn scale_den_spec(zoom: int) -> int {
    let whole = zoom / 3;
    if whole >= 0 {
        ONE as int
    } else {
        ONE * two_to((-whole) as nat)
    }
}

/// The scale of a camera with zoom `zoom` as one fixed-point number,
/// rounded down.
pub open spec fn scale_spec(zoom: int) -> int {
    mul_div_spec(ONE as int, scale_num_spec(zoom), scale_den_spec(zoom))
}

/// The zoom after `ticks` ticks of zooming in: `zoom - ticks`, held at the
/// ends of the zoom range.
pub open spec fn zoom_spec(zoom: int, ticks: int) -> int {
    let z = zoom - ticks;
    if z > ZOOM_LIMIT {
        ZOOM_LIMIT as int
    } else if z < -ZOOM_LIMIT {
        -(ZOOM_LIMIT as int)
    } else {
        z
    }
}

/// How far the camera moves when the view is dragged by `screen_delta`:
/// twice that distance in the world, the other way.
pub open spec fn pan_delta_spec(zoom: int, screen_delta: Vec2) -> Vec2 {
    let d = v_mul_div(screen_delta, scale_num_spec(zoom), scale_den_spec(zoom));
    v_neg(v_add(d, d))
}

/// Where the camera is after the view was dragged by `screen_delta`.
pub open spec fn pan_spec(pan: Vec2, zoom: int, screen_delta: Vec2) -> Vec2 {
    v_add(pan, pan_delta_spec(zoom, screen_delta))
}

/// A map of the plane that scales by `num / den` about the origin and then
/// moves by `offset`: the matrix with `num / den` on the diagonal and
/// `offset` as its last column.
#[derive(Clone, Copy, Debug, PartialEq, Eq, Structural)]
pub struct Mat2x3 {
    pub num: i64,
    pub den: i64,
    pub offset: Vec2,
}

/// Where the map `m` sends `p`.
pub open spec fn transform_spec(m: Mat2x3, p: Vec2) -> Vec2 {
    v_add(v_mul_div(p, m.num as int, m.den as int), m.offset)
}

/// The map that undoes `m`.
pub open spec fn inverse_spec(m: Mat2x3) -> Mat2x3 {
    Mat2x3 {
        num: m.den,
        den: m.num,
        offset: v_mul_div(v_neg(m.offset), m.den as int, m.num as int),
    }
}

/// The map from the world to the view of a camera at `pan` with zoom `zoom`:
/// a shift by `-pan`, then a scaling by one over the scale.
pub open spec fn view_spec(pan: Vec2, zoom: int) -> Mat2x3 {
    Mat2x3 {
        num: scale_den_spec(zoom) as i64,
        den: scale_num_spec(zoom) as i64,
        offset: v_mul_div(v_neg(pan), scale_den_spec(zoom), scale_num_spec(zoom)),
    }
}

/// Whether the square of entry `e` holds `point`, its border included.
pub open spec fn hits(e: Entry, point: Vec2, half_extent: int) -> bool {
    box_contains(box_around(e.1.pos, vec2(half_extent, half_extent)), point)
}

/// Whether the entry at place `i` is the first whose square holds `point`.
pub open spec fn first_hit(entries: Seq<Entry>, point: Vec2, half_extent: int, i: int) -> bool {
    &&& 0 <= i < entries.len()
    &&& hits(entries[i], point, half_extent)
    &&& forall|j: int| 0 <= j < i ==> !hits(entries[j], point, half_extent)
}

/// The node whose square holds `point`; where several do, the first of the
/// layout.
pub open spec fn hit_spec(entries: Seq<Entry>, point: Vec2, half_extent: int) -> Option<NodeId> {
    if exists|i: int| first_hit(entries, point, half_extent, i) {
        Some(entries[choose|i: int| first_hit(entries, point, half_extent, i)].0)
    } else {
        None
    }
}

/// Only one entry is the first whose square holds a point.
pub proof fn lemma_first_hit_unique(
    entries: Seq<Entry>,
    point: Vec2,
    half_extent: int,
    i: int,
    j: int,
)
    requires
        first_hit(entries, point, half_extent, i),
        first_hit(entries, point, half_extent, j),
    ensures
        i == j,
{
    if i < j {
    } else if j < i {
    }
}

/// A point in no square hits nothing.
pub proof fn lemma_miss(entries: Seq<Entry>, point: Vec2, half_extent: int)
    requires
        forall|i: int| 0 <= i < entries.len() ==> !hits(entries[i], point, half_extent),
    ensures
        hit_spec(entries, point, half_extent).is_none(),
{
}

/// The center of a node's square hits a node: that node, unless the square
/// of an earlier one holds the center too.
pub proof fn lemma_center_hits(entries: Seq<Entry>, half_extent: int, i: int)
    requires
        0 <= i < entries.len(),
        0 <= half_extent <= LIMIT,
    ensures
        hit_spec(entries, entries[i].1.pos, half_extent).is_some(),
        (forall|j: int| 0 <= j < i ==> !hits(entries[j], entries[i].1.pos, half_extent))
            ==> hit_spec(entries, entries[i].1.pos, half_extent) == Some(entries[i].0),
{
    let point = entries[i].1.pos;
    assert(hits(entries[i], point, half_extent));
    lemma_some_first_hit(entries, point, half_extent, i);
    if forall|j: int| 0 <= j < i ==> !hits(entries[j], point, half_extent) {
        assert(first_hit(entries, point, half_extent, i));
        let k = choose|k: int| first_hit(entries, point, half_extent, k);
        lemma_first_hit_unique(entries, point, half_extent, i, k);
    }
}

/// Where the square at place `i` holds a point, some square is the first to
/// hold it.
proof fn lemma_some_first_hit(entries: Seq<Entry>, point: Vec2, half_extent: int, i: int)
    requires
        0 <= i < entries.len(),
        hits(entries[i], point, half_extent),
    ensures
        exists|k: int| first_hit(entries, point, half_extent, k),
    decreases i,
{
    if exists|j: int| 0 <= j < i && hits(entries[j], point, half_extent) {
        let j = choose|j: int| 0 <= j < i && hits(entries[j], point, half_extent);
        lemma_some_first_hit(entries, point, half_extent, j);
    } else {
        assert(first_hit(entries, point, half_extent, i));
    }
}

/// The squares of the entries of `entries`, each with its identifier.
pub open spec fn rects_spec(entries: Seq<Entry>, half_extent: int) -> Seq<(NodeId, Aabb2)> {
    Seq::new(
        entries.len(),
        |i: int| (entries[i].0, box_around(entries[i].1.pos, vec2(half_extent, half_extent))),
    )
}

/// The largest coordinate for which the camera's maps are exact up to rounding.
pub const WORLD_LIMIT: i64 = 1_000_000_000_000;

/// The largest coordinate that a point may have in the view for the camera's
/// maps to be exact up to rounding.
pub const VIEW_LIMIT: i64 = 4_000_000_000_000_000_000;

/// The largest numerator and denominator of a scale.
pub const RATIO_LIMIT: i64 = 4_398_046_511_104_000_000;

/// Zooming in by some ticks and out by as many gives back the zoom, as long
/// as the first did not reach the end of the zoom range.
pub proof fn lemma_zoom_round_trip(zoom: int, ticks: int)
    requires
        in_zoom_range(zoom),
        in_zoom_range(zoom - ticks),
    ensures
        zoom_spec(zoom_spec(zoom, ticks), -ticks) == zoom,
{
}

/// The zoom stays in its range.
pub proof fn lemma_zoom_held(zoom: int, ticks: int)
    ensures
        in_zoom_range(zoom_spec(zoom, ticks)),
        in_zoom_range(zoom - ticks) ==> zoom_spec(zoom, ticks) == zoom - ticks,
{
}

/// Three ticks of zooming in halve the scale, and three ticks of zooming
/// out double it: every zoom of the range has a scale of its own.
pub proof fn lemma_three_ticks_double(zoom: int)
    requires
        in_zoom_range(zoom),
        in_zoom_range(zoom + 3),
    ensures
        scale_num_spec(zoom + 3) * scale_den_spec(zoom) == 2 * (scale_num_spec(zoom)
            * scale_den_spec(zoom + 3)),
{
    let whole = zoom / 3;
    let step = cube_root_step(zoom % 3);
    assert((zoom + 3) / 3 == whole + 1 && (zoom + 3) % 3 == zoom % 3);
    reveal_with_fuel(two_to, 2);
    if whole >= 0 {
        let pow = two_to(whole as nat);
        assert(two_to((whole + 1) as nat) == 2 * pow);
        assert((step * (2 * pow)) * ONE == 2 * ((step * pow) * ONE)) by (nonlinear_arith);
    } else {
        let pow = two_to((-whole - 1) as nat);
        assert(two_to((-whole) as nat) == 2 * pow);
        if whole == -1 {
            assert(pow == 1);
            assert(step * (ONE * (2 * pow)) == 2 * (step * ONE)) by (nonlinear_arith)
                requires
                    pow == 1,
            ;
        } else {
            assert(step * (ONE * (2 * pow)) == 2 * (step * (ONE * pow))) by (nonlinear_arith);
        }
    }
}

/// One tick of zooming out makes the scale greater: every zoom of the range
/// has a scale of its own.
pub proof fn lemma_scale_grows(zoom: int)
    requires
        in_zoom_range(zoom),
        in_zoom_range(zoom + 1),
    ensures
        scale_num_spec(zoom + 1) * scale_den_spec(zoom) > scale_num_spec(zoom) * scale_den_spec(
            zoom + 1,
        ),
{
    let whole = zoom / 3;
    let rest = zoom % 3;
    let one = ONE as int;
    reveal_with_fuel(two_to, 2);
    if rest < 2 {
        assert((zoom + 1) / 3 == whole && (zoom + 1) % 3 == rest + 1);
        let low = cube_root_step(rest);
        let high = cube_root_step(rest + 1);
        if whole >= 0 {
            lemma_two_to_grows(0, whole as nat);
            let pow = two_to(whole as nat);
            assert((high * pow) * one > (low * pow) * one) by (nonlinear_arith)
                requires
                    high > low,
                    pow >= 1,
                    one == 1_000_000,
            ;
        } else {
            lemma_two_to_grows(0, (-whole) as nat);
            let den = one * two_to((-whole) as nat);
            assert(high * den > low * den) by (nonlinear_arith)
                requires
                    high > low,
                    den >= 1,
            ;
        }
    } else {
        assert((zoom + 1) / 3 == whole + 1 && (zoom + 1) % 3 == 0);
        if whole >= 0 {
            lemma_two_to_grows(0, whole as nat);
            let pow = two_to(whole as nat);
            assert(two_to((whole + 1) as nat) == 2 * pow);
            assert((1_000_000 * (2 * pow)) * one > (1_587_401 * pow) * one) by (nonlinear_arith)
                requires
                    pow >= 1,
                    one == 1_000_000,
            ;
        } else {
            lemma_two_to_grows(0, (-whole - 1) as nat);
            let pow = two_to((-whole - 1) as nat);
            assert(two_to((-whole) as nat) == 2 * pow);
            if whole == -1 {
                assert(pow == 1);
            }
            assert(1_000_000 * (one * (2 * pow)) > 1_587_401 * (one * pow)) by (nonlinear_arith)
                requires
                    pow >= 1,
                    one == 1_000_000,
            ;
        }
    }
}

/// Along one axis: mapping the view point `q` to the world and back misses
/// `q` by no more than twice the inverse of the scale, plus one unit.
proof fn lemma_axis_return_trip(pan: int, q: int, n: int, d: int)
    requires
        -WORLD_LIMIT <= pan <= WORLD_LIMIT,
        -VIEW_LIMIT <= q <= VIEW_LIMIT,
        1_000_000 <= n <= RATIO_LIMIT,
        1 <= d <= RATIO_LIMIT,
        -(VIEW_LIMIT * n) <= pan * d <= VIEW_LIMIT * n,
        -(WORLD_LIMIT * d) <= q * n <= WORLD_LIMIT * d,
    ensures
        ({
            let t = mul_div_spec(sat(-pan), d, n);
            let w = sat(mul_div_spec(q, n, d) + mul_div_spec(sat(-t), n, d));
            let back = sat(mul_div_spec(w, d, n) + t);
            -((2 * d) / n + 1) <= back - q <= (2 * d) / n + 1
        }),
{
    let t = trunc_div((-pan) * d, n);
    assert((-pan) * d == -(pan * d)) by (nonlinear_arith);
    lemma_trunc_div_error((-pan) * d, n);
    let e0 = (-pan) * d - n * t;
    let most_shown = VIEW_LIMIT * n;
    let shown_pan = (-pan) * d;
    assert(-most_shown <= shown_pan <= most_shown);
    assert(-VIEW_LIMIT <= t <= VIEW_LIMIT) by (nonlinear_arith)
        requires
            n >= 1,
            most_shown == VIEW_LIMIT * n,
            -most_shown <= shown_pan <= most_shown,
            shown_pan >= 0 ==> 0 <= t && n * t <= shown_pan,
            shown_pan <= 0 ==> t <= 0 && shown_pan <= n * t,
    ;
    assert(mul_div_spec(sat(-pan), d, n) == t);
    let b = trunc_div(q * n, d);
    lemma_trunc_div_error(q * n, d);
    let e2 = q * n - d * b;
    let most_world = WORLD_LIMIT * d;
    let world_q = q * n;
    assert(-WORLD_LIMIT <= b <= WORLD_LIMIT) by (nonlinear_arith)
        requires
            d >= 1,
            most_world == WORLD_LIMIT * d,
            -most_world <= world_q <= most_world,
            world_q >= 0 ==> 0 <= b && d * b <= world_q,
            world_q <= 0 ==> b <= 0 && world_q <= d * b,
    ;
    assert(mul_div_spec(q, n, d) == b);
    assert((-t) * n == pan * d + e0) by (nonlinear_arith)
        requires
            e0 == (-pan) * d - n * t,
    ;
    let t2 = trunc_div((-t) * n, d);
    lemma_trunc_div_error((-t) * n, d);
    let e3 = (-t) * n - d * t2;
    let world = WORLD_LIMIT as int;
    let most = RATIO_LIMIT as int;
    assert(-(world + most + 1) <= t2 <= world + most + 1) by (nonlinear_arith)
        requires
            1 <= d,
            1 <= n <= most,
            -world <= pan <= world,
            (-t) * n == pan * d + e0,
            -n < e0 < n,
            e3 == (-t) * n - d * t2,
            -d < e3 < d,
    ;
    assert(mul_div_spec(sat(-t), n, d) == t2);
    let w = b + t2;
    assert(sat(b + t2) == w);
    let a = trunc_div(w * d, n);
    lemma_trunc_div_error(w * d, n);
    let e1 = w * d - n * a;
    assert(w * d == q * n - e2 - t * n - e3) by (nonlinear_arith)
        requires
            w == b + t2,
            e2 == q * n - d * b,
            e3 == (-t) * n - d * t2,
    ;
    assert(n * (a + t - q) == -(e1 + e2 + e3)) by (nonlinear_arith)
        requires
            w * d == q * n - e2 - t * n - e3,
            e1 == w * d - n * a,
    ;
    let miss = a + t - q;
    lemma_trunc_div_error(2 * d, n);
    assert(-((2 * d) / n + 1) <= miss <= (2 * d) / n + 1) by (nonlinear_arith)
        requires
            n >= 1,
            -(n + 2 * d) < n * miss < n + 2 * d,
            -n < 2 * d - n * ((2 * d) / n) < n,
    ;
    let slack = (2 * d) / n;
    assert(slack <= 8_796_093_022_208) by (nonlinear_arith)
        requires
            n >= 1_000_000,
            0 <= d <= 4_398_046_511_104_000_000,
            0 <= slack,
            n * slack <= 2 * d,
    ;
    assert(a == miss + q - t);
    assert(mul_div_spec(w, d, n) == a);
}

/// Along one axis: mapping `p` to the view and back misses `p` by no more
/// than the scale plus two units.
proof fn lemma_axis_round_trip(pan: int, p: int, n: int, d: int)
    requires
        -WORLD_LIMIT <= pan <= WORLD_LIMIT,
        -WORLD_LIMIT <= p <= WORLD_LIMIT,
        1 <= n <= RATIO_LIMIT,
        1 <= d <= RATIO_LIMIT,
        -(VIEW_LIMIT * n) <= pan * d <= VIEW_LIMIT * n,
        -(VIEW_LIMIT * n) <= p * d <= VIEW_LIMIT * n,
    ensures
        ({
            let t = mul_div_spec(sat(-pan), d, n);
            let q = sat(mul_div_spec(p, d, n) + t);
            let back = sat(mul_div_spec(q, n, d) + mul_div_spec(sat(-t), n, d));
            -(n / d + 2) <= back - p <= n / d + 2
        }),
{
    let t = trunc_div((-pan) * d, n);
    let a = trunc_div(p * d, n);
    assert((-pan) * d == -(pan * d)) by (nonlinear_arith);
    lemma_trunc_div_error((-pan) * d, n);
    lemma_trunc_div_error(p * d, n);
    let e0 = (-pan) * d - n * t;
    let e1 = p * d - n * a;
    let most_shown = VIEW_LIMIT * n;
    let shown_pan = (-pan) * d;
    let shown = p * d;
    assert(-most_shown <= shown_pan <= most_shown);
    assert(-most_shown <= shown <= most_shown);
    assert(-VIEW_LIMIT <= t <= VIEW_LIMIT) by (nonlinear_arith)
        requires
            n >= 1,
            most_shown == VIEW_LIMIT * n,
            -most_shown <= shown_pan <= most_shown,
            shown_pan >= 0 ==> 0 <= t && n * t <= shown_pan,
            shown_pan <= 0 ==> t <= 0 && shown_pan <= n * t,
    ;
    assert(-VIEW_LIMIT <= a <= VIEW_LIMIT) by (nonlinear_arith)
        requires
            n >= 1,
            most_shown == VIEW_LIMIT * n,
            -most_shown <= shown <= most_shown,
            shown >= 0 ==> 0 <= a && n * a <= shown,
            shown <= 0 ==> a <= 0 && shown <= n * a,
    ;
    assert(mul_div_spec(sat(-pan), d, n) == t);
    assert(mul_div_spec(p, d, n) == a);
    let q = a + t;
    assert(sat(a + t) == q);
    assert(q * n == (p - pan) * d - e0 - e1) by (nonlinear_arith)
        requires
            q == a + t,
            e0 == (-pan) * d - n * t,
            e1 == p * d - n * a,
    ;
    let b = trunc_div(q * n, d);
    lemma_trunc_div_error(q * n, d);
    let e2 = q * n - d * b;
    assert((-t) * n == pan * d + e0) by (nonlinear_arith)
        requires
            e0 == (-pan) * d - n * t,
    ;
    let t2 = trunc_div((-t) * n, d);
    lemma_trunc_div_error((-t) * n, d);
    let e3 = (-t) * n - d * t2;
    let world = WORLD_LIMIT as int;
    let most = RATIO_LIMIT as int;
    assert(-(2 * world + 2 * most + 1) <= b <= 2 * world + 2 * most + 1) by (nonlinear_arith)
        requires
            1 <= d,
            1 <= n <= most,
            -world <= p <= world,
            -world <= pan <= world,
            q * n == (p - pan) * d - e0 - e1,
            -n < e0 < n,
            -n < e1 < n,
            e2 == q * n - d * b,
            -d < e2 < d,
    ;
    assert(-(world + most + 1) <= t2 <= world + most + 1) by (nonlinear_arith)
        requires
            1 <= d,
            1 <= n <= most,
            -world <= pan <= world,
            (-t) * n == pan * d + e0,
            -n < e0 < n,
            e3 == (-t) * n - d * t2,
            -d < e3 < d,
    ;
    assert(d * (b + t2 - p) == -(e1 + e2 + e3)) by (nonlinear_arith)
        requires
            q * n == (p - pan) * d - e0 - e1,
            e2 == q * n - d * b,
            (-t) * n == pan * d + e0,
            e3 == (-t) * n - d * t2,
    ;
    assert(mul_div_spec(q, n, d) == b);
    assert(mul_div_spec(sat(-t), n, d) == t2);
    lemma_trunc_div_error(n, d);
    let miss = b + t2 - p;
    assert(-(n / d + 2) <= miss <= n / d + 2) by (nonlinear_arith)
        requires
            d >= 1,
            -(n + 2 * d) < d * miss < n + 2 * d,
            -d < n - d * (n / d) < d,
    ;
}

/// Mapping a point to the view and back gives the point again, up to
/// rounding: each coordinate misses by no more than the scale plus two
/// units. This holds of the points and camera positions within `WORLD_LIMIT`
/// that the view shows within `VIEW_LIMIT`.
pub proof fn lemma_view_round_trip(pan: Vec2, zoom: int, p: Vec2)
    requires
        in_zoom_range(zoom),
        -WORLD_LIMIT <= pan.x <= WORLD_LIMIT,
        -WORLD_LIMIT <= pan.y <= WORLD_LIMIT,
        -WORLD_LIMIT <= p.x <= WORLD_LIMIT,
        -WORLD_LIMIT <= p.y <= WORLD_LIMIT,
        fits_view(pan.x as int, zoom),
        fits_view(pan.y as int, zoom),
        fits_view(p.x as int, zoom),
        fits_view(p.y as int, zoom),
    ensures
        ({
            let m = view_spec(pan, zoom);
            let back = transform_spec(inverse_spec(m), transform_spec(m, p));
            let tolerance = scale_num_spec(zoom) / scale_den_spec(zoom) + 2;
            &&& -tolerance <= back.x - p.x <= tolerance
            &&& -tolerance <= back.y - p.y <= tolerance
        }),
{
    lemma_scale_range(zoom);
    let n = scale_num_spec(zoom);
    let d = scale_den_spec(zoom);
    lemma_axis_round_trip(pan.x as int, p.x as int, n, d);
    lemma_axis_round_trip(pan.y as int, p.y as int, n, d);
}

/// Mapping a point of the view to the world and back gives the point again,
/// up to rounding: each coordinate misses by no more than twice the inverse
/// of the scale, plus one unit. This holds of the view points within
/// `VIEW_LIMIT` that show a world point within `WORLD_LIMIT`.
pub proof fn lemma_view_return_trip(pan: Vec2, zoom: int, q: Vec2)
    requires
        in_zoom_range(zoom),
        -WORLD_LIMIT <= pan.x <= WORLD_LIMIT,
        -WORLD_LIMIT <= pan.y <= WORLD_LIMIT,
        fits_view(pan.x as int, zoom),
        fits_view(pan.y as int, zoom),
        -VIEW_LIMIT <= q.x <= VIEW_LIMIT,
        -VIEW_LIMIT <= q.y <= VIEW_LIMIT,
        fits_world(q.x as int, zoom),
        fits_world(q.y as int, zoom),
    ensures
        ({
            let m = view_spec(pan, zoom);
            let back = transform_spec(m, transform_spec(inverse_spec(m), q));
            let tolerance = (2 * scale_den_spec(zoom)) / scale_num_spec(zoom) + 1;
            &&& -tolerance <= back.x - q.x <= tolerance
            &&& -tolerance <= back.y - q.y <= tolerance
        }),
{
    lemma_scale_range(zoom);
    let n = scale_num_spec(zoom);
    let d = scale_den_spec(zoom);
    lemma_axis_return_trip(pan.x as int, q.x as int, n, d);
    lemma_axis_return_trip(pan.y as int, q.y as int, n, d);
}

/// Whether the view coordinate `v`, multiplied by the scale, is within
/// `WORLD_LIMIT`.
pub open spec fn fits_world(v: int, zoom: int) -> bool {
    -(WORLD_LIMIT * scale_den_spec(zoom)) <= v * scale_num_spec(zoom) <= WORLD_LIMIT
        * scale_den_spec(zoom)
}

/// Whether the world coordinate `w`, divided by the scale, is within
/// `VIEW_LIMIT`.
pub open spec fn fits_view(w: int, zoom: int) -> bool {
    -(VIEW_LIMIT * scale_num_spec(zoom)) <= w * scale_den_spec(zoom) <= VIEW_LIMIT
        * scale_num_spec(zoom)
}

/// Numerator and denominator of the scale fit a fixed-point number.
pub proof fn lemma_scale_range(zoom: int)
    requires
        in_zoom_range(zoom),
    ensures
        1_000_000 <= scale_num_spec(zoom) <= RATIO_LIMIT,
        1_000_000 <= scale_den_spec(zoom) <= RATIO_LIMIT,
{
    let whole = zoom / 3;
    let step = cube_root_step(zoom % 3);
    let power: nat = if whole >= 0 {
        whole as nat
    } else {
        (-whole) as nat
    };
    lemma_two_to_range(power);
    let pow = two_to(power);
    if whole == 42 {
        assert(zoom % 3 == 0);
    } else if whole >= 0 {
        lemma_two_to_grows(power, 41);
        assert(two_to(41) == 2_199_023_255_552) by {
            reveal_with_fuel(two_to, 42);
        }
        assert(1_000_000 <= step * pow <= 1_587_401 * 2_199_023_255_552) by (nonlinear_arith)
            requires
                1_000_000 <= step <= 1_587_401,
                1 <= pow <= 2_199_023_255_552,
        ;
    }
    assert(1_000_000 <= 1_000_000 * pow <= 1_000_000 * 4_398_046_511_104) by (nonlinear_arith)
        requires
            1 <= pow <= 4_398_046_511_104,
    ;
}

/// Powers of two grow with the exponent.
pub proof fn lemma_two_to_grows(a: nat, b: nat)
    requires
        a <= b,
    ensures
        1 <= two_to(a) <= two_to(b),
    decreases b,
{
    if b > 0 {
        if a < b {
            lemma_two_to_grows(a, (b - 1) as nat);
        } else {
            lemma_two_to_grows((a - 1) as nat, (b - 1) as nat);
        }
    }
}

/// Powers of two up to the forty-second.
pub proof fn lemma_two_to_range(n: nat)
    requires
        n <= 42,
    ensures
        1 <= two_to(n) <= 4_398_046_511_104,
        two_to(n) * 2 == two_to(n + 1),
{
    assert(two_to(42) == 4_398_046_511_104) by {
        reveal_with_fuel(two_to, 43);
    }
    lemma_two_to_grows(n, 42);
    reveal_with_fuel(two_to, 2);
}

/// Two to the power `n`.
fn power_of_two(n: u32) -> (r: i64)
    requires
        n <= 42,
    ensures
        r == two_to(n as nat),
        1 <= r <= 4_398_046_511_104,
{
    let mut r: i64 = 1;
    let mut k: u32 = 0;
    while k < n
        invariant
            k <= n <= 42,
            r == two_to(k as nat),
            1 <= r <= 4_398_046_511_104,
        decreases n - k,
    {
        proof {
            lemma_two_to_range(k as nat);
            lemma_two_to_range((k + 1) as nat);
        }
        r = r * 2;
        k += 1;
    }
    r
}

/// Numerator and denominator of the scale of a camera with zoom `zoom`.
pub fn scale_ratio(zoom: i32) -> (r: (i64, i64))
    requires
        in_zoom_range(zoom as int),
    ensures
        r.0 == scale_num_spec(zoom as int),
        r.1 == scale_den_spec(zoom as int),
        1_000_000 <= r.0 <= RATIO_LIMIT,
        1_000_000 <= r.1 <= RATIO_LIMIT,
{
    proof {
        lemma_scale_range(zoom as int);
    }
    let shifted: i32 = zoom + ZOOM_LIMIT;
    let whole: i32 = shifted / 3 - 42;
    let rest: i32 = shifted % 3;
    let step: i64 = if rest == 0 {
        1_000_000
    } else if rest == 1 {
        1_259_921
    } else {
        1_587_401
    };
    if whole >= 0 {
        let pow: i64 = power_of_two(whole as u32);
        (step * pow, ONE)
    } else {
        let pow: i64 = power_of_two((-whole) as u32);
        (step, ONE * pow)
    }
}

/// The scale of a camera with zoom `zoom` as one fixed-point number,
/// rounded down.
pub fn scale_of(zoom: i32) -> (s: i64)
    requires
        in_zoom_range(zoom as int),
    ensures
        s == scale_spec(zoom as int),
{
    let (num, den) = scale_ratio(zoom);
    mul_div(ONE, num, den)
}

impl Mat2x3 {
    /// Where this map sends `p`.
    pub fn transform(&self, p: Vec2) -> (r: Vec2)
        requires
            self.den > 0,
        ensures
            r == transform_spec(*self, p),
    {
        p.times_ratio(self.num, self.den).plus(self.offset)
    }

    /// The map that undoes this one.
    pub fn inverse(&self) -> (r: Mat2x3)
        requires
            self.num > 0,
        ensures
            r == inverse_spec(*self),
    {
        Mat2x3 {
            num: self.den,
            den: self.num,
            offset: self.offset.negated().times_ratio(self.den, self.num),
        }
    }
}

/// The node whose square of half side `half_extent` holds `point`; where
/// several do, the one that comes first in the layout.
pub fn hit_test(projection: &GraphProjection, point: Vec2, half_extent: i64) -> (r: Option<NodeId>)
    ensures
        r == hit_spec(projection@, point, half_extent as int),
{
    let n: usize = projection.len();
    let mut i: usize = 0;
    while i < n
        invariant
            i <= n,
            n == projection@.len(),
            forall|j: int| 0 <= j < i ==> !hits(projection@[j], point, half_extent as int),
        decreases n - i,
    {
        let e = projection.get(i);
        let rect = Aabb2::around_point(e.1.pos, Vec2::splat(half_extent));
        if rect.contains_point(point) {
            proof {
                assert(first_hit(projection@, point, half_extent as int, i as int));
                let k = choose|k: int| first_hit(projection@, point, half_extent as int, k);
                lemma_first_hit_unique(projection@, point, half_extent as int, i as int, k);
            }
            return Some(e.0);
        }
        i += 1;
    }
    None
}

/// A layout, the settings of its simulation, and a camera.
pub struct ViewModel {
    projection: GraphProjection,
    config: LayoutConfig,
    camera_pos: Vec2,
    camera_zoom: i32,
    hovered: Option<NodeId>,
}

impl ViewModel {
    /// The layout.
    pub closed spec fn layout(&self) -> Seq<Entry> {
        self.projection@
    }

    /// The settings of the simulation.
    pub closed spec fn settings(&self) -> LayoutConfig {
        self.config
    }

    /// Where the camera looks.
    pub closed spec fn pan(&self) -> Vec2 {
        self.camera_pos
    }

    /// The zoom of the camera, in thirds: the scale is two to the power `zoom / 3`.
    pub closed spec fn zoom(&self) -> int {
        self.camera_zoom as int
    }

    /// The node under the pointer.
    pub closed spec fn hovered(&self) -> Option<NodeId> {
        self.hovered
    }

    /// Whether `other` has the settings, the camera and the hovered node of
    /// this view.
    pub open spec fn same_frame(&self, other: &ViewModel) -> bool {
        &&& self.settings() == other.settings()
        &&& self.pan() == other.pan()
        &&& self.zoom() == other.zoom()
        &&& self.hovered() == other.hovered()
    }

    /// No identifier has two entries in the layout.
    pub open spec fn wf(&self) -> bool {
        distinct_ids(self.layout())
    }

    /// Whether `start` is the layout of the whole graph `model` with every
    /// node at the origin, by increasing slot.
    pub open spec fn fresh(start: Seq<Entry>, model: Model) -> bool {
        &&& distinct_ids(start)
        &&& all_at_origin(start)
        &&& forall|id: NodeId| has_id(start, id) <==> model@.nodes.contains(id)
        &&& forall|i: int, j: int| 0 <= i < j < start.len() ==> start[i].0.index < start[j].0.index
    }

    /// The view of `model` with the given settings: a fresh layout of the
    /// whole graph, settled by the warm-start steps, and a camera at rest.
    pub fn with_config(model: &Model, config: LayoutConfig, rng: &mut StdRng) -> (vm: ViewModel)
        requires
            model.wf(),
        ensures
            vm.wf(),
            exists|start: Seq<Entry>|
                Self::fresh(start, *model) && relaxed(
                    start,
                    model@,
                    config,
                    WARM_START_STEPS as nat,
                    vm.layout(),
                ),
            vm.settings() == config,
            vm.pan() == origin(),
            vm.zoom() == 0,
            vm.hovered().is_none(),
    {
        let mut projection = GraphProjection::from_graph(model);
        let ghost start = projection@;
        relax(&mut projection, model, &config, rng, WARM_START_STEPS);
        proof {
            assert(Self::fresh(start, *model) && relaxed(
                start,
                model@,
                config,
                WARM_START_STEPS as nat,
                projection@,
            ));
        }
        ViewModel { projection, config, camera_pos: Vec2::zero(), camera_zoom: 0, hovered: None }
    }

    /// The view of `model` with the default settings.
    pub fn new(model: &Model, rng: &mut StdRng) -> (vm: ViewModel)
        requires
            model.wf(),
        ensures
            vm.wf(),
            exists|start: Seq<Entry>|
                Self::fresh(start, *model) && relaxed(
                    start,
                    model@,
                    vm.settings(),
                    WARM_START_STEPS as nat,
                    vm.layout(),
                ),
            vm.settings() == crate::simulation::default_config(),
            vm.pan() == origin(),
            vm.zoom() == 0,
            vm.hovered().is_none(),
    {
        ViewModel::with_config(model, LayoutConfig::default(), rng)
    }

    /// Lets the layout relax for the steps of one frame.
    pub fn update(&mut self, model: &Model, rng: &mut StdRng)
        requires
            model.wf(),
        ensures
            relaxed(
                old(self).layout(),
                model@,
                old(self).settings(),
                FRAME_STEPS as nat,
                final(self).layout(),
            ),
            old(self).wf() ==> final(self).wf(),
            final(self).same_frame(old(self)),
    {
        relax(&mut self.projection, model, &self.config, rng, FRAME_STEPS);
    }

    /// Starts over: a fresh layout of the whole graph, settled by the
    /// warm-start steps. The camera stays.
    pub fn reset(&mut self, model: &Model, rng: &mut StdRng)
        requires
            model.wf(),
        ensures
            final(self).wf(),
            exists|start: Seq<Entry>|
                Self::fresh(start, *model) && relaxed(
                    start,
                    model@,
                    old(self).settings(),
                    WARM_START_STEPS as nat,
                    final(self).layout(),
                ),
            final(self).same_frame(old(self)),
    {
        let mut projection = GraphProjection::from_graph(model);
        let ghost start = projection@;
        relax(&mut projection, model, &self.config, rng, WARM_START_STEPS);
        proof {
            assert(Self::fresh(start, *model) && relaxed(
                start,
                model@,
                self.config,
                WARM_START_STEPS as nat,
                projection@,
            ));
        }
        self.projection = projection;
    }

    /// Shows `projection` from now on, with every node that the layout shown
    /// so far knows at the position it has there.
    pub fn set_projection(&mut self, projection: GraphProjection)
        ensures
            final(self).layout() == merge_spec(projection@, old(self).layout()),
            projection.wf() ==> final(self).wf(),
            final(self).same_frame(old(self)),
    {
        let mut projection = projection;
        projection.copy_projections_from(&self.projection);
        self.projection = projection;
    }

    /// The layout.
    pub fn projection(&self) -> (p: &GraphProjection)
        ensures
            p@ == self.layout(),
    {
        &self.projection
    }

    /// The position of `id`, if the layout has it.
    pub fn position(&self, id: NodeId) -> (r: Option<Vec2>)
        ensures
            r == position_in(self.layout(), id),
    {
        self.projection.position(id)
    }

    /// The square of each node, in the order of the layout.
    pub fn node_rects(&self) -> (rects: Vec<(NodeId, Aabb2)>)
        ensures
            rects@ == rects_spec(self.layout(), NODE_HALF_EXTENT as int),
    {
        let n: usize = self.projection.len();
        let mut rects: Vec<(NodeId, Aabb2)> = Vec::new();
        let mut i: usize = 0;
        while i < n
            invariant
                i <= n,
                n == self.projection@.len(),
                rects@.len() == i,
                forall|j: int|
                    0 <= j < i ==> rects@[j] == rects_spec(self.projection@, NODE_HALF_EXTENT as int)[j],
            decreases n - i,
        {
            let e = self.projection.get(i);
            rects.push((e.0, Aabb2::around_point(e.1.pos, Vec2::splat(NODE_HALF_EXTENT))));
            i += 1;
        }
        assert(rects@ =~= rects_spec(self.projection@, NODE_HALF_EXTENT as int));
        rects
    }

    /// The node under `point`; where several are, the first of the layout.
    pub fn node_at(&self, point: Vec2) -> (r: Option<NodeId>)
        ensures
            r == hit_spec(self.layout(), point, NODE_HALF_EXTENT as int),
    {
        hit_test(&self.projection, point, NODE_HALF_EXTENT)
    }

    /// Remembers which node is under the pointer.
    pub fn set_hovered_node(&mut self, node: Option<NodeId>)
        ensures
            final(self).hovered() == node,
            final(self).layout() == old(self).layout(),
            final(self).settings() == old(self).settings(),
            final(self).pan() == old(self).pan(),
            final(self).zoom() == old(self).zoom(),
    {
        self.hovered = node;
    }

    /// The node under the pointer.
    pub fn hovered_node(&self) -> (node: Option<NodeId>)
        ensures
            node == self.hovered(),
    {
        self.hovered
    }

    /// The point of the world that shows at `view_point` of the view.
    pub fn view_to_world(&self, view_point: Vec2) -> (p: Vec2)
        requires
            in_zoom_range(self.zoom()),
        ensures
            p == transform_spec(inverse_spec(view_spec(self.pan(), self.zoom())), view_point),
    {
        self.inverse_view_matrix().transform(view_point)
    }

    /// Where the camera looks.
    pub fn camera_pos(&self) -> (p: Vec2)
        ensures
            p == self.pan(),
    {
        self.camera_pos
    }

    /// The zoom of the camera, in thirds.
    pub fn camera_zoom(&self) -> (z: i32)
        ensures
            z == self.zoom(),
    {
        self.camera_zoom
    }

    /// The scale of the camera as one fixed-point number: how many world
    /// units one unit of the view covers, rounded down.
    pub fn scale_factor(&self) -> (s: i64)
        requires
            in_zoom_range(self.zoom()),
        ensures
            s == scale_spec(self.zoom()),
    {
        scale_of(self.camera_zoom)
    }

    /// Moves the camera against a drag of the view by `screen_delta`, by
    /// twice the distance that the drag covers in the world.
    pub fn pan_camera(&mut self, screen_delta: Vec2)
        requires
            in_zoom_range(old(self).zoom()),
        ensures
            final(self).pan() == pan_spec(old(self).pan(), old(self).zoom(), screen_delta),
            final(self).zoom() == old(self).zoom(),
            final(self).layout() == old(self).layout(),
            final(self).settings() == old(self).settings(),
            final(self).hovered() == old(self).hovered(),
    {
        let (num, den) = scale_ratio(self.camera_zoom);
        let d = screen_delta.times_ratio(num, den);
        self.camera_pos = self.camera_pos.plus(d.plus(d).negated());
    }

    /// Zooms in by `ticks` ticks (out where `ticks` is negative); three ticks
    /// halve the scale. The zoom stops at the ends of its range, and the
    /// scale with it.
    pub fn zoom_camera(&mut self, ticks: i32)
        ensures
            final(self).zoom() == zoom_spec(old(self).zoom(), ticks as int),
            in_zoom_range(final(self).zoom()),
            final(self).pan() == old(self).pan(),
            final(self).layout() == old(self).layout(),
            final(self).settings() == old(self).settings(),
            final(self).hovered() == old(self).hovered(),
    {
        let z: i64 = self.camera_zoom as i64 - ticks as i64;
        self.camera_zoom = if z > ZOOM_LIMIT as i64 {
            ZOOM_LIMIT
        } else if z < -(ZOOM_LIMIT as i64) {
            -ZOOM_LIMIT
        } else {
            z as i32
        };
    }

    /// The map from the world to the view.
    pub fn view_matrix(&self) -> (m: Mat2x3)
        requires
            in_zoom_range(self.zoom()),
        ensures
            m == view_spec(self.pan(), self.zoom()),
            m.num > 0,
            m.den > 0,
    {
        let (num, den) = scale_ratio(self.camera_zoom);
        Mat2x3 { num: den, den: num, offset: self.camera_pos.negated().times_ratio(den, num) }
    }

    /// The map from the view to the world.
    pub fn inverse_view_matrix(&self) -> (m: Mat2x3)
        requires
            in_zoom_range(self.zoom()),
        ensures
            m == inverse_spec(view_spec(self.pan(), self.zoom())),
            m.num > 0,
            m.den > 0,
    {
        self.view_matrix().inverse()
    }
}

} // verus!
