//! One step of the layout simulation.
//!
//! Each node gets a velocity, the sum of the forces below, which is capped
//! and then moves the node for one time step. A step reads the positions as
//! they were before it; the only thing it keeps between steps is the layout.

use vstd::prelude::*;
use rand::rngs::StdRng;
use crate::fixed::ONE;
use crate::fixed::sat;
use crate::fixed::trunc_div;
use crate::fixed::mul_spec;
use crate::fixed::div_spec;
use crate::fixed::saturate;
use crate::fixed::lemma_mul_div_odd;
use crate::fixed::lemma_mul_zero;
use crate::fixed::lemma_sqrt_zero;
use crate::fixed::lemma_trunc_div_error;
use crate::geometry::lemma_len_even;
use crate::geometry::lemma_mul_div_opposite;
use crate::fixed::fx_sub;
use crate::fixed::fx_neg;
use crate::fixed::fx_mul;
use crate::fixed::fx_div;
use crate::geometry::Vec2;
use crate::geometry::vec2;
use crate::geometry::origin;
use crate::geometry::v_add;
use crate::geometry::v_sub;
use crate::geometry::v_neg;
use crate::geometry::v_scale;
use crate::geometry::v_mul_div;
use crate::geometry::v_len;
use crate::geometry::v_true_len;
use crate::fixed::lemma_sqrt_exists;
use crate::jitter::jitter_spec;
use crate::jitter::jitter_from;
use crate::jitter::draw_pair;
use crate::model::Direction;
use crate::model::Model;
use crate::model::NodeId;
use crate::model::Topology;
use crate::projection::Entry;
use crate::projection::entry;
use crate::projection::distinct_ids;
use crate::projection::GraphProjection;
use crate::projection::names;

verus! {

/// The weights, distances and limits of the simulation, as fixed-point
/// numbers. None is checked: a negative weight turns a pull into a push.
#[derive(Clone, Copy, Debug, PartialEq, Eq, Structural)]
pub struct LayoutConfig {
    /// How strongly every node is pulled toward the origin.
    pub cohesion_weight: i64,
    /// How strongly sources are pulled toward `x = -1` and sinks toward `x = 1`.
    pub outward_weight: i64,
    /// How strongly nearby nodes push each other apart.
    pub repulsion_weight: i64,
    /// The distance from which on nodes no longer push each other.
    pub repulsion_distance: i64,
    /// How strongly the start of an edge is pushed to the left of its end.
    pub reorder_weight: i64,
    /// How strongly connected nodes pull each other.
    pub neighbor_cohesion_weight: i64,
    /// The distance up to which connected nodes do not pull each other.
    pub neighbor_cohesion_distance: i64,
    /// How strongly the layout as a whole is pulled back to the origin.
    pub center_correction_weight: i64,
    /// The distance below which two nodes count as lying on each other.
    pub overlap_epsilon: i64,
    /// The length of the random push between nodes that lie on each other.
    pub jitter_weight: i64,
    /// The largest speed of a node.
    pub max_speed: i64,
    /// The time that one step covers.
    pub time_step: i64,
}

/// The weights that give a calm layout for graphs of a few dozen nodes.
pub open spec fn default_config() -> LayoutConfig {
    LayoutConfig {
        cohesion_weight: 0,
        outward_weight: 10_000_000,
        repulsion_weight: 20_000_000,
        repulsion_distance: 500_000,
        reorder_weight: 1_000_000,
        neighbor_cohesion_weight: 1_000_000,
        neighbor_cohesion_distance: 600_000,
        center_correction_weight: 1_000_000,
        overlap_epsilon: 10_000,
        jitter_weight: 200_000,
        max_speed: 25_000_000,
        time_step: 20_000,
    }
}

impl Default for LayoutConfig {
    /// The default weights.
    fn default() -> (c: LayoutConfig)
        ensures
            c == default_config(),
    {
        LayoutConfig {
            cohesion_weight: 0,
            outward_weight: 10_000_000,
            repulsion_weight: 20_000_000,
            repulsion_distance: 500_000,
            reorder_weight: 1_000_000,
            neighbor_cohesion_weight: 1_000_000,
            neighbor_cohesion_distance: 600_000,
            center_correction_weight: 1_000_000,
            overlap_epsilon: 10_000,
            jitter_weight: 200_000,
            max_speed: 25_000_000,
            time_step: 20_000,
        }
    }
}

/// The pull toward the origin on a node at `p`.
pub open spec fn cohesion_term(p: Vec2, cfg: LayoutConfig) -> Vec2 {
    v_neg(v_scale(p, cfg.cohesion_weight as int))
}

/// The horizontal pull toward `x = target` on a node at `p`.
pub open spec fn outward_pull(target: int, p: Vec2, cfg: LayoutConfig) -> Vec2 {
    vec2(mul_spec(sat(target - p.x), cfg.outward_weight as int), 0)
}

/// Whether two nodes at distance `dist` lie on each other.
pub open spec fn overlapping(dist: int, cfg: LayoutConfig) -> bool {
    dist < cfg.overlap_epsilon
}

/// The push on a node from another one, where `diff` leads from the other
/// node to this one and `dist` is its length. Nodes that lie on each other
/// get the random push that `draw` stands for. Farther apart the push points
/// away from the other node and falls off with the square of the distance,
/// down to nothing at the repulsion distance.
pub open spec fn repulsion_of(diff: Vec2, dist: int, cfg: LayoutConfig, draw: (u32, u32)) -> Vec2 {
    if overlapping(dist, cfg) {
        v_scale(jitter_spec(draw), cfg.jitter_weight as int)
    } else if 0 < dist < cfg.repulsion_distance {
        let falloff = sat(ONE - div_spec(dist, cfg.repulsion_distance as int));
        v_scale(v_mul_div(diff, ONE as int, dist), mul_spec(falloff, falloff))
    } else {
        origin()
    }
}

/// The horizontal push that puts the start of an edge to the left of its end.
/// `rel` says how this node is connected to the other and `dx` is this node's
/// x minus the other's. A node that an edge leaves is pushed left by as much
/// as it lies to the right of the edge's end, times the weight; a node that an
/// edge reaches is pushed right in the same way.
pub open spec fn reorder_of(rel: Option<Direction>, dx: int, cfg: LayoutConfig) -> Vec2 {
    match rel {
        Some(Direction::Outgoing) => if dx > 0 {
            vec2(sat(-mul_spec(dx, cfg.reorder_weight as int)), 0)
        } else {
            origin()
        },
        Some(Direction::Incoming) => if dx < 0 {
            vec2(mul_spec(sat(-dx), cfg.reorder_weight as int), 0)
        } else {
            origin()
        },
        None => origin(),
    }
}

/// The pull on a node toward a connected one that is farther away than the
/// cohesion distance, as long as the excess. `diff` leads from the other node
/// to this one and `dist` is its length.
pub open spec fn attraction_of(
    rel: Option<Direction>,
    diff: Vec2,
    dist: int,
    cfg: LayoutConfig,
) -> Vec2 {
    if rel.is_some() && dist > cfg.neighbor_cohesion_distance && dist > 0 {
        v_scale(
            v_mul_div(v_neg(diff), ONE as int, dist),
            sat(dist - cfg.neighbor_cohesion_distance),
        )
    } else {
        origin()
    }
}

/// The push on a node at `p` from a node at `q`.
pub open spec fn repulsion_term(p: Vec2, q: Vec2, cfg: LayoutConfig, draw: (u32, u32)) -> Vec2 {
    repulsion_of(v_sub(p, q), v_len(v_sub(p, q)), cfg, draw)
}

/// The reordering push on a node at `p` from a node at `q`.
pub open spec fn reorder_term(rel: Option<Direction>, p: Vec2, q: Vec2, cfg: LayoutConfig) -> Vec2 {
    reorder_of(rel, v_sub(p, q).x as int, cfg)
}

/// The pull on a node at `p` toward a node at `q`.
pub open spec fn attraction_term(
    rel: Option<Direction>,
    p: Vec2,
    q: Vec2,
    cfg: LayoutConfig,
) -> Vec2 {
    attraction_of(rel, v_sub(p, q), v_len(v_sub(p, q)), cfg)
}

/// What the other nodes do to one node, summed by kind.
#[derive(Clone, Copy, Debug, PartialEq, Eq, Structural)]
pub struct PairForces {
    pub repulsion: Vec2,
    pub reorder: Vec2,
    pub attraction: Vec2,
}

/// No force.
pub open spec fn no_forces() -> PairForces {
    PairForces { repulsion: origin(), reorder: origin(), attraction: origin() }
}

/// `sum` with what the node at place `j` does to the node at place `i`.
pub open spec fn with_pair(
    sum: PairForces,
    entries: Seq<Entry>,
    topo: Topology,
    cfg: LayoutConfig,
    draw: (u32, u32),
    i: int,
    j: int,
) -> PairForces {
    let p = entries[i].1.pos;
    let q = entries[j].1.pos;
    let rel = topo.relation(entries[i].0, entries[j].0);
    PairForces {
        repulsion: v_add(sum.repulsion, repulsion_term(p, q, cfg, draw)),
        reorder: v_add(sum.reorder, reorder_term(rel, p, q, cfg)),
        attraction: v_add(sum.attraction, attraction_term(rel, p, q, cfg)),
    }
}

/// What the first `k` entries, but for the node itself, do to the node at
/// place `i`. `row[j]` is the random draw for the entry at place `j`.
pub open spec fn pair_forces(
    entries: Seq<Entry>,
    topo: Topology,
    cfg: LayoutConfig,
    row: Seq<(u32, u32)>,
    i: int,
    k: int,
) -> PairForces
    decreases k,
{
    if k <= 0 {
        no_forces()
    } else {
        let sum = pair_forces(entries, topo, cfg, row, i, k - 1);
        if k - 1 == i {
            sum
        } else {
            with_pair(sum, entries, topo, cfg, row[k - 1], i, k - 1)
        }
    }
}

/// The sum of the x coordinates of the first `k` entries.
pub open spec fn sum_x(entries: Seq<Entry>, k: int) -> int
    decreases k,
{
    if k <= 0 {
        0
    } else {
        sum_x(entries, k - 1) + entries[k - 1].1.pos.x
    }
}

/// The sum of the y coordinates of the first `k` entries.
pub open spec fn sum_y(entries: Seq<Entry>, k: int) -> int
    decreases k,
{
    if k <= 0 {
        0
    } else {
        sum_y(entries, k - 1) + entries[k - 1].1.pos.y
    }
}

/// The mean position of the entries; the origin where there is none.
pub open spec fn center_of_mass(entries: Seq<Entry>) -> Vec2 {
    let n = entries.len() as int;
    if n == 0 {
        origin()
    } else {
        vec2(sat(trunc_div(sum_x(entries, n), n)), sat(trunc_div(sum_y(entries, n), n)))
    }
}

/// The velocity of the node at place `i`, before it is capped: the pull to
/// the origin, the pull outward on sources and sinks, the push from nearby
/// nodes, the reordering push, the pull of connected nodes, and the pull of
/// the whole layout back to the origin, added in this order.
pub open spec fn velocity(
    entries: Seq<Entry>,
    topo: Topology,
    cfg: LayoutConfig,
    row: Seq<(u32, u32)>,
    i: int,
) -> Vec2 {
    let id = entries[i].0;
    let p = entries[i].1.pos;
    let pairs = pair_forces(entries, topo, cfg, row, i, entries.len() as int);
    let v = cohesion_term(p, cfg);
    let v = if topo.is_external(Direction::Incoming, id) {
        v_add(v, outward_pull(-ONE, p, cfg))
    } else {
        v
    };
    let v = if topo.is_external(Direction::Outgoing, id) {
        v_add(v, outward_pull(ONE as int, p, cfg))
    } else {
        v
    };
    let v = v_add(v, v_scale(pairs.repulsion, cfg.repulsion_weight as int));
    let v = v_add(v, pairs.reorder);
    let v = v_add(v, v_scale(pairs.attraction, cfg.neighbor_cohesion_weight as int));
    v_sub(v, v_scale(center_of_mass(entries), cfg.center_correction_weight as int))
}

/// The velocity `v`, shortened to the speed `max_speed` where it is faster.
/// The speed is the true length of `v`, also where that exceeds the
/// fixed-point range.
pub open spec fn clamp_speed(v: Vec2, max_speed: int) -> Vec2 {
    let speed = v_true_len(v);
    if speed > max_speed && speed > 0 {
        v_mul_div(v, max_speed, speed)
    } else {
        v
    }
}

/// Where the node at place `i` is after the step.
pub open spec fn next_position(
    entries: Seq<Entry>,
    topo: Topology,
    cfg: LayoutConfig,
    row: Seq<(u32, u32)>,
    i: int,
) -> Vec2 {
    let v = clamp_speed(velocity(entries, topo, cfg, row, i), cfg.max_speed as int);
    v_add(entries[i].1.pos, v_scale(v, cfg.time_step as int))
}

/// The layout after one step. `draws[i][j]` is the random draw for the push
/// that the node at place `i` gets from the node at place `j`; it matters
/// only where the two lie on each other.
pub open spec fn step_spec(
    entries: Seq<Entry>,
    topo: Topology,
    cfg: LayoutConfig,
    draws: Seq<Seq<(u32, u32)>>,
) -> Seq<Entry> {
    Seq::new(
        entries.len(),
        |i: int| entry(entries[i].0, next_position(entries, topo, cfg, draws[i], i)),
    )
}

/// Whether `steps` steps can lead from the layout `start` to the layout `end`.
pub open spec fn relaxed(
    start: Seq<Entry>,
    topo: Topology,
    cfg: LayoutConfig,
    steps: nat,
    end: Seq<Entry>,
) -> bool
    decreases steps,
{
    if steps == 0 {
        end == start
    } else {
        exists|mid: Seq<Entry>, draws: Seq<Seq<(u32, u32)>>|
            relaxed(start, topo, cfg, (steps - 1) as nat, mid) && draws.len() == mid.len() && end
                == #[trigger] step_spec(mid, topo, cfg, draws)
    }
}

/// A step keeps the identifiers and their order.
pub proof fn lemma_step_keeps_ids(
    entries: Seq<Entry>,
    topo: Topology,
    cfg: LayoutConfig,
    draws: Seq<Seq<(u32, u32)>>,
)
    ensures
        step_spec(entries, topo, cfg, draws).len() == entries.len(),
        forall|i: int|
            0 <= i < entries.len() ==> step_spec(entries, topo, cfg, draws)[i].0 == entries[i].0,
        distinct_ids(entries) ==> distinct_ids(step_spec(entries, topo, cfg, draws)),
{
}

/// Any number of steps keeps the identifiers and their order.
pub proof fn lemma_relaxed_keeps_ids(
    start: Seq<Entry>,
    topo: Topology,
    cfg: LayoutConfig,
    steps: nat,
    end: Seq<Entry>,
)
    requires
        relaxed(start, topo, cfg, steps, end),
    ensures
        end.len() == start.len(),
        forall|i: int| 0 <= i < start.len() ==> end[i].0 == start[i].0,
    decreases steps,
{
    if steps > 0 {
        let (mid, draws) = choose|mid: Seq<Entry>, draws: Seq<Seq<(u32, u32)>>|
            relaxed(start, topo, cfg, (steps - 1) as nat, mid) && draws.len() == mid.len() && end
                == #[trigger] step_spec(mid, topo, cfg, draws);
        lemma_relaxed_keeps_ids(start, topo, cfg, (steps - 1) as nat, mid);
        lemma_step_keeps_ids(mid, topo, cfg, draws);
    }
}

/// Two nodes that do not lie on each other push each other with equal
/// strength in opposite directions.
pub proof fn lemma_repulsion_opposite(
    p: Vec2,
    q: Vec2,
    cfg: LayoutConfig,
    draw_p: (u32, u32),
    draw_q: (u32, u32),
)
    requires
        !overlapping(v_len(v_sub(p, q)), cfg),
    ensures
        repulsion_term(q, p, cfg, draw_q) == v_neg(repulsion_term(p, q, cfg, draw_p)),
        v_len(repulsion_term(q, p, cfg, draw_q)) == v_len(repulsion_term(p, q, cfg, draw_p)),
{
    let diff = v_sub(p, q);
    let back = v_sub(q, p);
    lemma_len_even(diff, back);
    let dist = v_len(diff);
    if 0 < dist < cfg.repulsion_distance {
        let falloff = sat(ONE - div_spec(dist, cfg.repulsion_distance as int));
        let strength = mul_spec(falloff, falloff);
        let away = v_mul_div(diff, ONE as int, dist);
        let toward = v_mul_div(back, ONE as int, dist);
        lemma_mul_div_opposite(diff, back, ONE as int, dist);
        lemma_mul_div_odd(away.x as int, strength, ONE as int);
        lemma_mul_div_odd(away.y as int, strength, ONE as int);
    }
    lemma_len_even(repulsion_term(p, q, cfg, draw_p), repulsion_term(q, p, cfg, draw_q));
}

/// A node alone in the layout, at the origin and without edges, has no
/// velocity and stays where it is.
pub proof fn lemma_lone_node_rests(
    entries: Seq<Entry>,
    topo: Topology,
    cfg: LayoutConfig,
    row: Seq<(u32, u32)>,
)
    requires
        entries.len() == 1,
        entries[0].1.pos == origin(),
        forall|other: NodeId|
            !topo.edges.contains((entries[0].0, other)) && !topo.edges.contains(
                (other, entries[0].0),
            ),
    ensures
        velocity(entries, topo, cfg, row, 0) == origin(),
        next_position(entries, topo, cfg, row, 0) == origin(),
{
    let id = entries[0].0;
    reveal_with_fuel(pair_forces, 2);
    reveal_with_fuel(sum_x, 2);
    reveal_with_fuel(sum_y, 2);
    assert(pair_forces(entries, topo, cfg, row, 0, 1) == no_forces());
    lemma_mul_zero(cfg.cohesion_weight as int, ONE as int);
    lemma_mul_zero(cfg.repulsion_weight as int, ONE as int);
    lemma_mul_zero(cfg.neighbor_cohesion_weight as int, ONE as int);
    lemma_mul_zero(cfg.center_correction_weight as int, ONE as int);
    lemma_mul_zero(cfg.time_step as int, ONE as int);
    lemma_mul_div_odd(ONE as int, cfg.outward_weight as int, ONE as int);
    lemma_trunc_div_error(0, 1);
    assert(center_of_mass(entries) == origin());
    assert(topo.is_external(Direction::Incoming, id) == topo.nodes.contains(id));
    assert(topo.is_external(Direction::Outgoing, id) == topo.nodes.contains(id));
    assert(velocity(entries, topo, cfg, row, 0) == origin());
    lemma_sqrt_zero();
}

/// Whether no two entries of the layout lie on each other.
pub open spec fn spread_out(entries: Seq<Entry>, cfg: LayoutConfig) -> bool {
    forall|i: int, j: int|
        0 <= i < entries.len() && 0 <= j < entries.len() && i != j ==> !overlapping(
            v_len(v_sub(entries[i].1.pos, entries[j].1.pos)),
            cfg,
        )
}

/// Where no two nodes lie on each other, the forces on a node do not depend
/// on the random draws.
pub proof fn lemma_pair_forces_without_draws(
    entries: Seq<Entry>,
    topo: Topology,
    cfg: LayoutConfig,
    r1: Seq<(u32, u32)>,
    r2: Seq<(u32, u32)>,
    i: int,
    k: int,
)
    requires
        spread_out(entries, cfg),
        0 <= i < entries.len(),
        k <= entries.len(),
    ensures
        pair_forces(entries, topo, cfg, r1, i, k) == pair_forces(entries, topo, cfg, r2, i, k),
    decreases k,
{
    if k > 0 {
        lemma_pair_forces_without_draws(entries, topo, cfg, r1, r2, i, k - 1);
    }
}

/// Where no two nodes lie on each other, a step does not depend on the
/// random draws: the same layout always gives the same next layout.
pub proof fn lemma_step_without_draws(
    entries: Seq<Entry>,
    topo: Topology,
    cfg: LayoutConfig,
    d1: Seq<Seq<(u32, u32)>>,
    d2: Seq<Seq<(u32, u32)>>,
)
    requires
        spread_out(entries, cfg),
    ensures
        step_spec(entries, topo, cfg, d1) == step_spec(entries, topo, cfg, d2),
{
    assert forall|i: int| 0 <= i < entries.len() implies next_position(
        entries,
        topo,
        cfg,
        d1[i],
        i,
    ) == next_position(entries, topo, cfg, d2[i], i) by {
        lemma_pair_forces_without_draws(entries, topo, cfg, d1[i], d2[i], i, entries.len() as int);
    }
    assert(step_spec(entries, topo, cfg, d1) =~= step_spec(entries, topo, cfg, d2));
}

/// The forces on a node depend on the draws for the entries counted only.
pub proof fn lemma_pair_forces_frame(
    entries: Seq<Entry>,
    topo: Topology,
    cfg: LayoutConfig,
    r1: Seq<(u32, u32)>,
    r2: Seq<(u32, u32)>,
    i: int,
    k: int,
)
    requires
        k <= r1.len(),
        k <= r2.len(),
        forall|j: int| 0 <= j < k ==> r1[j] == r2[j],
    ensures
        pair_forces(entries, topo, cfg, r1, i, k) == pair_forces(entries, topo, cfg, r2, i, k),
    decreases k,
{
    if k > 0 {
        lemma_pair_forces_frame(entries, topo, cfg, r1, r2, i, k - 1);
    }
}

/// The push on a node from another one; see [`repulsion_of`].
pub fn repulsion(diff: Vec2, dist: i64, cfg: &LayoutConfig, draw: (u32, u32)) -> (r: Vec2)
    ensures
        r == repulsion_of(diff, dist as int, *cfg, draw),
{
    if dist < cfg.overlap_epsilon {
        jitter_from(draw).scaled(cfg.jitter_weight)
    } else if 0 < dist && dist < cfg.repulsion_distance {
        let falloff: i64 = fx_sub(ONE, fx_div(dist, cfg.repulsion_distance));
        diff.times_ratio(ONE, dist).scaled(fx_mul(falloff, falloff))
    } else {
        Vec2::zero()
    }
}

/// The reordering push on a node; see [`reorder_of`].
pub fn reorder(rel: Option<Direction>, dx: i64, cfg: &LayoutConfig) -> (r: Vec2)
    ensures
        r == reorder_of(rel, dx as int, *cfg),
{
    match rel {
        Some(Direction::Outgoing) => if dx > 0 {
            Vec2::from_x(fx_neg(fx_mul(dx, cfg.reorder_weight)))
        } else {
            Vec2::zero()
        },
        Some(Direction::Incoming) => if dx < 0 {
            Vec2::from_x(fx_mul(fx_neg(dx), cfg.reorder_weight))
        } else {
            Vec2::zero()
        },
        None => Vec2::zero(),
    }
}

/// The pull on a node toward a connected one; see [`attraction_of`].
pub fn attraction(rel: Option<Direction>, diff: Vec2, dist: i64, cfg: &LayoutConfig) -> (r: Vec2)
    ensures
        r == attraction_of(rel, diff, dist as int, *cfg),
{
    if rel.is_some() && dist > cfg.neighbor_cohesion_distance && dist > 0 {
        diff.negated().times_ratio(ONE, dist).scaled(fx_sub(dist, cfg.neighbor_cohesion_distance))
    } else {
        Vec2::zero()
    }
}

/// Shortens `v` to the speed `max_speed` where it is faster.
pub fn clamp_velocity(v: Vec2, max_speed: i64) -> (r: Vec2)
    ensures
        r == clamp_speed(v, max_speed as int),
{
    let speed: u64 = v.true_length();
    proof {
        assert(0 <= v.x * v.x + v.y * v.y) by (nonlinear_arith);
        lemma_sqrt_exists(v.x * v.x + v.y * v.y);
    }
    if speed > 0 && (max_speed < 0 || speed > max_speed as u64) {
        v.times_wide_ratio(max_speed, speed)
    } else {
        v
    }
}

/// The mean position of the entries.
pub fn mean_position(entries: &Vec<Entry>) -> (mean: Vec2)
    ensures
        mean == center_of_mass(entries@),
{
    let n: usize = entries.len();
    if n == 0 {
        return Vec2::zero();
    }
    let mut sx: i128 = 0;
    let mut sy: i128 = 0;
    let mut k: usize = 0;
    while k < n
        invariant
            k <= n,
            n == entries@.len(),
            sx == sum_x(entries@, k as int),
            sy == sum_y(entries@, k as int),
            -k * 0x8000_0000_0000_0000 <= sx <= k * 0x8000_0000_0000_0000,
            -k * 0x8000_0000_0000_0000 <= sy <= k * 0x8000_0000_0000_0000,
        decreases n - k,
    {
        sx = sx + entries[k].1.pos.x as i128;
        sy = sy + entries[k].1.pos.y as i128;
        k += 1;
    }
    let d: i128 = n as i128;
    let mx: i128 = if sx >= 0 {
        sx / d
    } else {
        -((-sx) / d)
    };
    let my: i128 = if sy >= 0 {
        sy / d
    } else {
        -((-sy) / d)
    };
    Vec2::new(saturate(mx), saturate(my))
}

/// What the other nodes do to the node at place `i`, with the random draws
/// that went into it.
fn node_forces(
    entries: &Vec<Entry>,
    i: usize,
    model: &Model,
    cfg: &LayoutConfig,
    rng: &mut StdRng,
) -> (r: (PairForces, Ghost<Seq<(u32, u32)>>))
    requires
        model.wf(),
        i < entries@.len(),
    ensures
        r.1@.len() == entries@.len(),
        r.0 == pair_forces(entries@, model@, *cfg, r.1@, i as int, entries@.len() as int),
{
    let n: usize = entries.len();
    let id = entries[i].0;
    let p = entries[i].1.pos;
    let mut sum = PairForces {
        repulsion: Vec2::zero(),
        reorder: Vec2::zero(),
        attraction: Vec2::zero(),
    };
    let ghost mut row: Seq<(u32, u32)> = Seq::empty();
    let mut j: usize = 0;
    while j < n
        invariant
            j <= n,
            n == entries@.len(),
            i < n,
            model.wf(),
            id == entries@[i as int].0,
            p == entries@[i as int].1.pos,
            row.len() == j,
            sum == pair_forces(entries@, model@, *cfg, row, i as int, j as int),
        decreases n - j,
    {
        let ghost before = row;
        if j == i {
            proof {
                row = row.push((0u32, 0u32));
            }
        } else {
            let other = entries[j];
            let diff = p.minus(other.1.pos);
            let dist: i64 = diff.length();
            let draw: (u32, u32) = if dist < cfg.overlap_epsilon {
                draw_pair(rng)
            } else {
                (0u32, 0u32)
            };
            let rel = model.find_edge_undirected(id, other.0);
            sum = PairForces {
                repulsion: sum.repulsion.plus(repulsion(diff, dist, cfg, draw)),
                reorder: sum.reorder.plus(reorder(rel, diff.x, cfg)),
                attraction: sum.attraction.plus(attraction(rel, diff, dist, cfg)),
            };
            proof {
                row = row.push(draw);
            }
        }
        proof {
            lemma_pair_forces_frame(entries@, model@, *cfg, before, row, i as int, j as int);
        }
        j += 1;
    }
    (sum, Ghost(row))
}

/// Advances the layout by one step: sums the forces on each node, caps the
/// resulting velocity and moves the node for one time step. The random
/// generator is asked only for nodes that lie on each other.
pub fn simulate(
    projection: &mut GraphProjection,
    model: &Model,
    config: &LayoutConfig,
    rng: &mut StdRng,
)
    requires
        model.wf(),
    ensures
        exists|draws: Seq<Seq<(u32, u32)>>|
            draws.len() == old(projection)@.len() && final(projection)@ == step_spec(
                old(projection)@,
                model@,
                *config,
                draws,
            ),
        old(projection).wf() ==> final(projection).wf(),
{
    let entries: Vec<Entry> = projection.iter();
    let n: usize = entries.len();
    let sources: Vec<NodeId> = model.externals(Direction::Incoming);
    let sinks: Vec<NodeId> = model.externals(Direction::Outgoing);
    let mean: Vec2 = mean_position(&entries);
    let ghost mut draws: Seq<Seq<(u32, u32)>> = Seq::empty();
    let mut i: usize = 0;
    while i < n
        invariant
            i <= n,
            n == entries@.len(),
            entries@ == old(projection)@,
            projection@.len() == n,
            model.wf(),
            draws.len() == i,
            mean == center_of_mass(entries@),
            forall|id: NodeId| sources@.contains(id) <==> model@.is_external(Direction::Incoming, id),
            forall|id: NodeId| sinks@.contains(id) <==> model@.is_external(Direction::Outgoing, id),
            forall|k: int|
                0 <= k < i ==> projection@[k] == entry(
                    entries@[k].0,
                    next_position(entries@, model@, *config, draws[k], k),
                ),
            forall|k: int| i <= k < n ==> projection@[k] == entries@[k],
            old(projection).wf() ==> projection.wf(),
        decreases n - i,
    {
        let id = entries[i].0;
        let p = entries[i].1.pos;
        let (pairs, row) = node_forces(&entries, i, model, config, rng);
        let mut v = p.scaled(config.cohesion_weight).negated();
        if names(&sources, id) {
            v = v.plus(Vec2::from_x(fx_mul(fx_sub(-ONE, p.x), config.outward_weight)));
        }
        if names(&sinks, id) {
            v = v.plus(Vec2::from_x(fx_mul(fx_sub(ONE, p.x), config.outward_weight)));
        }
        v = v.plus(pairs.repulsion.scaled(config.repulsion_weight));
        v = v.plus(pairs.reorder);
        v = v.plus(pairs.attraction.scaled(config.neighbor_cohesion_weight));
        v = v.minus(mean.scaled(config.center_correction_weight));
        assert(v == velocity(entries@, model@, *config, row@, i as int));
        let capped = clamp_velocity(v, config.max_speed);
        let next = p.plus(capped.scaled(config.time_step));
        projection.set_at(i, next);
        proof {
            draws = draws.push(row@);
        }
        i += 1;
    }
    proof {
        assert(projection@ =~= step_spec(old(projection)@, model@, *config, draws));
    }
}

/// Advances the layout by `steps` steps.
pub fn relax(
    projection: &mut GraphProjection,
    model: &Model,
    config: &LayoutConfig,
    rng: &mut StdRng,
    steps: u32,
)
    requires
        model.wf(),
    ensures
        relaxed(old(projection)@, model@, *config, steps as nat, final(projection)@),
        old(projection).wf() ==> final(projection).wf(),
{
    let mut done: u32 = 0;
    while done < steps
        invariant
            done <= steps,
            model.wf(),
            relaxed(old(projection)@, model@, *config, done as nat, projection@),
            old(projection).wf() ==> projection.wf(),
        decreases steps - done,
    {
        let ghost mid = projection@;
        simulate(projection, model, config, rng);
        proof {
            let draws = choose|draws: Seq<Seq<(u32, u32)>>|
                draws.len() == mid.len() && projection@ == step_spec(mid, model@, *config, draws);
            assert(relaxed(old(projection)@, model@, *config, done as nat, mid) && draws.len()
                == mid.len() && projection@ == step_spec(mid, model@, *config, draws));
        }
        done += 1;
    }
}

} // verus!
