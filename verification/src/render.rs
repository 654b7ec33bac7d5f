//! The shapes that show a layout: a square for each node and an arrow for
//! each edge. They are plain data; putting them on a screen is up to the
//! caller.

use vstd::prelude::*;
use crate::geometry::Vec2;
use crate::geometry::vec2;
use crate::geometry::v_add;
use crate::geometry::v_sub;
use crate::geometry::v_scale;
use crate::geometry::v_unit;
use crate::fixed::fx_neg;
use crate::fixed::sat;
use crate::model::Color;
use crate::model::Direction;
use crate::model::Model;
use crate::model::NodeId;
use crate::projection::has_id;
use crate::projection::position_in;
use crate::model::count_ids;
use crate::projection::Entry;
use crate::projection::GraphProjection;
use crate::view_model::NODE_HALF_EXTENT;

verus! {

/// How far before its end node an arrow stops.
pub const ARROW_GAP: i64 = 150_000;

/// The length of an arrow's head, and half its width.
pub const ARROW_SIZE: i64 = 20_000;

/// The length of the stub that stands for an edge to a node not on display.
pub const STUB_LENGTH: i64 = 500_000;

/// A point of a line strip, or a break between two lines of the strip.
#[derive(Clone, Copy, Debug, PartialEq, Eq, Structural)]
pub enum LineVertex {
    /// A point of a line.
    Point { pos: Vec2, color: Color },
    /// The end of a line: the next point starts another.
    Break,
}

/// A square with its sides along the axes.
#[derive(Clone, Copy, Debug, PartialEq, Eq, Structural)]
pub struct Quad {
    pub bottom_left: Vec2,
    pub bottom_right: Vec2,
    pub top_right: Vec2,
    pub top_left: Vec2,
}

/// A square and its colour.
#[derive(Clone, Copy, Debug, PartialEq, Eq, Structural)]
pub struct ColoredQuad {
    pub quad: Quad,
    pub color: Color,
}

/// White.
pub open spec fn white() -> Color {
    Color { r: 1_000_000, g: 1_000_000, b: 1_000_000 }
}

/// Grey.
pub open spec fn grey() -> Color {
    Color { r: 500_000, g: 500_000, b: 500_000 }
}

/// The vector `a` turned left by a quarter turn.
pub open spec fn perp_spec(a: Vec2) -> Vec2 {
    vec2(sat(-a.y), a.x as int)
}

/// The square that stands for a node at `pos`.
pub open spec fn node_geom_spec(pos: Vec2) -> Quad {
    let h = vec2(NODE_HALF_EXTENT as int, NODE_HALF_EXTENT as int);
    let low = v_sub(pos, h);
    let high = v_add(pos, h);
    Quad {
        bottom_left: low,
        bottom_right: vec2(high.x as int, low.y as int),
        top_right: high,
        top_left: vec2(low.x as int, high.y as int),
    }
}

/// One line from `start` to `end`, and the break after it.
pub open spec fn segment(start: Vec2, end: Vec2, color: Color) -> Seq<LineVertex> {
    seq![
        LineVertex::Point { pos: start, color },
        LineVertex::Point { pos: end, color },
        LineVertex::Break,
    ]
}

/// The arrow from a node at `from` toward a node at `to`: a shaft that stops
/// short of `to`, and the two sides of the head.
pub open spec fn arrow_spec(from: Vec2, to: Vec2) -> Seq<LineVertex> {
    let dir = v_unit(v_sub(to, from));
    let end = v_sub(to, v_scale(dir, ARROW_GAP as int));
    let neck = v_sub(end, v_scale(dir, ARROW_SIZE as int));
    let wing = v_scale(perp_spec(dir), ARROW_SIZE as int);
    segment(from, end, white()) + segment(v_sub(neck, wing), end, white()) + segment(
        v_add(neck, wing),
        end,
        white(),
    )
}

/// The stub at a node at `from` for its edges to nodes that are not on display.
pub open spec fn stub_spec(from: Vec2) -> Seq<LineVertex> {
    segment(from, v_add(from, vec2(STUB_LENGTH as int, 0)), grey())
}

/// The line for one edge from a node at `from` to the node `target`: an
/// arrow where the layout shows `target`, else a stub.
pub open spec fn edge_line(entries: Seq<Entry>, from: Vec2, target: NodeId) -> Seq<LineVertex> {
    match position_in(entries, target) {
        Some(to) => arrow_spec(from, to),
        None => stub_spec(from),
    }
}

/// The lines for the edges from a node at `from` to the first `k` of `targets`.
pub open spec fn lines_to(entries: Seq<Entry>, from: Vec2, targets: Seq<NodeId>, k: int) -> Seq<
    LineVertex,
>
    decreases k,
{
    if k <= 0 {
        Seq::<LineVertex>::empty()
    } else {
        lines_to(entries, from, targets, k - 1) + edge_line(entries, from, targets[k - 1])
    }
}

/// The lines that start at the first `k` entries, where `targets[i]` lists
/// the ends of the edges that leave the node at place `i`.
pub open spec fn lines_spec(entries: Seq<Entry>, targets: Seq<Seq<NodeId>>, k: int) -> Seq<
    LineVertex,
>
    decreases k,
{
    if k <= 0 {
        Seq::<LineVertex>::empty()
    } else {
        lines_spec(entries, targets, k - 1) + lines_to(
            entries,
            entries[k - 1].1.pos,
            targets[k - 1],
            targets[k - 1].len() as int,
        )
    }
}

/// Whether `targets` lists, for the node of each entry, the ends of the
/// edges that leave it: each node as often as edges lead to it.
pub open spec fn lists_edges(entries: Seq<Entry>, model: Model, targets: Seq<Seq<NodeId>>) -> bool {
    &&& targets.len() == entries.len()
    &&& forall|i: int, b: NodeId|
        0 <= i < entries.len() ==> #[trigger] count_ids(targets[i], b) == model.links(
            entries[i].0,
            b,
        )
}

/// How many of the first `k` of `targets` the layout shows.
pub open spec fn shown_among(entries: Seq<Entry>, targets: Seq<NodeId>, k: int) -> nat
    decreases k,
{
    if k <= 0 {
        0
    } else {
        shown_among(entries, targets, k - 1) + if has_id(entries, targets[k - 1]) {
            1nat
        } else {
            0nat
        }
    }
}

/// The number of edges that leave the nodes of the first `k` entries.
pub open spec fn edges_from(targets: Seq<Seq<NodeId>>, k: int) -> nat
    decreases k,
{
    if k <= 0 {
        0
    } else {
        edges_from(targets, k - 1) + targets[k - 1].len()
    }
}

/// The number of edges that lead from the nodes of the first `k` entries to
/// a node that the layout shows.
pub open spec fn edges_within(entries: Seq<Entry>, targets: Seq<Seq<NodeId>>, k: int) -> nat
    decreases k,
{
    if k <= 0 {
        0
    } else {
        edges_within(entries, targets, k - 1) + shown_among(
            entries,
            targets[k - 1],
            targets[k - 1].len() as int,
        )
    }
}

/// An arrow takes nine points of the strip and a stub three.
pub proof fn lemma_lines_to_len(entries: Seq<Entry>, from: Vec2, targets: Seq<NodeId>, k: int)
    requires
        0 <= k <= targets.len(),
    ensures
        lines_to(entries, from, targets, k).len() == 3 * k + 6 * shown_among(entries, targets, k),
    decreases k,
{
    if k > 0 {
        lemma_lines_to_len(entries, from, targets, k - 1);
    }
}

/// The strip holds nine points for each edge between nodes on display and
/// three for each edge from a node on display to one that is not.
pub proof fn lemma_lines_len(entries: Seq<Entry>, targets: Seq<Seq<NodeId>>, k: int)
    requires
        0 <= k <= entries.len(),
        k <= targets.len(),
    ensures
        lines_spec(entries, targets, k).len() == 3 * edges_from(targets, k) + 6 * edges_within(
            entries,
            targets,
            k,
        ),
    decreases k,
{
    if k > 0 {
        lemma_lines_len(entries, targets, k - 1);
        lemma_lines_to_len(
            entries,
            entries[k - 1].1.pos,
            targets[k - 1],
            targets[k - 1].len() as int,
        );
    }
}

/// The lines of the first `k` entries depend on their targets only.
pub proof fn lemma_lines_frame(
    entries: Seq<Entry>,
    t1: Seq<Seq<NodeId>>,
    t2: Seq<Seq<NodeId>>,
    k: int,
)
    requires
        k <= t1.len(),
        k <= t2.len(),
        forall|i: int| 0 <= i < k ==> t1[i] == t2[i],
    ensures
        lines_spec(entries, t1, k) == lines_spec(entries, t2, k),
    decreases k,
{
    if k > 0 {
        lemma_lines_frame(entries, t1, t2, k - 1);
    }
}

/// The squares of those of the first `k` entries that the graph holds, each
/// in the colour of its node.
pub open spec fn quads_spec(entries: Seq<Entry>, model: Model, k: int) -> Seq<ColoredQuad>
    decreases k,
{
    if k <= 0 {
        Seq::<ColoredQuad>::empty()
    } else {
        let before = quads_spec(entries, model, k - 1);
        let e = entries[k - 1];
        if model@.nodes.contains(e.0) {
            before.push(ColoredQuad { quad: node_geom_spec(e.1.pos), color: model.color_of(e.0) })
        } else {
            before
        }
    }
}

/// The vector `a` turned left by a quarter turn.
pub fn perp(a: Vec2) -> (r: Vec2)
    ensures
        r == perp_spec(a),
{
    Vec2 { x: fx_neg(a.y), y: a.x }
}

/// The square that stands for a node at `pos`.
pub fn node_geom(pos: Vec2) -> (q: Quad)
    ensures
        q == node_geom_spec(pos),
{
    let h = Vec2::splat(NODE_HALF_EXTENT);
    let low = pos.minus(h);
    let high = pos.plus(h);
    Quad {
        bottom_left: low,
        bottom_right: Vec2 { x: high.x, y: low.y },
        top_right: high,
        top_left: Vec2 { x: low.x, y: high.y },
    }
}

/// Collects the lines of a drawing as one strip with breaks.
pub struct LineBuilder2D {
    vertices: Vec<LineVertex>,
}

impl View for LineBuilder2D {
    type V = Seq<LineVertex>;

    /// The strip.
    closed spec fn view(&self) -> Seq<LineVertex> {
        self.vertices@
    }
}

impl LineBuilder2D {
    /// A builder without lines.
    pub fn new() -> (b: LineBuilder2D)
        ensures
            b@.len() == 0,
    {
        LineBuilder2D { vertices: Vec::new() }
    }

    /// Drops all lines.
    pub fn clear(&mut self)
        ensures
            final(self)@.len() == 0,
    {
        self.vertices.clear();
    }

    /// Adds the line from `start` to `end`.
    pub fn add(&mut self, start: Vec2, end: Vec2, color: Color)
        ensures
            final(self)@ == old(self)@ + segment(start, end, color),
    {
        self.vertices.push(LineVertex::Point { pos: start, color });
        self.vertices.push(LineVertex::Point { pos: end, color });
        self.vertices.push(LineVertex::Break);
        assert(self@ =~= old(self)@ + segment(start, end, color));
    }

    /// The strip.
    pub fn vertices(&self) -> (v: &Vec<LineVertex>)
        ensures
            v@ == self@,
    {
        &self.vertices
    }

    /// Adds the arrow from a node at `from` toward a node at `to`.
    pub fn add_arrow(&mut self, from: Vec2, to: Vec2)
        ensures
            final(self)@ == old(self)@ + arrow_spec(from, to),
    {
        let white = Color::white();
        let dir = to.minus(from).normalized();
        let end = to.minus(dir.scaled(ARROW_GAP));
        let neck = end.minus(dir.scaled(ARROW_SIZE));
        let wing = perp(dir).scaled(ARROW_SIZE);
        self.add(from, end, white);
        self.add(neck.minus(wing), end, white);
        self.add(neck.plus(wing), end, white);
        assert(self@ =~= old(self)@ + arrow_spec(from, to));
    }
}

/// Adds a line for each edge that leaves a node on display: an arrow toward
/// the edge's end where that is on display, else a grey stub. Parallel edges
/// get a line each.
pub fn build_lines(
    line_builder: &mut LineBuilder2D,
    graph_projection: &GraphProjection,
    model: &Model,
)
    requires
        model.wf(),
    ensures
        exists|targets: Seq<Seq<NodeId>>|
            lists_edges(graph_projection@, *model, targets) && final(line_builder)@ == old(
                line_builder,
            )@ + #[trigger] lines_spec(graph_projection@, targets, graph_projection@.len() as int),
{
    let n: usize = graph_projection.len();
    let ghost mut targets: Seq<Seq<NodeId>> = Seq::empty();
    let mut i: usize = 0;
    assert(line_builder@ =~= old(line_builder)@ + lines_spec(graph_projection@, targets, 0));
    while i < n
        invariant
            i <= n,
            n == graph_projection@.len(),
            model.wf(),
            targets.len() == i,
            forall|j: int, b: NodeId|
                0 <= j < i ==> #[trigger] count_ids(targets[j], b) == model.links(
                    graph_projection@[j].0,
                    b,
                ),
            line_builder@ == old(line_builder)@ + lines_spec(graph_projection@, targets, i as int),
        decreases n - i,
    {
        let from = graph_projection.get(i);
        let near: Vec<NodeId> = model.neighbors_directed(from.0, Direction::Outgoing);
        let ghost base = line_builder@;
        let mut k: usize = 0;
        assert(line_builder@ =~= base + lines_to(graph_projection@, from.1.pos, near@, 0));
        while k < near.len()
            invariant
                k <= near@.len(),
                line_builder@ == base + lines_to(graph_projection@, from.1.pos, near@, k as int),
            decreases near@.len() - k,
        {
            match graph_projection.position(near[k]) {
                Some(to) => {
                    line_builder.add_arrow(from.1.pos, to);
                },
                None => {
                    let grey = Color::rgb(500_000, 500_000, 500_000);
                    line_builder.add(from.1.pos, from.1.pos.plus(Vec2::from_x(STUB_LENGTH)), grey);
                },
            }
            assert(line_builder@ =~= base + lines_to(
                graph_projection@,
                from.1.pos,
                near@,
                k + 1,
            ));
            k += 1;
        }
        proof {
            let before = targets;
            targets = targets.push(near@);
            lemma_lines_frame(graph_projection@, before, targets, i as int);
            assert(line_builder@ =~= old(line_builder)@ + lines_spec(
                graph_projection@,
                targets,
                i + 1,
            ));
        }
        i += 1;
    }
    proof {
        assert(lists_edges(graph_projection@, *model, targets));
    }
}

/// Adds the square of each node on display, in the node's colour. An entry
/// for which the graph holds no node gets no square.
pub fn build_nodes(
    mesh_data: &mut Vec<ColoredQuad>,
    graph_projection: &GraphProjection,
    model: &Model,
)
    requires
        model.wf(),
    ensures
        final(mesh_data)@ == old(mesh_data)@ + quads_spec(
            graph_projection@,
            *model,
            graph_projection@.len() as int,
        ),
{
    let n: usize = graph_projection.len();
    let mut i: usize = 0;
    assert(mesh_data@ =~= old(mesh_data)@ + quads_spec(graph_projection@, *model, 0));
    while i < n
        invariant
            i <= n,
            n == graph_projection@.len(),
            model.wf(),
            mesh_data@ == old(mesh_data)@ + quads_spec(graph_projection@, *model, i as int),
        decreases n - i,
    {
        let e = graph_projection.get(i);
        match model.node_color(e.0) {
            Some(color) => {
                mesh_data.push(ColoredQuad { quad: node_geom(e.1.pos), color });
            },
            None => {},
        }
        assert(mesh_data@ =~= old(mesh_data)@ + quads_spec(graph_projection@, *model, i + 1));
        i += 1;
    }
}

} // verus!
