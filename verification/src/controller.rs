//! What the user's input does to the graph and to its view.
//!
//! The caller reads the input devices and hands over, once per frame, what
//! it found as a [`FrameInput`].

use vstd::prelude::*;
use rand::rngs::StdRng;
use crate::fixed::ONE;
use crate::geometry::Vec2;
use crate::geometry::origin;
use crate::model::Color;
use crate::model::Model;
use crate::model::NodeId;
use crate::projection::all_at_origin;
use crate::projection::ball;
use crate::projection::distinct_ids;
use crate::projection::entry;
use crate::projection::first_index;
use crate::projection::has_id;
use crate::projection::merge_spec;
use crate::projection::position_in;
use crate::projection::lemma_merge_ids;
use crate::projection::lemma_merge_keeps_known;
use crate::projection::Entry;
use crate::projection::GraphProjection;
use crate::simulation::relaxed;
use crate::simulation::LayoutConfig;
use crate::view_model::hit_spec;
use crate::view_model::in_zoom_range;
use crate::view_model::inverse_spec;
use crate::view_model::pan_spec;
use crate::view_model::transform_spec;
use crate::view_model::view_spec;
use crate::view_model::NODE_HALF_EXTENT;
use crate::view_model::WARM_START_STEPS;
use crate::view_model::zoom_spec;
use crate::view_model::ViewModel;

verus! {

/// What the input devices report for one frame.
#[derive(Clone, Copy, Debug, PartialEq, Eq, Structural)]
pub struct FrameInput {
    /// The user asked to leave.
    pub quit: bool,
    /// The user asked for a fresh layout.
    pub reset_view: bool,
    /// The user asked for a new node under the pointer.
    pub create_node: bool,
    /// The user asked to delete the node under the pointer.
    pub delete_node: bool,
    /// The user asked to show only the node under the pointer and its neighbours.
    pub focus_node: bool,
    /// The user asked to zoom in by one tick.
    pub zoom_in: bool,
    /// The user asked to zoom out by one tick.
    pub zoom_out: bool,
    /// Where the pointer is in the view, if it is there.
    pub mouse: Option<Vec2>,
    /// How far the user dragged the view in this frame, if at all.
    pub pan: Option<Vec2>,
}

/// The colour of a node that the user made.
pub open spec fn new_node_color() -> Color {
    Color { r: ONE, g: 0, b: ONE }
}

/// Whether `start` is a layout of the nodes within one step of `center`,
/// with every node at the origin.
pub open spec fn fresh_around(start: Seq<Entry>, model: Model, center: NodeId) -> bool {
    &&& distinct_ids(start)
    &&& all_at_origin(start)
    &&& forall|id: NodeId| has_id(start, id) <==> ball(model@, center, 1).contains(id)
}

/// The layout `start` with `id` moved to `pos`.
pub open spec fn placed(start: Seq<Entry>, id: NodeId, pos: Vec2) -> Seq<Entry> {
    if has_id(start, id) {
        start.update(first_index(start, id), entry(id, pos))
    } else {
        start
    }
}

/// The zoom after the zoom keys of `input` took effect.
pub open spec fn zoom_after(zoom: int, input: FrameInput) -> int {
    let z = if input.zoom_in {
        zoom_spec(zoom, 1)
    } else {
        zoom
    };
    if input.zoom_out {
        zoom_spec(z, -1)
    } else {
        z
    }
}

/// Whether the graphs `a` and `b` have the same nodes, edges, colours and
/// slots.
pub open spec fn same_graph(a: Model, b: Model) -> bool {
    &&& a@ == b@
    &&& a.same_slots(&b)
    &&& a.same_links(&b)
    &&& a.edge_total() == b.edge_total()
    &&& forall|id: NodeId| a@.nodes.contains(id) ==> a.color_of(id) == b.color_of(id)
}

/// Whether `m1` and `layout1` are the graph `m0` and the layout `layout0`
/// after the node `id` was made at `position`.
pub open spec fn created(
    layout0: Seq<Entry>,
    m0: Model,
    position: Vec2,
    layout1: Seq<Entry>,
    m1: Model,
    id: NodeId,
) -> bool {
    &&& !m0@.nodes.contains(id)
    &&& !m0.retired().contains(id)
    &&& id.index == m0.next_index()
    &&& id.generation == m0.generation_of(id.index)
    &&& m1@ == m0@.with_node(id)
    &&& m1.color_of(id) == new_node_color()
    &&& m1.same_links(&m0)
    &&& forall|i: u32| m1.generation_of(i) == m0.generation_of(i)
    &&& forall|other: NodeId| m0@.nodes.contains(other) ==> m1.color_of(other) == m0.color_of(other)
    &&& exists|start: Seq<Entry>|
        ViewModel::fresh(start, m1) && layout1 == merge_spec(placed(start, id, position), layout0)
}

/// Whether `m1` and `layout1` are the graph `m0` and the layout `layout0`
/// after an attempt to delete the node `id`.
pub open spec fn deleted(
    layout0: Seq<Entry>,
    m0: Model,
    id: NodeId,
    layout1: Seq<Entry>,
    m1: Model,
) -> bool {
    &&& if m0@.nodes.contains(id) && id.generation < u32::MAX {
        &&& m1@ == m0@.without(id)
        &&& m1.generation_of(id.index) == id.generation + 1
        &&& forall|a: NodeId, b: NodeId|
            m1.links(a, b) == (if a == id || b == id {
                0
            } else {
                m0.links(a, b)
            })
    } else {
        m1@ == m0@ && m1.same_links(&m0) && m1.generation_of(id.index) == m0.generation_of(id.index)
    }
    &&& forall|i: u32| i != id.index ==> m1.generation_of(i) == m0.generation_of(i)
    &&& forall|other: NodeId| m1@.nodes.contains(other) ==> m1.color_of(other) == m0.color_of(other)
    &&& exists|start: Seq<Entry>| ViewModel::fresh(start, m1) && layout1 == merge_spec(start, layout0)
}

/// Whether `layout1` shows the node `id` of `model` and its neighbours, each
/// where `layout0` has it.
pub open spec fn focused(layout0: Seq<Entry>, model: Model, id: NodeId, layout1: Seq<Entry>) -> bool {
    exists|start: Seq<Entry>|
        fresh_around(start, model, id) && layout1 == merge_spec(start, layout0)
}

/// After a deletion the deleted node is gone from the layout, and every other
/// node that the layout showed is where it was.
pub proof fn lemma_delete_keeps_the_rest(
    layout0: Seq<Entry>,
    m0: Model,
    id: NodeId,
    layout1: Seq<Entry>,
    m1: Model,
    other: NodeId,
)
    requires
        deleted(layout0, m0, id, layout1, m1),
        m0@.nodes.contains(id),
        id.generation < u32::MAX,
        m0@.nodes.contains(other),
        other != id,
        has_id(layout0, other),
    ensures
        !has_id(layout1, id),
        position_in(layout1, other) == position_in(layout0, other),
{
    let start = choose|start: Seq<Entry>|
        ViewModel::fresh(start, m1) && layout1 == merge_spec(start, layout0);
    assert(m1@.nodes == m0@.nodes.remove(id));
    assert(has_id(start, id) == m1@.nodes.contains(id));
    assert(has_id(start, other) == m1@.nodes.contains(other));
    lemma_merge_ids(start, layout0);
    lemma_merge_keeps_known(start, layout0, other);
}

/// Adds a node to the graph and shows it at `position`. The other nodes stay
/// where the view has them. Returns `None`, and changes nothing, when the
/// graph is full.
pub fn create_node_at(view_model: &mut ViewModel, model: &mut Model, position: Vec2) -> (r: Option<
    NodeId,
>)
    requires
        old(model).wf(),
    ensures
        final(model).wf(),
        r.is_some() <==> old(model)@.nodes.len() < u32::MAX,
        match r {
            Some(id) => created(
                old(view_model).layout(),
                *old(model),
                position,
                final(view_model).layout(),
                *final(model),
                id,
            ) && final(view_model).wf(),
            None => same_graph(*old(model), *final(model)) && final(view_model).layout() == old(
                view_model,
            ).layout(),
        },
        final(view_model).same_frame(old(view_model)),
{
    match model.add_node(Color::rgb(ONE, 0, ONE)) {
        Some(id) => {
            let mut projection = GraphProjection::from_graph(model);
            let ghost start = projection@;
            projection.set_position(id, position);
            assert(projection@ == placed(start, id, position));
            view_model.set_projection(projection);
            assert(ViewModel::fresh(start, *model) && view_model.layout() == merge_spec(
                placed(start, id, position),
                old(view_model).layout(),
            ));
            Some(id)
        },
        None => None,
    }
}

/// Removes the node `id` from the graph and shows the graph that is left,
/// with every node where the view has it. Returns whether the graph held
/// the node and could drop it.
pub fn delete_node(view_model: &mut ViewModel, model: &mut Model, id: NodeId) -> (removed: bool)
    requires
        old(model).wf(),
    ensures
        final(model).wf(),
        removed <==> old(model)@.nodes.contains(id) && id.generation < u32::MAX,
        deleted(
            old(view_model).layout(),
            *old(model),
            id,
            final(view_model).layout(),
            *final(model),
        ),
        final(view_model).wf(),
        final(view_model).same_frame(old(view_model)),
{
    let removed = model.remove_node(id);
    let projection = GraphProjection::from_graph(model);
    let ghost start = projection@;
    view_model.set_projection(projection);
    assert(ViewModel::fresh(start, *model) && view_model.layout() == merge_spec(
        start,
        old(view_model).layout(),
    ));
    removed
}

/// Shows only the node `id` and its neighbours, each where the view has it.
pub fn focus_node(view_model: &mut ViewModel, model: &Model, id: NodeId)
    requires
        model.wf(),
    ensures
        focused(old(view_model).layout(), *model, id, final(view_model).layout()),
        final(view_model).wf(),
        final(view_model).same_frame(old(view_model)),
{
    let projection = GraphProjection::from_subgraph(model, id, 1);
    let ghost start = projection@;
    view_model.set_projection(projection);
    assert(fresh_around(start, *model, id) && view_model.layout() == merge_spec(
        start,
        old(view_model).layout(),
    ));
}

/// What a reset does to the layout: with `wanted`, `after` is the layout of
/// the whole graph settled by the warm-start steps; without, it is `before`.
pub open spec fn reset_stage(
    before: Seq<Entry>,
    model: Model,
    cfg: LayoutConfig,
    wanted: bool,
    after: Seq<Entry>,
) -> bool {
    if wanted {
        exists|start: Seq<Entry>|
            ViewModel::fresh(start, model) && relaxed(
                start,
                model@,
                cfg,
                WARM_START_STEPS as nat,
                after,
            )
    } else {
        after == before
    }
}

/// What creating does: with `wanted`, a pointer and room in the graph, a
/// node is made under the pointer; else nothing changes.
pub open spec fn create_stage(
    before: Seq<Entry>,
    m0: Model,
    wanted: bool,
    pointer: Option<Vec2>,
    after: Seq<Entry>,
    m1: Model,
) -> bool {
    if wanted && pointer.is_some() && m0@.nodes.len() < u32::MAX {
        exists|id: NodeId| created(before, m0, pointer.unwrap(), after, m1, id)
    } else {
        after == before && same_graph(m0, m1)
    }
}

/// What deleting does: with `wanted` and a hovered node, that node is
/// deleted; else nothing changes.
pub open spec fn delete_stage(
    before: Seq<Entry>,
    m0: Model,
    wanted: bool,
    hovered: Option<NodeId>,
    after: Seq<Entry>,
    m1: Model,
) -> bool {
    if wanted && hovered.is_some() {
        deleted(before, m0, hovered.unwrap(), after, m1)
    } else {
        after == before && same_graph(m0, m1)
    }
}

/// What focusing does: with `wanted` and a hovered node, the layout shows
/// that node and its neighbours; else nothing changes.
pub open spec fn focus_stage(
    before: Seq<Entry>,
    model: Model,
    wanted: bool,
    hovered: Option<NodeId>,
    after: Seq<Entry>,
) -> bool {
    if wanted && hovered.is_some() {
        focused(before, model, hovered.unwrap(), after)
    } else {
        after == before
    }
}

/// Where the pointer of `input` is in the world, for a camera at `pan` with
/// zoom `zoom`.
pub open spec fn pointer_spec(pan: Vec2, zoom: int, input: FrameInput) -> Option<Vec2> {
    match input.mouse {
        Some(view_point) => Some(
            transform_spec(inverse_spec(view_spec(pan, zoom)), view_point),
        ),
        None => None,
    }
}

/// The node under the pointer, in the layout `layout`.
pub open spec fn hover_spec(layout: Seq<Entry>, pointer: Option<Vec2>) -> Option<NodeId> {
    match pointer {
        Some(point) => hit_spec(layout, point, NODE_HALF_EXTENT as int),
        None => None,
    }
}

/// Whether a frame with the input `input` leads from the layout `l0` and the
/// graph `m0` to the layout `l4` and the graph `m2`, by way of a reset, the
/// making of a node, the deletion of one, and the focus on one, in this
/// order. The pointer is read through the camera at `pan` with zoom `zoom`;
/// the hovered node is taken after the reset.
pub open spec fn frame_spec(
    input: FrameInput,
    cfg: LayoutConfig,
    pan: Vec2,
    zoom: int,
    l0: Seq<Entry>,
    m0: Model,
    l1: Seq<Entry>,
    l2: Seq<Entry>,
    m1: Model,
    l3: Seq<Entry>,
    m2: Model,
    l4: Seq<Entry>,
) -> bool {
    let pointer = pointer_spec(pan, zoom, input);
    let hovered = hover_spec(l1, pointer);
    &&& reset_stage(l0, m0, cfg, input.reset_view, l1)
    &&& create_stage(l1, m0, input.create_node, pointer, l2, m1)
    &&& delete_stage(l2, m1, input.delete_node, hovered, l3, m2)
    &&& focus_stage(l3, m2, input.focus_node, hovered, l4)
}

/// Reacts to the user's input.
pub struct Controller {
    /// Whether the user asked to leave.
    pub quit_requested: bool,
}

impl Controller {
    /// A controller that nobody asked to leave yet.
    pub fn new() -> (c: Controller)
        ensures
            !c.quit_requested,
    {
        Controller { quit_requested: false }
    }

    /// Applies the input of one frame, in this order: quit, reset, hover,
    /// create, delete, focus, zoom, pan. Creating, deleting and focusing refer
    /// to the pointer and to the node under it; without them they do nothing.
    pub fn update(
        &mut self,
        input: &FrameInput,
        view_model: &mut ViewModel,
        model: &mut Model,
        rng: &mut StdRng,
    )
        requires
            old(model).wf(),
            in_zoom_range(old(view_model).zoom()),
        ensures
            final(model).wf(),
            in_zoom_range(final(view_model).zoom()),
            final(self).quit_requested == (old(self).quit_requested || input.quit),
            final(view_model).settings() == old(view_model).settings(),
            final(view_model).zoom() == zoom_after(old(view_model).zoom(), *input),
            final(view_model).pan() == match input.pan {
                Some(delta) => pan_spec(
                    old(view_model).pan(),
                    zoom_after(old(view_model).zoom(), *input),
                    delta,
                ),
                None => old(view_model).pan(),
            },
            exists|l1: Seq<Entry>, l2: Seq<Entry>, m1: Model, l3: Seq<Entry>|
                #[trigger] frame_spec(
                    *input,
                    old(view_model).settings(),
                    old(view_model).pan(),
                    old(view_model).zoom(),
                    old(view_model).layout(),
                    *old(model),
                    l1,
                    l2,
                    m1,
                    l3,
                    *final(model),
                    final(view_model).layout(),
                ) && final(view_model).hovered() == hover_spec(
                    l1,
                    pointer_spec(old(view_model).pan(), old(view_model).zoom(), *input),
                ),
    {
        if input.quit {
            self.quit_requested = true;
        }
        if input.reset_view {
            view_model.reset(model, rng);
        }
        let ghost l1 = view_model.layout();
        let world_mouse: Option<Vec2> = match input.mouse {
            Some(view_point) => Some(view_model.view_to_world(view_point)),
            None => None,
        };
        let hovered: Option<NodeId> = match world_mouse {
            Some(point) => view_model.node_at(point),
            None => None,
        };
        view_model.set_hovered_node(hovered);
        if input.create_node {
            if let Some(point) = world_mouse {
                let _ = create_node_at(view_model, model, point);
            }
        }
        let ghost l2 = view_model.layout();
        let ghost m1 = *model;
        if input.delete_node {
            if let Some(id) = hovered {
                let _ = delete_node(view_model, model, id);
            }
        }
        let ghost l3 = view_model.layout();
        if input.focus_node {
            if let Some(id) = hovered {
                focus_node(view_model, model, id);
            }
        }
        if input.zoom_in {
            view_model.zoom_camera(1);
        }
        if input.zoom_out {
            view_model.zoom_camera(-1);
        }
        if let Some(delta) = input.pan {
            view_model.pan_camera(delta);
        }
        proof {
            assert(frame_spec(
                *input,
                old(view_model).settings(),
                old(view_model).pan(),
                old(view_model).zoom(),
                old(view_model).layout(),
                *old(model),
                l1,
                l2,
                m1,
                l3,
                *model,
                view_model.layout(),
            ));
        }
    }
}

} // verus!
