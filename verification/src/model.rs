//! The graph to lay out.
//!
//! A [`Model`] owns the graph and hands out the identifiers of its nodes. An
//! identifier is the node's slot in the graph together with the slot's
//! generation. The graph reuses the slot of a removed node for a later one;
//! the generation of a slot goes up with every removal, so the identifier of
//! a removed node never comes to stand for another node.

use vstd::prelude::*;
use vstd::set_lib::lemma_map_size;
use crate::fixed::ONE;
use crate::graph::Graph;
use crate::graph::graph_nodes;
use crate::graph::graph_edges;
use crate::graph::graph_vacant;
use crate::graph::after_filling;
use crate::graph::count_of;
use crate::graph::directed;
use crate::graph::graph_neighbors_directed;
use crate::graph::graph_new;
use crate::graph::graph_node_count;
use crate::graph::graph_edge_count;
use crate::graph::graph_add_node;
use crate::graph::graph_remove_node;
use crate::graph::graph_add_edge;
use crate::graph::graph_node_weight;
use crate::graph::graph_node_indices;
use crate::graph::graph_externals;
use crate::graph::graph_find_edge_undirected;
use crate::graph::graph_neighbors_undirected;
use crate::graph::is_external;
use crate::graph::externals_of;
use crate::graph::joined_to;

verus! {

/// The direction of an edge, seen from one of its ends.
#[derive(Clone, Copy, Debug, PartialEq, Eq, Structural)]
pub enum Direction {
    /// The edge leaves the node.
    Outgoing,
    /// The edge arrives at the node.
    Incoming,
}

/// An RGB colour; each channel is a fixed-point number between zero and `ONE`.
#[derive(Clone, Copy, Debug, PartialEq, Eq, Structural)]
pub struct Color {
    pub r: i64,
    pub g: i64,
    pub b: i64,
}

impl Color {
    /// The colour with the given channels.
    pub fn rgb(r: i64, g: i64, b: i64) -> (c: Color)
        ensures
            c == (Color { r, g, b }),
    {
        Color { r, g, b }
    }

    /// White.
    pub fn white() -> (c: Color)
        ensures
            c == (Color { r: ONE, g: ONE, b: ONE }),
    {
        Color { r: ONE, g: ONE, b: ONE }
    }
}

/// What the graph stores for each node.
#[derive(Clone, Copy, Debug, PartialEq, Eq, Structural)]
pub struct Node {
    pub color: Color,
}

/// The identifier of a node: its slot in the graph and the slot's generation.
#[derive(Clone, Copy, Debug, PartialEq, Eq, Hash, Structural)]
pub struct NodeId {
    pub index: u32,
    pub generation: u32,
}

/// The shape of a graph: its nodes, and which ordered pairs an edge connects.
#[verifier::ext_equal]
pub ghost struct Topology {
    pub nodes: Set<NodeId>,
    pub edges: Set<(NodeId, NodeId)>,
}

impl Topology {
    /// Every edge connects two nodes of the graph, and the nodes are finitely many.
    pub open spec fn wf(self) -> bool {
        &&& self.nodes.finite()
        &&& forall|a: NodeId, b: NodeId| #[trigger]
            self.edges.contains((a, b)) ==> self.nodes.contains(a) && self.nodes.contains(b)
    }

    /// Whether `n` is a node without an edge toward it (`Incoming`: a source)
    /// or away from it (`Outgoing`: a sink).
    pub open spec fn is_external(self, dir: Direction, n: NodeId) -> bool {
        &&& self.nodes.contains(n)
        &&& match dir {
            Direction::Incoming => forall|m: NodeId| !self.edges.contains((m, n)),
            Direction::Outgoing => forall|m: NodeId| !self.edges.contains((n, m)),
        }
    }

    /// How `a` is connected to `b`: by an edge from `a` to `b`, else by one
    /// from `b` to `a`, else not at all.
    pub open spec fn relation(self, a: NodeId, b: NodeId) -> Option<Direction> {
        if self.edges.contains((a, b)) {
            Some(Direction::Outgoing)
        } else if self.edges.contains((b, a)) {
            Some(Direction::Incoming)
        } else {
            None
        }
    }

    /// Whether an edge connects `a` and `b`, in either direction.
    pub open spec fn adjacent(self, a: NodeId, b: NodeId) -> bool {
        self.edges.contains((a, b)) || self.edges.contains((b, a))
    }

    /// The nodes that an edge connects to `a`.
    pub open spec fn neighbors(self, a: NodeId) -> Set<NodeId> {
        Set::new(|b: NodeId| self.adjacent(a, b))
    }

    /// This graph with one more node.
    pub open spec fn with_node(self, id: NodeId) -> Topology {
        Topology { nodes: self.nodes.insert(id), edges: self.edges }
    }

    /// This graph with an edge from `a` to `b`.
    pub open spec fn with_edge(self, a: NodeId, b: NodeId) -> Topology {
        Topology { nodes: self.nodes, edges: self.edges.insert((a, b)) }
    }

    /// This graph without the node `id` and without the edges at `id`.
    pub open spec fn without(self, id: NodeId) -> Topology {
        Topology {
            nodes: self.nodes.remove(id),
            edges: Set::new(|e: (NodeId, NodeId)| self.edges.contains(e) && e.0 != id && e.1 != id),
        }
    }
}

/// Whether the identifiers in `ids` come by increasing slot.
pub open spec fn by_slot(ids: Seq<NodeId>) -> bool {
    forall|i: int, j: int| 0 <= i < j < ids.len() ==> ids[i].index < ids[j].index
}

/// The graph and the generation of each of its slots.
pub struct Model {
    graph: Graph,
    generations: Vec<u32>,
}

impl View for Model {
    type V = Topology;

    /// The shape of the graph, over the identifiers of its nodes.
    closed spec fn view(&self) -> Topology {
        Topology {
            nodes: Set::new(|id: NodeId| self.live(id)),
            edges: Set::new(
                |e: (NodeId, NodeId)|
                    self.live(e.0) && self.live(e.1) && graph_edges(self.graph).contains(
                        (e.0.index as int, e.1.index as int),
                    ),
            ),
        }
    }
}

impl Model {
    /// What holds of every model: its nodes are finitely many and each edge
    /// connects two of them.
    pub closed spec fn wf(&self) -> bool {
        &&& graph_nodes(self.graph).dom().finite()
        &&& forall|i: int| #[trigger]
            graph_nodes(self.graph).contains_key(i) ==> 0 <= i <= u32::MAX
        &&& forall|a: int, b: int| #[trigger]
            graph_edges(self.graph).contains((a, b)) ==> graph_nodes(self.graph).contains_key(a)
                && graph_nodes(self.graph).contains_key(b)
    }

    /// The generation of the slot `index`: how many nodes were removed from it.
    spec fn generation_at(&self, index: int) -> int {
        if 0 <= index < self.generations@.len() {
            self.generations@[index] as int
        } else {
            0
        }
    }

    /// The identifier that the slot `index` has now.
    spec fn id_at(&self, index: int) -> NodeId {
        NodeId { index: index as u32, generation: self.generation_at(index) as u32 }
    }

    /// Whether `id` names a node that the graph holds.
    spec fn live(&self, id: NodeId) -> bool {
        &&& graph_nodes(self.graph).contains_key(id.index as int)
        &&& self.generation_at(id.index as int) == id.generation
    }

    /// The generation of the slot `index`: how many nodes were removed from
    /// it. A node has the generation that its slot had when the node was made.
    pub closed spec fn generation_of(&self, index: u32) -> u32 {
        self.generation_at(index as int) as u32
    }

    /// The identifiers of removed nodes: those of a generation that their
    /// slot has left behind. None of them names a node again.
    pub open spec fn retired(&self) -> Set<NodeId> {
        Set::new(|id: NodeId| id.generation < self.generation_of(id.index))
    }

    /// The number of edges from `a` to `b`.
    pub closed spec fn links(&self, a: NodeId, b: NodeId) -> nat {
        if self.live(a) && self.live(b) {
            graph_edges(self.graph).count((a.index as int, b.index as int))
        } else {
            0
        }
    }

    /// The slots that removed nodes left vacant, in the order in which new
    /// nodes will take them: the slot vacated last comes first.
    pub closed spec fn vacant(&self) -> Seq<int> {
        graph_vacant(self.graph)
    }

    /// The slot that the next node gets: the first vacant one, or the slot
    /// behind all nodes where none is vacant.
    pub open spec fn next_index(&self) -> int {
        if self.vacant().len() > 0 {
            self.vacant()[0]
        } else {
            self@.nodes.len() as int
        }
    }

    /// Whether every slot has the generation in `other` that it has here.
    pub open spec fn same_slots(&self, other: &Model) -> bool {
        &&& forall|i: u32| self.generation_of(i) == other.generation_of(i)
        &&& self.vacant() == other.vacant()
    }

    /// Whether any two nodes have as many edges between them in `other` as here.
    pub open spec fn same_links(&self, other: &Model) -> bool {
        forall|a: NodeId, b: NodeId| self.links(a, b) == other.links(a, b)
    }

    /// The colour of the node `id`.
    pub closed spec fn color_of(&self, id: NodeId) -> Color {
        graph_nodes(self.graph)[id.index as int].color
    }

    /// The number of edges, parallel ones counted separately.
    pub closed spec fn edge_total(&self) -> nat {
        graph_edges(self.graph).len()
    }

    /// A graph without nodes.
    pub fn new() -> (m: Model)
        ensures
            m@.nodes == Set::<NodeId>::empty(),
            m@.edges == Set::<(NodeId, NodeId)>::empty(),
            m.wf(),
            m@.wf(),
            m.retired() == Set::<NodeId>::empty(),
            m.edge_total() == 0,
            forall|i: u32| m.generation_of(i) == 0,
            forall|a: NodeId, b: NodeId| m.links(a, b) == 0,
            m.vacant() == Seq::<int>::empty(),
    {
        let m = Model { graph: graph_new(), generations: Vec::new() };
        assert(m@.nodes =~= Set::<NodeId>::empty());
        assert(m@.edges =~= Set::<(NodeId, NodeId)>::empty());
        assert(m.retired() =~= Set::<NodeId>::empty());
        m
    }

    /// The generation of the slot `index`.
    fn generation(&self, index: u32) -> (g: u32)
        ensures
            g == self.generation_at(index as int),
    {
        if (index as usize) < self.generations.len() {
            self.generations[index as usize]
        } else {
            0
        }
    }

    /// Whether `id` names a node of the graph.
    pub fn contains_node(&self, id: NodeId) -> (present: bool)
        requires
            self.wf(),
        ensures
            present == self@.nodes.contains(id),
    {
        graph_node_weight(&self.graph, id.index).is_some() && self.generation(id.index)
            == id.generation
    }

    /// The colour of the node `id`, if the graph holds it.
    pub fn node_color(&self, id: NodeId) -> (color: Option<Color>)
        requires
            self.wf(),
        ensures
            color == (if self@.nodes.contains(id) {
                Some(self.color_of(id))
            } else {
                None
            }),
    {
        if self.generation(id.index) != id.generation {
            return None;
        }
        match graph_node_weight(&self.graph, id.index) {
            Some(node) => Some(node.color),
            None => None,
        }
    }

    /// A retired identifier names no node.
    pub proof fn lemma_retired_stay_out(&self, id: NodeId)
        requires
            self.retired().contains(id),
        ensures
            !self@.nodes.contains(id),
    {
    }

    /// A node has the generation of its slot.
    pub proof fn lemma_node_generation(&self, id: NodeId)
        requires
            self@.nodes.contains(id),
        ensures
            id.generation == self.generation_of(id.index),
    {
    }

    /// An edge connects two nodes where at least one edge leads from the one
    /// to the other.
    pub proof fn lemma_links(&self, a: NodeId, b: NodeId)
        ensures
            self@.edges.contains((a, b)) <==> self.links(a, b) > 0,
    {
    }

    /// The nodes of a model are finitely many, and as many as the graph
    /// has slots in use.
    proof fn lemma_node_total(&self)
        requires
            self.wf(),
        ensures
            self@.nodes.finite(),
            self@.nodes.len() == graph_nodes(self.graph).dom().len(),
            self@.wf(),
    {
        let dom = graph_nodes(self.graph).dom();
        let f = |i: int| self.id_at(i);
        assert forall|i: int, j: int| dom.contains(i) && dom.contains(j) && #[trigger] f(i)
            == #[trigger] f(j) implies i == j by {
            assert(self.id_at(i).index == i);
            assert(self.id_at(j).index == j);
        }
        assert forall|id: NodeId| self@.nodes.contains(id) implies dom.map(f).contains(id) by {
            assert(dom.contains(id.index as int));
            assert(f(id.index as int) == id);
        }
        assert(dom.map(f) =~= self@.nodes);
        lemma_map_size(dom, self@.nodes, f);
    }

    /// The number of nodes.
    pub fn node_count(&self) -> (n: usize)
        requires
            self.wf(),
        ensures
            self@.wf(),
            n == self@.nodes.len(),
    {
        proof {
            self.lemma_node_total();
        }
        graph_node_count(&self.graph)
    }

    /// The number of edges, parallel ones counted separately.
    pub fn edge_count(&self) -> (n: usize)
        ensures
            n == self.edge_total(),
    {
        graph_edge_count(&self.graph)
    }

    /// Adds a node of the given colour and returns its identifier, which
    /// names no node that the graph holds or ever held. The node takes the
    /// slot vacated last, or the slot behind all nodes where none is vacant.
    /// Returns `None`, and changes nothing, when the graph is full.
    pub fn add_node(&mut self, color: Color) -> (r: Option<NodeId>)
        requires
            old(self).wf(),
        ensures
            r.is_some() <==> old(self)@.nodes.len() < u32::MAX,
            match r {
                Some(id) => {
                    &&& !old(self)@.nodes.contains(id)
                    &&& !old(self).retired().contains(id)
                    &&& id.index == old(self).next_index()
                    &&& id.generation == old(self).generation_of(id.index)
                    &&& final(self)@ == old(self)@.with_node(id)
                    &&& final(self).color_of(id) == color
                    &&& final(self).vacant() == after_filling(old(self).vacant())
                },
                None => final(self)@ == old(self)@ && final(self).vacant() == old(self).vacant(),
            },
            forall|i: u32| final(self).generation_of(i) == old(self).generation_of(i),
            final(self).same_links(old(self)),
            final(self).wf(),
            final(self)@.wf(),
            final(self).retired() == old(self).retired(),
            final(self).edge_total() == old(self).edge_total(),
            forall|other: NodeId|
                old(self)@.nodes.contains(other) ==> final(self).color_of(other) == old(
                    self,
                ).color_of(other),
    {
        proof {
            self.lemma_node_total();
        }
        if graph_node_count(&self.graph) >= u32::MAX as usize {
            return None;
        }
        let index: u32 = graph_add_node(&mut self.graph, Node { color });
        let id = NodeId { index, generation: self.generation(index) };
        proof {
            assert forall|a: NodeId, b: NodeId| self.links(a, b) == old(self).links(a, b) by {
                if a.index == index || b.index == index {
                    assert(!graph_edges(old(self).graph).contains(
                        (a.index as int, b.index as int),
                    ));
                }
            }
            self.lemma_node_total();
            assert(self@.nodes =~= old(self)@.nodes.insert(id));
            assert(self@.edges =~= old(self)@.edges);
            assert(self.retired() =~= old(self).retired());
        }
        Some(id)
    }

    /// Removes the node `id` with the edges that start or end at it, and
    /// retires the identifier. Returns `false`, and changes nothing, when the
    /// graph holds no such node or when the node's slot has used up its
    /// generations.
    pub fn remove_node(&mut self, id: NodeId) -> (removed: bool)
        requires
            old(self).wf(),
        ensures
            removed <==> old(self)@.nodes.contains(id) && id.generation < u32::MAX,
            removed ==> final(self)@ == old(self)@.without(id) && final(self).retired() == old(
                self,
            ).retired().insert(id),
            !removed ==> final(self)@ == old(self)@ && final(self).retired() == old(self).retired()
                && final(self).edge_total() == old(self).edge_total() && final(self).same_slots(
                old(self),
            ),
            removed ==> final(self).generation_of(id.index) == id.generation + 1
                && final(self).vacant() == seq![id.index as int] + old(self).vacant(),
            forall|i: u32|
                i != id.index ==> final(self).generation_of(i) == old(self).generation_of(i),
            forall|a: NodeId, b: NodeId|
                final(self).links(a, b) == (if removed && (a == id || b == id) {
                    0
                } else {
                    old(self).links(a, b)
                }),
            final(self).wf(),
            final(self)@.wf(),
            forall|other: NodeId|
                final(self)@.nodes.contains(other) ==> final(self).color_of(other) == old(
                    self,
                ).color_of(other),
    {
        proof {
            self.lemma_node_total();
        }
        if !self.contains_node(id) || id.generation == u32::MAX {
            return false;
        }
        while self.generations.len() <= id.index as usize
            invariant
                self.graph == old(self).graph,
                self.wf(),
                forall|i: int| self.generation_at(i) == old(self).generation_at(i),
            decreases id.index + 1 - self.generations.len(),
        {
            self.generations.push(0);
        }
        let _ = graph_remove_node(&mut self.graph, id.index);
        self.generations.set(id.index as usize, id.generation + 1);
        proof {
            let before = graph_edges(old(self).graph);
            let after = graph_edges(self.graph);
            assert forall|a: int, b: int| #[trigger] after.contains((a, b)) implies before.contains(
                (a, b),
            ) && a != id.index && b != id.index by {
                assert(after.count((a, b)) > 0);
            }
            assert forall|a: int, b: int|
                before.contains((a, b)) && a != id.index && b != id.index implies #[trigger] after.contains(
                (a, b),
            ) by {
                assert(after.count((a, b)) == before.count((a, b)));
            }
            self.lemma_node_total();
            assert(self@.nodes =~= old(self)@.nodes.remove(id));
            assert(self@.edges =~= old(self)@.without(id).edges);
            assert(self.retired() =~= old(self).retired().insert(id));
        }
        true
    }

    /// Adds an edge from `a` to `b`. Returns `false`, and changes nothing,
    /// when either node is missing or the graph can hold no more edges.
    pub fn add_edge(&mut self, a: NodeId, b: NodeId) -> (added: bool)
        requires
            old(self).wf(),
        ensures
            added <==> old(self)@.nodes.contains(a) && old(self)@.nodes.contains(b) && old(
                self,
            ).edge_total() < u32::MAX,
            added ==> final(self)@ == old(self)@.with_edge(a, b) && final(self).edge_total() == old(
                self,
            ).edge_total() + 1,
            !added ==> final(self)@ == old(self)@ && final(self).edge_total() == old(
                self,
            ).edge_total(),
            final(self).wf(),
            final(self)@.wf(),
            final(self).retired() == old(self).retired(),
            final(self).same_slots(old(self)),
            forall|x: NodeId, y: NodeId|
                final(self).links(x, y) == old(self).links(x, y) + (if added && x == a && y == b {
                    1nat
                } else {
                    0nat
                }),
            forall|other: NodeId| final(self).color_of(other) == old(self).color_of(other),
    {
        broadcast use vstd::multiset::group_multiset_axioms;
        broadcast use vstd::multiset::group_multiset_properties;

        proof {
            self.lemma_node_total();
        }
        if !self.contains_node(a) || !self.contains_node(b) {
            return false;
        }
        if graph_edge_count(&self.graph) >= u32::MAX as usize {
            return false;
        }
        graph_add_edge(&mut self.graph, a.index, b.index);
        proof {
            let before = graph_edges(old(self).graph);
            let after = graph_edges(self.graph);
            let new_edge = (a.index as int, b.index as int);
            assert forall|x: int, y: int| #[trigger] after.contains((x, y)) <==> before.contains(
                (x, y),
            ) || (x, y) == new_edge by {
                assert(after.count((x, y)) == before.count((x, y)) + (if (x, y) == new_edge {
                    1nat
                } else {
                    0nat
                }));
            }
            self.lemma_node_total();
            assert(self@.nodes =~= old(self)@.nodes);
            assert(self@.edges =~= old(self)@.edges.insert((a, b)));
        }
        true
    }

    /// The identifiers that the slots in `raw` have now.
    fn tag_all(&self, raw: &Vec<u32>) -> (ids: Vec<NodeId>)
        ensures
            ids@.len() == raw@.len(),
            forall|k: int| 0 <= k < raw@.len() ==> ids@[k] == self.id_at(raw@[k] as int),
    {
        let mut ids: Vec<NodeId> = Vec::new();
        let mut k: usize = 0;
        while k < raw.len()
            invariant
                k <= raw@.len(),
                ids@.len() == k,
                forall|j: int| 0 <= j < k ==> ids@[j] == self.id_at(raw@[j] as int),
            decreases raw@.len() - k,
        {
            let index: u32 = raw[k];
            ids.push(NodeId { index, generation: self.generation(index) });
            k += 1;
        }
        ids
    }

    /// The identifiers of all nodes, each once, by increasing slot.
    pub fn node_ids(&self) -> (ids: Vec<NodeId>)
        requires
            self.wf(),
        ensures
            by_slot(ids@),
            ids@.no_duplicates(),
            ids@.to_set() == self@.nodes,
            ids@.len() == self@.nodes.len(),
    {
        let raw: Vec<u32> = graph_node_indices(&self.graph);
        let ids: Vec<NodeId> = self.tag_all(&raw);
        proof {
            assert forall|id: NodeId| self@.nodes.contains(id) implies ids@.contains(id) by {
                assert(raw@.contains(id.index as int as u32));
                let k = choose|k: int| 0 <= k < raw@.len() && raw@[k] == id.index;
                assert(ids@[k] == id);
            }
            assert forall|id: NodeId| ids@.contains(id) implies self@.nodes.contains(id) by {
                let k = choose|k: int| 0 <= k < ids@.len() && ids@[k] == id;
                assert(raw@.contains(raw@[k] as int as u32));
            }
            assert(ids@.to_set() =~= self@.nodes);
            ids@.unique_seq_to_set();
        }
        ids
    }

    /// A node is a source or a sink of the model where its slot is one of the graph.
    proof fn lemma_external(&self, dir: Direction, id: NodeId)
        requires
            self.wf(),
            self.live(id),
        ensures
            self@.is_external(dir, id) <==> is_external(
                graph_nodes(self.graph).dom(),
                graph_edges(self.graph),
                dir,
                id.index as int,
            ),
    {
        let edges = graph_edges(self.graph);
        if self@.is_external(dir, id) {
            assert forall|j: int| !edges.contains((j, id.index as int)) || dir
                != Direction::Incoming by {
                if edges.contains((j, id.index as int)) && dir == Direction::Incoming {
                    assert(self@.edges.contains((self.id_at(j), id)));
                }
            }
            assert forall|j: int| !edges.contains((id.index as int, j)) || dir
                != Direction::Outgoing by {
                if edges.contains((id.index as int, j)) && dir == Direction::Outgoing {
                    assert(self@.edges.contains((id, self.id_at(j))));
                }
            }
        }
    }

    /// The nodes without an edge toward them (`Incoming`: the sources of the
    /// graph) or away from them (`Outgoing`: its sinks), each once, by
    /// increasing slot.
    pub fn externals(&self, dir: Direction) -> (ids: Vec<NodeId>)
        requires
            self.wf(),
        ensures
            by_slot(ids@),
            ids@.no_duplicates(),
            forall|id: NodeId| ids@.contains(id) <==> self@.is_external(dir, id),
    {
        let raw: Vec<u32> = graph_externals(&self.graph, dir);
        let ids: Vec<NodeId> = self.tag_all(&raw);
        proof {
            let dom = graph_nodes(self.graph).dom();
            let edges = graph_edges(self.graph);
            let ext = externals_of(dom, edges, dir);
            assert forall|id: NodeId| self@.is_external(dir, id) implies ids@.contains(id) by {
                self.lemma_external(dir, id);
                assert(ext.contains(id.index as int));
                assert(raw@.contains(id.index as int as u32));
                let k = choose|k: int| 0 <= k < raw@.len() && raw@[k] == id.index;
                assert(ids@[k] == id);
            }
            assert forall|id: NodeId| ids@.contains(id) implies self@.is_external(dir, id) by {
                let k = choose|k: int| 0 <= k < ids@.len() && ids@[k] == id;
                assert(raw@.contains(raw@[k] as int as u32));
                assert(ext.contains(raw@[k] as int));
                self.lemma_external(dir, id);
            }
        }
        ids
    }

    /// How `a` is connected to `b`: `Outgoing` where an edge leads from `a`
    /// to `b`, else `Incoming` where one leads from `b` to `a`.
    pub fn find_edge_undirected(&self, a: NodeId, b: NodeId) -> (r: Option<Direction>)
        requires
            self.wf(),
        ensures
            r == self@.relation(a, b),
    {
        if !self.contains_node(a) || !self.contains_node(b) {
            return None;
        }
        graph_find_edge_undirected(&self.graph, a.index, b.index)
    }

    /// Counting in a list of slots carries over to their identifiers.
    proof fn lemma_tagged_count(&self, raw: Seq<u32>, ids: Seq<NodeId>, b: NodeId)
        requires
            ids.len() == raw.len(),
            forall|k: int| 0 <= k < raw.len() ==> ids[k] == self.id_at(raw[k] as int),
        ensures
            count_ids(ids, b) == (if self.id_at(b.index as int) == b {
                count_of(raw, b.index as int)
            } else {
                0
            }),
        decreases raw.len(),
    {
        if raw.len() > 0 {
            self.lemma_tagged_count(raw.drop_last(), ids.drop_last(), b);
        }
    }

    /// For each edge that leaves `a` (`Outgoing`) or arrives at `a`
    /// (`Incoming`), the node at its other end: a node is listed as often as
    /// edges lead to it (or from it).
    pub fn neighbors_directed(&self, a: NodeId, dir: Direction) -> (ids: Vec<NodeId>)
        requires
            self.wf(),
        ensures
            forall|b: NodeId|
                count_ids(ids@, b) == (match dir {
                    Direction::Outgoing => self.links(a, b),
                    Direction::Incoming => self.links(b, a),
                }),
    {
        if !self.contains_node(a) {
            return Vec::new();
        }
        let raw: Vec<u32> = graph_neighbors_directed(&self.graph, a.index, dir);
        let ids: Vec<NodeId> = self.tag_all(&raw);
        proof {
            let edges = graph_edges(self.graph);
            assert forall|b: NodeId| count_ids(ids@, b) == (match dir {
                Direction::Outgoing => self.links(a, b),
                Direction::Incoming => self.links(b, a),
            }) by {
                self.lemma_tagged_count(raw@, ids@, b);
                let pair = directed(a.index as int, b.index as int, dir);
                assert(count_of(raw@, b.index as int) == edges.count(pair));
                if !self.live(b) && self.id_at(b.index as int) == b {
                    assert(!edges.contains(pair));
                }
            }
        }
        ids
    }

    /// The nodes that an edge connects to `a`, in either direction. A node
    /// that several edges connect to `a` may be listed more than once.
    pub fn neighbors_undirected(&self, a: NodeId) -> (ids: Vec<NodeId>)
        requires
            self.wf(),
        ensures
            ids@.to_set() == self@.neighbors(a),
    {
        if !self.contains_node(a) {
            let none: Vec<NodeId> = Vec::new();
            assert(none@.to_set() =~= self@.neighbors(a));
            return none;
        }
        let raw: Vec<u32> = graph_neighbors_undirected(&self.graph, a.index);
        let ids: Vec<NodeId> = self.tag_all(&raw);
        proof {
            let edges = graph_edges(self.graph);
            let near = joined_to(edges, a.index as int);
            assert forall|id: NodeId| self@.neighbors(a).contains(id) implies ids@.contains(
                id,
            ) by {
                assert(near.contains(id.index as int));
                assert(raw@.contains(id.index as int as u32));
                let k = choose|k: int| 0 <= k < raw@.len() && raw@[k] == id.index;
                assert(ids@[k] == id);
            }
            assert forall|id: NodeId| ids@.contains(id) implies self@.neighbors(a).contains(
                id,
            ) by {
                let k = choose|k: int| 0 <= k < ids@.len() && ids@[k] == id;
                assert(raw@.contains(raw@[k] as int as u32));
                assert(near.contains(raw@[k] as int));
            }
            assert(ids@.to_set() =~= self@.neighbors(a));
        }
        ids
    }
}

/// How often `ids` lists `x`.
pub open spec fn count_ids(ids: Seq<NodeId>, x: NodeId) -> nat
    decreases ids.len(),
{
    if ids.len() == 0 {
        0
    } else {
        count_ids(ids.drop_last(), x) + if ids.last() == x {
            1nat
        } else {
            0nat
        }
    }
}

/// The list `ids` without `x`.
pub open spec fn without_id(ids: Seq<NodeId>, x: NodeId) -> Seq<NodeId>
    decreases ids.len(),
{
    if ids.len() == 0 {
        ids
    } else if ids.last() == x {
        without_id(ids.drop_last(), x)
    } else {
        without_id(ids.drop_last(), x).push(ids.last())
    }
}

/// Taking `x` out of a list shortens the list by as much as it lists `x`
/// and leaves the other counts alone.
pub proof fn lemma_without_id(ids: Seq<NodeId>, x: NodeId, y: NodeId)
    ensures
        without_id(ids, x).len() + count_ids(ids, x) == ids.len(),
        count_ids(without_id(ids, x), y) == (if y == x {
            0
        } else {
            count_ids(ids, y)
        }),
    decreases ids.len(),
{
    if ids.len() > 0 {
        lemma_without_id(ids.drop_last(), x, y);
        if ids.last() != x {
            let rest = without_id(ids.drop_last(), x);
            assert(rest.push(ids.last()).drop_last() =~= rest);
        }
    }
}

/// A list that lists nothing is empty.
pub proof fn lemma_counts_empty(ids: Seq<NodeId>)
    requires
        forall|x: NodeId| count_ids(ids, x) == 0,
    ensures
        ids.len() == 0,
{
    if ids.len() > 0 {
        assert(count_ids(ids, ids.last()) > 0);
    }
}

/// How often `ids` lists the first `k` identifiers of `of`, taken together.
pub open spec fn count_all(ids: Seq<NodeId>, of: Seq<NodeId>, k: int) -> nat
    decreases k,
{
    if k <= 0 {
        0
    } else {
        count_all(ids, of, k - 1) + count_ids(ids, of[k - 1])
    }
}

/// Lists that agree on how often they list each of some identifiers agree
/// on how often they list them taken together.
proof fn lemma_count_all_same(a: Seq<NodeId>, b: Seq<NodeId>, of: Seq<NodeId>, k: int)
    requires
        k <= of.len(),
        forall|i: int| 0 <= i < k ==> count_ids(a, of[i]) == count_ids(b, of[i]),
    ensures
        count_all(a, of, k) == count_all(b, of, k),
    decreases k,
{
    if k > 0 {
        lemma_count_all_same(a, b, of, k - 1);
    }
}

/// A list is as long as the counts of the identifiers it lists add up to:
/// where `of` names each identifier once and names all that `ids` lists, the
/// length of `ids` is the sum of how often it lists each.
pub proof fn lemma_len_is_count(ids: Seq<NodeId>, of: Seq<NodeId>)
    requires
        of.no_duplicates(),
        forall|x: NodeId| count_ids(ids, x) > 0 ==> of.contains(x),
    ensures
        ids.len() == count_all(ids, of, of.len() as int),
    decreases of.len(),
{
    if of.len() == 0 {
        assert forall|x: NodeId| count_ids(ids, x) == 0 by {
            if count_ids(ids, x) > 0 {
                assert(of.contains(x));
            }
        }
        lemma_counts_empty(ids);
    } else {
        let x = of.last();
        let rest = of.drop_last();
        let fewer = without_id(ids, x);
        lemma_without_id(ids, x, x);
        assert forall|y: NodeId| count_ids(fewer, y) > 0 implies rest.contains(y) by {
            lemma_without_id(ids, x, y);
            assert(of.contains(y));
            let i = choose|i: int| 0 <= i < of.len() && of[i] == y;
            assert(rest[i] == y);
        }
        lemma_len_is_count(fewer, rest);
        assert forall|i: int| 0 <= i < rest.len() implies count_ids(fewer, rest[i]) == count_ids(
            ids,
            rest[i],
        ) by {
            lemma_without_id(ids, x, rest[i]);
            assert(of[i] != of[of.len() - 1]);
        }
        lemma_count_all_same(fewer, ids, rest, rest.len() as int);
        assert(count_all(ids, of, of.len() - 1) == count_all(ids, rest, rest.len() as int)) by {
            lemma_count_all_prefix(ids, of, rest, rest.len() as int);
        }
    }
}

/// Counting the first `k` identifiers looks at those only.
proof fn lemma_count_all_prefix(ids: Seq<NodeId>, a: Seq<NodeId>, b: Seq<NodeId>, k: int)
    requires
        k <= a.len(),
        k <= b.len(),
        forall|i: int| 0 <= i < k ==> a[i] == b[i],
    ensures
        count_all(ids, a, k) == count_all(ids, b, k),
    decreases k,
{
    if k > 0 {
        lemma_count_all_prefix(ids, a, b, k - 1);
    }
}

/// The identifiers of the sample graph's eight nodes, in the order in which
/// they were added: one entry node, two exit nodes and five nodes between
/// them. They take the first eight slots.
pub open spec fn sample_ids() -> Seq<NodeId> {
    Seq::new(8, |k: int| NodeId { index: k as u32, generation: 0 })
}

/// The shape of the sample graph, for the identifiers `n` of its eight nodes.
pub open spec fn sample_topology(n: Seq<NodeId>) -> Topology {
    Topology {
        nodes: Set::<NodeId>::empty().insert(n[0]).insert(n[1]).insert(n[2]).insert(n[3]).insert(
            n[4],
        ).insert(n[5]).insert(n[6]).insert(n[7]),
        edges: Set::<(NodeId, NodeId)>::empty().insert((n[0], n[3])).insert((n[0], n[4])).insert(
            (n[0], n[7]),
        ).insert((n[3], n[1])).insert((n[4], n[5])).insert((n[5], n[6])).insert(
            (n[6], n[1]),
        ).insert((n[7], n[1])).insert((n[3], n[2])),
    }
}

/// The colours of the sample graph's nodes, in the order in which they were added.
pub open spec fn sample_colors() -> Seq<Color> {
    let h = 500_000i64;
    let f = 200_000i64;
    seq![
        Color { r: ONE, g: ONE, b: ONE },
        Color { r: h, g: h, b: h },
        Color { r: f, g: f, b: f },
        Color { r: ONE, g: h, b: h },
        Color { r: h, g: ONE, b: h },
        Color { r: h, g: h, b: ONE },
        Color { r: h, g: ONE, b: ONE },
        Color { r: h, g: ONE, b: ONE },
    ]
}

/// Adds a node to a model without vacant slots that has room for one.
fn add_fresh(model: &mut Model, color: Color) -> (id: NodeId)
    requires
        old(model).wf(),
        old(model)@.wf(),
        old(model)@.nodes.len() < 100,
        old(model).vacant().len() == 0,
        forall|i: u32| old(model).generation_of(i) == 0,
    ensures
        final(model).wf(),
        id == (NodeId { index: old(model)@.nodes.len() as u32, generation: 0 }),
        !old(model)@.nodes.contains(id),
        final(model)@ == old(model)@.with_node(id),
        final(model)@.wf(),
        final(model)@.nodes.len() == old(model)@.nodes.len() + 1,
        final(model).color_of(id) == color,
        final(model).edge_total() == old(model).edge_total(),
        final(model).vacant().len() == 0,
        forall|i: u32| final(model).generation_of(i) == 0,
        final(model).same_links(old(model)),
        forall|other: NodeId|
            old(model)@.nodes.contains(other) ==> final(model).color_of(other) == old(
                model,
            ).color_of(other),
{
    match model.add_node(color) {
        Some(id) => id,
        // The model has room, so `add_node` gave an identifier.
        None => NodeId { index: 0, generation: 0 },
    }
}

/// The sample graph: eight nodes in the first eight slots, and nine edges.
pub fn new_model() -> (m: Model)
    ensures
        m.wf(),
        m@ == sample_topology(sample_ids()),
        forall|k: int| 0 <= k < 8 ==> m.color_of(sample_ids()[k]) == sample_colors()[k],
        m.edge_total() == 9,
        forall|a: NodeId, b: NodeId|
            m.links(a, b) == (if m@.edges.contains((a, b)) {
                1nat
            } else {
                0nat
            }),
        forall|i: u32| m.generation_of(i) == 0,
        m.vacant() == Seq::<int>::empty(),
{
    let mut m = Model::new();
    let half: i64 = ONE / 2;
    let fifth: i64 = ONE / 5;
    let node_in = add_fresh(&mut m, Color::white());
    let node_out_1 = add_fresh(&mut m, Color::rgb(half, half, half));
    let node_out_2 = add_fresh(&mut m, Color::rgb(fifth, fifth, fifth));
    let node_0 = add_fresh(&mut m, Color::rgb(ONE, half, half));
    let node_1 = add_fresh(&mut m, Color::rgb(half, ONE, half));
    let node_2 = add_fresh(&mut m, Color::rgb(half, half, ONE));
    let node_3 = add_fresh(&mut m, Color::rgb(half, ONE, ONE));
    let node_4 = add_fresh(&mut m, Color::rgb(half, ONE, ONE));
    let ghost n = sample_ids();
    assert(n[0] == node_in && n[1] == node_out_1 && n[2] == node_out_2 && n[3] == node_0);
    assert(n[4] == node_1 && n[5] == node_2 && n[6] == node_3 && n[7] == node_4);
    m.add_edge(node_in, node_0);
    m.add_edge(node_in, node_1);
    m.add_edge(node_in, node_4);
    m.add_edge(node_0, node_out_1);
    m.add_edge(node_1, node_2);
    m.add_edge(node_2, node_3);
    m.add_edge(node_3, node_out_1);
    m.add_edge(node_4, node_out_1);
    m.add_edge(node_0, node_out_2);
    proof {
        assert(m@ =~= sample_topology(n));
        assert forall|k: int| 0 <= k < 8 implies m.color_of(n[k]) == sample_colors()[k] by {
            if k == 0 {
            } else if k == 1 {
            } else if k == 2 {
            } else if k == 3 {
            } else if k == 4 {
            } else if k == 5 {
            } else if k == 6 {
            } else {
            }
        }
    }
    m
}

} // verus!
