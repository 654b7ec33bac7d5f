//! The graph store: a `petgraph` stable graph, seen through contracts.
//!
//! Nothing in this file is proved. Each function below makes one call into
//! `petgraph` and states what that call does in terms of three abstract
//! quantities: the nodes a graph holds, the edges between them, and the
//! slots that removed nodes left vacant.

use vstd::prelude::*;
use vstd::multiset::Multiset;
use petgraph::stable_graph::StableGraph;
use petgraph::stable_graph::NodeIndex;
use petgraph::Directed;
use crate::model::Direction;
use crate::model::Node;

verus! {

/// The directed graph that holds the nodes to lay out.
pub type Graph = StableGraph<Node, (), Directed, u32>;

/// The nodes of a graph: the slot index of each node, with its weight.
pub uninterp spec fn graph_nodes(g: Graph) -> Map<int, Node>;

/// The edges of a graph as `(source, target)` pairs of slot indices, parallel
/// edges counted separately.
pub uninterp spec fn graph_edges(g: Graph) -> Multiset<(int, int)>;

/// The vacant slots of a graph, which removals left behind, in the order in
/// which the graph will use them again: the slot vacated last comes first.
pub uninterp spec fn graph_vacant(g: Graph) -> Seq<int>;

/// The slot that the next node gets: the first vacant one, or a new slot
/// behind the `nodes` slots in use where none is vacant.
pub open spec fn next_slot(nodes: Set<int>, vacant: Seq<int>) -> int {
    if vacant.len() > 0 {
        vacant[0]
    } else {
        nodes.len() as int
    }
}

/// The vacant slots after the first was used again.
pub open spec fn after_filling(vacant: Seq<int>) -> Seq<int> {
    if vacant.len() > 0 {
        vacant.drop_first()
    } else {
        vacant
    }
}

/// The vacant slots after the node at `a` was removed, if there was one.
pub open spec fn after_vacating(vacant: Seq<int>, present: bool, a: int) -> Seq<int> {
    if present {
        seq![a] + vacant
    } else {
        vacant
    }
}

/// How often `v` lists `n`.
pub open spec fn count_of(v: Seq<u32>, n: int) -> nat
    decreases v.len(),
{
    if v.len() == 0 {
        0
    } else {
        count_of(v.drop_last(), n) + if v.last() == n {
            1nat
        } else {
            0nat
        }
    }
}

/// The edge between `a` and `n` that leaves `a` (`Outgoing`) or arrives at
/// `a` (`Incoming`).
pub open spec fn directed(a: int, n: int, dir: Direction) -> (int, int) {
    match dir {
        Direction::Outgoing => (a, n),
        Direction::Incoming => (n, a),
    }
}

/// Whether the elements of `v` increase strictly.
pub open spec fn ascending(v: Seq<u32>) -> bool {
    forall|i: int, j: int| 0 <= i < j < v.len() ==> v[i] < v[j]
}

/// Whether `v` lists exactly the indices in `s`.
pub open spec fn lists(v: Seq<u32>, s: Set<int>) -> bool {
    forall|n: int| s.contains(n) <==> (0 <= n <= u32::MAX && #[trigger] v.contains(n as u32))
}

/// Whether node `n` has no edge toward it (`Incoming`) or away from it (`Outgoing`).
pub open spec fn is_external(
    nodes: Set<int>,
    edges: Multiset<(int, int)>,
    dir: Direction,
    n: int,
) -> bool {
    &&& nodes.contains(n)
    &&& match dir {
        Direction::Incoming => forall|m: int| !edges.contains((m, n)),
        Direction::Outgoing => forall|m: int| !edges.contains((n, m)),
    }
}

/// The nodes without an edge toward them (`Incoming`) or away from them
/// (`Outgoing`).
pub open spec fn externals_of(nodes: Set<int>, edges: Multiset<(int, int)>, dir: Direction) -> Set<
    int,
> {
    Set::new(|n: int| is_external(nodes, edges, dir, n))
}

/// The nodes that an edge joins to `a`, in either direction.
pub open spec fn joined_to(edges: Multiset<(int, int)>, a: int) -> Set<int> {
    Set::new(|n: int| edges.contains((a, n)) || edges.contains((n, a)))
}

/// How `a` is connected to `b`: by an edge from `a` to `b`, else by one from
/// `b` to `a`, else not at all.
pub open spec fn edge_between(edges: Multiset<(int, int)>, a: int, b: int) -> Option<Direction> {
    if edges.contains((a, b)) {
        Some(Direction::Outgoing)
    } else if edges.contains((b, a)) {
        Some(Direction::Incoming)
    } else {
        None
    }
}

/// Whether `s` is a finite set of `n` elements.
pub open spec fn has_size(s: Set<int>, n: nat) -> bool {
    s.finite() && s.len() == n
}

/// No nodes.
pub open spec fn empty_nodes() -> Map<int, Node> {
    Map::empty()
}

/// No edges.
pub open spec fn empty_edges() -> Multiset<(int, int)> {
    Multiset::empty()
}

/// `StableGraph::new`: the result holds no node, no edge and no vacant slot.
#[verifier::external_body]
pub(crate) fn graph_new() -> (g: Graph)
    ensures
        graph_nodes(g) == empty_nodes(),
        graph_edges(g) == empty_edges(),
        graph_vacant(g) == Seq::<int>::empty(),
{
    StableGraph::new()
}

/// `StableGraph::node_count`: the number of nodes, which is finite.
#[verifier::external_body]
pub(crate) fn graph_node_count(g: &Graph) -> (n: usize)
    ensures
        has_size(graph_nodes(*g).dom(), n as nat),
{
    g.node_count()
}

/// `StableGraph::edge_count`: the number of edges, parallel ones included.
#[verifier::external_body]
pub(crate) fn graph_edge_count(g: &Graph) -> (n: usize)
    ensures
        n == graph_edges(*g).len(),
{
    g.edge_count()
}

/// `StableGraph::add_node`: stores `weight` under an index that was not in
/// use and leaves the edges alone. The index is the slot vacated last, where
/// a slot is vacant; else all slots up to the number of nodes are in use and
/// the index is that number. The call panics once the graph holds `u32::MAX`
/// nodes.
#[verifier::external_body]
pub(crate) fn graph_add_node(g: &mut Graph, weight: Node) -> (i: u32)
    requires
        graph_nodes(*old(g)).dom().finite(),
        graph_nodes(*old(g)).dom().len() < u32::MAX,
    ensures
        !graph_nodes(*old(g)).contains_key(i as int),
        i as int == next_slot(graph_nodes(*old(g)).dom(), graph_vacant(*old(g))),
        graph_nodes(*final(g)) == graph_nodes(*old(g)).insert(i as int, weight),
        graph_edges(*final(g)) == graph_edges(*old(g)),
        graph_vacant(*final(g)) == after_filling(graph_vacant(*old(g))),
{
    g.add_node(weight).index() as u32
}

/// `StableGraph::remove_node`: removes the node at `a`, if there is one,
/// together with every edge that starts or ends there, and returns its
/// weight. The slot becomes the first of the vacant ones.
#[verifier::external_body]
pub(crate) fn graph_remove_node(g: &mut Graph, a: u32) -> (w: Option<Node>)
    ensures
        w == (if graph_nodes(*old(g)).contains_key(a as int) {
            Some(graph_nodes(*old(g))[a as int])
        } else {
            None
        }),
        graph_nodes(*final(g)) == graph_nodes(*old(g)).remove(a as int),
        forall|e: (int, int)| #[trigger]
            graph_edges(*final(g)).count(e) == (if e.0 == a || e.1 == a {
                0
            } else {
                graph_edges(*old(g)).count(e)
            }),
        graph_vacant(*final(g)) == after_vacating(
            graph_vacant(*old(g)),
            graph_nodes(*old(g)).contains_key(a as int),
            a as int,
        ),
{
    g.remove_node(NodeIndex::new(a as usize))
}

/// `StableGraph::add_edge`: adds one edge from `a` to `b`. The call panics if
/// either node is missing or once the graph holds `u32::MAX` edges.
#[verifier::external_body]
pub(crate) fn graph_add_edge(g: &mut Graph, a: u32, b: u32)
    requires
        graph_nodes(*old(g)).contains_key(a as int),
        graph_nodes(*old(g)).contains_key(b as int),
        graph_edges(*old(g)).len() < u32::MAX,
    ensures
        graph_nodes(*final(g)) == graph_nodes(*old(g)),
        graph_edges(*final(g)) == graph_edges(*old(g)).insert((a as int, b as int)),
        graph_vacant(*final(g)) == graph_vacant(*old(g)),
{
    g.add_edge(NodeIndex::new(a as usize), NodeIndex::new(b as usize), ());
}

/// `StableGraph::node_weight`: the weight stored at `a`, if there is a node.
#[verifier::external_body]
pub(crate) fn graph_node_weight(g: &Graph, a: u32) -> (w: Option<Node>)
    ensures
        w == (if graph_nodes(*g).contains_key(a as int) {
            Some(graph_nodes(*g)[a as int])
        } else {
            None
        }),
{
    g.node_weight(NodeIndex::new(a as usize)).copied()
}

/// `StableGraph::node_indices`: the indices of all nodes, in increasing order.
#[verifier::external_body]
pub(crate) fn graph_node_indices(g: &Graph) -> (v: Vec<u32>)
    ensures
        ascending(v@),
        lists(v@, graph_nodes(*g).dom()),
{
    g.node_indices().map(|i| i.index() as u32).collect()
}

/// `StableGraph::externals`: in increasing order, the nodes without an edge
/// toward them (`Incoming`) or away from them (`Outgoing`).
#[verifier::external_body]
pub(crate) fn graph_externals(g: &Graph, dir: Direction) -> (v: Vec<u32>)
    ensures
        ascending(v@),
        lists(v@, externals_of(graph_nodes(*g).dom(), graph_edges(*g), dir)),
{
    let d = match dir {
        Direction::Outgoing => petgraph::Direction::Outgoing,
        Direction::Incoming => petgraph::Direction::Incoming,
    };
    g.externals(d).map(|i| i.index() as u32).collect()
}

/// `StableGraph::find_edge_undirected`: looks for an edge from `a` to `b`
/// first, then for one from `b` to `a`, and reports which it found.
#[verifier::external_body]
pub(crate) fn graph_find_edge_undirected(g: &Graph, a: u32, b: u32) -> (r: Option<Direction>)
    ensures
        r == edge_between(graph_edges(*g), a as int, b as int),
{
    match g.find_edge_undirected(NodeIndex::new(a as usize), NodeIndex::new(b as usize)) {
        Some((_, petgraph::Direction::Outgoing)) => Some(Direction::Outgoing),
        Some((_, petgraph::Direction::Incoming)) => Some(Direction::Incoming),
        None => None,
    }
}

/// `StableGraph::neighbors_directed`: for each edge that leaves `a`
/// (`Outgoing`) or arrives at `a` (`Incoming`), the node at its other end. A
/// node is listed as often as edges lead to it (or from it).
#[verifier::external_body]
pub(crate) fn graph_neighbors_directed(g: &Graph, a: u32, dir: Direction) -> (v: Vec<u32>)
    ensures
        forall|n: int| #[trigger]
            count_of(v@, n) == graph_edges(*g).count(directed(a as int, n, dir)),
{
    let d = match dir {
        Direction::Outgoing => petgraph::Direction::Outgoing,
        Direction::Incoming => petgraph::Direction::Incoming,
    };
    g.neighbors_directed(NodeIndex::new(a as usize), d).map(|i| i.index() as u32).collect()
}

/// `StableGraph::neighbors_undirected`: the nodes joined to `a` by an edge in
/// either direction; one that several edges join to `a` is listed repeatedly.
#[verifier::external_body]
pub(crate) fn graph_neighbors_undirected(g: &Graph, a: u32) -> (v: Vec<u32>)
    ensures
        lists(v@, joined_to(graph_edges(*g), a as int)),
{
    g.neighbors_undirected(NodeIndex::new(a as usize)).map(|i| i.index() as u32).collect()
}

} // verus!
