//! The layout: a position for each node on display.
//!
//! A [`GraphProjection`] keeps its entries in the order in which they were
//! made, one entry for each identifier. Iteration, picking and the
//! simulation all walk the entries in that order, so each is deterministic.

use vstd::prelude::*;
use crate::geometry::Vec2;
use crate::geometry::origin;
use crate::model::Model;
use crate::model::NodeId;
use crate::model::Topology;

verus! {

/// Where a node is drawn.
#[derive(Clone, Copy, Debug, PartialEq, Eq, Structural)]
pub struct NodeProjection {
    pub pos: Vec2,
}

/// One entry of a layout: a node and where it is drawn.
pub type Entry = (NodeId, NodeProjection);

/// The entry that places `id` at `pos`.
pub open spec fn entry(id: NodeId, pos: Vec2) -> Entry {
    (id, NodeProjection { pos })
}

/// Whether `s` has an entry for `id`.
pub open spec fn has_id(s: Seq<Entry>, id: NodeId) -> bool {
    exists|i: int| 0 <= i < s.len() && s[i].0 == id
}

/// Whether `i` is the place of the first entry for `id` in `s`.
pub open spec fn is_first(s: Seq<Entry>, id: NodeId, i: int) -> bool {
    &&& 0 <= i < s.len()
    &&& s[i].0 == id
    &&& forall|j: int| 0 <= j < i ==> s[j].0 != id
}

/// The place of the first entry for `id` in `s`.
pub open spec fn first_index(s: Seq<Entry>, id: NodeId) -> int {
    choose|i: int| is_first(s, id, i)
}

/// The position that `s` gives to `id`.
pub open spec fn position_in(s: Seq<Entry>, id: NodeId) -> Option<Vec2> {
    if has_id(s, id) {
        Some(s[first_index(s, id)].1.pos)
    } else {
        None
    }
}

/// Whether no identifier has two entries in `s`.
pub open spec fn distinct_ids(s: Seq<Entry>) -> bool {
    forall|i: int, j: int| 0 <= i < j < s.len() ==> s[i].0 != s[j].0
}

/// Whether every entry of `s` lies at the origin.
pub open spec fn all_at_origin(s: Seq<Entry>) -> bool {
    forall|i: int| 0 <= i < s.len() ==> s[i].1.pos == origin()
}

/// The identifiers among the first `k` of `ids`, each where `ids` first
/// names it.
pub open spec fn first_mentions(ids: Seq<NodeId>, k: int) -> Seq<NodeId>
    decreases k,
{
    if k <= 0 {
        Seq::<NodeId>::empty()
    } else {
        let before = first_mentions(ids, k - 1);
        if before.contains(ids[k - 1]) {
            before
        } else {
            before.push(ids[k - 1])
        }
    }
}

/// The layout that places each identifier of `ids` at the origin.
pub open spec fn at_origin(ids: Seq<NodeId>) -> Seq<Entry> {
    Seq::new(ids.len(), |i: int| entry(ids[i], origin()))
}

/// The layout `new` after it took over the positions of `previous`: an
/// identifier that `previous` knows gets the position it has there, any other
/// keeps the position it has in `new`.
pub open spec fn merge_spec(new: Seq<Entry>, previous: Seq<Entry>) -> Seq<Entry> {
    Seq::new(
        new.len(),
        |i: int|
            match position_in(previous, new[i].0) {
                Some(pos) => entry(new[i].0, pos),
                None => new[i],
            },
    )
}

/// The nodes within `radius` steps of `center`, along edges in either
/// direction. Empty where the graph does not hold `center`.
pub open spec fn ball(topo: Topology, center: NodeId, radius: nat) -> Set<NodeId>
    decreases radius,
{
    if radius == 0 {
        if topo.nodes.contains(center) {
            Set::<NodeId>::empty().insert(center)
        } else {
            Set::<NodeId>::empty()
        }
    } else {
        let inner = ball(topo, center, (radius - 1) as nat);
        inner.union(around(topo, inner))
    }
}

/// The nodes that an edge connects to a node of `inner`.
pub open spec fn around(topo: Topology, inner: Set<NodeId>) -> Set<NodeId> {
    Set::new(|b: NodeId| exists|a: NodeId| inner.contains(a) && topo.adjacent(a, b))
}

/// An identifier with an entry has a first entry.
pub proof fn lemma_first_index(s: Seq<Entry>, id: NodeId)
    requires
        has_id(s, id),
    ensures
        is_first(s, id, first_index(s, id)),
{
    let i = choose|i: int| 0 <= i < s.len() && s[i].0 == id;
    lemma_first_before(s, id, i);
}

/// An identifier with an entry at place `i` has a first entry.
proof fn lemma_first_before(s: Seq<Entry>, id: NodeId, i: int)
    requires
        0 <= i < s.len(),
        s[i].0 == id,
    ensures
        exists|k: int| is_first(s, id, k),
    decreases i,
{
    if exists|j: int| 0 <= j < i && s[j].0 == id {
        let j = choose|j: int| 0 <= j < i && s[j].0 == id;
        lemma_first_before(s, id, j);
    } else {
        assert(is_first(s, id, i));
    }
}

/// Only one place is that of the first entry for an identifier.
pub proof fn lemma_first_unique(s: Seq<Entry>, id: NodeId, i: int)
    requires
        is_first(s, id, i),
    ensures
        has_id(s, id),
        first_index(s, id) == i,
{
    let k = first_index(s, id);
    if k < i {
    } else if i < k {
    }
}

/// Merging keeps the identifiers of the new layout, in their order, and
/// drops those that only the previous layout knows.
pub proof fn lemma_merge_ids(new: Seq<Entry>, previous: Seq<Entry>)
    ensures
        merge_spec(new, previous).len() == new.len(),
        forall|i: int| 0 <= i < new.len() ==> merge_spec(new, previous)[i].0 == new[i].0,
        forall|id: NodeId| has_id(merge_spec(new, previous), id) <==> has_id(new, id),
        distinct_ids(new) ==> distinct_ids(merge_spec(new, previous)),
{
    let merged = merge_spec(new, previous);
    assert forall|i: int| 0 <= i < new.len() implies merged[i].0 == new[i].0 by {}
    assert forall|id: NodeId| has_id(merged, id) <==> has_id(new, id) by {
        if has_id(merged, id) {
            let i = choose|i: int| 0 <= i < merged.len() && merged[i].0 == id;
            assert(new[i].0 == id);
        }
        if has_id(new, id) {
            let i = choose|i: int| 0 <= i < new.len() && new[i].0 == id;
            assert(merged[i].0 == id);
        }
    }
}

/// A node that both layouts know has, after merging, the position that the
/// previous layout gave it.
pub proof fn lemma_merge_keeps_known(new: Seq<Entry>, previous: Seq<Entry>, id: NodeId)
    requires
        has_id(new, id),
        has_id(previous, id),
    ensures
        position_in(merge_spec(new, previous), id) == position_in(previous, id),
{
    let merged = merge_spec(new, previous);
    lemma_merge_ids(new, previous);
    lemma_first_index(new, id);
    let i = first_index(new, id);
    assert(is_first(merged, id, i));
    lemma_first_unique(merged, id, i);
}

/// A node that only the new layout knows stays, after merging, where the new
/// layout has it: at the origin, where the new layout is a fresh one.
pub proof fn lemma_merge_keeps_new(new: Seq<Entry>, previous: Seq<Entry>, id: NodeId)
    requires
        has_id(new, id),
        !has_id(previous, id),
    ensures
        position_in(merge_spec(new, previous), id) == position_in(new, id),
        all_at_origin(new) ==> position_in(merge_spec(new, previous), id) == Some(origin()),
{
    let merged = merge_spec(new, previous);
    lemma_merge_ids(new, previous);
    lemma_first_index(new, id);
    let i = first_index(new, id);
    assert(is_first(merged, id, i));
    lemma_first_unique(merged, id, i);
}

/// The nodes that an edge connects to one of the first `upto` nodes of `from`.
pub open spec fn reached(topo: Topology, from: Seq<NodeId>, upto: int) -> Set<NodeId> {
    Set::new(|b: NodeId| exists|m: int| 0 <= m < upto && topo.adjacent(from[m], b))
}

/// Within one step of a node lie the node itself and its neighbours.
pub proof fn lemma_ball_one(topo: Topology, center: NodeId)
    requires
        topo.nodes.contains(center),
    ensures
        ball(topo, center, 1) == topo.neighbors(center).insert(center),
{
    reveal_with_fuel(ball, 2);
    let inner = Set::<NodeId>::empty().insert(center);
    assert(ball(topo, center, 0) == inner);
    assert forall|b: NodeId| around(topo, inner).contains(b) <==> topo.neighbors(center).contains(
        b,
    ) by {
        if topo.adjacent(center, b) {
            assert(inner.contains(center));
        }
    }
    assert(ball(topo, center, 1) =~= topo.neighbors(center).insert(center));
}

/// Once a step adds no node, no later step does.
pub proof fn lemma_ball_stable(topo: Topology, center: NodeId, radius: nat, more: nat)
    requires
        ball(topo, center, radius + 1) == ball(topo, center, radius),
    ensures
        ball(topo, center, radius + more) == ball(topo, center, radius),
    decreases more,
{
    if more > 0 {
        lemma_ball_stable(topo, center, radius, (more - 1) as nat);
        assert(ball(topo, center, radius + more) == ball(topo, center, radius + 1));
    }
}

/// Whether `list` names `id`.
pub fn names(list: &Vec<NodeId>, id: NodeId) -> (found: bool)
    ensures
        found == list@.contains(id),
{
    let mut k: usize = 0;
    while k < list.len()
        invariant
            k <= list@.len(),
            forall|j: int| 0 <= j < k ==> list@[j] != id,
        decreases list@.len() - k,
    {
        if list[k] == id {
            return true;
        }
        k += 1;
    }
    false
}

/// Adds to `visited` the neighbours of its first `count` nodes that it does
/// not name yet.
fn expand(model: &Model, visited: &mut Vec<NodeId>, count: usize)
    requires
        model.wf(),
        count == old(visited)@.len(),
        old(visited)@.no_duplicates(),
    ensures
        final(visited)@.no_duplicates(),
        final(visited)@.len() >= count,
        final(visited)@.take(count as int) == old(visited)@,
        final(visited)@.to_set() == old(visited)@.to_set().union(
            around(model@, old(visited)@.to_set()),
        ),
{
    let ghost first = visited@;
    let ghost inner = visited@.to_set();
    let mut i: usize = 0;
    assert(visited@.take(count as int) =~= first);
    assert(visited@.to_set() =~= inner.union(reached(model@, first, 0)));
    while i < count
        invariant
            i <= count,
            count == first.len(),
            count <= visited@.len(),
            model.wf(),
            inner == first.to_set(),
            visited@.no_duplicates(),
            visited@.take(count as int) == first,
            visited@.to_set() == inner.union(reached(model@, first, i as int)),
        decreases count - i,
    {
        assert(visited@[i as int] == visited@.take(count as int)[i as int]);
        let a = visited[i];
        let near: Vec<NodeId> = model.neighbors_undirected(a);
        let ghost base = visited@.to_set();
        let mut k: usize = 0;
        assert(near@.take(0).to_set() =~= Set::<NodeId>::empty());
        assert(visited@.to_set() =~= base.union(near@.take(0).to_set()));
        while k < near.len()
            invariant
                k <= near@.len(),
                count <= visited@.len(),
                visited@.no_duplicates(),
                visited@.take(count as int) == first,
                visited@.to_set() == base.union(near@.take(k as int).to_set()),
            decreases near@.len() - k,
        {
            let b = near[k];
            let ghost before = visited@;
            if !names(visited, b) {
                visited.push(b);
                assert(visited@.take(count as int) =~= before.take(count as int));
            }
            proof {
                let grown = near@.take(k + 1);
                let seen = near@.take(k as int);
                assert(grown =~= seen.push(b));
                assert forall|x: NodeId| visited@.to_set().contains(x) <==> base.union(
                    grown.to_set(),
                ).contains(x) by {
                    if visited@.contains(x) {
                        let m = choose|m: int| 0 <= m < visited@.len() && visited@[m] == x;
                        if m < before.len() {
                            assert(before[m] == x);
                            assert(before.to_set().contains(x));
                            if seen.contains(x) {
                                let t = choose|t: int| 0 <= t < seen.len() && seen[t] == x;
                                assert(grown[t] == x);
                            }
                        } else {
                            assert(grown[k as int] == x);
                        }
                    }
                    if grown.contains(x) {
                        let t = choose|t: int| 0 <= t < grown.len() && grown[t] == x;
                        if t < k {
                            assert(seen[t] == x);
                            assert(before.to_set().contains(x));
                            let m = choose|m: int| 0 <= m < before.len() && before[m] == x;
                            assert(visited@[m] == x);
                        } else {
                            assert(x == b);
                            if before.contains(b) {
                                let m = choose|m: int| 0 <= m < before.len() && before[m] == b;
                                assert(visited@[m] == b);
                            } else {
                                assert(visited@[before.len() as int] == b);
                            }
                        }
                    }
                    if base.contains(x) {
                        assert(before.to_set().contains(x));
                        let m = choose|m: int| 0 <= m < before.len() && before[m] == x;
                        assert(visited@[m] == x);
                    }
                }
                assert(visited@.to_set() =~= base.union(grown.to_set()));
            }
            k += 1;
        }
        proof {
            assert(near@.take(near@.len() as int) =~= near@);
            assert(first[i as int] == a);
            assert forall|x: NodeId| reached(model@, first, i + 1).contains(x) <==> (reached(
                model@,
                first,
                i as int,
            ).contains(x) || model@.neighbors(a).contains(x)) by {
                if reached(model@, first, i + 1).contains(x) {
                    let m = choose|m: int| 0 <= m < i + 1 && model@.adjacent(first[m], x);
                    if m < i {
                        assert(reached(model@, first, i as int).contains(x));
                    }
                }
                if reached(model@, first, i as int).contains(x) {
                    let m = choose|m: int| 0 <= m < i && model@.adjacent(first[m], x);
                    assert(0 <= m < i + 1 && model@.adjacent(first[m], x));
                }
                if model@.neighbors(a).contains(x) {
                    assert(0 <= i < i + 1 && model@.adjacent(first[i as int], x));
                }
            }
            assert(visited@.to_set() =~= inner.union(reached(model@, first, i + 1)));
        }
        i += 1;
    }
    proof {
        assert forall|x: NodeId| reached(model@, first, count as int).contains(x) <==> around(
            model@,
            inner,
        ).contains(x) by {
            if reached(model@, first, count as int).contains(x) {
                let m = choose|m: int| 0 <= m < count && model@.adjacent(first[m], x);
                assert(first.contains(first[m]));
                assert(inner.contains(first[m]) && model@.adjacent(first[m], x));
            }
            if around(model@, inner).contains(x) {
                let a = choose|a: NodeId| inner.contains(a) && model@.adjacent(a, x);
                assert(first.contains(a));
                let m = choose|m: int| 0 <= m < first.len() && first[m] == a;
                assert(0 <= m < count && model@.adjacent(first[m], x));
            }
        }
        assert(reached(model@, first, count as int) =~= around(model@, inner));
    }
}

/// A layout with positions.
pub struct GraphProjection {
    entries: Vec<Entry>,
}

impl View for GraphProjection {
    type V = Seq<Entry>;

    /// The entries, in order.
    closed spec fn view(&self) -> Seq<Entry> {
        self.entries@
    }
}

impl GraphProjection {
    /// No identifier has two entries.
    pub open spec fn wf(&self) -> bool {
        distinct_ids(self@)
    }

    /// The layout without entries.
    pub fn new() -> (p: GraphProjection)
        ensures
            p@.len() == 0,
            p.wf(),
    {
        GraphProjection { entries: Vec::new() }
    }

    /// The number of entries.
    pub fn len(&self) -> (n: usize)
        ensures
            n == self@.len(),
    {
        self.entries.len()
    }

    /// The entry at place `i`.
    pub fn get(&self, i: usize) -> (e: Entry)
        requires
            i < self@.len(),
        ensures
            e == self@[i as int],
    {
        self.entries[i]
    }

    /// The place of the first entry for `id`.
    pub fn index_of(&self, id: NodeId) -> (r: Option<usize>)
        ensures
            match r {
                Some(i) => is_first(self@, id, i as int),
                None => !has_id(self@, id),
            },
    {
        let mut i: usize = 0;
        while i < self.entries.len()
            invariant
                i <= self.entries@.len(),
                forall|j: int| 0 <= j < i ==> self.entries@[j].0 != id,
            decreases self.entries@.len() - i,
        {
            if self.entries[i].0 == id {
                return Some(i);
            }
            i += 1;
        }
        None
    }

    /// The position of `id`, if it has an entry.
    pub fn position(&self, id: NodeId) -> (r: Option<Vec2>)
        ensures
            r == position_in(self@, id),
    {
        match self.index_of(id) {
            Some(i) => {
                proof {
                    lemma_first_unique(self@, id, i as int);
                }
                Some(self.entries[i].1.pos)
            },
            None => None,
        }
    }

    /// Moves the entry at place `i` to `pos`.
    pub fn set_at(&mut self, i: usize, pos: Vec2)
        requires
            i < old(self)@.len(),
        ensures
            final(self)@ == old(self)@.update(i as int, entry(old(self)@[i as int].0, pos)),
            old(self).wf() ==> final(self).wf(),
    {
        let id = self.entries[i].0;
        self.entries.set(i, (id, NodeProjection { pos }));
    }

    /// Moves `id` to `pos`. Returns `false`, and changes nothing, where `id`
    /// has no entry.
    pub fn set_position(&mut self, id: NodeId, pos: Vec2) -> (found: bool)
        ensures
            found == has_id(old(self)@, id),
            found ==> final(self)@ == old(self)@.update(
                first_index(old(self)@, id),
                entry(id, pos),
            ),
            !found ==> final(self)@ == old(self)@,
            old(self).wf() ==> final(self).wf(),
    {
        match self.index_of(id) {
            Some(i) => {
                proof {
                    lemma_first_unique(self@, id, i as int);
                }
                self.set_at(i, pos);
                true
            },
            None => false,
        }
    }

    /// Moves `id` to where `f` sends its position. Changes nothing where
    /// `id` has no entry.
    pub fn update_position<F: FnOnce(Vec2) -> Vec2>(&mut self, id: NodeId, f: F)
        requires
            forall|p: Vec2| call_requires(f, (p,)),
        ensures
            match position_in(old(self)@, id) {
                Some(before) => exists|after: Vec2|
                    call_ensures(f, (before,), after) && final(self)@ == old(self)@.update(
                        first_index(old(self)@, id),
                        entry(id, after),
                    ),
                None => final(self)@ == old(self)@,
            },
            old(self).wf() ==> final(self).wf(),
    {
        match self.index_of(id) {
            Some(i) => {
                proof {
                    lemma_first_unique(self@, id, i as int);
                }
                let after = f(self.entries[i].1.pos);
                self.set_at(i, after);
            },
            None => {},
        }
    }

    /// The entries, in order.
    pub fn iter(&self) -> (all: Vec<Entry>)
        ensures
            all@ == self@,
    {
        let mut all: Vec<Entry> = Vec::new();
        let mut i: usize = 0;
        while i < self.entries.len()
            invariant
                i <= self.entries@.len(),
                all@ == self.entries@.take(i as int),
            decreases self.entries@.len() - i,
        {
            all.push(self.entries[i]);
            i += 1;
        }
        all
    }

    /// A layout with one entry, at the origin, for each identifier in `ids`,
    /// in the order in which `ids` first names them.
    pub fn from_nodes(ids: &Vec<NodeId>) -> (p: GraphProjection)
        ensures
            p@ == at_origin(first_mentions(ids@, ids@.len() as int)),
            p.wf(),
            all_at_origin(p@),
            forall|id: NodeId| has_id(p@, id) <==> ids@.contains(id),
            ids@.no_duplicates() ==> p@ == at_origin(ids@),
    {
        let mut p = GraphProjection::new();
        let mut i: usize = 0;
        assert(p@ =~= at_origin(first_mentions(ids@, 0)));
        while i < ids.len()
            invariant
                i <= ids@.len(),
                p.wf(),
                p@ == at_origin(first_mentions(ids@, i as int)),
                forall|id: NodeId| has_id(p@, id) <==> ids@.take(i as int).contains(id),
                ids@.no_duplicates() ==> first_mentions(ids@, i as int) == ids@.take(i as int),
            decreases ids@.len() - i,
        {
            let id = ids[i];
            let ghost before = p@;
            let ghost named = first_mentions(ids@, i as int);
            proof {
                if named.contains(id) {
                    let k = choose|k: int| 0 <= k < named.len() && named[k] == id;
                    assert(before[k].0 == id);
                }
                if has_id(before, id) {
                    let k = choose|k: int| 0 <= k < before.len() && before[k].0 == id;
                    assert(named[k] == id);
                }
                assert(named.contains(id) == has_id(before, id));
            }
            if p.index_of(id).is_none() {
                p.entries.push((id, NodeProjection { pos: Vec2::zero() }));
                assert(p@[before.len() as int].0 == id);
                assert(p@ =~= at_origin(named.push(id)));
            }
            proof {
                let seen = ids@.take(i as int);
                let next = ids@.take(i + 1);
                assert(next =~= seen.push(id));
                assert(next[i as int] == id);
                assert forall|x: NodeId| has_id(p@, x) implies next.contains(x) by {
                    let k = choose|k: int| 0 <= k < p@.len() && p@[k].0 == x;
                    if k < before.len() {
                        assert(before[k].0 == x);
                        assert(has_id(before, x));
                        assert(seen.contains(x));
                        let m = choose|m: int| 0 <= m < seen.len() && seen[m] == x;
                        assert(next[m] == x);
                    } else {
                        assert(x == id);
                    }
                }
                assert forall|x: NodeId| next.contains(x) implies has_id(p@, x) by {
                    let m = choose|m: int| 0 <= m < next.len() && next[m] == x;
                    if m < i {
                        assert(seen[m] == x);
                        assert(seen.contains(x));
                    }
                    if has_id(before, x) {
                        let k = choose|k: int| 0 <= k < before.len() && before[k].0 == x;
                        assert(p@[k].0 == x);
                    } else {
                        assert(x == id);
                        assert(p@[before.len() as int].0 == x);
                    }
                }
                if ids@.no_duplicates() {
                    if seen.contains(id) {
                        let m = choose|m: int| 0 <= m < seen.len() && seen[m] == id;
                        assert(ids@[m] == ids@[i as int]);
                    }
                }
            }
            i += 1;
        }
        assert(ids@.take(ids@.len() as int) =~= ids@);
        p
    }

    /// The layout of the whole graph: every node at the origin, by
    /// increasing slot.
    pub fn from_graph(model: &Model) -> (p: GraphProjection)
        requires
            model.wf(),
        ensures
            p.wf(),
            all_at_origin(p@),
            forall|id: NodeId| has_id(p@, id) <==> model@.nodes.contains(id),
            forall|i: int, j: int| 0 <= i < j < p@.len() ==> p@[i].0.index < p@[j].0.index,
            p@.len() == model@.nodes.len(),
    {
        let ids = model.node_ids();
        GraphProjection::from_nodes(&ids)
    }

    /// The layout of the part of the graph within `radius` steps of `center`,
    /// along edges in either direction: every such node at the origin. Empty
    /// where the graph does not hold `center`.
    pub fn from_subgraph(model: &Model, center: NodeId, radius: u32) -> (p: GraphProjection)
        requires
            model.wf(),
        ensures
            p.wf(),
            all_at_origin(p@),
            forall|id: NodeId| has_id(p@, id) <==> ball(model@, center, radius as nat).contains(id),
    {
        let mut visited: Vec<NodeId> = Vec::new();
        if model.contains_node(center) {
            visited.push(center);
            assert(visited@[0] == center);
        }
        assert forall|x: NodeId| visited@.to_set().contains(x) <==> ball(
            model@,
            center,
            0,
        ).contains(x) by {
            if visited@.contains(x) {
                let m = choose|m: int| 0 <= m < visited@.len() && visited@[m] == x;
            }
        }
        assert(visited@.to_set() =~= ball(model@, center, 0));
        let mut r: u32 = 0;
        while r < radius
            invariant
                r <= radius,
                model.wf(),
                visited@.no_duplicates(),
                visited@.to_set() == ball(model@, center, r as nat),
            decreases radius - r,
        {
            let count: usize = visited.len();
            expand(model, &mut visited, count);
            assert(visited@.to_set() == ball(model@, center, (r + 1) as nat));
            if visited.len() == count {
                proof {
                    assert(visited@ =~= visited@.take(count as int));
                    lemma_ball_stable(model@, center, r as nat, (radius - r) as nat);
                }
                return GraphProjection::from_nodes(&visited);
            }
            r += 1;
        }
        GraphProjection::from_nodes(&visited)
    }

    /// Takes over the positions of `other`: an identifier that `other` knows
    /// moves to where `other` has it, any other entry stays as it is.
    pub fn copy_projections_from(&mut self, other: &GraphProjection)
        ensures
            final(self)@ == merge_spec(old(self)@, other@),
            old(self).wf() ==> final(self).wf(),
    {
        let mut i: usize = 0;
        while i < self.entries.len()
            invariant
                i <= self@.len(),
                self@.len() == old(self)@.len(),
                forall|j: int| 0 <= j < i ==> self@[j] == merge_spec(old(self)@, other@)[j],
                forall|j: int| i <= j < self@.len() ==> self@[j] == old(self)@[j],
                forall|j: int| 0 <= j < self@.len() ==> self@[j].0 == old(self)@[j].0,
            decreases self@.len() - i,
        {
            let id = self.entries[i].0;
            match other.position(id) {
                Some(pos) => {
                    self.set_at(i, pos);
                },
                None => {},
            }
            i += 1;
        }
        assert(self@ =~= merge_spec(old(self)@, other@));
    }
}

} // verus!
