//! The directed topology of the engine's graph, held in a petgraph
//! `StableGraph` whose node indices survive removals. Node payloads live in the
//! engine's own arena; the graph holds `()` per node and the slot pair of
//! each edge.

use vstd::prelude::*;
use petgraph::stable_graph::StableGraph;
use petgraph::visit::EdgeRef;
use petgraph::visit::IntoEdgeReferences;

verus! {

/// Declares petgraph's `StableGraph` to Verus as an opaque type; what it
/// holds is stated through `graph_nodes` and `graph_edges`.
#[verifier::external_type_specification]
#[verifier::external_body]
#[verifier::reject_recursive_types(N)]
#[verifier::reject_recursive_types(E)]
#[verifier::reject_recursive_types(Ty)]
#[verifier::reject_recursive_types(Ix)]
pub struct ExStableGraph<N, E, Ty, Ix>(StableGraph<N, E, Ty, Ix>);

/// Declares petgraph's `Directed` edge-type marker to Verus as an opaque type.
#[verifier::external_type_specification]
#[verifier::external_body]
pub struct ExDirected(petgraph::Directed);

/// The graph type: unit node weights, `(source_slot, sink_slot)` edge weights.
pub type Topology = StableGraph<(), (usize, usize)>;

/// One edge as plain values: `(from, to, source_slot, sink_slot)`.
pub type EdgeEnds = (usize, usize, usize, usize);

/// The live node indices of a graph.
pub uninterp spec fn graph_nodes(g: Topology) -> Set<usize>;

/// The live edges of a graph, keyed by edge index.
pub uninterp spec fn graph_edges(g: Topology) -> Map<usize, EdgeEnds>;

/// There is an edge from `a` to `b`.
pub open spec fn has_edge(edges: Map<usize, EdgeEnds>, a: usize, b: usize) -> bool {
    exists|e: usize| #[trigger] edges.contains_key(e) && edges[e].0 == a && edges[e].1 == b
}

/// `p` is a walk: one or more nodes, each consecutive pair joined by an edge.
pub open spec fn is_walk(edges: Map<usize, EdgeEnds>, p: Seq<usize>) -> bool {
    &&& p.len() >= 1
    &&& forall|i: int| 0 <= i < p.len() - 1 ==> #[trigger] has_edge(edges, p[i], p[i + 1])
}

/// `b` can be reached from `a` (every node reaches itself).
pub open spec fn reaches(edges: Map<usize, EdgeEnds>, a: usize, b: usize) -> bool {
    exists|p: Seq<usize>| #[trigger] is_walk(edges, p) && p[0] == a && p.last() == b
}

/// The edges hold a cycle (a self-loop counts).
pub open spec fn has_cycle(edges: Map<usize, EdgeEnds>) -> bool {
    exists|p: Seq<usize>| #[trigger] is_walk(edges, p) && p.len() >= 2 && p[0] == p.last()
}

/// `order` lists each node once and puts every edge's source before its target.
pub open spec fn is_topological(
    order: Seq<usize>,
    nodes: Set<usize>,
    edges: Map<usize, EdgeEnds>,
) -> bool {
    &&& order.no_duplicates()
    &&& order.to_set() == nodes
    &&& forall|e: usize| #[trigger] edges.contains_key(e) ==> exists|i: int, j: int|
        0 <= i < j < order.len() && order[i] == edges[e].0 && order[j] == edges[e].1
}

/// Every edge joins two live nodes.
pub open spec fn edges_closed(nodes: Set<usize>, edges: Map<usize, EdgeEnds>) -> bool {
    forall|e: usize| #[trigger] edges.contains_key(e) ==> nodes.contains(edges[e].0)
        && nodes.contains(edges[e].1)
}

/// Relies on `StableGraph::new`: a graph with no nodes and no edges.
#[verifier::external_body]
pub fn topology_new() -> (r: Topology)
    ensures
        forall|i: usize| !(#[trigger] graph_nodes(r).contains(i)),
        forall|e: usize| !(#[trigger] graph_edges(r).contains_key(e)),
        graph_edges(r).dom().finite(),
        graph_nodes(r).finite(),
{
    StableGraph::new()
}

/// Relies on `StableGraph::try_add_node`: a vacant or new index is taken and
/// returned; it fails only when every one of the `u32::MAX` index slots is
/// in use, and then the node set is unchanged.
#[verifier::external_body]
pub fn topology_add_node(g: &mut Topology) -> (r: Option<usize>)
    ensures
        r matches Some(i) ==> !graph_nodes(*old(g)).contains(i) && graph_nodes(*final(g))
            == graph_nodes(*old(g)).insert(i),
        r is None ==> graph_nodes(*final(g)) == graph_nodes(*old(g)),
        graph_nodes(*old(g)).finite() && graph_nodes(*old(g)).len() < u32::MAX ==> r is Some,
        graph_edges(*final(g)) == graph_edges(*old(g)),
{
    g.try_add_node(()).ok().map(|i| i.index())
}

/// Relies on `StableGraph::remove_node`: the node and every edge touching it
/// are removed; other indices keep their meaning.
#[verifier::external_body]
pub fn topology_remove_node(g: &mut Topology, i: usize)
    requires
        graph_nodes(*old(g)).contains(i),
    ensures
        graph_nodes(*final(g)) == graph_nodes(*old(g)).remove(i),
        graph_edges(*final(g)) == graph_edges(*old(g)).restrict(
            graph_edges(*old(g)).dom().filter(
                |e: usize| graph_edges(*old(g))[e].0 != i && graph_edges(*old(g))[e].1 != i,
            ),
        ),
{
    g.remove_node(petgraph::graph::NodeIndex::new(i));
}

/// Relies on `StableGraph::try_add_edge`: with both ends live, a fresh edge
/// index is returned; it fails only when no freed edge slot is left and
/// every one of the `u32::MAX` edge slots is in use, returning before
/// anything is changed.
#[verifier::external_body]
pub fn topology_add_edge(g: &mut Topology, a: usize, b: usize, w: (usize, usize)) -> (r: Option<
    usize,
>)
    requires
        graph_nodes(*old(g)).contains(a),
        graph_nodes(*old(g)).contains(b),
    ensures
        graph_nodes(*final(g)) == graph_nodes(*old(g)),
        r matches Some(e) ==> !graph_edges(*old(g)).contains_key(e) && graph_edges(*final(g))
            == graph_edges(*old(g)).insert(e, (a, b, w.0, w.1)),
        r is None ==> *final(g) == *old(g),
        graph_edges(*old(g)).dom().finite() && graph_edges(*old(g)).len() < u32::MAX ==> r is Some,
{
    g.try_add_edge(petgraph::graph::NodeIndex::new(a), petgraph::graph::NodeIndex::new(b), w).ok().map(
        |e| e.index(),
    )
}

/// Relies on `StableGraph::remove_edge`: the edge is removed, nothing else.
#[verifier::external_body]
pub fn topology_remove_edge(g: &mut Topology, e: usize)
    requires
        graph_edges(*old(g)).contains_key(e),
    ensures
        graph_nodes(*final(g)) == graph_nodes(*old(g)),
        graph_edges(*final(g)) == graph_edges(*old(g)).remove(e),
{
    g.remove_edge(petgraph::graph::EdgeIndex::new(e));
}

/// Relies on `StableGraph::edge_count`: the number of live edges.
#[verifier::external_body]
pub fn topology_edge_count(g: &Topology) -> (r: usize)
    ensures
        r == graph_edges(*g).len(),
{
    g.edge_count()
}

/// Relies on `IntoEdgeReferences::edge_references` for `&StableGraph`: each
/// live edge once, as `(index, (from, to, source_slot, sink_slot))`.
#[verifier::external_body]
pub fn topology_edges(g: &Topology) -> (r: Vec<(usize, EdgeEnds)>)
    ensures
        forall|k: int| 0 <= k < r@.len() ==> #[trigger] graph_edges(*g).contains_key(r@[k].0)
            && graph_edges(*g)[r@[k].0] == r@[k].1,
        forall|e: usize| #[trigger] graph_edges(*g).contains_key(e) ==> exists|k: int|
            0 <= k < r@.len() && r@[k].0 == e,
        forall|k1: int, k2: int|
            0 <= k1 < k2 < r@.len() ==> #[trigger] r@[k1].0 != #[trigger] r@[k2].0,
{
    g.edge_references().map(
        |e| (e.id().index(), (e.source().index(), e.target().index(), e.weight().0, e.weight().1)),
    ).collect()
}

/// Relies on `StableGraph::edges_directed(to, Incoming)`: each live edge
/// ending at `to` once, as `(index, (from, to, source_slot, sink_slot))`.
#[verifier::external_body]
pub fn topology_incoming(g: &Topology, to: usize) -> (r: Vec<(usize, EdgeEnds)>)
    requires
        graph_nodes(*g).contains(to),
    ensures
        forall|k: int| 0 <= k < r@.len() ==> #[trigger] graph_edges(*g).contains_key(r@[k].0)
            && graph_edges(*g)[r@[k].0] == r@[k].1 && r@[k].1.1 == to,
        forall|e: usize| #[trigger] graph_edges(*g).contains_key(e) && graph_edges(*g)[e].1 == to
            ==> exists|k: int| 0 <= k < r@.len() && r@[k].0 == e,
{
    g.edges_directed(petgraph::graph::NodeIndex::new(to), petgraph::Direction::Incoming).map(
        |e| (e.id().index(), (e.source().index(), e.target().index(), e.weight().0, e.weight().1)),
    ).collect()
}

/// Relies on `StableGraph::edges_connecting`: each live edge from `from` to
/// `to` once, as `(index, (from, to, source_slot, sink_slot))`.
#[verifier::external_body]
pub fn topology_connecting(g: &Topology, from: usize, to: usize) -> (r: Vec<(usize, EdgeEnds)>)
    requires
        graph_nodes(*g).contains(from),
        graph_nodes(*g).contains(to),
    ensures
        forall|k: int| 0 <= k < r@.len() ==> #[trigger] graph_edges(*g).contains_key(r@[k].0)
            && graph_edges(*g)[r@[k].0] == r@[k].1 && r@[k].1.0 == from && r@[k].1.1 == to,
        forall|e: usize| #[trigger] graph_edges(*g).contains_key(e) && graph_edges(*g)[e].0 == from
            && graph_edges(*g)[e].1 == to ==> exists|k: int| 0 <= k < r@.len() && r@[k].0 == e,
{
    g.edges_connecting(petgraph::graph::NodeIndex::new(from), petgraph::graph::NodeIndex::new(to)).map(
        |e| (e.id().index(), (e.source().index(), e.target().index(), e.weight().0, e.weight().1)),
    ).collect()
}

/// Relies on `petgraph::algo::has_path_connecting`: whether a depth-first walk
/// from `from` meets `to`.
#[verifier::external_body]
pub fn topology_has_path(g: &Topology, from: usize, to: usize) -> (r: bool)
    requires
        graph_nodes(*g).contains(from),
        graph_nodes(*g).contains(to),
    ensures
        r == reaches(graph_edges(*g), from, to),
{
    petgraph::algo::has_path_connecting(
        g,
        petgraph::graph::NodeIndex::new(from),
        petgraph::graph::NodeIndex::new(to),
        None,
    )
}

/// Relies on `petgraph::algo::toposort`: the nodes in topological order, or
/// an error exactly when the graph holds a cycle.
#[verifier::external_body]
pub fn topology_sort(g: &Topology) -> (r: Option<Vec<usize>>)
    ensures
        r is None <==> has_cycle(graph_edges(*g)),
        r matches Some(v) ==> is_topological(v@, graph_nodes(*g), graph_edges(*g)),
{
    petgraph::algo::toposort(g, None).ok().map(|v| v.into_iter().map(|n| n.index()).collect())
}

/// A walk over a subset of the edges is a walk over the whole.
pub proof fn lemma_walk_mono(sub: Map<usize, EdgeEnds>, sup: Map<usize, EdgeEnds>, p: Seq<usize>)
    requires
        sub.submap_of(sup),
        is_walk(sub, p),
    ensures
        is_walk(sup, p),
{
    assert forall|i: int| 0 <= i < p.len() - 1 implies #[trigger] has_edge(sup, p[i], p[i + 1]) by {
        assert(has_edge(sub, p[i], p[i + 1]));
        let e = choose|e: usize| #[trigger] sub.contains_key(e) && sub[e].0 == p[i] && sub[e].1 == p[i + 1];
        assert(sup.contains_key(e));
    }
}

/// Removing edges creates no cycle and no new path.
pub proof fn lemma_subgraph(sub: Map<usize, EdgeEnds>, sup: Map<usize, EdgeEnds>)
    requires
        sub.submap_of(sup),
    ensures
        has_cycle(sub) ==> has_cycle(sup),
        forall|a: usize, b: usize| #[trigger] reaches(sub, a, b) ==> reaches(sup, a, b),
{
    if has_cycle(sub) {
        let p = choose|p: Seq<usize>| #[trigger] is_walk(sub, p) && p.len() >= 2 && p[0] == p.last();
        lemma_walk_mono(sub, sup, p);
    }
    assert forall|a: usize, b: usize| #[trigger] reaches(sub, a, b) implies reaches(sup, a, b) by {
        let p = choose|p: Seq<usize>| #[trigger] is_walk(sub, p) && p[0] == a && p.last() == b;
        lemma_walk_mono(sub, sup, p);
    }
}

/// Walks join end to start.
proof fn lemma_reaches_trans(edges: Map<usize, EdgeEnds>, x: usize, y: usize, z: usize)
    requires
        reaches(edges, x, y),
        reaches(edges, y, z),
    ensures
        reaches(edges, x, z),
{
    let p = choose|p: Seq<usize>| #[trigger] is_walk(edges, p) && p[0] == x && p.last() == y;
    let q = choose|q: Seq<usize>| #[trigger] is_walk(edges, q) && q[0] == y && q.last() == z;
    let w = p + q.subrange(1, q.len() as int);
    assert forall|i: int| 0 <= i < w.len() - 1 implies #[trigger] has_edge(edges, w[i], w[i + 1]) by {
        if i < p.len() - 1 {
            assert(has_edge(edges, p[i], p[i + 1]));
        } else if i == p.len() - 1 {
            let k: int = 0;
            assert(has_edge(edges, q[k], q[k + 1]));
        } else {
            let j = i - p.len() + 1;
            assert(has_edge(edges, q[j], q[j + 1]));
        }
    }
    assert(is_walk(edges, w));
}

/// A walk over `old` plus the edge `a -> b` either avoids the new edge, or
/// splits into a walk to `a` and a walk from `b`, both over `old`.
proof fn lemma_walk_split(old: Map<usize, EdgeEnds>, n: usize, ends: EdgeEnds, p: Seq<usize>)
    requires
        is_walk(old.insert(n, ends), p),
        !old.contains_key(n),
    ensures
        is_walk(old, p) || (reaches(old, p[0], ends.0) && reaches(old, ends.1, p.last())),
    decreases p.len(),
{
    let new = old.insert(n, ends);
    if p.len() == 1 {
        assert(is_walk(old, p));
    } else {
        let q = p.drop_last();
        let z = p.last();
        assert forall|i: int| 0 <= i < q.len() - 1 implies #[trigger] has_edge(new, q[i], q[i + 1]) by {
            assert(has_edge(new, p[i], p[i + 1]));
        }
        lemma_walk_split(old, n, ends, q);
        let y = q.last();
        let k: int = p.len() - 2;
        assert(has_edge(new, p[k], p[k + 1]));
        let e = choose|e: usize| #[trigger] new.contains_key(e) && new[e].0 == y && new[e].1 == z;
        let single = seq![ends.1];
        assert(is_walk(old, single));
        if e == n {
            assert(reaches(old, ends.1, z));
            if is_walk(old, q) {
                assert(reaches(old, p[0], y));
            }
        } else {
            assert(has_edge(old, y, z));
            if is_walk(old, q) {
                assert forall|i: int| 0 <= i < p.len() - 1 implies #[trigger] has_edge(old, p[i], p[i + 1]) by {
                    if i < p.len() - 2 {
                        assert(has_edge(old, q[i], q[i + 1]));
                    }
                }
            } else {
                let step = seq![y, z];
                assert(has_edge(old, step[0], step[1]));
                assert(is_walk(old, step));
                lemma_reaches_trans(old, ends.1, y, z);
            }
        }
    }
}

/// Adding the edge `a -> b` to an acyclic graph in which `a` cannot be
/// reached from `b` leaves it acyclic.
pub proof fn lemma_add_edge_acyclic(old: Map<usize, EdgeEnds>, n: usize, ends: EdgeEnds)
    requires
        !has_cycle(old),
        !old.contains_key(n),
        !reaches(old, ends.1, ends.0),
    ensures
        !has_cycle(old.insert(n, ends)),
{
    let new = old.insert(n, ends);
    if has_cycle(new) {
        let p = choose|p: Seq<usize>| #[trigger] is_walk(new, p) && p.len() >= 2 && p[0] == p.last();
        lemma_walk_split(old, n, ends, p);
        if is_walk(old, p) {
            assert(has_cycle(old));
        } else {
            lemma_reaches_trans(old, ends.1, p[0], ends.0);
        }
    }
}

} // verus!
