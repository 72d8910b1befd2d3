//! Trusted boundary around the petgraph-backed node and edge store.
//!
//! The store itself is opaque to verification.  Its observable state is given
//! by the two model functions `nodes_of` (the node weights in index order)
//! and `edges_of` (a map from ordered index pairs to edge labels), and the
//! functions below are the only operations the library performs on it.
//! Every value of `GraphStore` originates from `new_store`, and none of the
//! operations can create two parallel edges between the same endpoints, so
//! the map model of the edge set is faithful.

use vstd::prelude::*;

use crate::task::{Node, NodeV};

verus! {

/// A directed graph with `Node` weights and `String` edge labels, backed by
/// `petgraph::graph::Graph` with `usize` indices.  With `usize` indices the
/// underlying graph has no capacity limit, so additions cannot panic.
#[verifier::external_body]
pub struct GraphStore {
    inner: petgraph::graph::Graph<Node, String, petgraph::Directed, usize>,
}

/// The node weights the store holds, in index order.
pub uninterp spec fn nodes_of(g: GraphStore) -> Seq<NodeV>;

/// The edges the store holds, as a map from (source index, target index)
/// pairs to the edge label.
pub uninterp spec fn edges_of(g: GraphStore) -> Map<(int, int), Seq<char>>;

/// The mathematical state of a graph: its node weights and labeled edges.
pub struct GraphModel {
    pub nodes: Seq<NodeV>,
    pub edges: Map<(int, int), Seq<char>>,
}

/// The model of a store.
pub open spec fn model(g: GraphStore) -> GraphModel {
    GraphModel { nodes: nodes_of(g), edges: edges_of(g) }
}

/// Every edge endpoint names a node.
pub open spec fn edges_bounded(m: GraphModel) -> bool {
    forall|p: (int, int)| #[trigger]
        m.edges.dom().contains(p) ==> 0 <= p.0 < m.nodes.len() && 0 <= p.1 < m.nodes.len()
}

/// There is a directed path of exactly `k` edges from `a` to `b`.
pub open spec fn reaches(edges: Map<(int, int), Seq<char>>, a: int, b: int, k: nat) -> bool
    decreases k,
{
    if k == 0 {
        a == b
    } else {
        exists|m: int| edges.dom().contains((a, m)) && reaches(edges, m, b, (k - 1) as nat)
    }
}

/// The edge relation contains a directed cycle: some node reaches itself over
/// at least one edge.
pub open spec fn has_cycle(edges: Map<(int, int), Seq<char>>) -> bool {
    exists|a: int, k: nat| k >= 1 && reaches(edges, a, a, k)
}

/// An edge map without edges has no cycle.
pub proof fn lemma_empty_acyclic(edges: Map<(int, int), Seq<char>>)
    requires
        edges.dom() =~= Set::<(int, int)>::empty(),
    ensures
        !has_cycle(edges),
{
    assert forall|a: int, k: nat| k >= 1 implies !reaches(edges, a, a, k) by {
        assert(forall|m: int| !edges.dom().contains((a, m)));
    }
}

/// A pair of opposed edges is a cycle.
pub proof fn lemma_two_cycle(edges: Map<(int, int), Seq<char>>, a: int, b: int)
    requires
        edges.dom().contains((a, b)),
        edges.dom().contains((b, a)),
    ensures
        has_cycle(edges),
{
    assert(reaches(edges, a, a, 0));
    assert(reaches(edges, b, a, 1));
    assert(reaches(edges, a, a, 2));
}

/// A self-loop is a cycle.
pub proof fn lemma_self_loop_cycle(edges: Map<(int, int), Seq<char>>, a: int)
    requires
        edges.dom().contains((a, a)),
    ensures
        has_cycle(edges),
{
    assert(reaches(edges, a, a, 0));
    assert(reaches(edges, a, a, 1));
}

/// Relies on petgraph's `Graph::with_capacity`: it returns a graph with no
/// nodes and no edges.
#[verifier::external_body]
pub(crate) fn new_store() -> (store: GraphStore)
    ensures
        nodes_of(store).len() == 0,
        forall|p: (int, int)| !edges_of(store).dom().contains(p),
{
    GraphStore { inner: petgraph::graph::Graph::with_capacity(0, 0) }
}

/// Relies on petgraph's `Graph::add_node`: it stores the weight under the
/// next free index (node indices are contiguous and stable under addition)
/// and touches no edge.
#[verifier::external_body]
pub(crate) fn add_node(g: &mut GraphStore, w: Node) -> (i: usize)
    ensures
        i == nodes_of(*old(g)).len(),
        nodes_of(*final(g)) == nodes_of(*old(g)).push(w@),
        edges_of(*final(g)) == edges_of(*old(g)),
{
    g.inner.add_node(w).index()
}

/// Relies on petgraph's `Graph::node_count`.
#[verifier::external_body]
pub(crate) fn node_count(g: &GraphStore) -> (n: usize)
    ensures
        n == nodes_of(*g).len(),
{
    g.inner.node_count()
}

/// Relies on petgraph's `Graph::node_weight`; the weight is cloned by this
/// crate's `Clone` implementations, which preserve the value.
#[verifier::external_body]
pub(crate) fn node_at(g: &GraphStore, i: usize) -> (w: Node)
    requires
        i < nodes_of(*g).len(),
    ensures
        w@ == nodes_of(*g)[i as int],
{
    g.inner.node_weight(petgraph::graph::NodeIndex::new(i)).unwrap().clone()
}

/// Relies on petgraph's `Graph::node_weight_mut` to replace one node weight
/// in place; edges are untouched.
#[verifier::external_body]
pub(crate) fn set_node(g: &mut GraphStore, i: usize, w: Node)
    requires
        i < nodes_of(*old(g)).len(),
    ensures
        nodes_of(*final(g)) == nodes_of(*old(g)).update(i as int, w@),
        edges_of(*final(g)) == edges_of(*old(g)),
{
    *g.inner.node_weight_mut(petgraph::graph::NodeIndex::new(i)).unwrap() = w;
}

/// Relies on petgraph's `Graph::update_edge`: it adds an `a -> b` edge with
/// the given label, or replaces the label of the existing `a -> b` edge.
#[verifier::external_body]
pub(crate) fn update_edge(g: &mut GraphStore, a: usize, b: usize, label: String)
    requires
        a < nodes_of(*old(g)).len(),
        b < nodes_of(*old(g)).len(),
    ensures
        nodes_of(*final(g)) == nodes_of(*old(g)),
        edges_of(*final(g)) == edges_of(*old(g)).insert((a as int, b as int), label@),
{
    g.inner.update_edge(
        petgraph::graph::NodeIndex::new(a),
        petgraph::graph::NodeIndex::new(b),
        label,
    );
}

/// Relies on petgraph's `Graph::find_edge` and `Graph::remove_edge` to delete
/// the `a -> b` edge when one exists.
#[verifier::external_body]
pub(crate) fn remove_edge(g: &mut GraphStore, a: usize, b: usize)
    ensures
        nodes_of(*final(g)) == nodes_of(*old(g)),
        edges_of(*final(g)) == edges_of(*old(g)).remove((a as int, b as int)),
{
    let (na, nb) = (petgraph::graph::NodeIndex::new(a), petgraph::graph::NodeIndex::new(b));
    if let Some(e) = g.inner.find_edge(na, nb) {
        g.inner.remove_edge(e);
    }
}

/// Relies on petgraph's `Graph::find_edge` and `Graph::edge_weight`; the
/// label is cloned, and `String` clones preserve the value.
#[verifier::external_body]
pub(crate) fn edge_label(g: &GraphStore, a: usize, b: usize) -> (r: Option<String>)
    ensures
        match r {
            Some(l) => edges_of(*g).dom().contains((a as int, b as int)) && l@ == edges_of(
                *g,
            )[(a as int, b as int)],
            None => !edges_of(*g).dom().contains((a as int, b as int)),
        },
{
    let (na, nb) = (petgraph::graph::NodeIndex::new(a), petgraph::graph::NodeIndex::new(b));
    g.inner.find_edge(na, nb).map(|e| g.inner.edge_weight(e).unwrap().clone())
}

/// Relies on petgraph's `algo::is_cyclic_directed`: it returns true exactly
/// when the graph contains a directed cycle.
#[verifier::external_body]
pub(crate) fn is_cyclic(g: &GraphStore) -> (r: bool)
    ensures
        r == has_cycle(edges_of(*g)),
{
    petgraph::algo::is_cyclic_directed(&g.inner)
}

} // verus!
