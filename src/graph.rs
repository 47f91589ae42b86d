//! The undirected graph that holds the star nodes, kept in petgraph's
//! `Graph`. Its nodes and edges are described by two names: the node weights
//! in index order, and the edges in insertion order as pairs of node indices.

use petgraph::graph::{EdgeIndex, Graph, NodeIndex};
use petgraph::Undirected;
use vstd::prelude::*;

use crate::star::StarNode;

verus! {

#[verifier::external_type_specification]
#[verifier::external_body]
#[verifier::reject_recursive_types(N)]
#[verifier::reject_recursive_types(E)]
#[verifier::reject_recursive_types(Ty)]
#[verifier::reject_recursive_types(Ix)]
pub struct ExGraph<N, E, Ty, Ix>(Graph<N, E, Ty, Ix>);

#[verifier::external_type_specification]
#[verifier::external_body]
pub struct ExUndirected(Undirected);

/// The node weights of a star graph, in index order.
pub uninterp spec fn graph_nodes(g: Graph<StarNode, (), Undirected, u32>) -> Seq<StarNode>;

/// The edges of a star graph, in insertion order, each as the pair of node
/// indices it was added with.
pub uninterp spec fn graph_edges(g: Graph<StarNode, (), Undirected, u32>) -> Seq<(usize, usize)>;

/// Some edge joins `a` and `b`, in either direction.
pub open spec fn joins(edges: Seq<(usize, usize)>, a: int, b: int) -> bool {
    exists|e: int|
        0 <= e < edges.len() && ((edges[e].0 == a && edges[e].1 == b) || (edges[e].0 == b
            && edges[e].1 == a))
}

/// Relies on petgraph's `Graph::new_undirected`: a graph with no node and no edge.
#[verifier::external_body]
pub(crate) fn graph_new() -> (g: Graph<StarNode, (), Undirected, u32>)
    ensures
        graph_nodes(g) == Seq::<StarNode>::empty(),
        graph_edges(g) == Seq::<(usize, usize)>::empty(),
{
    Graph::new_undirected()
}

/// Relies on petgraph's `Graph::add_node`: the weight is appended and its
/// index is the former node count. It panics when that count is `u32::MAX`.
#[verifier::external_body]
pub(crate) fn graph_add_node(g: &mut Graph<StarNode, (), Undirected, u32>, w: StarNode) -> (i: usize)
    requires
        graph_nodes(*old(g)).len() < u32::MAX,
    ensures
        graph_nodes(*final(g)) == graph_nodes(*old(g)).push(w),
        graph_edges(*final(g)) == graph_edges(*old(g)),
        i == graph_nodes(*old(g)).len(),
{
    g.add_node(w).index()
}

/// Relies on petgraph's `Graph::add_edge`: the pair is appended to the edges.
/// It panics on a missing node, and when the edge count is `u32::MAX`.
#[verifier::external_body]
pub(crate) fn graph_add_edge(g: &mut Graph<StarNode, (), Undirected, u32>, a: usize, b: usize)
    requires
        a < graph_nodes(*old(g)).len(),
        b < graph_nodes(*old(g)).len(),
        a < u32::MAX,
        b < u32::MAX,
        graph_edges(*old(g)).len() < u32::MAX,
    ensures
        graph_nodes(*final(g)) == graph_nodes(*old(g)),
        graph_edges(*final(g)) == graph_edges(*old(g)).push((a, b)),
{
    g.add_edge(NodeIndex::new(a), NodeIndex::new(b), ());
}

/// Relies on petgraph's `Graph::contains_edge`: on an undirected graph it
/// looks for an edge from `a` to `b` or from `b` to `a`.
#[verifier::external_body]
pub(crate) fn graph_contains_edge(g: &Graph<StarNode, (), Undirected, u32>, a: usize, b: usize) -> (r: bool)
    requires
        a < graph_nodes(*g).len(),
        b < graph_nodes(*g).len(),
        a < u32::MAX,
        b < u32::MAX,
    ensures
        r == joins(graph_edges(*g), a as int, b as int),
{
    g.contains_edge(NodeIndex::new(a), NodeIndex::new(b))
}

/// Relies on petgraph's `Graph::node_count`: the number of nodes.
#[verifier::external_body]
pub(crate) fn graph_node_count(g: &Graph<StarNode, (), Undirected, u32>) -> (r: usize)
    ensures
        r == graph_nodes(*g).len(),
{
    g.node_count()
}

/// Relies on petgraph's `Graph::edge_count`: the number of edges.
#[verifier::external_body]
pub(crate) fn graph_edge_count(g: &Graph<StarNode, (), Undirected, u32>) -> (r: usize)
    ensures
        r == graph_edges(*g).len(),
{
    g.edge_count()
}

/// Relies on petgraph's `Graph::node_weight`: the weight of node `i`, and
/// `None` for an index past the last node.
#[verifier::external_body]
pub(crate) fn graph_node_weight(g: &Graph<StarNode, (), Undirected, u32>, i: usize) -> (r: Option<&StarNode>)
    requires
        i < graph_nodes(*g).len(),
        i < u32::MAX,
    ensures
        r == Some(&graph_nodes(*g)[i as int]),
{
    g.node_weight(NodeIndex::new(i))
}

/// Relies on petgraph's `Graph::edge_endpoints`: the pair that edge `e` was
/// added with.
#[verifier::external_body]
pub(crate) fn graph_edge_endpoints(g: &Graph<StarNode, (), Undirected, u32>, e: usize) -> (r: Option<(usize, usize)>)
    requires
        e < graph_edges(*g).len(),
        e < u32::MAX,
    ensures
        r == Some(graph_edges(*g)[e as int]),
{
    match g.edge_endpoints(EdgeIndex::new(e)) {
        Some((a, b)) => Some((a.index(), b.index())),
        None => None,
    }
}

/// Relies on petgraph's `Graph::neighbors`: on an undirected graph, the other
/// end of each edge at `a`, a loop at `a` giving `a`.
#[verifier::external_body]
pub(crate) fn graph_neighbors(g: &Graph<StarNode, (), Undirected, u32>, a: usize) -> (r: Vec<usize>)
    requires
        a < graph_nodes(*g).len(),
        a < u32::MAX,
    ensures
        forall|j: int| 0 <= j < r@.len() ==> joins(graph_edges(*g), a as int, #[trigger] r@[j] as int),
        forall|e: int|
            0 <= e < graph_edges(*g).len() && (#[trigger] graph_edges(*g)[e]).0 == a
                ==> r@.contains(graph_edges(*g)[e].1),
        forall|e: int|
            0 <= e < graph_edges(*g).len() && (#[trigger] graph_edges(*g)[e]).1 == a
                ==> r@.contains(graph_edges(*g)[e].0),
{
    g.neighbors(NodeIndex::new(a)).map(|n| n.index()).collect()
}

} // verus!
