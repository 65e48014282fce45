//! The directed graph that the resolver sorts: `petgraph`'s `Graph`, seen
//! through the list of its node weights and the list of its edges.
//!
//! The graph is indexed by `usize`, so that neither a node index nor an edge
//! index can run out.

use crate::parser::order::{is_topological_order, on_cycle};
use petgraph::graph::{Graph, NodeIndex};
use petgraph::Directed;
use vstd::prelude::*;

verus! {

/// `petgraph::graph::Graph`, opaque here.
#[verifier::external_type_specification]
#[verifier::external_body]
#[verifier::reject_recursive_types(N)]
#[verifier::reject_recursive_types(E)]
#[verifier::reject_recursive_types(Ty)]
#[verifier::reject_recursive_types(Ix)]
pub struct ExGraph<N, E, Ty, Ix>(Graph<N, E, Ty, Ix>);

/// `petgraph::Directed`, the marker of a graph with directed edges.
#[verifier::external_type_specification]
#[verifier::external_body]
pub struct ExDirected(Directed);

/// The weights of the nodes of `graph`, the node with index `i` at place `i`.
pub uninterp spec fn graph_nodes(graph: Graph<usize, (), Directed, usize>) -> Seq<usize>;

/// The edges of `graph` as pairs `(from, to)` of node indices, in the order
/// in which they were added.
pub uninterp spec fn graph_edges(graph: Graph<usize, (), Directed, usize>) -> Seq<(int, int)>;

/// What `petgraph::algo::toposort` returns for a graph of `node_count` nodes
/// to which `edges` were added in this order: the node indices in sorted
/// order, or the index of one node that the sort found on a cycle.
pub uninterp spec fn toposort_of(node_count: nat, edges: Seq<(int, int)>) -> Result<Seq<int>, int>;

/// The node indices of `order` as mathematical integers.
pub open spec fn indices(order: Seq<usize>) -> Seq<int> {
    order.map_values(|node: usize| node as int)
}

/// `Graph::with_capacity`: a graph without nodes and without edges.
#[verifier::external_body]
pub(crate) fn graph_new() -> (graph: Graph<usize, (), Directed, usize>)
    ensures
        graph_nodes(graph) == Seq::<usize>::empty(),
        graph_edges(graph) == Seq::<(int, int)>::empty(),
{
    Graph::with_capacity(0, 0)
}

/// `Graph::add_node`: appends a node with the given weight and returns its
/// index, which is the number of nodes before the call. The edges stay.
#[verifier::external_body]
pub(crate) fn graph_add_node(graph: &mut Graph<usize, (), Directed, usize>, weight: usize) -> (index: usize)
    ensures
        graph_nodes(*final(graph)) == graph_nodes(*old(graph)).push(weight),
        graph_edges(*final(graph)) == graph_edges(*old(graph)),
        index == graph_nodes(*old(graph)).len(),
{
    graph.add_node(weight).index()
}

/// `Graph::add_edge`: appends an edge from the node `from` to the node `to`.
/// Parallel edges and self loops are kept. The nodes stay. It panics when
/// either index is not of a node of the graph.
#[verifier::external_body]
pub(crate) fn graph_add_edge(graph: &mut Graph<usize, (), Directed, usize>, from: usize, to: usize)
    requires
        from < graph_nodes(*old(graph)).len(),
        to < graph_nodes(*old(graph)).len(),
    ensures
        graph_nodes(*final(graph)) == graph_nodes(*old(graph)),
        graph_edges(*final(graph)) == graph_edges(*old(graph)).push((from as int, to as int)),
{
    graph.add_edge(NodeIndex::new(from), NodeIndex::new(to), ());
}

/// Indexing a `Graph` by a node index: the weight of that node. It panics
/// when the index is not of a node of the graph.
#[verifier::external_body]
pub(crate) fn graph_node_weight(graph: &Graph<usize, (), Directed, usize>, node: usize) -> (weight: usize)
    requires
        node < graph_nodes(*graph).len(),
    ensures
        weight == graph_nodes(*graph)[node as int],
{
    graph[NodeIndex::new(node)]
}

/// `petgraph::algo::toposort`, on a graph that was grown by adding nodes and
/// edges only. The result depends on the number of nodes and on the edges in
/// the order in which they were added, and [`toposort_of`] names it. On
/// success it lists every node once, each before its successors. On failure
/// the node returned lies on a cycle.
#[verifier::external_body]
pub(crate) fn graph_toposort(graph: &Graph<usize, (), Directed, usize>) -> (sorted: Result<Vec<usize>, usize>)
    ensures
        toposort_of(graph_nodes(*graph).len(), graph_edges(*graph)) == match sorted {
            Ok(order) => Ok::<Seq<int>, int>(indices(order@)),
            Err(node) => Err::<Seq<int>, int>(node as int),
        },
        match sorted {
            Ok(order) => is_topological_order(
                indices(order@),
                graph_nodes(*graph).len(),
                graph_edges(*graph),
            ),
            Err(node) => node < graph_nodes(*graph).len() && on_cycle(graph_edges(*graph), node as int),
        },
{
    match petgraph::algo::toposort(graph, None) {
        Ok(order) => Ok(order.into_iter().map(|node| node.index()).collect()),
        Err(cycle) => Err(cycle.node_id().index()),
    }
}

} // verus!
