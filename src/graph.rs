//! The dependency graph, held in a petgraph `Graph` whose nodes are numbered
//! in insertion order.

use petgraph::graph::{Graph, NodeIndex};
use petgraph::Directed;
use vstd::prelude::*;

verus! {

#[verifier::external_type_specification]
#[verifier::external_body]
#[verifier::reject_recursive_types(N)]
#[verifier::reject_recursive_types(E)]
#[verifier::reject_recursive_types(Ty)]
#[verifier::reject_recursive_types(Ix)]
pub struct ExGraph<N, E, Ty, Ix>(Graph<N, E, Ty, Ix>);

#[verifier::external_type_specification]
#[verifier::external_body]
pub struct ExDirected(Directed);

/// A directed graph whose node weights are package names.
pub type DepGraph = Graph<String, (), Directed, u32>;

/// Number of nodes of a graph.
pub uninterp spec fn node_count_of(g: DepGraph) -> nat;

/// Edges of a graph as (source, target) node numbers, in insertion order.
pub uninterp spec fn edges_of(g: DepGraph) -> Seq<(usize, usize)>;

/// What petgraph's `toposort` returns on the graph with `node_count` nodes and
/// these edges, node numbers standing for node indices.
pub uninterp spec fn toposort_of(node_count: nat, edges: Seq<(usize, usize)>) -> Result<Seq<usize>, usize>;

/// `order` lists every node of the graph once, each before all its successors.
pub open spec fn is_topological(n: nat, edges: Seq<(usize, usize)>, order: Seq<usize>) -> bool {
    &&& order.len() == n
    &&& order.no_duplicates()
    &&& forall|k: int| 0 <= k < order.len() ==> order[k] < n
    &&& forall|v: usize| v < n ==> order.contains(v)
    &&& forall|i: int, j: int| 0 <= i <= j < order.len() ==> !edges.contains((order[j], order[i]))
}

/// The graph has no cycle: some order puts every node before its successors.
pub open spec fn is_acyclic(n: nat, edges: Seq<(usize, usize)>) -> bool {
    exists|order: Seq<usize>| is_topological(n, edges, order)
}

/// Relies on petgraph's `Graph::new`: a graph without nodes or edges.
#[verifier::external_body]
pub(crate) fn graph_new() -> (g: DepGraph)
    ensures
        node_count_of(g) == 0,
        edges_of(g) == Seq::<(usize, usize)>::empty(),
{
    Graph::new()
}

/// Relies on petgraph's `Graph::add_node`: the new node's index is the old node
/// count, and edges are untouched. It panics only at the `u32` index limit.
#[verifier::external_body]
pub(crate) fn graph_add_node(g: &mut DepGraph, weight: String) -> (r: usize)
    requires
        node_count_of(*old(g)) < u32::MAX,
    ensures
        r == node_count_of(*old(g)),
        node_count_of(*final(g)) == node_count_of(*old(g)) + 1,
        edges_of(*final(g)) == edges_of(*old(g)),
{
    g.add_node(weight).index()
}

/// Relies on petgraph's `Graph::add_edge`: appends the edge `a -> b`. It panics
/// when a node does not exist or at the `u32` index limit.
#[verifier::external_body]
pub(crate) fn graph_add_edge(g: &mut DepGraph, a: usize, b: usize)
    requires
        a < node_count_of(*old(g)),
        b < node_count_of(*old(g)),
        edges_of(*old(g)).len() < u32::MAX,
    ensures
        node_count_of(*final(g)) == node_count_of(*old(g)),
        edges_of(*final(g)) == edges_of(*old(g)).push((a, b)),
{
    g.add_edge(NodeIndex::new(a), NodeIndex::new(b), ());
}

/// Relies on petgraph's `algo::toposort`: on an acyclic graph, every node in an
/// order where each node comes before its successors; otherwise a `Cycle`
/// error naming a node. The result depends on the nodes and edges alone.
#[verifier::external_body]
pub(crate) fn graph_toposort(g: &DepGraph) -> (r: Result<Vec<usize>, usize>)
    ensures
        match r {
            Ok(order) => {
                &&& toposort_of(node_count_of(*g), edges_of(*g)) == Ok::<Seq<usize>, usize>(order@)
                &&& is_topological(node_count_of(*g), edges_of(*g), order@)
            },
            Err(node) => {
                &&& toposort_of(node_count_of(*g), edges_of(*g)) == Err::<Seq<usize>, usize>(node)
                &&& node < node_count_of(*g)
                &&& !is_acyclic(node_count_of(*g), edges_of(*g))
            },
        },
{
    match petgraph::algo::toposort(&*g, None) {
        Ok(order) => Ok(order.into_iter().map(|i| i.index()).collect()),
        Err(cycle) => Err(cycle.node_id().index()),
    }
}

} // verus!
