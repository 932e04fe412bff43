//! The directed graph of `petgraph`, as far as this crate uses it.
//!
//! Nothing in this file is proved. Each function hands its arguments to one
//! method of `petgraph::graph::Graph` and states what that method does, read
//! from its source, over two names for what a graph holds.

use vstd::prelude::*;

verus! {

/// `petgraph::Directed`, the marker of graphs whose edges have a direction.
/// Nothing is said of it.
#[verifier::external_type_specification]
#[verifier::external_body]
pub struct ExDirected(petgraph::Directed);

/// `petgraph::graph::Graph`. A value of it is opaque here; `digraph_nodes` and
/// `digraph_edges` name what it holds.
#[verifier::external_type_specification]
#[verifier::external_body]
#[verifier::reject_recursive_types(N)]
#[verifier::reject_recursive_types(E)]
#[verifier::reject_recursive_types(Ty)]
#[verifier::reject_recursive_types(Ix)]
pub struct ExGraph<N, E, Ty, Ix>(petgraph::graph::Graph<N, E, Ty, Ix>);

/// The weights of the nodes of `g`, by node index.
pub uninterp spec fn digraph_nodes(
    g: petgraph::graph::Graph<usize, (), petgraph::Directed, usize>,
) -> Seq<usize>;

/// The edges of `g` as pairs of node indices, source first, by edge index.
pub uninterp spec fn digraph_edges(
    g: petgraph::graph::Graph<usize, (), petgraph::Directed, usize>,
) -> Seq<(usize, usize)>;

/// `Graph::with_capacity`, called with no capacity: a graph without nodes and
/// edges.
#[verifier::external_body]
pub(crate) fn digraph_new() -> (g: petgraph::graph::Graph<
    usize,
    (),
    petgraph::Directed,
    usize,
>)
    ensures
        digraph_nodes(g) == Seq::<usize>::empty(),
        digraph_edges(g) == Seq::<(usize, usize)>::empty(),
{
    petgraph::graph::Graph::with_capacity(0, 0)
}

/// `Graph::node_count`: the number of nodes.
#[verifier::external_body]
pub(crate) fn digraph_node_count(
    g: &petgraph::graph::Graph<usize, (), petgraph::Directed, usize>,
) -> (n: usize)
    ensures
        n == digraph_nodes(*g).len(),
{
    g.node_count()
}

/// `Graph::edge_count`: the number of edges.
#[verifier::external_body]
pub(crate) fn digraph_edge_count(
    g: &petgraph::graph::Graph<usize, (), petgraph::Directed, usize>,
) -> (n: usize)
    ensures
        n == digraph_edges(*g).len(),
{
    g.edge_count()
}

/// `Graph::add_node`: appends a node with the given weight and returns its
/// index, which is the number of nodes before the call. With `usize` indices
/// the method has no limit of its own to run into.
#[verifier::external_body]
pub(crate) fn digraph_add_node(
    g: &mut petgraph::graph::Graph<usize, (), petgraph::Directed, usize>,
    weight: usize,
) -> (index: usize)
    ensures
        digraph_nodes(*final(g)) == digraph_nodes(*old(g)).push(weight),
        digraph_edges(*final(g)) == digraph_edges(*old(g)),
        index == digraph_nodes(*old(g)).len(),
{
    g.add_node(weight).index()
}

/// `Graph::add_edge`: appends an edge from node `a` to node `b` and returns its
/// index, which is the number of edges before the call. The method panics when
/// either node is missing, so both are asked to exist.
#[verifier::external_body]
pub(crate) fn digraph_add_edge(
    g: &mut petgraph::graph::Graph<usize, (), petgraph::Directed, usize>,
    a: usize,
    b: usize,
) -> (index: usize)
    requires
        a < digraph_nodes(*old(g)).len(),
        b < digraph_nodes(*old(g)).len(),
    ensures
        digraph_edges(*final(g)) == digraph_edges(*old(g)).push((a, b)),
        digraph_nodes(*final(g)) == digraph_nodes(*old(g)),
        index == digraph_edges(*old(g)).len(),
{
    g.add_edge(petgraph::graph::NodeIndex::new(a), petgraph::graph::NodeIndex::new(b), ())
        .index()
}

/// `Graph::edge_endpoints`: source and target of the edge with index `e`, or
/// `None` when the graph has no such edge.
#[verifier::external_body]
pub(crate) fn digraph_edge_endpoints(
    g: &petgraph::graph::Graph<usize, (), petgraph::Directed, usize>,
    e: usize,
) -> (ends: Option<(usize, usize)>)
    ensures
        e < digraph_edges(*g).len() ==> ends == Some(digraph_edges(*g)[e as int]),
        e >= digraph_edges(*g).len() ==> ends is None,
{
    g.edge_endpoints(petgraph::graph::EdgeIndex::new(e)).map(|(a, b)| (a.index(), b.index()))
}

} // verus!
