//! The dependency graph, held in a `petgraph` stable graph.
use vstd::prelude::*;
use petgraph::stable_graph::{NodeIndex, StableGraph};
use petgraph::{Directed, Direction};

verus! {

#[verifier::external_type_specification]
#[verifier::external_body]
#[verifier::reject_recursive_types(N)]
#[verifier::reject_recursive_types(E)]
#[verifier::reject_recursive_types(Ty)]
#[verifier::reject_recursive_types(Ix)]
pub struct ExStableGraph<N, E, Ty, Ix>(StableGraph<N, E, Ty, Ix>);

#[verifier::external_type_specification]
#[verifier::external_body]
pub struct ExDirected(Directed);

/// The live nodes of a graph: index to weight.
pub uninterp spec fn graph_nodes(g: StableGraph<usize, u8, Directed, usize>) -> Map<nat, usize>;

/// The edges of a graph, as (source, target) index pairs.
pub uninterp spec fn graph_edges(g: StableGraph<usize, u8, Directed, usize>) -> Set<(nat, nat)>;

/// Relies on `StableGraph::with_capacity`: a graph without nodes or edges.
#[verifier::external_body]
pub(crate) fn graph_new() -> (r: StableGraph<usize, u8, Directed, usize>)
    ensures
        graph_nodes(r).dom().is_empty(),
        graph_edges(r).is_empty(),
{
    StableGraph::with_capacity(0, 0)
}

/// Relies on `StableGraph::add_node`: the weight is stored under an index that
/// no live node has; edges are unchanged. With `usize` indices it has no
/// capacity limit.
#[verifier::external_body]
pub(crate) fn graph_add_node(g: &mut StableGraph<usize, u8, Directed, usize>, w: usize) -> (r: usize)
    ensures
        !graph_nodes(*old(g)).contains_key(r as nat),
        graph_nodes(*final(g)) == graph_nodes(*old(g)).insert(r as nat, w),
        graph_edges(*final(g)) == graph_edges(*old(g)),
{
    g.add_node(w).index()
}

/// Relies on `StableGraph::add_edge`: adds an edge between two live nodes (it
/// panics when one is missing); parallel edges are allowed.
#[verifier::external_body]
pub(crate) fn graph_add_edge(g: &mut StableGraph<usize, u8, Directed, usize>, a: usize, b: usize)
    requires
        graph_nodes(*old(g)).contains_key(a as nat),
        graph_nodes(*old(g)).contains_key(b as nat),
    ensures
        graph_nodes(*final(g)) == graph_nodes(*old(g)),
        graph_edges(*final(g)) == graph_edges(*old(g)).insert((a as nat, b as nat)),
{
    g.add_edge(NodeIndex::new(a), NodeIndex::new(b), 0);
}

/// Relies on `StableGraph::neighbors_directed` with `Outgoing`: one neighbor
/// per edge leaving `a`, none when `a` is not live.
#[verifier::external_body]
pub(crate) fn graph_out_degree(g: &StableGraph<usize, u8, Directed, usize>, a: usize) -> (r: usize)
    ensures
        (r == 0) <==> (forall|b: nat| !graph_edges(*g).contains((a as nat, b))),
{
    g.neighbors_directed(NodeIndex::new(a), Direction::Outgoing).count()
}

/// Relies on `StableGraph::remove_node`: removes a live node and every edge
/// from or to it, and returns its weight; other indices stay valid.
#[verifier::external_body]
pub(crate) fn graph_remove_node(g: &mut StableGraph<usize, u8, Directed, usize>, a: usize) -> (r: Option<usize>)
    requires
        graph_nodes(*old(g)).contains_key(a as nat),
    ensures
        r == Some(graph_nodes(*old(g))[a as nat]),
        graph_nodes(*final(g)) == graph_nodes(*old(g)).remove(a as nat),
        graph_edges(*final(g)) == graph_edges(*old(g)).filter(|e: (nat, nat)| e.0 != a as nat && e.1 != a as nat),
{
    g.remove_node(NodeIndex::new(a))
}

} // verus!
