//! Boundary with the `petgraph` directed-graph structure.
//!
//! The dependency graph itself is stored in a `petgraph` graph whose node
//! weights are 64-bit resource identities and whose edges carry no payload.
//! Verus sees that structure only through two names — the sequence of node
//! weights in index order, and the set of (source index, target index)
//! edge pairs — and through the wrappers below, whose contracts state what
//! each `petgraph` call does to those names.
//!
//! Reachability and cycles are defined here over a plain edge-pair set, so
//! that both the index-level wrapper contracts and the id-level public
//! contracts can speak the same language.

use vstd::prelude::*;

verus! {

/// The concrete graph the core builds: node weights are resource ids,
/// edges are bare orderings, and indices are machine words, so the node
/// count is never limited by the index type.
pub type DepGraph = petgraph::graph::Graph<u64, (), petgraph::Directed, usize>;

#[verifier::external_type_specification]
#[verifier::external_body]
#[verifier::reject_recursive_types(N)]
#[verifier::reject_recursive_types(E)]
#[verifier::reject_recursive_types(Ty)]
#[verifier::reject_recursive_types(Ix)]
pub struct ExGraph<N, E, Ty, Ix>(petgraph::graph::Graph<N, E, Ty, Ix>);

#[verifier::external_type_specification]
#[verifier::external_body]
pub struct ExDirected(petgraph::Directed);

/// The node weights of the graph, in node-index order.
pub uninterp spec fn graph_nodes(g: DepGraph) -> Seq<u64>;

/// The set of directed edges of the graph, as (source, target) pairs of
/// node indices.
pub uninterp spec fn graph_edges(g: DepGraph) -> Set<(int, int)>;

/// `x` reaches `y` through the directed edges `es` along a path with at
/// most `n` intermediate stops.
pub open spec fn reaches_within<A>(es: Set<(A, A)>, x: A, y: A, n: nat) -> bool
    decreases n,
{
    es.contains((x, y)) || (n > 0 && exists|z: A|
        es.contains((x, z)) && reaches_within(es, z, y, (n - 1) as nat))
}

/// Some node lies on a directed cycle of `es`.
pub open spec fn has_directed_cycle<A>(es: Set<(A, A)>) -> bool {
    exists|x: A, n: nat| reaches_within(es, x, x, n)
}

/// No edge of `es` points at `v`.
pub open spec fn no_incoming_edge(es: Set<(int, int)>, v: int) -> bool {
    forall|u: int| !es.contains((u, v))
}

/// Relies on `petgraph::graph::Graph::with_capacity`: a freshly allocated
/// graph holds no nodes and no edges.
#[verifier::external_body]
pub fn graph_with_capacity(nodes: usize, edges: usize) -> (g: DepGraph)
    ensures
        graph_nodes(g) == Seq::<u64>::empty(),
        graph_edges(g) == Set::<(int, int)>::empty(),
{
    petgraph::graph::Graph::with_capacity(nodes, edges)
}

/// Relies on `petgraph::graph::Graph::add_node`: the weight is appended at
/// the next free index, which is returned, and no edge is touched.  With a
/// machine-word index type the call never reaches the index ceiling.
#[verifier::external_body]
pub fn graph_add_node(g: &mut DepGraph, weight: u64) -> (ix: usize)
    ensures
        graph_nodes(*final(g)) == graph_nodes(*old(g)).push(weight),
        graph_edges(*final(g)) == graph_edges(*old(g)),
        ix == graph_nodes(*old(g)).len(),
{
    g.add_node(weight).index()
}

/// Relies on `petgraph::graph::Graph::update_edge`: the edge from `a` to
/// `b` is added if absent and left alone if present, so edge insertion is
/// idempotent; nodes are untouched.  The call panics on an out-of-bounds
/// endpoint, which the precondition rules out.
#[verifier::external_body]
pub fn graph_update_edge(g: &mut DepGraph, a: usize, b: usize)
    requires
        a < graph_nodes(*old(g)).len(),
        b < graph_nodes(*old(g)).len(),
    ensures
        graph_nodes(*final(g)) == graph_nodes(*old(g)),
        graph_edges(*final(g)) == graph_edges(*old(g)).insert((a as int, b as int)),
{
    let _ = g.update_edge(
        petgraph::graph::NodeIndex::new(a),
        petgraph::graph::NodeIndex::new(b),
        (),
    );
}

/// Relies on `petgraph::algo::is_cyclic_directed`: it returns true exactly
/// when the graph contains a directed cycle.
#[verifier::external_body]
pub fn graph_is_cyclic(g: &DepGraph) -> (r: bool)
    ensures
        r == has_directed_cycle(graph_edges(*g)),
{
    petgraph::algo::is_cyclic_directed(&*g)
}

/// Relies on `petgraph::graph::Graph::externals(Incoming)`: it walks the
/// node indices in ascending order and yields exactly those with no
/// incoming edge.
#[verifier::external_body]
pub fn graph_externals_incoming(g: &DepGraph) -> (r: Vec<usize>)
    ensures
        forall|i: int, j: int| 0 <= i < j < r@.len() ==> r@[i] < r@[j],
        forall|i: int| 0 <= i < r@.len() ==> r@[i] < graph_nodes(*g).len()
            && no_incoming_edge(graph_edges(*g), r@[i] as int),
        forall|v: int| 0 <= v < graph_nodes(*g).len()
            && no_incoming_edge(graph_edges(*g), v) ==> r@.contains(v as usize),
{
    g.externals(petgraph::Direction::Incoming).map(|ix| ix.index()).collect()
}

} // verus!
