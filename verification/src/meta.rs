//! From the registry to the graph.
//!
//! Every stored entry contributes one edge per dependency — the
//! dependency as the edge source, the dependent entry as the destination
//! — and the resulting edge list is validated and built into the
//! dependency graph.  `GraphMeta` pairs the built graph with the registry
//! it was derived from.

use vstd::prelude::*;

use crate::assoc::lemma_assoc_get;
use crate::graph::{appears_in_edges, QueryGraph, ValidGraphData};
use crate::digraph::has_directed_cycle;
use crate::query::{collection_edge_seq, dep_ids, edge_pairs_of, entry_pairs, kind_model,
    kind_name, QueryCollection};

verus! {

/// One entry's dependency edges: each dependency becomes the source of
/// an edge into the dependent node.
pub fn gen_edge_pairs(src_node: u64, node_deps: &[u64]) -> (r: Vec<(u64, u64)>)
    ensures
        r@ == node_deps@.map_values(|d: u64| (d, src_node)),
{
    let n = node_deps.len();
    let mut out: Vec<(u64, u64)> = Vec::new();
    let mut i: usize = 0;
    while i < n
        invariant
            i <= n,
            n == node_deps@.len(),
            out@ == node_deps@.subrange(0, i as int).map_values(|d: u64| (d, src_node)),
        decreases n - i,
    {
        out.push((node_deps[i], src_node));
        proof {
            assert(out@ =~= node_deps@.subrange(0, i + 1).map_values(|d: u64| (d, src_node)));
        }
        i += 1;
    }
    proof {
        assert(node_deps@.subrange(0, n as int) =~= node_deps@);
    }
    out
}

/// Collects every dependency edge of the registry and compiles the
/// whole set: succeeds exactly when at least one edge exists and the
/// edges are acyclic.
pub fn generate_graph_from_collection(c: &QueryCollection) -> (r: Option<QueryGraph>)
    requires
        c.wf(),
    ensures
        r is Some <==> (c.edge_list().len() > 0 && !has_directed_cycle(c.edge_list().to_set())),
        r matches Some(g) ==> g.wf() && g.edge_seq() == c.edge_list() && (forall|y: u64|
            g.node_seq().contains(y) <==> appears_in_edges(c.edge_list(), y)),
{
    let ghost m = c.map_view();
    let ghost s = c.entries();
    let entry_count = c.entry_count();
    let mut edges: Vec<(u64, u64)> = Vec::new();
    let mut i: usize = 0;
    while i < entry_count
        invariant
            i <= entry_count,
            entry_count == s.len(),
            c.wf(),
            m == c.map_view(),
            s == c.entries(),
            edges@ == collection_edge_seq(m, s, i as int),
        decreases entry_count - i,
    {
        let kind = c.entry_at(i);
        let id = kind.id();
        let deps = c.get_query_dependencies(kind.name().as_str());
        proof {
            lemma_assoc_get(entry_pairs(s), i as int);
            assert(kind_name(s[i as int].1) == s[i as int].0@);
            assert(m[s[i as int].0@] == kind_model(s[i as int].1));
            assert(deps@ == dep_ids(m, kind_model(s[i as int].1).deps()));
        }
        let mut pairs = gen_edge_pairs(id, deps.as_slice());
        proof {
            assert(pairs@ == edge_pairs_of(m, kind_model(s[i as int].1)));
        }
        edges.append(&mut pairs);
        i += 1;
    }
    match ValidGraphData::new_from_edges(edges.as_slice()) {
        Some(d) => QueryGraph::new_from_valid_data(d),
        None => None,
    }
}

/// A built dependency graph together with the registry it came from.
pub struct GraphMeta {
    graph: QueryGraph,
    query: QueryCollection,
}

impl GraphMeta {
    /// The built graph.
    pub closed spec fn spec_graph(self) -> QueryGraph {
        self.graph
    }

    /// The registry snapshot the graph was derived from.
    pub closed spec fn spec_query(self) -> QueryCollection {
        self.query
    }

    /// Compiles the registry's dependency edges and keeps the registry
    /// beside the graph; fails exactly when the graph cannot be built.
    pub fn new(query_collection: QueryCollection) -> (r: Option<GraphMeta>)
        requires
            query_collection.wf(),
        ensures
            r is Some <==> (query_collection.edge_list().len() > 0 && !has_directed_cycle(
                query_collection.edge_list().to_set(),
            )),
            r matches Some(gm) ==> gm.spec_graph().wf() && gm.spec_graph().edge_seq()
                == query_collection.edge_list() && gm.spec_query() == query_collection,
    {
        match generate_graph_from_collection(&query_collection) {
            Some(graph) => Some(GraphMeta { graph, query: query_collection }),
            None => None,
        }
    }

    /// The built graph.
    pub fn graph(&self) -> (r: &QueryGraph)
        ensures
            *r == self.spec_graph(),
    {
        &self.graph
    }

    /// The registry.
    pub fn query(&self) -> (r: &QueryCollection)
        ensures
            *r == self.spec_query(),
    {
        &self.query
    }
}

} // verus!
