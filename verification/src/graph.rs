//! Graph-data validation and the query graph.
//!
//! `ValidGraphData` turns an arbitrary candidate node set and edge list
//! into a structurally sound input for graph construction: every edge
//! endpoint must be declared, orphan nodes are dropped, and the surviving
//! node list is deduplicated and sorted ascending.  `QueryGraph` then
//! materialises the directed graph and refuses to exist at all if the
//! edges close a cycle.

use vstd::prelude::*;

use crate::digraph::{
    graph_add_node, graph_edges, graph_externals_incoming, graph_is_cyclic, graph_nodes,
    graph_update_edge, graph_with_capacity, has_directed_cycle, no_incoming_edge, reaches_within,
    DepGraph,
};

verus! {

/// Strictly ascending: sorted with no duplicates.
pub open spec fn sorted_strict(s: Seq<u64>) -> bool {
    forall|i: int, j: int| 0 <= i < j < s.len() ==> s[i] < s[j]
}

/// The edge `e` has `id` as one of its endpoints.
pub open spec fn edge_touches(e: (u64, u64), id: u64) -> bool {
    e.0 == id || e.1 == id
}

/// `id` appears as an endpoint somewhere in the first `k` edges.
pub open spec fn appears_in_prefix(edges: Seq<(u64, u64)>, k: int, id: u64) -> bool {
    exists|j: int| 0 <= j < k && #[trigger] edge_touches(edges[j], id)
}

/// `id` appears as an endpoint of some edge.
pub open spec fn appears_in_edges(edges: Seq<(u64, u64)>, id: u64) -> bool {
    appears_in_prefix(edges, edges.len() as int, id)
}

/// Both endpoints of the first `k` edges are declared node ids.
pub open spec fn endpoints_declared_prefix(
    edges: Seq<(u64, u64)>,
    k: int,
    node_ids: Seq<u64>,
) -> bool {
    forall|j: int| 0 <= j < k ==> node_ids.contains((#[trigger] edges[j]).0) && node_ids.contains(
        edges[j].1,
    )
}

/// Both endpoints of every edge are declared node ids.
pub open spec fn endpoints_declared(edges: Seq<(u64, u64)>, node_ids: Seq<u64>) -> bool {
    endpoints_declared_prefix(edges, edges.len() as int, node_ids)
}

/// A sorted, deduplicated list of node identities together with the edge
/// list over them, satisfying: every edge endpoint is in the node list,
/// no listed node is an orphan, and neither list is empty.
pub struct ValidGraphData {
    nodes: Vec<u64>,
    edges: Vec<(u64, u64)>,
}

impl ValidGraphData {
    /// The validated node identities, ascending.
    pub closed spec fn node_seq(self) -> Seq<u64> {
        self.nodes@
    }

    /// The edge list, exactly as it was handed in.
    pub closed spec fn edge_seq(self) -> Seq<(u64, u64)> {
        self.edges@
    }

    /// Structural soundness: what graph construction may rely on.
    pub open spec fn wf(self) -> bool {
        &&& sorted_strict(self.node_seq())
        &&& self.node_seq().len() > 0
        &&& self.edge_seq().len() > 0
        &&& forall|y: u64|
            self.node_seq().contains(y) <==> appears_in_edges(self.edge_seq(), y)
    }

    /// The validated node list.
    pub fn nodes(&self) -> (r: &Vec<u64>)
        ensures
            r@ == self.node_seq(),
    {
        &self.nodes
    }

    /// The edge list.
    pub fn edges(&self) -> (r: &Vec<(u64, u64)>)
        ensures
            r@ == self.edge_seq(),
    {
        &self.edges
    }

    /// Validates a candidate node set against an edge list.
    ///
    /// Fails exactly when some edge endpoint is not a declared node id
    /// (a dangling reference) or when no node survives the cleaning —
    /// which, since declared nodes touched by no edge are dropped as
    /// orphans, happens exactly when the edge list is empty.  On success
    /// the node list is the ascending, deduplicated list of ids that
    /// appear in at least one edge, and the edge list is unchanged.
    pub fn new_from_id_edge_pairs(node_ids: &[u64], edges: &[(u64, u64)]) -> (r: Option<
        ValidGraphData,
    >)
        ensures
            r is Some <==> (edges@.len() > 0 && endpoints_declared(edges@, node_ids@)),
            r matches Some(d) ==> d.wf() && d.edge_seq() == edges@ && (forall|y: u64|
                d.node_seq().contains(y) <==> appears_in_edges(edges@, y)),
    {
        let edge_count = edges.len();
        let mut k: usize = 0;
        while k < edge_count
            invariant
                k <= edge_count,
                edge_count == edges@.len(),
                endpoints_declared_prefix(edges@, k as int, node_ids@),
            decreases edge_count - k,
        {
            let e = edges[k];
            if !contains_id(node_ids, e.0) || !contains_id(node_ids, e.1) {
                return None;
            }
            k += 1;
        }
        if edge_count == 0 {
            return None;
        }
        let mut nodes: Vec<u64> = Vec::new();
        let mut k: usize = 0;
        while k < edge_count
            invariant
                k <= edge_count,
                edge_count == edges@.len(),
                sorted_strict(nodes@),
                forall|y: u64| nodes@.contains(y) <==> appears_in_prefix(edges@, k as int, y),
            decreases edge_count - k,
        {
            let e = edges[k];
            insert_sorted(&mut nodes, e.0);
            insert_sorted(&mut nodes, e.1);
            proof {
                assert forall|y: u64| appears_in_prefix(edges@, k + 1, y) implies nodes@.contains(
                    y,
                ) by {
                    let j = choose|j: int| 0 <= j < k + 1 && #[trigger] edge_touches(edges@[j], y);
                    if j < k {
                        assert(appears_in_prefix(edges@, k as int, y));
                    }
                }
                assert forall|y: u64| nodes@.contains(y) implies appears_in_prefix(
                    edges@,
                    k + 1,
                    y,
                ) by {
                    if y == e.0 || y == e.1 {
                        assert(edge_touches(edges@[k as int], y));
                    } else {
                        let j = choose|j: int|
                            0 <= j < k && #[trigger] edge_touches(edges@[j], y);
                        assert(edge_touches(edges@[j], y));
                    }
                }
            }
            k += 1;
        }
        proof {
            assert(appears_in_edges(edges@, edges@[0].0)) by {
                assert(edge_touches(edges@[0], edges@[0].0));
            }
            assert(nodes@.len() > 0) by {
                assert(nodes@.contains(edges@[0].0));
            }
        }
        let data = ValidGraphData { nodes, edges: vstd::slice::slice_to_vec(edges) };
        Some(data)
    }

    /// Derives the candidate node set purely from the edge endpoints, so
    /// a dangling reference is impossible and validation fails exactly
    /// when the edge list is empty.
    pub fn new_from_edges(edges: &[(u64, u64)]) -> (r: Option<ValidGraphData>)
        ensures
            r is Some <==> edges@.len() > 0,
            r matches Some(d) ==> d.wf() && d.edge_seq() == edges@ && (forall|y: u64|
                d.node_seq().contains(y) <==> appears_in_edges(edges@, y)),
    {
        let edge_count = edges.len();
        let mut node_ids: Vec<u64> = Vec::new();
        let mut k: usize = 0;
        while k < edge_count
            invariant
                k <= edge_count,
                edge_count == edges@.len(),
                forall|j: int| 0 <= j < k ==> node_ids@.contains((#[trigger] edges@[j]).0)
                    && node_ids@.contains(edges@[j].1),
            decreases edge_count - k,
        {
            let e = edges[k];
            let ghost before = node_ids@;
            node_ids.push(e.0);
            node_ids.push(e.1);
            proof {
                assert(node_ids@[before.len() as int] == e.0);
                assert(node_ids@[before.len() as int + 1] == e.1);
                assert forall|j: int| 0 <= j < k implies node_ids@.contains(
                    (#[trigger] edges@[j]).0,
                ) && node_ids@.contains(edges@[j].1) by {
                    let i0 = choose|i: int| 0 <= i < before.len() && before[i] == edges@[j].0;
                    assert(node_ids@[i0] == edges@[j].0);
                    let i1 = choose|i: int| 0 <= i < before.len() && before[i] == edges@[j].1;
                    assert(node_ids@[i1] == edges@[j].1);
                }
            }
            k += 1;
        }
        ValidGraphData::new_from_id_edge_pairs(node_ids.as_slice(), edges)
    }
}

/// Position of the first occurrence of `id` in `s`.
pub open spec fn index_of_id(s: Seq<u64>, id: u64) -> int
    decreases s.len(),
{
    if s.len() == 0 {
        0
    } else if s[0] == id {
        0
    } else {
        1 + index_of_id(s.drop_first(), id)
    }
}

/// For a contained id the position is in bounds and lands on the id.
pub proof fn lemma_index_of_id(s: Seq<u64>, id: u64)
    requires
        s.contains(id),
    ensures
        0 <= index_of_id(s, id) < s.len(),
        s[index_of_id(s, id)] == id,
    decreases s.len(),
{
    if s[0] != id {
        let j = choose|j: int| 0 <= j < s.len() && s[j] == id;
        assert(s.drop_first()[j - 1] == id);
        assert(s.drop_first().contains(id));
        lemma_index_of_id(s.drop_first(), id);
    }
}

/// The position of the first occurrence is exactly the first index that
/// holds the id.
pub proof fn lemma_index_of_id_first(s: Seq<u64>, id: u64, j: int)
    requires
        0 <= j < s.len(),
        s[j] == id,
        forall|k: int| 0 <= k < j ==> s[k] != id,
    ensures
        index_of_id(s, id) == j,
    decreases j,
{
    if j > 0 {
        assert(s.drop_first()[j - 1] == id);
        lemma_index_of_id_first(s.drop_first(), id, j - 1);
    }
}

/// The edge set over node-list positions in place of node identities.
pub open spec fn index_edge_set(nodes: Seq<u64>, edges: Seq<(u64, u64)>) -> Set<(int, int)> {
    Set::new(|p: (int, int)| exists|k: int| 0 <= k < edges.len()
        && p == (index_of_id(nodes, (#[trigger] edges[k]).0), index_of_id(nodes, edges[k].1)))
}

/// No edge of the list points at `id`.
pub open spec fn no_incoming_id(edges: Seq<(u64, u64)>, id: u64) -> bool {
    forall|k: int| 0 <= k < edges.len() ==> (#[trigger] edges[k]).1 != id
}

/// Extending the edge prefix by one edge extends the position-level edge
/// set by exactly that edge's position pair.
proof fn lemma_index_edge_prefix_step(nodes: Seq<u64>, edges: Seq<(u64, u64)>, j: int)
    requires
        0 <= j < edges.len(),
    ensures
        index_edge_set(nodes, edges.subrange(0, j + 1)) == index_edge_set(
            nodes,
            edges.subrange(0, j),
        ).insert((index_of_id(nodes, edges[j].0), index_of_id(nodes, edges[j].1))),
{
    let prefix = edges.subrange(0, j);
    let next = edges.subrange(0, j + 1);
    let e = edges[j];
    let p_new = (index_of_id(nodes, e.0), index_of_id(nodes, e.1));
    assert forall|p: (int, int)| index_edge_set(nodes, next).contains(p) implies index_edge_set(
        nodes,
        prefix,
    ).insert(p_new).contains(p) by {
        let k = choose|k: int| 0 <= k < next.len()
            && p == (index_of_id(nodes, (#[trigger] next[k]).0), index_of_id(nodes, next[k].1));
        if k < j {
            assert(prefix[k] == next[k]);
            assert(index_edge_set(nodes, prefix).contains(p));
        } else {
            assert(next[k] == e);
        }
    }
    assert forall|p: (int, int)| index_edge_set(nodes, prefix).insert(p_new).contains(p) implies
        index_edge_set(nodes, next).contains(p) by {
        if index_edge_set(nodes, prefix).contains(p) {
            let k = choose|k: int| 0 <= k < prefix.len()
                && p == (index_of_id(nodes, (#[trigger] prefix[k]).0), index_of_id(
                nodes,
                prefix[k].1,
            ));
            assert(next[k] == prefix[k]);
            assert(index_edge_set(nodes, next).contains(p));
        } else {
            assert(next[j] == e);
            assert(index_edge_set(nodes, next).contains(p));
        }
    }
    assert(index_edge_set(nodes, next) =~= index_edge_set(nodes, prefix).insert(p_new));
}

/// A reachability fact over node identities carries over to the
/// corresponding node positions.
proof fn lemma_reach_to_index(nodes: Seq<u64>, edges: Seq<(u64, u64)>, x: u64, y: u64, n: nat)
    requires
        sorted_strict(nodes),
        endpoints_declared(edges, nodes),
        reaches_within(edges.to_set(), x, y, n),
    ensures
        reaches_within(
            index_edge_set(nodes, edges),
            index_of_id(nodes, x),
            index_of_id(nodes, y),
            n,
        ),
    decreases n,
{
    let es = edges.to_set();
    let fs = index_edge_set(nodes, edges);
    if es.contains((x, y)) {
        let k = choose|k: int| 0 <= k < edges.len() && edges[k] == (x, y);
        assert(fs.contains((index_of_id(nodes, x), index_of_id(nodes, y))));
    } else {
        let z = choose|z: u64|
            es.contains((x, z)) && reaches_within(es, z, y, (n - 1) as nat);
        let k = choose|k: int| 0 <= k < edges.len() && edges[k] == (x, z);
        assert(fs.contains((index_of_id(nodes, x), index_of_id(nodes, z))));
        lemma_reach_to_index(nodes, edges, z, y, (n - 1) as nat);
    }
}

/// A reachability fact over node positions comes from identities: the
/// endpoints of the position-level path are the positions of some
/// contained identities that are connected at the identity level.
proof fn lemma_reach_from_index(nodes: Seq<u64>, edges: Seq<(u64, u64)>, i: int, j: int, n: nat)
    requires
        sorted_strict(nodes),
        endpoints_declared(edges, nodes),
        reaches_within(index_edge_set(nodes, edges), i, j, n),
    ensures
        exists|a: u64, b: u64|
            nodes.contains(a) && nodes.contains(b) && index_of_id(nodes, a) == i && index_of_id(
                nodes,
                b,
            ) == j && reaches_within(edges.to_set(), a, b, n),
    decreases n,
{
    let es = edges.to_set();
    let fs = index_edge_set(nodes, edges);
    if fs.contains((i, j)) {
        let k = choose|k: int| 0 <= k < edges.len()
            && (i, j) == (index_of_id(nodes, (#[trigger] edges[k]).0), index_of_id(
            nodes,
            edges[k].1,
        ));
        let a = edges[k].0;
        let b = edges[k].1;
        assert(edges.contains(edges[k]));
        assert(es.contains((a, b)));
        assert(reaches_within(es, a, b, n));
    } else {
        let z = choose|z: int|
            fs.contains((i, z)) && reaches_within(fs, z, j, (n - 1) as nat);
        let k = choose|k: int| 0 <= k < edges.len()
            && (i, z) == (index_of_id(nodes, (#[trigger] edges[k]).0), index_of_id(
            nodes,
            edges[k].1,
        ));
        let a = edges[k].0;
        let c = edges[k].1;
        assert(edges.contains(edges[k]));
        assert(es.contains((a, c)));
        lemma_reach_from_index(nodes, edges, z, j, (n - 1) as nat);
        let (a2, b) = choose|a2: u64, b: u64|
            nodes.contains(a2) && nodes.contains(b) && index_of_id(nodes, a2) == z && index_of_id(
            nodes,
            b,
        ) == j && reaches_within(es, a2, b, (n - 1) as nat);
        lemma_index_of_id(nodes, c);
        lemma_index_of_id(nodes, a2);
        assert(c == a2);
        assert(reaches_within(es, a, b, n));
    }
}

/// The position-level graph has a cycle exactly when the identity-level
/// edge list does.
pub proof fn lemma_cycle_transfer(nodes: Seq<u64>, edges: Seq<(u64, u64)>)
    requires
        sorted_strict(nodes),
        endpoints_declared(edges, nodes),
    ensures
        has_directed_cycle(index_edge_set(nodes, edges)) == has_directed_cycle(edges.to_set()),
{
    let es = edges.to_set();
    let fs = index_edge_set(nodes, edges);
    if has_directed_cycle(es) {
        let (x, n) = choose|x: u64, n: nat| reaches_within(es, x, x, n);
        lemma_reach_to_index(nodes, edges, x, x, n);
        assert(has_directed_cycle(fs));
    }
    if has_directed_cycle(fs) {
        let (i, n) = choose|i: int, n: nat| reaches_within(fs, i, i, n);
        lemma_reach_from_index(nodes, edges, i, i, n);
        let (a, b) = choose|a: u64, b: u64|
            nodes.contains(a) && nodes.contains(b) && index_of_id(nodes, a) == i && index_of_id(
            nodes,
            b,
        ) == i && reaches_within(es, a, b, n);
        lemma_index_of_id(nodes, a);
        lemma_index_of_id(nodes, b);
        assert(a == b);
        assert(has_directed_cycle(es));
    }
}

/// The dependency graph: node weights are resource identities, an edge
/// (a, b) records that a must be built before b, and the structure is
/// acyclic by construction — no value of this type ever holds a cycle.
pub struct QueryGraph {
    inner: DepGraph,
    nodes: Vec<u64>,
    edges: Vec<(u64, u64)>,
}

impl QueryGraph {
    /// The node identities, ascending; positions in this sequence are the
    /// internal graph indices.
    pub closed spec fn node_seq(self) -> Seq<u64> {
        self.nodes@
    }

    /// The validated edge list the graph was built from.
    pub closed spec fn edge_seq(self) -> Seq<(u64, u64)> {
        self.edges@
    }

    /// The stored structure mirrors the node list and edge list exactly.
    pub closed spec fn inner_ok(self) -> bool {
        graph_nodes(self.inner) == self.node_seq() && graph_edges(self.inner) == index_edge_set(
            self.node_seq(),
            self.edge_seq(),
        )
    }

    /// What every constructed graph satisfies.
    pub open spec fn wf(self) -> bool {
        &&& sorted_strict(self.node_seq())
        &&& self.node_seq().len() > 0
        &&& forall|y: u64|
            self.node_seq().contains(y) <==> appears_in_edges(self.edge_seq(), y)
        &&& !has_directed_cycle(self.edge_seq().to_set())
        &&& self.inner_ok()
    }

    /// The underlying directed graph structure, for traversal by
    /// downstream consumers.
    pub fn inner(&self) -> (r: &DepGraph)
        requires
            self.wf(),
        ensures
            graph_nodes(*r) == self.node_seq(),
            graph_edges(*r) == index_edge_set(self.node_seq(), self.edge_seq()),
    {
        &self.inner
    }

    /// Builds the graph from validated data and rejects it entirely when
    /// the edges close a cycle: construction succeeds exactly on acyclic
    /// edge lists, and a produced graph carries the validated nodes and
    /// edges unchanged.
    pub fn new_from_valid_data(valid_data: ValidGraphData) -> (r: Option<QueryGraph>)
        requires
            valid_data.wf(),
        ensures
            r is Some <==> !has_directed_cycle(valid_data.edge_seq().to_set()),
            r matches Some(g) ==> g.wf() && g.node_seq() == valid_data.node_seq()
                && g.edge_seq() == valid_data.edge_seq(),
    {
        let ValidGraphData { nodes, edges } = valid_data;
        proof {
            assert forall|k: int| 0 <= k < edges@.len() implies nodes@.contains(
                (#[trigger] edges@[k]).0,
            ) && nodes@.contains(edges@[k].1) by {
                assert(edge_touches(edges@[k], edges@[k].0));
                assert(edge_touches(edges@[k], edges@[k].1));
                assert(appears_in_edges(edges@, edges@[k].0));
                assert(appears_in_edges(edges@, edges@[k].1));
            }
        }
        let g = build_structure(&nodes, &edges);
        proof {
            lemma_cycle_transfer(nodes@, edges@);
        }
        if graph_is_cyclic(&g) {
            return None;
        }
        Some(QueryGraph { inner: g, nodes, edges })
    }

    /// Validates the edge list (deriving the node set from the edge
    /// endpoints) and builds the graph: succeeds exactly when the edge
    /// list is non-empty and acyclic.
    pub fn new_from_edges(edges: Vec<(u64, u64)>) -> (r: Option<QueryGraph>)
        ensures
            r is Some <==> (edges@.len() > 0 && !has_directed_cycle(edges@.to_set())),
            r matches Some(g) ==> g.wf() && g.edge_seq() == edges@ && (forall|y: u64|
                g.node_seq().contains(y) <==> appears_in_edges(edges@, y)),
    {
        match ValidGraphData::new_from_edges(edges.as_slice()) {
            Some(d) => QueryGraph::new_from_valid_data(d),
            None => None,
        }
    }

    /// Validates the declared node set against the edge list and builds
    /// the graph: succeeds exactly when no edge endpoint is undeclared,
    /// the edge list is non-empty, and the edges are acyclic.
    pub fn new_from_ids_and_edges(node_ids: Vec<u64>, edges: Vec<(u64, u64)>) -> (r: Option<
        QueryGraph,
    >)
        ensures
            r is Some <==> (edges@.len() > 0 && endpoints_declared(edges@, node_ids@)
                && !has_directed_cycle(edges@.to_set())),
            r matches Some(g) ==> g.wf() && g.edge_seq() == edges@ && (forall|y: u64|
                g.node_seq().contains(y) <==> appears_in_edges(edges@, y)),
    {
        match ValidGraphData::new_from_id_edge_pairs(node_ids.as_slice(), edges.as_slice()) {
            Some(d) => QueryGraph::new_from_valid_data(d),
            None => None,
        }
    }

    /// The internal index of a node identity: present exactly for the
    /// identities the graph holds.
    pub fn get_index(&self, node_id: u64) -> (r: Option<usize>)
        ensures
            match r {
                Some(i) => self.node_seq().contains(node_id) && i as int == index_of_id(
                    self.node_seq(),
                    node_id,
                ),
                None => !self.node_seq().contains(node_id),
            },
    {
        let n = self.nodes.len();
        let mut i: usize = 0;
        while i < n
            invariant
                i <= n,
                n == self.nodes@.len(),
                forall|k: int| 0 <= k < i ==> self.nodes@[k] != node_id,
            decreases n - i,
        {
            if self.nodes[i] == node_id {
                proof {
                    lemma_index_of_id_first(self.nodes@, node_id, i as int);
                }
                return Some(i);
            }
            i += 1;
        }
        None
    }

    /// The node identity at an internal index: present exactly for the
    /// indices the graph holds.
    pub fn get_id(&self, node_index: usize) -> (r: Option<u64>)
        ensures
            match r {
                Some(id) => node_index < self.node_seq().len() && id == self.node_seq()[
                    node_index as int
                ],
                None => node_index >= self.node_seq().len(),
            },
    {
        if node_index < self.nodes.len() {
            Some(self.nodes[node_index])
        } else {
            None
        }
    }

    /// Id round-trip: looking up the index of a held identity and reading
    /// the identity back at that index returns the identity unchanged.
    pub proof fn lemma_id_round_trip(self, id: u64)
        requires
            self.node_seq().contains(id),
        ensures
            0 <= index_of_id(self.node_seq(), id) < self.node_seq().len(),
            self.node_seq()[index_of_id(self.node_seq(), id)] == id,
    {
        lemma_index_of_id(self.node_seq(), id);
    }

    /// Every node with no incoming dependency edge — the resources a
    /// build must start from — in ascending identity order.
    pub fn get_root_nodes(&self) -> (r: Vec<u64>)
        requires
            self.wf(),
        ensures
            sorted_strict(r@),
            forall|id: u64|
                r@.contains(id) <==> (self.node_seq().contains(id) && no_incoming_id(
                    self.edge_seq(),
                    id,
                )),
    {
        let node_count = self.nodes.len();
        let ext = graph_externals_incoming(&self.inner);
        let ghost ns = self.node_seq();
        let ghost es = self.edge_seq();
        let ghost fs = index_edge_set(ns, es);
        let mut out: Vec<u64> = Vec::new();
        let mut t: usize = 0;
        while t < ext.len()
            invariant
                t <= ext@.len(),
                self.wf(),
                node_count == ns.len(),
                ns == self.node_seq(),
                es == self.edge_seq(),
                fs == index_edge_set(ns, es),
                forall|i: int, j: int| 0 <= i < j < ext@.len() ==> ext@[i] < ext@[j],
                forall|i: int| 0 <= i < ext@.len() ==> ext@[i] < ns.len() && no_incoming_edge(
                    fs,
                    ext@[i] as int,
                ),
                forall|v: int| 0 <= v < ns.len() && no_incoming_edge(fs, v) ==> ext@.contains(
                    v as usize,
                ),
                out@.len() == t,
                forall|s: int| 0 <= s < t ==> out@[s] == ns[ext@[s] as int],
            decreases ext@.len() - t,
        {
            let ix = ext[t];
            out.push(self.nodes[ix]);
            t += 1;
        }
        proof {
            assert forall|p: int, q: int| 0 <= p < q < out@.len() implies out@[p] < out@[q] by {
                assert(ext@[p] < ext@[q]);
            }
            assert forall|id: u64| out@.contains(id) implies ns.contains(id) && no_incoming_id(
                es,
                id,
            ) by {
                let s = choose|s: int| 0 <= s < out@.len() && out@[s] == id;
                let i = ext@[s] as int;
                assert(ns[i] == id);
                assert(ns.contains(id));
                assert forall|k: int| 0 <= k < es.len() implies (#[trigger] es[k]).1 != id by {
                    if es[k].1 == id {
                        assert(fs.contains(
                            (index_of_id(ns, es[k].0), index_of_id(ns, es[k].1)),
                        ));
                        assert forall|m: int| 0 <= m < i implies ns[m] != ns[i] by {}
                        lemma_index_of_id_first(ns, ns[i], i);
                        assert(index_of_id(ns, es[k].1) == i);
                        assert(!no_incoming_edge(fs, i));
                    }
                }
            }
            assert forall|id: u64| ns.contains(id) && no_incoming_id(es, id) implies out@.contains(
                id,
            ) by {
                lemma_index_of_id(ns, id);
                let i = index_of_id(ns, id);
                assert(i < node_count as int);
                assert forall|u: int| !fs.contains((u, i)) by {
                    if fs.contains((u, i)) {
                        let k = choose|k: int| 0 <= k < es.len()
                            && (u, i) == (index_of_id(ns, (#[trigger] es[k]).0), index_of_id(
                            ns,
                            es[k].1,
                        ));
                        assert(edge_touches(es[k], es[k].1));
                        assert(appears_in_edges(es, es[k].1));
                        assert(ns.contains(es[k].1));
                        lemma_index_of_id(ns, es[k].1);
                        assert(ns[i] == es[k].1);
                        assert(es[k].1 == id);
                        assert(false);
                    }
                }
                assert(no_incoming_edge(fs, i));
                assert(ext@.contains(i as usize));
                let s = choose|s: int| 0 <= s < ext@.len() && ext@[s] == i as usize;
                assert(out@[s] == id);
            }
        }
        out
    }
}

/// Finds the indices of nodes that touch no edge in either direction.
/// A graph built from validated data never holds one: the validator has
/// already dropped every orphan, and this is proved, not rechecked.
pub fn find_orphan_nodes(g: &QueryGraph) -> (r: Vec<usize>)
    requires
        g.wf(),
    ensures
        r@.len() == 0,
{
    let mut r: Vec<usize> = Vec::new();
    let n = g.nodes.len();
    let mut i: usize = 0;
    while i < n
        invariant
            i <= n,
            n == g.node_seq().len(),
            g.wf(),
            r@.len() == 0,
        decreases n - i,
    {
        let id = g.nodes[i];
        if !touches_any(&g.edges, id) {
            proof {
                assert(g.node_seq().contains(id));
                assert(appears_in_edges(g.edge_seq(), id));
                assert(false);
            }
            r.push(i);
        }
        i += 1;
    }
    r
}

/// Creates one graph node per entry of the sorted node list, recording
/// positions as it goes, then adds one directed edge per pair, with
/// idempotent edge insertion.
fn build_structure(nodes: &Vec<u64>, edges: &Vec<(u64, u64)>) -> (g: DepGraph)
    requires
        sorted_strict(nodes@),
        endpoints_declared(edges@, nodes@),
    ensures
        graph_nodes(g) == nodes@,
        graph_edges(g) == index_edge_set(nodes@, edges@),
{
    let node_count = nodes.len();
    let edge_count = edges.len();
    let mut g = graph_with_capacity(node_count, edge_count);
    let mut i: usize = 0;
    while i < node_count
        invariant
            i <= node_count,
            node_count == nodes@.len(),
            graph_nodes(g) == nodes@.subrange(0, i as int),
            graph_edges(g) == Set::<(int, int)>::empty(),
        decreases node_count - i,
    {
        let _ = graph_add_node(&mut g, nodes[i]);
        proof {
            assert(nodes@.subrange(0, i + 1) =~= nodes@.subrange(0, i as int).push(
                nodes@[i as int],
            ));
        }
        i += 1;
    }
    proof {
        assert(nodes@.subrange(0, node_count as int) =~= nodes@);
        assert(index_edge_set(nodes@, edges@.subrange(0, 0)) =~= Set::<(int, int)>::empty());
    }
    let mut j: usize = 0;
    while j < edge_count
        invariant
            j <= edge_count,
            edge_count == edges@.len(),
            graph_nodes(g) == nodes@,
            graph_edges(g) == index_edge_set(nodes@, edges@.subrange(0, j as int)),
            sorted_strict(nodes@),
            endpoints_declared(edges@, nodes@),
        decreases edge_count - j,
    {
        let e = edges[j];
        proof {
            lemma_index_of_id(nodes@, e.0);
            lemma_index_of_id(nodes@, e.1);
        }
        let ia = find_index(nodes, e.0);
        let ib = find_index(nodes, e.1);
        graph_update_edge(&mut g, ia, ib);
        proof {
            lemma_index_edge_prefix_step(nodes@, edges@, j as int);
        }
        j += 1;
    }
    proof {
        assert(edges@.subrange(0, edge_count as int) =~= edges@);
    }
    g
}

/// Whether any edge of the list has `id` as an endpoint.
fn touches_any(edges: &Vec<(u64, u64)>, id: u64) -> (r: bool)
    ensures
        r == appears_in_edges(edges@, id),
{
    let n = edges.len();
    let mut k: usize = 0;
    while k < n
        invariant
            k <= n,
            n == edges@.len(),
            forall|j: int| 0 <= j < k ==> !edge_touches(edges@[j], id),
        decreases n - k,
    {
        let e = edges[k];
        if e.0 == id || e.1 == id {
            proof {
                assert(edge_touches(edges@[k as int], id));
            }
            return true;
        }
        k += 1;
    }
    false
}

/// Linear search for a contained identity; returns its position.
fn find_index(v: &Vec<u64>, x: u64) -> (i: usize)
    requires
        v@.contains(x),
    ensures
        i < v@.len(),
        i as int == index_of_id(v@, x),
        v@[i as int] == x,
{
    let n = v.len();
    let mut i: usize = 0;
    while i < n
        invariant
            i <= n,
            n == v@.len(),
            v@.contains(x),
            forall|k: int| 0 <= k < i ==> v@[k] != x,
        decreases n - i,
    {
        if v[i] == x {
            proof {
                lemma_index_of_id_first(v@, x, i as int);
            }
            return i;
        }
        i += 1;
    }
    proof {
        let j = choose|j: int| 0 <= j < v@.len() && v@[j] == x;
        assert(false);
    }
    unreached()
}

/// Linear membership scan.
fn contains_id(v: &[u64], x: u64) -> (r: bool)
    ensures
        r == v@.contains(x),
{
    let n = v.len();
    let mut i: usize = 0;
    while i < n
        invariant
            i <= n,
            n == v@.len(),
            forall|k: int| 0 <= k < i ==> v@[k] != x,
        decreases n - i,
    {
        if v[i] == x {
            return true;
        }
        i += 1;
    }
    false
}

/// Inserts `x` into a strictly sorted vector, keeping it strictly sorted;
/// a present value is left alone.
fn insert_sorted(v: &mut Vec<u64>, x: u64)
    requires
        sorted_strict(old(v)@),
    ensures
        sorted_strict(final(v)@),
        forall|y: u64| final(v)@.contains(y) <==> old(v)@.contains(y) || y == x,
{
    let n = v.len();
    let mut i: usize = 0;
    while i < n && v[i] < x
        invariant
            i <= n,
            n == v@.len(),
            v@ == old(v)@,
            forall|k: int| 0 <= k < i ==> v@[k] < x,
        decreases n - i,
    {
        i += 1;
    }
    if i < n && v[i] == x {
        return;
    }
    let ghost pre = v@;
    v.insert(i, x);
    proof {
        assert(v@.len() == pre.len() + 1);
        assert(forall|k: int| 0 <= k < i ==> v@[k] == pre[k]);
        assert(v@[i as int] == x);
        assert(forall|k: int| i < k < v@.len() ==> v@[k] == pre[k - 1]);
        assert forall|p: int, q: int| 0 <= p < q < v@.len() implies v@[p] < v@[q] by {
            let iv = i as int;
            if q < iv {
                assert(v@[p] == pre[p] && v@[q] == pre[q]);
            } else if p < iv && q == iv {
                assert(v@[p] == pre[p] && v@[q] == x);
            } else if p < iv && q > iv {
                assert(v@[p] == pre[p] && v@[q] == pre[q - 1]);
                if q - 1 > iv - 1 && p < q - 1 {
                } else {
                    assert(p == q - 1 && p < iv);
                }
                if iv <= q - 1 {
                    if iv < q - 1 {
                        assert(pre[iv] <= pre[q - 1]);
                    }
                    assert(pre[iv] > x || iv == n);
                }
            } else if p == iv {
                assert(v@[p] == x && v@[q] == pre[q - 1]);
                assert(q - 1 >= iv);
                if iv < n {
                    assert(pre[iv] > x);
                    if q - 1 > iv {
                        assert(pre[iv] < pre[q - 1]);
                    }
                }
            } else {
                assert(v@[p] == pre[p - 1] && v@[q] == pre[q - 1]);
            }
        }
        assert forall|y: u64| v@.contains(y) implies pre.contains(y) || y == x by {
            let j = choose|j: int| 0 <= j < v@.len() && v@[j] == y;
            if j < i {
                assert(pre[j] == y);
            } else if j == i {
            } else {
                assert(pre[j - 1] == y);
            }
        }
        assert forall|y: u64| pre.contains(y) || y == x implies v@.contains(y) by {
            if y == x {
                assert(v@[i as int] == x);
            } else {
                let j = choose|j: int| 0 <= j < pre.len() && pre[j] == y;
                if j < i {
                    assert(v@[j] == y);
                } else {
                    assert(v@[j + 1] == y);
                }
            }
        }
    }
}

} // verus!
