use petgraph::algo;
use petgraph::dot;
use petgraph::graph::DiGraph;
use petgraph::stable_graph::{node_index, NodeIndex};
use petgraph::Direction;

use query_dag::graph::{find_orphan_nodes, QueryGraph, ValidGraphData};

#[test]
fn test_dag_construction() {
    let g = DiGraph::<u16, ()>::from_edges(&[(0, 1), (0, 2), (3, 2), (2, 4), (4, 5)]);
    let output = format!(
        "{:?}",
        dot::Dot::with_config(&g, &[dot::Config::NodeIndexLabel, dot::Config::EdgeNoLabel])
    );
    assert_eq!(
        output,
        r#"digraph {
    0 [ label = "0" ]
    1 [ label = "1" ]
    2 [ label = "2" ]
    3 [ label = "3" ]
    4 [ label = "4" ]
    5 [ label = "5" ]
    0 -> 1 [ ]
    0 -> 2 [ ]
    3 -> 2 [ ]
    2 -> 4 [ ]
    4 -> 5 [ ]
}
"#
    );
}

#[test]
fn test_detecting_cycles() {
    let g = DiGraph::<u16, ()>::from_edges(&[(0, 1), (0, 2), (3, 2), (2, 4), (4, 5)]);
    let contains_cycle = algo::is_cyclic_directed(&g);
    assert_eq!(contains_cycle, false);
}

#[test]
fn test_topological_sorted_dag() {
    let g = DiGraph::<u16, ()>::from_edges(&[(0, 1), (0, 2), (3, 2), (2, 4), (4, 5)]);
    let g_sorted = algo::toposort(&g, None);
    assert!(g_sorted.is_ok())
}

#[test]
fn test_get_dependent_nodes() {
    let g = DiGraph::<u16, ()>::from_edges(&[(0, 1), (0, 2), (3, 2), (2, 4), (4, 5)]);
    let n_idx = node_index(0);
    let outgoing = {
        let mut n: Vec<_> = g.neighbors_directed(n_idx, Direction::Outgoing).collect();
        n.sort_unstable();
        n
    };
    assert_eq!(outgoing, vec![node_index(1), node_index(2)]);
}

#[test]
fn test_can_find_orphan_nodes() {
    let mut g = DiGraph::<u8, ()>::from_edges(&[(0, 1), (0, 2), (3, 2), (2, 4), (4, 5), (7, 5)]);
    g.add_node(6);
    println!(
        "{:?}",
        dot::Dot::with_config(&g, &[dot::Config::NodeIndexLabel, dot::Config::EdgeNoLabel])
    );
    let orphan_nodes: Vec<NodeIndex<u32>> = g
        .externals(Direction::Outgoing)
        .filter(|ext| g.edges_directed(*ext, Direction::Incoming).next().is_none())
        .collect();
    assert_eq!(orphan_nodes, vec![NodeIndex::new(6), NodeIndex::new(8)])
}

#[test]
fn test_no_orphan_nodes_in_valid_graph() {
    let nodes: [u64; 8] = [0, 1, 2, 3, 4, 5, 6, 7];
    let edges: [(u64, u64); 3] = [(0, 1), (0, 2), (1, 3)];
    let graph = QueryGraph::new_from_ids_and_edges(nodes.to_vec(), edges.to_vec()).unwrap();
    let orphan_nodes: Vec<usize> = find_orphan_nodes(&graph);
    assert_eq!(orphan_nodes, Vec::<usize>::new())
}

#[test]
fn test_can_generate_from_valid_edge_pairs() {
    let edges: [(u64, u64); 6] = [(0, 1), (0, 2), (3, 2), (2, 4), (4, 5), (7, 5)];
    assert!(ValidGraphData::new_from_edges(&edges).is_some())
}

#[test]
fn test_does_not_generate_from_invalid_edge_pairs() {
    let edges: [(u64, u64); 0] = [];
    assert!(ValidGraphData::new_from_edges(&edges).is_none())
}

#[test]
fn test_generate_from_valid_id_edges() {
    let nodes: [u64; 4] = [0, 1, 2, 3];
    let edges: [(u64, u64); 3] = [(0, 1), (0, 2), (1, 3)];
    assert!(ValidGraphData::new_from_id_edge_pairs(&nodes, &edges).is_some());
}

#[test]
fn test_prevents_missing_node_information() {
    let nodes: [u64; 3] = [0, 1, 2];
    let edges: [(u64, u64); 3] = [(0, 1), (0, 2), (1, 3)];
    assert!(ValidGraphData::new_from_id_edge_pairs(&nodes, &edges).is_none());
}

#[test]
fn test_successfully_filters_orphan_nodes() {
    let nodes: [u64; 8] = [0, 1, 2, 3, 4, 5, 6, 7];
    let edges: [(u64, u64); 3] = [(0, 1), (0, 2), (1, 3)];
    let data = ValidGraphData::new_from_id_edge_pairs(&nodes, &edges);
    let expected_nodes: Vec<u64> = vec![0, 1, 2, 3];
    assert_eq!(data.unwrap().nodes(), &expected_nodes);
}

#[test]
fn test_graph_generates_on_valid_edge_data() {
    let edges: [(u64, u64); 6] = [(0, 1), (0, 2), (3, 2), (2, 4), (4, 5), (7, 5)];
    let graph = QueryGraph::new_from_edges(edges.to_vec());
    assert!(graph.is_some())
}

#[test]
fn test_graph_generates_on_valid_edge_node_data() {
    let nodes: [u64; 7] = [0, 1, 2, 3, 4, 5, 7];
    let edges: [(u64, u64); 6] = [(0, 1), (0, 2), (3, 2), (2, 4), (4, 5), (7, 5)];
    let graph = QueryGraph::new_from_ids_and_edges(nodes.to_vec(), edges.to_vec());
    assert!(graph.is_some())
}

#[test]
fn test_graph_does_not_generate_from_cyclic() {
    let nodes: [u64; 7] = [0, 1, 2, 3, 4, 5, 7];
    let edges: [(u64, u64); 7] = [(0, 1), (0, 2), (3, 2), (2, 4), (4, 5), (7, 5), (5, 0)];
    let graph = QueryGraph::new_from_ids_and_edges(nodes.to_vec(), edges.to_vec());
    assert!(graph.is_none())
}

#[test]
fn test_graph_layout_correct() {
    let edges: [(u64, u64); 6] = [(0, 1), (0, 2), (3, 2), (2, 4), (4, 5), (7, 5)];
    let graph = QueryGraph::new_from_edges(edges.to_vec()).unwrap();
    println!(
        "{:?}",
        dot::Dot::with_config(
            graph.inner(),
            &[dot::Config::NodeIndexLabel, dot::Config::EdgeNoLabel]
        )
    );
}

#[test]
fn test_externals_finds_src_nodes_in_valid_graph() {
    let nodes: [u64; 7] = [0, 1, 2, 3, 4, 5, 7];
    let edges: [(u64, u64); 6] = [(0, 1), (0, 2), (3, 2), (2, 4), (4, 5), (7, 5)];
    let graph = QueryGraph::new_from_ids_and_edges(nodes.to_vec(), edges.to_vec()).unwrap();
    let externals: Vec<usize> = graph
        .inner()
        .externals(Direction::Incoming)
        .map(|ix| ix.index())
        .collect();
    println!(
        "{:?}",
        dot::Dot::with_config(
            graph.inner(),
            &[dot::Config::NodeIndexLabel, dot::Config::EdgeNoLabel]
        )
    );
    assert_eq!(
        externals,
        vec![
            graph.get_index(0).unwrap(),
            graph.get_index(3).unwrap(),
            graph.get_index(7).unwrap()
        ]
    );
}

#[test]
fn test_node_labels_work_correctly() {
    let nodes: [u64; 7] = [31, 18, 9, 243, 11, 86, 109];
    let edges: [(u64, u64); 6] = [(31, 18), (31, 9), (243, 9), (9, 11), (11, 86), (109, 86)];
    let graph = QueryGraph::new_from_ids_and_edges(nodes.to_vec(), edges.to_vec()).unwrap();
    let output = format!(
        "{:?}",
        dot::Dot::with_config(graph.inner(), &[dot::Config::EdgeNoLabel])
    );
    assert_eq!(
        output,
        r#"digraph {
    0 [ label = "9" ]
    1 [ label = "11" ]
    2 [ label = "18" ]
    3 [ label = "31" ]
    4 [ label = "86" ]
    5 [ label = "109" ]
    6 [ label = "243" ]
    3 -> 2 [ ]
    3 -> 0 [ ]
    6 -> 0 [ ]
    0 -> 1 [ ]
    1 -> 4 [ ]
    5 -> 4 [ ]
}
"#
    )
}

#[test]
fn test_correctly_finds_root_nodes_by_node_id() {
    let nodes: [u64; 7] = [31, 18, 9, 243, 11, 86, 109];
    let edges: [(u64, u64); 6] = [(31, 18), (31, 9), (243, 9), (9, 11), (11, 86), (109, 86)];
    let graph = QueryGraph::new_from_ids_and_edges(nodes.to_vec(), edges.to_vec()).unwrap();
    let root_nodes = graph.get_root_nodes();
    println!(
        "{:?}",
        dot::Dot::with_config(
            graph.inner(),
            &[dot::Config::NodeIndexLabel, dot::Config::EdgeNoLabel]
        )
    );
    assert_eq!(root_nodes, vec![31, 109, 243]);
}
