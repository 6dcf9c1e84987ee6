use query_dag::graph::{QueryGraph, ValidGraphData};
use query_dag::ident::ResourceIdMap;
use query_dag::meta::{gen_edge_pairs, generate_graph_from_collection, GraphMeta};
use query_dag::query::{extract_dependent_tables, QueryCollection};
use query_dag::settings::{FullyQualifiedColumn, FullyQualifiedTable, ResourceName};

#[test]
fn test_validated_nodes_are_sorted_edge_participants() {
    let edges: [(u64, u64); 3] = [(5, 1), (1, 3), (5, 3)];
    let data = ValidGraphData::new_from_edges(&edges).unwrap();
    assert_eq!(data.nodes(), &vec![1u64, 3, 5]);
    assert_eq!(data.edges(), &edges.to_vec());
}

#[test]
fn test_id_round_trip_for_every_node() {
    let nodes: [u64; 7] = [31, 18, 9, 243, 11, 86, 109];
    let edges: [(u64, u64); 6] = [(31, 18), (31, 9), (243, 9), (9, 11), (11, 86), (109, 86)];
    let graph = QueryGraph::new_from_ids_and_edges(nodes.to_vec(), edges.to_vec()).unwrap();
    for id in nodes {
        let index = graph.get_index(id).unwrap();
        assert_eq!(graph.get_id(index), Some(id));
    }
    assert_eq!(graph.get_index(77), None);
    assert_eq!(graph.get_id(7), None);
}

#[test]
fn test_gen_edge_pairs_points_dependencies_at_dependent() {
    let deps: [u64; 2] = [1, 2];
    let pairs = gen_edge_pairs(7, &deps);
    assert_eq!(pairs, vec![(1u64, 7u64), (2, 7)]);
    assert_eq!(gen_edge_pairs(7, &[]), Vec::new());
}

#[test]
fn test_prepared_query_id_is_name_hash() {
    let collection = QueryCollection::new();
    let q = collection
        .prepare_query("from employees | filter age > 35 | select name", "q1")
        .unwrap();
    assert_eq!(q.id, xxhash_rust::xxh3::xxh3_64("q1".as_bytes()));
    assert_eq!(q.name, "q1".to_string());
    assert_eq!(q.dependencies, vec!["employees".to_string()]);
}

#[test]
fn test_prepare_query_rejects_bad_text() {
    let collection = QueryCollection::new();
    let r = collection.prepare_query("from | | nonsense ((", "broken");
    assert!(r.is_err());
    let e = r.err().unwrap();
    assert!(e.message().len() > 0);
}

#[test]
fn test_registry_graph_has_table_root_and_dependency_edge() {
    let mut collection = QueryCollection::new();
    collection.add_queries(vec![query_dag::query::RawQuery::new(
        "q1",
        "from arcana | filter source != 'necronomicron'",
    )]);
    assert_eq!(collection.len(), 2);
    let graph = generate_graph_from_collection(&collection).unwrap();
    let arcana_id = xxhash_rust::xxh3::xxh3_64("arcana".as_bytes());
    let q1_id = xxhash_rust::xxh3::xxh3_64("q1".as_bytes());
    assert!(graph.get_index(arcana_id).is_some());
    assert!(graph.get_index(q1_id).is_some());
    // the source table is the only root: the edge runs arcana -> q1
    assert_eq!(graph.get_root_nodes(), vec![arcana_id]);
}

#[test]
fn test_graph_meta_requires_at_least_one_edge() {
    let empty = QueryCollection::new();
    assert!(GraphMeta::new(empty).is_none());
    let mut collection = QueryCollection::new();
    collection.add_queries(vec![query_dag::query::RawQuery::new(
        "q1",
        "from arcana | filter source != 'necronomicron'",
    )]);
    let meta = GraphMeta::new(collection).unwrap();
    assert_eq!(meta.query().len(), 2);
    assert!(meta.graph().get_root_nodes().len() > 0);
}

#[test]
fn test_resource_id_map_overwrites_same_name() {
    let mut map = ResourceIdMap::new();
    map.insert_resource("alpha".to_string(), 10);
    map.insert_resource("alpha".to_string(), 20);
    map.insert_resource("beta".to_string(), 30);
    let names = map.names();
    assert_eq!(names.len(), 2);
    assert!(names.contains(&"alpha".to_string()));
    assert!(names.contains(&"beta".to_string()));
}

#[test]
fn test_extract_dependent_tables_keeps_named_entries_in_order() {
    let table_names = vec![
        Some("employees".to_string()),
        None,
        Some("other_table".to_string()),
    ];
    let deps = extract_dependent_tables(&table_names);
    assert_eq!(deps, vec!["employees".to_string(), "other_table".to_string()]);
    assert_eq!(extract_dependent_tables(&Vec::new()), Vec::<String>::new());
}

#[test]
fn test_resource_name_rejects_empty() {
    assert!(ResourceName::new(String::new()).is_none());
    let name = ResourceName::new("arcana".to_string()).unwrap();
    assert_eq!(name.get(), &"arcana".to_string());
}

#[test]
fn test_fully_qualified_column_holds_its_parts() {
    let table = FullyQualifiedTable::new(
        ResourceName::new("warehouse".to_string()).unwrap(),
        ResourceName::new("public".to_string()).unwrap(),
        ResourceName::new("rituals".to_string()).unwrap(),
    );
    assert_eq!(table.database().get(), &"warehouse".to_string());
    assert_eq!(table.schema().get(), &"public".to_string());
    assert_eq!(table.table().get(), &"rituals".to_string());
    let column = FullyQualifiedColumn::new(table, ResourceName::new("cost".to_string()).unwrap());
    assert_eq!(column.column().get(), &"cost".to_string());
    assert_eq!(column.table().table().get(), &"rituals".to_string());
}

#[test]
fn test_re_registering_a_name_overwrites_the_entry() {
    let mut collection = QueryCollection::new();
    collection.add_queries(vec![query_dag::query::RawQuery::new(
        "q1",
        "from arcana | filter source != 'necronomicron'",
    )]);
    assert_eq!(collection.len(), 2);
    collection.add_queries(vec![query_dag::query::RawQuery::new(
        "q1",
        "from rituals | filter cost > 3",
    )]);
    // q1 is overwritten, arcana's stub stays, rituals' stub is added
    assert_eq!(collection.len(), 3);
    let q1 = match collection.get("q1") {
        Some(query_dag::query::QueryKind::Query(q)) => q,
        _ => panic!(),
    };
    assert_eq!(q1.dependencies, vec!["rituals".to_string()]);
}

#[test]
fn test_dependency_ids_come_from_the_name_hash() {
    let mut collection = QueryCollection::new();
    collection.add_queries(vec![query_dag::query::RawQuery::new(
        "q2",
        "from rituals | join side:inner q1 [==source]",
    )]);
    let mut ids = collection.get_query_dependencies("q2");
    ids.sort_unstable();
    let mut expected = vec![
        xxhash_rust::xxh3::xxh3_64("rituals".as_bytes()),
        xxhash_rust::xxh3::xxh3_64("q1".as_bytes()),
    ];
    expected.sort_unstable();
    assert_eq!(ids, expected);
    assert_eq!(collection.get_query_dependencies("nowhere"), Vec::<u64>::new());
}

#[test]
fn test_cycle_through_registry_is_rejected() {
    let mut collection = QueryCollection::new();
    collection.add_queries(vec![
        query_dag::query::RawQuery::new("a", "from b | filter x > 1"),
        query_dag::query::RawQuery::new("b", "from a | filter y > 2"),
    ]);
    assert_eq!(collection.len(), 2);
    assert!(generate_graph_from_collection(&collection).is_none());
}
