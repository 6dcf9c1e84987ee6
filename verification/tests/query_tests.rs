use std::collections::{HashMap, HashSet};

use query_dag::meta::generate_graph_from_collection;
use query_dag::query::{QueryCollection, QueryKind, RawQuery};

#[test]
fn test_can_parse_plain_sql() {
    let prql = "from employees | filter age > 35 | select name";
    let options = prql_compiler::sql::Options::default()
        .no_format()
        .no_signature()
        .some();
    let sql = prql_compiler::compile(prql, options)
        .unwrap()
        .replace("\n", " ")
        .replace("   ", " ");
    assert_eq!(sql, "SELECT name FROM employees WHERE age > 35")
}

#[test]
fn test_can_get_table_names_from_prql() {
    let prql = "from employees | filter age > 35 | select name";
    let parsed = prql_compiler::prql_to_pl(prql).unwrap();
    let resolved_tables = prql_compiler::pl_to_rq(parsed).unwrap().tables;
    let actual_names: Vec<_> = resolved_tables.iter().map(|t| t.name.clone()).collect();
    let expected_names = vec![Some("employees".to_string())];
    assert_eq!(actual_names, expected_names);
}

#[test]
fn test_can_get_multiple_table_names_from_prql() {
    let prql = r#"from employees
    filter age > 35
    join side:inner other_table [employees.employee_id == other_table.employee_id]
    select [employees.name, employees.employee_id, employees.workplace]"#;
    let parsed = prql_compiler::prql_to_pl(prql).unwrap();
    let resolved_tables = prql_compiler::pl_to_rq(parsed).unwrap().tables;
    let actual_names: Vec<_> = resolved_tables.iter().map(|t| t.name.clone()).collect();
    let expected_names = vec![
        Some("employees".to_string()),
        Some("other_table".to_string()),
    ];
    assert_eq!(actual_names, expected_names);
}

#[test]
fn test_can_gen_clickhouse_query() {
    let prql = r#"prql dialect:clickhouse
    from employees
    filter age > 35
    join side:inner other_table [employees.employee_id == other_table.employee_id]
    select [employees.name, employees.employee_id, employees.workplace]"#;
    let options = prql_compiler::sql::Options::default().no_signature().some();
    let parsed = prql_compiler::compile(prql, options)
        .unwrap()
        .replace("\n", " ")
        .replace("   ", " ");
    println!("{:?}", parsed);
}

#[test]
fn test_can_re_map_variables_in_query() {
    let prql = r#"prql dialect:clickhouse
    from employees
    filter age > 35
    filter location != 'Melbourne'
    join side:inner other_table [employees.employee_id == other_table.employee_id]
    select [employees.name, employees.employee_id, employees.workplace]"#;
    let parsed = prql_compiler::prql_to_pl(prql).unwrap();
    let mut resolved = prql_compiler::pl_to_rq(parsed).unwrap();
    let my_var = "Melbourne";
    let var_collection: HashMap<_, _> = {
        let mut x = HashMap::new();
        x.insert("my_var".to_string(), my_var.to_string());
        x
    };
    if let Some(x) = resolved.relation.kind.as_pipeline_mut() {
        x.iter_mut().filter_map(|t| t.as_from_mut()).for_each(|y| {
            y.columns.iter_mut().for_each(|c| {
                if let Some(Some(z)) = c.0.as_single_mut() {
                    if let Some(alpha) = var_collection.get(z) {
                        *z = alpha.to_string();
                    }
                };
            });
        });
    };
    println!("{:?}", &resolved.relation);
    println!("{:?}", prql_compiler::rq_to_sql(resolved, None));
}

#[test]
fn test_can_add_queries() {
    let queries = vec![
        RawQuery {
            name: "q1".into(),
            query_string: "from arcana | filter source != 'necronomicron'".into(),
        },
        RawQuery {
            name: "q2".into(),
            query_string: "from rituals | join side:inner q1 [==source]".into(),
        },
        RawQuery {
            name: "q3".into(),
            query_string:
                "from rituals | derive [ritual_cost = component_count + price]  | sort ritual_cost"
                    .into(),
        },
    ];
    let mut collection = QueryCollection::new();
    collection.add_queries(queries);
    println!("{:?}", collection.query_id_map().names());
    assert_eq!(collection.len(), 5);
    assert_eq!(
        collection
            .query_id_map()
            .names()
            .into_iter()
            .collect::<HashSet<_>>(),
        vec!["q1", "arcana", "q3", "rituals", "q2"]
            .into_iter()
            .map(String::from)
            .collect::<HashSet<_>>()
    );
}

#[test]
fn test_query_dependency_registers_properly() {
    let queries = vec![
        RawQuery {
            name: "q1".into(),
            query_string: "from arcana | filter source != 'necronomicron'".into(),
        },
        RawQuery {
            name: "q2".into(),
            query_string: "from rituals | join side:inner q1 [==source]".into(),
        },
        RawQuery {
            name: "q3".into(),
            query_string:
                "from rituals | derive [ritual_cost = component_count + price]  | sort ritual_cost"
                    .into(),
        },
    ];
    let mut collection = QueryCollection::new();
    collection.add_queries(queries);
    println!("{:?}", collection.query_id_map().names());
    let q2 = collection.get("q2");
    assert!(matches!(q2, Some(QueryKind::Query(_))));
    let q2 = match q2 {
        Some(QueryKind::Query(x)) => Some(x),
        _ => None,
    }
    .unwrap();
    let mut q2_dependencies = q2.dependencies.clone();
    q2_dependencies.sort();
    let expected_deps = vec!["q1".to_string(), "rituals".to_string()];
    assert_eq!(q2_dependencies, expected_deps);
}

#[test]
fn test_can_add_queries_incrementally() {
    let queries = vec![RawQuery {
        name: "q1".into(),
        query_string: "from arcana | filter source != 'necronomicron'".into(),
    }];
    let queries2 = vec![
        RawQuery {
            name: "q2".into(),
            query_string: "from rituals | join side:inner q1 [==source]".into(),
        },
        RawQuery {
            name: "q3".into(),
            query_string:
                "from rituals | derive [ritual_cost = component_count + price]  | sort ritual_cost"
                    .into(),
        },
    ];
    let mut collection = QueryCollection::new();
    collection.add_queries(queries);
    println!("{:?}", collection.query_id_map().names());
    assert_eq!(collection.len(), 2);
    collection.add_queries(queries2);
    assert_eq!(collection.len(), 5);
    assert_eq!(
        collection
            .query_id_map()
            .names()
            .into_iter()
            .collect::<HashSet<_>>(),
        vec!["q1", "arcana", "q3", "rituals", "q2"]
            .into_iter()
            .map(String::from)
            .collect::<HashSet<_>>()
    );
}

#[test]
fn test_can_generate_graph_from_queries() {
    let queries = vec![
        RawQuery::new("q1", "from arcana | filter source != 'necronomicron'"),
        RawQuery::new("q2", "from rituals | join side:inner q1 [==source]"),
        RawQuery::new("q3", "from q2 | filter something == 'blah'"),
        RawQuery::new(
            "q4",
            "from q3 | join side:inner rituals [==source] | join side:inner q1 [==other]",
        ),
    ];
    let mut collection = QueryCollection::new();
    collection.add_queries(queries);
    let query_graph = generate_graph_from_collection(&collection).unwrap();
    println!("{:?}", collection.query_id_map().names());
    println!(
        "{:?}",
        petgraph::dot::Dot::with_config(
            query_graph.inner(),
            &[petgraph::dot::Config::EdgeNoLabel]
        )
    );
}
