use nutmeg::calls::{call_arguments, parse_options, probe_options, CallArgument, PropertyKind};
use nutmeg::options::Options;
use nutmeg::columns::ColumnNames;
use nutmeg::runs::definition_of;
use nutmeg::error::NutmegError;
use nutmeg::layout::ColumnMapping;
use nutmeg::order::StageOrder;
use nutmeg::sizes::{column_key_bound, copy_bound_of, div_ceil, key_bytes_of, sat_mul, KeyColumn};
use nutmeg::source::{flatten_options, plan_source, plan_writer, take, OptionLayer, SinkMode, SourcePlan};
use nutmeg::tables::{clamped, literal_string, no_arguments, sql_names, wrapped, Literal};
use nutmeg::Part;

fn pairs(items: &[(&str, &str)]) -> Vec<(String, String)> {
    items.iter().map(|(k, v)| (k.to_string(), v.to_string())).collect()
}

fn options(items: &[(&str, &str)]) -> Vec<OptionLayer> {
    vec![OptionLayer::Options(pairs(items))]
}

fn plan_message(error: NutmegError) -> String {
    match error {
        NutmegError::Plan(m) => m,
        other => panic!("not a planning error: {other:?}"),
    }
}

#[test]
fn later_layers_override_earlier_ones_and_keys_are_lowercased() {
    let layers = vec![
        OptionLayer::Properties(pairs(&[("Graph", "g1"), ("algorithm", "pagerank")])),
        OptionLayer::Other,
        OptionLayer::Options(pairs(&[("GRAPH", "g2")])),
    ];
    assert_eq!(
        flatten_options(&layers),
        pairs(&[("algorithm", "pagerank"), ("graph", "g2")])
    );
}

#[test]
fn take_removes_the_first_option_under_a_key() {
    let mut options = pairs(&[("a", "1"), ("b", "2"), ("a", "3")]);
    assert_eq!(take(&mut options, "a"), Some("1".to_string()));
    assert_eq!(options, pairs(&[("b", "2"), ("a", "3")]));
    assert_eq!(take(&mut options, "c"), None);
    assert_eq!(options, pairs(&[("b", "2"), ("a", "3")]));
}

#[test]
fn a_read_without_an_algorithm_lists_the_graphs() {
    assert!(matches!(plan_source(0, &options(&[("path", "x")])), Ok(SourcePlan::Graphs)));
    assert!(matches!(plan_source(0, &vec![]), Ok(SourcePlan::Graphs)));
    let error = plan_source(0, &options(&[("graph", "g"), ("dampingFactor", "0.5")])).err().unwrap();
    assert_eq!(plan_message(error), "nutmeg: option `dampingfactor` needs `algorithm`");
}

#[test]
fn a_read_takes_options_not_paths_and_needs_a_graph() {
    let error = plan_source(1, &vec![]).err().unwrap();
    assert_eq!(plan_message(error), "nutmeg: reads take options, not paths");
    let error = plan_source(0, &options(&[("algorithm", "pagerank")])).err().unwrap();
    assert_eq!(plan_message(error), "nutmeg: option `graph` names the staged graph to run on");
    let error = plan_source(0, &options(&[("algorithm", "nosuch"), ("graph", "g")])).err().unwrap();
    assert!(plan_message(error).starts_with("nutmeg: unknown algorithm `nosuch`; Grust registers ["));
}

#[test]
fn a_read_resolves_its_algorithm_and_column_names() {
    let plan = plan_source(
        0,
        &options(&[("algorithm", "SHORTEST_PATHS"), ("graph", "g"), ("columnNames", " GDS ")]),
    )
    .unwrap();
    match plan {
        SourcePlan::Algorithm { algorithm, graph, names, .. } => {
            assert_eq!(algorithm, "shortestPaths");
            assert_eq!(graph, "g");
            assert_eq!(names, ColumnNames::Gds);
        }
        SourcePlan::Graphs => panic!("a read with an algorithm planned a listing"),
    }
    let error = plan_source(
        0,
        &options(&[("algorithm", "pagerank"), ("graph", "g"), ("columnnames", "neo4j")]),
    )
    .err()
    .unwrap();
    assert_eq!(plan_message(error), "nutmeg: `columnNames` is `grust` or `gds`, got `neo4j`");
}

#[test]
fn a_write_names_its_graph_part_order_and_mapping() {
    let plan = plan_writer(
        SinkMode::Append,
        false,
        &options(&[
            ("graph", "g"),
            ("part", "NODES"),
            ("order", "asStaged"),
            ("idColumn", "person"),
            ("idcolumn", "who"),
        ]),
    )
    .unwrap();
    assert_eq!(plan.graph, "g");
    assert_eq!(plan.part, Part::Nodes);
    assert_eq!(plan.order, StageOrder::AsStaged);
    assert!(!plan.replace);
    assert_eq!(plan.mapping.id, Some("who".to_string()));
    assert_eq!(plan.mapping.source, None);

    let plan = plan_writer(SinkMode::Overwrite, false, &options(&[("graph", "g"), ("path", "p")])).unwrap();
    assert_eq!(plan.part, Part::Edges);
    assert_eq!(plan.order, StageOrder::Canonical);
    assert!(plan.replace);
}

#[test]
fn a_write_refuses_what_it_cannot_stage() {
    let error = plan_writer(SinkMode::Append, false, &options(&[("part", "edges")])).err().unwrap();
    assert_eq!(plan_message(error), "nutmeg: option `graph` names the graph to stage into");
    let error = plan_writer(SinkMode::Append, false, &options(&[("graph", "g"), ("part", "Vertices")]))
        .err()
        .unwrap();
    assert_eq!(plan_message(error), "nutmeg: `part` must be `nodes` or `edges`, got `vertices`");
    let error = plan_writer(SinkMode::Append, false, &options(&[("graph", "g"), ("weight", "w")]))
        .err()
        .unwrap();
    assert_eq!(plan_message(error), "nutmeg: unknown write option `weight`");
    match plan_writer(SinkMode::Append, true, &options(&[("graph", "g")])) {
        Err(NutmegError::NotImplemented(m)) => {
            assert_eq!(m, "nutmeg: writes take no partitioning, bucketing or sort order")
        }
        Err(e) => panic!("{e:?}"),
        Ok(_) => panic!("a partitioned write was planned"),
    }
    match plan_writer(SinkMode::ErrorIfExists, false, &options(&[("graph", "g")])) {
        Err(NutmegError::NotImplemented(m)) => assert_eq!(m, "nutmeg: writes are `append` or `overwrite`"),
        Err(e) => panic!("{e:?}"),
        Ok(_) => panic!("an errorIfExists write was planned"),
    }
}

#[test]
fn a_mapping_sets_only_its_own_keys() {
    let mut mapping = ColumnMapping::new();
    assert!(mapping.set("sourcecolumn", "from".to_string()));
    assert!(mapping.set("edgeidcolumn", "id".to_string()));
    assert!(!mapping.set("weightcolumn", "w".to_string()));
    assert_eq!(mapping.source, Some("from".to_string()));
    assert_eq!(mapping.edge_id, Some("id".to_string()));
    assert_eq!(mapping.target, None);
    let copy = mapping.duplicate();
    assert_eq!(copy.source, Some("from".to_string()));
}

#[test]
fn table_function_arguments_are_string_literals() {
    assert_eq!(literal_string(&Literal::Text("g".to_string()), 1).unwrap(), "g");
    let error = literal_string(&Literal::Other("42".to_string()), 2).err().unwrap();
    assert_eq!(plan_message(error), "nutmeg: argument 2 must be a string literal, got 42");
    assert!(no_arguments("nutmeg_graphs", 0).is_ok());
    let error = no_arguments("nutmeg_graphs", 1).err().unwrap();
    assert_eq!(plan_message(error), "nutmeg_graphs() takes no arguments");
}

#[test]
fn each_algorithm_has_a_snake_case_table_function() {
    let names = vec!["pageRank".to_string(), "bfs".to_string()];
    assert_eq!(
        sql_names(&names),
        ["nutmeg_page_rank", "nutmeg_bfs", "nutmeg_graphs", "nutmeg_memory", "nutmeg_reads"]
    );
}

#[test]
fn counts_become_int64_by_clamping_or_wrapping() {
    assert_eq!(clamped(7), 7);
    assert_eq!(clamped(usize::MAX), i64::MAX);
    assert_eq!(wrapped(7), 7);
    assert_eq!(wrapped(usize::MAX), -1);
}

#[test]
fn errors_show_their_kind_as_an_engine_does() {
    assert_eq!(NutmegError::Plan("x".into()).shown(), "Error during planning: x");
    assert_eq!(NutmegError::Execution("x".into()).shown(), "Execution error: x");
    assert_eq!(NutmegError::ResourcesExhausted("x".into()).shown(), "Resources exhausted: x");
    assert_eq!(NutmegError::Internal("x".into()).shown(), "Internal error: x");
    assert_eq!(
        NutmegError::NotImplemented("x".into()).shown(),
        "This feature is not implemented: x"
    );
    assert_eq!(NutmegError::Execution("x".into()).message(), "x");
}

#[test]
fn gds_names_rename_simultaneously_and_refuse_a_collision() {
    let names = vec!["triangles".to_string(), "triangleCount".to_string(), "nodeId".to_string()];
    let renamed = ColumnNames::Gds.rename_names(&names).unwrap();
    assert_eq!(renamed, ["triangleCount", "globalTriangleCount", "nodeId"]);
    assert_eq!(ColumnNames::Grust.rename_names(&names).unwrap(), names);
    let names = vec!["triangles".to_string(), "triangleCount".to_string(), "globalTriangleCount".to_string()];
    match ColumnNames::Gds.rename_names(&names) {
        Err(NutmegError::Execution(m)) => {
            assert_eq!(m, "nutmeg: `columnNames: gds` would name two columns `globalTriangleCount`")
        }
        other => panic!("{other:?}"),
    }
}

#[test]
fn the_size_formulas_saturate_and_round_up() {
    assert_eq!(sat_mul(3, 4), 12);
    assert_eq!(sat_mul(usize::MAX, 2), usize::MAX);
    assert_eq!(div_ceil(10, 4), 3);
    assert_eq!(div_ceil(8, 4), 2);
    assert_eq!(div_ceil(0, 4), 0);
    // Strings: 37 bytes a row plus 9/8 of the value bytes, rounded up.
    assert_eq!(column_key_bound(10, KeyColumn::Bytes { start: 0, end: 16 }), Some(370 + 18));
    assert_eq!(column_key_bound(10, KeyColumn::Boolean), Some(20));
    assert_eq!(column_key_bound(10, KeyColumn::Null), Some(10));
    assert_eq!(column_key_bound(10, KeyColumn::Fixed(8)), Some(90));
    assert_eq!(column_key_bound(10, KeyColumn::Unbounded), None);
    // The header, an offset per row and one more, then each column.
    assert_eq!(
        key_bytes_of(10, 100, 8, &vec![KeyColumn::Fixed(8), KeyColumn::Boolean]),
        Some(100 + 11 * 8 + 90 + 20)
    );
    assert_eq!(key_bytes_of(10, 100, 8, &vec![KeyColumn::Fixed(8), KeyColumn::Unbounded]), None);
    // One sorted batch: each column's null bitmap and 272 bytes of rounding.
    assert_eq!(copy_bound_of(100, 2, 1000), 1000 + 2 * (13 + 272));
}

#[test]
fn positional_arguments_are_taken_out_by_name() {
    let d = definition_of("multiSourceBfs").unwrap();
    let options = parse_options(r#"{"sources": " a, b ,c", "orientation": "undirected"}"#).unwrap();
    let (args, rest) = call_arguments("multiSourceBfs", &d, &options).unwrap();
    match &args[..] {
        [CallArgument::Texts(t)] => assert_eq!(t, &["a", "b", "c"]),
        other => panic!("{other:?}"),
    }
    let mut expected = serde_json::Map::new();
    expected.insert("orientation".to_string(), serde_json::Value::String("undirected".to_string()));
    assert_eq!(rest.to_json(), serde_json::Value::Object(expected));

    let options = parse_options(r#"{"sources": ["a", "b"]}"#).unwrap();
    let (args, rest) = call_arguments("multiSourceBfs", &d, &options).unwrap();
    match &args[..] {
        [CallArgument::Texts(t)] => assert_eq!(t, &["a", "b"]),
        other => panic!("{other:?}"),
    }
    assert_eq!(rest.to_json(), serde_json::Value::Object(serde_json::Map::new()));

    let d = definition_of("bfs").unwrap();
    let options = parse_options(r#"{"source": "a"}"#).unwrap();
    match &call_arguments("bfs", &d, &options).unwrap().0[..] {
        [CallArgument::Text(t)] => assert_eq!(t, "a"),
        other => panic!("{other:?}"),
    }
    match call_arguments("bfs", &d, &parse_options("{}").unwrap()) {
        Err(NutmegError::Plan(m)) => assert_eq!(m, "nutmeg: `bfs` needs `source`"),
        Err(e) => panic!("{e:?}"),
        Ok(_) => panic!("a missing source was accepted"),
    }
}

#[test]
fn a_probe_names_its_nodes_in_turn_and_its_property_columns() {
    let object = |items: &[(&str, serde_json::Value)]| {
        let mut m = serde_json::Map::new();
        for (k, v) in items {
            m.insert(k.to_string(), v.clone());
        }
        serde_json::Value::Object(m)
    };
    let text = |s: &str| serde_json::Value::String(s.to_string());

    let d = definition_of("astar").unwrap();
    let declared = vec![("latitudeProperty".to_string(), PropertyKind::Number)];
    let options = parse_options(r#"{"orientation": "undirected", "source": "z"}"#).unwrap();
    let probed = probe_options(&d, &declared, options);
    assert_eq!(
        probed.to_json(),
        object(&[
            ("latitudeProperty", text("probe.latitudeProperty.number")),
            ("orientation", text("undirected")),
            ("source", text("a")),
            ("target", text("b")),
        ])
    );

    let d = definition_of("multiSourceBfs").unwrap();
    let probed = probe_options(&d, &vec![], Options::new());
    assert_eq!(
        probed.to_json(),
        object(&[("sources", serde_json::Value::Array(vec![text("a")]))])
    );
}

#[test]
fn an_algorithm_is_found_in_any_case_with_its_declared_columns() {
    let lower = nutmeg::runs::output_names("pagerank").unwrap();
    let upper = nutmeg::runs::output_names("PAGERANK").unwrap();
    assert_eq!(lower, upper);
    assert!(!lower.is_empty());
    let d = definition_of("PageRank").unwrap();
    let declared: Vec<String> = d.outputs.iter().map(|o| o.name.clone()).collect();
    assert_eq!(declared, lower);
    match definition_of("noSuchKernel") {
        Err(NutmegError::Execution(m)) => assert_eq!(m, "nutmeg: unknown algorithm `noSuchKernel`"),
        other => panic!("unexpected {other:?}"),
    }
}

#[test]
fn a_projection_key_lists_the_projection_options_in_order() {
    let args = nutmeg::calls::validate("degree", &Options::new()).unwrap();
    let key = nutmeg::runs::projection_key(&args);
    assert!(key.starts_with("{\"defaultWeight\": "), "{key}");
    assert!(key.ends_with('}'), "{key}");
    let mut at = 0;
    for name in ["\"defaultWeight\": ", "\"nodeLabels\": ", "\"orientation\": ", "\"relationshipTypes\": ", "\"weightProperty\": "] {
        let found = key[at..].find(name).expect(name);
        at += found + name.len();
    }
}

#[test]
fn probe_columns_are_keyed_once_each() {
    let columns = nutmeg::calls::probe_columns().unwrap();
    let mut keys: Vec<&String> = columns.iter().map(|(k, _)| k).collect();
    let n = keys.len();
    keys.sort();
    keys.dedup();
    assert_eq!(keys.len(), n);
    assert!(columns.iter().all(|(k, _)| k.starts_with("probe.")));
}
