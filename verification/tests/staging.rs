use std::collections::BTreeMap;
use std::sync::Arc;

use arrow::array::{
    Array, ArrayRef, BooleanArray, FixedSizeListArray, Float64Array, Int32Array, Int64Array,
    StringArray,
};
use arrow::datatypes::{DataType, Field, Float32Type, Schema};
use arrow::record_batch::RecordBatch;

use nutmeg::calls::{options_from_strings, parse_options, probe_columns, validate, PropertyKind};
use nutmeg::catalog::{algorithm_names, definitions};
use nutmeg::error::NutmegError;
use nutmeg::frame::Batch;
use nutmeg::layout::{normalize_edges, ColumnMapping};
use nutmeg::options::Options;
use nutmeg::order::{StageOrder, ORDER_OPTION};
use nutmeg::registry::{run, Registry};
use nutmeg::runs::definition_of;
use nutmeg::sizes::{held_bytes, sorted_copy_bound};
use nutmeg::store::{GraphInfo, MEMORY_BYTES_VARIABLE};
use nutmeg::tables::AlgorithmTable;
use nutmeg::Part;

fn edges(source: &[&str], target: &[&str], weight: Option<&[f64]>) -> Batch {
    let mut fields = vec![
        Field::new("src", DataType::Utf8, false),
        Field::new("dst", DataType::Utf8, false),
    ];
    let mut columns: Vec<ArrayRef> = vec![
        Arc::new(StringArray::from(source.to_vec())),
        Arc::new(StringArray::from(target.to_vec())),
    ];
    if let Some(w) = weight {
        fields.push(Field::new("w", DataType::Float64, false));
        columns.push(Arc::new(Float64Array::from(w.to_vec())));
    }
    Batch { inner: RecordBatch::try_new(Arc::new(Schema::new(fields)), columns).unwrap() }
}

fn batch(fields: Vec<Field>, columns: Vec<ArrayRef>) -> Batch {
    Batch { inner: RecordBatch::try_new(Arc::new(Schema::new(fields)), columns).unwrap() }
}

fn registry() -> Registry {
    Registry::new(8usize << 30)
}

fn options(json: &str) -> Options {
    parse_options(json).unwrap()
}

fn no_options() -> Options {
    Options::new()
}

/// The probe's three nodes, with a column for every property option a
/// registered kernel declares.
fn probe_nodes() -> Batch {
    let mut fields = vec![
        Field::new("node_id", DataType::Utf8, false),
        Field::new("label", DataType::Utf8, true),
    ];
    let mut columns: Vec<ArrayRef> = vec![
        Arc::new(StringArray::from(vec!["a", "b", "c"])),
        Arc::new(StringArray::from(vec!["", "", ""])),
    ];
    for (key, kind) in probe_columns().unwrap() {
        let values: ArrayRef = match kind {
            PropertyKind::Number => Arc::new(Float64Array::from(vec![0.0, 0.5, 1.0])),
            PropertyKind::Integer => Arc::new(Int64Array::from(vec![0, 1, 0])),
            PropertyKind::Category => Arc::new(StringArray::from(vec!["x", "y", "x"])),
            PropertyKind::Vector => Arc::new(
                FixedSizeListArray::from_iter_primitive::<Float32Type, _, _>(
                    vec![
                        Some(vec![Some(1.0), Some(0.0)]),
                        Some(vec![Some(0.0), Some(1.0)]),
                        Some(vec![Some(1.0), Some(1.0)]),
                    ],
                    2,
                ),
            ),
        };
        fields.push(Field::new(format!("property.{key}"), values.data_type().clone(), true));
        columns.push(values);
        fields.push(Field::new(format!("present.{key}"), DataType::Boolean, false));
        columns.push(Arc::new(BooleanArray::from(vec![true, true, true])));
    }
    batch(fields, columns)
}

fn stage(registry: &mut Registry, name: &str, part: Part, batches: Vec<Batch>) -> usize {
    registry
        .stage(name, part, &batches, &ColumnMapping::new(), true, StageOrder::Canonical)
        .unwrap()
}

fn info(registry: &Registry, name: &str) -> Option<GraphInfo> {
    registry.list().into_iter().find(|g| g.name == name)
}

fn staged(registry: &Registry, name: &str, part: Part) -> Vec<RecordBatch> {
    registry
        .store()
        .entry(name)
        .unwrap()
        .part(part)
        .share_batches()
        .into_iter()
        .map(|b| b.inner)
        .collect()
}

fn node_batches(registry: &Registry, name: &str) -> Vec<RecordBatch> {
    let store = registry.store();
    let (nodes, _admitted) = store.node_batches(name, store.pool()).unwrap();
    nodes.into_iter().map(|b| b.inner).collect()
}

fn strings_of(batches: &[RecordBatch], column: &str) -> Vec<String> {
    let mut out = Vec::new();
    for b in batches {
        let c = b.column_by_name(column).unwrap();
        let c = c.as_any().downcast_ref::<StringArray>().unwrap();
        out.extend(c.iter().map(|v| v.unwrap().to_string()));
    }
    out
}

fn floats_of(batch: &RecordBatch, column: &str) -> Vec<f64> {
    let c = batch.column_by_name(column).unwrap();
    c.as_any().downcast_ref::<Float64Array>().unwrap().iter().map(|v| v.unwrap()).collect()
}

/// Every cell of every result row as text, rows in the order they came; a
/// failed run as its message.
fn rendered(result: Result<Vec<Batch>, NutmegError>) -> Vec<String> {
    let batches = match result {
        Ok(batches) => batches,
        Err(error) => return vec![format!("error: {}", error.shown())],
    };
    let options = arrow::util::display::FormatOptions::default().with_null("null");
    let mut rows = Vec::new();
    for batch in &batches {
        let formatters: Vec<_> = batch
            .inner
            .columns()
            .iter()
            .map(|c| arrow::util::display::ArrayFormatter::try_new(c.as_ref(), &options).unwrap())
            .collect();
        for row in 0..batch.inner.num_rows() {
            let cells: Vec<String> = formatters.iter().map(|f| f.value(row).to_string()).collect();
            rows.push(cells.join(" | "));
        }
    }
    rows
}

#[test]
fn grust_sail_table_columns_are_recognized_without_a_mapping() {
    let batch = batch(
        vec![
            Field::new("id", DataType::Utf8, false),
            Field::new("src_id", DataType::Utf8, false),
            Field::new("dst_id", DataType::Utf8, false),
            Field::new("edge_type", DataType::Utf8, false),
            Field::new("props", DataType::Utf8, false),
            Field::new("hops", DataType::Int32, true),
        ],
        vec![
            Arc::new(StringArray::from(vec!["e1"])),
            Arc::new(StringArray::from(vec!["a"])),
            Arc::new(StringArray::from(vec!["b"])),
            Arc::new(StringArray::from(vec!["KNOWS"])),
            Arc::new(StringArray::from(vec!["{}"])),
            Arc::new(Int32Array::from(vec![Some(3)])),
        ],
    );
    let out = normalize_edges(&batch, &ColumnMapping::new()).unwrap();
    let names: Vec<_> = out.inner.schema().fields().iter().map(|f| f.name().clone()).collect();
    assert_eq!(
        names,
        ["source", "target", "label", "edge_id", "property.hops", "present.hops"]
    );
    assert_eq!(out.inner.column(4).data_type(), &DataType::Int64);
}

#[test]
fn unknown_options_are_rejected_by_grusts_validator() {
    let error = validate("pagerank", &options(r#"{"dampng": 0.5}"#)).unwrap_err().shown();
    assert!(error.contains("dampng"), "{error}");
    let error = validate("bfs", &no_options()).unwrap_err().shown();
    assert!(error.contains("needs `source`"), "{error}");
}

#[test]
fn string_options_take_the_declared_type_and_spelling() {
    let options = options_from_strings(
        "pagerank",
        vec![
            ("maxiterations".to_string(), "20".to_string()),
            ("damping".to_string(), "0.9".to_string()),
            ("relationshiptypes".to_string(), "[\"KNOWS\"]".to_string()),
        ],
    )
    .unwrap();
    assert_eq!(options.get("maxIterations").unwrap().json, serde_json::Value::from(20));
    assert_eq!(options.get("damping").unwrap().json, serde_json::Value::from(0.9));
    assert_eq!(
        options.get("relationshipTypes").unwrap().json,
        serde_json::Value::Array(vec![serde_json::Value::from("KNOWS")])
    );
    validate("pagerank", &options).unwrap();
    // A numeric-looking node id stays a string.
    let options =
        options_from_strings("bfs", vec![("source".to_string(), "42".to_string())]).unwrap();
    assert_eq!(options.get("source").unwrap().json, serde_json::Value::from("42"));
}

#[test]
fn projections_are_cached_per_option_set_and_dropped_on_restage() {
    let mut registry = registry();
    let name = "cache-test";
    stage(&mut registry, name, Part::Edges, vec![edges(&["a", "b"], &["b", "c"], None)]);
    let directed = validate("wcc", &no_options()).unwrap();
    let undirected = validate("wcc", &options(r#"{"orientation": "undirected"}"#)).unwrap();
    registry.projection(name, &directed).unwrap();
    registry.projection(name, &directed).unwrap();
    registry.projection(name, &undirected).unwrap();
    assert_eq!(info(&registry, name).unwrap().projections, 2);
    registry
        .stage(
            name,
            Part::Edges,
            &vec![edges(&["c"], &["d"], None)],
            &ColumnMapping::new(),
            false,
            StageOrder::Canonical,
        )
        .unwrap();
    assert_eq!(info(&registry, name).unwrap().projections, 0);
    assert_eq!(info(&registry, name).unwrap().staged_edges, 3);
    assert!(registry.drop(name));
}

#[test]
fn explicit_nodes_make_unknown_endpoints_an_error() {
    let mut registry = registry();
    let name = "explicit-nodes";
    let nodes = batch(
        vec![Field::new("id", DataType::Int32, false)],
        vec![Arc::new(Int32Array::from(vec![1, 2]))],
    );
    stage(&mut registry, name, Part::Nodes, vec![nodes]);
    stage(&mut registry, name, Part::Edges, vec![edges(&["1"], &["9"], None)]);
    let error = registry
        .projection(name, &validate("degree", &no_options()).unwrap())
        .err()
        .expect("unknown endpoint")
        .shown();
    assert!(error.contains("missing target"), "{error}");
    stage(&mut registry, name, Part::Edges, vec![edges(&["1"], &["2"], None)]);
    registry.projection(name, &validate("degree", &no_options()).unwrap()).unwrap();
}

#[test]
fn staged_node_columns_reach_the_kernels_that_read_them() {
    let mut registry = registry();
    let name = "node-properties";
    let nodes = batch(
        vec![
            Field::new("id", DataType::Utf8, false),
            // Int32 and Float32: narrower than the kernels read, so staging casts.
            Field::new("community", DataType::Int32, false),
            Field::new("lat", DataType::Float32, false),
            Field::new("lon", DataType::Float32, false),
        ],
        vec![
            Arc::new(StringArray::from(vec!["f", "e", "d", "c", "b", "a"])),
            Arc::new(Int32Array::from(vec![1, 1, 1, 0, 0, 0])),
            Arc::new(arrow::array::Float32Array::from(vec![10.0; 6])),
            Arc::new(arrow::array::Float32Array::from(vec![20.0; 6])),
        ],
    );
    stage(&mut registry, name, Part::Nodes, vec![nodes]);
    stage(
        &mut registry,
        name,
        Part::Edges,
        vec![edges(
            &["a", "b", "c", "c", "d", "e", "f"],
            &["b", "c", "a", "d", "e", "f", "d"],
            None,
        )],
    );
    let modularity = options(r#"{"orientation": "undirected", "communityProperty": "community"}"#);
    let batches =
        run(&mut registry, "modularity", name, &validate("modularity", &modularity).unwrap())
            .unwrap();
    let batch = &batches[0].inner;
    let sizes = batch.column_by_name("size").unwrap();
    let sizes = sizes.as_any().downcast_ref::<Int64Array>().unwrap();
    assert_eq!(batch.num_rows(), 2, "one row per community");
    assert!(sizes.iter().all(|size| size == Some(3)), "{sizes:?}");
    let total = floats_of(batch, "totalModularity")[0];
    assert!((total - 5.0 / 14.0).abs() < 1e-12, "modularity {total}");

    let astar = options(
        r#"{"source": "a", "target": "f", "orientation": "undirected",
            "latitudeProperty": "lat", "longitudeProperty": "lon"}"#,
    );
    let batches = run(&mut registry, "astar", name, &validate("astar", &astar).unwrap()).unwrap();
    let rows: usize = batches.iter().map(|b| b.inner.num_rows()).sum();
    // a - c - d - f: three hops, four nodes on the path.
    assert_eq!(rows, 4);
    assert_eq!(floats_of(&batches[0].inner, "totalCost")[0], 3.0);
    assert!(registry.drop(name));
}

#[test]
fn link_prediction_and_all_pairs_serve_their_values() {
    let mut registry = registry();
    let name = "link-prediction";
    let nodes = batch(
        vec![
            Field::new("id", DataType::Utf8, false),
            Field::new("community", DataType::Int32, false),
        ],
        vec![
            Arc::new(StringArray::from(vec!["a", "b", "c", "d"])),
            Arc::new(Int32Array::from(vec![0, 0, 0, 1])),
        ],
    );
    stage(&mut registry, name, Part::Nodes, vec![nodes]);
    stage(&mut registry, name, Part::Edges, vec![edges(&["a", "b", "c"], &["b", "c", "d"], None)]);
    let text = |batch: &RecordBatch, c: &str| -> Vec<String> {
        let column = arrow::compute::cast(batch.column_by_name(c).unwrap(), &DataType::Utf8).unwrap();
        let column = column.as_any().downcast_ref::<StringArray>().unwrap();
        column.iter().map(|v| v.unwrap().to_string()).collect()
    };
    let mut scores = |metric: &str| {
        let args = validate(
            "linkPrediction",
            &options(&format!(
                r#"{{"orientation": "undirected", "metric": "{metric}", "communityProperty": "community"}}"#
            )),
        )
        .unwrap();
        let mut out = Vec::new();
        for batch in run(&mut registry, "linkPrediction", name, &args).unwrap() {
            let batch = &batch.inner;
            let (first, second, score) =
                (text(batch, "node1"), text(batch, "node2"), floats_of(batch, "score"));
            for row in 0..batch.num_rows() {
                out.push((first[row].clone(), second[row].clone(), score[row]));
            }
        }
        out
    };
    let pair = |a: &str, b: &str, s: f64| (a.to_string(), b.to_string(), s);
    assert_eq!(scores("sameCommunity"), [pair("a", "c", 1.0), pair("b", "d", 0.0)]);
    assert_eq!(scores("commonNeighbors"), [pair("a", "c", 1.0), pair("b", "d", 1.0)]);

    let mut distances = |json: &str| {
        let args = validate("allPairsShortestPaths", &options(json)).unwrap();
        let mut out = BTreeMap::new();
        for batch in run(&mut registry, "allPairsShortestPaths", name, &args).unwrap() {
            let batch = &batch.inner;
            let (source, target, distance) = (
                text(batch, "sourceNodeId"),
                text(batch, "targetNodeId"),
                floats_of(batch, "distance"),
            );
            for row in 0..batch.num_rows() {
                out.insert((source[row].clone(), target[row].clone()), distance[row]);
            }
        }
        out
    };
    let all = distances("{}");
    let key = |a: &str, b: &str| (a.to_string(), b.to_string());
    assert_eq!(all.get(&key("a", "b")), Some(&1.0), "{all:?}");
    assert_eq!(all.get(&key("a", "c")), Some(&2.0), "{all:?}");
    assert_eq!(all.get(&key("a", "d")), Some(&3.0), "{all:?}");
    assert_eq!(all.get(&key("b", "d")), Some(&2.0), "{all:?}");
    let from_b = distances(r#"{"sourceNodes": ["b"]}"#);
    assert!(!from_b.is_empty());
    assert!(from_b.keys().all(|(source, _)| source == "b"), "{from_b:?}");
    assert_eq!(from_b.get(&key("b", "d")), Some(&2.0), "{from_b:?}");
    assert!(registry.drop(name));
}

#[test]
fn declared_nullable_outputs_are_nullable_whatever_the_rows_hold() {
    let mut registry = registry();
    let probe = probe_nodes();
    let name = "nullable-outputs";
    let nodes = batch(
        vec![
            Field::new("id", DataType::Utf8, false),
            Field::new("community", DataType::Int32, false),
        ],
        vec![
            Arc::new(StringArray::from(vec!["a", "b", "c", "d"])),
            Arc::new(Int32Array::from(vec![0, 0, 0, 1])),
        ],
    );
    stage(&mut registry, name, Part::Nodes, vec![nodes]);
    stage(
        &mut registry,
        name,
        Part::Edges,
        vec![edges(&["a", "b", "c"], &["b", "c", "a"], Some(&[1.0, 2.0, 3.0]))],
    );
    let cases: Vec<(&str, &str, &str)> = vec![
        ("degree", "{}", "strength"),
        ("bfs", r#"{"source": "a"}"#, "distance"),
        ("dijkstra", r#"{"source": "a", "weightProperty": "w"}"#, "distance"),
        ("multiSourceBfs", r#"{"sources": ["a"]}"#, "distance"),
        ("longestPath", "{}", "distance"),
        ("localClusteringCoefficient", r#"{"orientation": "undirected"}"#, "coefficient"),
        (
            "modularity",
            r#"{"orientation": "undirected", "communityProperty": "community"}"#,
            "conductance",
        ),
        ("bellmanFord", r#"{"source": "a", "weightProperty": "w"}"#, "distance"),
    ];
    // The cases cover exactly the kernels that declare a nullable output.
    let declared: BTreeMap<String, Vec<String>> = definitions()
        .into_iter()
        .zip(algorithm_names())
        .map(|(d, short)| {
            let nullable: Vec<String> =
                d.outputs.iter().filter(|f| f.nullable).map(|f| f.name.clone()).collect();
            (short, nullable)
        })
        .filter(|(_, nullable)| !nullable.is_empty())
        .collect();
    let covered: BTreeMap<String, Vec<String>> = cases
        .iter()
        .map(|(kernel, _, column)| (kernel.to_string(), vec![column.to_string()]))
        .collect();
    assert_eq!(covered, declared);

    let mut read = |graph: &str, kernel: &str, json: &str| {
        let table = AlgorithmTable::new(&mut registry, kernel, graph.to_string(), &options(json), &probe)
            .unwrap_or_else(|e| panic!("{kernel}: {}", e.shown()));
        let batches = table.batches(&mut registry).unwrap_or_else(|e| panic!("{kernel}: {}", e.shown()));
        let schema: Vec<Field> = table.schema().iter().map(|f| f.inner.clone()).collect();
        (schema, batches)
    };
    for (kernel, json, column) in &cases {
        let (schema, batches) = read(name, kernel, json);
        let definition = definition_of(kernel).unwrap();
        for (field, declared) in schema.iter().zip(&definition.outputs) {
            assert_eq!(field.is_nullable(), declared.nullable, "{kernel}.{}", field.name());
        }
        let nulls: usize =
            batches.iter().map(|b| b.inner.column_by_name(column).unwrap().null_count()).sum();
        assert!(nulls > 0, "{kernel}: `{column}` holds no null on this graph");
        for batch in &batches {
            let got: Vec<Field> =
                batch.inner.schema().fields().iter().map(|f| f.as_ref().clone()).collect();
            assert_eq!(got, schema, "{kernel}");
        }
    }

    // The same columns full, on the cycle alone.
    let full = "nullable-outputs-full";
    read_full(&mut registry, full, &probe);
    assert!(registry.drop(name));
    assert!(registry.drop(full));
}

fn read_full(registry: &mut Registry, full: &str, probe: &Batch) {
    stage(
        registry,
        full,
        Part::Edges,
        vec![edges(&["a", "b", "c"], &["b", "c", "a"], Some(&[1.0, 2.0, 3.0]))],
    );
    for (kernel, json, column) in [
        ("degree", r#"{"weightProperty": "w"}"#, "strength"),
        ("dijkstra", r#"{"source": "a", "weightProperty": "w"}"#, "distance"),
    ] {
        let table =
            AlgorithmTable::new(registry, kernel, full.to_string(), &options(json), probe).unwrap();
        let batches = table.batches(registry).unwrap();
        let nulls: usize =
            batches.iter().map(|b| b.inner.column_by_name(column).unwrap().null_count()).sum();
        assert_eq!(nulls, 0, "{kernel}: `{column}` should be full here");
        let field = table.schema().iter().find(|f| f.inner.name() == column).unwrap();
        assert!(field.inner.is_nullable(), "{kernel}");
        for batch in &batches {
            assert!(batch.inner.schema().field_with_name(column).unwrap().is_nullable(), "{kernel}");
        }
    }
}

#[test]
fn canonical_order_is_text_order_on_ids_and_breaks_ties_by_the_other_columns() {
    let mut registry = registry();
    let name = "text-order";
    let nodes = batch(
        vec![Field::new("id", DataType::Int32, false)],
        vec![Arc::new(Int32Array::from(vec![9, 10, 2]))],
    );
    stage(&mut registry, name, Part::Nodes, vec![nodes]);
    assert_eq!(strings_of(&staged(&registry, name, Part::Nodes), "node_id"), ["10", "2", "9"]);
    let weighted = edges(&["9", "9", "10", "9"], &["2", "2", "9", "10"], Some(&[3.0, 1.0, 5.0, 2.0]));
    stage(&mut registry, name, Part::Edges, vec![Batch { inner: weighted.inner.clone() }]);
    let sorted = staged(&registry, name, Part::Edges);
    assert_eq!(strings_of(&sorted, "source"), ["10", "9", "9", "9"]);
    assert_eq!(strings_of(&sorted, "target"), ["9", "10", "2", "2"]);
    assert_eq!(floats_of(&sorted[0], "property.w"), [5.0, 2.0, 1.0, 3.0]);

    stage(&mut registry, name, Part::Nodes, vec![]);
    assert_eq!(strings_of(&node_batches(&registry, name), "node_id"), ["10", "2", "9"]);
    // As staged, rows keep their arrival order, and derived nodes the order
    // their ids first appear.
    registry
        .stage(name, Part::Edges, &vec![weighted], &ColumnMapping::new(), true, StageOrder::AsStaged)
        .unwrap();
    assert_eq!(strings_of(&staged(&registry, name, Part::Edges), "source"), ["9", "9", "10", "9"]);
    assert_eq!(strings_of(&node_batches(&registry, name), "node_id"), ["9", "2", "10"]);
    assert!(registry.drop(name));
}

#[test]
fn appends_of_different_shapes_are_sorted_as_one_part() {
    let mut registry = registry();
    let mapping = ColumnMapping::new();
    let weighted = edges(&["b", "a"], &["c", "b"], Some(&[2.0, 1.0]));
    let bare = edges(&["a", "c"], &["c", "a"], None);
    let mut seen = Vec::new();
    for (name, first, second) in [("shapes-1", &weighted, &bare), ("shapes-2", &bare, &weighted)] {
        registry
            .stage(
                name,
                Part::Edges,
                &vec![Batch { inner: first.inner.clone() }],
                &mapping,
                true,
                StageOrder::Canonical,
            )
            .unwrap();
        registry
            .stage(
                name,
                Part::Edges,
                &vec![Batch { inner: second.inner.clone() }],
                &mapping,
                false,
                StageOrder::Canonical,
            )
            .unwrap();
        let args = validate("degree", &options(r#"{"weightProperty": "w", "defaultWeight": 7.0}"#))
            .unwrap();
        let degree = rendered(run(&mut registry, "degree", name, &args));
        seen.push((staged(&registry, name, Part::Edges), degree));
        assert!(registry.drop(name));
    }
    assert_eq!(seen[0], seen[1]);
    let present = seen[0].0[0].column_by_name("present.w").unwrap();
    let present: Vec<_> = present.as_any().downcast_ref::<BooleanArray>().unwrap().iter().collect();
    // a→b (w 1), a→c (none), b→c (w 2), c→a (none).
    assert_eq!(present, [Some(true), Some(false), Some(true), Some(false)]);

    let name = "shapes-conflict";
    let integer = batch(
        vec![
            Field::new("src", DataType::Utf8, false),
            Field::new("dst", DataType::Utf8, false),
            Field::new("w", DataType::Int32, false),
        ],
        vec![
            Arc::new(StringArray::from(vec!["a"])),
            Arc::new(StringArray::from(vec!["b"])),
            Arc::new(Int32Array::from(vec![1])),
        ],
    );
    registry
        .stage(name, Part::Edges, &vec![weighted], &mapping, true, StageOrder::Canonical)
        .unwrap();
    let error = registry
        .stage(
            name,
            Part::Edges,
            &vec![Batch { inner: integer.inner.clone() }],
            &mapping,
            false,
            StageOrder::Canonical,
        )
        .unwrap_err()
        .shown();
    assert!(error.contains("property.w") && error.contains("asStaged"), "{error}");
    // The refused write left the rows staged before it.
    assert_eq!(strings_of(&staged(&registry, name, Part::Edges), "source"), ["a", "b"]);
    let staged_rows = registry
        .stage(name, Part::Edges, &vec![integer], &mapping, false, StageOrder::AsStaged)
        .unwrap();
    assert_eq!(staged_rows, 3);
    assert!(registry.drop(name));
}

#[test]
fn the_order_option_parses_in_either_case() {
    assert_eq!(StageOrder::parse("canonical").unwrap(), StageOrder::Canonical);
    assert_eq!(StageOrder::parse("asStaged").unwrap(), StageOrder::AsStaged);
    assert_eq!(StageOrder::parse(" ASSTAGED ").unwrap(), StageOrder::AsStaged);
    assert_eq!(StageOrder::default(), StageOrder::Canonical);
    let error = StageOrder::parse("sorted").unwrap_err().shown();
    assert!(error.contains(ORDER_OPTION) && error.contains("asStaged"), "{error}");
}

// ---- The memory budget over staging, sorting and projections ----

/// `rows` edges `n{i}` → `n{(i * 7 + 1) % rows}` numbered from `first`,
/// weighted, in reverse id order so a canonical write has sorting to do.
fn budget_edges(first: usize, rows: usize) -> Batch {
    let ids: Vec<usize> = (first..first + rows).rev().collect();
    let source: Vec<String> = ids.iter().map(|i| format!("n{i:08}")).collect();
    let target: Vec<String> =
        ids.iter().map(|i| format!("n{:08}", first + (i * 7 + 1) % rows)).collect();
    let source: Vec<&str> = source.iter().map(String::as_str).collect();
    let target: Vec<&str> = target.iter().map(String::as_str).collect();
    let weight: Vec<f64> = ids.iter().map(|i| (i % 5) as f64).collect();
    edges(&source, &target, Some(&weight))
}

fn copy(batch: &Batch) -> Batch {
    Batch { inner: batch.inner.clone() }
}

fn slice(batch: &Batch, offset: usize, length: usize) -> Batch {
    Batch { inner: batch.inner.slice(offset, length) }
}

/// What one write costs at its peak, and what it holds after, measured on a
/// budget that cannot refuse it.
fn cost(batch: &Batch, order: StageOrder) -> (usize, usize) {
    let mut registry = Registry::new(usize::MAX);
    registry
        .stage("cost", Part::Edges, &vec![copy(batch)], &ColumnMapping::new(), true, order)
        .unwrap();
    let memory = registry.memory().unwrap();
    (memory.peak_bytes, memory.used_bytes)
}

#[test]
fn a_write_over_the_budget_is_refused_and_leaves_the_graph_as_it_was() {
    let small = budget_edges(0, 200);
    let large = budget_edges(1_000, 20_000);
    let (small_peak, small_held) = cost(&small, StageOrder::Canonical);
    let (large_peak, _) = cost(&large, StageOrder::Canonical);
    assert!(large_peak > 20 * small_peak, "{large_peak} vs {small_peak}");
    let limit = 10 * small_peak;
    let mut registry = Registry::new(limit);
    let mapping = ColumnMapping::new();
    let name = "refused";
    registry
        .stage(name, Part::Edges, &vec![small], &mapping, true, StageOrder::Canonical)
        .unwrap();
    let projection = registry.projection(name, &validate("wcc", &no_options()).unwrap()).unwrap();
    drop(projection);
    let before_rows = staged(&registry, name, Part::Edges);
    let before = info(&registry, name).unwrap();
    let used_before = registry.memory().unwrap().used_bytes;
    assert_eq!(before.staged_bytes, small_held);
    assert_eq!(before.projections, 1);
    assert!(used_before > before.staged_bytes, "the projection is admitted too");

    for (replace, order) in [
        (false, StageOrder::Canonical),
        (true, StageOrder::Canonical),
        (false, StageOrder::AsStaged),
        (true, StageOrder::AsStaged),
    ] {
        let error = registry
            .stage(name, Part::Edges, &vec![copy(&large)], &mapping, replace, order)
            .unwrap_err();
        let message = error.shown();
        assert!(matches!(error, NutmegError::ResourcesExhausted(_)), "{message}");
        for expected in ["`refused`", "its edges", &format!("{limit}-byte"), MEMORY_BYTES_VARIABLE] {
            assert!(message.contains(expected), "{expected} in {message}");
        }
        let after = info(&registry, name).unwrap();
        assert_eq!(staged(&registry, name, Part::Edges), before_rows, "replace: {replace}, {order:?}");
        assert_eq!(after.revision, before.revision);
        assert_eq!(after.staged_edges, 200);
        assert_eq!(after.staged_bytes, before.staged_bytes);
        assert_eq!(after.projections, 1, "the cached projection survives");
        assert_eq!(registry.memory().unwrap().used_bytes, used_before);
    }

    let error = registry
        .stage("never-staged", Part::Edges, &vec![large], &mapping, true, StageOrder::Canonical)
        .unwrap_err()
        .shown();
    assert!(error.contains("`never-staged`"), "{error}");
    assert!(info(&registry, "never-staged").is_none());
    assert_eq!(registry.memory().unwrap().used_bytes, used_before);
}

#[test]
fn the_sorts_working_space_is_admitted_before_the_sort() {
    let batch = budget_edges(0, 5_000);
    let (as_staged, as_staged_held) = cost(&batch, StageOrder::AsStaged);
    let (canonical, canonical_held) = cost(&batch, StageOrder::Canonical);
    // As staged, a write holds its renamed rows and nothing more.
    assert_eq!(as_staged, as_staged_held);
    // Sorted, it also needs the copy and the permutation at once.
    assert!(canonical > as_staged + as_staged_held / 2, "{canonical} vs {as_staged}");
    let limit = (as_staged + canonical) / 2;
    let mut registry = Registry::new(limit);
    let mapping = ColumnMapping::new();
    let error = registry
        .stage("sorted", Part::Edges, &vec![copy(&batch)], &mapping, true, StageOrder::Canonical)
        .unwrap_err()
        .shown();
    assert!(error.contains("sort's working space") && error.contains("asStaged"), "{error}");
    assert!(info(&registry, "sorted").is_none());
    assert_eq!(registry.memory().unwrap().used_bytes, 0);
    let rows = registry
        .stage("sorted", Part::Edges, &vec![copy(&batch)], &mapping, true, StageOrder::AsStaged)
        .unwrap();
    assert_eq!(rows, 5_000);
    assert_eq!(info(&registry, "sorted").unwrap().staged_bytes, as_staged_held);

    // What a sorted part is charged is what it keeps alive.
    let mut sorted = Registry::new(usize::MAX);
    sorted.stage("s", Part::Edges, &vec![batch], &mapping, true, StageOrder::Canonical).unwrap();
    let part: Vec<Batch> = staged(&sorted, "s", Part::Edges).into_iter().map(|inner| Batch { inner }).collect();
    let held = held_bytes(&part);
    assert_eq!(info(&sorted, "s").unwrap().staged_bytes, canonical_held);
    assert_eq!(canonical_held, held);
}

#[test]
fn held_bytes_counts_each_allocation_once_at_its_capacity() {
    let batch = budget_edges(0, 1_000);
    let whole = held_bytes(&vec![copy(&batch)]);
    assert!(whole >= batch.inner.get_array_memory_size() / 2, "{whole}");
    let halves = vec![slice(&batch, 0, 500), slice(&batch, 500, 500)];
    assert_eq!(held_bytes(&halves), whole);
    assert_eq!(held_bytes(&vec![slice(&batch, 0, 10)]), whole);
    assert_eq!(held_bytes(&vec![copy(&batch), copy(&batch)]), whole);

    // Staged as they are, ten rows sliced from a thousand keep the thousand;
    // sorted, they are copied compactly and keep only themselves.
    let mut registry = Registry::new(usize::MAX);
    let mapping = ColumnMapping::new();
    registry
        .stage("slice", Part::Edges, &vec![slice(&batch, 0, 10)], &mapping, true, StageOrder::AsStaged)
        .unwrap();
    let kept = info(&registry, "slice").unwrap().staged_bytes;
    assert!(kept >= whole / 2, "{kept} of {whole}");
    registry
        .stage("slice", Part::Edges, &vec![slice(&batch, 0, 10)], &mapping, true, StageOrder::Canonical)
        .unwrap();
    let sorted = info(&registry, "slice").unwrap().staged_bytes;
    assert!(sorted < whole / 5, "{sorted} of {whole}");
}

#[test]
fn drop_and_restage_return_their_bytes_and_the_budget_recovers() {
    let first = budget_edges(0, 4_000);
    let second = budget_edges(10_000, 4_000);
    let (peak, held) = cost(&first, StageOrder::Canonical);
    let mapping = ColumnMapping::new();
    let wcc = validate("wcc", &no_options()).unwrap();
    let stage = |registry: &mut Registry, name: &str, batch: &Batch, replace: bool| {
        registry.stage(name, Part::Edges, &vec![copy(batch)], &mapping, replace, StageOrder::Canonical)
    };

    // Room for one such graph, not for two.
    let mut registry = Registry::new(peak + held / 2);
    stage(&mut registry, "one", &first, true).unwrap();
    assert_eq!(registry.memory().unwrap().used_bytes, held);
    let error = stage(&mut registry, "two", &second, true).unwrap_err().shown();
    assert!(error.contains("`two`"), "{error}");
    // The projection is admitted from the same budget: with room for the
    // rows alone, it is refused, naming the graph and the projection, and
    // the rows stay as they were.
    let (_, rows_only) = cost(&first, StageOrder::AsStaged);
    let mut tight = Registry::new(rows_only + rows_only / 2);
    tight
        .stage("one", Part::Edges, &vec![copy(&first)], &mapping, true, StageOrder::AsStaged)
        .unwrap();
    let error = tight.projection("one", &wcc).err().expect("refused").shown();
    assert!(error.contains("`one`") && error.contains("projection"), "{error}");
    assert_eq!(tight.memory().unwrap().used_bytes, rows_only);
    assert_eq!(registry.memory().unwrap().used_bytes, held);
    assert!(registry.drop("one"));
    assert_eq!(registry.memory().unwrap().used_bytes, 0);
    assert_eq!(registry.memory().unwrap().staged_bytes, 0);
    stage(&mut registry, "two", &second, true).unwrap();
    assert_eq!(info(&registry, "two").unwrap().staged_edges, 4_000);

    // A projection is admitted from the same budget and released on restage.
    let mut registry = Registry::new(usize::MAX);
    stage(&mut registry, "one", &first, true).unwrap();
    let projection = registry.projection("one", &wcc).unwrap();
    let with_projection = registry.memory().unwrap().used_bytes;
    assert!(with_projection > held);
    stage(&mut registry, "one", &first, true).unwrap();
    assert_eq!(info(&registry, "one").unwrap().projections, 0);
    // The read still holding the old projection keeps its bytes...
    assert_eq!(registry.memory().unwrap().used_bytes, with_projection);
    drop(projection);
    // ...until it lets go.
    assert_eq!(registry.memory().unwrap().used_bytes, held);

    // Replacing with fewer rows holds fewer bytes.
    stage(&mut registry, "one", &slice(&first, 0, 1_000), true).unwrap();
    let smaller = registry.memory().unwrap().used_bytes;
    assert!(smaller < held / 2, "{smaller} vs {held}");
    assert_eq!(info(&registry, "one").unwrap().staged_bytes, smaller);
    // An empty replace holds nothing, and the graph stays listed.
    registry.stage("one", Part::Edges, &vec![], &mapping, true, StageOrder::Canonical).unwrap();
    assert_eq!(registry.memory().unwrap().used_bytes, 0);
    assert!(info(&registry, "one").is_some());
    // Dropping a graph releases its rows and its cached projections.
    stage(&mut registry, "one", &first, true).unwrap();
    registry.projection("one", &wcc).unwrap();
    assert!(registry.memory().unwrap().used_bytes > held);
    assert!(registry.drop("one"));
    assert_eq!(registry.memory().unwrap().used_bytes, 0);
}

#[test]
fn a_streamed_write_is_refused_at_the_batch_that_crosses_the_budget() {
    fn send<T: Send>(_: &T) {}
    let batch = budget_edges(0, 1_000);
    let (_, held) = cost(&batch, StageOrder::AsStaged);
    let mut registry = Registry::new(3 * held + held / 2);
    let mapping = ColumnMapping::new();
    send(&registry.staging("unused", Part::Edges, &mapping, true, StageOrder::Canonical));
    let mut staging = registry.staging("streamed", Part::Edges, &mapping, true, StageOrder::AsStaged);
    for _ in 0..3 {
        staging.push(registry.store(), &batch).unwrap();
        assert!(info(&registry, "streamed").is_none());
    }
    let error = staging.push(registry.store(), &batch).unwrap_err().shown();
    assert!(error.contains("`streamed`") && error.contains("1000 more rows"), "{error}");
    assert_eq!(registry.memory().unwrap().used_bytes, 3 * held);
    drop(staging);
    assert_eq!(registry.memory().unwrap().used_bytes, 0);
    let mut staging = registry.staging("streamed", Part::Edges, &mapping, true, StageOrder::AsStaged);
    for _ in 0..3 {
        staging.push(registry.store(), &batch).unwrap();
    }
    assert_eq!(registry.finish(staging).unwrap(), 3_000);
    assert_eq!(info(&registry, "streamed").unwrap().staged_bytes, 3 * held);
}

#[test]
fn a_sorted_part_returns_what_its_bound_overestimated() {
    let batch = budget_edges(0, 5_000);
    let mut registry = Registry::new(usize::MAX);
    registry
        .stage("shrunk", Part::Edges, &vec![batch], &ColumnMapping::new(), true, StageOrder::Canonical)
        .unwrap();
    let part: Vec<Batch> =
        staged(&registry, "shrunk", Part::Edges).into_iter().map(|inner| Batch { inner }).collect();
    let held = held_bytes(&part);
    let bound = sorted_copy_bound(&part);
    assert!(bound > held, "the bound {bound} would return nothing of {held}");
    assert_eq!(registry.store().entry("shrunk").unwrap().part(Part::Edges).bytes(), held);
    let memory = registry.memory().unwrap();
    assert_eq!(memory.used_bytes, held, "{memory:?}");
    assert_eq!(memory.staged_bytes, held, "{memory:?}");
    assert!(memory.peak_bytes >= bound, "{memory:?}");
    drop(part);
    assert!(registry.drop("shrunk"));
    assert_eq!(registry.memory().unwrap().used_bytes, 0);
}

#[test]
fn the_memory_listing_stages_the_total_of_the_graph_listing() {
    let mut registry = registry();
    stage(&mut registry, "b", Part::Edges, vec![budget_edges(0, 500)]);
    stage(&mut registry, "a", Part::Edges, vec![budget_edges(1_000, 1_500)]);
    stage(&mut registry, "c", Part::Nodes, vec![]);
    let listing = registry.list();
    let names: Vec<_> = listing.iter().map(|g| g.name.as_str()).collect();
    assert_eq!(names, ["a", "b", "c"]);
    let total: usize = listing.iter().map(|g| g.staged_bytes).sum();
    assert!(listing[0].staged_bytes > listing[1].staged_bytes);
    assert_eq!(listing[2].staged_bytes, 0);
    assert_eq!(registry.memory().unwrap().staged_bytes, total);
    assert!(registry.drop("a"));
    let total: usize = registry.list().iter().map(|g| g.staged_bytes).sum();
    assert_eq!(registry.memory().unwrap().staged_bytes, total);
}

fn endpoint_batch(source: Vec<Option<&str>>, target: Vec<Option<&str>>) -> Batch {
    batch(
        vec![
            Field::new("source", DataType::Utf8, true),
            Field::new("target", DataType::Utf8, true),
        ],
        vec![Arc::new(StringArray::from(source)), Arc::new(StringArray::from(target))],
    )
}

#[test]
fn derived_nodes_are_the_distinct_endpoints_in_either_order() {
    let edges = vec![
        endpoint_batch(vec![Some("b"), Some("10")], vec![Some("9"), Some("a")]),
        endpoint_batch(vec![Some("b")], vec![Some("10")]),
    ];
    let first_seen = nutmeg::nodes::derive_nodes(&edges, false).unwrap();
    assert_eq!(strings_of(&[first_seen.inner.clone()], "node_id"), ["b", "9", "10", "a"]);
    assert_eq!(first_seen.inner.num_columns(), 2);
    let sorted = nutmeg::nodes::derive_nodes(&edges, true).unwrap();
    assert_eq!(strings_of(&[sorted.inner.clone()], "node_id"), ["10", "9", "a", "b"]);
    let labels = sorted.inner.column_by_name("label").unwrap();
    assert_eq!(labels.len(), 4);

    let nulls = vec![endpoint_batch(vec![Some("a"), None], vec![Some("b"), Some("c")])];
    match nutmeg::nodes::derive_nodes(&nulls, true) {
        Err(NutmegError::Execution(m)) => assert_eq!(m, "nutmeg: null edge endpoint at row 1"),
        Err(e) => panic!("{e:?}"),
        Ok(_) => panic!("a null endpoint was accepted"),
    }
}

#[test]
fn a_read_keeps_the_rows_and_revision_it_reads_and_an_unknown_graph_is_refused() {
    let mut registry = registry();
    stage(&mut registry, "g", Part::Edges, vec![edges(&["a", "b"], &["b", "c"], None)]);
    let before = info(&registry, "g").unwrap();
    let wcc = validate("wcc", &no_options()).unwrap();
    let error = run(&mut registry, "wcc", "nosuch", &wcc).err().expect("refused").shown();
    assert!(error.contains("nosuch"), "{error}");
    assert_eq!(registry.list().len(), 1);
    run(&mut registry, "wcc", "g", &wcc).unwrap();
    let after = info(&registry, "g").unwrap();
    assert_eq!(after.revision, before.revision);
    assert_eq!(after.staged_edges, before.staged_edges);
    assert_eq!(after.staged_nodes, before.staged_nodes);
    assert_eq!(after.projections, 1);
}
