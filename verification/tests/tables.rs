use std::sync::Arc;

use arrow::array::{
    Array, ArrayRef, BooleanArray, FixedSizeListArray, Float32Array, Float64Array, Int64Array,
    StringArray,
};
use arrow::datatypes::{DataType, Field, Float32Type, Schema};
use arrow::record_batch::RecordBatch;

use nutmeg::calls::{
    options_from_strings, parse_options, probe_columns, validate, PropertyKind, PRECISION_OPTION,
};
use nutmeg::catalog::{algorithm_names, definitions};
use nutmeg::columns::{gds_column_aliases, ColumnNames, COLUMN_NAMES_OPTION};
use nutmeg::frame::{Batch, FieldDef};
use nutmeg::layout::ColumnMapping;
use nutmeg::limits::{query_options, QueryLimits, CONCURRENCY_OPTION, TIMEOUT_OPTION};
use nutmeg::options::Options;
use nutmeg::order::StageOrder;
use nutmeg::registry::{output_schema, output_schema_named, Registry, PROBE};
use nutmeg::tables::{table_function_names, AlgorithmTable, GraphsTable, MemoryTable};
use nutmeg::Part;

fn edges(source: &[&str], target: &[&str]) -> Batch {
    let fields = vec![
        Field::new("src", DataType::Utf8, false),
        Field::new("dst", DataType::Utf8, false),
    ];
    let columns: Vec<ArrayRef> = vec![
        Arc::new(StringArray::from(source.to_vec())),
        Arc::new(StringArray::from(target.to_vec())),
    ];
    Batch { inner: RecordBatch::try_new(Arc::new(Schema::new(fields)), columns).unwrap() }
}

fn registry() -> Registry {
    Registry::new(8usize << 30)
}

fn options(json: &str) -> Options {
    parse_options(json).unwrap()
}

fn no_options() -> Options {
    Options::new()
}

fn stage(registry: &mut Registry, name: &str, batch: Batch) {
    registry
        .stage(name, Part::Edges, &vec![batch], &ColumnMapping::new(), true, StageOrder::Canonical)
        .unwrap();
}

/// The probe's three nodes, with a column for every property option a
/// registered kernel declares.
fn probe_nodes() -> Batch {
    let mut fields = vec![
        Field::new("node_id", DataType::Utf8, false),
        Field::new("label", DataType::Utf8, true),
    ];
    let mut columns: Vec<ArrayRef> = vec![
        Arc::new(StringArray::from(vec!["a", "b", "c"])),
        Arc::new(StringArray::from(vec!["", "", ""])),
    ];
    for (key, kind) in probe_columns().unwrap() {
        let values: ArrayRef = match kind {
            PropertyKind::Number => Arc::new(Float64Array::from(vec![0.0, 0.5, 1.0])),
            PropertyKind::Integer => Arc::new(Int64Array::from(vec![0, 1, 0])),
            PropertyKind::Category => Arc::new(StringArray::from(vec!["x", "y", "x"])),
            PropertyKind::Vector => Arc::new(
                FixedSizeListArray::from_iter_primitive::<Float32Type, _, _>(
                    vec![
                        Some(vec![Some(1.0), Some(0.0)]),
                        Some(vec![Some(0.0), Some(1.0)]),
                        Some(vec![Some(1.0), Some(1.0)]),
                    ],
                    2,
                ),
            ),
        };
        fields.push(Field::new(format!("property.{key}"), values.data_type().clone(), true));
        columns.push(values);
        fields.push(Field::new(format!("present.{key}"), DataType::Boolean, false));
        columns.push(Arc::new(BooleanArray::from(vec![true, true, true])));
    }
    Batch { inner: RecordBatch::try_new(Arc::new(Schema::new(fields)), columns).unwrap() }
}

fn names_of(fields: &[FieldDef]) -> Vec<String> {
    fields.iter().map(|f| f.inner.name().clone()).collect()
}

#[test]
fn every_algorithm_grust_registers_is_served_with_its_declared_columns() {
    let names = algorithm_names();
    assert!(names.len() >= 12, "{names:?}");
    let mut registry = registry();
    let probe = probe_nodes();
    for (definition, name) in definitions().into_iter().zip(names) {
        let schema = output_schema(&mut registry, &name, &probe)
            .unwrap_or_else(|e| panic!("{name}: {}", e.shown()));
        let produced = names_of(&schema);
        let declared: Vec<String> = definition.outputs.iter().map(|f| f.name.clone()).collect();
        assert_eq!(produced, declared, "{name}");
        let produced: Vec<bool> = schema.iter().map(|f| f.inner.is_nullable()).collect();
        let declared: Vec<bool> = definition.outputs.iter().map(|f| f.nullable).collect();
        assert_eq!(produced, declared, "{name}: nullability");
    }
}

/// Whether an Arrow type is, or contains, an unsigned integer.
fn unsigned(data_type: &DataType) -> bool {
    match data_type {
        DataType::UInt8 | DataType::UInt16 | DataType::UInt32 | DataType::UInt64 => true,
        DataType::List(item)
        | DataType::LargeList(item)
        | DataType::ListView(item)
        | DataType::LargeListView(item)
        | DataType::FixedSizeList(item, _)
        | DataType::Map(item, _) => unsigned(item.data_type()),
        DataType::Struct(fields) => fields.iter().any(|f| unsigned(f.data_type())),
        DataType::Dictionary(key, value) => unsigned(key) || unsigned(value),
        _ => false,
    }
}

#[test]
fn no_column_nutmeg_serves_is_unsigned() {
    let mut registry = registry();
    let probe = probe_nodes();
    let mut schemas = vec![
        ("graphs".to_string(), GraphsTable::arrow_schema()),
        ("memory".to_string(), MemoryTable::arrow_schema()),
    ];
    for name in algorithm_names() {
        let schema = output_schema(&mut registry, &name, &probe)
            .unwrap_or_else(|e| panic!("{name}: {}", e.shown()));
        schemas.push((name, schema));
    }
    let names = algorithm_names();
    assert!(names.contains(&"pagerank".to_string()) && names.contains(&"degree".to_string()));
    for (name, schema) in &schemas {
        for field in schema {
            assert!(
                !unsigned(field.inner.data_type()),
                "{name}.{} is {}, which Spark cannot represent",
                field.inner.name(),
                field.inner.data_type()
            );
        }
    }
    // The check itself sees an unsigned type, including inside a list.
    assert!(unsigned(&DataType::UInt64));
    assert!(unsigned(&DataType::new_large_list(DataType::UInt64, true)));
    assert!(!unsigned(&DataType::Int64));
}

#[test]
fn gds_aliases_name_declared_columns_and_never_collide() {
    let declared: Vec<String> = definitions()
        .into_iter()
        .flat_map(|d| d.outputs.into_iter().map(|f| f.name))
        .collect();
    for (grust, gds) in gds_column_aliases() {
        assert!(declared.contains(&grust), "alias for undeclared `{grust}`");
        assert_ne!(grust, gds);
    }
    let taken: Vec<&str> =
        std::iter::once(COLUMN_NAMES_OPTION).chain(query_options()).collect();
    for (definition, name) in definitions().into_iter().zip(algorithm_names()) {
        let schema: Vec<FieldDef> = definition
            .outputs
            .iter()
            .map(|f| FieldDef { inner: Field::new(f.name.as_str(), DataType::Null, true) })
            .collect();
        ColumnNames::Gds.rename_schema(&schema).unwrap_or_else(|e| panic!("{name}: {}", e.shown()));
        for field in definition.options.iter().chain(definition.arguments.iter()) {
            for taken in &taken {
                assert!(
                    !field.name.eq_ignore_ascii_case(taken),
                    "{name} declares `{}`, which Nutmeg takes for itself",
                    field.name
                );
            }
        }
    }
}

#[test]
fn every_algorithm_reports_the_columns_its_scan_returns_under_either_naming() {
    let mut registry = registry();
    let probe = probe_nodes();
    for (definition, name) in definitions().into_iter().zip(algorithm_names()) {
        output_schema(&mut registry, &name, &probe).unwrap_or_else(|e| panic!("{name}: {}", e.shown()));
        for names in [ColumnNames::Grust, ColumnNames::Gds] {
            let (args, _) = registry
                .probe(&name, Options::new())
                .unwrap_or_else(|e| panic!("{name}: {}", e.shown()));
            let table = AlgorithmTable::validated(
                &mut registry,
                name.clone(),
                PROBE.to_string(),
                args,
                names,
                QueryLimits::default(),
                &probe,
            )
            .unwrap_or_else(|e| panic!("{name} {names:?}: {}", e.shown()));
            let batches = table
                .batches(&mut registry)
                .unwrap_or_else(|e| panic!("{name} {names:?}: {}", e.shown()));
            assert!(!batches.is_empty(), "{name} {names:?}");
            let got: Vec<String> =
                batches[0].inner.schema().fields().iter().map(|f| f.name().clone()).collect();
            let expected: Vec<String> =
                definition.outputs.iter().map(|f| names.rename(&f.name)).collect();
            assert_eq!(got, expected, "{name} {names:?}");
            let named = output_schema_named(&mut registry, &name, names, &probe).unwrap();
            assert_eq!(names_of(&named), expected, "{name} {names:?}");
        }
    }
}

#[test]
fn read_limits_are_read_options() {
    let mut taken = options(
        r#"{"timeoutms": "250", "WorkLimit": 7, "memoryLimitBytes": "4096", "damping": 0.85}"#,
    );
    let limits = QueryLimits::take(&mut taken).unwrap();
    assert_eq!(
        limits,
        QueryLimits {
            timeout_ms: Some(250),
            work_units: Some(7),
            memory_bytes: Some(4_096),
            concurrency: None,
        }
    );
    assert_eq!(taken.keys(), ["damping"]);
    validate("pagerank", &taken).unwrap();
    for bad in [r#""-1""#, "1.5", r#""soon""#] {
        let mut bad_options = options(&format!(r#"{{"{TIMEOUT_OPTION}": {bad}}}"#));
        let error = QueryLimits::take(&mut bad_options).unwrap_err().shown();
        assert!(error.contains(TIMEOUT_OPTION), "{bad}: {error}");
    }
    let mut none = no_options();
    assert_eq!(QueryLimits::take(&mut none).unwrap(), QueryLimits::default());

    let mut registry = registry();
    let probe = probe_nodes();
    let name = "limited-table";
    stage(&mut registry, name, edges(&["a", "b", "c"], &["b", "c", "a"]));
    let table = AlgorithmTable::new(
        &mut registry,
        "pagerank",
        name.into(),
        &options(r#"{"workLimit": "1"}"#),
        &probe,
    )
    .unwrap();
    assert_eq!(table.limits().work_units, Some(1));
    let error = table.batches(&mut registry).err().expect("the work budget stops it").shown();
    assert!(error.contains("work budget exceeded"), "{error}");
    let open = AlgorithmTable::new(&mut registry, "pagerank", name.into(), &no_options(), &probe)
        .unwrap();
    assert_eq!(open.batches(&mut registry).unwrap()[0].inner.num_rows(), 3);
    assert!(registry.drop(name));
}

#[test]
fn concurrency_is_a_read_option_and_reaches_the_read_that_asked_for_it() {
    let with_threads = options(&format!(r#"{{"{CONCURRENCY_OPTION}": 8}}"#));
    let mut taken = with_threads.duplicate();
    assert_eq!(QueryLimits::take(&mut taken).unwrap().concurrency, Some(8));
    assert_eq!(taken.len(), 0, "the option is consumed, not passed to Grust");

    // Grust's validator would reject it, which is why it is taken out first.
    assert!(validate("degree", &with_threads).is_err());

    // Zero threads is a mistake, not a way to ask for none.
    let mut zero = options(&format!(r#"{{"{CONCURRENCY_OPTION}": 0}}"#));
    let error = QueryLimits::take(&mut zero).unwrap_err().shown();
    assert!(error.contains(CONCURRENCY_OPTION), "{error}");

    let mut registry = registry();
    let probe = probe_nodes();
    let name = "concurrency-test";
    stage(&mut registry, name, edges(&["a", "b", "c"], &["b", "c", "a"]));

    let asked =
        AlgorithmTable::new(&mut registry, "degree", name.into(), &with_threads, &probe).unwrap();
    assert_eq!(asked.limits().concurrency, Some(8));
    assert_eq!(asked.query(&registry).unwrap().context.concurrency(), 8);
    assert_eq!(asked.batches(&mut registry).unwrap()[0].inner.num_rows(), 3);
    let plain =
        AlgorithmTable::new(&mut registry, "degree", name.into(), &no_options(), &probe).unwrap();
    assert_eq!(
        plain.query(&registry).unwrap().context.concurrency_requested(),
        None,
        "a read that never asked for threads inherits none from the pool"
    );
    assert_eq!(plain.batches(&mut registry).unwrap()[0].inner.num_rows(), 3);

    // Both reads shared the one cached projection.
    let info = registry.list().into_iter().find(|graph| graph.name == name).unwrap();
    assert_eq!(info.projections, 1);
    assert!(registry.drop(name));
}

#[test]
fn precision_is_a_read_option_and_the_declared_schema_follows_it() {
    let mut registry = registry();
    let probe = probe_nodes();
    let name = "precision-schema";
    stage(&mut registry, name, edges(&["a", "b", "c", "a"], &["b", "c", "a", "c"]));

    for algorithm in ["pagerank", "articleRank"] {
        let declared = definitions()
            .into_iter()
            .zip(algorithm_names())
            .find(|(_, short)| short == algorithm)
            .unwrap_or_else(|| panic!("{algorithm} is registered"))
            .0
            .options
            .iter()
            .any(|option| option.name == PRECISION_OPTION);
        assert!(declared, "{algorithm} declares `{PRECISION_OPTION}`");

        for (asked, expected) in [
            (None, DataType::Float64),
            (Some("f64"), DataType::Float64),
            (Some("f32"), DataType::Float32),
        ] {
            let options = match asked {
                Some(asked) => options(&format!(r#"{{"{PRECISION_OPTION}": "{asked}"}}"#)),
                None => no_options(),
            };
            let table = AlgorithmTable::new(&mut registry, algorithm, name.into(), &options, &probe)
                .unwrap_or_else(|e| panic!("{algorithm} {asked:?}: {}", e.shown()));
            let score = table.schema().iter().find(|f| f.inner.name() == "score").unwrap();
            assert_eq!(score.inner.data_type(), &expected, "{algorithm} {asked:?}: the reported schema");
            let batches = table.batches(&mut registry).unwrap();
            assert_eq!(batches[0].inner.num_rows(), 3);
            assert_eq!(
                batches[0].inner.schema().field_with_name("score").unwrap().data_type(),
                &expected,
                "{algorithm} {asked:?}: the batch"
            );
        }
    }

    // A kernel that declares no `precision` is unaffected, and its schema is
    // still kept under its bare name.
    let degree =
        AlgorithmTable::new(&mut registry, "degree", name.into(), &no_options(), &probe).unwrap();
    assert_eq!(degree.batches(&mut registry).unwrap()[0].inner.num_rows(), 3);
    assert!(registry.has_schema("degree"), "a kernel without the option keys on its name alone");
    assert!(
        registry.has_schema(&format!("pagerank#{PRECISION_OPTION}=f32")),
        "a kernel with it keys on the value too"
    );
    assert!(registry.drop(name));
}

#[test]
fn a_bad_precision_is_refused_like_any_other_bad_option() {
    let mut registry = registry();
    let probe = probe_nodes();
    let name = "precision-bad";
    stage(&mut registry, name, edges(&["a", "b", "c"], &["b", "c", "a"]));

    for bad in ["f16", "double", "F32", ""] {
        let options = options(&format!(r#"{{"{PRECISION_OPTION}": "{bad}"}}"#));
        let error = AlgorithmTable::new(&mut registry, "pagerank", name.into(), &options, &probe)
            .err()
            .unwrap_or_else(|| panic!("`{bad}` was accepted"))
            .shown();
        assert!(error.contains(PRECISION_OPTION), "`{bad}`: {error}");
        assert!(error.contains("'f64'") && error.contains("'f32'"), "`{bad}`: {error}");
    }

    let misspelled = options(r#"{"precison": "f32"}"#);
    let error = AlgorithmTable::new(&mut registry, "pagerank", name.into(), &misspelled, &probe)
        .err()
        .unwrap()
        .shown();
    assert!(error.contains("precison"), "{error}");

    let wrong_type = options(&format!(r#"{{"{PRECISION_OPTION}": 32}}"#));
    assert!(AlgorithmTable::new(&mut registry, "pagerank", name.into(), &wrong_type, &probe).is_err());

    let options = options_from_strings(
        "pagerank",
        vec![(PRECISION_OPTION.to_ascii_lowercase(), "f32".to_string())],
    )
    .unwrap();
    assert_eq!(options.get(PRECISION_OPTION).unwrap().json, serde_json::Value::from("f32"));
    assert!(registry.drop(name));
}

#[test]
fn f32_and_f64_scores_agree_within_f32_resolution() {
    let mut registry = registry();
    let probe = probe_nodes();
    let name = "precision-agreement";
    stage(&mut registry, name, edges(&["a", "b", "c", "a", "b"], &["b", "c", "a", "c", "a"]));

    let mut scores = |precision: &str| -> Vec<f64> {
        let options = options(&format!(r#"{{"{PRECISION_OPTION}": "{precision}"}}"#));
        let table =
            AlgorithmTable::new(&mut registry, "pagerank", name.into(), &options, &probe).unwrap();
        let mut out = Vec::new();
        for batch in table.batches(&mut registry).unwrap() {
            let column = batch.inner.column_by_name("score").unwrap().clone();
            match column.data_type() {
                DataType::Float64 => out.extend(
                    column.as_any().downcast_ref::<Float64Array>().unwrap().iter().map(|v| v.unwrap()),
                ),
                DataType::Float32 => out.extend(
                    column
                        .as_any()
                        .downcast_ref::<Float32Array>()
                        .unwrap()
                        .iter()
                        .map(|v| v.unwrap() as f64),
                ),
                other => panic!("score is {other}"),
            }
        }
        out
    };
    let wide = scores("f64");
    let narrow = scores("f32");
    assert_eq!(wide.len(), 3);
    assert_eq!(narrow.len(), wide.len());
    const TOLERANCE: f64 = 1e-6;
    for (index, (wide, narrow)) in wide.iter().zip(&narrow).enumerate() {
        assert!(
            (wide - narrow).abs() <= TOLERANCE,
            "node {index}: f64 {wide}, f32 {narrow}, tolerance {TOLERANCE}"
        );
    }
    assert!(wide.iter().zip(&narrow).any(|(w, n)| w != n), "f32 produced bit-identical f64 scores");
    assert!(registry.drop(name));
}

#[test]
fn the_catalog_is_served_whole_and_is_larger_than_the_twelve() {
    let names = algorithm_names();
    assert!(names.len() >= 30, "Grust registers {} kernels: {names:?}", names.len());
    let mut registry = registry();
    let probe = probe_nodes();
    for name in &names {
        let schema = output_schema(&mut registry, name, &probe)
            .unwrap_or_else(|error| panic!("{name}: {}", error.shown()));
        assert!(!schema.is_empty(), "{name} produced no columns");
    }
    // And the SQL surface is one function per kernel, plus the three listings.
    assert_eq!(table_function_names().len(), names.len() + 3);
}
