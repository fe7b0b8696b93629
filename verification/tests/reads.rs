use std::sync::Arc;

use arrow::array::{Array, ArrayRef, Int64Array, StringArray};
use arrow::datatypes::{DataType, Field, Schema};
use arrow::record_batch::RecordBatch;

use nutmeg::calls::parse_options;
use nutmeg::frame::Batch;
use nutmeg::layout::ColumnMapping;
use nutmeg::limits::QueryLimits;
use nutmeg::options::Options;
use nutmeg::order::StageOrder;
use nutmeg::reads::{
    outcome_state, Outcome, Query, ReadExecution, ReadLimit, ReadLog, ReadRecord, ReadState,
    ENDED_READS_KEPT,
};
use nutmeg::registry::{run, Registry, PROBE};
use nutmeg::tables::{AlgorithmTable, GraphsTable, MemoryTable, ReadsTable};
use nutmeg::Part;

fn edges(source: &[&str], target: &[&str]) -> Batch {
    let fields = vec![
        Field::new("source", DataType::Utf8, false),
        Field::new("target", DataType::Utf8, false),
    ];
    let columns: Vec<ArrayRef> = vec![
        Arc::new(StringArray::from(source.to_vec())),
        Arc::new(StringArray::from(target.to_vec())),
    ];
    Batch { inner: RecordBatch::try_new(Arc::new(Schema::new(fields)), columns).unwrap() }
}

/// The probe's three nodes, bare: enough for kernels that read no property.
fn bare_probe_nodes() -> Batch {
    let fields = vec![Field::new("node_id", DataType::Utf8, false)];
    let columns: Vec<ArrayRef> = vec![Arc::new(StringArray::from(vec!["a", "b", "c"]))];
    Batch { inner: RecordBatch::try_new(Arc::new(Schema::new(fields)), columns).unwrap() }
}

fn triangle(registry: &mut Registry, name: &str) {
    registry
        .stage(
            name,
            Part::Edges,
            &vec![edges(&["a", "b", "c"], &["b", "c", "a"])],
            &ColumnMapping::new(),
            true,
            StageOrder::Canonical,
        )
        .unwrap();
}

fn ints(batch: &RecordBatch, column: &str) -> Vec<i64> {
    let c = batch.column_by_name(column).unwrap();
    c.as_any().downcast_ref::<Int64Array>().unwrap().iter().map(|v| v.unwrap()).collect()
}

fn texts(batch: &RecordBatch, column: &str) -> Vec<Option<String>> {
    let c = batch.column_by_name(column).unwrap();
    c.as_any().downcast_ref::<StringArray>().unwrap().iter().map(|v| v.map(String::from)).collect()
}

#[test]
fn a_table_read_is_logged_from_start_to_end() {
    let mut registry = Registry::new(1 << 30);
    triangle(&mut registry, "logged");
    let probe = bare_probe_nodes();
    let table =
        AlgorithmTable::new(&mut registry, "degree", "logged".into(), &Options::new(), &probe).unwrap();
    let query = table.query(&registry).unwrap();
    let mut read = table.begin(&mut registry, &query).unwrap();
    assert_eq!(read.id(), 1);
    let running = registry.reads();
    assert_eq!(running.len(), 1);
    assert_eq!(running[0].state, ReadState::Running);
    assert_eq!(running[0].algorithm, "degree");
    assert_eq!(running[0].graph, "logged");
    let mut rows = 0;
    let mut batches = 0;
    while let Some(batch) = table.step(&mut registry, &mut read, &query).unwrap() {
        rows += batch.inner.num_rows();
        batches += 1;
    }
    assert_eq!(rows, 3);
    // An ended read yields nothing more and leaves the log alone.
    assert!(table.step(&mut registry, &mut read, &query).unwrap().is_none());
    let ended = registry.reads();
    assert_eq!(ended.len(), 1);
    assert_eq!(ended[0].state, ReadState::Finished);
    assert_eq!(ended[0].message, None);
    assert_eq!(ended[0].rows, 3);
    assert_eq!(ended[0].batches, batches);
}

#[test]
fn a_read_its_consumer_stops_ends_cancelled() {
    let mut registry = Registry::new(1 << 30);
    triangle(&mut registry, "stopped");
    let probe = bare_probe_nodes();
    let table =
        AlgorithmTable::new(&mut registry, "degree", "stopped".into(), &Options::new(), &probe).unwrap();
    let query = table.query(&registry).unwrap();
    let mut read = table.begin(&mut registry, &query).unwrap();
    assert!(table.step(&mut registry, &mut read, &query).unwrap().is_some());
    table.stop(&mut registry, read);
    let reads = registry.reads();
    assert_eq!(reads[0].state, ReadState::Cancelled);
    assert_eq!(reads[0].message.as_deref(), Some("its consumer stopped reading"));
    assert_eq!(reads[0].batches, 1);
}

#[test]
fn a_cancelled_read_ends_cancelled_and_a_failed_one_failed() {
    let mut registry = Registry::new(1 << 30);
    triangle(&mut registry, "failing");
    let probe = bare_probe_nodes();
    let table =
        AlgorithmTable::new(&mut registry, "degree", "failing".into(), &Options::new(), &probe).unwrap();
    let query = table.query(&registry).unwrap();
    query.cancel().unwrap();
    assert!(query.is_cancelled());
    let error = table.begin(&mut registry, &query).err().expect("cancelled").shown();
    assert!(error.contains("cancelled"), "{error}");
    let reads = registry.reads();
    assert_eq!(reads.len(), 1);
    assert_eq!(reads[0].state, ReadState::Cancelled);
    assert_eq!(reads[0].message.as_deref(), Some(error.as_str()));

    // A read of a graph that is not there fails, for a reason of its own.
    let missing =
        AlgorithmTable::new(&mut registry, "degree", "missing".into(), &Options::new(), &probe).unwrap();
    let error = missing.batches(&mut registry).err().expect("no such graph").shown();
    assert_eq!(
        error,
        "Execution error: nutmeg: no graph named `missing`; stage its rows first"
    );
    let reads = registry.reads();
    assert_eq!(reads.len(), 2);
    assert_eq!(reads[1].id, 2);
    assert_eq!(reads[1].state, ReadState::Failed);
}

#[test]
fn the_log_keeps_the_most_recent_ended_reads() {
    let mut log = ReadLog::new();
    let registry = Registry::new(1 << 30);
    let query = Query::new(&registry, QueryLimits::default()).unwrap();
    for _ in 0..ENDED_READS_KEPT + 10 {
        let record = ReadRecord::start(&mut log, "degree", "g", &query).unwrap();
        record.batch(&mut log, 5);
        record.end(&mut log, ReadState::Finished, None);
    }
    let reads = log.reads();
    assert_eq!(reads.len(), ENDED_READS_KEPT);
    assert_eq!(reads[0].id, 11);
    assert_eq!(reads.last().unwrap().id, (ENDED_READS_KEPT + 10) as u64);
    assert!(reads.iter().all(|r| r.rows == 5 && r.batches == 1));
    // A running read is listed after the ended ones; ending an unknown read
    // changes nothing.
    let running = ReadRecord::start(&mut log, "pagerank", "h", &query).unwrap();
    ReadRecord::end_id(&mut log, 9_999, ReadState::Failed, None);
    let reads = log.reads();
    assert_eq!(reads.len(), ENDED_READS_KEPT + 1);
    assert_eq!(reads.last().unwrap().state, ReadState::Running);
    assert_eq!(reads.last().unwrap().id, running.id);
}

#[test]
fn outcomes_end_in_their_states() {
    assert_eq!(outcome_state(Outcome::Finished), (ReadState::Finished, None));
    assert_eq!(
        outcome_state(Outcome::Stopped),
        (ReadState::Cancelled, Some("its consumer stopped reading".to_string()))
    );
    assert_eq!(
        outcome_state(Outcome::Failed { message: "m".into(), cancelled: true }),
        (ReadState::Cancelled, Some("m".to_string()))
    );
    assert_eq!(
        outcome_state(Outcome::Failed { message: "m".into(), cancelled: false }),
        (ReadState::Failed, Some("m".to_string()))
    );
    assert_eq!(ReadState::Running.name(), "running");
    assert_eq!(ReadState::Finished.name(), "finished");
    assert_eq!(ReadState::Cancelled.name(), "cancelled");
    assert_eq!(ReadState::Failed.name(), "failed");
}

#[test]
fn read_execution_parses_either_spelling() {
    assert_eq!(ReadExecution::parse(" Streaming ").unwrap(), ReadExecution::Streaming);
    assert_eq!(ReadExecution::parse("materialized").unwrap(), ReadExecution::Materialized);
    assert_eq!(ReadExecution::parse("MATERIALISED").unwrap(), ReadExecution::Materialized);
    assert_eq!(ReadExecution::default(), ReadExecution::Streaming);
    let error = ReadExecution::parse("eager").unwrap_err().message();
    assert_eq!(error, "nutmeg: NUTMEG_READS is `streaming` or `materialized`, got `eager`");
}

#[test]
fn a_limit_hands_on_exactly_its_rows() {
    let mut limit = ReadLimit::new(Some(10));
    assert!(limit.starts());
    assert_eq!(limit.take(4), 4);
    assert_eq!(limit.take(4), 4);
    assert_eq!(limit.take(4), 2);
    assert_eq!(limit.rows, 10);
    assert!(limit.ended);
    let mut none = ReadLimit::new(None);
    assert_eq!(none.take(1_000), 1_000);
    let mut zero = ReadLimit::new(Some(0));
    assert!(!zero.starts());
}

#[test]
fn the_listings_report_reads_graphs_and_memory() {
    let mut registry = Registry::new(1 << 30);
    triangle(&mut registry, "listed-b");
    triangle(&mut registry, "listed-a");
    let probe = bare_probe_nodes();
    let table =
        AlgorithmTable::new(&mut registry, "degree", "listed-a".into(), &Options::new(), &probe).unwrap();
    // Probing staged the schema probe, which the graph listing leaves out.
    assert!(registry.list().iter().any(|g| g.name == PROBE));
    table.batches(&mut registry).unwrap();

    let graphs = GraphsTable::batches(&registry).unwrap();
    assert_eq!(graphs.len(), 1);
    let g = &graphs[0].inner;
    assert_eq!(texts(g, "name"), [Some("listed-a".to_string()), Some("listed-b".to_string())]);
    assert_eq!(ints(g, "stagedEdges"), [3, 3]);
    assert_eq!(ints(g, "stagedNodes"), [0, 0]);
    assert_eq!(ints(g, "revision"), [1, 1]);
    assert_eq!(ints(g, "projections"), [1, 0]);

    let reads = ReadsTable::batches(&registry).unwrap();
    let r = &reads[0].inner;
    assert_eq!(ints(r, "readId"), [1]);
    assert_eq!(texts(r, "algorithm"), [Some("degree".to_string())]);
    assert_eq!(texts(r, "state"), [Some("finished".to_string())]);
    assert_eq!(texts(r, "message"), [None]);
    assert_eq!(ints(r, "rows"), [3]);

    let memory = MemoryTable::batches(&registry).unwrap();
    let m = &memory[0].inner;
    assert_eq!(ints(m, "limitBytes"), [1 << 30]);
    let staged: i64 = ints(g, "stagedBytes").iter().sum();
    let info = registry.memory().unwrap();
    assert_eq!(ints(m, "stagedBytes"), [info.staged_bytes as i64]);
    assert!(info.staged_bytes as i64 >= staged);
    assert!(ints(m, "usedBytes")[0] >= ints(m, "stagedBytes")[0]);
}

#[test]
fn a_read_runs_on_its_own_child_of_the_budget() {
    let mut registry = Registry::new(1 << 30);
    triangle(&mut registry, "own");
    let args = nutmeg::calls::validate("degree", &Options::new()).unwrap();
    let batches = run(&mut registry, "degree", "own", &args).unwrap();
    assert_eq!(batches.iter().map(|b| b.inner.num_rows()).sum::<usize>(), 3);
    // Reads by `run` are not listed.
    assert!(registry.reads().is_empty());
    let limited = Query::new(
        &registry,
        QueryLimits { timeout_ms: None, work_units: Some(1), memory_bytes: None, concurrency: None },
    )
    .unwrap();
    let error = limited
        .run(&mut registry, "pagerank", "own", &nutmeg::calls::validate("pagerank", &Options::new()).unwrap())
        .err()
        .expect("over its work budget")
        .shown();
    assert!(error.contains("work budget exceeded"), "{error}");
    assert!(limited.usage().is_ok());
    // The limit stopped that read alone.
    assert!(run(&mut registry, "pagerank", "own", &nutmeg::calls::validate("pagerank", &Options::new()).unwrap()).is_ok());
    let bad = parse_options(r#"{"concurrency": 0}"#).unwrap();
    let mut bad = bad;
    assert!(QueryLimits::take(&mut bad).is_err());
}

#[test]
fn a_read_stopped_before_it_starts_builds_nothing() {
    let registry = Registry::new(1 << 30);
    let mut store = nutmeg::store::Store::new(1 << 30);
    store
        .stage("g", Part::Edges, &vec![edges(&["a", "b"], &["b", "c"])], &ColumnMapping::new(), true, StageOrder::AsStaged)
        .unwrap();
    let query = Query::new(&registry, QueryLimits::default()).unwrap();
    let args = nutmeg::calls::validate("wcc", &Options::new()).unwrap();
    let stopped = nutmeg::budget::Refusal {
        kind: nutmeg::budget::RefusalKind::Cancelled,
        message: "cancelled".to_string(),
    };
    let error = store.open_read_checked(Err(stopped), &query, "wcc", "g", &args).err().unwrap();
    assert_eq!(error.message(), "nutmeg: cancelled");
    let info = store.list().into_iter().find(|g| g.name == "g").unwrap();
    assert_eq!(info.projections, 0);
    assert_eq!(info.revision, 1);
    // A graph never staged is refused by name.
    let missing = store.open_read_checked(Ok(()), &query, "wcc", "nosuch", &args).err().unwrap();
    assert_eq!(missing.message(), "nutmeg: no graph named `nosuch`; stage its rows first");
}
