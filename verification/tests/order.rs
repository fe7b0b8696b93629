use std::collections::BTreeSet;
use std::sync::Arc;

use arrow::array::{Array, ArrayRef, FixedSizeListArray, Float64Array, Int64Array, StringArray};
use arrow::datatypes::{DataType, Field, Float32Type, Schema};
use arrow::record_batch::RecordBatch;
use grust_procedures::ValidatedArguments;

use nutmeg::calls::{parse_options, probe_args_with, probe_columns, validate, PropertyKind};
use nutmeg::catalog::algorithm_names;
use nutmeg::error::NutmegError;
use nutmeg::frame::Batch;
use nutmeg::layout::ColumnMapping;
use nutmeg::options::Options;
use nutmeg::order::StageOrder;
use nutmeg::registry::{run, Registry};
use nutmeg::Part;

fn edges(source: &[&str], target: &[&str], weight: &[f64]) -> Batch {
    let fields = vec![
        Field::new("src", DataType::Utf8, false),
        Field::new("dst", DataType::Utf8, false),
        Field::new("w", DataType::Float64, false),
    ];
    let columns: Vec<ArrayRef> = vec![
        Arc::new(StringArray::from(source.to_vec())),
        Arc::new(StringArray::from(target.to_vec())),
        Arc::new(Float64Array::from(weight.to_vec())),
    ];
    Batch { inner: RecordBatch::try_new(Arc::new(Schema::new(fields)), columns).unwrap() }
}

/// A small deterministic generator, so a fixture is the same on every run.
struct Mix(u64);

impl Mix {
    fn next(&mut self) -> u64 {
        // SplitMix64.
        self.0 = self.0.wrapping_add(0x9e37_79b9_7f4a_7c15);
        let mut z = self.0;
        z = (z ^ (z >> 30)).wrapping_mul(0xbf58_476d_1ce4_e5b9);
        z = (z ^ (z >> 27)).wrapping_mul(0x94d0_49bb_1331_11eb);
        z ^ (z >> 31)
    }

    fn below(&mut self, n: usize) -> usize {
        (self.next() % n as u64) as usize
    }

    fn shuffle<T>(&mut self, items: &mut [T]) {
        for i in (1..items.len()).rev() {
            items.swap(i, self.below(i + 1));
        }
    }
}

/// Three planted communities of ten nodes, dense inside and sparse between.
/// Ids sort differently as text and as numbers, and include the probe's `a`,
/// `b`, `c`. Every node carries a column for each property option any
/// registered kernel declares. Edges carry a weight `w`, and every seventh
/// pair is joined a second time with a different weight.
struct Fixture {
    /// (id, community) per node.
    nodes: Vec<(String, i64)>,
    /// (source, target, w) per edge.
    edges: Vec<(String, String, f64)>,
}

fn fixture() -> Fixture {
    let mut mix = Mix(7);
    let mut ids: Vec<String> = ["a", "b", "c"].map(String::from).to_vec();
    ids.extend((1..=27).map(|i| i.to_string()));
    let nodes: Vec<(String, i64)> =
        ids.iter().enumerate().map(|(i, id)| (id.clone(), (i / 10) as i64)).collect();
    let mut edges = Vec::new();
    for (i, (u, cu)) in nodes.iter().enumerate() {
        for (j, (v, cv)) in nodes.iter().enumerate() {
            let chance = if cu == cv { 30 } else { 3 };
            if i != j && mix.below(100) < chance {
                edges.push((u.clone(), v.clone(), (1 + mix.below(5)) as f64));
            }
        }
    }
    let parallel: Vec<_> = edges.iter().step_by(7).cloned().collect();
    for (u, v, w) in parallel {
        edges.push((u, v, w + 0.5));
    }
    Fixture { nodes, edges }
}

/// Split `order` into consecutive runs of the given sizes.
fn runs<'a>(order: &'a [usize], sizes: &[usize]) -> Vec<&'a [usize]> {
    let mut out = Vec::new();
    let mut start = 0;
    for &size in sizes {
        out.push(&order[start..start + size]);
        start += size;
    }
    out
}

impl Fixture {
    fn node_batches(&self, order: &[usize], sizes: &[usize]) -> Vec<Batch> {
        runs(order, sizes).into_iter().map(|rows| self.node_batch(rows)).collect()
    }

    fn node_batch(&self, rows: &[usize]) -> Batch {
        let community = |i: &usize| self.nodes[*i].1;
        let mut fields = vec![Field::new("id", DataType::Utf8, false)];
        let mut columns: Vec<ArrayRef> = vec![Arc::new(StringArray::from(
            rows.iter().map(|i| self.nodes[*i].0.as_str()).collect::<Vec<_>>(),
        ))];
        for (key, kind) in probe_columns().unwrap() {
            let values: ArrayRef = match kind {
                PropertyKind::Number => Arc::new(Float64Array::from(
                    rows.iter().map(|i| (*i as f64 * 7.0) % 90.0).collect::<Vec<_>>(),
                )),
                PropertyKind::Integer => {
                    Arc::new(Int64Array::from(rows.iter().map(community).collect::<Vec<_>>()))
                }
                PropertyKind::Category => Arc::new(StringArray::from(
                    rows.iter().map(|i| ["x", "y", "z"][community(i) as usize]).collect::<Vec<_>>(),
                )),
                PropertyKind::Vector => {
                    Arc::new(FixedSizeListArray::from_iter_primitive::<Float32Type, _, _>(
                        rows.iter().map(|i| {
                            let c = community(i) as f32;
                            Some(vec![Some(1.0 + c), Some(1.0 + (*i % 3) as f32)])
                        }),
                        2,
                    ))
                }
            };
            fields.push(Field::new(&key, values.data_type().clone(), true));
            columns.push(values);
        }
        Batch { inner: RecordBatch::try_new(Arc::new(Schema::new(fields)), columns).unwrap() }
    }

    fn edge_batches(&self, order: &[usize], sizes: &[usize]) -> Vec<Batch> {
        runs(order, sizes)
            .into_iter()
            .map(|rows| {
                let source: Vec<&str> = rows.iter().map(|i| self.edges[*i].0.as_str()).collect();
                let target: Vec<&str> = rows.iter().map(|i| self.edges[*i].1.as_str()).collect();
                let w: Vec<f64> = rows.iter().map(|i| self.edges[*i].2).collect();
                edges(&source, &target, &w)
            })
            .collect()
    }
}

/// `n` positions shuffled by `seed`, and batch sizes, also drawn from `seed`,
/// that cover them.
fn arrival(n: usize, seed: u64) -> (Vec<usize>, Vec<usize>) {
    let mut mix = Mix(seed);
    let mut order: Vec<usize> = (0..n).collect();
    mix.shuffle(&mut order);
    let mut sizes = Vec::new();
    let mut left = n;
    while left > 0 {
        let size = (1 + mix.below(n / 3 + 1)).min(left);
        sizes.push(size);
        left -= size;
    }
    (order, sizes)
}

/// Every cell of every result row as text, rows in the order they came; a
/// failed run as its message.
fn rendered(result: Result<Vec<Batch>, NutmegError>) -> Vec<String> {
    let batches = match result {
        Ok(batches) => batches,
        Err(error) => return vec![format!("error: {}", error.shown())],
    };
    let options = arrow::util::display::FormatOptions::default().with_null("null");
    let mut rows = Vec::new();
    for batch in &batches {
        let formatters: Vec<_> = batch
            .inner
            .columns()
            .iter()
            .map(|c| arrow::util::display::ArrayFormatter::try_new(c.as_ref(), &options).unwrap())
            .collect();
        for row in 0..batch.inner.num_rows() {
            let cells: Vec<String> = formatters.iter().map(|f| f.value(row).to_string()).collect();
            rows.push(cells.join(" | "));
        }
    }
    rows
}

type Calls = [(String, String, ValidatedArguments)];

/// Every registered kernel with its probe arguments, on the outgoing and the
/// undirected projection, unweighted and weighted by `w`. A combination the
/// validator refuses is left out.
fn calls() -> Vec<(String, String, ValidatedArguments)> {
    let mut out = Vec::new();
    for algorithm in algorithm_names() {
        for orientation in ["outgoing", "undirected"] {
            for weighted in [false, true] {
                let json = if weighted {
                    format!(r#"{{"orientation": "{orientation}", "weightProperty": "w"}}"#)
                } else {
                    format!(r#"{{"orientation": "{orientation}"}}"#)
                };
                let options: Options = parse_options(&json).unwrap();
                if let Ok(args) = probe_args_with(&algorithm, options) {
                    let weight = if weighted { "weighted" } else { "unweighted" };
                    out.push((format!("{algorithm} {orientation} {weight}"), algorithm.clone(), args));
                }
            }
        }
    }
    out
}

/// Stage the fixture under `name` in the arrival order drawn from `seed`.
fn stage_fixture(
    registry: &mut Registry,
    name: &str,
    fixture: &Fixture,
    seed: u64,
    edges_only: bool,
    appends: bool,
    order: StageOrder,
) {
    let mapping = ColumnMapping::new();
    if edges_only {
        registry.stage(name, Part::Nodes, &vec![], &mapping, true, order).unwrap();
    } else {
        let (rows, sizes) = arrival(fixture.nodes.len(), seed);
        let batches = fixture.node_batches(&rows, &sizes);
        registry.stage(name, Part::Nodes, &batches, &mapping, true, order).unwrap();
    }
    let (rows, sizes) = arrival(fixture.edges.len(), seed.wrapping_mul(31));
    let batches = fixture.edge_batches(&rows, &sizes);
    if appends {
        for (i, batch) in batches.iter().enumerate() {
            registry
                .stage(name, Part::Edges, &vec![Batch { inner: batch.inner.clone() }], &mapping, i == 0, order)
                .unwrap();
        }
    } else {
        registry.stage(name, Part::Edges, &batches, &mapping, true, order).unwrap();
    }
}

/// Each call's rendered result on `name`.
fn results(registry: &mut Registry, name: &str, calls: &Calls) -> Vec<Vec<String>> {
    calls.iter().map(|(_, algorithm, args)| rendered(run(registry, algorithm, name, args))).collect()
}

/// Stage the fixture under a fresh name, collect every call's result, drop it.
fn staged_results(
    registry: &mut Registry,
    calls: &Calls,
    seed: u64,
    edges_only: bool,
    appends: bool,
    order: StageOrder,
) -> Vec<Vec<String>> {
    let name = format!("order-{order:?}-{seed}-{edges_only}-{appends}");
    stage_fixture(registry, &name, &fixture(), seed, edges_only, appends, order);
    let out = results(registry, &name, calls);
    assert!(registry.drop(&name));
    out
}

/// The kernels with a call whose values differ between two stagings, compared
/// as multisets of rows.
fn differing(calls: &Calls, left: &[Vec<String>], right: &[Vec<String>]) -> BTreeSet<String> {
    let sorted = |rows: &Vec<String>| {
        let mut rows = rows.clone();
        rows.sort();
        rows
    };
    calls
        .iter()
        .zip(left.iter().zip(right))
        .filter(|(_, (l, r))| sorted(l) != sorted(r))
        .map(|((_, algorithm, _), _)| algorithm.clone())
        .collect()
}

/// The modularity `algorithm` reaches on the fixture staged in the arrival
/// order drawn from `seed`.
fn modularity_reached(
    registry: &mut Registry,
    algorithm: &str,
    seed: u64,
    edges_only: bool,
    appends: bool,
    order: StageOrder,
) -> f64 {
    let name = format!("modularity-{algorithm}-{order:?}-{seed}-{edges_only}-{appends}");
    stage_fixture(registry, &name, &fixture(), seed, edges_only, appends, order);
    let options = parse_options(r#"{"orientation": "undirected"}"#).unwrap();
    let batches = run(registry, algorithm, &name, &validate(algorithm, &options).unwrap()).unwrap();
    assert!(registry.drop(&name));
    batches[0]
        .inner
        .column_by_name("modularity")
        .unwrap()
        .as_any()
        .downcast_ref::<Float64Array>()
        .unwrap()
        .value(0)
}

#[test]
fn canonical_order_makes_every_kernel_independent_of_arrival_order() {
    let mut registry = Registry::new(8usize << 30);
    let calls = calls();
    assert!(calls.len() >= 100, "{} calls", calls.len());
    for edges_only in [false, true] {
        let canonical: Vec<_> = [1, 2, 3]
            .map(|seed| {
                staged_results(&mut registry, &calls, seed, edges_only, false, StageOrder::Canonical)
            })
            .into();
        let succeeded = canonical[0]
            .iter()
            .filter(|rows| !rows.iter().any(|row| row.starts_with("error:")))
            .count();
        assert!(
            succeeded * 2 > calls.len(),
            "only {succeeded} of {} calls ran; the comparison would be of errors",
            calls.len()
        );
        for (i, (label, _, _)) in calls.iter().enumerate() {
            for other in &canonical[1..] {
                assert_eq!(canonical[0][i], other[i], "{label} (edges only: {edges_only})");
            }
        }

        let as_staged: Vec<_> = [1, 2, 3]
            .map(|seed| {
                staged_results(&mut registry, &calls, seed, edges_only, false, StageOrder::AsStaged)
            })
            .into();
        let mut sensitive = BTreeSet::new();
        for other in &as_staged[1..] {
            sensitive.extend(differing(&calls, &as_staged[0], other));
        }
        for kernel in ["leiden", "louvain", "labelPropagation"] {
            assert!(
                sensitive.contains(kernel),
                "{kernel} gave the same values in every arrival order as staged \
                 (edges only: {edges_only}); sensitive: {sensitive:?}"
            );
        }
    }
    for algorithm in ["leiden", "louvain"] {
        for edges_only in [false, true] {
            let mut reached = |order| -> BTreeSet<u64> {
                [1, 2, 3, 4]
                    .map(|seed| {
                        modularity_reached(&mut registry, algorithm, seed, edges_only, false, order)
                            .to_bits()
                    })
                    .into()
            };
            let context = format!("{algorithm} (edges only: {edges_only})");
            assert_eq!(reached(StageOrder::Canonical).len(), 1, "{context}");
            assert!(reached(StageOrder::AsStaged).len() > 1, "{context}");
        }
    }
}

#[test]
fn canonical_order_covers_the_whole_part_across_appends() {
    let mut registry = Registry::new(8usize << 30);
    let calls = calls();
    let whole = staged_results(&mut registry, &calls, 1, true, false, StageOrder::Canonical);
    for seed in [4, 5] {
        let appended = staged_results(&mut registry, &calls, seed, true, true, StageOrder::Canonical);
        for (i, (label, _, _)) in calls.iter().enumerate() {
            assert_eq!(whole[i], appended[i], "{label} (appends from seed {seed})");
        }
    }
    let left = staged_results(&mut registry, &calls, 4, true, true, StageOrder::AsStaged);
    let right = staged_results(&mut registry, &calls, 5, true, true, StageOrder::AsStaged);
    let sensitive = differing(&calls, &left, &right);
    assert!(sensitive.contains("leiden") && sensitive.contains("louvain"), "{sensitive:?}");
    let reached: BTreeSet<u64> = [4, 5, 6]
        .map(|seed| {
            modularity_reached(&mut registry, "leiden", seed, true, true, StageOrder::AsStaged)
                .to_bits()
        })
        .into();
    assert!(reached.len() > 1, "as staged, appends reached one modularity");

    // An as-staged write, then a canonical append: the whole part is sorted.
    let name = "order-mixed";
    let fixture = fixture();
    let mapping = ColumnMapping::new();
    let (rows, sizes) = arrival(fixture.edges.len(), 9);
    let batches = fixture.edge_batches(&rows, &sizes);
    let (first, rest) = batches.split_at(batches.len() / 2);
    registry.stage(name, Part::Nodes, &vec![], &mapping, true, StageOrder::AsStaged).unwrap();
    registry.stage(name, Part::Edges, &first.iter().map(|b| Batch { inner: b.inner.clone() }).collect(), &mapping, true, StageOrder::AsStaged).unwrap();
    registry.stage(name, Part::Edges, &rest.iter().map(|b| Batch { inner: b.inner.clone() }).collect(), &mapping, false, StageOrder::Canonical).unwrap();
    let mixed = results(&mut registry, name, &calls);
    assert!(registry.drop(name));
    for (i, (label, _, _)) in calls.iter().enumerate() {
        assert_eq!(whole[i], mixed[i], "{label} (as staged, then a canonical append)");
    }
}
