//! Running Grust's algorithms on staged graphs: the projection each read
//! needs, built once per graph revision and projection options and cached,
//! the nodes a graph staged from edges alone takes from its endpoints, and
//! each read run on an execution of its own.
use vstd::prelude::*;
use vstd::string::*;

use crate::budget::{failure, failure_text, live_bytes, refusal_of, total, Admitted, Budget, Refusal, RefusalKind};
use crate::catalog::{definitions, kernel_names, short_names_in, views, Definition, OutputSpec};
use crate::error::{join3, NutmegError};
use crate::frame::{
    debug_text, field_defs, field_info, int_field, int_value, make_batch, num_rows, reschema,
    with_nullable, Batch, Column, FieldDef, batch_fields, batch_rows, batch_defs, field_nullable, column_len, field_name, field_names, quoted,
};
use crate::limits::QueryLimits;
use crate::nodes::{derive_nodes, derive_nodes_bound};
use crate::reads::{checkpoint, Query};
use crate::store::{lookup, names_of, part_of, unknown_graph_text, EntryView, Store};
use crate::text::{chars_of, decimal_of, eq_ignore_case_chars};

verus! {

#[verifier::external_type_specification]
#[verifier::external_body]
pub struct ExValidatedArguments(grust_procedures::ValidatedArguments);

#[verifier::external_type_specification]
#[verifier::external_body]
pub struct ExArrowResultCursor(grust_algorithms::ArrowResultCursor);

#[verifier::external_type_specification]
#[verifier::external_body]
pub struct ExNodeProperties(grust_algorithms::NodeProperties);

#[verifier::external_type_specification]
#[verifier::external_body]
pub struct ExOrientation(grust_algorithms::Orientation);

/// The value a call's validated options hold under `key`
/// (`ValidatedArguments::options().get(key)`): its `Debug` (of the
/// `Option`), and its text where it is a `Value::String`.
#[verifier::external_body]
pub(crate) fn option_value(args: &grust_procedures::ValidatedArguments, key: &str) -> (String, Option<String>) {
    let value = args.options().get(key);
    let text = match value {
        Some(grust_core::Value::String(text)) => Some(text.clone()),
        _ => None,
    };
    (format!("{value:?}"), text)
}

/// The projection options, in the order a sorted map lists them.
pub open spec fn projection_option_names() -> Seq<Seq<char>> {
    seq!["defaultWeight"@, "nodeLabels"@, "orientation"@, "relationshipTypes"@, "weightProperty"@]
}

/// The first `n` entries of a projection key: each option's name and the
/// text `values` holds for it, both quoted, `: ` between them, `, ` between
/// entries.
pub open spec fn key_entries(values: Seq<Seq<char>>, n: nat) -> Seq<char>
    decreases n,
{
    if n == 0 {
        Seq::empty()
    } else {
        let earlier = key_entries(values, (n - 1) as nat);
        let sep = if n > 1 { ", "@ } else { Seq::empty() };
        earlier + sep + quoted(projection_option_names()[n - 1]) + ": "@ + quoted(values[n - 1])
    }
}

/// Whether `key` is a projection key: the projection options' names, each
/// with some value's text, in the form [`projection_key`] writes.
pub open spec fn is_projection_key(key: Seq<char>) -> bool {
    exists|values: Seq<Seq<char>>|
        values.len() == projection_option_names().len() && key == "{"@ + key_entries(
            values,
            projection_option_names().len(),
        ) + "}"@
}

/// The key a projection is cached under: each projection option's name and
/// value, as the `Debug` of a map of the option names, sorted, to the `Debug`
/// of each option's value writes them.
pub fn projection_key(args: &grust_procedures::ValidatedArguments) -> (r: String)
    ensures
        exists|values: Seq<Seq<char>>|
            values.len() == projection_option_names().len() && r@ == "{"@ + key_entries(
                values,
                projection_option_names().len(),
            ) + "}"@,
        is_projection_key(r@),
{
    let keys = vec!["defaultWeight", "nodeLabels", "orientation", "relationshipTypes", "weightProperty"];
    assert(keys@.len() == projection_option_names().len());
    assert(forall|j: int| 0 <= j < keys@.len() ==> #[trigger] keys@[j]@ == projection_option_names()[j]);
    let mut out = String::from_str("{");
    let ghost mut values: Seq<Seq<char>> = Seq::empty();
    let mut i: usize = 0;
    while i < keys.len()
        invariant
            i <= keys@.len(),
            keys@.len() == projection_option_names().len(),
            forall|j: int| 0 <= j < keys@.len() ==> #[trigger] keys@[j]@ == projection_option_names()[j],
            values.len() == i,
            out@ == "{"@ + key_entries(values, i as nat),
        decreases keys@.len() - i,
    {
        let ghost before = out@;
        if i > 0 {
            out.append(", ");
        }
        let name = debug_text(keys[i]);
        out.append(name.as_str());
        out.append(": ");
        let value = option_value(args, keys[i]).0;
        out.append(debug_text(value.as_str()).as_str());
        proof {
            let next = values.push(value@);
            assert(key_entries(next, i as nat) =~= key_entries(values, i as nat)) by {
                lemma_key_entries_prefix(values, next, i as nat);
            }
            values = next;
            let sep = if i > 0 { ", "@ } else { Seq::<char>::empty() };
            assert(out@ =~= before + sep + quoted(projection_option_names()[i as int]) + ": "@ + quoted(
                values[i as int],
            ));
            assert(key_entries(values, (i + 1) as nat) == key_entries(values, i as nat) + sep + quoted(
                projection_option_names()[i as int],
            ) + ": "@ + quoted(values[i as int]));
        }
        i = i + 1;
    }
    out.append("}");
    out
}

/// The entries before `n` read only the values before `n`.
proof fn lemma_key_entries_prefix(a: Seq<Seq<char>>, b: Seq<Seq<char>>, n: nat)
    requires
        n <= a.len(),
        n <= b.len(),
        forall|j: int| 0 <= j < n ==> a[j] == b[j],
    ensures
        key_entries(a, n) == key_entries(b, n),
    decreases n,
{
    if n > 0 {
        lemma_key_entries_prefix(a, b, (n - 1) as nat);
    }
}

/// `GraphProjection::from_arrow_batches` of `nodes` and `edges` under the
/// call's projection options (`grust_algorithm_procedures::projection_options`),
/// identified as `graph` at `revision` for `principal`
/// (`SnapshotIdentity::new`), built and owned by `pool`.
#[verifier::external_body]
fn build_projection(
    graph: &str,
    revision: &str,
    principal: &str,
    nodes: &Vec<Batch>,
    edges: &Vec<Batch>,
    args: &grust_procedures::ValidatedArguments,
    pool: &grust_procedures::ExecutionContext,
) -> Result<grust_algorithms::GraphProjection, Refusal> {
    let identity = grust_procedures::SnapshotIdentity::new(graph.into(), revision.into(), principal.into())
        .map_err(refusal_of)?;
    let options = grust_algorithm_procedures::projection_options(args).map_err(refusal_of)?;
    let nodes: Vec<arrow::record_batch::RecordBatch> = nodes.iter().map(|b| b.inner.clone()).collect();
    let edges: Vec<arrow::record_batch::RecordBatch> = edges.iter().map(|b| b.inner.clone()).collect();
    grust_algorithms::GraphProjection::from_arrow_batches(identity, &nodes, &edges, options, pool)
        .map_err(refusal_of)
}

/// `GraphProjection`'s `Clone`: a second handle on the same projection.
#[verifier::external_body]
pub(crate) fn share_projection(p: &grust_algorithms::GraphProjection) -> grust_algorithms::GraphProjection {
    p.clone()
}

/// `GraphProjection::with_execution`: the projection, run on `ctx`; Grust
/// refuses an execution not within the owner's.
#[verifier::external_body]
fn with_execution(
    p: &grust_algorithms::GraphProjection,
    ctx: &grust_procedures::ExecutionContext,
) -> Result<grust_algorithms::GraphProjection, Refusal> {
    p.with_execution(ctx).map_err(refusal_of)
}

/// `GraphProjection::statistics`: nodes, edges, arcs, self loops and the
/// bytes of its adjacency.
#[verifier::external_body]
fn statistics(p: &grust_algorithms::GraphProjection) -> Result<(usize, usize, usize, usize, usize), Refusal> {
    p.statistics().map(|s| (s.nodes, s.edges, s.arcs, s.self_loops, s.csr_bytes)).map_err(refusal_of)
}

/// The orientation the call's projection options give, and whether they
/// select a weight property (`grust_algorithm_procedures::projection_options`).
#[verifier::external_body]
fn projection_shape(args: &grust_procedures::ValidatedArguments) -> Result<(grust_algorithms::Orientation, bool), Refusal> {
    grust_algorithm_procedures::projection_options(args)
        .map(|o| (o.orientation, matches!(o.weight, grust_algorithms::WeightSelection::Property { .. })))
        .map_err(refusal_of)
}

/// `CsrEstimate::upper_bound`: the most arcs, and the bytes of the outgoing
/// adjacency, of a reverse index and of the build's positions.
#[verifier::external_body]
fn csr_upper_bound(
    nodes: usize,
    edges: usize,
    orientation: grust_algorithms::Orientation,
    weighted: bool,
) -> Result<(usize, usize, usize, usize), Refusal> {
    grust_algorithms::CsrEstimate::upper_bound(nodes, edges, orientation, weighted)
        .map(|e| (e.max_arcs, e.outgoing_bytes, e.reverse_bytes, e.positions_bytes))
        .map_err(refusal_of)
}

/// Whether the kernel reads node properties with these options
/// (`grust_algorithm_procedures::node_property_requests` is not empty).
#[verifier::external_body]
fn wants_properties(algorithm: &str, args: &grust_procedures::ValidatedArguments) -> Result<bool, Refusal> {
    grust_algorithm_procedures::node_property_requests(algorithm, args).map(|w| !w.is_empty()).map_err(refusal_of)
}

/// `NodeProperties::from_arrow_batches` of `nodes` for the properties the
/// kernel asks for (`node_property_requests`), over `projection`.
#[verifier::external_body]
fn node_properties(
    algorithm: &str,
    args: &grust_procedures::ValidatedArguments,
    nodes: &Vec<Batch>,
    projection: &grust_algorithms::GraphProjection,
) -> Result<grust_algorithms::NodeProperties, Refusal> {
    let wanted = grust_algorithm_procedures::node_property_requests(algorithm, args).map_err(refusal_of)?;
    let nodes: Vec<arrow::record_batch::RecordBatch> = nodes.iter().map(|b| b.inner.clone()).collect();
    grust_algorithms::NodeProperties::from_arrow_batches(&nodes, projection, &wanted).map_err(refusal_of)
}

/// `grust_algorithm_procedures::run_on_projection`.
#[verifier::external_body]
fn run_on_projection(
    algorithm: &str,
    projection: &grust_algorithms::GraphProjection,
    args: &grust_procedures::ValidatedArguments,
) -> Result<grust_algorithms::ArrowResultCursor, Refusal> {
    grust_algorithm_procedures::run_on_projection(algorithm, projection, args).map_err(refusal_of)
}

/// `grust_algorithm_procedures::run_with_properties`.
#[verifier::external_body]
fn run_with_properties(
    algorithm: &str,
    properties: &grust_algorithms::NodeProperties,
    args: &grust_procedures::ValidatedArguments,
) -> Result<grust_algorithms::ArrowResultCursor, Refusal> {
    grust_algorithm_procedures::run_with_properties(algorithm, properties, args).map_err(refusal_of)
}

/// `ArrowResultCursor::next_batch`: the next batch the kernel yields, or
/// `None` at its end.
#[verifier::external_body]
fn next_batch(cursor: &mut grust_algorithms::ArrowResultCursor) -> Result<Option<Batch>, Refusal> {
    cursor.next_batch().map(|b| b.map(|b| Batch { inner: b.record_batch().clone() })).map_err(refusal_of)
}

/// `ExecutionContext::child` of `pool`: its own memory ceiling, work
/// budget, deadline and worker count, the rest of `ChildLimits` as its
/// `Default` gives.
#[verifier::external_body]
fn child_context(
    pool: &grust_procedures::ExecutionContext,
    memory_bytes: Option<usize>,
    work_units: usize,
    deadline: Option<std::time::Instant>,
    concurrency: Option<usize>,
) -> Result<grust_procedures::ExecutionContext, Refusal> {
    pool.child(grust_procedures::ChildLimits {
        memory_bytes,
        work_units,
        deadline,
        concurrency,
        ..grust_procedures::ChildLimits::default()
    }).map_err(refusal_of)
}

#[verifier::external_type_specification]
#[verifier::external_body]
pub struct ExInstant(std::time::Instant);

/// `Instant::now`.
#[verifier::external_body]
fn now() -> std::time::Instant {
    std::time::Instant::now()
}

/// `Duration::from_millis`.
#[verifier::external_body]
fn millis(ms: u64) -> std::time::Duration {
    std::time::Duration::from_millis(ms)
}

/// `Instant::checked_add`: `None` where the instant cannot be represented.
#[verifier::external_body]
fn later(moment: &std::time::Instant, span: &std::time::Duration) -> Option<std::time::Instant> {
    moment.checked_add(*span)
}

/// A refusal of the declared output schema by a result batch: a column
/// count or a column name that differs from the declaration.
pub open spec fn declared_mismatch(declared: Seq<Seq<char>>, observed: Seq<Seq<char>>) -> bool {
    declared.len() != observed.len() || exists|i: int| 0 <= i < declared.len() && declared[i] != observed[i]
}

/// The names of the columns `definition` declares, in order.
pub open spec fn declared_names(definition: Definition) -> Seq<Seq<char>> {
    definition.outputs@.map_values(|o: crate::catalog::OutputSpec| o.name@)
}

/// Check a result's column names against the declaration: the count first,
/// then each name in turn.
pub fn check_outputs(definition: &Definition, observed: &Vec<String>) -> (r: Result<(), NutmegError>)
    ensures
        r is Ok <==> !declared_mismatch(
            definition.outputs@.map_values(|o: crate::catalog::OutputSpec| o.name@),
            views(observed@),
        ),
        r is Err ==> r->Err_0 is Execution,
{
    let ghost declared = definition.outputs@.map_values(|o: crate::catalog::OutputSpec| o.name@);
    if observed.len() != definition.outputs.len() {
        let mut m = String::from_str("nutmeg: `");
        m.append(definition.name.as_str());
        m.append("` produced ");
        m.append(decimal_of(observed.len() as u64).as_str());
        m.append(" columns, Grust declares ");
        m.append(decimal_of(definition.outputs.len() as u64).as_str());
        return Err(NutmegError::Execution(m));
    }
    let mut i: usize = 0;
    while i < observed.len()
        invariant
            i <= observed@.len(),
            observed@.len() == definition.outputs@.len(),
            declared == definition.outputs@.map_values(|o: crate::catalog::OutputSpec| o.name@),
            forall|k: int| 0 <= k < i ==> declared[k] == views(observed@)[k],
        decreases observed@.len() - i,
    {
        if !crate::text::str_eq(observed[i].as_str(), definition.outputs[i].name.as_str()) {
            let mut m = String::from_str("nutmeg: `");
            m.append(definition.name.as_str());
            m.append("` produced column `");
            m.append(observed[i].as_str());
            m.append("` where Grust declares `");
            m.append(definition.outputs[i].name.as_str());
            m.append("`");
            assert(declared[i as int] != views(observed@)[i as int]);
            return Err(NutmegError::Execution(m));
        }
        i = i + 1;
    }
    Ok(())
}

/// Restate a result batch's schema with each column's declared nullability.
/// A column count or name that differs from the declaration is refused
/// ([`check_outputs`]); the data types are kept as produced, and a declared
/// non-null column that holds a null is refused by Arrow's own check.
pub fn conform(definition: &Definition, batch: Batch) -> (r: Result<Batch, NutmegError>)
    ensures
        r is Err ==> r->Err_0 is Execution,
        declared_mismatch(declared_names(*definition), batch_fields(batch)) ==> r is Err,
        r matches Ok(b) ==> batch_fields(b) == batch_fields(batch) && batch_rows(b) == batch_rows(batch),
        r matches Ok(b) ==> batch_fields(b) == declared_names(*definition),
        r matches Ok(b) ==> nullable_as(batch_defs(b), declared_nullable(*definition)),
{
    let fields = field_defs(&batch);
    let mut names: Vec<String> = Vec::new();
    let mut i: usize = 0;
    while i < fields.len()
        invariant
            i <= fields@.len(),
            names@.len() == i,
            forall|x: int| 0 <= x < i ==> #[trigger] names@[x]@ == field_name(fields@[x]),
        decreases fields@.len() - i,
    {
        names.push(field_info(&fields[i]).name);
        i = i + 1;
    }
    assert(views(names@) =~= batch_fields(batch));
    if let Err(e) = check_outputs(definition, &names) {
        return Err(e);
    }
    assert(batch_fields(batch) =~= declared_names(*definition));
    let mut declared: Vec<FieldDef> = Vec::new();
    let mut k: usize = 0;
    while k < fields.len() && k < definition.outputs.len()
        invariant
            k <= fields@.len(),
            declared@.len() == k,
            forall|x: int| 0 <= x < k ==> #[trigger] field_name(declared@[x]) == field_name(fields@[x]),
            forall|x: int| 0 <= x < k ==> #[trigger] field_nullable(declared@[x]) == definition.outputs@[x].nullable,
        decreases fields@.len() - k,
    {
        declared.push(with_nullable(&fields[k], definition.outputs[k].nullable));
        k = k + 1;
    }
    assert(field_names(declared@) =~= batch_fields(batch));
    assert(nullable_as(declared@, declared_nullable(*definition)));
    match reschema(&batch, declared) {
        Ok(b) => Ok(b),
        Err(m) => {
            let mut text = String::from_str("nutmeg: `");
            text.append(definition.name.as_str());
            text.append("` broke its declared output schema: ");
            text.append(m.as_str());
            Err(NutmegError::Execution(text))
        },
    }
}

/// One row of Int64 counts named `names`; the counts a build produces must
/// be as many as the names Grust declares.
pub fn int_row(names: &Vec<String>, values: &Vec<usize>) -> (r: Result<Vec<Batch>, NutmegError>)
    ensures
        names@.len() != values@.len() ==> r is Err,
        r is Err ==> r->Err_0 is Execution,
        r matches Ok(v) ==> v@.len() == 1 && batch_fields(v@[0]) == views(names@) && batch_rows(v@[0])
            == 1,
{
    if names.len() != values.len() {
        let mut shown = String::from_str("[");
        let mut i: usize = 0;
        while i < names.len()
            invariant
                i <= names@.len(),
            decreases names@.len() - i,
        {
            if i > 0 {
                shown.append(", ");
            }
            shown.append(debug_text(names[i].as_str()).as_str());
            i = i + 1;
        }
        shown.append("]");
        let mut m = String::from_str("nutmeg: Grust declares ");
        m.append(shown.as_str());
        m.append("; this build produces ");
        m.append(decimal_of(values.len() as u64).as_str());
        m.append(" values");
        return Err(NutmegError::Execution(m));
    }
    let mut fields: Vec<FieldDef> = Vec::new();
    let mut columns: Vec<Column> = Vec::new();
    let mut i: usize = 0;
    while i < names.len()
        invariant
            i <= names@.len(),
            names@.len() == values@.len(),
            fields@.len() == i,
            columns@.len() == i,
            forall|x: int| 0 <= x < i ==> #[trigger] field_name(fields@[x]) == names@[x]@,
            forall|x: int| 0 <= x < i ==> #[trigger] column_len(columns@[x]) == 1,
        decreases names@.len() - i,
    {
        fields.push(int_field(names[i].as_str()));
        #[verifier::truncate]
        let value = values[i] as i64;
        columns.push(int_value(value));
        i = i + 1;
    }
    assert(field_names(fields@) =~= views(names@));
    let ghost made = columns@;
    match make_batch(fields, columns) {
        Ok(b) => {
            assert(column_len(made[0]) == batch_rows(b));
            Ok(vec![b])
        },
        Err(m) => Err(NutmegError::Execution(m)),
    }
}

/// The first of `defs` whose short name in `shorts` is `name` but for ASCII
/// case, if any.
pub open spec fn first_short_match(shorts: Seq<Seq<char>>, defs: Seq<Definition>, name: Seq<char>) -> Option<
    Definition,
>
    decreases shorts.len(),
{
    if shorts.len() == 0 || defs.len() == 0 {
        None
    } else if crate::text::eq_ignore_case(shorts[0], name) {
        Some(defs[0])
    } else {
        first_short_match(shorts.drop_first(), defs.drop_first(), name)
    }
}

/// `found` is the definition Grust's served catalog holds for the short
/// name `name`, in any case: the first, by registered name, whose short name
/// matches (`None` where none does), for the definitions and kernels Grust
/// registers.
pub open spec fn defined_as(name: Seq<char>, found: Option<Definition>) -> bool {
    exists|all: Seq<Definition>, kernels: Seq<Seq<char>>, defs: Seq<Definition>|
        #![trigger crate::catalog::served(all, defs), crate::catalog::short_names(kernels, defs)]
        crate::catalog::served(all, defs) && first_short_match(
            crate::catalog::short_names(kernels, defs),
            defs,
            name,
        ) == found
}

/// `names` are the output columns Grust's catalog declares for the
/// algorithm whose short name is `algorithm` (see [`defined_as`]).
pub open spec fn declares(algorithm: Seq<char>, names: Seq<Seq<char>>) -> bool {
    exists|d: Definition| #[trigger] defined_as(algorithm, Some(d)) && declared_names(d) == names
}

/// Whether each output column `d` declares may hold nulls, in order.
pub open spec fn declared_nullable(d: Definition) -> Seq<bool> {
    d.outputs@.map_values(|o: OutputSpec| o.nullable)
}

/// Whether `fields` admit nulls exactly where `flags` says, one for one.
pub open spec fn nullable_as(fields: Seq<FieldDef>, flags: Seq<bool>) -> bool {
    &&& fields.len() == flags.len()
    &&& forall|k: int| 0 <= k < fields.len() ==> #[trigger] field_nullable(fields[k]) == flags[k]
}

/// Whether `fields` admit nulls exactly where Grust's definition of
/// `algorithm` declares its output columns nullable.
pub open spec fn declares_nullability(algorithm: Seq<char>, fields: Seq<FieldDef>) -> bool {
    exists|d: Definition| #[trigger] defined_as(algorithm, Some(d)) && nullable_as(fields, declared_nullable(d))
}

/// Grust's definition of the algorithm whose short name is `algorithm`, in
/// any case.
pub fn definition_of(algorithm: &str) -> (r: Result<Definition, NutmegError>)
    ensures
        r matches Err(e) ==> e is Execution && e.text() == "nutmeg: unknown algorithm `"@ + algorithm@
            + "`"@,
        defined_as(
            algorithm@,
            match r {
                Ok(d) => Some(d),
                Err(_) => None,
            },
        ),
{
    let mut defs = definitions();
    let kernels = kernel_names();
    proof {
        let all = choose|all: Seq<Definition>| crate::catalog::served(all, defs@);
        crate::catalog::lemma_served_are_algorithms(all, defs@);
    }
    let shorts = short_names_in(&kernels, &defs);
    assert(views(shorts@).len() == shorts@.len());
    let ghost all = choose|all: Seq<Definition>| crate::catalog::served(all, defs@);
    let ghost names = crate::catalog::short_names(views(kernels@), defs@);
    let ghost whole = defs@;
    assert(crate::catalog::served(all, whole));
    assert(names.skip(0) =~= names);
    assert(whole.skip(0) =~= whole);
    let want = chars_of(algorithm);
    let mut i: usize = 0;
    while i < shorts.len()
        invariant
            i <= shorts@.len(),
            shorts@.len() == defs@.len(),
            defs@ == whole,
            crate::catalog::served(all, whole),
            names == crate::catalog::short_names(views(kernels@), whole),
            views(shorts@) == names,
            names.len() == whole.len(),
            want@ == algorithm@,
            first_short_match(names, whole, algorithm@) == first_short_match(
                names.skip(i as int),
                whole.skip(i as int),
                algorithm@,
            ),
        decreases shorts@.len() - i,
    {
        let c = chars_of(shorts[i].as_str());
        assert(names.skip(i as int)[0] == shorts@[i as int]@);
        if eq_ignore_case_chars(c.as_slice(), want.as_slice()) {
            let d = defs.remove(i);
            proof {
                assert(crate::catalog::served(all, whole));
                assert(first_short_match(names, whole, algorithm@) == Some(d));
            }
            return Ok(d);
        }
        assert(names.skip(i as int).drop_first() =~= names.skip(i + 1));
        assert(whole.skip(i as int).drop_first() =~= whole.skip(i + 1));
        i = i + 1;
    }
    proof {
        assert(crate::catalog::served(all, whole));
        assert(names.skip(i as int).len() == 0);
    }
    Err(NutmegError::Execution(join3("nutmeg: unknown algorithm `", algorithm, "`")))
}

/// The names of an algorithm's declared output columns.
pub fn output_names(algorithm: &str) -> (r: Result<Vec<String>, NutmegError>)
    ensures
        r is Err ==> r->Err_0 is Execution,
        r is Err ==> defined_as(algorithm@, None),
        r matches Ok(v) ==> exists|d: Definition|
            #[trigger] defined_as(algorithm@, Some(d)) && views(v@) == declared_names(d),
{
    match definition_of(algorithm) {
        Ok(d) => {
            let mut names: Vec<String> = Vec::new();
            let mut i: usize = 0;
            while i < d.outputs.len()
                invariant
                    i <= d.outputs@.len(),
                    views(names@) == declared_names(d).subrange(0, i as int),
                decreases d.outputs@.len() - i,
            {
                let ghost before = names@;
                names.push(d.outputs[i].name.clone());
                proof {
                    assert(views(names@) =~= views(before).push(d.outputs@[i as int].name@));
                    assert(declared_names(d).subrange(0, i + 1) =~= declared_names(d).subrange(
                        0,
                        i as int,
                    ).push(d.outputs@[i as int].name@));
                }
                i = i + 1;
            }
            assert(declared_names(d).subrange(0, d.outputs@.len() as int) =~= declared_names(d));
            assert(defined_as(algorithm@, Some(d)));
            Ok(names)
        },
        Err(e) => Err(e),
    }
}

/// A kernel's failure: a refusal of memory says which budget refused it, as
/// the read's own admissions do; any other is Grust's message.
fn kernel_failure(
    pool: &grust_procedures::ExecutionContext,
    charge: &grust_procedures::ExecutionContext,
    graph: &str,
    algorithm: &str,
    refused: &Refusal,
) -> (e: NutmegError)
    ensures
        e is ResourcesExhausted || e is Execution,
        refused.kind matches RefusalKind::Exceeded { memory: true, limit } ==> e is ResourcesExhausted
            && exists|own: usize, pool_limit: usize, used: usize|
            #[trigger] crate::budget::refusal_matches(
                e,
                graph@,
                None,
                "more memory for `"@ + algorithm@ + "`"@,
                limit,
                own,
                pool_limit,
                used,
            ),
        !(refused.kind matches RefusalKind::Exceeded { memory: true, .. }) ==> e is Execution && e.text()
            == crate::budget::failure_text(refused.message@),
{
    match refused.kind {
        RefusalKind::Exceeded { memory: true, limit } => {
            let what = join3("more memory for `", algorithm, "`");
            let budget = Budget { pool, charge, graph, part: None };
            budget.refused(what.as_str(), limit)
        },
        _ => failure(refused),
    }
}

/// What a read yields: rows made by hand, or the kernel's cursor, checked
/// batch by batch against the algorithm's declared outputs.
pub enum Reading {
    Rows { definition: Definition, batches: Vec<Batch>, next: usize },
    Cursor {
        definition: Definition,
        cursor: grust_algorithms::ArrowResultCursor,
        graph: String,
        algorithm: String,
    },
}

impl Reading {
    /// The names of the columns the algorithm declares.
    pub closed spec fn declared(&self) -> Seq<Seq<char>> {
        match self {
            Reading::Rows { definition, .. } => declared_names(*definition),
            Reading::Cursor { definition, .. } => declared_names(*definition),
        }
    }

    /// Whether each column the algorithm declares may hold nulls.
    pub closed spec fn nullabilities(&self) -> Seq<bool> {
        match self {
            Reading::Rows { definition, .. } => declared_nullable(*definition),
            Reading::Cursor { definition, .. } => declared_nullable(*definition),
        }
    }

    /// The next batch of the result, conformed to its declaration, or `None`
    /// at its end. A kernel that runs out of memory is refused naming the
    /// budget that refused it (`pool`, or the read's own `charge`).
    pub fn next(
        &mut self,
        pool: &grust_procedures::ExecutionContext,
        charge: &grust_procedures::ExecutionContext,
    ) -> (r: Result<Option<Batch>, NutmegError>)
        ensures
            r is Err ==> r->Err_0 is Execution || r->Err_0 is ResourcesExhausted,
            final(self).declared() == old(self).declared(),
            final(self).nullabilities() == old(self).nullabilities(),
            r matches Ok(Some(b)) ==> batch_fields(b) == old(self).declared(),
            r matches Ok(Some(b)) ==> nullable_as(batch_defs(b), old(self).nullabilities()),
            *old(self) matches Reading::Rows { batches, next, .. } ==> if next < batches@.len() {
                &&& *final(self) matches Reading::Rows { batches: after, next: moved, .. } && after@
                    == batches@ && moved == next + 1
                &&& r matches Ok(Some(b)) ==> batch_rows(b) == batch_rows(batches@[next as int])
                &&& declared_mismatch(old(self).declared(), batch_fields(batches@[next as int])) ==> r is Err
            } else {
                r matches Ok(None) && *final(self) == *old(self)
            },
    {
        match self {
            Reading::Rows { definition, batches, next } => {
                if *next < batches.len() {
                    let b = crate::frame::share_batch(&batches[*next]);
                    *next = *next + 1;
                    match conform(definition, b) {
                        Ok(b) => Ok(Some(b)),
                        Err(e) => Err(e),
                    }
                } else {
                    Ok(None)
                }
            },
            Reading::Cursor { definition, cursor, graph, algorithm } => match next_batch(cursor) {
                Ok(Some(b)) => match conform(definition, b) {
                    Ok(b) => Ok(Some(b)),
                    Err(e) => Err(e),
                },
                Ok(None) => Ok(None),
                Err(refused) => Err(kernel_failure(pool, charge, graph.as_str(), algorithm.as_str(), &refused)),
            },
        }
    }
}

/// `"{what}{n}{rest}"`.
fn counted(what: &str, n: usize, rest: &str) -> (r: String)
    ensures
        r@ == what@ + crate::text::decimal(n as nat) + rest@,
{
    let mut m = String::from_str(what);
    m.append(decimal_of(n as u64).as_str());
    m.append(rest);
    m
}

/// `nodes` are those derived ([`derive_nodes`]) from `count` batches of
/// edges, canonical or not as `sorted` says.
pub open spec fn derived_from_edges(count: nat, sorted: bool, nodes: Batch) -> bool {
    exists|edges: Seq<Batch>|
        #[trigger] crate::nodes::derived_from(edges, sorted, nodes) && edges.len() == count
}

impl Store {
    /// A read on this store's budget: a child of the pool, with the read's
    /// own limits; its timeout counts from now. Limits Grust refuses are
    /// refused as a plan error.
    pub fn query(&self, limits: QueryLimits) -> (r: Result<Query, NutmegError>)
        ensures
            r is Err ==> r->Err_0 is Plan,
    {
        // A timeout counts from now; one too far away to represent sets no
        // deadline. No work limit is no ceiling.
        let deadline = match limits.timeout_ms {
            Some(ms) => later(&now(), &millis(ms)),
            None => None,
        };
        let work_units = match limits.work_units {
            Some(w) => w,
            None => usize::MAX,
        };
        match child_context(self.pool(), limits.memory_bytes, work_units, deadline, limits.concurrency) {
            Ok(context) => Ok(Query { context }),
            Err(refused) => {
                let mut m = String::from_str("nutmeg: read limits: ");
                m.append(refused.message.as_str());
                Err(NutmegError::Plan(m))
            },
        }
    }

    /// The nodes of graph `name` when none were staged, derived from its
    /// edges ([`derive_nodes`]), with the memory they take
    /// ([`derive_nodes_bound`]) admitted through `charge` before they are
    /// made; hold the admission as long as the nodes are used.
    pub fn derived_nodes(&self, name: &str, charge: &grust_procedures::ExecutionContext) -> (r: Result<
        (Batch, Admitted),
        NutmegError,
    >)
        requires
            self.wf(),
        ensures
            r matches Ok(d) ==> d.1.wf(),
            r is Err ==> r->Err_0 is Execution || r->Err_0 is ResourcesExhausted || r->Err_0 is Internal,
            lookup(self@, name@) is None ==> (r matches Err(NutmegError::Execution(m)) && m@
                == unknown_graph_text(name@)),
            r matches Ok(d) ==> (lookup(self@, name@) matches Some(e) && derived_from_edges(
                e.edges.counts.len(),
                e.edges_canonical,
                d.0,
            )),
    {
        let e = match self.existing(name) {
            Ok(e) => e,
            Err(err) => {
                return Err(err);
            },
        };
        let budget = Budget { pool: self.pool(), charge, graph: name, part: None };
        let edges = e.part(crate::Part::Edges).share_batches();
        let bound = derive_nodes_bound(&edges);
        let mut admitted = Admitted::new();
        let what = counted("", bound, " bytes to derive its nodes from its edges");
        if let Err(err) = budget.grant(&mut admitted, bound, what.as_str()) {
            return Err(err);
        }
        match derive_nodes(&edges, e.edges_canonical()) {
            Ok(nodes) => {
                assert(derived_from_edges(e@.edges.counts.len(), e@.edges_canonical, nodes));
                Ok((nodes, admitted))
            },
            Err(err) => Err(err),
        }
    }

    /// The node and edge rows of graph `name`: its staged nodes, or, when
    /// only edges were staged, the endpoints derived from them.
    pub fn staged_counts(&self, name: &str, charge: &grust_procedures::ExecutionContext) -> (r: Result<
        (usize, usize),
        NutmegError,
    >)
        requires
            self.wf(),
        ensures
            lookup(self@, name@) is None ==> (r matches Err(NutmegError::Execution(m)) && m@
                == unknown_graph_text(name@)),
            lookup(self@, name@) matches Some(e) && e.nodes.counts.len() > 0 ==> r is Ok,
            r matches Ok(c) ==> (lookup(self@, name@) matches Some(e) && c.1
                == crate::store::sat_total(e.edges.counts) && (e.nodes.counts.len() > 0 ==> c.0
                == crate::store::sat_total(e.nodes.counts))),
    {
        let e = match self.existing(name) {
            Ok(e) => e,
            Err(err) => {
                return Err(err);
            },
        };
        let edges = e.part(crate::Part::Edges).rows();
        let nodes = if e.part(crate::Part::Nodes).is_empty() {
            match self.derived_nodes(name, charge) {
                Ok((derived, _admitted)) => num_rows(&derived),
                Err(err) => {
                    return Err(err);
                },
            }
        } else {
            e.part(crate::Part::Nodes).rows()
        };
        Ok((nodes, edges))
    }

    /// The node batches a projection of `name` is built from: those staged,
    /// or, when only edges were staged, the endpoints derived from them, with
    /// their admission through `charge`; hold it as long as they are used.
    pub fn node_batches(&self, name: &str, charge: &grust_procedures::ExecutionContext) -> (r: Result<
        (Vec<Batch>, Admitted),
        NutmegError,
    >)
        requires
            self.wf(),
        ensures
            lookup(self@, name@) is None ==> r is Err,
            lookup(self@, name@) matches Some(e) && e.nodes.counts.len() > 0 ==> r is Ok,
            r matches Ok(n) ==> n.1.wf() && (lookup(self@, name@) matches Some(e) && (
            e.nodes.counts.len() > 0 ==> n.0@.len() == e.nodes.counts.len() && n.1@
                == Seq::<usize>::empty())),
    {
        let e = match self.existing(name) {
            Ok(e) => e,
            Err(err) => {
                return Err(err);
            },
        };
        if e.part(crate::Part::Nodes).is_empty() {
            match self.derived_nodes(name, charge) {
                Ok((nodes, admitted)) => Ok((vec![nodes], admitted)),
                Err(err) => Err(err),
            }
        } else {
            Ok((e.part(crate::Part::Nodes).share_batches(), Admitted::new()))
        }
    }

    /// The projection of `name` under the projection options in `args`,
    /// built on first use, on the pool, which owns it, and kept until the
    /// graph is staged again. Building it changes nothing else of the graph,
    /// nor any other graph.
    pub fn projection(&mut self, name: &str, args: &grust_procedures::ValidatedArguments) -> (r: Result<
        grust_algorithms::GraphProjection,
        NutmegError,
    >)
        requires
            old(self).wf(),
        ensures
            final(self).wf(),
            lookup(old(self)@, name@) is None ==> r is Err && final(self)@ == old(self)@,
            lookup(old(self)@, name@) is None ==> (r matches Err(NutmegError::Execution(m)) && m@
                == unknown_graph_text(name@)),
            r is Err ==> final(self)@ == old(self)@,
            r is Err ==> r->Err_0 is Execution || r->Err_0 is ResourcesExhausted || r->Err_0 is Internal,
            r is Ok ==> (lookup(old(self)@, name@) matches Some(e) && lookup(final(self)@, name@) matches Some(f)
                && f.projections.len() > 0 && f.nodes == e.nodes && f.edges == e.edges
                && f.revision == e.revision),
            r is Ok ==> exists|key: Seq<char>|
                #[trigger] is_projection_key(key) && (lookup(final(self)@, name@) matches Some(f)
                    && f.projections.contains(key)) && (lookup(old(self)@, name@) matches Some(e)
                    && e.projections.contains(key) ==> final(self)@ == old(self)@),
            forall|other: Seq<char>|
                other != name@ ==> #[trigger] lookup(final(self)@, other) == lookup(
                    old(self)@,
                    other,
                ),
    {
        let key = projection_key(args);
        let built = {
            let e = match self.existing(name) {
                Ok(e) => e,
                Err(err) => {
                    return Err(err);
                },
            };
            if let Some(found) = self.cached(name, key.as_str()) {
                proof {
                    assert(lookup(self@, name@)->0.projections.len() > 0);
                    assert(is_projection_key(key@));
                }
                return Ok(found);
            }
            let pool = self.pool();
            let nodes_part = e.part(crate::Part::Nodes);
            // Derived nodes are transient, but taken on the pool like the
            // projection they build: a projection is shared by every read.
            let (nodes, _derived) = if nodes_part.is_empty() {
                match self.derived_nodes(name, pool) {
                    Ok((derived, admitted)) => (vec![derived], admitted),
                    Err(err) => {
                        return Err(err);
                    },
                }
            } else {
                (nodes_part.share_batches(), Admitted::new())
            };
            let edges = e.part(crate::Part::Edges).share_batches();
            let mut revision = String::from_str("r");
            revision.append(decimal_of(e.revision()).as_str());
            match build_projection(name, revision.as_str(), "nutmeg", &nodes, &edges, args, pool) {
                Ok(graph) => graph,
                Err(refused) => {
                    return Err(
                        match refused.kind {
                            RefusalKind::Exceeded { memory: true, limit } => {
                                let mut m = String::from_str("nutmeg: graph `");
                                m.append(name);
                                m.append("`: its projection does not fit: ");
                                m.append(decimal_of(live_bytes(pool) as u64).as_str());
                                m.append(" of the ");
                                m.append(decimal_of(limit as u64).as_str());
                                m.append(
                                    "-byte memory budget are in use (NUTMEG_MEMORY_BYTES); drop or restage a graph to release its rows and projections",
                                );
                                NutmegError::ResourcesExhausted(m)
                            },
                            _ => failure(&refused),
                        },
                    );
                },
            }
        };
        let kept = share_projection(&built);
        let ghost k = key@;
        let _graph_found = self.cache(name, key, kept);
        assert(is_projection_key(k));
        Ok(built)
    }

    /// Open a read of `algorithm` on `graph` for `query`: counts for
    /// `estimateCsr`, which builds no projection; the projection's statistics
    /// for `projectionStats`; otherwise the kernel's cursor, run on a view of
    /// the cached projection bound to the read's own execution, with the
    /// node properties it reads where it reads any. A read cancelled, or out
    /// of time, before it starts builds nothing.
    pub fn open_read(
        &mut self,
        query: &Query,
        algorithm: &str,
        graph: &str,
        args: &grust_procedures::ValidatedArguments,
    ) -> (r: Result<Reading, NutmegError>)
        requires
            old(self).wf(),
        ensures
            final(self).wf(),
            forall|other: Seq<char>|
                other != graph@ ==> #[trigger] lookup(final(self)@, other) == lookup(
                    old(self)@,
                    other,
                ),
            lookup(old(self)@, graph@) is None ==> r is Err && final(self)@ == old(self)@,
            lookup(old(self)@, graph@) matches Some(e) ==> (lookup(final(self)@, graph@) matches Some(f)
                && f.nodes == e.nodes && f.edges == e.edges && f.revision == e.revision),
            r matches Ok(reading) ==> declares(algorithm@, reading.declared()),
            r matches Ok(reading) ==> exists|d: Definition|
                #[trigger] defined_as(algorithm@, Some(d)) && reading.nullabilities() == declared_nullable(d),
            lookup(old(self)@, graph@) is None ==> (r matches Err(NutmegError::Execution(m)) && (m@
                == unknown_graph_text(graph@) || m@ == "nutmeg: unknown algorithm `"@ + algorithm@
                + "`"@ || exists|t: Seq<char>| m@ == #[trigger] failure_text(t))),
    {
        let checked = checkpoint(&query.context);
        self.open_read_checked(checked, query, algorithm, graph, args)
    }

    /// [`Store::open_read`] once the read's checkpoint has answered
    /// `checked`: a read stopped before it starts — cancelled, or out of
    /// time — fails with the checkpoint's refusal and builds nothing. A read
    /// of a graph never staged is refused by name.
    pub fn open_read_checked(
        &mut self,
        checked: Result<(), Refusal>,
        query: &Query,
        algorithm: &str,
        graph: &str,
        args: &grust_procedures::ValidatedArguments,
    ) -> (r: Result<Reading, NutmegError>)
        requires
            old(self).wf(),
        ensures
            final(self).wf(),
            forall|other: Seq<char>|
                other != graph@ ==> #[trigger] lookup(final(self)@, other) == lookup(
                    old(self)@,
                    other,
                ),
            lookup(old(self)@, graph@) is None ==> r is Err && final(self)@ == old(self)@,
            lookup(old(self)@, graph@) matches Some(e) ==> (lookup(final(self)@, graph@) matches Some(f)
                && f.nodes == e.nodes && f.edges == e.edges && f.revision == e.revision),
            r matches Ok(reading) ==> declares(algorithm@, reading.declared()),
            r matches Ok(reading) ==> exists|d: Definition|
                #[trigger] defined_as(algorithm@, Some(d)) && reading.nullabilities() == declared_nullable(d),
            checked is Err ==> r is Err && final(self)@ == old(self)@,
            checked matches Err(refused) ==> (r matches Err(NutmegError::Execution(m)) && (m@
                == failure_text(refused.message@) || m@ == "nutmeg: unknown algorithm `"@ + algorithm@
                + "`"@)),
            checked is Ok && lookup(old(self)@, graph@) is None ==> (r matches Err(
                NutmegError::Execution(m),
            ) && (m@ == unknown_graph_text(graph@) || m@ == "nutmeg: unknown algorithm `"@
                + algorithm@ + "`"@)),
    {
        let definition = match definition_of(algorithm) {
            Ok(d) => d,
            Err(e) => {
                return Err(e);
            },
        };
        assert(declares(algorithm@, declared_names(definition)));
        assert(defined_as(algorithm@, Some(definition)));
        let context = &query.context;
        if let Err(refused) = checked {
            return Err(failure(&refused));
        }
        if crate::text::str_eq(algorithm, "estimateCsr") {
            // Sizing before building: counts only, as in Grust's procedure.
            let (nodes, edges) = match self.staged_counts(graph, context) {
                Ok(c) => c,
                Err(e) => {
                    return Err(e);
                },
            };
            let (orientation, weighted) = match projection_shape(args) {
                Ok(s) => s,
                Err(refused) => {
                    return Err(failure(&refused));
                },
            };
            let (max_arcs, outgoing, reverse, positions) = match csr_upper_bound(
                nodes,
                edges,
                orientation,
                weighted,
            ) {
                Ok(e) => e,
                Err(refused) => {
                    return Err(failure(&refused));
                },
            };
            let names = match output_names(algorithm) {
                Ok(n) => n,
                Err(e) => {
                    return Err(e);
                },
            };
            let rows = match int_row(&names, &vec![nodes, edges, max_arcs, outgoing, reverse, positions]) {
                Ok(rows) => rows,
                Err(e) => {
                    return Err(e);
                },
            };
            return Ok(Reading::Rows { definition, batches: rows, next: 0 });
        }
        let cached = match self.projection(graph, args) {
            Ok(p) => p,
            Err(e) => {
                return Err(e);
            },
        };
        // The projection is the pool's and may be shared by any number of
        // reads; the view runs this read's kernel on this read's execution.
        let view = match with_execution(&cached, context) {
            Ok(v) => v,
            Err(refused) => {
                return Err(failure(&refused));
            },
        };
        if crate::text::str_eq(algorithm, "projectionStats") {
            let (nodes, edges, arcs, self_loops, csr_bytes) = match statistics(&view) {
                Ok(s) => s,
                Err(refused) => {
                    return Err(kernel_failure(self.pool(), context, graph, algorithm, &refused));
                },
            };
            let names = match output_names(algorithm) {
                Ok(n) => n,
                Err(e) => {
                    return Err(e);
                },
            };
            let rows = match int_row(&names, &vec![nodes, edges, arcs, self_loops, csr_bytes]) {
                Ok(rows) => rows,
                Err(e) => {
                    return Err(e);
                },
            };
            return Ok(Reading::Rows { definition, batches: rows, next: 0 });
        }
        // Every projection kernel Grust registers, by name. A kernel that
        // reads node properties names them through its options; they are
        // read from the staged node rows and handed over with the projection.
        let wanted = match wants_properties(algorithm, args) {
            Ok(w) => w,
            Err(refused) => {
                return Err(failure(&refused));
            },
        };
        let cursor = if !wanted {
            run_on_projection(algorithm, &view, args)
        } else {
            let (nodes, _derived) = match self.node_batches(graph, context) {
                Ok(n) => n,
                Err(e) => {
                    return Err(e);
                },
            };
            match node_properties(algorithm, args, &nodes, &view) {
                Ok(properties) => run_with_properties(algorithm, &properties, args),
                Err(refused) => Err(refused),
            }
        };
        match cursor {
            Ok(cursor) => Ok(
                Reading::Cursor {
                    definition,
                    cursor,
                    graph: String::from_str(graph),
                    algorithm: String::from_str(algorithm),
                },
            ),
            Err(refused) => Err(kernel_failure(self.pool(), context, graph, algorithm, &refused)),
        }
    }

    /// Run `algorithm` on `graph` for `query`, collecting its result, every
    /// batch carrying the nullability Grust declares (see [`conform`]). A
    /// cursor yields fewer than `usize::MAX` batches, so the collection ends
    /// with all of them.
    pub fn run(
        &mut self,
        query: &Query,
        algorithm: &str,
        graph: &str,
        args: &grust_procedures::ValidatedArguments,
    ) -> (r: Result<Vec<Batch>, NutmegError>)
        requires
            old(self).wf(),
        ensures
            final(self).wf(),
            forall|other: Seq<char>|
                other != graph@ ==> #[trigger] lookup(final(self)@, other) == lookup(
                    old(self)@,
                    other,
                ),
            lookup(old(self)@, graph@) is None ==> r is Err && final(self)@ == old(self)@,
            lookup(old(self)@, graph@) matches Some(e) ==> (lookup(final(self)@, graph@) matches Some(f)
                && f.nodes == e.nodes && f.edges == e.edges && f.revision == e.revision),
            r matches Ok(v) ==> forall|i: int, j: int|
                0 <= i < v@.len() && 0 <= j < v@.len() ==> #[trigger] batch_fields(v@[i]) == #[trigger] batch_fields(
                    v@[j],
                ),
            r matches Ok(v) ==> forall|i: int|
                0 <= i < v@.len() ==> declares(algorithm@, #[trigger] batch_fields(v@[i])),
            r matches Ok(v) ==> forall|i: int|
                0 <= i < v@.len() ==> declares_nullability(algorithm@, #[trigger] batch_defs(v@[i])),
            lookup(old(self)@, graph@) is None ==> (r matches Err(NutmegError::Execution(m)) && (m@
                == unknown_graph_text(graph@) || m@ == "nutmeg: unknown algorithm `"@ + algorithm@
                + "`"@ || exists|t: Seq<char>| m@ == #[trigger] failure_text(t))),
    {
        let mut reading = match self.open_read(query, algorithm, graph, args) {
            Ok(r) => r,
            Err(e) => {
                return Err(e);
            },
        };
        let mut out: Vec<Batch> = Vec::new();
        let mut fuel: usize = usize::MAX;
        let ghost opened = self@;
        let ghost declared = reading.declared();
        let ghost flags = reading.nullabilities();
        let ghost d = choose|d: Definition| #[trigger] defined_as(algorithm@, Some(d)) && flags == declared_nullable(d);
        while fuel > 0
            invariant
                self.wf(),
                self@ == opened,
                reading.declared() == declared,
                declares(algorithm@, declared),
                reading.nullabilities() == flags,
                defined_as(algorithm@, Some(d)) && flags == declared_nullable(d),
                forall|i: int| 0 <= i < out@.len() ==> nullable_as(#[trigger] batch_defs(out@[i]), flags),
                forall|i: int| 0 <= i < out@.len() ==> #[trigger] batch_fields(out@[i]) == declared,
                forall|other: Seq<char>|
                    other != graph@ ==> #[trigger] lookup(opened, other) == lookup(
                        old(self)@,
                        other,
                    ),
                lookup(old(self)@, graph@) is Some,
                lookup(old(self)@, graph@) matches Some(e) ==> (lookup(opened, graph@) matches Some(f)
                    && f.nodes == e.nodes && f.edges == e.edges && f.revision == e.revision),
            decreases fuel,
        {
            fuel = fuel - 1;
            match reading.next(self.pool(), &query.context) {
                Ok(Some(batch)) => out.push(batch),
                Ok(None) => {
                    return Ok(out);
                },
                Err(e) => {
                    return Err(e);
                },
            }
        }
        Ok(out)
    }
}

} // verus!
