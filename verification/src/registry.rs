//! The registry of named graphs: the store of staged graphs and its memory
//! budget, the log of table reads, and the output schemas found by probing,
//! with the operations a session calls.
use vstd::prelude::*;
use vstd::string::*;

use crate::budget::total;
use crate::calls::{precision_of, probe_args_with, schema_key, schema_key_spec, PRECISION_OPTION};
use crate::columns::{field_names, renamed_all, ColumnNames};
use crate::error::{join3, NutmegError};
use crate::frame::{
    batch_defs, batch_fields, batch_rows, column_len, copy_field, field_defs, field_name, make_batch, named_column,
    share_batch, text_column, text_field, Batch, FieldDef,
};
use crate::nodes::texts_named;
use crate::options::{OptionValue, Options};
use crate::text::contains_text;
use crate::layout::ColumnMapping;
use crate::limits::QueryLimits;
use crate::order::StageOrder;
use crate::reads::{LogView, Query, ReadInfo, ReadLog, ReadView};
use crate::store::{
    base_part, empty_part, lookup, other_part, part_of, EntryView, GraphInfo, MemoryInfo, Staging,
    Store,
};
use crate::Part;

verus! {

/// What an admitted or refused write of `rows` rows leaves: a refused write
/// leaves every graph as it was; an admitted one bumps the graph's revision
/// (or creates it at revision 1), evicts its projections, keeps the part's
/// earlier rows unless it replaces them (before the new ones, in order, as
/// staged), leaves the other part and every other graph alone, and returns
/// the rows the part now holds: the rows it kept and the rows written.
pub open spec fn stage_outcome(
    before: Seq<(Seq<char>, EntryView)>,
    after: Seq<(Seq<char>, EntryView)>,
    name: Seq<char>,
    part: Part,
    replace: bool,
    order: StageOrder,
    rows: nat,
    r: Result<usize, NutmegError>,
) -> bool {
    &&& r is Err ==> after == before
    &&& r matches Ok(n) ==> {
        let was = lookup(before, name);
        let base = base_part(was, part, replace);
        lookup(after, name) matches Some(e) && {
            &&& e.revision == match was {
                Some(b) => b.revision + 1,
                None => 1,
            }
            &&& e.projections == Seq::<Seq<char>>::empty()
            &&& part_of(e, other_part(part)) == match was {
                Some(b) => part_of(b, other_part(part)),
                None => empty_part(),
            }
            &&& n == total(part_of(e, part).counts)
            &&& n == total(base.counts) + rows
            &&& order == StageOrder::AsStaged ==> part_of(e, part).counts.subrange(
                0,
                base.counts.len() as int,
            ) == base.counts
        }
    }
    &&& r is Ok ==> forall|other: Seq<char>|
        other != name ==> #[trigger] lookup(after, other) == lookup(before, other)
}

/// The registry of named graphs: the staged graphs under one memory budget,
/// the table reads running and recently ended, and the output schemas found
/// so far, by algorithm and precision.
pub struct Registry {
    store: Store,
    log: ReadLog,
    schemas: Vec<(String, Vec<FieldDef>)>,
}

impl Registry {
    /// Every graph, by name.
    pub closed spec fn graphs(&self) -> Seq<(Seq<char>, EntryView)> {
        self.store@
    }

    /// The table reads.
    pub closed spec fn log(&self) -> LogView {
        self.log@
    }

    /// The keys output schemas are kept under.
    pub closed spec fn schema_keys(&self) -> Seq<Seq<char>> {
        self.schemas@.map_values(|s: (String, Vec<FieldDef>)| s.0@)
    }

    /// The names of the columns of the output schema kept under `key`, if
    /// one is.
    pub closed spec fn schema_names(&self, key: Seq<char>) -> Option<Seq<Seq<char>>> {
        match crate::order::index_of(self.schema_keys(), key) {
            Some(i) => Some(field_names(self.schemas@[i].1@)),
            None => None,
        }
    }

    pub closed spec fn wf(&self) -> bool {
        &&& self.store.wf()
        &&& self.log.wf()
    }

    /// Every running read is numbered at most the count of reads started.
    pub proof fn lemma_running_ids(&self)
        requires
            self.wf(),
        ensures
            forall|i: int|
                0 <= i < self.log().running.len() ==> #[trigger] self.log().running[i].id <= self.log().started,
    {
        self.log.lemma_running_ids();
    }

    /// No graphs and no reads, under a memory budget of `memory_bytes`.
    pub fn new(memory_bytes: usize) -> (r: Registry)
        ensures
            r.wf(),
            r.graphs() == Seq::<(Seq<char>, EntryView)>::empty(),
            r.log().started == 0,
            r.log().running == Seq::<ReadView>::empty(),
            r.log().ended == Seq::<ReadView>::empty(),
            r.schema_keys() == Seq::<Seq<char>>::empty(),
    {
        let r = Registry { store: Store::new(memory_bytes), log: ReadLog::new(), schemas: Vec::new() };
        assert(r.schema_keys() =~= Seq::<Seq<char>>::empty());
        r
    }

    /// The store of staged graphs.
    pub fn store(&self) -> (r: &Store)
        ensures
            r@ == self.graphs(),
            self.wf() ==> r.wf(),
    {
        &self.store
    }

    /// Stage rows under `name`, renaming them into the grust-arrow layout
    /// (see [`Store::stage`] and [`stage_outcome`]). Nodes are optional: a
    /// graph staged from edges alone takes its nodes from their endpoints.
    pub fn stage(
        &mut self,
        name: &str,
        part: Part,
        batches: &Vec<Batch>,
        mapping: &ColumnMapping,
        replace: bool,
        order: StageOrder,
    ) -> (r: Result<usize, NutmegError>)
        requires
            old(self).wf(),
        ensures
            final(self).wf(),
            stage_outcome(
                old(self).graphs(),
                final(self).graphs(),
                name@,
                part,
                replace,
                order,
                crate::store::rows_in(batches@),
                r,
            ),
            order == StageOrder::AsStaged && (forall|i: int|
                0 <= i < batches@.len() ==> #[trigger] batch_rows(batches@[i]) == 0) ==> (r is Ok <==> {
                let before = lookup(old(self).graphs(), name@);
                let base = crate::store::base_part(before, part, replace);
                &&& total(base.charges) <= usize::MAX
                &&& total(base.counts) <= usize::MAX
                &&& (before matches Some(b) ==> b.revision < u64::MAX)
            }),
            final(self).log() == old(self).log(),
            final(self).schema_keys() == old(self).schema_keys(),
            forall|k: Seq<char>| #[trigger] final(self).schema_names(k) == old(self).schema_names(k),
    {
        self.store.stage(name, part, batches, mapping, replace, order)
    }

    /// Begin a write that is fed a batch at a time, so the caller need not
    /// collect all its rows before the budget can refuse it: feed it with
    /// [`Staging::push`] on [`Registry::store`], and end it with
    /// [`Registry::finish`].
    pub fn staging(
        &self,
        name: &str,
        part: Part,
        mapping: &ColumnMapping,
        replace: bool,
        order: StageOrder,
    ) -> (r: Staging)
        ensures
            r.wf(),
            r@.graph == name@,
            r@.part == part,
            r@.replace == replace,
            r@.order == order,
            r@.counts == Seq::<usize>::empty(),
    {
        self.store.staging(name, part, mapping, replace, order)
    }

    /// Swap a write begun with [`Registry::staging`] into its graph (see
    /// [`Staging::finish`]): a refused write leaves every graph as it was.
    pub fn finish(&mut self, staging: Staging) -> (r: Result<usize, NutmegError>)
        requires
            old(self).wf(),
            staging.wf(),
        ensures
            final(self).wf(),
            r is Err ==> final(self).graphs() == old(self).graphs(),
            r matches Ok(n) ==> (lookup(final(self).graphs(), staging@.graph) matches Some(e) && n
                == total(part_of(e, staging@.part).counts)),
            r matches Ok(n) ==> {
                let before = lookup(old(self).graphs(), staging@.graph);
                let base = crate::store::base_part(before, staging@.part, staging@.replace);
                lookup(final(self).graphs(), staging@.graph) matches Some(e) && {
                    &&& e.revision == match before {
                        Some(b) => b.revision + 1,
                        None => 1,
                    }
                    &&& e.projections == Seq::<Seq<char>>::empty()
                    &&& total(part_of(e, staging@.part).counts) == total(base.counts) + total(
                        staging@.counts,
                    )
                    &&& staging@.order == StageOrder::AsStaged ==> part_of(e, staging@.part)
                        == crate::store::StagedView {
                        batches: base.batches + staging@.batches,
                        counts: base.counts + staging@.counts,
                        charges: base.charges + staging@.charges,
                    }
                }
            },
            r is Ok ==> forall|other: Seq<char>|
                other != staging@.graph ==> #[trigger] lookup(final(self).graphs(), other)
                    == lookup(old(self).graphs(), other),
            staging@.order == StageOrder::AsStaged ==> (r is Ok <==> {
                let before = lookup(old(self).graphs(), staging@.graph);
                let base = crate::store::base_part(before, staging@.part, staging@.replace);
                &&& total(base.charges) + total(staging@.charges) <= usize::MAX
                &&& total(base.counts) + total(staging@.counts) <= usize::MAX
                &&& (before matches Some(b) ==> b.revision < u64::MAX)
            }),
            final(self).log() == old(self).log(),
            final(self).schema_keys() == old(self).schema_keys(),
            forall|k: Seq<char>| #[trigger] final(self).schema_names(k) == old(self).schema_names(k),
    {
        staging.finish(&mut self.store)
    }

    /// Forget `name` and everything built from it, releasing its memory once
    /// no read still running on it holds its rows or a projection. Whether
    /// there was such a graph.
    pub fn drop(&mut self, name: &str) -> (r: bool)
        requires
            old(self).wf(),
        ensures
            final(self).wf(),
            r == (lookup(old(self).graphs(), name@) is Some),
            lookup(final(self).graphs(), name@) is None,
            forall|other: Seq<char>|
                other != name@ ==> #[trigger] lookup(final(self).graphs(), other) == lookup(
                    old(self).graphs(),
                    other,
                ),
            final(self).log() == old(self).log(),
    {
        self.store.drop(name)
    }

    /// The graphs, in name order, each with its staged rows and bytes,
    /// revision and cached projections (see [`Store::list`]).
    pub fn list(&self) -> (r: Vec<GraphInfo>)
        requires
            self.wf(),
        ensures
            r@.len() == self.graphs().len(),
            forall|i: int, j: int|
                0 <= i < j < r@.len() ==> crate::catalog::text_lt(r@[i].name@, r@[j].name@),
            forall|i: int|
                0 <= i < r@.len() ==> ((#[trigger] lookup(self.graphs(), r@[i].name@)) matches Some(
                    e,
                ) && Store::reports(r@[i], e)),
            forall|j: int|
                #![trigger self.graphs()[j]]
                0 <= j < self.graphs().len() ==> exists|i: int|
                    0 <= i < r@.len() && #[trigger] r@[i].name@ == self.graphs()[j].0,
            crate::store::listed_sum(r@) == crate::store::staged_sum(self.graphs()),
    {
        self.store.list()
    }

    /// Log the start of a table read (see [`ReadLog::start`]).
    pub fn start_read(&mut self, algorithm: &str, graph: &str, query: &Query) -> (r: Result<
        u64,
        NutmegError,
    >)
        requires
            old(self).wf(),
        ensures
            final(self).wf(),
            final(self).graphs() == old(self).graphs(),
            final(self).schema_keys() == old(self).schema_keys(),
            forall|k: Seq<char>| #[trigger] final(self).schema_names(k) == old(self).schema_names(k),
            r is Ok <==> old(self).log().started < u64::MAX,
            r matches Err(e) ==> e is Internal,
            r is Err ==> final(self).log() == old(self).log(),
            r matches Ok(id) ==> {
                &&& id == old(self).log().started + 1
                &&& final(self).log().started == id
                &&& final(self).log().ended == old(self).log().ended
                &&& final(self).log().running == old(self).log().running.push(
                    ReadView {
                        id,
                        algorithm: algorithm@,
                        graph: graph@,
                        state: crate::reads::ReadState::Running,
                        message: None,
                        batches: 0,
                        rows: 0,
                    },
                )
            },
    {
        self.log.start(algorithm, graph, query)
    }

    /// Count a batch of `rows` rows handed on by the running read `id` (see
    /// [`ReadLog::batch`]).
    pub fn count_batch(&mut self, id: u64, rows: usize)
        requires
            old(self).wf(),
        ensures
            final(self).wf(),
            final(self).graphs() == old(self).graphs(),
            final(self).schema_keys() == old(self).schema_keys(),
            forall|k: Seq<char>| #[trigger] final(self).schema_names(k) == old(self).schema_names(k),
            final(self).log().started == old(self).log().started,
            final(self).log().ended == old(self).log().ended,
            final(self).log().running.len() == old(self).log().running.len(),
            forall|i: int|
                0 <= i < old(self).log().running.len() ==> {
                    let (a, b) = (old(self).log().running[i], #[trigger] final(self).log().running[i]);
                    if a.id == id {
                        b == ReadView {
                            batches: crate::sizes::sadd(a.batches, 1),
                            rows: crate::sizes::sadd(a.rows, rows),
                            ..a
                        }
                    } else {
                        b == a
                    }
                },
    {
        self.log.batch(id, rows);
    }

    /// End the running read `id` in `state` (see [`ReadLog::end_id`]).
    pub fn end_read(&mut self, id: u64, state: crate::reads::ReadState, message: Option<String>)
        requires
            old(self).wf(),
        ensures
            final(self).wf(),
            final(self).graphs() == old(self).graphs(),
            final(self).schema_keys() == old(self).schema_keys(),
            forall|k: Seq<char>| #[trigger] final(self).schema_names(k) == old(self).schema_names(k),
            final(self).log().started == old(self).log().started,
            match crate::reads::running_index(old(self).log().running, id) {
                None => final(self).log() == old(self).log(),
                Some(i) => {
                    let ended = old(self).log().ended.push(
                        ReadView {
                            state,
                            message: match message {
                                Some(m) => Some(m@),
                                None => None,
                            },
                            ..old(self).log().running[i]
                        },
                    );
                    &&& final(self).log().running == old(self).log().running.remove(i)
                    &&& final(self).log().ended == if ended.len()
                        > crate::reads::ENDED_READS_KEPT {
                        ended.subrange(
                            ended.len() - crate::reads::ENDED_READS_KEPT,
                            ended.len() as int,
                        )
                    } else {
                        ended
                    }
                },
            },
    {
        self.log.end_id(id, state, message);
    }

    /// Open a read of `algorithm` on `graph` for `query` (see
    /// [`Store::open_read`]).
    pub fn open_read(
        &mut self,
        query: &Query,
        algorithm: &str,
        graph: &str,
        args: &grust_procedures::ValidatedArguments,
    ) -> (r: Result<crate::runs::Reading, NutmegError>)
        requires
            old(self).wf(),
        ensures
            final(self).wf(),
            forall|other: Seq<char>|
                other != graph@ ==> #[trigger] lookup(final(self).graphs(), other) == lookup(
                    old(self).graphs(),
                    other,
                ),
            final(self).log() == old(self).log(),
            final(self).schema_keys() == old(self).schema_keys(),
            forall|k: Seq<char>| #[trigger] final(self).schema_names(k) == old(self).schema_names(k),
            r matches Ok(reading) ==> crate::runs::declares(algorithm@, reading.declared()),
    {
        self.store.open_read(query, algorithm, graph, args)
    }

    /// The memory budget and what is using it.
    pub fn memory(&self) -> (r: Result<MemoryInfo, NutmegError>)
        requires
            self.wf(),
        ensures
            r matches Ok(m) ==> m.staged_bytes == crate::store::staged_sum(self.graphs()),
            r is Err ==> r->Err_0 is Execution,
    {
        self.store.memory()
    }

    /// Table reads: the most recently ended ones, oldest first, each with the
    /// usage it ended with, then those running now, with their live usage.
    /// Reads by [`run`] and [`Query::run`] are not listed.
    pub fn reads(&self) -> (r: Vec<ReadInfo>)
        requires
            self.wf(),
        ensures
            r@.map_values(|x: ReadInfo| x@) == self.log().ended + self.log().running,
    {
        self.log.reads()
    }

    /// The projection of `name` under the projection options in `args`,
    /// built on first use and kept until the graph is staged again. It is
    /// owned by the pool; run reads through a [`Query`] instead of on it.
    pub fn projection(&mut self, name: &str, args: &grust_procedures::ValidatedArguments) -> (r:
        Result<grust_algorithms::GraphProjection, NutmegError>)
        requires
            old(self).wf(),
        ensures
            final(self).wf(),
            lookup(old(self).graphs(), name@) is None ==> r is Err,
            lookup(old(self).graphs(), name@) is None ==> (r matches Err(NutmegError::Execution(m)) && m@
                == "nutmeg: no graph named `"@ + name@ + "`; stage its rows first"@),
            r is Err ==> final(self).graphs() == old(self).graphs(),
            r is Ok ==> (lookup(old(self).graphs(), name@) matches Some(e) && lookup(
                final(self).graphs(),
                name@,
            ) matches Some(f) && f.projections.len() > 0 && f.nodes == e.nodes && f.edges
                == e.edges && f.revision == e.revision),
            forall|other: Seq<char>|
                other != name@ ==> #[trigger] lookup(final(self).graphs(), other) == lookup(
                    old(self).graphs(),
                    other,
                ),
            final(self).log() == old(self).log(),
    {
        self.store.projection(name, args)
    }
}

impl Query {
    /// A read on the registry's budget, not yet started; a timeout counts
    /// from now. Limits Grust refuses are refused as a plan error.
    pub fn new(registry: &Registry, limits: QueryLimits) -> (r: Result<Query, NutmegError>)
        ensures
            r is Err ==> r->Err_0 is Plan,
    {
        registry.store.query(limits)
    }

    /// Run one Grust algorithm on the named graph for this read. See [`run`].
    pub fn run(
        &self,
        registry: &mut Registry,
        algorithm: &str,
        graph: &str,
        args: &grust_procedures::ValidatedArguments,
    ) -> (r: Result<Vec<Batch>, NutmegError>)
        requires
            old(registry).wf(),
        ensures
            final(registry).wf(),
            forall|other: Seq<char>|
                other != graph@ ==> #[trigger] lookup(final(registry).graphs(), other) == lookup(
                    old(registry).graphs(),
                    other,
                ),
            final(registry).log() == old(registry).log(),
            final(registry).schema_keys() == old(registry).schema_keys(),
            forall|k: Seq<char>| #[trigger] final(registry).schema_names(k) == old(registry).schema_names(k),
            lookup(old(registry).graphs(), graph@) is None ==> r is Err && final(registry).graphs() == old(
                registry,
            ).graphs(),
            lookup(old(registry).graphs(), graph@) matches Some(e) ==> (lookup(final(registry).graphs(), graph@) matches Some(f)
                && f.nodes == e.nodes && f.edges == e.edges && f.revision == e.revision),
            r matches Ok(v) ==> forall|i: int, j: int|
                0 <= i < v@.len() && 0 <= j < v@.len() ==> #[trigger] batch_fields(v@[i]) == #[trigger] batch_fields(
                    v@[j],
                ),
            r matches Ok(v) ==> forall|i: int|
                0 <= i < v@.len() ==> crate::runs::declares(algorithm@, #[trigger] batch_fields(v@[i])),
            r matches Ok(v) ==> forall|i: int|
                0 <= i < v@.len() ==> crate::runs::declares_nullability(algorithm@, #[trigger] batch_defs(v@[i])),
    {
        registry.store.run(self, algorithm, graph, args)
    }
}

/// Run one Grust algorithm on the named graph, as a read of its own with no
/// limits beyond the registry's budget. Every batch carries the nullability
/// Grust declares for each output column, whatever its rows hold.
pub fn run(
    registry: &mut Registry,
    algorithm: &str,
    graph: &str,
    args: &grust_procedures::ValidatedArguments,
) -> (r: Result<Vec<Batch>, NutmegError>)
    requires
        old(registry).wf(),
    ensures
        final(registry).wf(),
        forall|other: Seq<char>|
            other != graph@ ==> #[trigger] lookup(final(registry).graphs(), other) == lookup(
                old(registry).graphs(),
                other,
            ),
        final(registry).log() == old(registry).log(),
        final(registry).schema_keys() == old(registry).schema_keys(),
        forall|k: Seq<char>| #[trigger] final(registry).schema_names(k) == old(registry).schema_names(k),
        lookup(old(registry).graphs(), graph@) is None ==> r is Err && final(registry).graphs() == old(
            registry,
        ).graphs(),
        lookup(old(registry).graphs(), graph@) matches Some(e) ==> (lookup(final(registry).graphs(), graph@) matches Some(f)
            && f.nodes == e.nodes && f.edges == e.edges && f.revision == e.revision),
        r matches Ok(v) ==> forall|i: int, j: int|
            0 <= i < v@.len() && 0 <= j < v@.len() ==> #[trigger] batch_fields(v@[i]) == #[trigger] batch_fields(
                v@[j],
            ),
        r matches Ok(v) ==> forall|i: int|
            0 <= i < v@.len() ==> crate::runs::declares(algorithm@, #[trigger] batch_fields(v@[i])),
        r matches Ok(v) ==> forall|i: int|
            0 <= i < v@.len() ==> crate::runs::declares_nullability(algorithm@, #[trigger] batch_defs(v@[i])),
{
    let query = match Query::new(registry, QueryLimits::default()) {
        Ok(q) => q,
        Err(e) => {
            return Err(e);
        },
    };
    query.run(registry, algorithm, graph, args)
}

/// The graph output schemas are probed on.
pub const PROBE: &'static str = "nutmeg.schema-probe";

/// A copy of each of `fields`, in order.
pub fn copy_fields(fields: &Vec<FieldDef>) -> (r: Vec<FieldDef>)
    ensures
        field_names(r@) == field_names(fields@),
{
    let mut out: Vec<FieldDef> = Vec::new();
    let mut i: usize = 0;
    while i < fields.len()
        invariant
            i <= fields@.len(),
            field_names(out@) == field_names(fields@).subrange(0, i as int),
        decreases fields@.len() - i,
    {
        let ghost before = out@;
        out.push(copy_field(&fields[i]));
        proof {
            assert(field_names(out@) =~= field_names(before).push(field_name(fields@[i as int])));
            assert(field_names(fields@).subrange(0, i + 1) =~= field_names(fields@).subrange(
                0,
                i as int,
            ).push(field_name(fields@[i as int])));
        }
        i = i + 1;
    }
    assert(field_names(fields@).subrange(0, fields@.len() as int) =~= field_names(fields@));
    out
}

/// The probe's edges: `a → b`, `b → c`, `a → c`.
fn probe_edges() -> (r: Result<Batch, NutmegError>)
    ensures
        r matches Ok(b) ==> {
            &&& batch_fields(b) == seq!["source"@, "target"@]
            &&& batch_rows(b) == 3
            &&& texts_named(b, "source"@) == Some(seq![Some("a"@), Some("b"@), Some("a"@)])
            &&& texts_named(b, "target"@) == Some(seq![Some("b"@), Some("c"@), Some("c"@)])
        },
        r matches Err(e) ==> e is Execution,
{
    proof {
        reveal_strlit("source");
        reveal_strlit("target");
    }
    let fields = vec![text_field("source", false), text_field("target", false)];
    let sources = vec![String::from_str("a"), String::from_str("b"), String::from_str("a")];
    let targets = vec![String::from_str("b"), String::from_str("c"), String::from_str("c")];
    let source_bytes = crate::text::texts_len_within(&sources, crate::text::TEXT_COLUMN_BYTES);
    let target_bytes = crate::text::texts_len_within(&targets, crate::text::TEXT_COLUMN_BYTES);
    if source_bytes.is_none() || target_bytes.is_none() {
        return Err(NutmegError::Execution(String::from_str(crate::tables::TEXTS_TOO_LONG)));
    }
    let source_column = text_column(&sources, 3);
    let target_column = text_column(&targets, 3);
    assert(sources@.map_values(|s: String| Some(s@)) =~= seq![Some("a"@), Some("b"@), Some("a"@)]);
    assert(targets@.map_values(|s: String| Some(s@)) =~= seq![Some("b"@), Some("c"@), Some("c"@)]);
    assert(field_names(fields@) =~= seq!["source"@, "target"@]);
    match make_batch(fields, vec![source_column, target_column]) {
        Ok(b) => {
            assert("source"@[0] != "target"@[0]);
            assert(field_name(fields@[0]) != field_name(fields@[1]));
            assert(named_column(b, field_name(fields@[0])) == Some(source_column));
            assert(named_column(b, field_name(fields@[1])) == Some(target_column));
            Ok(b)
        },
        Err(m) => Err(NutmegError::Execution(m)),
    }
}

impl Registry {
    /// The schema kept under `key`, if one is.
    fn cached_schema(&self, key: &str) -> (r: Option<Vec<FieldDef>>)
        ensures
            r is Some ==> self.schema_keys().contains(key@),
            r is None ==> !self.schema_keys().contains(key@),
            r matches Some(f) ==> self.schema_names(key@) == Some(field_names(f@)),
    {
        let mut i: usize = 0;
        while i < self.schemas.len()
            invariant
                i <= self.schemas@.len(),
                forall|j: int| 0 <= j < i ==> self.schema_keys()[j] != key@,
            decreases self.schemas@.len() - i,
        {
            if crate::text::str_eq(self.schemas[i].0.as_str(), key) {
                assert(self.schema_keys()[i as int] == key@);
                proof {
                    crate::nodes::lemma_index_of_first(self.schema_keys(), key@, i as int);
                }
                return Some(copy_fields(&self.schemas[i].1));
            }
            i = i + 1;
        }
        None
    }

    /// Whether an output schema is kept under `key` ([`schema_key`]).
    pub fn has_schema(&self, key: &str) -> (r: bool)
        ensures
            r == self.schema_keys().contains(key@),
    {
        self.cached_schema(key).is_some()
    }

    /// Run `algorithm` once on the probe graph, which must be staged, on top
    /// of `options`, returning the arguments it ran with and its batches. A
    /// kernel defined on undirected graphs refuses the default directed
    /// projection, and says so; it is probed on an undirected one instead.
    pub fn probe(&mut self, algorithm: &str, options: Options) -> (r: Result<
        (grust_procedures::ValidatedArguments, Vec<Batch>),
        NutmegError,
    >)
        requires
            old(self).wf(),
        ensures
            final(self).wf(),
            forall|other: Seq<char>|
                other != PROBE@ ==> #[trigger] lookup(final(self).graphs(), other) == lookup(
                    old(self).graphs(),
                    other,
                ),
            final(self).log() == old(self).log(),
            final(self).schema_keys() == old(self).schema_keys(),
            forall|k: Seq<char>| #[trigger] final(self).schema_names(k) == old(self).schema_names(k),
            r matches Ok(found) ==> forall|i: int|
                0 <= i < found.1@.len() ==> crate::runs::declares(algorithm@, #[trigger] batch_fields(found.1@[i])),
            r matches Ok(found) ==> forall|i: int|
                0 <= i < found.1@.len() ==> crate::runs::declares_nullability(
                    algorithm@,
                    #[trigger] batch_defs(found.1@[i]),
                ),
            lookup(old(self).graphs(), PROBE@) is None ==> r is Err,
    {
        let args = match probe_args_with(algorithm, options.duplicate()) {
            Ok(a) => a,
            Err(e) => {
                return Err(e);
            },
        };
        match run(self, algorithm, PROBE, &args) {
            Ok(batches) => Ok((args, batches)),
            Err(error) => {
                if !contains_text(error.shown().as_str(), "undirected") {
                    return Err(error);
                }
                let mut options = options;
                options.insert(String::from_str("orientation"), OptionValue::text("undirected"));
                let args = match probe_args_with(algorithm, options) {
                    Ok(a) => a,
                    Err(e) => {
                        return Err(e);
                    },
                };
                match run(self, algorithm, PROBE, &args) {
                    Ok(batches) => Ok((args, batches)),
                    Err(e) => Err(e),
                }
            },
        }
    }

    /// The schema `algorithm`'s result has at `precision` (Grust's declared
    /// default where `None`): the kernel's own column names and types,
    /// observed by running it once on the three-node probe graph, staged
    /// from its edges and `probe_nodes` on first use, and kept under its
    /// [`schema_key`] from then on.
    pub fn output_schema_at(&mut self, algorithm: &str, precision: Option<&str>, probe_nodes: &Batch)
        -> (r: Result<Vec<FieldDef>, NutmegError>)
        requires
            old(self).wf(),
        ensures
            final(self).wf(),
            forall|other: Seq<char>|
                other != PROBE@ ==> #[trigger] lookup(final(self).graphs(), other) == lookup(
                    old(self).graphs(),
                    other,
                ),
            final(self).log() == old(self).log(),
            forall|k: Seq<char>|
                old(self).schema_keys().contains(k) ==> #[trigger] final(self).schema_keys().contains(
                    k,
                ),
            r is Ok ==> final(self).schema_keys().contains(
                schema_key_spec(
                    algorithm@,
                    match precision {
                        Some(v) => Some(v@),
                        None => None,
                    },
                ),
            ),
            old(self).schema_keys().contains(
                schema_key_spec(
                    algorithm@,
                    match precision {
                        Some(v) => Some(v@),
                        None => None,
                    },
                ),
            ) ==> r is Ok && final(self).graphs() == old(self).graphs(),
            !old(self).schema_keys().contains(
                schema_key_spec(
                    algorithm@,
                    match precision {
                        Some(v) => Some(v@),
                        None => None,
                    },
                ),
            ) ==> (r matches Ok(f) ==> crate::runs::declares(algorithm@, field_names(f@))
                && crate::runs::declares_nullability(algorithm@, f@)),
            ({
                let key = schema_key_spec(
                    algorithm@,
                    match precision {
                        Some(v) => Some(v@),
                        None => None,
                    },
                );
                &&& r matches Ok(f) ==> final(self).schema_names(key) == Some(field_names(f@))
                &&& old(self).schema_names(key) matches Some(n) ==> (r matches Ok(f) && field_names(f@) == n)
                &&& old(self).schema_names(key) is Some ==> final(self).schema_names(key) == old(
                    self,
                ).schema_names(key)
                &&& forall|k: Seq<char>|
                    k != key ==> #[trigger] final(self).schema_names(k) == old(self).schema_names(k)
            }),
    {
        let key = schema_key(algorithm, precision);
        proof {
            crate::order::lemma_index_of_contains(self.schema_keys(), key@);
        }
        if let Some(found) = self.cached_schema(key.as_str()) {
            return Ok(found);
        }
        if self.store.entry(PROBE).is_none() {
            let edges = match probe_edges() {
                Ok(b) => b,
                Err(e) => {
                    return Err(e);
                },
            };
            if let Err(e) = self.stage(
                PROBE,
                Part::Edges,
                &vec![edges],
                &ColumnMapping::new(),
                true,
                StageOrder::Canonical,
            ) {
                return Err(e);
            }
            if let Err(e) = self.stage(
                PROBE,
                Part::Nodes,
                &vec![share_batch(probe_nodes)],
                &ColumnMapping::new(),
                true,
                StageOrder::Canonical,
            ) {
                return Err(e);
            }
        }
        let mut options = Options::new();
        if let Some(value) = precision {
            options.insert(String::from_str(PRECISION_OPTION), OptionValue::text(value));
        }
        let (_, batches) = match self.probe(algorithm, options) {
            Ok(p) => p,
            Err(e) => {
                return Err(e);
            },
        };
        if batches.len() == 0 {
            return Err(
                NutmegError::Execution(join3("nutmeg: probing `", algorithm, "` produced no batch")),
            );
        }
        let fields = field_defs(&batches[0]);
        let kept = copy_fields(&fields);
        let ghost before = self.schema_keys();
        let ghost old_schemas = self.schemas@;
        let ghost mid = *self;
        self.schemas.push((key, kept));
        proof {
            assert(self.schema_keys() =~= before.push(self.schemas@.last().0@));
            assert(self.schema_keys().last() == self.schemas@.last().0@);
            assert(self.schema_keys().drop_last() =~= before);
            crate::order::lemma_index_of_contains(before, key@);
            assert(crate::order::index_of(self.schema_keys(), key@) == Some(before.len() as int));
            assert forall|k: Seq<char>| k != key@ implies #[trigger] self.schema_names(k) == mid.schema_names(k) by {
                assert(crate::order::index_of(self.schema_keys(), k) == crate::order::index_of(before, k));
                crate::order::lemma_index_of_contains(before, k);
                if let Some(i) = crate::order::index_of(before, k) {
                    assert(self.schemas@[i] == old_schemas[i]);
                }
            }
            assert forall|k: Seq<char>| before.contains(k) implies #[trigger] self.schema_keys().contains(
                k,
            ) by {
                let i = choose|i: int| 0 <= i < before.len() && before[i] == k;
                assert(self.schema_keys()[i] == k);
            }
        }
        Ok(fields)
    }
}

/// The Arrow schema `algorithm`'s result has, under Grust's names, at the
/// declared default of every option (see [`Registry::output_schema_at`]).
pub fn output_schema(registry: &mut Registry, algorithm: &str, probe_nodes: &Batch) -> (r: Result<
    Vec<FieldDef>,
    NutmegError,
>)
    requires
        old(registry).wf(),
    ensures
        final(registry).wf(),
        final(registry).log() == old(registry).log(),
        r matches Ok(f) ==> final(registry).schema_names(schema_key_spec(algorithm@, None)) == Some(
            field_names(f@),
        ),
        old(registry).schema_names(schema_key_spec(algorithm@, None)) matches Some(n) ==> (r matches Ok(f)
            && field_names(f@) == n && final(registry).graphs() == old(registry).graphs()),
        forall|other: Seq<char>|
            other != PROBE@ ==> #[trigger] lookup(final(registry).graphs(), other) == lookup(
                old(registry).graphs(),
                other,
            ),
{
    proof {
        crate::order::lemma_index_of_contains(registry.schema_keys(), schema_key_spec(algorithm@, None));
    }
    registry.output_schema_at(algorithm, None, probe_nodes)
}

/// [`output_schema`], with the columns reported under `names`.
pub fn output_schema_named(
    registry: &mut Registry,
    algorithm: &str,
    names: ColumnNames,
    probe_nodes: &Batch,
) -> (r: Result<Vec<FieldDef>, NutmegError>)
    requires
        old(registry).wf(),
    ensures
        final(registry).wf(),
        final(registry).log() == old(registry).log(),
        r matches Ok(f) ==> (final(registry).schema_names(schema_key_spec(algorithm@, None)) matches Some(n)
            && field_names(f@) == renamed_all(names, n)),
        old(registry).schema_names(schema_key_spec(algorithm@, None)) matches Some(n) ==> {
            &&& final(registry).graphs() == old(registry).graphs()
            &&& names == ColumnNames::Grust ==> (r matches Ok(f) && field_names(f@) == n)
            &&& names == ColumnNames::Gds ==> match crate::columns::first_repeat(renamed_all(names, n)) {
                None => r matches Ok(f) && field_names(f@) == renamed_all(names, n),
                Some(d) => r matches Err(NutmegError::Execution(m)) && m@
                    == "nutmeg: `columnNames: gds` would name two columns `"@ + d + "`"@,
            }
        },
        forall|other: Seq<char>|
            other != PROBE@ ==> #[trigger] lookup(final(registry).graphs(), other) == lookup(
                old(registry).graphs(),
                other,
            ),
{
    match output_schema(registry, algorithm, probe_nodes) {
        Ok(fields) => names.rename_schema(&fields),
        Err(e) => Err(e),
    }
}

/// The schema a read with these validated arguments returns, under `names`.
/// An option can decide a column's Arrow type ([`PRECISION_OPTION`] decides
/// `score`'s), so the schema is probed and kept per value of it.
pub fn output_schema_for(
    registry: &mut Registry,
    algorithm: &str,
    args: &grust_procedures::ValidatedArguments,
    names: ColumnNames,
    probe_nodes: &Batch,
) -> (r: Result<Vec<FieldDef>, NutmegError>)
    requires
        old(registry).wf(),
    ensures
        final(registry).wf(),
        final(registry).log() == old(registry).log(),
        r matches Ok(f) ==> exists|p: Option<Seq<char>>|
            #[trigger] final(registry).schema_names(schema_key_spec(algorithm@, p)) matches Some(n)
                && field_names(f@) == renamed_all(names, n),
        forall|other: Seq<char>|
            other != PROBE@ ==> #[trigger] lookup(final(registry).graphs(), other) == lookup(
                old(registry).graphs(),
                other,
            ),
{
    let precision = match precision_of(algorithm, args) {
        Ok(p) => p,
        Err(e) => {
            return Err(e);
        },
    };
    let found = match precision {
        Some(p) => registry.output_schema_at(algorithm, Some(p.as_str()), probe_nodes),
        None => registry.output_schema_at(algorithm, None, probe_nodes),
    };
    match found {
        Ok(fields) => names.rename_schema(&fields),
        Err(e) => Err(e),
    }
}

} // verus!
