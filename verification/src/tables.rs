//! The tables a session scans: one algorithm on one graph, read batch by
//! batch and logged from start to end, and the listings of reads, graphs and
//! memory as rows.
use vstd::prelude::*;
use vstd::string::*;

use crate::catalog::{algorithm_names, registered_short_names, resolve_in, views};
use crate::columns::ColumnNames;
use crate::error::{join3, join5, NutmegError};
use crate::frame::{
    field_defs, field_name, fields_debug, has_fields, int_column, int_field, make_batch, num_rows,
    optional_text_column, text_field, texts_column, Batch, Column, FieldDef, batch_fields, batch_rows,
    column_len, fields_held, fields_shown, batch_defs, column_ints, column_texts, named_column,
};
use crate::nodes::texts_named;
use crate::reads::{state_text, ReadView};
use crate::limits::{take_limits, QueryLimits};
use crate::options::Options;
use crate::reads::{ended_with, failed_state, outcome_state, outcome_view, Outcome, Query, ReadState};
use crate::registry::{output_schema_for, Registry, PROBE};
use crate::runs::Reading;
use crate::store::lookup;

verus! {

/// A table whose scan runs one algorithm on one named graph.
pub struct AlgorithmTable {
    algorithm: String,
    graph: String,
    args: grust_procedures::ValidatedArguments,
    names: ColumnNames,
    limits: QueryLimits,
    schema: Vec<FieldDef>,
}

/// A table read under way: its number in the log, and what it yields until
/// it ends.
pub struct TableRead {
    id: u64,
    reading: Reading,
    ended: bool,
}

impl TableRead {
    /// The read's number in the log.
    pub closed spec fn number(&self) -> u64 {
        self.id
    }

    /// Whether the read has ended, and left the running reads.
    pub closed spec fn is_ended(&self) -> bool {
        self.ended
    }

    /// The read's number in the log.
    pub fn id(&self) -> (r: u64)
        ensures
            r == self.number(),
    {
        self.id
    }
}

/// The refusal of a batch whose fields are not the table's: what `algorithm`
/// produced, and what the table declares.
pub open spec fn produced_text(algorithm: Seq<char>, produced: Seq<FieldDef>, declared: Seq<FieldDef>) -> Seq<char> {
    "nutmeg: `"@ + algorithm + "` produced "@ + fields_shown(produced) + ", declared "@ + fields_shown(declared)
}

/// The refusal of an algorithm Grust does not serve, listing those it does.
pub open spec fn unknown_algorithm_text(algorithm: Seq<char>, known: Seq<Seq<char>>) -> Seq<char> {
    "nutmeg: unknown algorithm `"@ + algorithm + "`; Grust registers "@ + "["@
        + crate::source::quoted_items(known, known.len()) + "]"@
}

impl AlgorithmTable {
    pub closed spec fn algorithm_view(&self) -> Seq<char> {
        self.algorithm@
    }

    pub closed spec fn graph_view(&self) -> Seq<char> {
        self.graph@
    }

    pub closed spec fn limits_view(&self) -> QueryLimits {
        self.limits
    }

    pub closed spec fn schema_view(&self) -> Seq<FieldDef> {
        self.schema@
    }

    /// A table over `graph` with Grust's column names.
    pub fn new(registry: &mut Registry, algorithm: &str, graph: String, options: &Options, probe_nodes: &Batch)
        -> (r: Result<AlgorithmTable, NutmegError>)
        requires
            old(registry).wf(),
        ensures
            final(registry).wf(),
            final(registry).log() == old(registry).log(),
            r matches Ok(t) ==> t.graph_view() == graph@,
            r matches Ok(t) ==> exists|ns: Seq<Seq<char>>| #[trigger] crate::catalog::resolved(ns, algorithm@)
                == Some(t.algorithm_view()),
            r matches Ok(t) ==> take_limits(options@).0 == Ok::<QueryLimits, int>(t.limits_view()),
            take_limits(options@).0 is Err ==> r is Err,
            take_limits(options@).0 is Err ==> r->Err_0 is Plan,
            exists|known: Seq<Seq<char>>|
                #[trigger] registered_short_names(known) && (r matches Ok(t) ==> crate::catalog::resolved(
                    known,
                    algorithm@,
                ) == Some(t.algorithm_view())) && (crate::catalog::resolved(known, algorithm@) is None
                    ==> (r matches Err(NutmegError::Plan(m)) && m@ == unknown_algorithm_text(
                    algorithm@,
                    known,
                ))),
    {
        AlgorithmTable::named(registry, algorithm, graph, options, ColumnNames::Grust, probe_nodes)
    }

    /// A table over `graph` whose columns are reported under `names`. The
    /// algorithm is resolved in either spelling; the read's own limits are
    /// taken out of `options` before Grust validates the rest; the schema
    /// reported follows the options where one decides a column's Arrow type.
    pub fn named(
        registry: &mut Registry,
        algorithm: &str,
        graph: String,
        options: &Options,
        names: ColumnNames,
        probe_nodes: &Batch,
    ) -> (r: Result<AlgorithmTable, NutmegError>)
        requires
            old(registry).wf(),
        ensures
            final(registry).wf(),
            final(registry).log() == old(registry).log(),
            r matches Ok(t) ==> t.graph_view() == graph@,
            r matches Ok(t) ==> exists|ns: Seq<Seq<char>>| #[trigger] crate::catalog::resolved(ns, algorithm@)
                == Some(t.algorithm_view()),
            r matches Ok(t) ==> take_limits(options@).0 == Ok::<QueryLimits, int>(t.limits_view()),
            take_limits(options@).0 is Err ==> r is Err,
            take_limits(options@).0 is Err ==> r->Err_0 is Plan,
            exists|known: Seq<Seq<char>>|
                #[trigger] registered_short_names(known) && (r matches Ok(t) ==> crate::catalog::resolved(
                    known,
                    algorithm@,
                ) == Some(t.algorithm_view())) && (crate::catalog::resolved(known, algorithm@) is None
                    ==> (r matches Err(NutmegError::Plan(m)) && m@ == unknown_algorithm_text(
                    algorithm@,
                    known,
                ))),
    {
        let registered = algorithm_names();
        let ghost known = views(registered@);
        let resolved = match resolve_in(&registered, algorithm) {
            Some(a) => a,
            None => {
                let listed = crate::source::debug_list(&registered);
                let m = join5("nutmeg: unknown algorithm `", algorithm, "`; Grust registers ", listed.as_str(), "");
                proof {
                    reveal_strlit("");
                    assert(known.len() == registered@.len());
                    assert(m@ =~= unknown_algorithm_text(algorithm@, known));
                    assert(registered_short_names(known));
                }
                return Err(NutmegError::Plan(m));
            },
        };
        let mut options = options.duplicate();
        let limits = match QueryLimits::take(&mut options) {
            Ok(l) => l,
            Err(e) => {
                return Err(e);
            },
        };
        let args = match crate::calls::validate(resolved.as_str(), &options) {
            Ok(a) => a,
            Err(e) => {
                return Err(e);
            },
        };
        AlgorithmTable::validated(registry, resolved, graph, args, names, limits, probe_nodes)
    }

    /// A table of `algorithm` (a registered name) over `graph` for arguments
    /// Grust has validated, its columns reported under `names`, each scan run
    /// under `limits`. Its schema is the one a read with these arguments
    /// returns ([`output_schema_for`]).
    pub fn validated(
        registry: &mut Registry,
        algorithm: String,
        graph: String,
        args: grust_procedures::ValidatedArguments,
        names: ColumnNames,
        limits: QueryLimits,
        probe_nodes: &Batch,
    ) -> (r: Result<AlgorithmTable, NutmegError>)
        requires
            old(registry).wf(),
        ensures
            final(registry).wf(),
            final(registry).log() == old(registry).log(),
            r matches Ok(t) ==> t.graph_view() == graph@ && t.algorithm_view() == algorithm@
                && t.limits_view() == limits,
            r matches Ok(t) ==> exists|p: Option<Seq<char>>|
                #[trigger] final(registry).schema_names(crate::calls::schema_key_spec(algorithm@, p)) matches Some(n)
                    && crate::columns::field_names(t.schema_view()) == crate::columns::renamed_all(names, n),
    {
        let schema = match output_schema_for(registry, algorithm.as_str(), &args, names, probe_nodes) {
            Ok(s) => s,
            Err(e) => {
                return Err(e);
            },
        };
        Ok(AlgorithmTable { algorithm, graph, args, names, limits, schema })
    }

    /// The algorithm, by its registered name.
    pub fn algorithm(&self) -> (r: &str)
        ensures
            r@ == self.algorithm_view(),
    {
        self.algorithm.as_str()
    }

    /// The graph it reads.
    pub fn graph(&self) -> (r: &str)
        ensures
            r@ == self.graph_view(),
    {
        self.graph.as_str()
    }

    /// The schema each batch of a scan has.
    pub fn schema(&self) -> (r: &Vec<FieldDef>)
        ensures
            r@ == self.schema_view(),
    {
        &self.schema
    }

    /// The limits each scan of this table runs under.
    pub fn limits(&self) -> (r: QueryLimits)
        ensures
            r == self.limits_view(),
    {
        self.limits
    }

    /// A read for one scan of this table, under its limits; its timeout
    /// counts from now.
    pub fn query(&self, registry: &Registry) -> (r: Result<Query, NutmegError>)
        ensures
            r is Err ==> r->Err_0 is Plan,
    {
        Query::new(registry, self.limits)
    }

    /// End the read numbered `id` with `outcome`.
    fn end(registry: &mut Registry, id: u64, outcome: Outcome)
        requires
            old(registry).wf(),
        ensures
            final(registry).wf(),
            final(registry).graphs() == old(registry).graphs(),
            final(registry).log().started == old(registry).log().started,
            ended_with(
                old(registry).log(),
                final(registry).log(),
                id,
                outcome_view(outcome).0,
                outcome_view(outcome).1,
            ),
    {
        let ghost logged = outcome_view(outcome);
        let (state, message) = outcome_state(outcome);
        assert(logged.1 == match message {
            Some(m) => Some(m@),
            None => None::<Seq<char>>,
        });
        registry.end_read(id, state, message);
    }

    /// How a read that failed with `error` ends: cancelled where the read
    /// was, else failed, with the error as an engine shows it.
    fn failed(query: &Query, error: &NutmegError) -> (r: Outcome)
        ensures
            r matches Outcome::Failed { message, .. } && message@ == error.prefix() + error.text(),
    {
        Outcome::Failed { message: error.shown(), cancelled: query.is_cancelled() }
    }

    /// Start a scan of this table for `query`: the read is logged as running,
    /// then opened. A read that cannot be opened ends at once, as failed, or
    /// as cancelled where the read was cancelled, and is no longer running.
    pub fn begin(&self, registry: &mut Registry, query: &Query) -> (r: Result<TableRead, NutmegError>)
        requires
            old(registry).wf(),
        ensures
            final(registry).wf(),
            forall|other: Seq<char>|
                other != self.graph_view() ==> #[trigger] lookup(final(registry).graphs(), other)
                    == lookup(old(registry).graphs(), other),
            r matches Ok(t) ==> {
                &&& !t.is_ended()
                &&& t.number() == final(registry).log().started
                &&& final(registry).log().running.len() == old(registry).log().running.len() + 1
                &&& final(registry).log().running.last().id == t.number()
                &&& final(registry).log().running.last().algorithm == self.algorithm_view()
                &&& final(registry).log().running.last().graph == self.graph_view()
                &&& final(registry).log().running.last().state == ReadState::Running
            },
            old(registry).log().started == u64::MAX ==> r is Err && final(registry).log() == old(
                registry,
            ).log(),
            old(registry).log().started < u64::MAX ==> final(registry).log().started == old(
                registry,
            ).log().started + 1,
            r is Err ==> final(registry).log().running == old(registry).log().running,
            r matches Ok(t) ==> final(registry).log().running == old(registry).log().running.push(
                final(registry).log().running.last(),
            ),
            r matches Ok(t) ==> t.number() == old(registry).log().started + 1,
    {
        proof {
            registry.lemma_running_ids();
        }
        let ghost before = registry.log();
        let id = match registry.start_read(self.algorithm.as_str(), self.graph.as_str(), query) {
            Ok(id) => id,
            Err(e) => {
                return Err(e);
            },
        };
        match registry.open_read(query, self.algorithm.as_str(), self.graph.as_str(), &self.args) {
            Ok(reading) => Ok(TableRead { id, reading, ended: false }),
            Err(e) => {
                let outcome = AlgorithmTable::failed(query, &e);
                let ghost opened = registry.log();
                proof {
                    let last = opened.running.len() - 1;
                    assert(opened.running[last].id == id);
                    assert forall|i: int| 0 <= i < opened.running.len() && opened.running[i].id == id implies i
                        == last by {
                        if i < last {
                            assert(opened.running[i] == before.running[i]);
                        }
                    }
                    assert(crate::reads::running_index(opened.running, id) == Some(last));
                    assert(opened.running.remove(last) =~= before.running);
                }
                AlgorithmTable::end(registry, id, outcome);
                Err(e)
            },
        }
    }

    /// A batch renamed to the table's names and checked against its schema.
    fn checked(&self, batch: Batch) -> (r: Result<Batch, NutmegError>)
        ensures
            r matches Ok(b) ==> batch_fields(b) == crate::columns::field_names(self.schema_view()),
            r matches Ok(b) ==> fields_held(b, self.schema_view()),
            self.names == ColumnNames::Grust ==> (r is Ok <==> fields_held(batch, self.schema_view())),
            self.names == ColumnNames::Grust ==> (r matches Ok(b) ==> b == batch),
            self.names == ColumnNames::Grust && !fields_held(batch, self.schema_view()) ==> (r matches Err(
                NutmegError::Execution(m),
            ) && m@ == produced_text(self.algorithm_view(), batch_defs(batch), self.schema_view())),
            r is Err ==> r->Err_0 is Execution,
            self.names == ColumnNames::Gds ==> match crate::columns::first_repeat(
                crate::columns::renamed_all(self.names, batch_fields(batch)),
            ) {
                None => true,
                Some(d) => r matches Err(NutmegError::Execution(m)) && m@
                    == "nutmeg: `columnNames: gds` would name two columns `"@ + d + "`"@,
            },
    {
        let renamed = match self.names.rename_batch(batch) {
            Ok(b) => b,
            Err(e) => {
                return Err(e);
            },
        };
        if !has_fields(&renamed, &self.schema) {
            let produced = fields_debug(&field_defs(&renamed));
            let ghost shown = produced@;
            let declared = fields_debug(&self.schema);
            let mut m = join3("nutmeg: `", self.algorithm.as_str(), "` produced ");
            m.append(produced.as_str());
            m.append(", declared ");
            m.append(declared.as_str());
            assert(m@ =~= produced_text(self.algorithm@, batch_defs(renamed), self.schema@));
            return Err(NutmegError::Execution(m));
        }
        Ok(renamed)
    }

    /// The scan's next batch, renamed and checked against the table's schema,
    /// and counted in the log; `None` once the result is read to its end,
    /// when the read ends as finished. A read that fails ends as failed, or
    /// as cancelled where the read was cancelled. An ended read yields
    /// nothing more and leaves the log alone. The graphs are not touched.
    pub fn step(&self, registry: &mut Registry, read: &mut TableRead, query: &Query) -> (r: Result<
        Option<Batch>,
        NutmegError,
    >)
        requires
            old(registry).wf(),
        ensures
            final(registry).wf(),
            final(registry).graphs() == old(registry).graphs(),
            final(registry).log().started == old(registry).log().started,
            final(read).number() == old(read).number(),
            old(read).is_ended() ==> final(read).is_ended(),
            old(read).is_ended() ==> r matches Ok(None),
            old(read).is_ended() ==> final(registry).log() == old(registry).log(),
            r matches Ok(Some(_)) ==> !final(read).is_ended(),
            !(r matches Ok(Some(_))) ==> final(read).is_ended(),
            r matches Ok(Some(b)) ==> batch_fields(b) == crate::columns::field_names(self.schema_view()),
            r matches Ok(Some(b)) ==> fields_held(b, self.schema_view()),
            r matches Ok(Some(_)) ==> {
                &&& final(registry).log().ended == old(registry).log().ended
                &&& final(registry).log().running.len() == old(registry).log().running.len()
                &&& forall|i: int|
                    0 <= i < old(registry).log().running.len() ==> {
                        let (a, b) = (old(registry).log().running[i], #[trigger] final(registry).log().running[i]);
                        &&& b.id == a.id
                        &&& a.id != old(read).number() ==> b == a
                    }
            },
            r is Err ==> exists|state: ReadState, message: Option<Seq<char>>|
                #[trigger] ended_with(
                    old(registry).log(),
                    final(registry).log(),
                    old(read).number(),
                    state,
                    message,
                ),
            r matches Err(e) ==> exists|cancelled: bool|
                #[trigger] ended_with(
                    old(registry).log(),
                    final(registry).log(),
                    old(read).number(),
                    failed_state(cancelled),
                    Some(e.prefix() + e.text()),
                ),
            (!old(read).is_ended() && r matches Ok(None)) ==> ended_with(
                old(registry).log(),
                final(registry).log(),
                old(read).number(),
                ReadState::Finished,
                None,
            ),
    {
        if read.ended {
            return Ok(None);
        }
        let next = read.reading.next(registry.store().pool(), &query.context);
        match next {
            Ok(None) => {
                read.ended = true;
                AlgorithmTable::end(registry, read.id, Outcome::Finished);
                assert(ended_with(old(registry).log(), registry.log(), old(read).number(), ReadState::Finished, None));
                Ok(None)
            },
            Ok(Some(batch)) => match self.checked(batch) {
                Ok(b) => {
                    registry.count_batch(read.id, num_rows(&b));
                    Ok(Some(b))
                },
                Err(e) => {
                    read.ended = true;
                    let outcome = AlgorithmTable::failed(query, &e);
                    let ghost logged = outcome_view(outcome);
                    AlgorithmTable::end(registry, read.id, outcome);
                    assert(ended_with(old(registry).log(), registry.log(), old(read).number(), logged.0, logged.1));
                    assert(outcome matches Outcome::Failed { cancelled, .. } && ended_with(
                        old(registry).log(),
                        registry.log(),
                        old(read).number(),
                        failed_state(cancelled),
                        Some(e.prefix() + e.text()),
                    ));
                    Err(e)
                },
            },
            Err(e) => {
                read.ended = true;
                let outcome = AlgorithmTable::failed(query, &e);
                let ghost logged = outcome_view(outcome);
                AlgorithmTable::end(registry, read.id, outcome);
                assert(ended_with(old(registry).log(), registry.log(), old(read).number(), logged.0, logged.1));
                assert(outcome matches Outcome::Failed { cancelled, .. } && ended_with(
                    old(registry).log(),
                    registry.log(),
                    old(read).number(),
                    failed_state(cancelled),
                    Some(e.prefix() + e.text()),
                ));
                Err(e)
            },
        }
    }

    /// The consumer stops reading before the end: the read ends as cancelled,
    /// "its consumer stopped reading". An ended read is left as it ended.
    pub fn stop(&self, registry: &mut Registry, read: TableRead)
        requires
            old(registry).wf(),
        ensures
            final(registry).wf(),
            final(registry).graphs() == old(registry).graphs(),
            read.is_ended() ==> final(registry).log() == old(registry).log(),
            !read.is_ended() ==> ended_with(
                old(registry).log(),
                final(registry).log(),
                read.number(),
                ReadState::Cancelled,
                Some("its consumer stopped reading"@),
            ),
    {
        if !read.ended {
            AlgorithmTable::end(registry, read.id, Outcome::Stopped);
        }
    }

    /// Run the table's algorithm for `query`, collecting its result: every
    /// batch renamed and checked, the read logged from start to end.
    pub fn batches_for(&self, registry: &mut Registry, query: &Query) -> (r: Result<Vec<Batch>, NutmegError>)
        requires
            old(registry).wf(),
        ensures
            final(registry).wf(),
            forall|other: Seq<char>|
                other != self.graph_view() ==> #[trigger] lookup(final(registry).graphs(), other)
                    == lookup(old(registry).graphs(), other),
            r matches Ok(v) ==> forall|i: int|
                0 <= i < v@.len() ==> #[trigger] batch_fields(v@[i]) == crate::columns::field_names(
                    self.schema_view(),
                ),
            r is Err ==> final(registry).log().running == old(registry).log().running,
    {
        proof {
            registry.lemma_running_ids();
        }
        let ghost before = registry.log().running;
        let mut read = match self.begin(registry, query) {
            Ok(t) => t,
            Err(e) => {
                return Err(e);
            },
        };
        assert(registry.log().running =~= before.push(registry.log().running.last()));
        let ghost opened = registry.graphs();
        let mut out: Vec<Batch> = Vec::new();
        let mut fuel: usize = usize::MAX;
        while fuel > 0
            invariant
                registry.wf(),
                registry.graphs() == opened,
                forall|i: int|
                    0 <= i < out@.len() ==> #[trigger] batch_fields(out@[i]) == crate::columns::field_names(
                        self.schema_view(),
                    ),
                forall|other: Seq<char>|
                    other != self.graph_view() ==> #[trigger] lookup(opened, other) == lookup(
                        old(registry).graphs(),
                        other,
                    ),
                before == old(registry).log().running,
                !read.is_ended(),
                registry.log().running.len() == before.len() + 1,
                forall|i: int| 0 <= i < before.len() ==> #[trigger] registry.log().running[i] == before[i],
                registry.log().running[before.len() as int].id == read.number(),
                forall|i: int| 0 <= i < before.len() ==> #[trigger] before[i].id < read.number(),
            decreases fuel,
        {
            fuel = fuel - 1;
            let ghost current = registry.log().running;
            let ghost log_before = registry.log();
            match self.step(registry, &mut read, query) {
                Ok(Some(batch)) => {
                    proof {
                        let last = before.len() as int;
                        assert(current[last].id == read.number());
                        assert(registry.log().running[last].id == current[last].id);
                        assert forall|i: int| 0 <= i < before.len() implies #[trigger] registry.log().running[i]
                            == before[i] by {
                            assert(current[i] == before[i]);
                            assert(current[i].id != read.number());
                        }
                    }
                    out.push(batch);
                },
                Ok(None) => {
                    return Ok(out);
                },
                Err(e) => {
                    proof {
                        let last = before.len() as int;
                        let (st, m) = choose|st: ReadState, m: Option<Seq<char>>|
                            #[trigger] ended_with(log_before, registry.log(), read.number(), st, m);
                        assert(ended_with(log_before, registry.log(), read.number(), st, m));
                        assert forall|i: int|
                            0 <= i < current.len() && current[i].id == read.number() implies i == last by {
                            if i < last {
                                assert(current[i] == before[i]);
                            }
                        }
                        assert(current[last].id == read.number());
                        assert(crate::reads::running_index(current, read.number()) == Some(last));
                        assert(current.remove(last) =~= before);
                    }
                    return Err(e);
                },
            }
        }
        Ok(out)
    }

    /// Run the table's algorithm as a read of its own, under its limits.
    pub fn batches(&self, registry: &mut Registry) -> (r: Result<Vec<Batch>, NutmegError>)
        requires
            old(registry).wf(),
        ensures
            final(registry).wf(),
            forall|other: Seq<char>|
                other != self.graph_view() ==> #[trigger] lookup(final(registry).graphs(), other)
                    == lookup(old(registry).graphs(), other),
            r matches Ok(v) ==> forall|i: int|
                0 <= i < v@.len() ==> #[trigger] batch_fields(v@[i]) == crate::columns::field_names(
                    self.schema_view(),
                ),
            r is Err ==> final(registry).log().running == old(registry).log().running,
    {
        let query = match self.query(registry) {
            Ok(q) => q,
            Err(e) => {
                return Err(e);
            },
        };
        self.batches_for(registry, &query)
    }
}

/// An argument of a table function call: a string literal's text, or, for
/// any other expression, the expression as it is displayed.
pub enum Literal {
    Text(String),
    Other(String),
}

/// The text of argument `position` (counted from 1), which must be a string
/// literal.
pub fn literal_string(arg: &Literal, position: usize) -> (r: Result<String, NutmegError>)
    ensures
        arg matches Literal::Text(t) ==> (r matches Ok(u) && u@ == t@),
        arg matches Literal::Other(e) ==> (r matches Err(NutmegError::Plan(m)) && m@
            == "nutmeg: argument "@ + crate::text::decimal(position as nat)
            + " must be a string literal, got "@ + e@),
{
    match arg {
        Literal::Text(t) => Ok(t.clone()),
        Literal::Other(e) => {
            let mut m = String::from_str("nutmeg: argument ");
            m.append(crate::text::decimal_of(position as u64).as_str());
            m.append(" must be a string literal, got ");
            m.append(e.as_str());
            Err(NutmegError::Plan(m))
        },
    }
}

/// `nutmeg_<algorithm>('graph'[, '{json configuration}'])`: a table over the
/// graph named by the first argument, configured by the second, a JSON object
/// of Grust's options plus Nutmeg's `columnNames` and read limits; any other
/// number of arguments is refused.
pub fn algorithm_call(
    registry: &mut Registry,
    algorithm: &str,
    args: &Vec<Literal>,
    probe_nodes: &Batch,
) -> (r: Result<AlgorithmTable, NutmegError>)
    requires
        old(registry).wf(),
    ensures
        final(registry).wf(),
        final(registry).log() == old(registry).log(),
        args@.len() != 1 && args@.len() != 2 ==> (r matches Err(NutmegError::Plan(m)) && m@
            == "nutmeg_"@ + crate::catalog::snake_spec(algorithm@)
            + "(graph[, configuration]) takes one or two arguments"@),
        args@.len() == 1 && args@[0] is Other ==> r is Err,
{
    if args.len() != 1 && args.len() != 2 {
        let sql = crate::catalog::snake(algorithm);
        return Err(
            NutmegError::Plan(
                join3("nutmeg_", sql.as_str(), "(graph[, configuration]) takes one or two arguments"),
            ),
        );
    }
    let graph = match literal_string(&args[0], 1) {
        Ok(g) => g,
        Err(e) => {
            return Err(e);
        },
    };
    let mut options = if args.len() == 2 {
        let text = match literal_string(&args[1], 2) {
            Ok(t) => t,
            Err(e) => {
                return Err(e);
            },
        };
        match crate::calls::parse_options(text.as_str()) {
            Ok(o) => o,
            Err(e) => {
                return Err(e);
            },
        }
    } else {
        Options::new()
    };
    let names = match ColumnNames::take(&mut options) {
        Ok(n) => n,
        Err(e) => {
            return Err(e);
        },
    };
    AlgorithmTable::named(registry, algorithm, graph, &options, names, probe_nodes)
}

/// A listing function (`nutmeg_graphs()`, `nutmeg_memory()`,
/// `nutmeg_reads()`) takes no arguments.
pub fn no_arguments(function: &str, count: usize) -> (r: Result<(), NutmegError>)
    ensures
        count == 0 <==> r is Ok,
        count > 0 ==> (r matches Err(NutmegError::Plan(m)) && m@ == function@
            + "() takes no arguments"@),
{
    if count == 0 {
        Ok(())
    } else {
        Err(NutmegError::Plan(crate::error::join2(function, "() takes no arguments")))
    }
}

/// The listing functions, after the algorithms'.
pub open spec fn listing_functions() -> Seq<Seq<char>> {
    seq!["nutmeg_graphs"@, "nutmeg_memory"@, "nutmeg_reads"@]
}

/// The SQL name of each algorithm's table function, `nutmeg_` and its
/// snake-case name, in order, then the listing functions'.
pub open spec fn sql_names_spec(names: Seq<Seq<char>>) -> Seq<Seq<char>> {
    names.map_values(|n: Seq<char>| "nutmeg_"@ + crate::catalog::snake_spec(n)) + listing_functions()
}

/// See [`sql_names_spec`].
pub fn sql_names(names: &Vec<String>) -> (r: Vec<String>)
    ensures
        crate::catalog::views(r@) == sql_names_spec(crate::catalog::views(names@)),
{
    let mut out: Vec<String> = Vec::new();
    let mut i: usize = 0;
    let ghost target = names@.map_values(|n: String| "nutmeg_"@ + crate::catalog::snake_spec(n@));
    while i < names.len()
        invariant
            i <= names@.len(),
            target == names@.map_values(|n: String| "nutmeg_"@ + crate::catalog::snake_spec(n@)),
            crate::catalog::views(out@) == target.subrange(0, i as int),
        decreases names@.len() - i,
    {
        let snake = crate::catalog::snake(names[i].as_str());
        let ghost before = out@;
        out.push(crate::error::join2("nutmeg_", snake.as_str()));
        proof {
            assert(crate::catalog::views(out@) =~= crate::catalog::views(before).push(out@.last()@));
            assert(target.subrange(0, i + 1) =~= target.subrange(0, i as int).push(target[i as int]));
        }
        i = i + 1;
    }
    let ghost algorithms = crate::catalog::views(out@);
    out.push(String::from_str("nutmeg_graphs"));
    out.push(String::from_str("nutmeg_memory"));
    out.push(String::from_str("nutmeg_reads"));
    proof {
        assert(target.subrange(0, names@.len() as int) =~= target);
        assert(crate::catalog::views(names@).map_values(
            |n: Seq<char>| "nutmeg_"@ + crate::catalog::snake_spec(n),
        ) =~= target);
        assert(crate::catalog::views(out@) =~= algorithms + listing_functions());
    }
    out
}

/// One table function per algorithm Grust registers, then the listings'.
pub fn table_function_names() -> (r: Vec<String>)
    ensures
        exists|names: Seq<Seq<char>>| crate::catalog::views(r@) == sql_names_spec(names),
{
    let names = algorithm_names();
    sql_names(&names)
}

/// A count as a non-negative Int64, held at `i64::MAX`.
pub fn clamped(v: usize) -> (r: i64)
    ensures
        r == (if v <= i64::MAX {
            v as int
        } else {
            i64::MAX as int
        }),
{
    if v as u128 <= i64::MAX as u128 {
        v as i64
    } else {
        i64::MAX
    }
}

/// A count as Int64 by two's complement, as a cast does: itself where it
/// fits, else negative.
pub fn wrapped(v: usize) -> (r: i64)
    ensures
        v <= i64::MAX ==> r == v,
        v > i64::MAX ==> r < 0,
{
    let w = v as u64;
    #[verifier::truncate]
    let r = w as i64;
    assert(w <= 0x7fff_ffff_ffff_ffffu64 ==> (#[verifier::truncate] (w as i64)) == w) by (bit_vector);
    assert(w > 0x7fff_ffff_ffff_ffffu64 ==> (#[verifier::truncate] (w as i64)) < 0) by (bit_vector);
    r
}

/// A batch of `fields` over `columns`; Arrow's refusal as an execution error.
fn rows_of(fields: Vec<FieldDef>, columns: Vec<Column>) -> (r: Result<Vec<Batch>, NutmegError>)
    ensures
        r matches Ok(v) ==> v@.len() == 1 && batch_fields(v@[0]) == crate::columns::field_names(fields@)
            && columns@.len() > 0 && batch_rows(v@[0]) == column_len(columns@[0]),
        r matches Ok(v) ==> forall|i: int|
            0 <= i < columns@.len() && i < fields@.len() && (forall|j: int|
                0 <= j < i ==> field_name(fields@[j]) != field_name(fields@[i])) ==> #[trigger] named_column(
                v@[0],
                field_name(fields@[i]),
            ) == Some(columns@[i]),
        r is Err ==> r->Err_0 is Execution,
{
    let ghost given = columns@;
    match make_batch(fields, columns) {
        Ok(b) => {
            assert(column_len(given[0]) == batch_rows(b));
            let v = vec![b];
            assert(v@[0] == b);
            Ok(v)
        },
        Err(m) => Err(NutmegError::Execution(m)),
    }
}

/// The refusal of a listing whose texts do not fit one Utf8 column.
pub const TEXTS_TOO_LONG: &'static str = "nutmeg: a listing's texts take more than 2147483647 bytes";

/// A Utf8 column of `values`; refused where their text does not fit one.
fn checked_texts(values: &Vec<String>) -> (r: Result<Column, NutmegError>)
    ensures
        r matches Ok(c) ==> column_len(c) == values@.len() && column_texts(c) == Some(
            values@.map_values(|t: String| Some(t@)),
        ),
        r is Err <==> crate::text::texts_len(values@.map_values(|t: String| t@))
            > crate::text::TEXT_COLUMN_BYTES,
        r matches Err(e) ==> e is Execution && e->Execution_0@ == TEXTS_TOO_LONG@,
{
    match crate::text::texts_len_within(values, crate::text::TEXT_COLUMN_BYTES) {
        Some(_) => Ok(texts_column(values)),
        None => Err(NutmegError::Execution(String::from_str(TEXTS_TOO_LONG))),
    }
}

/// A Utf8 column of `values`, `None` as a null; refused where their text
/// does not fit one.
fn checked_optional_texts(values: &Vec<Option<String>>) -> (r: Result<Column, NutmegError>)
    ensures
        r matches Ok(c) ==> column_len(c) == values@.len() && column_texts(c) == Some(
            values@.map_values(
                |o: Option<String>|
                    match o {
                        Some(s) => Some(s@),
                        None => None,
                    },
            ),
        ),
        r is Err <==> crate::text::texts_len(crate::text::present_texts(values@))
            > crate::text::TEXT_COLUMN_BYTES,
        r matches Err(e) ==> e is Execution && e->Execution_0@ == TEXTS_TOO_LONG@,
{
    match crate::text::optional_texts_len_within(values, crate::text::TEXT_COLUMN_BYTES) {
        Some(_) => Ok(optional_text_column(values)),
        None => Err(NutmegError::Execution(String::from_str(TEXTS_TOO_LONG))),
    }
}

/// The values of the Int64 column `name` of a batch, if it has one.
pub open spec fn ints_named(batch: Batch, name: Seq<char>) -> Option<Seq<Option<i64>>> {
    match named_column(batch, name) {
        Some(c) => column_ints(c),
        None => None,
    }
}

/// A count as [`clamped`] writes it: held at `i64::MAX`.
pub open spec fn held_count(v: usize) -> i64 {
    if v <= i64::MAX {
        v as i64
    } else {
        i64::MAX
    }
}

/// Every table read, running or recently ended, as rows of `nutmeg_reads()`.
pub struct ReadsTable;

/// The columns of [`ReadsTable`].
pub open spec fn reads_columns() -> Seq<Seq<char>> {
    seq!["readId"@, "algorithm"@, "graph"@, "state"@, "message"@, "batches"@, "rows"@, "liveBytes"@, "peakBytes"@, "workUnits"@]
}

impl ReadsTable {
    pub fn arrow_schema() -> (r: Vec<FieldDef>)
        ensures
            crate::columns::field_names(r@) == reads_columns(),
    {
        let r = vec![
            int_field("readId"),
            text_field("algorithm", false),
            text_field("graph", false),
            text_field("state", false),
            text_field("message", true),
            int_field("batches"),
            int_field("rows"),
            int_field("liveBytes"),
            int_field("peakBytes"),
            int_field("workUnits"),
        ];
        assert(crate::columns::field_names(r@) =~= reads_columns());
        r
    }

    /// One batch holding a row per read ([`Registry::reads`]), each count
    /// held at `i64::MAX`.
    pub fn batches(registry: &Registry) -> (r: Result<Vec<Batch>, NutmegError>)
        requires
            registry.wf(),
        ensures
            r matches Ok(v) ==> v@.len() == 1 && batch_fields(v@[0]) == reads_columns() && batch_rows(v@[0]) == registry.log().ended.len() + registry.log().running.len(),
            r matches Ok(v) ==> {
                let reads = registry.log().ended + registry.log().running;
                &&& texts_named(v@[0], "algorithm"@) == Some(reads.map_values(|x: ReadView| Some(x.algorithm)))
                &&& texts_named(v@[0], "graph"@) == Some(reads.map_values(|x: ReadView| Some(x.graph)))
                &&& texts_named(v@[0], "state"@) == Some(
                    reads.map_values(|x: ReadView| Some(state_text(x.state))),
                )
                &&& texts_named(v@[0], "message"@) == Some(reads.map_values(|x: ReadView| x.message))
                &&& ints_named(v@[0], "batches"@) == Some(
                    reads.map_values(|x: ReadView| Some(held_count(x.batches))),
                )
                &&& ints_named(v@[0], "rows"@) == Some(reads.map_values(|x: ReadView| Some(held_count(x.rows))))
            },
            r is Err ==> r->Err_0 is Execution,
    {
        proof {
            reveal_strlit("readId");
            reveal_strlit("algorithm");
            reveal_strlit("graph");
            reveal_strlit("state");
            reveal_strlit("message");
            reveal_strlit("batches");
            reveal_strlit("rows");
        }
        let rows = registry.reads();
        let ghost reads = rows@.map_values(|x: crate::reads::ReadInfo| x@);
        let mut ids: Vec<i64> = Vec::new();
        let mut algorithms: Vec<String> = Vec::new();
        let mut graphs: Vec<String> = Vec::new();
        let mut states: Vec<String> = Vec::new();
        let mut messages: Vec<Option<String>> = Vec::new();
        let mut batches: Vec<i64> = Vec::new();
        let mut counts: Vec<i64> = Vec::new();
        let mut live: Vec<i64> = Vec::new();
        let mut peak: Vec<i64> = Vec::new();
        let mut work: Vec<i64> = Vec::new();
        let mut i: usize = 0;
        while i < rows.len()
            invariant
                i <= rows@.len(),
                reads == rows@.map_values(|x: crate::reads::ReadInfo| x@),
                ids@.len() == i,
                algorithms@.map_values(|t: String| Some(t@)) == reads.take(i as int).map_values(
                    |x: ReadView| Some(x.algorithm),
                ),
                graphs@.map_values(|t: String| Some(t@)) == reads.take(i as int).map_values(
                    |x: ReadView| Some(x.graph),
                ),
                states@.map_values(|t: String| Some(t@)) == reads.take(i as int).map_values(
                    |x: ReadView| Some(state_text(x.state)),
                ),
                messages@.map_values(
                    |o: Option<String>|
                        match o {
                            Some(t) => Some(t@),
                            None => None,
                        },
                ) == reads.take(i as int).map_values(|x: ReadView| x.message),
                batches@.map_values(|v: i64| Some(v)) == reads.take(i as int).map_values(
                    |x: ReadView| Some(held_count(x.batches)),
                ),
                counts@.map_values(|v: i64| Some(v)) == reads.take(i as int).map_values(
                    |x: ReadView| Some(held_count(x.rows)),
                ),
            decreases rows@.len() - i,
        {
            let ghost a0 = algorithms@;
            let ghost g0 = graphs@;
            let ghost s0 = states@;
            let ghost m0 = messages@;
            let ghost b0 = batches@;
            let ghost c0 = counts@;
            let ghost x = reads[i as int];
            assert(reads.take(i + 1) =~= reads.take(i as int).push(x));
            let r = &rows[i];
            ids.push(clamped(wrapped_id(r.id)));
            algorithms.push(r.algorithm.clone());
            graphs.push(r.graph.clone());
            let state = r.state.name();
            states.push(String::from_str(state));
            messages.push(
                match &r.message {
                    Some(m) => Some(m.clone()),
                    None => None,
                },
            );
            batches.push(clamped(r.batches));
            counts.push(clamped(r.rows));
            live.push(clamped(r.live_bytes));
            peak.push(clamped(r.peak_bytes));
            work.push(clamped(r.work_units));
            proof {
                assert(algorithms@.map_values(|t: String| Some(t@)) =~= a0.map_values(|t: String| Some(t@)).push(
                    Some(x.algorithm),
                ));
                assert(graphs@.map_values(|t: String| Some(t@)) =~= g0.map_values(|t: String| Some(t@)).push(
                    Some(x.graph),
                ));
                assert(states@.map_values(|t: String| Some(t@)) =~= s0.map_values(|t: String| Some(t@)).push(
                    Some(state_text(x.state)),
                ));
                assert(messages@.map_values(
                    |o: Option<String>|
                        match o {
                            Some(t) => Some(t@),
                            None => None,
                        },
                ) =~= m0.map_values(
                    |o: Option<String>|
                        match o {
                            Some(t) => Some(t@),
                            None => None,
                        },
                ).push(x.message));
                assert(batches@.map_values(|v: i64| Some(v)) =~= b0.map_values(|v: i64| Some(v)).push(
                    Some(held_count(x.batches)),
                ));
                assert(counts@.map_values(|v: i64| Some(v)) =~= c0.map_values(|v: i64| Some(v)).push(
                    Some(held_count(x.rows)),
                ));
            }
            i = i + 1;
        }
        assert(reads.take(rows@.len() as int) =~= reads);
        assert(rows@.map_values(|x: crate::reads::ReadInfo| x@).len() == rows@.len());
        let first = int_column(&ids);
        let algorithm_column = match checked_texts(&algorithms) {
            Ok(c) => c,
            Err(e) => {
                return Err(e);
            },
        };
        let graph_column = match checked_texts(&graphs) {
            Ok(c) => c,
            Err(e) => {
                return Err(e);
            },
        };
        let state_column = match checked_texts(&states) {
            Ok(c) => c,
            Err(e) => {
                return Err(e);
            },
        };
        let message_column = match checked_optional_texts(&messages) {
            Ok(c) => c,
            Err(e) => {
                return Err(e);
            },
        };
        let schema = ReadsTable::arrow_schema();
        let ghost fields = schema@;
        let columns = vec![
            first,
            algorithm_column,
            graph_column,
            state_column,
            message_column,
            int_column(&batches),
            int_column(&counts),
            int_column(&live),
            int_column(&peak),
            int_column(&work),
        ];
        let ghost made = columns@;
        let r = rows_of(schema, columns);
        proof {
            if r is Ok {
                let b = r->Ok_0@[0];
                assert(crate::columns::field_names(fields) == reads_columns());
                assert(reads_columns().len() == 10);
                assert(fields.len() == 10);
                assert forall|k: int| 0 <= k < 10 implies field_name(fields[k])
                    == #[trigger] reads_columns()[k] by {
                    assert(crate::columns::field_names(fields)[k] == field_name(fields[k]));
                }
                assert(field_name(fields[0]) == "readId"@);
                assert(field_name(fields[1]) == "algorithm"@);
                assert(field_name(fields[2]) == "graph"@);
                assert(field_name(fields[3]) == "state"@);
                assert(field_name(fields[4]) == "message"@);
                assert(field_name(fields[5]) == "batches"@);
                assert(field_name(fields[6]) == "rows"@);
                assert("readId"@.len() == 6 && "algorithm"@.len() == 9 && "graph"@.len() == 5);
                assert("state"@.len() == 5 && "message"@.len() == 7 && "batches"@.len() == 7);
                assert("rows"@.len() == 4);
                assert(forall|j: int| 0 <= j < 1 ==> #[trigger] field_name(fields[j]) != field_name(fields[1]));
                assert(named_column(b, field_name(fields[1])) == Some(made[1]));
                assert(forall|j: int| 0 <= j < 2 ==> #[trigger] field_name(fields[j]) != field_name(fields[2]));
                assert(named_column(b, field_name(fields[2])) == Some(made[2]));
                assert("graph"@[0] != "state"@[0]);
                assert(forall|j: int| 0 <= j < 3 ==> #[trigger] field_name(fields[j]) != field_name(fields[3]));
                assert(named_column(b, field_name(fields[3])) == Some(made[3]));
                assert(forall|j: int| 0 <= j < 4 ==> #[trigger] field_name(fields[j]) != field_name(fields[4]));
                assert(named_column(b, field_name(fields[4])) == Some(made[4]));
                assert("message"@[0] != "batches"@[0]);
                assert(forall|j: int| 0 <= j < 5 ==> #[trigger] field_name(fields[j]) != field_name(fields[5]));
                assert(named_column(b, field_name(fields[5])) == Some(made[5]));
                assert(forall|j: int| 0 <= j < 6 ==> #[trigger] field_name(fields[j]) != field_name(fields[6]));
                assert(named_column(b, field_name(fields[6])) == Some(made[6]));
            }
        }
        r
    }
}

/// A read's number as a `usize`, as a cast does.
fn wrapped_id(id: u64) -> (r: usize)
    ensures
        id <= usize::MAX ==> r == id,
{
    #[verifier::truncate]
    let r = id as usize;
    r
}

/// `names` lists the graphs other than the schema probe, each once, in
/// name order.
pub open spec fn graph_listing(graphs: Seq<(Seq<char>, crate::store::EntryView)>, names: Seq<Seq<char>>) -> bool {
    &&& forall|i: int| 0 <= i < names.len() ==> #[trigger] names[i] != PROBE@ && lookup(graphs, names[i]) is Some
    &&& forall|i: int, j: int| 0 <= i < j < names.len() ==> crate::catalog::text_lt(names[i], names[j])
    &&& forall|j: int|
        #![trigger graphs[j]]
        0 <= j < graphs.len() && graphs[j].0 != PROBE@ ==> names.contains(graphs[j].0)
}

/// The listing of staged graphs, the schema probe's left out.
pub struct GraphsTable;

/// The columns of [`GraphsTable`].
pub open spec fn graphs_columns() -> Seq<Seq<char>> {
    seq!["name"@, "stagedNodes"@, "stagedEdges"@, "stagedBytes"@, "revision"@, "projections"@]
}

impl GraphsTable {
    pub fn arrow_schema() -> (r: Vec<FieldDef>)
        ensures
            crate::columns::field_names(r@) == graphs_columns(),
    {
        let r = vec![
            text_field("name", false),
            int_field("stagedNodes"),
            int_field("stagedEdges"),
            int_field("stagedBytes"),
            int_field("revision"),
            int_field("projections"),
        ];
        assert(crate::columns::field_names(r@) =~= graphs_columns());
        r
    }

    /// The graphs other than the schema probe, in name order, each a row.
    pub fn listed(registry: &Registry) -> (r: Vec<crate::store::GraphInfo>)
        requires
            registry.wf(),
        ensures
            forall|i: int| 0 <= i < r@.len() ==> #[trigger] r@[i].name@ != PROBE@,
            forall|i: int, j: int|
                0 <= i < j < r@.len() ==> crate::catalog::text_lt(r@[i].name@, r@[j].name@),
            forall|i: int|
                0 <= i < r@.len() ==> ((#[trigger] lookup(registry.graphs(), r@[i].name@)) matches Some(
                    e,
                ) && crate::store::Store::reports(r@[i], e)),
            forall|j: int|
                #![trigger registry.graphs()[j]]
                0 <= j < registry.graphs().len() && registry.graphs()[j].0 != PROBE@ ==> exists|i: int|
                    0 <= i < r@.len() && #[trigger] r@[i].name@ == registry.graphs()[j].0,
            r@.len() == registry.graphs().len() - (if lookup(registry.graphs(), PROBE@) is Some {
                1int
            } else {
                0int
            }),
    {
        let all = registry.list();
        let ghost listed = all@;
        let n = all.len();
        let mut out: Vec<crate::store::GraphInfo> = Vec::new();
        let ghost mut from: Seq<int> = Seq::empty();
        let mut rest = all;
        let mut taken: usize = 0;
        let ghost mut skipped: int = 0;
        proof {
            assert forall|a: int, b: int| 0 <= a < b < listed.len() implies listed[a].name@ != listed[b].name@ by {
                crate::options::lemma_text_lt_irreflexive(listed[a].name@);
            }
        }
        while rest.len() > 0
            invariant
                n == listed.len(),
                forall|a: int, b: int| 0 <= a < b < listed.len() ==> listed[a].name@ != listed[b].name@,
                out@.len() == taken - skipped,
                skipped == 0 || skipped == 1,
                skipped == 1 <==> exists|j: int| 0 <= j < taken && #[trigger] listed[j].name@ == PROBE@,
                taken + rest@.len() == listed.len(),
                rest@ == listed.subrange(taken as int, listed.len() as int),
                from.len() == out@.len(),
                forall|i: int| 0 <= i < out@.len() ==> #[trigger] out@[i].name@ != PROBE@,
                forall|i: int|
                    0 <= i < out@.len() ==> 0 <= #[trigger] from[i] < taken && listed[from[i]]
                        == out@[i],
                forall|i: int, k: int| 0 <= i < k < out@.len() ==> from[i] < from[k],
                forall|j: int|
                    0 <= j < taken && #[trigger] listed[j].name@ != PROBE@ ==> exists|i: int|
                        0 <= i < out@.len() && from[i] == j,
            decreases rest@.len(),
        {
            let ghost from0 = from;
            let ghost len0 = out@.len();
            let g = rest.remove(0);
            assert(g == listed[taken as int]);
            assert(rest@ =~= listed.subrange(taken + 1, listed.len() as int));
            if !crate::text::str_eq(g.name.as_str(), PROBE) {
                out.push(g);
                proof {
                    from = from.push(taken as int);
                }
            } else {
                proof {
                    if skipped == 1 {
                        let j = choose|j: int| 0 <= j < taken && #[trigger] listed[j].name@ == PROBE@;
                        assert(listed[j].name@ == listed[taken as int].name@);
                    }
                    skipped = 1;
                }
            }
            proof {
                assert(skipped == 1 <==> exists|j: int| 0 <= j < taken + 1 && #[trigger] listed[j].name@ == PROBE@);
                assert forall|j: int|
                    0 <= j < taken + 1 && #[trigger] listed[j].name@ != PROBE@ implies exists|i: int|
                        0 <= i < out@.len() && from[i] == j by {
                    if j < taken {
                        let i = choose|i: int| 0 <= i < len0 && from0[i] == j;
                        assert(from[i] == j);
                    } else {
                        assert(from[len0 as int] == j);
                    }
                }
            }
            taken = taken + 1;
        }
        proof {
            assert forall|i: int| 0 <= i < out@.len() implies ((#[trigger] lookup(
                registry.graphs(),
                out@[i].name@,
            )) matches Some(e) && crate::store::Store::reports(out@[i], e)) by {
                assert(out@[i] == listed[from[i]]);
                assert(lookup(registry.graphs(), listed[from[i]].name@) matches Some(e)
                    && crate::store::Store::reports(listed[from[i]], e));
            }
            assert forall|i: int, j: int| 0 <= i < j < out@.len() implies crate::catalog::text_lt(
                out@[i].name@,
                out@[j].name@,
            ) by {
                assert(from[i] < from[j]);
            }
            assert forall|j: int|
                0 <= j < registry.graphs().len() && registry.graphs()[j].0 != PROBE@ implies exists|i: int|
                    0 <= i < out@.len() && #[trigger] out@[i].name@ == registry.graphs()[j].0 by {
                let k = choose|k: int| 0 <= k < listed.len() && #[trigger] listed[k].name@ == registry.graphs()[j].0;
                assert(listed[k].name@ != PROBE@);
                let i = choose|i: int| 0 <= i < out@.len() && from[i] == k;
                assert(out@[i] == listed[k]);
            }
            if lookup(registry.graphs(), PROBE@) is Some {
                let names = crate::store::names_of(registry.graphs());
                crate::order::lemma_index_of_contains(names, PROBE@);
                let q = choose|q: int| 0 <= q < names.len() && names[q] == PROBE@;
                assert(registry.graphs()[q].0 == PROBE@);
                let k = choose|k: int| 0 <= k < listed.len() && #[trigger] listed[k].name@ == registry.graphs()[q].0;
                assert(listed[k].name@ == PROBE@);
            } else {
                if skipped == 1 {
                    let j = choose|j: int| 0 <= j < taken && #[trigger] listed[j].name@ == PROBE@;
                    assert(lookup(registry.graphs(), listed[j].name@) is Some);
                }
            }
        }
        out
    }

    /// One batch holding a row per staged graph ([`GraphsTable::listed`]),
    /// each count cast to Int64.
    pub fn batches(registry: &Registry) -> (r: Result<Vec<Batch>, NutmegError>)
        requires
            registry.wf(),
        ensures
            r matches Ok(v) ==> v@.len() == 1 && batch_fields(v@[0]) == graphs_columns() && batch_rows(v@[0])
                == registry.graphs().len() - (if lookup(registry.graphs(), PROBE@) is Some {
                1int
            } else {
                0int
            }),
            r matches Ok(v) ==> exists|names: Seq<Seq<char>>|
                #[trigger] graph_listing(registry.graphs(), names) && texts_named(v@[0], "name"@) == Some(
                    names.map_values(|n: Seq<char>| Some(n)),
                ),
            r is Err ==> r->Err_0 is Execution,
    {
        proof {
            reveal_strlit("name");
        }
        let rows = GraphsTable::listed(registry);
        let ghost listed = rows@.map_values(|g: crate::store::GraphInfo| g.name@);
        let mut names: Vec<String> = Vec::new();
        let mut nodes: Vec<i64> = Vec::new();
        let mut edges: Vec<i64> = Vec::new();
        let mut bytes: Vec<i64> = Vec::new();
        let mut revisions: Vec<i64> = Vec::new();
        let mut projections: Vec<i64> = Vec::new();
        let mut i: usize = 0;
        while i < rows.len()
            invariant
                i <= rows@.len(),
                names@.len() == i,
                listed == rows@.map_values(|g: crate::store::GraphInfo| g.name@),
                names@.map_values(|t: String| Some(t@)) == listed.take(i as int).map_values(
                    |n: Seq<char>| Some(n),
                ),
            decreases rows@.len() - i,
        {
            let g = &rows[i];
            let ghost n0 = names@;
            assert(listed.take(i + 1) =~= listed.take(i as int).push(listed[i as int]));
            names.push(g.name.clone());
            assert(names@.map_values(|t: String| Some(t@)) =~= n0.map_values(|t: String| Some(t@)).push(
                Some(listed[i as int]),
            ));
            nodes.push(wrapped(g.staged_nodes));
            edges.push(wrapped(g.staged_edges));
            bytes.push(wrapped(g.staged_bytes));
            revisions.push(wrapped(wrapped_id(g.revision)));
            projections.push(wrapped(g.projections));
            i = i + 1;
        }
        assert(listed.take(rows@.len() as int) =~= listed);
        proof {
            assert forall|j: int|
                0 <= j < registry.graphs().len() && registry.graphs()[j].0 != PROBE@ implies listed.contains(
                registry.graphs()[j].0,
            ) by {
                let k = choose|k: int| 0 <= k < rows@.len() && #[trigger] rows@[k].name@ == registry.graphs()[j].0;
                assert(listed[k] == registry.graphs()[j].0);
            }
            assert(graph_listing(registry.graphs(), listed));
        }
        let name_column = match checked_texts(&names) {
            Ok(c) => c,
            Err(e) => {
                return Err(e);
            },
        };
        let schema = GraphsTable::arrow_schema();
        let ghost fields = schema@;
        let columns = vec![
            name_column,
            int_column(&nodes),
            int_column(&edges),
            int_column(&bytes),
            int_column(&revisions),
            int_column(&projections),
        ];
        let ghost made = columns@;
        let r = rows_of(schema, columns);
        proof {
            if r is Ok {
                let b = r->Ok_0@[0];
                assert(graphs_columns().len() == 6);
                assert(crate::columns::field_names(fields)[0] == field_name(fields[0]));
                assert(named_column(b, field_name(fields[0])) == Some(made[0]));
            }
        }
        r
    }
}

/// The memory budget and what is using it, as one row: `limitBytes`,
/// `usedBytes`, `stagedBytes` (the sum of the graph listing's) and
/// `peakBytes`.
pub struct MemoryTable;

/// The columns of [`MemoryTable`].
pub open spec fn memory_columns() -> Seq<Seq<char>> {
    seq!["limitBytes"@, "usedBytes"@, "stagedBytes"@, "peakBytes"@]
}

impl MemoryTable {
    pub fn arrow_schema() -> (r: Vec<FieldDef>)
        ensures
            crate::columns::field_names(r@) == memory_columns(),
    {
        let r = vec![
            int_field("limitBytes"),
            int_field("usedBytes"),
            int_field("stagedBytes"),
            int_field("peakBytes"),
        ];
        assert(crate::columns::field_names(r@) =~= memory_columns());
        r
    }

    /// One batch of one row ([`Registry::memory`]), each figure cast to
    /// Int64.
    pub fn batches(registry: &Registry) -> (r: Result<Vec<Batch>, NutmegError>)
        requires
            registry.wf(),
        ensures
            r matches Ok(v) ==> v@.len() == 1 && batch_fields(v@[0]) == memory_columns() && batch_rows(v@[0])
                == 1,
            r matches Ok(v) ==> {
                let staged = crate::store::staged_sum(registry.graphs());
                &&& ints_named(v@[0], "stagedBytes"@) matches Some(values)
                &&& values.len() == 1
                &&& values[0] matches Some(x)
                &&& staged <= i64::MAX ==> x == staged
                &&& staged > i64::MAX ==> x < 0
            },
            r is Err ==> r->Err_0 is Execution,
    {
        proof {
            reveal_strlit("limitBytes");
            reveal_strlit("usedBytes");
            reveal_strlit("stagedBytes");
        }
        let m = match registry.memory() {
            Ok(m) => m,
            Err(e) => {
                return Err(e);
            },
        };
        let staged = wrapped(m.staged_bytes);
        let schema = MemoryTable::arrow_schema();
        let ghost fields = schema@;
        let columns = vec![
            int_column(&vec![wrapped(m.limit_bytes)]),
            int_column(&vec![wrapped(m.used_bytes)]),
            int_column(&vec![staged]),
            int_column(&vec![wrapped(m.peak_bytes)]),
        ];
        let ghost made = columns@;
        assert(column_ints(made[2]) == Some(seq![Some(staged)])) by {
            assert(seq![staged].map_values(|v: i64| Some(v)) =~= seq![Some(staged)]);
        }
        let r = rows_of(schema, columns);
        proof {
            if r is Ok {
                let b = r->Ok_0@[0];
                assert(memory_columns().len() == 4);
                assert forall|k: int| 0 <= k < 4 implies field_name(fields[k])
                    == #[trigger] memory_columns()[k] by {
                    assert(crate::columns::field_names(fields)[k] == field_name(fields[k]));
                }
                assert("limitBytes"@.len() == 10 && "usedBytes"@.len() == 9 && "stagedBytes"@.len() == 11);
                assert(forall|j: int| 0 <= j < 2 ==> #[trigger] field_name(fields[j]) != field_name(fields[2]));
                assert(named_column(b, field_name(fields[2])) == Some(made[2]));
            }
        }
        r
    }
}

} // verus!
