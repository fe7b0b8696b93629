//! Reads: one read's execution, the log of table reads running and recently
//! ended, how a read is run, and how a `LIMIT` stops one.
use vstd::prelude::*;
use vstd::string::*;

use crate::budget::{refusal_of, Refusal, RefusalKind};
use crate::columns::{choice, choice_of, spells};
use crate::error::{join3, NutmegError};
use crate::text::string_of;

verus! {

/// One read's execution: a Grust child of the process's memory budget. Every
/// byte it admits counts against the one budget; its work counter, work
/// budget, cancellation and deadline are its own. Cloning shares the
/// execution, so a clone handed to another thread cancels the same read.
#[derive(Debug)]
pub struct Query {
    pub context: grust_procedures::ExecutionContext,
}

/// `ExecutionContext::cancel`.
#[verifier::external_body]
fn cancel_context(ctx: &grust_procedures::ExecutionContext) -> Result<(), Refusal> {
    ctx.cancel().map_err(refusal_of)
}

/// `ExecutionContext::checkpoint`: whether the execution may go on, or why
/// not.
#[verifier::external_body]
pub(crate) fn checkpoint(ctx: &grust_procedures::ExecutionContext) -> Result<(), Refusal> {
    ctx.checkpoint().map_err(refusal_of)
}

/// `ExecutionContext`'s `Clone`: a second handle on the same execution.
#[verifier::external_body]
fn share_context(ctx: &grust_procedures::ExecutionContext) -> grust_procedures::ExecutionContext {
    ctx.clone()
}

/// A read's own figures: its live and peak bytes and the work it charged.
#[derive(Clone, Copy, Debug, PartialEq, Eq, Structural)]
pub struct Usage {
    pub live_bytes: usize,
    pub peak_bytes: usize,
    pub work_units: usize,
}

impl Query {
    /// Stop the read. A kernel running for it stops at its next check and
    /// fails with `cancelled`; a read not yet run fails when it starts.
    pub fn cancel(&self) -> (r: Result<(), NutmegError>)
        ensures
            r is Err ==> r->Err_0 is Execution,
    {
        match cancel_context(&self.context) {
            Ok(()) => Ok(()),
            Err(refused) => Err(crate::budget::failure(&refused)),
        }
    }

    /// The read's own figures.
    pub fn usage(&self) -> (r: Result<Usage, NutmegError>)
        ensures
            r is Err ==> r->Err_0 is Execution,
    {
        Query::usage_from(crate::budget::usage_of(&self.context))
    }

    /// The figures an execution's usage report gives: its live bytes, its
    /// peak bytes and the work it counted, none where it counts no work; or
    /// the report's refusal, as a failure.
    pub fn usage_from(reported: Result<(usize, usize, Option<usize>), Refusal>) -> (r: Result<Usage, NutmegError>)
        ensures
            r is Err ==> r->Err_0 is Execution,
            reported matches Ok((live, peak, counted)) ==> r == Ok::<Usage, NutmegError>(
                Usage {
                    live_bytes: live,
                    peak_bytes: peak,
                    work_units: match counted {
                        Some(w) => w,
                        None => 0,
                    },
                },
            ),
            reported matches Err(refused) ==> (r matches Err(e) && e.text() == crate::budget::failure_text(
                refused.message@,
            )),
    {
        match reported {
            Ok((live_bytes, peak_bytes, counted)) => {
                // An execution that counts no work has charged none.
                let work_units = match counted {
                    Some(w) => w,
                    None => 0,
                };
                Ok(Usage { live_bytes, peak_bytes, work_units })
            },
            Err(refused) => Err(crate::budget::failure(&refused)),
        }
    }

    /// Whether the read, or the budget it belongs to, has been cancelled.
    pub fn is_cancelled(&self) -> bool {
        match checkpoint(&self.context) {
            Err(refused) => refused.kind == RefusalKind::Cancelled,
            Ok(()) => false,
        }
    }

    /// A second handle on the same read.
    pub fn share(&self) -> Query {
        Query { context: share_context(&self.context) }
    }
}

/// What a read is doing, or how it ended.
#[derive(Clone, Copy, Debug, PartialEq, Eq, Structural)]
pub enum ReadState {
    /// Its kernel is running, or its result is being read.
    Running,
    /// Its result was read to the end.
    Finished,
    /// It was cancelled, or its consumer stopped reading, and its kernel has
    /// stopped.
    Cancelled,
    /// It failed, for a reason of its own: a limit, a refusal, an error.
    Failed,
}

/// How a state is shown: `running`, `finished`, `cancelled` or `failed`.
pub open spec fn state_text(state: ReadState) -> Seq<char> {
    match state {
        ReadState::Running => "running"@,
        ReadState::Finished => "finished"@,
        ReadState::Cancelled => "cancelled"@,
        ReadState::Failed => "failed"@,
    }
}

impl ReadState {
    pub fn name(self) -> (r: &'static str)
        ensures
            r@ == state_text(self),
            self == ReadState::Running ==> r@ == "running"@,
            self == ReadState::Finished ==> r@ == "finished"@,
            self == ReadState::Cancelled ==> r@ == "cancelled"@,
            self == ReadState::Failed ==> r@ == "failed"@,
    {
        match self {
            ReadState::Running => "running",
            ReadState::Finished => "finished",
            ReadState::Cancelled => "cancelled",
            ReadState::Failed => "failed",
        }
    }
}

/// One table read, running or recently ended. A read leaves `Running` only
/// when its kernel has returned, so a read listed as ended has no kernel
/// running.
#[derive(Debug)]
pub struct ReadInfo {
    /// Numbered from 1 in the order reads started.
    pub id: u64,
    pub algorithm: String,
    pub graph: String,
    pub state: ReadState,
    /// Why it ended, if not by finishing.
    pub message: Option<String>,
    /// Batches and rows the read has handed on so far.
    pub batches: usize,
    pub rows: usize,
    /// The read's own admitted bytes: what it holds now, and the most it has
    /// held at once.
    pub live_bytes: usize,
    pub peak_bytes: usize,
    /// Grust work units the read has charged.
    pub work_units: usize,
}

/// What the contracts see of a read.
pub ghost struct ReadView {
    pub id: u64,
    pub algorithm: Seq<char>,
    pub graph: Seq<char>,
    pub state: ReadState,
    pub message: Option<Seq<char>>,
    pub batches: usize,
    pub rows: usize,
}

impl ReadInfo {
    pub open spec fn view(&self) -> ReadView {
        ReadView {
            id: self.id,
            algorithm: self.algorithm@,
            graph: self.graph@,
            state: self.state,
            message: match self.message {
                Some(m) => Some(m@),
                None => None,
            },
            batches: self.batches,
            rows: self.rows,
        }
    }

    /// A copy.
    pub fn duplicate(&self) -> (r: ReadInfo)
        ensures
            r@ == self@,
            r.live_bytes == self.live_bytes,
            r.peak_bytes == self.peak_bytes,
            r.work_units == self.work_units,
    {
        ReadInfo {
            id: self.id,
            algorithm: self.algorithm.clone(),
            graph: self.graph.clone(),
            state: self.state,
            message: match &self.message {
                Some(m) => Some(m.clone()),
                None => None,
            },
            batches: self.batches,
            rows: self.rows,
            live_bytes: self.live_bytes,
            peak_bytes: self.peak_bytes,
            work_units: self.work_units,
        }
    }

    /// `self` with the read's figures as they are now, where it reports them.
    fn with_usage(self, query: &Query) -> (r: ReadInfo)
        ensures
            r@ == self@,
    {
        self.with_figures(query.usage())
    }

    /// `self` with the figures `usage` reports: its live bytes, its peak
    /// bytes and its work, each as reported; where there is no report, the
    /// figures `self` had.
    pub fn with_figures(self, usage: Result<Usage, NutmegError>) -> (r: ReadInfo)
        ensures
            r@ == self@,
            usage matches Ok(u) ==> r.live_bytes == u.live_bytes && r.peak_bytes == u.peak_bytes
                && r.work_units == u.work_units,
            usage is Err ==> r.live_bytes == self.live_bytes && r.peak_bytes == self.peak_bytes
                && r.work_units == self.work_units,
    {
        let mut info = self;
        if let Ok(u) = usage {
            info.live_bytes = u.live_bytes;
            info.peak_bytes = u.peak_bytes;
            info.work_units = u.work_units;
        }
        info
    }
}

/// Ended reads kept for the listing, newest last.
pub const ENDED_READS_KEPT: usize = 256;

/// Table reads: those running, by id, each with its execution, and the most
/// recently ended, oldest first.
pub struct ReadLog {
    started: u64,
    running: Vec<(ReadInfo, Query)>,
    ended: Vec<ReadInfo>,
}

/// What the contracts see of the log: how many reads started, those running
/// and those kept after they ended.
pub ghost struct LogView {
    pub started: u64,
    pub running: Seq<ReadView>,
    pub ended: Seq<ReadView>,
}

/// The position of the running read numbered `id`.
pub open spec fn running_index(running: Seq<ReadView>, id: u64) -> Option<int> {
    if exists|i: int| 0 <= i < running.len() && running[i].id == id {
        Some(choose|i: int| 0 <= i < running.len() && running[i].id == id)
    } else {
        None
    }
}

impl ReadLog {
    pub closed spec fn view(&self) -> LogView {
        LogView {
            started: self.started,
            running: self.running@.map_values(|r: (ReadInfo, Query)| r.0@),
            ended: self.ended@.map_values(|r: ReadInfo| r@),
        }
    }

    /// Running reads are in the order they started, each numbered at most
    /// the count of reads started, and at most [`ENDED_READS_KEPT`] ended
    /// reads are kept.
    pub closed spec fn wf(&self) -> bool {
        let v = self@;
        &&& forall|i: int, j: int| 0 <= i < j < v.running.len() ==> v.running[i].id < v.running[j].id
        &&& forall|i: int| 0 <= i < v.running.len() ==> 1 <= #[trigger] v.running[i].id <= v.started
        &&& v.ended.len() <= ENDED_READS_KEPT
    }

    /// Every running read is numbered at most the count of reads started.
    pub proof fn lemma_running_ids(&self)
        requires
            self.wf(),
        ensures
            forall|i: int| 0 <= i < self@.running.len() ==> #[trigger] self@.running[i].id <= self@.started,
    {
    }

    /// No reads.
    pub fn new() -> (r: ReadLog)
        ensures
            r.wf(),
            r@.started == 0,
            r@.running == Seq::<ReadView>::empty(),
            r@.ended == Seq::<ReadView>::empty(),
    {
        let r = ReadLog { started: 0, running: Vec::new(), ended: Vec::new() };
        assert(r@.running =~= Seq::<ReadView>::empty());
        assert(r@.ended =~= Seq::<ReadView>::empty());
        r
    }

    /// Log the start of a read of `algorithm` on `graph`, numbered one past
    /// the last read started; it is listed as running, with nothing handed
    /// on yet.
    pub fn start(&mut self, algorithm: &str, graph: &str, query: &Query) -> (r: Result<
        u64,
        NutmegError,
    >)
        requires
            old(self).wf(),
        ensures
            final(self).wf(),
            r is Ok <==> old(self)@.started < u64::MAX,
            r matches Err(e) ==> e is Internal,
            r is Err ==> final(self)@ == old(self)@,
            r matches Ok(id) ==> {
                &&& id == old(self)@.started + 1
                &&& final(self)@.started == id
                &&& final(self)@.ended == old(self)@.ended
                &&& final(self)@.running == old(self)@.running.push(
                    ReadView {
                        id,
                        algorithm: algorithm@,
                        graph: graph@,
                        state: ReadState::Running,
                        message: None,
                        batches: 0,
                        rows: 0,
                    },
                )
            },
    {
        if self.started == u64::MAX {
            return Err(NutmegError::Internal(String::from_str("nutmeg: read numbers overflow")));
        }
        self.started = self.started + 1;
        let id = self.started;
        let info = ReadInfo {
            id,
            algorithm: String::from_str(algorithm),
            graph: String::from_str(graph),
            state: ReadState::Running,
            message: None,
            batches: 0,
            rows: 0,
            live_bytes: 0,
            peak_bytes: 0,
            work_units: 0,
        };
        let ghost before = old(self)@.running;
        self.running.push((info, query.share()));
        assert(self@.running =~= before.push(self.running@.last().0@));
        Ok(id)
    }

    /// The position of the running read numbered `id`.
    fn find(&self, id: u64) -> (r: Option<usize>)
        requires
            self.wf(),
        ensures
            match r {
                Some(i) => i < self@.running.len() && self@.running[i as int].id == id,
                None => forall|i: int| 0 <= i < self@.running.len() ==> self@.running[i].id != id,
            },
    {
        let mut i: usize = 0;
        while i < self.running.len()
            invariant
                i <= self.running@.len(),
                forall|j: int| 0 <= j < i ==> self@.running[j].id != id,
            decreases self.running@.len() - i,
        {
            assert(self@.running[i as int].id == self.running@[i as int].0.id);
            if self.running[i].0.id == id {
                return Some(i);
            }
            i = i + 1;
        }
        None
    }

    /// Count one more batch of `rows` rows handed on by the running read
    /// numbered `id`; nothing for a read not running.
    pub fn batch(&mut self, id: u64, rows: usize)
        requires
            old(self).wf(),
        ensures
            final(self).wf(),
            final(self)@.started == old(self)@.started,
            final(self)@.ended == old(self)@.ended,
            final(self)@.running.len() == old(self)@.running.len(),
            forall|i: int|
                0 <= i < old(self)@.running.len() ==> {
                    let (a, b) = (old(self)@.running[i], #[trigger] final(self)@.running[i]);
                    if a.id == id {
                        b == ReadView {
                            batches: crate::sizes::sadd(a.batches, 1),
                            rows: crate::sizes::sadd(a.rows, rows),
                            ..a
                        }
                    } else {
                        b == a
                    }
                },
    {
        match self.find(id) {
            Some(i) => {
                let (mut info, query) = self.running.remove(i);
                info.batches = info.batches.saturating_add(1);
                info.rows = info.rows.saturating_add(rows);
                let ghost before = old(self)@.running;
                self.running.insert(i, (info, query));
                proof {
                    assert forall|j: int| 0 <= j < before.len() implies (#[trigger] self@.running[j])
                        == (if j == i {
                        ReadView {
                            batches: crate::sizes::sadd(before[j].batches, 1),
                            rows: crate::sizes::sadd(before[j].rows, rows),
                            ..before[j]
                        }
                    } else {
                        before[j]
                    }) by {
                        if j != i {
                            assert(self.running@[j] == old(self).running@[j]);
                        }
                    }
                    assert forall|j: int| 0 <= j < before.len() && before[j].id == id implies j
                        == i by {
                        if j < i {
                            assert(before[j].id < before[i as int].id);
                        } else if j > i {
                            assert(before[i as int].id < before[j].id);
                        }
                    }
                }
            },
            None => {},
        }
    }

    /// End the running read numbered `id` in `state`: it leaves the running
    /// reads and becomes the newest ended one, the oldest ended reads being
    /// let go beyond [`ENDED_READS_KEPT`]. Nothing for a read not running.
    pub fn end_id(&mut self, id: u64, state: ReadState, message: Option<String>)
        requires
            old(self).wf(),
        ensures
            final(self).wf(),
            final(self)@.started == old(self)@.started,
            match running_index(old(self)@.running, id) {
                None => final(self)@ == old(self)@,
                Some(i) => {
                    let ended = old(self)@.ended.push(
                        ReadView {
                            state,
                            message: match message {
                                Some(m) => Some(m@),
                                None => None,
                            },
                            ..old(self)@.running[i]
                        },
                    );
                    &&& final(self)@.running == old(self)@.running.remove(i)
                    &&& final(self)@.ended == if ended.len() > ENDED_READS_KEPT {
                        ended.subrange(ended.len() - ENDED_READS_KEPT, ended.len() as int)
                    } else {
                        ended
                    }
                },
            },
    {
        match self.find(id) {
            Some(i) => {
                proof {
                    let v = old(self)@.running;
                    assert forall|j: int| 0 <= j < v.len() && v[j].id == id implies j == i by {
                        if j < i {
                            assert(v[j].id < v[i as int].id);
                        } else if j > i {
                            assert(v[i as int].id < v[j].id);
                        }
                    }
                    assert(running_index(v, id) == Some(i as int));
                }
                let (info, query) = self.running.remove(i);
                let mut info = info.with_usage(&query);
                info.state = state;
                info.message = message;
                let ghost ended = self@.ended.push(info@);
                self.ended.push(info);
                if self.ended.len() > ENDED_READS_KEPT {
                    self.ended.remove(0);
                    assert(self@.ended =~= ended.subrange(1, ended.len() as int));
                } else {
                    assert(self@.ended =~= ended);
                }
                proof {
                    let before = old(self)@.running;
                    assert(self@.running =~= before.remove(i as int));
                    assert forall|a: int, b: int|
                        0 <= a < b < self@.running.len() implies self@.running[a].id
                        < self@.running[b].id by {
                        let x = if a < i {
                            a
                        } else {
                            a + 1
                        };
                        let y = if b < i {
                            b
                        } else {
                            b + 1
                        };
                        assert(self@.running[a] == before[x]);
                        assert(self@.running[b] == before[y]);
                    }
                    assert forall|a: int| 0 <= a < self@.running.len() implies 1 <= #[trigger] self@.running[a].id
                        <= self@.started by {
                        let x = if a < i {
                            a
                        } else {
                            a + 1
                        };
                        assert(self@.running[a] == before[x]);
                    }
                }
            },
            None => {
                proof {
                    assert(running_index(old(self)@.running, id) is None);
                }
            },
        }
    }

    /// Table reads: the most recently ended ones, oldest first, each with the
    /// usage it ended with, then those running now, in the order they
    /// started, with their live usage.
    pub fn reads(&self) -> (r: Vec<ReadInfo>)
        requires
            self.wf(),
        ensures
            r@.map_values(|x: ReadInfo| x@) == self@.ended + self@.running,
    {
        let mut out: Vec<ReadInfo> = Vec::new();
        let mut i: usize = 0;
        while i < self.ended.len()
            invariant
                i <= self.ended@.len(),
                out@.map_values(|x: ReadInfo| x@) == self@.ended.subrange(0, i as int),
            decreases self.ended@.len() - i,
        {
            let ghost before = out@;
            out.push(self.ended[i].duplicate());
            assert(out@.map_values(|x: ReadInfo| x@) =~= before.map_values(|x: ReadInfo| x@).push(
                self@.ended[i as int],
            ));
            assert(self@.ended.subrange(0, i + 1) =~= self@.ended.subrange(0, i as int).push(
                self@.ended[i as int],
            ));
            i = i + 1;
        }
        let mut k: usize = 0;
        assert(self@.ended.subrange(0, self@.ended.len() as int) == self@.ended);
        while k < self.running.len()
            invariant
                k <= self.running@.len(),
                out@.map_values(|x: ReadInfo| x@) == self@.ended + self@.running.subrange(0, k as int),
            decreases self.running@.len() - k,
        {
            let ghost before = out@;
            let info = self.running[k].0.duplicate().with_usage(&self.running[k].1);
            out.push(info);
            assert(out@.map_values(|x: ReadInfo| x@) =~= before.map_values(|x: ReadInfo| x@).push(
                self@.running[k as int],
            ));
            assert(self@.running.subrange(0, k + 1) =~= self@.running.subrange(0, k as int).push(
                self@.running[k as int],
            ));
            k = k + 1;
        }
        assert(self@.running.subrange(0, self@.running.len() as int) == self@.running);
        out
    }
}

/// What ending the running read `id` in `state` does to the log: it leaves
/// the running reads and becomes the newest ended one, the oldest let go
/// beyond [`ENDED_READS_KEPT`]; a read not running leaves the log as it was.
pub open spec fn ended_as(
    before: LogView,
    after: LogView,
    id: u64,
    state: ReadState,
    message: Option<String>,
) -> bool {
    ended_with(
        before,
        after,
        id,
        state,
        match message {
            Some(m) => Some(m@),
            None => None,
        },
    )
}

/// `after` is `before` with the running read `id` ended in `state` with
/// `message`, moved to the ended reads (the oldest dropped beyond
/// [`ENDED_READS_KEPT`]); `before` unchanged where no read `id` runs.
pub open spec fn ended_with(
    before: LogView,
    after: LogView,
    id: u64,
    state: ReadState,
    message: Option<Seq<char>>,
) -> bool {
    match running_index(before.running, id) {
        None => after == before,
        Some(i) => {
            let ended = before.ended.push(ReadView { state, message, ..before.running[i] });
            &&& after.started == before.started
            &&& after.running == before.running.remove(i)
            &&& after.ended == if ended.len() > ENDED_READS_KEPT {
                ended.subrange(ended.len() - ENDED_READS_KEPT, ended.len() as int)
            } else {
                ended
            }
        },
    }
}

/// A read's entry in the log while it runs.
pub struct ReadRecord {
    pub id: u64,
}

impl ReadRecord {
    /// Log the start of a read (see [`ReadLog::start`]).
    pub fn start(log: &mut ReadLog, algorithm: &str, graph: &str, query: &Query) -> (r: Result<
        ReadRecord,
        NutmegError,
    >)
        requires
            old(log).wf(),
        ensures
            final(log).wf(),
            r is Ok <==> old(log)@.started < u64::MAX,
            r matches Err(e) ==> e is Internal,
            r is Err ==> final(log)@ == old(log)@,
            r matches Ok(rec) ==> rec.id == final(log)@.started,
            r matches Ok(rec) ==> {
                &&& rec.id == old(log)@.started + 1
                &&& final(log)@.ended == old(log)@.ended
                &&& final(log)@.running == old(log)@.running.push(
                    ReadView {
                        id: rec.id,
                        algorithm: algorithm@,
                        graph: graph@,
                        state: ReadState::Running,
                        message: None,
                        batches: 0,
                        rows: 0,
                    },
                )
            },
    {
        match log.start(algorithm, graph, query) {
            Ok(id) => Ok(ReadRecord { id }),
            Err(e) => Err(e),
        }
    }

    /// Count one batch of `rows` rows handed on (see [`ReadLog::batch`]):
    /// the read's batches go up by one and its rows by `rows`, each held at
    /// `usize::MAX`; nothing else changes.
    pub fn batch(&self, log: &mut ReadLog, rows: usize)
        requires
            old(log).wf(),
        ensures
            final(log).wf(),
            final(log)@.started == old(log)@.started,
            final(log)@.ended == old(log)@.ended,
            final(log)@.running.len() == old(log)@.running.len(),
            forall|i: int|
                0 <= i < old(log)@.running.len() ==> {
                    let (a, b) = (old(log)@.running[i], #[trigger] final(log)@.running[i]);
                    if a.id == self.id {
                        b == ReadView {
                            batches: crate::sizes::sadd(a.batches, 1),
                            rows: crate::sizes::sadd(a.rows, rows),
                            ..a
                        }
                    } else {
                        b == a
                    }
                },
    {
        log.batch(self.id, rows);
    }

    /// End the read in `state` (see [`ReadRecord::end_id`]).
    pub fn end(self, log: &mut ReadLog, state: ReadState, message: Option<String>)
        requires
            old(log).wf(),
        ensures
            final(log).wf(),
            final(log)@.started == old(log)@.started,
            ended_as(old(log)@, final(log)@, self.id, state, message),
    {
        ReadRecord::end_id(log, self.id, state, message);
    }

    /// End the read numbered `id` in `state` (see [`ReadLog::end_id`]).
    pub fn end_id(log: &mut ReadLog, id: u64, state: ReadState, message: Option<String>)
        requires
            old(log).wf(),
        ensures
            final(log).wf(),
            final(log)@.started == old(log)@.started,
            ended_as(old(log)@, final(log)@, id, state, message),
    {
        log.end_id(id, state, message);
    }
}

/// How a finished scan ended, as the log records it: read to its end, or
/// stopped by its consumer, or failed — cancelled where the read was.
pub enum Outcome {
    Finished,
    Stopped,
    Failed { message: String, cancelled: bool },
}

/// The state a failed read ends in: cancelled where its read was, else
/// failed.
pub open spec fn failed_state(cancelled: bool) -> ReadState {
    if cancelled {
        ReadState::Cancelled
    } else {
        ReadState::Failed
    }
}

/// The state and message an outcome is logged with.
pub open spec fn outcome_view(outcome: Outcome) -> (ReadState, Option<Seq<char>>) {
    match outcome {
        Outcome::Finished => (ReadState::Finished, None),
        Outcome::Stopped => (ReadState::Cancelled, Some("its consumer stopped reading"@)),
        Outcome::Failed { message, cancelled } => (failed_state(cancelled), Some(message@)),
    }
}

/// The state and message an outcome is logged with.
pub fn outcome_state(outcome: Outcome) -> (r: (ReadState, Option<String>))
    ensures
        outcome matches Outcome::Finished ==> r.0 == ReadState::Finished && r.1 is None,
        outcome matches Outcome::Stopped ==> (r.1 matches Some(m) && m@
            == "its consumer stopped reading"@ && r.0 == ReadState::Cancelled),
        outcome matches Outcome::Failed { message, cancelled } ==> (r.1 matches Some(m) && m@
            == message@ && r.0 == (if cancelled {
            ReadState::Cancelled
        } else {
            ReadState::Failed
        })),
{
    match outcome {
        Outcome::Finished => (ReadState::Finished, None),
        Outcome::Stopped => (
            ReadState::Cancelled,
            Some(String::from_str("its consumer stopped reading")),
        ),
        Outcome::Failed { message, cancelled } => (
            if cancelled {
                ReadState::Cancelled
            } else {
                ReadState::Failed
            },
            Some(message),
        ),
    }
}

/// Where a read's kernel runs. `Streaming` (the default) runs it when the
/// plan's stream is first polled, on a thread of its own; `Materialized` runs
/// it while the query is planned and plans the collected result.
#[derive(Clone, Copy, Debug, PartialEq, Eq, Structural)]
pub enum ReadExecution {
    Streaming,
    Materialized,
}

impl Default for ReadExecution {
    fn default() -> (r: Self)
        ensures
            r == ReadExecution::Streaming,
    {
        ReadExecution::Streaming
    }
}

/// The environment variable that selects [`ReadExecution`] when a session
/// does not.
pub const READS_VARIABLE: &'static str = "NUTMEG_READS";

impl ReadExecution {
    /// `streaming`, or `materialized` (also spelled `materialised`), in any
    /// case, trimmed.
    pub fn parse(text: &str) -> (r: Result<ReadExecution, NutmegError>)
        ensures
            choice(text@) == "streaming"@ ==> r == Ok::<ReadExecution, NutmegError>(
                ReadExecution::Streaming,
            ),
            (choice(text@) == "materialized"@ || choice(text@) == "materialised"@) ==> r == Ok::<
                ReadExecution,
                NutmegError,
            >(ReadExecution::Materialized),
            choice(text@) != "streaming"@ && choice(text@) != "materialized"@ && choice(text@)
                != "materialised"@ ==> (r matches Err(NutmegError::Plan(m)) && m@
                == "nutmeg: NUTMEG_READS is `streaming` or `materialized`, got `"@ + choice(text@)
                + "`"@),
    {
        let c = choice_of(text);
        proof {
            reveal_strlit("streaming");
            reveal_strlit("materialized");
            reveal_strlit("materialised");
            assert("streaming"@.len() == 9);
            assert("materialized"@.len() == 12);
            assert("materialised"@.len() == 12);
        }
        if spells(c.as_slice(), "streaming") {
            Ok(ReadExecution::Streaming)
        } else if spells(c.as_slice(), "materialized") || spells(c.as_slice(), "materialised") {
            Ok(ReadExecution::Materialized)
        } else {
            let got = string_of(c.as_slice());
            Err(
                NutmegError::Plan(
                    join3(
                        "nutmeg: NUTMEG_READS is `streaming` or `materialized`, got `",
                        got.as_str(),
                        "`",
                    ),
                ),
            )
        }
    }
}

/// Batches a running read may have produced and not yet handed on.
pub const READ_CHANNEL_BATCHES: usize = 2;

/// A scan's `LIMIT`, as it stops a streaming read: the rows handed on so far,
/// and whether the read has ended.
pub struct ReadLimit {
    pub limit: Option<usize>,
    pub rows: usize,
    pub ended: bool,
}

impl ReadLimit {
    /// A scan not yet started.
    pub fn new(limit: Option<usize>) -> (r: ReadLimit)
        ensures
            r.limit == limit,
            r.rows == 0,
            !r.ended,
    {
        ReadLimit { limit, rows: 0, ended: false }
    }

    /// Whether the read is to be started at all: a limit of zero ends the
    /// scan before any kernel runs.
    pub fn starts(&mut self) -> (r: bool)
        requires
            !old(self).ended,
        ensures
            r == (old(self).limit != Some(0usize)),
            final(self).ended == !r,
            final(self).limit == old(self).limit,
            final(self).rows == old(self).rows,
    {
        if self.limit == Some(0) {
            self.ended = true;
            false
        } else {
            true
        }
    }

    /// How many rows of the next batch, of `rows` rows, are handed on: all
    /// of them while the limit is not reached, else those up to the limit, at
    /// which the read ends. The rows handed on never exceed the limit.
    pub fn take(&mut self, rows: usize) -> (r: usize)
        requires
            !old(self).ended,
            old(self).limit matches Some(l) ==> old(self).rows < l,
        ensures
            r <= rows,
            final(self).limit == old(self).limit,
            old(self).limit is None ==> r == rows && !final(self).ended && final(self).rows
                == old(self).rows,
            old(self).limit matches Some(l) ==> {
                &&& final(self).rows == old(self).rows + r
                &&& final(self).rows <= l
                &&& (rows < l - old(self).rows ==> r == rows && !final(self).ended)
                &&& (rows >= l - old(self).rows ==> r == l - old(self).rows && final(self).ended)
            },
            !final(self).ended ==> (final(self).limit matches Some(l) ==> final(self).rows < l),
    {
        match self.limit {
            None => rows,
            Some(limit) => {
                let left = limit - self.rows;
                if rows < left {
                    self.rows = self.rows + rows;
                    rows
                } else {
                    self.rows = limit;
                    self.ended = true;
                    left
                }
            },
        }
    }
}

} // verus!
