//! Admission from the memory budget: bytes admitted before they are
//! allocated, held as Grust reservation tokens, and the refusal a caller is
//! given when they do not fit.
use vstd::prelude::*;
use vstd::string::*;

use crate::error::NutmegError;
use crate::text::{decimal, decimal_of};
use crate::Part;

verus! {

#[verifier::external_type_specification]
#[verifier::external_body]
pub struct ExExecutionContext(grust_procedures::ExecutionContext);

#[verifier::external_type_specification]
#[verifier::external_body]
pub struct ExMemoryReservation(grust_procedures::MemoryReservation);

#[verifier::external_type_specification]
#[verifier::external_body]
pub struct ExProcedureError(grust_procedures::ProcedureError);

/// Which of Grust's failures a call met, as the logic tells them apart.
#[derive(Clone, Copy, Debug, PartialEq, Eq, Structural)]
pub enum RefusalKind {
    /// `BudgetExceeded`: whether the resource was memory, and its ceiling.
    Exceeded { memory: bool, limit: usize },
    /// `Cancelled`.
    Cancelled,
    /// Any other failure.
    Other,
}

/// A failure Grust reported: its kind, and its message as Grust words it.
#[derive(Clone, Debug)]
pub struct Refusal {
    pub kind: RefusalKind,
    pub message: String,
}

/// `grust_procedures::ProcedureError` as a [`Refusal`]: the variant, the
/// fields the logic reads, and the error's `Display` text.
#[verifier::external_body]
pub(crate) fn refusal_of(e: grust_procedures::ProcedureError) -> Refusal {
    let kind = match &e {
        grust_procedures::ProcedureError::BudgetExceeded { resource, limit } => {
            RefusalKind::Exceeded { memory: *resource == "memory", limit: *limit }
        },
        grust_procedures::ProcedureError::Cancelled => RefusalKind::Cancelled,
        _ => RefusalKind::Other,
    };
    Refusal { kind, message: e.to_string() }
}

/// `ExecutionContext::reserve`: admit `bytes` and return the token that
/// holds them. Whether it admits depends on what the execution holds now.
#[verifier::external_body]
fn reserve(ctx: &grust_procedures::ExecutionContext, bytes: usize) -> Result<
    grust_procedures::MemoryReservation,
    Refusal,
> {
    ctx.reserve(bytes).map_err(refusal_of)
}

/// `ExecutionContext::check_memory_available`: whether `bytes` more would
/// fit now, reserving nothing.
#[verifier::external_body]
fn check_memory(ctx: &grust_procedures::ExecutionContext, bytes: usize) -> Result<(), Refusal> {
    ctx.check_memory_available(bytes).map_err(refusal_of)
}

/// `ExecutionContext::limits().memory_bytes`: the execution's memory ceiling.
#[verifier::external_body]
pub(crate) fn memory_limit(ctx: &grust_procedures::ExecutionContext) -> usize {
    ctx.limits().memory_bytes
}

/// `ExecutionContext::usage()`: the bytes its live reservations hold, the
/// most they have held, and the work it counted where it counts work.
#[verifier::external_body]
pub(crate) fn usage_of(ctx: &grust_procedures::ExecutionContext) -> Result<
    (usize, usize, Option<usize>),
    Refusal,
> {
    ctx.usage().map(|u| (u.live_bytes, u.peak_bytes, u.counted_work())).map_err(refusal_of)
}

/// The bytes `ctx`'s live reservations hold; zero where Grust reports no
/// usage.
pub(crate) fn live_bytes(ctx: &grust_procedures::ExecutionContext) -> usize {
    match usage_of(ctx) {
        Ok(u) => u.0,
        Err(_) => 0,
    }
}

/// `MemoryReservation::shrink`: lower the token's charge to `bytes`,
/// returning the rest; refused when the token holds less.
#[verifier::external_body]
fn shrink_token(token: &grust_procedures::MemoryReservation, bytes: usize) -> Result<(), Refusal> {
    token.shrink(bytes).map_err(refusal_of)
}

/// `MemoryReservation`'s `Clone`: a second handle on the same charge.
#[verifier::external_body]
fn share_token(token: &grust_procedures::MemoryReservation) -> grust_procedures::MemoryReservation {
    token.clone()
}

/// The sum of the charges.
pub open spec fn total(s: Seq<usize>) -> nat
    decreases s.len(),
{
    if s.len() == 0 {
        0
    } else {
        total(s.drop_last()) + s.last() as nat
    }
}

pub proof fn lemma_total_push(s: Seq<usize>, x: usize)
    ensures
        total(s.push(x)) == total(s) + x,
{
    assert(s.push(x).drop_last() == s);
}

pub proof fn lemma_total_single(x: usize)
    ensures
        total(seq![x]) == x,
{
    assert(seq![x].drop_last() == Seq::<usize>::empty());
    assert(total(Seq::<usize>::empty()) == 0);
}

pub proof fn lemma_total_concat(a: Seq<usize>, b: Seq<usize>)
    ensures
        total(a + b) == total(a) + total(b),
    decreases b.len(),
{
    if b.len() == 0 {
        assert(a + b == a);
    } else {
        lemma_total_concat(a, b.drop_last());
        assert((a + b).drop_last() == a + b.drop_last());
    }
}

/// The message of a failure that is no refusal of memory.
pub open spec fn failure_text(message: Seq<char>) -> Seq<char> {
    "nutmeg: "@ + message
}

/// A Grust failure as the library reports it while running.
pub fn failure(r: &Refusal) -> (e: NutmegError)
    ensures
        e == NutmegError::Execution(e->Execution_0) && e.text() == failure_text(r.message@),
{
    let mut m = String::from_str("nutmeg: ");
    m.append(r.message.as_str());
    NutmegError::Execution(m)
}

/// Bytes admitted from the memory budget, held as Grust reservation tokens
/// and released when the last handle on a token drops. A part keeps the
/// admissions for its rows beside them, so dropping the rows' owner returns
/// their bytes. Each token's charge is kept beside it.
#[derive(Debug)]
pub struct Admitted {
    tokens: Vec<grust_procedures::MemoryReservation>,
    sizes: Vec<usize>,
    bytes: usize,
}

impl Admitted {
    /// The charge of each token, oldest first.
    pub closed spec fn view(&self) -> Seq<usize> {
        self.sizes@
    }

    /// Each token's charge is kept beside it, every charge is positive, and
    /// `bytes` is their sum.
    pub closed spec fn wf(&self) -> bool {
        &&& self.tokens@.len() == self.sizes@.len()
        &&& self.bytes as nat == total(self.sizes@)
        &&& forall|i: int| 0 <= i < self.sizes@.len() ==> self.sizes@[i] > 0
    }

    /// Nothing admitted.
    pub fn new() -> (r: Admitted)
        ensures
            r.wf(),
            r@ == Seq::<usize>::empty(),
    {
        Admitted { tokens: Vec::new(), sizes: Vec::new(), bytes: 0 }
    }

    /// The bytes held: the sum of the charges.
    pub fn bytes(&self) -> (r: usize)
        requires
            self.wf(),
        ensures
            r as nat == total(self@),
    {
        self.bytes
    }

    /// Keep `token`, which holds `bytes`, beside the others.
    fn keep(&mut self, token: grust_procedures::MemoryReservation, bytes: usize) -> (r: Result<
        (),
        NutmegError,
    >)
        requires
            old(self).wf(),
            bytes > 0,
        ensures
            final(self).wf(),
            r is Ok <==> total(old(self)@) + bytes <= usize::MAX,
            r is Ok ==> final(self)@ == old(self)@.push(bytes),
            r is Err ==> final(self)@ == old(self)@ && r == Err::<(), NutmegError>(
                NutmegError::Internal(r->Err_0->Internal_0),
            ),
    {
        proof {
            lemma_total_push(self.sizes@, bytes);
        }
        match self.bytes.checked_add(bytes) {
            Some(next) => {
                self.tokens.push(token);
                self.sizes.push(bytes);
                self.bytes = next;
                Ok(())
            },
            None => Err(NutmegError::Internal(String::from_str("nutmeg: admitted bytes overflow"))),
        }
    }

    /// Take over `other`'s tokens and their charges.
    pub fn absorb(&mut self, other: Admitted) -> (r: Result<(), NutmegError>)
        requires
            old(self).wf(),
            other.wf(),
        ensures
            final(self).wf(),
            r is Ok <==> total(old(self)@) + total(other@) <= usize::MAX,
            r is Ok ==> final(self)@ == old(self)@ + other@,
            r is Err ==> final(self)@ == old(self)@,
            r matches Err(e) ==> e is Internal,
    {
        proof {
            lemma_total_concat(self.sizes@, other.sizes@);
        }
        let Admitted { tokens, sizes, bytes } = other;
        match self.bytes.checked_add(bytes) {
            Some(next) => {
                let mut tokens = tokens;
                let mut sizes = sizes;
                self.tokens.append(&mut tokens);
                self.sizes.append(&mut sizes);
                self.bytes = next;
                Ok(())
            },
            None => Err(NutmegError::Internal(String::from_str("nutmeg: admitted bytes overflow"))),
        }
    }

    /// A second handle on every token: the same charges, released once, when
    /// no handle holds them.
    pub fn share(&self) -> (r: Admitted)
        requires
            self.wf(),
        ensures
            r.wf(),
            r@ == self@,
    {
        let mut tokens: Vec<grust_procedures::MemoryReservation> = Vec::new();
        let mut i: usize = 0;
        while i < self.tokens.len()
            invariant
                i <= self.tokens@.len(),
                tokens@.len() == i,
            decreases self.tokens@.len() - i,
        {
            tokens.push(share_token(&self.tokens[i]));
            i = i + 1;
        }
        Admitted { tokens, sizes: self.sizes.clone(), bytes: self.bytes }
    }

    /// Lower the charge to `bytes`, returning the rest to the budget now, for
    /// an admission of an upper bound whose real size is known. The latest
    /// tokens give up their bytes first; a token left with nothing is let go.
    pub fn shrink_to(&mut self, bytes: usize) -> (r: Result<(), NutmegError>)
        requires
            old(self).wf(),
        ensures
            final(self).wf(),
            total(final(self)@) <= total(old(self)@),
            total(final(self)@) >= bytes || total(final(self)@) == total(old(self)@),
            r is Ok ==> total(final(self)@) == if total(old(self)@) > bytes {
                bytes as nat
            } else {
                total(old(self)@)
            },
            r is Err ==> r == Err::<(), NutmegError>(NutmegError::Execution(r->Err_0->Execution_0)),
    {
        let mut excess: usize = if self.bytes > bytes {
            self.bytes - bytes
        } else {
            0
        };
        let ghost start = total(self.sizes@);
        while excess > 0 && self.sizes.len() > 0
            invariant
                self.tokens@.len() == self.sizes@.len(),
                self.bytes as nat == total(self.sizes@),
                forall|i: int| 0 <= i < self.sizes@.len() ==> self.sizes@[i] > 0,
                start == total(old(self)@),
                excess <= self.bytes,
                self.bytes <= start,
                start > bytes ==> self.bytes - excess == bytes,
                start <= bytes ==> excess == 0 && self.bytes == start,
            decreases self.sizes@.len() + if excess > 0 {
                1int
            } else {
                0int
            },
        {
            let last = self.sizes.len() - 1;
            let held = self.sizes[last];
            proof {
                lemma_total_push(self.sizes@.drop_last(), held);
                assert(self.sizes@.drop_last().push(held) == self.sizes@);
            }
            if held <= excess {
                let shrunk = shrink_token(&self.tokens[last], 0);
                if let Err(refused) = shrunk {
                    return Err(failure(&refused));
                }
                self.tokens.pop();
                self.sizes.pop();
                excess = excess - held;
                self.bytes = self.bytes - held;
            } else {
                let shrunk = shrink_token(&self.tokens[last], held - excess);
                if let Err(refused) = shrunk {
                    return Err(failure(&refused));
                }
                let ghost before = self.sizes@;
                self.sizes.set(last, held - excess);
                proof {
                    lemma_total_push(before.drop_last(), (held - excess) as usize);
                    assert(before.drop_last().push((held - excess) as usize) == self.sizes@);
                }
                self.bytes = self.bytes - excess;
                excess = 0;
            }
        }
        Ok(())
    }
}

/// The refusal of a read that its own memory limit refused.
pub open spec fn read_limit_text(graph: Seq<char>, what: Seq<char>, used: nat, own: nat) -> Seq<
    char,
> {
    "nutmeg: graph `"@ + graph + "`: reading it needs "@ + what + ", but "@ + decimal(used)
        + " of this read's "@ + decimal(own)
        + "-byte memory limit (`memoryLimitBytes`) are in use"@
}

/// What the refused work was doing.
pub open spec fn doing_text(part: Option<Part>) -> Seq<char> {
    match part {
        Some(Part::Nodes) => "staging its nodes"@,
        Some(Part::Edges) => "staging its edges"@,
        None => "reading it"@,
    }
}

/// What the refusal leaves behind, and what to do about it.
pub open spec fn outcome_text(part: Option<Part>) -> Seq<char> {
    match part {
        Some(_) => "the write was refused and the graph is as it was"@,
        None => "drop or restage a graph to release its rows and projections"@,
    }
}

/// The refusal of work that the process budget refused.
pub open spec fn budget_text(
    graph: Seq<char>,
    part: Option<Part>,
    what: Seq<char>,
    used: nat,
    limit: nat,
) -> Seq<char> {
    "nutmeg: graph `"@ + graph + "`: "@ + doing_text(part) + " needs "@ + what + ", but "@
        + decimal(used) + " of the "@ + decimal(limit)
        + "-byte memory budget are in use (NUTMEG_MEMORY_BYTES); "@ + outcome_text(part)
}

/// Which limit refused an admission that an execution with ceiling `limit`
/// refused: the read's own, when that is the one and it is below the
/// budget's, else the process budget.
pub open spec fn own_limit_refused(limit: usize, own: usize, pool_limit: usize) -> bool {
    limit == own && own < pool_limit
}

/// `e` is the refusal of an admission of `what` that an execution with
/// ceiling `limit` refused, where the read's own ceiling is `own`, the
/// budget's `pool_limit`, and the refusing side holds `used` bytes.
pub open spec fn refusal_matches(
    e: NutmegError,
    graph: Seq<char>,
    part: Option<Part>,
    what: Seq<char>,
    limit: usize,
    own: usize,
    pool_limit: usize,
    used: usize,
) -> bool {
    if own_limit_refused(limit, own, pool_limit) {
        e.text() == read_limit_text(graph, what, used as nat, own as nat)
    } else {
        e.text() == budget_text(graph, part, what, used as nat, pool_limit as nat)
    }
}

fn push_decimal(s: &mut String, n: usize)
    ensures
        final(s)@ == old(s)@ + decimal(n as nat),
{
    let d = decimal_of(n as u64);
    s.append(d.as_str());
}

/// The refusal of a read by its own memory limit (see [`read_limit_text`]).
pub fn read_limit_refusal(graph: &str, what: &str, used: usize, own: usize) -> (e: NutmegError)
    ensures
        e == NutmegError::ResourcesExhausted(e->ResourcesExhausted_0),
        e.text() == read_limit_text(graph@, what@, used as nat, own as nat),
{
    let mut m = String::from_str("nutmeg: graph `");
    m.append(graph);
    m.append("`: reading it needs ");
    m.append(what);
    m.append(", but ");
    push_decimal(&mut m, used);
    m.append(" of this read's ");
    push_decimal(&mut m, own);
    m.append("-byte memory limit (`memoryLimitBytes`) are in use");
    NutmegError::ResourcesExhausted(m)
}

/// The refusal of work by the process budget (see [`budget_text`]).
pub fn budget_refusal(graph: &str, part: Option<Part>, what: &str, used: usize, limit: usize) -> (e:
    NutmegError)
    ensures
        e == NutmegError::ResourcesExhausted(e->ResourcesExhausted_0),
        e.text() == budget_text(graph@, part, what@, used as nat, limit as nat),
{
    let mut m = String::from_str("nutmeg: graph `");
    m.append(graph);
    m.append("`: ");
    match part {
        Some(Part::Nodes) => m.append("staging its nodes"),
        Some(Part::Edges) => m.append("staging its edges"),
        None => m.append("reading it"),
    }
    m.append(" needs ");
    m.append(what);
    m.append(", but ");
    push_decimal(&mut m, used);
    m.append(" of the ");
    push_decimal(&mut m, limit);
    m.append("-byte memory budget are in use (NUTMEG_MEMORY_BYTES); ");
    match part {
        Some(_) => m.append("the write was refused and the graph is as it was"),
        None => m.append("drop or restage a graph to release its rows and projections"),
    }
    NutmegError::ResourcesExhausted(m)
}

/// Admission from the memory budget on behalf of one graph, so a refusal can
/// say which graph, what for, and how much. `part` is the part being staged,
/// or `None` for work a read does.
///
/// `charge` is the execution the bytes are admitted through: the pool for
/// what outlives a read, a read's own child of the pool for what the read
/// alone uses. Either way every byte counts against the pool.
pub struct Budget<'a> {
    pub pool: &'a grust_procedures::ExecutionContext,
    pub charge: &'a grust_procedures::ExecutionContext,
    pub graph: &'a str,
    pub part: Option<Part>,
}

/// The refusals an admission can end in.
pub open spec fn is_refusal(e: NutmegError) -> bool {
    ||| e is ResourcesExhausted
    ||| e is Execution
    ||| e is Internal
}

impl<'a> Budget<'a> {
    /// The refusal of an admission that the execution with memory ceiling
    /// `limit` refused: the read's own limit when that is the one, else the
    /// process budget, with what each holds now.
    pub fn refused(&self, what: &str, limit: usize) -> (e: NutmegError)
        ensures
            e is ResourcesExhausted,
            exists|own: usize, pool_limit: usize, used: usize|
                #[trigger] refusal_matches(e, self.graph@, self.part, what@, limit, own, pool_limit, used),
    {
        let own = memory_limit(self.charge);
        let pool_limit = memory_limit(self.pool);
        if limit == own && own < pool_limit {
            let used = live_bytes(self.charge);
            let e = read_limit_refusal(self.graph, what, used, own);
            assert(refusal_matches(e, self.graph@, self.part, what@, limit, own, pool_limit, used));
            e
        } else {
            let used = live_bytes(self.pool);
            let e = budget_refusal(self.graph, self.part, what, used, pool_limit);
            assert(refusal_matches(e, self.graph@, self.part, what@, limit, own, pool_limit, used));
            e
        }
    }

    /// The error a refusal from Grust becomes.
    fn refusal(&self, what: &str, r: &Refusal) -> (e: NutmegError)
        ensures
            e is ResourcesExhausted || e is Execution,
            (r.kind matches RefusalKind::Exceeded { .. }) ==> e is ResourcesExhausted,
            r.kind matches RefusalKind::Exceeded { limit, .. } ==> exists|own: usize, pool_limit: usize, used: usize|
                #[trigger] refusal_matches(e, self.graph@, self.part, what@, limit, own, pool_limit, used),
            !(r.kind matches RefusalKind::Exceeded { .. }) ==> e is Execution && e.text() == failure_text(r.message@),
    {
        match r.kind {
            RefusalKind::Exceeded { limit, .. } => self.refused(what, limit),
            _ => failure(r),
        }
    }

    /// Admit `bytes` into `into` before they are allocated; refused, with
    /// `what` describing the need, when the budget has no room. Nothing is
    /// admitted for zero bytes.
    pub fn grant(&self, into: &mut Admitted, bytes: usize, what: &str) -> (r: Result<
        (),
        NutmegError,
    >)
        requires
            old(into).wf(),
        ensures
            final(into).wf(),
            bytes == 0 ==> r is Ok && final(into)@ == old(into)@,
            bytes > 0 && r is Ok ==> final(into)@ == old(into)@.push(bytes),
            r is Err ==> final(into)@ == old(into)@ && is_refusal(r->Err_0),
            r matches Err(e) ==> (e is ResourcesExhausted ==> exists|
                limit: usize,
                own: usize,
                pool_limit: usize,
                used: usize,
            | #[trigger] refusal_matches(e, self.graph@, self.part, what@, limit, own, pool_limit, used)),
    {
        if bytes == 0 {
            return Ok(());
        }
        match reserve(self.charge, bytes) {
            Ok(token) => into.keep(token, bytes),
            Err(refused) => Err(self.refusal(what, &refused)),
        }
    }

    /// Refuse now, before copying, when `bytes` would not fit what is free.
    pub fn check(&self, bytes: usize, what: &str) -> (r: Result<(), NutmegError>)
        ensures
            r is Err ==> r->Err_0 is ResourcesExhausted || r->Err_0 is Execution,
            r matches Err(e) ==> (e is ResourcesExhausted ==> exists|
                limit: usize,
                own: usize,
                pool_limit: usize,
                used: usize,
            | #[trigger] refusal_matches(e, self.graph@, self.part, what@, limit, own, pool_limit, used)),
            r matches Err(e) ==> (e is Execution ==> exists|m: Seq<char>| e.text() == #[trigger] failure_text(m)),
    {
        match check_memory(self.charge, bytes) {
            Ok(()) => Ok(()),
            Err(refused) => Err(self.refusal(what, &refused)),
        }
    }
}

} // verus!
