//! A read's own limits, taken out of its options before Grust validates the
//! rest.
use vstd::prelude::*;

use crate::error::{join3, NutmegError};
use crate::options::{parse_u64, parse_u64_spec, take_spec, JsonKind, JsonView, Options};
use crate::text::{chars_of, trim, trim_chars};

verus! {

/// The read option (and SQL configuration key) that sets a read's deadline,
/// in milliseconds from when it starts running. See [`QueryLimits`].
pub const TIMEOUT_OPTION: &'static str = "timeoutMs";

/// The read option that sets a read's work budget, in Grust work units.
pub const WORK_LIMIT_OPTION: &'static str = "workLimit";

/// The read option that sets a memory ceiling of a read's own, in bytes,
/// within the process budget.
pub const QUERY_MEMORY_OPTION: &'static str = "memoryLimitBytes";

/// The read option that says how many threads a read's kernel may use.
pub const CONCURRENCY_OPTION: &'static str = "concurrency";

/// The options [`QueryLimits::take`] removes, which no kernel may declare.
pub fn query_options() -> (r: [&'static str; 4])
    ensures
        r[0]@ == "timeoutMs"@,
        r[1]@ == "workLimit"@,
        r[2]@ == "memoryLimitBytes"@,
        r[3]@ == "concurrency"@,
{
    ["timeoutMs", "workLimit", "memoryLimitBytes", "concurrency"]
}

/// Limits of one read's own, on top of the process budget.
///
/// None is set by default: a read runs until it finishes, fails, or is
/// cancelled, bounded only by the process budget, and its kernel runs
/// single-threaded. Each limit stops that read alone.
#[derive(Clone, Copy, Debug, PartialEq, Eq, Structural)]
pub struct QueryLimits {
    /// Milliseconds from the start of the read's run to its deadline.
    pub timeout_ms: Option<u64>,
    /// Grust work units the read may charge, counted on its own counter.
    pub work_units: Option<usize>,
    /// Bytes the read may hold at once, in addition to (never above) the
    /// process budget.
    pub memory_bytes: Option<usize>,
    /// Threads the read's kernel may use; `None` runs the single-threaded code.
    pub concurrency: Option<usize>,
}

impl Default for QueryLimits {
    fn default() -> (r: Self)
        ensures
            r == (QueryLimits {
                timeout_ms: None,
                work_units: None,
                memory_bytes: None,
                concurrency: None,
            }),
    {
        QueryLimits { timeout_ms: None, work_units: None, memory_bytes: None, concurrency: None }
    }
}

/// The count a limit's value gives: a non-negative integer, as a JSON number
/// or as its text (trimmed), that fits a `usize`.
pub open spec fn limit_count(k: JsonView) -> Option<usize> {
    let n: Option<u64> = match k {
        JsonView::Number(n) => n,
        JsonView::Text(t) => parse_u64_spec(trim(t)),
        _ => None,
    };
    match n {
        Some(v) => if v <= usize::MAX {
            Some(v as usize)
        } else {
            None
        },
        None => None,
    }
}

/// Taking one limit out: `Err(())` when its value is no count.
pub open spec fn take_limit(entries: Seq<(Seq<char>, JsonView)>, name: Seq<char>) -> (
    Result<Option<usize>, ()>,
    Seq<(Seq<char>, JsonView)>,
) {
    let (v, rest) = take_spec(entries, name);
    match v {
        None => (Ok(None), rest),
        Some(k) => match limit_count(k) {
            Some(n) => (Ok(Some(n)), rest),
            None => (Err(()), rest),
        },
    }
}

/// What [`QueryLimits::take`] does to a configuration: the limits, or the
/// index (in [`query_options`] order) of the option whose value is refused,
/// with 4 standing for a concurrency of zero; and the entries left.
pub open spec fn take_limits(e0: Seq<(Seq<char>, JsonView)>) -> (
    Result<QueryLimits, int>,
    Seq<(Seq<char>, JsonView)>,
) {
    let (t, e1) = take_limit(e0, "timeoutMs"@);
    match t {
        Err(_) => (Err(0), e1),
        Ok(timeout) => {
            let (w, e2) = take_limit(e1, "workLimit"@);
            match w {
                Err(_) => (Err(1), e2),
                Ok(work) => {
                    let (m, e3) = take_limit(e2, "memoryLimitBytes"@);
                    match m {
                        Err(_) => (Err(2), e3),
                        Ok(memory) => {
                            let (c, e4) = take_limit(e3, "concurrency"@);
                            match c {
                                Err(_) => (Err(3), e4),
                                Ok(concurrency) => if concurrency == Some(0usize) {
                                    (Err(4), e4)
                                } else {
                                    (
                                        Ok(
                                            QueryLimits {
                                                timeout_ms: match timeout {
                                                    Some(v) => Some(v as u64),
                                                    None => None,
                                                },
                                                work_units: work,
                                                memory_bytes: memory,
                                                concurrency,
                                            },
                                        ),
                                        e4,
                                    )
                                },
                            }
                        },
                    }
                },
            }
        },
    }
}

/// The message for a refused limit value: the option's name, then the value.
pub open spec fn refused_limit(name: Seq<char>, m: Seq<char>) -> bool {
    exists|shown: Seq<char>|
        m == "nutmeg: `"@ + name + "` must be a non-negative integer, got "@ + shown
}

/// Take one limit out (see [`take_limit`]).
fn take_one(options: &mut Options, name: &str) -> (r: Result<Option<usize>, NutmegError>)
    ensures
        final(options)@ == take_limit(old(options)@, name@).1,
        match take_limit(old(options)@, name@).0 {
            Ok(n) => r == Ok::<Option<usize>, NutmegError>(n),
            Err(_) => r matches Err(NutmegError::Plan(m)) && refused_limit(name@, m@),
        },
{
    match options.take(name) {
        None => Ok(None),
        Some(v) => {
            let parsed: Option<u64> = match &v.kind {
                JsonKind::Number(n) => *n,
                JsonKind::Text(t) => {
                    let c = chars_of(t.as_str());
                    let tr = trim_chars(c.as_slice());
                    parse_u64(tr.as_slice())
                },
                _ => None,
            };
            match parsed {
                Some(n) if n as u128 <= usize::MAX as u128 => Ok(Some(n as usize)),
                _ => {
                    let shown = crate::options::json_rendering(&v.json);
                    let head = join3("nutmeg: `", name, "` must be a non-negative integer, got ");
                    let m = crate::error::join2(head.as_str(), shown.as_str());
                    assert(refused_limit(name@, m@));
                    Err(NutmegError::Plan(m))
                },
            }
        },
    }
}

impl QueryLimits {
    /// Remove the limits from a configuration, leaving Grust's options: keys
    /// match `timeoutMs`, `workLimit`, `memoryLimitBytes` and `concurrency` in
    /// any case, and values are non-negative integers, as numbers or as their
    /// text. A concurrency of zero is refused: a read runs on at least one
    /// thread.
    pub fn take(options: &mut Options) -> (r: Result<QueryLimits, NutmegError>)
        ensures
            final(options)@ == take_limits(old(options)@).1,
            match take_limits(old(options)@).0 {
                Ok(l) => r == Ok::<QueryLimits, NutmegError>(l),
                Err(k) => r matches Err(NutmegError::Plan(m)) && (if k == 4 {
                    m@ == "nutmeg: `concurrency` must be a positive integer, got 0"@
                } else {
                    refused_limit(query_option(k), m@)
                }),
            },
    {
        let timeout = take_one(options, "timeoutMs")?;
        let work_units = take_one(options, "workLimit")?;
        let memory_bytes = take_one(options, "memoryLimitBytes")?;
        let concurrency = take_one(options, "concurrency")?;
        if concurrency == Some(0usize) {
            let m = crate::text::string_of(&[]);
            let m = crate::error::join2(
                "nutmeg: `concurrency` must be a positive integer, got 0",
                m.as_str(),
            );
            assert(m@ == "nutmeg: `concurrency` must be a positive integer, got 0"@);
            return Err(NutmegError::Plan(m));
        }
        let timeout_ms = match timeout {
            Some(v) => Some(v as u64),
            None => None,
        };
        Ok(QueryLimits { timeout_ms, work_units, memory_bytes, concurrency })
    }
}

/// The name of the `k`-th option of [`query_options`].
pub open spec fn query_option(k: int) -> Seq<char> {
    if k == 0 {
        "timeoutMs"@
    } else if k == 1 {
        "workLimit"@
    } else if k == 2 {
        "memoryLimitBytes"@
    } else {
        "concurrency"@
    }
}

} // verus!
