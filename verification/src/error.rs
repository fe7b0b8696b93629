//! The library's errors, by the kind of failure an engine reports.
use vstd::prelude::*;
use vstd::string::*;

verus! {

/// Why a call failed. The kinds are those a query engine tells apart: a
/// request that cannot be planned, a failure while running, and a refusal for
/// want of memory.
#[derive(Clone, Debug, PartialEq, Eq)]
pub enum NutmegError {
    /// The request is malformed: an unknown name, a bad option value.
    Plan(String),
    /// The request was well formed and failed while it ran.
    Execution(String),
    /// The memory budget, or a read's own limit, refused an admission.
    ResourcesExhausted(String),
    /// A state the library does not expect to reach.
    Internal(String),
    /// A request for something the library does not do.
    NotImplemented(String),
}

impl NutmegError {
    pub open spec fn text(self) -> Seq<char> {
        match self {
            NutmegError::Plan(m) => m@,
            NutmegError::Execution(m) => m@,
            NutmegError::ResourcesExhausted(m) => m@,
            NutmegError::Internal(m) => m@,
            NutmegError::NotImplemented(m) => m@,
        }
    }

    /// What an engine prefixes the message with, by kind.
    pub open spec fn prefix(self) -> Seq<char> {
        match self {
            NutmegError::Plan(_) => "Error during planning: "@,
            NutmegError::Execution(_) => "Execution error: "@,
            NutmegError::ResourcesExhausted(_) => "Resources exhausted: "@,
            NutmegError::Internal(_) => "Internal error: "@,
            NutmegError::NotImplemented(_) => "This feature is not implemented: "@,
        }
    }

    /// The error as an engine shows it: its kind's prefix, then the message.
    pub fn shown(&self) -> (r: String)
        ensures
            r@ == self.prefix() + self.text(),
    {
        let (prefix, m) = match self {
            NutmegError::Plan(m) => ("Error during planning: ", m),
            NutmegError::Execution(m) => ("Execution error: ", m),
            NutmegError::ResourcesExhausted(m) => ("Resources exhausted: ", m),
            NutmegError::Internal(m) => ("Internal error: ", m),
            NutmegError::NotImplemented(m) => ("This feature is not implemented: ", m),
        };
        join2(prefix, m.as_str())
    }

    /// The message alone.
    pub fn message(&self) -> (r: String)
        ensures
            r@ == self.text(),
    {
        match self {
            NutmegError::Plan(m) => m.clone(),
            NutmegError::Execution(m) => m.clone(),
            NutmegError::ResourcesExhausted(m) => m.clone(),
            NutmegError::Internal(m) => m.clone(),
            NutmegError::NotImplemented(m) => m.clone(),
        }
    }
}

/// The pieces, one after another.
pub fn join3(a: &str, b: &str, c: &str) -> (r: String)
    ensures
        r@ == a@ + b@ + c@,
{
    let mut out = String::from_str(a);
    out.append(b);
    out.append(c);
    out
}

pub fn join2(a: &str, b: &str) -> (r: String)
    ensures
        r@ == a@ + b@,
{
    let mut out = String::from_str(a);
    out.append(b);
    out
}

pub fn join5(a: &str, b: &str, c: &str, d: &str, e: &str) -> (r: String)
    ensures
        r@ == a@ + b@ + c@ + d@ + e@,
{
    let mut out = String::from_str(a);
    out.append(b);
    out.append(c);
    out.append(d);
    out.append(e);
    out
}

} // verus!
