//! Errors reported by the server's handlers.

use vstd::prelude::*;

verus! {

/// An error answered to a client, each kind with its message.
#[derive(Debug, Clone, PartialEq, Eq)]
pub enum OmemError {
    /// The request is malformed.
    Validation(String),
    /// The requested item does not exist.
    NotFound(String),
    /// The caller may not see the requested item.
    Unauthorized(String),
    /// The embedding service failed.
    Embedding(String),
    /// The language model failed or answered unusably.
    Llm(String),
}

impl OmemError {
    /// The message the error carries.
    pub open spec fn message(self) -> Seq<char> {
        match self {
            OmemError::Validation(m) => m@,
            OmemError::NotFound(m) => m@,
            OmemError::Unauthorized(m) => m@,
            OmemError::Embedding(m) => m@,
            OmemError::Llm(m) => m@,
        }
    }
}

/// The concatenation of `a` and `b`.
pub fn join(a: &str, b: &str) -> (r: String)
    ensures
        r@ == a@ + b@,
{
    let mut r = String::from_str(a);
    r.append(b);
    r
}

/// The concatenation of `a`, `b` and `c`.
pub fn join3(a: &str, b: &str, c: &str) -> (r: String)
    ensures
        r@ == a@ + b@ + c@,
{
    let mut r = String::from_str(a);
    r.append(b);
    r.append(c);
    r
}

} // verus!
