//! Refusals.
use vstd::prelude::*;

verus! {

/// Why an operation was refused.
#[derive(Debug, Clone, PartialEq, Eq)]
pub enum Error {
    /// The input or the state it refers to is not acceptable.
    Invalid(String),
}

/// Whether `r` is a refusal with exactly this message.
pub open spec fn refused<T>(r: Result<T, Error>, message: Seq<char>) -> bool {
    r matches Err(Error::Invalid(m)) && m@ == message
}

/// Whether a check came out as `refusal` says: refused with that message, or
/// passed where there is none.
pub open spec fn settles<T>(r: Result<T, Error>, refusal: Option<Seq<char>>) -> bool {
    match refusal {
        Some(message) => refused(r, message),
        None => r is Ok,
    }
}

/// The first of two refusals.
pub open spec fn either(first: Option<Seq<char>>, second: Option<Seq<char>>) -> Option<Seq<char>> {
    match first {
        Some(message) => Some(message),
        None => second,
    }
}

/// A refusal.
pub fn invalid<T>(message: &str) -> (r: Result<T, Error>)
    ensures
        refused(r, message@),
{
    Err(Error::Invalid(message.to_owned()))
}

} // verus!
