//! The error families of the library, with a rendered message for each.
use vstd::prelude::*;
use vstd::string::*;
use crate::text::dec_rep;
use crate::text::u64_to_string;

verus! {

/// A typed failure: which family occurred and the offending path or name.
#[derive(Debug)]
pub enum AppError {
    /// An archive, version, backup or path was absent.
    NotFound(String),
    /// Unsupported archive format, path traversal, or a malformed request.
    InvalidInput(String),
    /// Framework removal blocked: the named framework still has dependents.
    Conflict { name: String, dependents: u64 },
    /// A filesystem or archive failure.
    IoFailure(String),
    /// A network or release-feed failure.
    RemoteFailure(String),
    /// The record store or a lock is unavailable.
    StateCorruption(String),
}

impl AppError {
    /// The message that the presentation layer surfaces verbatim.
    pub open spec fn message_spec(&self) -> Seq<char> {
        match self {
            AppError::NotFound(d) => "not found: "@ + d@,
            AppError::InvalidInput(d) => "invalid input: "@ + d@,
            AppError::Conflict { name, dependents } => "cannot remove "@ + name@ + ": "@
                + dec_rep(*dependents as nat) + " dependents exist; use cascade uninstall"@,
            AppError::IoFailure(d) => "io failure: "@ + d@,
            AppError::RemoteFailure(d) => "remote failure: "@ + d@,
            AppError::StateCorruption(d) => "state corruption: "@ + d@,
        }
    }

    /// Renders the error as text.
    pub fn message(&self) -> (r: String)
        ensures
            r@ == self.message_spec(),
    {
        match self {
            AppError::NotFound(d) => {
                let mut s = String::from_str("not found: ");
                s.append(d.as_str());
                s
            },
            AppError::InvalidInput(d) => {
                let mut s = String::from_str("invalid input: ");
                s.append(d.as_str());
                s
            },
            AppError::Conflict { name, dependents } => {
                let mut s = String::from_str("cannot remove ");
                s.append(name.as_str());
                s.append(": ");
                let count = u64_to_string(*dependents);
                s.append(count.as_str());
                s.append(" dependents exist; use cascade uninstall");
                s
            },
            AppError::IoFailure(d) => {
                let mut s = String::from_str("io failure: ");
                s.append(d.as_str());
                s
            },
            AppError::RemoteFailure(d) => {
                let mut s = String::from_str("remote failure: ");
                s.append(d.as_str());
                s
            },
            AppError::StateCorruption(d) => {
                let mut s = String::from_str("state corruption: ");
                s.append(d.as_str());
                s
            },
        }
    }
}

/// Maps a typed failure to its rendered message, keeping successes as they are.
pub fn map_error<T>(result: Result<T, AppError>) -> (r: Result<T, String>)
    ensures
        match result {
            Ok(v) => r matches Ok(w) && w == v,
            Err(e) => r matches Err(s) && s@ == e.message_spec(),
        },
{
    match result {
        Ok(v) => Ok(v),
        Err(e) => Err(e.message()),
    }
}

} // verus!
