//! Error taxonomy of the store.

use vstd::prelude::*;

verus! {

/// What can go wrong inside the store core.
///
/// - `NotFound`: no object is present at the derived location.
/// - `AlreadyExists`: the exclusive-create discipline refused an insert,
///   because the final object or a temporary sibling is already present.
/// - `Io`: any other filesystem failure, surfaced verbatim by the shell.
/// - `StreamAborted`: the incoming byte stream ended prematurely; nothing
///   was published at the final location.
/// - `CachePressure`: the cache operation channel was full; the operation
///   was dropped. Cache contents stay correct because the disk is
///   authoritative.
#[derive(Clone, Copy, Debug, PartialEq, Eq, Structural)]
pub enum Error {
    NotFound,
    AlreadyExists,
    Io,
    StreamAborted,
    CachePressure,
}

impl Error {
    /// A short human-readable name for the error, for the shell to log or
    /// embed in a response body.
    pub fn describe(&self) -> (r: &'static str)
        ensures
            r@ == self.describe_spec(),
    {
        match self {
            Error::NotFound => "not found",
            Error::AlreadyExists => "already exists",
            Error::Io => "io error",
            Error::StreamAborted => "stream aborted",
            Error::CachePressure => "cache pressure",
        }
    }

    /// The name `describe` returns for each variant.
    pub open spec fn describe_spec(self) -> Seq<char> {
        match self {
            Error::NotFound => "not found"@,
            Error::AlreadyExists => "already exists"@,
            Error::Io => "io error"@,
            Error::StreamAborted => "stream aborted"@,
            Error::CachePressure => "cache pressure"@,
        }
    }
}

} // verus!
