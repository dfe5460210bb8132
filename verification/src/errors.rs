use vstd::prelude::*;

verus! {

/// Failure classification of the storage core.
#[derive(Clone, Copy, Debug, PartialEq, Eq, Structural)]
pub enum StorageError {
    /// An operation was invoked before a store was installed in the session.
    Uninitialized,
    /// A single-row read by identifier found no matching row.
    NotFound,
    /// A write could not be applied: the record carried no identifier, or
    /// its identifier is already in use.
    WriteError,
}

/// Outcome of a conditional update: a three-way signal that lets a caller
/// tell "a row was written" apart from "nothing needed to happen"; the
/// third case, "the write failed", travels as the error of the `Result`
/// around this status.
#[derive(Clone, Copy, Debug, PartialEq, Eq, Structural)]
pub enum UpdateStatus {
    /// A row was written.
    Success,
    /// The stored state already matched the candidate; no write happened.
    NoChange,
}

} // verus!
