//! Error type shared by the write path.

use vstd::prelude::*;

verus! {

/// The kind of a write-path failure.
///
/// Every error is fatal for the operation that raised it; there is no
/// internal retry at this layer.
#[derive(Clone, Copy, Debug, PartialEq, Eq, Structural)]
pub enum ErrorKind {
    /// A batch's columns disagree with the target schema in a way the core
    /// cannot reconcile (anything beyond a timestamp-timezone difference).
    SchemaMismatch,
    /// A configured source column id cannot be located, or the number of
    /// resolved partition fields disagrees with the specification.
    PartitionResolution,
    /// Failure assembling or casting a composite row or column value.
    Encoding,
    /// A configuration value is outside its allowed range.
    InvalidConfig,
    /// An operation was applied to a writer in a state that forbids it,
    /// such as closing a writer twice.
    IllegalState,
    /// A transform was applied to a value outside its domain.
    InvalidInput,
    /// A failure of the backing store, surfaced verbatim by the
    /// embedding application's storage driver; never raised by the
    /// verified core itself.
    BackingStore,
}

/// A write-path error: a kind, a fixed message, and optionally the id of
/// the column that caused the failure.
#[derive(Clone, Debug)]
pub struct Error {
    /// What went wrong.
    pub kind: ErrorKind,
    /// A short description of the failure.
    pub message: &'static str,
    /// The offending source column id, when one is known.
    pub source_column_id: Option<i64>,
}

impl Error {
    /// Build an error of the given kind.
    pub fn new(kind: ErrorKind, message: &'static str) -> (r: Error)
        ensures
            r.kind == kind,
            r.message == message,
            r.source_column_id is None,
    {
        Error { kind, message, source_column_id: None }
    }

    /// Build an error that names the offending source column.
    pub fn with_column(kind: ErrorKind, message: &'static str, source_column_id: i64) -> (r: Error)
        ensures
            r.kind == kind,
            r.message == message,
            r.source_column_id == Some(source_column_id),
    {
        Error { kind, message, source_column_id: Some(source_column_id) }
    }

    /// The kind of this error.
    pub fn kind(&self) -> (r: ErrorKind)
        ensures
            r == self.kind,
    {
        self.kind
    }
}

} // verus!
