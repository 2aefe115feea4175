use vstd::prelude::*;

verus! {

/// The error kinds of the storage core. All of them are recoverable:
/// every operation reports failure through a typed result.
#[derive(Clone, Copy, Debug, PartialEq, Eq, Structural)]
pub enum Error {
    /// The kind tag is empty or holds a space or NUL byte.
    InvalidKind,
    /// An envelope does not parse as `"<kind> <length>\0<content>"`.
    MalformedObject,
    /// An identifier is not exactly 40 lowercase hex characters.
    InvalidIdentifier,
    /// No object is stored under the identifier.
    ObjectNotFound,
    /// The backing storage failed for a reason other than absence.
    StorageUnavailable,
}

} // verus!
