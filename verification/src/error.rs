//! Error taxonomy for identifier parsing, qualifier validation, and the
//! filesystem-facing operations of the library.

use vstd::prelude::*;

verus! {

/// Errors returned by the library.
///
/// Parse errors are kept distinct so that a caller can tell a malformed
/// field count (`InvalidFormat`) from a wrong namespace, a wrong scheme
/// version, an unknown object-type tag, malformed hex, or hex of the wrong
/// decoded length.
#[derive(Debug, Clone, PartialEq, Eq)]
pub enum SwhidError {
    /// An underlying I/O failure, with path context supplied by the caller.
    Io(String),
    /// Structural violation of a grammar: wrong field count or separator.
    InvalidFormat(String),
    /// The namespace field is not the fixed namespace literal.
    InvalidNamespace(String),
    /// The version field is not the single supported scheme version.
    InvalidVersion(String),
    /// The object-type field is not a recognized kind tag.
    InvalidObjectType(String),
    /// The hash field is not well-formed hexadecimal.
    InvalidHash(String),
    /// The hash field decoded to a byte length other than 20.
    InvalidHashLength(usize),
    /// A path argument was unusable.
    InvalidPath(String),
    /// Two directory entries share one name.
    DuplicateEntry(String),
    /// The requested operation is not supported for this object.
    UnsupportedOperation(String),
    /// A qualifier value violates its kind constraint.
    InvalidQualifier(String),
    /// A qualifier value is malformed (for example a bad numeric range).
    InvalidQualifierValue(String),
    /// A qualifier key is not one of the recognized keys.
    UnknownQualifier(String),
    /// A failure reported by a version-control reader.
    Git(String),
    /// A failure reported by an archive extractor.
    Archive(String),
    /// Content rejected by configuration, such as oversized content.
    InvalidInput(String),
}

} // verus!
