use vstd::prelude::*;

verus! {

/// Every way in which decoding a GHW byte stream can fail.
#[derive(Debug, Clone, Copy, PartialEq, Eq, Structural)]
pub enum FormatError {
    /// The stream ended in the middle of a record.
    Truncated,
    /// A section tag outside the known range.
    UnknownSection,
    /// A section that arrived before the sections it depends on.
    OutOfOrderSection,
    /// A hierarchy record with a tag that is not valid where it stands.
    MalformedHierarchy,
    /// A type record whose kind is not a type kind.
    MalformedType,
    /// A type reference to an entry that has not been decoded yet.
    ForwardTypeReference,
    /// A stored value that cannot belong to its slot's type.
    ValueTypeMismatch,
    /// A cycle that would move time backward.
    NonMonotonicTime,
    /// A string index at or past the end of the string table.
    BadStringIndex,
    /// A signal index at or past the end of the signal table.
    BadSignalIndex,
    /// A number that does not fit the width the format gives it.
    Overflow,
    /// Wrong magic marker, version or flags in the header.
    HeaderMismatch,
}

} // verus!
