use vstd::prelude::*;

verus! {

/// The kinds of failure that buffer and schema operations report.
#[derive(Debug, Clone, Copy, PartialEq, Eq, Structural)]
pub enum NP_Error {
    /// The schema description is not one this library accepts.
    SchemaInvalid,
    /// The operation's value type disagrees with the schema.
    TypeMismatch,
    /// A path segment does not fit the schema at that point.
    PathInvalid,
    /// The arena would grow past the 16-bit address space.
    OutOfSpace,
    /// A list index would pass 255.
    ListFull,
    /// The buffer's bytes break the format.
    Corrupt,
    /// Stored text is not valid UTF-8.
    Utf8,
}

} // verus!
