use vstd::prelude::*;

verus! {

/// Why a structured value could not be read as a document node.
#[derive(Debug, PartialEq)]
pub enum Error {
    /// A node did not have the wire shape its type expects.
    ShapeMismatch,
    /// No alternative of an untagged union matched; holds the failure of each attempt,
    /// in the order in which they were tried.
    CombinatorMismatch(Vec<Error>),
    /// The structure nests deeper than the configured limit.
    DepthExceeded,
    /// A text codec rejected its input; holds its message.
    Format(String),
    /// The document matched no known specification revision; holds the failure of
    /// each revision, in the order in which they were tried.
    NoMatchingRevision(Vec<Error>),
}

} // verus!
