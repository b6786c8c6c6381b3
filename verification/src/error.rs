use vstd::prelude::*;

verus! {

/// The ways a scan can fail.  No recovery is attempted: every error aborts
/// the parse in progress and no partial tree is exposed.
#[derive(Debug, PartialEq, Eq)]
pub enum Error {
    /// The input ended while a fence, a name terminator, a structure-name
    /// terminator or a closing run was still required.
    UnexpectedEoF,
    /// A fence run of length zero stood where a non-empty run was required,
    /// or a closing brace run did not consist of closing braces.
    InvalidLeyLine,
    /// A structure name that no registered handler interprets.  The scanner
    /// itself never produces this: it is reported by whatever consumes a
    /// parsed document and resolves structure names against a registry.
    UnknownStructure(String),
}

} // verus!
