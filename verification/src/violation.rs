use vstd::prelude::*;

verus! {

/// The ways in which configuration metadata can be rejected. Every violation
/// aborts the derivation it was found in.
#[derive(Clone, Copy, Debug, PartialEq, Eq, Structural)]
pub enum Violation {
    /// A block or sub-option has a shape that no accepted form matches.
    AttributeFormat,
    /// A sub-option that the active capability does not know.
    UnknownParameter,
    /// A sub-option or a capability block given more than once.
    DuplicateParameter,
    /// A string payload that is empty once surrounding blanks are removed.
    EmptyParameter,
    /// Sub-options that exclude each other were set together.
    ConflictingOptions,
    /// A block for a capability that the declaration does not enable.
    UnusedCapability,
}

} // verus!
