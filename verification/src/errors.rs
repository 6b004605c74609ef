use vstd::prelude::*;

verus! {

/// The failure kinds of the graph data model. Every failure is local to the
/// call that raised it and is returned to the immediate caller; none aborts
/// the process.
#[derive(Clone, Copy, Debug, PartialEq, Eq, Structural)]
pub enum GraphError {
    /// A direction string that is none of the recognized tokens
    /// (`TO`, `FROM`, `IN`, `OUT`, case-insensitive).
    InvalidDirectionToken,
    /// A required property value is missing: raised by the unwrap-style
    /// accessors when the key is unset or the stored value is absent.
    PropertyAbsent,
    /// An operation was attempted on an element after its removal; the
    /// handle is stale and must be reacquired.
    ElementRemoved,
}

} // verus!
