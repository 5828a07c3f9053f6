use vstd::prelude::*;

verus! {

/// Why an operation on a net, or an export of it, failed.
#[derive(Debug, Clone, Copy, PartialEq, Eq, Structural)]
pub enum NetError {
    /// A place or transition reference is not a member of the net.
    InvalidReference,
    /// The arc is already present.
    DuplicateArc,
    /// The arc was recorded on one of its endpoints only: the net was corrupted.
    InconsistentState,
    /// Adding tokens would exceed the largest representable marking.
    Overflow,
    /// More tokens were to be removed than the place holds.
    Underflow,
    /// The output could not be produced.
    IoFailure,
}

} // verus!
