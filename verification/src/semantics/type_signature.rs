//! Why a type name that stays in the comparison was not traced to its declaration.
use vstd::prelude::*;

verus! {

/// Why a type name left in the comparison was not asked about.
#[derive(Debug, Clone, Copy, PartialEq, Eq)]
pub enum UntracedReason {
    /// The type annotation is omitted; writing one gives a position to ask at.
    OmittedTypeAnnotation,
    /// The parameter count does not line up with the spelling, so which parameter
    /// lacks a traced name cannot be said.
    UnalignedParameters,
    /// No record of asking; the source may not spell it, or it was missed.
    NoTracedRecord,
}

} // verus!
