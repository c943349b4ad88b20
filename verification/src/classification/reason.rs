//! Which way each signal pushed a verdict, with the value and the threshold applied to it.
use vstd::prelude::*;

use crate::classification::signal::{
    CallerDomainOverlap, ImportOverlap, StructuralSimilarity, TypeSignatureMatch,
};
use crate::syntax::module_distance::ModuleDistance;
use crate::threshold::Threshold;

verus! {

/// The direction a signal pushed the verdict.
#[derive(Debug, Clone, Copy, PartialEq, Eq)]
pub enum Lean {
    /// Toward extracting the two chunks into one.
    TowardExtract,
    /// Toward keeping them apart.
    TowardDoNotExtract,
    /// Neither way: the signal was not measured, or says nothing about the direction.
    Neither,
}

/// One signal, the threshold it was compared with, and the way it leaned.
#[derive(Debug, PartialEq, Eq)]
pub enum Reason {
    StructuralSimilarity { signal: StructuralSimilarity, threshold: Threshold, lean: Lean },
    ImportOverlap { signal: ImportOverlap, threshold: Threshold, lean: Lean },
    ModuleDistance { signal: ModuleDistance, separate_directory_steps: usize, lean: Lean },
    TypeSignatureMatch { signal: TypeSignatureMatch, lean: Lean },
    CallerDomainOverlap { signal: CallerDomainOverlap, threshold: Threshold, lean: Lean },
}

} // verus!
