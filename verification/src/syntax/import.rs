//! Why the set of modules a file depends on could not be built.
use vstd::prelude::*;

use crate::line_number::LineNumber;

verus! {

/// Why a file's dependencies could not be collected.
///
/// Told apart because the user does different things next: a file that declares nothing,
/// a `require` whose spelling cannot be said to load a module, or a declaration this
/// tool failed to read.
#[derive(Debug, Clone, Copy, PartialEq, Eq)]
pub enum ImportsUnavailable {
    /// The file declares no dependency.
    NoDeclarations,
    /// `require` is bound to something else, so its calls cannot be said to load a module.
    ReboundSpelling,
    /// A dependency declaration could not be read.
    UnreadableDeclaration {
        /// Where it is.
        line: LineNumber,
    },
}

} // verus!
