//! A position in a source file, as a language server counts it: a line, and a column
//! within it.
use vstd::prelude::*;

use lsp_types::Position;

use crate::line_number::LineNumber;

verus! {

#[verifier::external_type_specification]
#[verifier::external_body]
pub struct ExPosition(Position);

/// A position: the 1-based line, and the column a server counts from the line's start.
///
/// A server counts lines from 0; the line kept here is one more, and goes back as one less.
#[derive(Debug, Clone, Copy, PartialEq, Eq)]
pub struct SourcePosition {
    line: LineNumber,
    character: u32,
}

impl SourcePosition {
    /// The line came from a server, so one less fits its count.
    #[verifier::type_invariant]
    closed spec fn from_a_server(self) -> bool {
        self.line.spec_get() <= u32::MAX as nat + 1
    }

    pub closed spec fn line_view(self) -> nat {
        self.line.spec_get()
    }

    pub closed spec fn character_view(self) -> nat {
        self.character as nat
    }

    /// The position a server names by its 0-based line and its column. (On a machine whose
    /// `usize` is as narrow as a `u32`, the last line saturates where a `LineNumber` does.)
    pub fn from_lsp(line: u32, character: u32) -> (position: SourcePosition)
        ensures
            (line as int) < usize::MAX ==> position.line_view() == line + 1,
            position.character_view() == character,
    {
        SourcePosition { line: LineNumber::from_index(line as usize), character }
    }

    /// The 1-based line.
    pub fn line(&self) -> (line: LineNumber)
        ensures
            line.spec_get() == self.line_view(),
    {
        self.line
    }

    /// The column.
    pub fn character(&self) -> (character: u32)
        ensures
            character == self.character_view(),
    {
        self.character
    }

    /// The 0-based line a server counts.
    pub fn lsp_line(&self) -> (line: u32)
        ensures
            line == self.line_view() - 1,
    {
        proof {
            use_type_invariant(self);
        }
        self.line.to_index() as u32
    }

    /// The position as a server takes it.
    pub fn to_lsp_position(&self) -> (position: Position)
        ensures
            position == lsp_position((self.line_view() - 1) as u32, self.character_view() as u32),
    {
        position_of(self.lsp_line(), self.character)
    }
}

/// The `lsp_types::Position` of a 0-based line and a column.
pub uninterp spec fn lsp_position(line: u32, character: u32) -> Position;

/// A position of a line and a column.
///
/// Trusted: `lsp_types::Position::new`, which sets the two fields; the contract claims the
/// position is [`lsp_position`] of the two, a function of them alone.
#[verifier::external_body]
fn position_of(line: u32, character: u32) -> (position: Position)
    ensures
        position == lsp_position(line, character),
{
    Position::new(line, character)
}

} // verus!
