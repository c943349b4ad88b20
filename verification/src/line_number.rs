//! A line number in a source file, counted from 1.
use vstd::prelude::*;

use crate::text::{chars_of, decimal, decimal_text, parse_usize, unsigned_value};

verus! {

/// A line number counted from 1.
///
/// Converting between 0-based line indexes and 1-based line numbers is needed all over;
/// keeping it on this type gives the conversion one place.
#[derive(Debug, Clone, Copy, PartialEq, Eq, PartialOrd, Ord, Hash)]
pub struct LineNumber {
    value: usize,
}

/// Why a text could not be read as a line number.
///
/// "Not a number" and "line zero" are told apart because the user fixes them differently.
#[derive(Debug, Clone, PartialEq, Eq)]
pub enum LineNumberParseError {
    /// Not readable as a number. Holds the text that was not.
    NotANumber(String),
    /// Zero was given; lines start at 1.
    Zero,
}

impl LineNumber {
    #[verifier::type_invariant]
    closed spec fn positive(self) -> bool {
        self.value >= 1
    }

    /// The 1-based number.
    pub closed spec fn spec_get(self) -> nat {
        self.value as nat
    }

    /// The line with this 1-based number; `None` for zero, which names no line.
    pub fn new(value: usize) -> (line: Option<LineNumber>)
        ensures
            line is Some <==> value >= 1,
            line matches Some(l) ==> l.spec_get() == value,
    {
        if value == 0 {
            return None;
        }
        Some(LineNumber { value })
    }

    /// The line at a 0-based index. Index 0 is line 1; saturates at `usize::MAX`.
    pub fn from_index(index: usize) -> (line: LineNumber)
        ensures
            line.spec_get() == if index == usize::MAX { usize::MAX as int } else { index + 1 },
    {
        if index == usize::MAX {
            LineNumber { value: usize::MAX }
        } else {
            LineNumber { value: index + 1 }
        }
    }

    /// The 0-based index of this line.
    pub fn to_index(self) -> (index: usize)
        ensures
            index == self.spec_get() - 1,
    {
        proof {
            use_type_invariant(&self);
        }
        self.value - 1
    }

    /// The 1-based number.
    pub fn get(self) -> (value: usize)
        ensures
            value == self.spec_get(),
            value >= 1,
    {
        proof {
            use_type_invariant(&self);
        }
        self.value
    }

    /// The number in decimal (`42`).
    pub fn text(self) -> (t: String)
        ensures
            t@ == decimal(self.spec_get()),
    {
        decimal_text(self.value as u64)
    }

    /// Reads a line number written in decimal.
    ///
    /// # Errors
    ///
    /// Not a number (including one too large for `usize`), or zero.
    pub fn parse(text: &str) -> (result: Result<LineNumber, LineNumberParseError>)
        ensures
            result matches Ok(l) ==> unsigned_value(text@) == Some(l.spec_get()),
            result matches Err(LineNumberParseError::NotANumber(t)) ==> t@ == text@ && match unsigned_value(text@) {
                Some(n) => n > usize::MAX,
                None => true,
            },
            result matches Err(LineNumberParseError::Zero) ==> unsigned_value(text@) == Some(0nat),
    {
        let chars = chars_of(text);
        match parse_usize(&chars) {
            None => Err(LineNumberParseError::NotANumber(text.to_owned())),
            Some(value) => match LineNumber::new(value) {
                Some(line) => Ok(line),
                None => Err(LineNumberParseError::Zero),
            },
        }
    }
}

} // verus!

verus! {

/// A line number's text reads back as the same number.
pub proof fn lemma_text_reads_back(line: LineNumber)
    ensures
        unsigned_value(decimal(line.spec_get())) == Some(line.spec_get()),
{
    crate::text::lemma_decimal_reads_back(line.spec_get());
}

} // verus!
