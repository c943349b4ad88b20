//! A position in source, given on the command line as `file:line`.
use vstd::prelude::*;

use crate::line_number::LineNumber;
use crate::text::{chars_of, decimal, parse_usize, push_all, push_decimal, slice_of, string_of, unsigned_value};

verus! {

/// A position in source: a file path and a 1-based line.
#[derive(Debug, Clone, PartialEq, Eq)]
pub struct Location {
    path: String,
    line: LineNumber,
}

/// Why `file:line` could not be read.
#[derive(Debug, Clone, PartialEq, Eq)]
pub enum LocationParseError {
    /// There is no `:`.
    MissingSeparator,
    /// Nothing is left of the `:`.
    EmptyPath,
    /// The right of the `:` is not a number. Holds that text.
    NotANumber(String),
    /// The line number is zero.
    ZeroLine,
}

/// The index of the last `:` in `s`, if any.
pub open spec fn last_colon(s: Seq<char>) -> Option<nat>
    decreases s.len(),
{
    if s.len() == 0 {
        None
    } else if s.last() == ':' {
        Some((s.len() - 1) as nat)
    } else {
        last_colon(s.drop_last())
    }
}

/// `path:line`.
pub open spec fn location_text(path: Seq<char>, line: nat) -> Seq<char> {
    path + seq![':'] + decimal(line)
}

impl Location {
    pub closed spec fn spec_path(&self) -> Seq<char> {
        self.path@
    }

    pub closed spec fn spec_line(&self) -> nat {
        self.line.spec_get()
    }

    /// A position from its file and line.
    pub fn new(path: String, line: LineNumber) -> (location: Location)
        ensures
            location.spec_path() == path@,
            location.spec_line() == line.spec_get(),
    {
        Location { path, line }
    }

    /// The file.
    pub fn path(&self) -> (path: &str)
        ensures
            path@ == self.spec_path(),
    {
        self.path.as_str()
    }

    /// The 1-based line.
    pub fn line(&self) -> (line: LineNumber)
        ensures
            line.spec_get() == self.spec_line(),
    {
        self.line
    }

    /// `file:line`, as the reports print it.
    pub fn text(&self) -> (t: String)
        ensures
            t@ == location_text(self.spec_path(), self.spec_line()),
    {
        let mut out = chars_of(self.path.as_str());
        out.push(':');
        push_decimal(&mut out, self.line.get() as u64);
        string_of(&out)
    }

    /// Reads `file:line`, splitting at the last `:` so that a Windows drive letter
    /// (`C:\a.rs:12`) stays in the path.
    ///
    /// # Errors
    ///
    /// No `:`; empty path; line not a number; line zero.
    pub fn parse(text: &str) -> (result: Result<Location, LocationParseError>)
        ensures
            match last_colon(text@) {
                None => result == Err::<Location, LocationParseError>(
                    LocationParseError::MissingSeparator,
                ),
                Some(i) => {
                    let path = text@.take(i as int);
                    let line = text@.skip(i + 1int);
                    if path.len() == 0 {
                        result == Err::<Location, LocationParseError>(LocationParseError::EmptyPath)
                    } else {
                        match unsigned_value(line) {
                            Some(n) if 1 <= n <= usize::MAX => result matches Ok(l)
                                && l.spec_path() == path && l.spec_line() == n,
                            Some(n) if n == 0 => result == Err::<Location, LocationParseError>(
                                LocationParseError::ZeroLine,
                            ),
                            _ => result matches Err(LocationParseError::NotANumber(t)) && t@
                                == line,
                        }
                    }
                },
            },
    {
        let chars = chars_of(text);
        let mut i = chars.len();
        assert(chars@.take(i as int) =~= chars@);
        while i > 0 && chars[i - 1] != ':'
            invariant
                i <= chars@.len(),
                chars@ == text@,
                last_colon(text@) == last_colon(chars@.take(i as int)),
            decreases i,
        {
            proof {
                assert(chars@.take(i as int).drop_last() =~= chars@.take(i - 1));
            }
            i = i - 1;
        }
        if i == 0 {
            proof {
                assert(chars@.take(0) =~= Seq::<char>::empty());
            }
            return Err(LocationParseError::MissingSeparator);
        }
        proof {
            assert(last_colon(chars@.take(i as int)) == Some((i - 1) as nat));
        }
        let colon = i - 1;
        if colon == 0 {
            return Err(LocationParseError::EmptyPath);
        }
        let path = slice_of(&chars, 0, colon);
        let line = slice_of(&chars, colon + 1, chars.len());
        proof {
            assert(path@ =~= text@.take(colon as int));
            assert(line@ =~= text@.skip(colon + 1));
        }
        match parse_usize(&line) {
            None => Err(LocationParseError::NotANumber(string_of(&line))),
            Some(n) => match LineNumber::new(n) {
                None => Err(LocationParseError::ZeroLine),
                Some(number) => Ok(Location::new(string_of(&path), number)),
            },
        }
    }
}

/// The last `:` of `head`, a `:`, and text without a `:` is the one added.
proof fn lemma_last_colon_before(head: Seq<char>, tail: Seq<char>)
    requires
        forall|i: int| 0 <= i < tail.len() ==> tail[i] != ':',
    ensures
        last_colon(head + seq![':'] + tail) == Some(head.len()),
    decreases tail.len(),
{
    if tail.len() > 0 {
        assert((head + seq![':'] + tail).drop_last() =~= head + seq![':'] + tail.drop_last());
        lemma_last_colon_before(head, tail.drop_last());
    } else {
        assert(head + seq![':'] + tail =~= (head + seq![':']));
    }
}

/// A location's text reads back as the same location: its last `:` is the one before the
/// line, the path before it is the path, and the digits after it spell the line. (A path
/// may hold `:` itself; the line never does.)
pub proof fn lemma_text_reads_back(path: Seq<char>, line: nat)
    requires
        path.len() > 0,
        1 <= line,
    ensures
        last_colon(location_text(path, line)) == Some(path.len()),
        location_text(path, line).take(path.len() as int) == path,
        location_text(path, line).skip(path.len() + 1int) == decimal(line),
        unsigned_value(decimal(line)) == Some(line),
{
    crate::text::lemma_decimal_reads_back(line);
    assert forall|i: int| 0 <= i < decimal(line).len() implies decimal(line)[i] != ':' by {
        assert(crate::text::is_digit(decimal(line)[i]));
    }
    lemma_last_colon_before(path, decimal(line));
    assert(location_text(path, line).take(path.len() as int) =~= path);
    assert(location_text(path, line).skip(path.len() + 1int) =~= decimal(line));
}

} // verus!
