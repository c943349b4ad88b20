//! The three labels a pair can get.
use vstd::prelude::*;

use crate::text::string_of;

verus! {

/// What to do with a pair of similar chunks.
#[derive(Debug, Clone, Copy, PartialEq, Eq)]
pub enum Verdict {
    /// Shared logic: extracting it into one place is fine.
    ExtractCandidate,
    /// Accidental duplication: keep the two apart.
    DoNotExtract,
    /// Not enough to decide: a person looks.
    Review,
}

/// The label of a verdict as the reports print it.
pub open spec fn verdict_label(verdict: Verdict) -> Seq<char> {
    match verdict {
        Verdict::ExtractCandidate => seq![
            'E', 'X', 'T', 'R', 'A', 'C', 'T', '-', 'C', 'A', 'N', 'D', 'I', 'D', 'A', 'T', 'E'
        ],
        Verdict::DoNotExtract => seq![
            'D', 'O', '-', 'N', 'O', 'T', '-', 'E', 'X', 'T', 'R', 'A', 'C', 'T'
        ],
        Verdict::Review => seq!['R', 'E', 'V', 'I', 'E', 'W'],
    }
}

impl Verdict {
    /// The label, as the reports print it (`EXTRACT-CANDIDATE`, `DO-NOT-EXTRACT`, `REVIEW`).
    pub fn label(&self) -> (label: &'static str)
        ensures
            label@ == verdict_label(*self),
    {
        match self {
            Verdict::ExtractCandidate => {
                proof {
                    reveal_strlit("EXTRACT-CANDIDATE");
                }
                "EXTRACT-CANDIDATE"
            },
            Verdict::DoNotExtract => {
                proof {
                    reveal_strlit("DO-NOT-EXTRACT");
                }
                "DO-NOT-EXTRACT"
            },
            Verdict::Review => {
                proof {
                    reveal_strlit("REVIEW");
                }
                "REVIEW"
            },
        }
    }

    /// The label as an owned string.
    pub fn to_string(&self) -> (label: String)
        ensures
            label@ == verdict_label(*self),
    {
        let label = self.label();
        string_of(&crate::text::chars_of(label))
    }
}

} // verus!
