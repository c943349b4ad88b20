//! What a hover answer says about the type at a position: the signature inside the first
//! code fence of its markdown.
use vstd::prelude::*;

use lsp_types::{Hover, HoverContents};
use serde_json::Value;

use crate::domain_declaration::starts_with;
use crate::text::{
    chars_of, join_with, joined_with, lemma_chars_deep_view, lines_of, string_of, text_lines,
    trim, trim_start, trimmed, trimmed_start,
};

verus! {

broadcast use lemma_chars_deep_view;

/// A signature as the server spelled it, with at least one character other than whitespace.
///
/// The spelling is kept as it came, padding included; how to fold it is for its reader.
#[derive(Debug, Clone, PartialEq, Eq)]
pub struct SignatureText(String);

/// What a hover request came back with.
#[derive(Debug, Clone, PartialEq, Eq)]
pub enum HoverOutcome {
    /// A signature.
    Answered(SignatureText),
    /// The server has nothing at that position.
    NoAnswer,
    /// An answer in a form that could not be read.
    Unreadable,
    /// The server does not offer hover.
    NotSupported,
}

impl SignatureText {
    pub closed spec fn view(&self) -> Seq<char> {
        self.0@
    }

    /// The spelling as a signature; `None` when it is empty or only whitespace.
    pub fn new(text: String) -> (signature: Option<SignatureText>)
        ensures
            signature is Some <==> trim(text@).len() > 0,
            signature matches Some(s) ==> s@ == text@,
    {
        let chars = chars_of(text.as_str());
        if trimmed(&chars).len() == 0 {
            return None;
        }
        Some(SignatureText(text))
    }

    /// The spelling.
    pub fn as_str(&self) -> (text: &str)
        ensures
            text@ == self@,
    {
        self.0.as_str()
    }
}

/// A line opens or closes a code fence.
pub open spec fn is_fence(line: Seq<char>) -> bool {
    starts_with(trim_start(line), "```"@)
}

/// The first fence line at or after `i`.
pub open spec fn fence_from(lines: Seq<Seq<char>>, i: nat) -> Option<nat>
    decreases lines.len() - i,
{
    if i >= lines.len() {
        None
    } else if is_fence(lines[i as int]) {
        Some(i)
    } else {
        fence_from(lines, i + 1)
    }
}

/// The lines between the first fence and the next one (or the end), joined by `\n`;
/// `None` without a fence.
pub open spec fn fenced_text(markdown: Seq<char>) -> Option<Seq<char>> {
    let lines = text_lines(markdown);
    match fence_from(lines, 0) {
        None => None,
        Some(open) => {
            let close = match fence_from(lines, open + 1) {
                Some(c) => c,
                None => lines.len(),
            };
            Some(joined_with(lines.subrange(open as int + 1, close as int), "\n"@))
        },
    }
}

/// What a hover's markup says: the signature in its first fence, when there is one with a
/// character other than whitespace.
pub open spec fn markup_outcome(markup: Option<Seq<char>>) -> Option<Seq<char>> {
    match markup {
        None => None,
        Some(m) => match fenced_text(m) {
            Some(t) => if trim(t).len() > 0 {
                Some(t)
            } else {
                None
            },
            None => None,
        },
    }
}

pub proof fn lemma_fence_from(lines: Seq<Seq<char>>, i: nat)
    ensures
        match fence_from(lines, i) {
            Some(k) => i <= k < lines.len() && is_fence(lines[k as int]) && forall|j: int|
                i <= j < k ==> !is_fence(#[trigger] lines[j]),
            None => forall|j: int| i <= j < lines.len() ==> !is_fence(#[trigger] lines[j]),
        },
    decreases lines.len() - i,
{
    if i < lines.len() {
        lemma_fence_from(lines, i + 1);
    }
}

/// Whether a line opens or closes a code fence.
fn is_fence_line(line: &Vec<char>) -> (fence: bool)
    ensures
        fence == is_fence(line@),
{
    let rest = trimmed_start(line);
    proof {
        reveal_strlit("```");
    }
    let fence = rest.len() >= 3 && rest[0] == '`' && rest[1] == '`' && rest[2] == '`';
    proof {
        if rest@.len() >= 3 {
            if fence {
                assert(rest@.take(3) =~= "```"@);
            } else {
                assert(rest@.take(3) != "```"@) by {
                    if rest@.take(3) == "```"@ {
                        assert(rest@.take(3)[0] == rest@[0]);
                        assert(rest@.take(3)[1] == rest@[1]);
                        assert(rest@.take(3)[2] == rest@[2]);
                    }
                }
            }
        }
    }
    fence
}

/// The first fence line at or after `from`.
fn fence_line_from(lines: &Vec<Vec<char>>, from: usize) -> (found: Option<usize>)
    requires
        from <= lines@.len(),
    ensures
        match found {
            Some(k) => fence_from(lines.deep_view(), from as nat) == Some(k as nat),
            None => fence_from(lines.deep_view(), from as nat) is None,
        },
{
    let mut i = from;
    while i < lines.len()
        invariant
            from <= i <= lines@.len(),
            fence_from(lines.deep_view(), from as nat) == fence_from(lines.deep_view(), i as nat),
        decreases lines@.len() - i,
    {
        assert(lines.deep_view()[i as int] == lines@[i as int]@);
        if is_fence_line(&lines[i]) {
            return Some(i);
        }
        i = i + 1;
    }
    None
}

/// The lines between the first fence and the next one, joined by `\n`.
fn fenced_text_of(markdown: &str) -> (text: Option<Vec<char>>)
    ensures
        match text {
            Some(t) => fenced_text(markdown@) == Some(t@),
            None => fenced_text(markdown@) is None,
        },
{
    let lines = lines_of(&chars_of(markdown));
    let open = match fence_line_from(&lines, 0) {
        Some(open) => open,
        None => {
            return None;
        },
    };
    proof {
        lemma_fence_from(lines.deep_view(), 0);
    }
    let close = match fence_line_from(&lines, open + 1) {
        Some(close) => close,
        None => lines.len(),
    };
    proof {
        lemma_fence_from(lines.deep_view(), (open + 1) as nat);
    }
    let mut body: Vec<Vec<char>> = Vec::new();
    let mut i = open + 1;
    while i < close
        invariant
            open + 1 <= i <= close <= lines@.len(),
            body.deep_view() == lines.deep_view().subrange(open + 1, i as int),
        decreases close - i,
    {
        let ghost prior = body.deep_view();
        body.push(crate::path::clone_chars(&lines[i]));
        i = i + 1;
        assert(body.deep_view() =~= lines.deep_view().subrange(open + 1, i as int)) by {
            assert(body.deep_view() =~= prior.push(lines@[i - 1]@));
        }
    }
    Some(join_with(&body, "\n"))
}

/// What a hover's markup says. `markup` is the markdown of a markup answer, `None` for an
/// answer in one of the older forms, which this does not read.
pub fn outcome_of_markup(markup: Option<&str>) -> (outcome: HoverOutcome)
    ensures
        match markup_outcome(
            match markup {
                Some(m) => Some(m@),
                None => None,
            },
        ) {
            Some(t) => outcome matches HoverOutcome::Answered(s) && s@ == t,
            None => outcome == HoverOutcome::Unreadable,
        },
{
    let markdown = match markup {
        Some(m) => m,
        None => {
            return HoverOutcome::Unreadable;
        },
    };
    match fenced_text_of(markdown) {
        Some(text) => match SignatureText::new(string_of(&text)) {
            Some(signature) => HoverOutcome::Answered(signature),
            None => HoverOutcome::Unreadable,
        },
        None => HoverOutcome::Unreadable,
    }
}

#[verifier::external_type_specification]
#[verifier::external_body]
pub struct ExHover(Hover);

/// The markdown a hover holds as `HoverContents::Markup`'s `value`; `None` for the older
/// forms.
pub uninterp spec fn hover_markup(hover: Hover) -> Option<Seq<char>>;

/// The markdown of a hover answered as markup; `None` for an answer in the older forms
/// (`MarkedString`, a list of them), which this does not read.
///
/// Trusted: tells the variants of `Hover::contents` apart, `HoverContents::Markup` giving
/// its `value`; the contract claims the text is [`hover_markup`] of the hover alone.
#[verifier::external_body]
fn markup_of(hover: &Hover) -> (markup: Option<String>)
    ensures
        match hover_markup(*hover) {
            Some(text) => markup matches Some(m) && m@ == text,
            None => markup is None,
        },
{
    match &hover.contents {
        HoverContents::Markup(content) => Some(content.value.clone()),
        _ => None,
    }
}

/// What a hover answer says: the signature inside the first fence of its markup, read as
/// [`outcome_of_markup`] reads it.
pub fn outcome_of(hover: &Hover) -> (outcome: HoverOutcome)
    ensures
        outcome is Answered || outcome is Unreadable,
        match markup_outcome(hover_markup(*hover)) {
            Some(t) => outcome matches HoverOutcome::Answered(s) && s@ == t,
            None => outcome == HoverOutcome::Unreadable,
        },
{
    let markup = markup_of(hover);
    match &markup {
        Some(text) => outcome_of_markup(Some(text.as_str())),
        None => outcome_of_markup(None),
    }
}

/// The hover a `textDocument/hover` result holds: `None` where it is no JSON of an optional
/// `Hover`, `Some(None)` for `null`.
pub uninterp spec fn hover_in(result: Value) -> Option<Option<Hover>>;

/// The hover a result holds, or why it holds none.
///
/// Trusted: `serde_json::from_value::<Option<Hover>>`; the contract claims the hover is
/// [`hover_in`] of the result alone. Nothing is stated of the error.
#[verifier::external_body]
fn hover_of_result(result: Value) -> (hover: Result<Option<Hover>, serde_json::Error>)
    ensures
        match hover_in(result) {
            None => hover is Err,
            Some(answered) => hover == Ok::<Option<Hover>, serde_json::Error>(answered),
        },
{
    serde_json::from_value::<Option<Hover>>(result)
}

/// What a hover result comes to: `null` is no answer; a hover, what [`outcome_of`] makes of
/// it.
///
/// # Errors
///
/// The result is no optional hover.
pub fn outcome_of_result(result: Value) -> (outcome: Result<HoverOutcome, serde_json::Error>)
    ensures
        match hover_in(result) {
            None => outcome is Err,
            Some(None) => outcome == Ok::<HoverOutcome, serde_json::Error>(HoverOutcome::NoAnswer),
            Some(Some(hover)) => outcome matches Ok(o) && match markup_outcome(hover_markup(hover)) {
                Some(t) => (o matches HoverOutcome::Answered(s) && s@ == t),
                None => o == HoverOutcome::Unreadable,
            },
        },
{
    match hover_of_result(result) {
        Ok(Some(hover)) => Ok(outcome_of(&hover)),
        Ok(None) => Ok(HoverOutcome::NoAnswer),
        Err(cause) => Err(cause),
    }
}

} // verus!
