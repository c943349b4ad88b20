//! What a type definition answer says: where the type of a name is declared.
use vstd::prelude::*;

use lsp_types::{GotoDefinitionResponse, Uri};

use crate::lsp::uri::{
    climbs, file_uri_of, parsed_uri, parts_of_uri, path_of, path_read, uri_accepts, uri_fits,
    uri_text_of_path, PathUriError, UriPathError,
};
use crate::path::is_absolute;
use crate::source_position::SourcePosition;
use crate::text::{chars_of, string_of};

verus! {

#[verifier::external_type_specification]
#[verifier::external_body]
pub struct ExGotoDefinitionResponse(GotoDefinitionResponse);

/// Where a type is declared: the file, and the point in it where its name stands. The path
/// is kept to open the file; the URI, to ask about it again.
#[derive(Debug)]
pub struct DeclarationSite {
    uri: Uri,
    path: String,
    position: SourcePosition,
}

impl DeclarationSite {
    pub closed spec fn uri_view(&self) -> Uri {
        self.uri
    }

    pub closed spec fn path_view(&self) -> Seq<char> {
        self.path@
    }

    pub closed spec fn position_view(&self) -> SourcePosition {
        self.position
    }

    /// The site in the file at `path`, its URI made from the path, so that the two cannot
    /// disagree.
    ///
    /// # Errors
    ///
    /// As [`file_uri_of`]: the path is relative, still climbs, or makes no URI.
    pub fn new(path: &str, position: SourcePosition) -> (result: Result<DeclarationSite, PathUriError>)
        requires
            uri_fits(path@),
        ensures
            result matches Ok(site) ==> site.path_view() == path@ && site.position_view() == position
                && is_absolute(path@) && !climbs(path@) && parsed_uri(uri_text_of_path(path@))
                == Some(site.uri_view()),
            result is Err <==> !(is_absolute(path@) && !climbs(path@) && uri_accepts(
                uri_text_of_path(path@),
            )),
    {
        let uri = match file_uri_of(path) {
            Ok(uri) => uri,
            Err(cause) => {
                return Err(cause);
            },
        };
        Ok(DeclarationSite { uri, path: string_of(&chars_of(path)), position })
    }

    /// The file.
    pub fn path(&self) -> (path: &str)
        ensures
            path@ == self.path_view(),
    {
        self.path.as_str()
    }

    /// The file's URI.
    pub fn uri(&self) -> (uri: &Uri)
        ensures
            *uri == self.uri_view(),
    {
        &self.uri
    }

    /// Where the name stands in the file.
    pub fn position(&self) -> (position: SourcePosition)
        ensures
            position == self.position_view(),
    {
        self.position
    }
}

/// What asking where a type is declared came to.
#[derive(Debug)]
pub enum TypeDefinitionOutcome {
    /// Where it is declared.
    Answered(DeclarationSite),
    /// The server named no declaration (an empty list too: it comes both when there is none
    /// and when the file is not seen as part of a project).
    NoAnswer,
    /// A declaration came back under a URI that is no local path.
    Unreadable { cause: UriPathError },
    /// The server does not answer type definitions; nothing was asked.
    NotSupported,
}

/// One declaration as the server gave it: its URI, where its range starts, and, for a link,
/// where the range that selects its name starts.
pub struct DeclarationParts {
    pub uri: Uri,
    pub start: (u32, u32),
    pub name_start: Option<(u32, u32)>,
}

/// The declarations a type definition answer holds, in the order given, each read as
/// [`declarations_of`] reads it.
pub uninterp spec fn answered_declarations(answered: GotoDefinitionResponse) -> Seq<DeclarationParts>;

/// The declarations of an answer, in the order given: one for a single location, one per
/// location or link of a list.
///
/// Trusted: tells the variants of `lsp_types::GotoDefinitionResponse` apart and reads, of a
/// `Location`, its `uri` and `range.start`; of a `LocationLink`, its `target_uri`,
/// `target_range.start` and `target_selection_range.start` (each a `line` and a `character`);
/// the contract claims the list is [`answered_declarations`] of the answer alone.
#[verifier::external_body]
fn declarations_of(answered: &GotoDefinitionResponse) -> (declarations: Vec<DeclarationParts>)
    ensures
        declarations@ == answered_declarations(*answered),
{
    let of_location = |location: &lsp_types::Location| DeclarationParts {
        uri: location.uri.clone(),
        start: (location.range.start.line, location.range.start.character),
        name_start: None,
    };
    match answered {
        GotoDefinitionResponse::Scalar(location) => vec![of_location(location)],
        GotoDefinitionResponse::Array(locations) => locations.iter().map(of_location).collect(),
        GotoDefinitionResponse::Link(links) => links.iter().map(|link| DeclarationParts {
            uri: link.target_uri.clone(),
            start: (link.target_range.start.line, link.target_range.start.character),
            name_start: Some((link.target_selection_range.start.line, link.target_selection_range.start.character)),
        }).collect(),
    }
}

/// Where a declaration's name stands: for a link, the start of the range that selects the
/// name (its whole range starts at `export` or `type`, where no type is asked about); for a
/// location, the start of its range.
pub open spec fn name_position(parts: DeclarationParts) -> (u32, u32) {
    match parts.name_start {
        Some(start) => start,
        None => parts.start,
    }
}

/// Whether `outcome` is what the declarations come to: none is no answer; otherwise the
/// first of them, under its URI, at the path that URI reads as ([`path_read`]) and at
/// [`name_position`]; or, where the URI reads as no path, why not.
pub open spec fn declarations_come_to(
    declarations: Seq<DeclarationParts>,
    outcome: TypeDefinitionOutcome,
) -> bool {
    if declarations.len() == 0 {
        outcome is NoAnswer
    } else {
        let first = declarations[0];
        match outcome {
            TypeDefinitionOutcome::Answered(site) => {
                &&& path_read(
                    parts_of_uri(first.uri),
                    Ok::<Seq<char>, UriPathError>(site.path_view()),
                )
                &&& site.uri_view() == first.uri
                &&& site.position_view().character_view() == name_position(first).1
                &&& (name_position(first).0 as int) < usize::MAX
                    ==> site.position_view().line_view() == name_position(first).0 + 1
            },
            TypeDefinitionOutcome::Unreadable { cause } => path_read(
                parts_of_uri(first.uri),
                Err::<Seq<char>, UriPathError>(cause),
            ),
            _ => false,
        }
    }
}

/// What the declarations of an answer come to: none is no answer; otherwise the first of
/// them (several come for a name declared in several places, and nothing here chooses
/// between them), at [`name_position`], unless its URI is no local path.
pub fn outcome_of_declarations(declarations: Vec<DeclarationParts>) -> (outcome: TypeDefinitionOutcome)
    ensures
        declarations@.len() == 0 <==> outcome is NoAnswer,
        outcome is Answered || outcome is NoAnswer || outcome is Unreadable,
        outcome matches TypeDefinitionOutcome::Answered(site) ==> is_absolute(site.path_view())
            && site.position_view().character_view() == name_position(declarations@[0]).1 && ((
            name_position(declarations@[0]).0 as int) < usize::MAX ==> site.position_view().line_view()
            == name_position(declarations@[0]).0 + 1),
        declarations_come_to(declarations@, outcome),
{
    if declarations.len() == 0 {
        return TypeDefinitionOutcome::NoAnswer;
    }
    let mut declarations = declarations;
    let first = declarations.remove(0);
    let (line, character) = match first.name_start {
        Some(start) => start,
        None => first.start,
    };
    let position = SourcePosition::from_lsp(line, character);
    match path_of(&first.uri) {
        Ok(path) => TypeDefinitionOutcome::Answered(
            DeclarationSite { uri: first.uri, path, position },
        ),
        Err(cause) => TypeDefinitionOutcome::Unreadable { cause },
    }
}

/// What a type definition answer comes to, as [`outcome_of_declarations`] reads its
/// declarations.
pub fn outcome_of(answered: &GotoDefinitionResponse) -> (outcome: TypeDefinitionOutcome)
    ensures
        outcome is Answered || outcome is NoAnswer || outcome is Unreadable,
        declarations_come_to(answered_declarations(*answered), outcome),
{
    outcome_of_declarations(declarations_of(answered))
}

} // verus!
