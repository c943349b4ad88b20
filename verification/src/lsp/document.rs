//! One source file to be opened by a language server: its URI, the language the server is
//! to read it as, and its text.
use vstd::prelude::*;

use lsp_types::{TextDocumentItem, Uri};

use crate::domain_declaration::ends_with;
use crate::lsp::uri::{
    climbs, file_uri_of, file_uri_text_of, parsed_uri, uri_fits, uri_text_of_path, PathUriError,
};
use crate::path::is_absolute;
use crate::text::{chars_of, spells, string_of};

verus! {

#[verifier::external_type_specification]
#[verifier::external_body]
pub struct ExTextDocumentItem(TextDocumentItem);

/// The version a document is opened at. It never moves: this client edits nothing.
pub const INITIAL_VERSION: i32 = 1;

/// The language a server is told to read a document as.
#[derive(Debug, Clone, Copy, PartialEq, Eq)]
pub enum LanguageId {
    /// `.ts`
    TypeScript,
    /// `.tsx`
    TypeScriptReact,
}

/// The language of a file, by its extension; `None` for a file no grammar reads.
pub open spec fn language_of_path(path: Seq<char>) -> Option<LanguageId> {
    if ends_with(path, ".tsx"@) {
        Some(LanguageId::TypeScriptReact)
    } else if ends_with(path, ".ts"@) {
        Some(LanguageId::TypeScript)
    } else {
        None
    }
}

/// The name the protocol gives a language.
pub open spec fn language_name(language: LanguageId) -> Seq<char> {
    match language {
        LanguageId::TypeScript => "typescript"@,
        LanguageId::TypeScriptReact => "typescriptreact"@,
    }
}

impl LanguageId {
    /// The name the protocol gives the language.
    pub fn as_str(self) -> (name: &'static str)
        ensures
            name@ == language_name(self),
    {
        match self {
            LanguageId::TypeScript => "typescript",
            LanguageId::TypeScriptReact => "typescriptreact",
        }
    }

    /// The language of a file, by its extension.
    pub fn of_path(path: &str) -> (language: Option<LanguageId>)
        ensures
            language == language_of_path(path@),
    {
        let chars = chars_of(path);
        if ends_with_text(&chars, ".tsx") {
            Some(LanguageId::TypeScriptReact)
        } else if ends_with_text(&chars, ".ts") {
            Some(LanguageId::TypeScript)
        } else {
            None
        }
    }
}

/// Whether the characters end with `suffix`.
fn ends_with_text(s: &Vec<char>, suffix: &str) -> (ends: bool)
    ensures
        ends == ends_with(s@, suffix@),
{
    let tail = chars_of(suffix);
    if tail.len() > s.len() {
        return false;
    }
    let start = s.len() - tail.len();
    let rest = crate::text::slice_of(s.as_slice(), start, s.len());
    spells(rest.as_slice(), suffix)
}

/// Why a file could not be made a document to open.
#[derive(Debug, PartialEq, Eq)]
pub enum DocumentError {
    /// No grammar reads a file with this extension.
    UnreadableExtension { path: String },
    /// The file system resolved the path to no file; `cause` is its account of why.
    PathUnresolvable { path: String, cause: String },
    /// The resolved path has no `file:` URI.
    Uri(PathUriError),
}

/// A file to be opened by a server, ready to be sent: its URI (made from the path the file
/// system resolved), its language and its text.
#[derive(Debug)]
pub struct SourceDocument {
    uri: Uri,
    uri_text: String,
    resolved: String,
    language_id: LanguageId,
    text: String,
}

impl SourceDocument {
    pub closed spec fn uri_view(&self) -> Uri {
        self.uri
    }

    pub closed spec fn resolved_view(&self) -> Seq<char> {
        self.resolved@
    }

    pub closed spec fn uri_text_view(&self) -> Seq<char> {
        self.uri_text@
    }

    pub closed spec fn language_view(&self) -> LanguageId {
        self.language_id
    }

    pub closed spec fn text_view(&self) -> Seq<char> {
        self.text@
    }

    /// A document for the file at `path`, given what the file system resolved the path to
    /// (`resolved`: the canonical path, or its account of why there is none) and the text
    /// that was read.
    ///
    /// # Errors
    ///
    /// No grammar reads the extension (checked first); the path resolved to nothing; the
    /// resolved path has no URI.
    pub fn new(path: &str, resolved: Result<String, String>, text: String) -> (result: Result<
        SourceDocument,
        DocumentError,
    >)
        requires
            resolved matches Ok(r) ==> uri_fits(r@),
        ensures
            language_of_path(path@) is None ==> (result matches Err(
                DocumentError::UnreadableExtension { path: p },
            ) && p@ == path@),
            language_of_path(path@) is Some && resolved is Err ==> (result matches Err(
                DocumentError::PathUnresolvable { path: p, cause },
            ) && p@ == path@ && cause == resolved->Err_0),
            language_of_path(path@) is Some && resolved is Ok ==> match result {
                Ok(document) => {
                    &&& document.resolved_view() == resolved->Ok_0@
                    &&& is_absolute(resolved->Ok_0@)
                    &&& !climbs(resolved->Ok_0@)
                    &&& document.uri_text_view() == uri_text_of_path(resolved->Ok_0@)
                    &&& parsed_uri(uri_text_of_path(resolved->Ok_0@)) == Some(document.uri_view())
                    &&& document.language_view() == language_of_path(path@)->Some_0
                    &&& document.text_view() == text@
                },
                Err(DocumentError::Uri(_)) => !is_absolute(resolved->Ok_0@) || climbs(
                    resolved->Ok_0@,
                ) || !crate::lsp::uri::uri_accepts(uri_text_of_path(resolved->Ok_0@)),
                Err(_) => false,
            },
    {
        let language_id = match LanguageId::of_path(path) {
            Some(language) => language,
            None => {
                return Err(DocumentError::UnreadableExtension { path: string_of(&chars_of(path)) });
            },
        };
        let resolved = match resolved {
            Ok(resolved) => resolved,
            Err(cause) => {
                return Err(
                    DocumentError::PathUnresolvable { path: string_of(&chars_of(path)), cause },
                );
            },
        };
        let uri = match file_uri_of(resolved.as_str()) {
            Ok(uri) => uri,
            Err(cause) => {
                return Err(DocumentError::Uri(cause));
            },
        };
        let uri_text = match file_uri_text_of(resolved.as_str()) {
            Ok(uri_text) => string_of(&uri_text),
            Err(cause) => {
                return Err(DocumentError::Uri(cause));
            },
        };
        Ok(SourceDocument { uri, uri_text, resolved, language_id, text })
    }

    /// The document's URI.
    pub fn uri(&self) -> (uri: &Uri)
        ensures
            *uri == self.uri_view(),
    {
        &self.uri
    }

    /// The text of the document's URI.
    pub fn uri_text(&self) -> (text: &str)
        ensures
            text@ == self.uri_text_view(),
    {
        self.uri_text.as_str()
    }

    /// The language the server is to read the document as.
    pub fn language_id(&self) -> (language: LanguageId)
        ensures
            language == self.language_view(),
    {
        self.language_id
    }

    /// The text the server is to read.
    pub fn text(&self) -> (text: &str)
        ensures
            text@ == self.text_view(),
    {
        self.text.as_str()
    }

    /// The document as a `didOpen` notification carries it: its URI, its language's name,
    /// the first version, and its text.
    pub fn to_text_document_item(&self) -> (item: TextDocumentItem)
        ensures
            item == text_document_item(
                self.uri_view(),
                language_name(self.language_view()),
                INITIAL_VERSION,
                self.text_view(),
            ),
    {
        text_document_item_of(&self.uri, self.language_id.as_str(), INITIAL_VERSION, self.text.as_str())
    }
}

/// The `lsp_types::TextDocumentItem` whose four fields are the given URI, language name,
/// version and text.
pub uninterp spec fn text_document_item(uri: Uri, language_id: Seq<char>, version: i32, text: Seq<char>) -> TextDocumentItem;

/// A text document item of the given parts.
///
/// Trusted: builds an `lsp_types::TextDocumentItem` from its four fields, the URI cloned; the
/// contract claims the item is [`text_document_item`] of those parts, a function of them alone.
#[verifier::external_body]
fn text_document_item_of(uri: &Uri, language_id: &str, version: i32, text: &str) -> (item:
    TextDocumentItem)
    ensures
        item == text_document_item(*uri, language_id@, version, text@),
{
    TextDocumentItem {
        uri: uri.clone(),
        language_id: language_id.to_owned(),
        version,
        text: text.to_owned(),
    }
}

} // verus!
