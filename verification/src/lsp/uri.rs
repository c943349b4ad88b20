//! Between file paths and the `file:` URIs a language server speaks in.
//!
//! A path goes out as a URI with each component percent-encoded byte by byte; a URI that
//! comes back is turned into a path again only when it names a local file.
use vstd::prelude::*;
use vstd::utf8::{decode_utf8, encode_utf8, valid_utf8};

use lsp_types::Uri;

use crate::path::{components_of, is_absolute, join_components, joined, path_components};
use crate::text::{chars_of, lemma_chars_deep_view, push_all, push_str, string_of};

verus! {

broadcast use lemma_chars_deep_view;

#[verifier::external_type_specification]
#[verifier::external_body]
pub struct ExUri(Uri);

/// Why a path could not be turned into a URI.
#[derive(Debug, PartialEq, Eq)]
pub enum PathUriError {
    /// The path is relative; a server resolves URIs against nothing.
    NotAbsolute { path: String },
    /// The path still holds `..`; the same file would reach the server under two spellings.
    NotFolded { path: String },
    /// The text built is not a URI.
    Malformed { text: String },
}

/// Why a URI could not be turned into a path.
#[derive(Debug, PartialEq, Eq)]
pub enum UriPathError {
    /// Not a `file:` URI.
    NotAFileUri { uri: String },
    /// Names a host (a network share).
    HasAuthority { uri: String },
    /// Holds a Windows drive letter.
    DriveLetter { uri: String },
    /// A component does not decode to UTF-8.
    NotUtf8 { uri: String },
}

/// Why a path could not be made absolute.
#[derive(Debug, PartialEq, Eq)]
pub enum AbsolutePathError {
    /// The empty path names nothing.
    EmptyPath,
}

/// A byte that a URI path segment carries as itself.
pub open spec fn placeable(b: u8) -> bool {
    (48 <= b && b <= 57) || (65 <= b && b <= 90) || (97 <= b && b <= 122) || b == 45 || b == 46
        || b == 95 || b == 126 || b == 33 || b == 36 || b == 38 || b == 39 || b == 40 || b == 41
        || b == 42 || b == 43 || b == 44 || b == 59 || b == 61 || b == 58 || b == 64
}

/// An upper-case hexadecimal digit.
pub open spec fn hex_digit(n: u8) -> char {
    if n < 10 {
        (48 + n) as char
    } else {
        (55 + n) as char
    }
}

/// One byte as written in a URI: itself when placeable, else `%` and two hex digits.
pub open spec fn byte_text(b: u8) -> Seq<char> {
    if placeable(b) {
        seq![b as char]
    } else {
        seq!['%', hex_digit(b / 16), hex_digit(b % 16)]
    }
}

/// The percent-encoding of some bytes.
pub open spec fn percent_encoding(bytes: Seq<u8>) -> Seq<char>
    decreases bytes.len(),
{
    if bytes.len() == 0 {
        seq![]
    } else {
        percent_encoding(bytes.drop_last()) + byte_text(bytes.last())
    }
}

/// A path component percent-encoded, byte by byte of its UTF-8.
pub fn percent_encoded(name: &str) -> (encoded: Vec<char>)
    ensures
        encoded@ == percent_encoding(encode_utf8(name@)),
{
    let bytes = name.as_bytes();
    let mut encoded: Vec<char> = Vec::new();
    let mut i: usize = 0;
    while i < bytes.len()
        invariant
            0 <= i <= bytes@.len(),
            bytes@ == encode_utf8(name@),
            encoded@ == percent_encoding(bytes@.take(i as int)),
        decreases bytes@.len() - i,
    {
        assert(bytes@.take(i + 1).drop_last() =~= bytes@.take(i as int));
        let b = bytes[i];
        let is_placeable = (48 <= b && b <= 57) || (65 <= b && b <= 90) || (97 <= b && b <= 122)
            || b == 45 || b == 46 || b == 95 || b == 126 || b == 33 || b == 36 || b == 38 || b
            == 39 || b == 40 || b == 41 || b == 42 || b == 43 || b == 44 || b == 59 || b == 61
            || b == 58 || b == 64;
        if is_placeable {
            encoded.push(b as char);
        } else {
            encoded.push('%');
            encoded.push(hex_digit_of(b / 16));
            encoded.push(hex_digit_of(b % 16));
        }
        i = i + 1;
        assert(encoded@ =~= percent_encoding(bytes@.take(i as int)));
    }
    assert(bytes@.take(i as int) =~= bytes@);
    encoded
}

/// An upper-case hexadecimal digit.
fn hex_digit_of(n: u8) -> (c: char)
    requires
        n < 16,
    ensures
        c == hex_digit(n),
{
    if n < 10 {
        (48 + n) as char
    } else {
        (55 + n) as char
    }
}

/// The `file:` URI text of an absolute path whose components hold no `..`.
pub open spec fn file_uri_text(components: Seq<Seq<char>>) -> Seq<char>
    decreases components.len(),
{
    if components.len() == 0 {
        "file://"@
    } else {
        file_uri_text(components.drop_last()) + seq!['/'] + percent_encoding(
            encode_utf8(components.last()),
        )
    }
}

/// The text of the URI for a path: `file://` and each component after a `/`, or
/// `file:///` for the root.
pub open spec fn uri_text_of_path(path: Seq<char>) -> Seq<char> {
    let components = path_components(path);
    if components.len() == 0 {
        "file:///"@
    } else {
        file_uri_text(components)
    }
}

/// Some component climbs (`..`).
pub open spec fn climbs(path: Seq<char>) -> bool {
    path_components(path).contains(seq!['.', '.'])
}

/// The URI `lsp_types::Uri::from_str` parses a text into; `None` where the text is no URI.
pub uninterp spec fn parsed_uri(text: Seq<char>) -> Option<Uri>;

/// Whether the text is a URI.
pub open spec fn uri_accepts(text: Seq<char>) -> bool {
    parsed_uri(text) is Some
}

/// The URI text of the root directory.
pub open spec fn root_uri_text() -> Seq<char> {
    "file:///"@
}

/// The path segments of the root's URI: one, empty.
pub open spec fn root_uri_segments() -> Seq<Seq<u8>> {
    seq![Seq::<u8>::empty()]
}

/// Whether the components of a path come back from its URI as they went in: none is
/// empty, and none is spelled like a Windows drive letter (`C:`), which a URI reader takes
/// for one. (No component at all, the root, comes back too.)
pub open spec fn reads_back(components: Seq<Seq<char>>) -> bool {
    forall|i: int|
        0 <= i < components.len() ==> (#[trigger] components[i]).len() > 0 && !is_drive_letter(
            encode_utf8(components[i]),
        )
}

/// Components a `file:` URI can be written of: at least one, none empty.
pub open spec fn file_uri_components(components: Seq<Seq<char>>) -> bool {
    &&& components.len() > 0
    &&& forall|i: int| 0 <= i < components.len() ==> (#[trigger] components[i]).len() > 0
}

/// Whether a text is the `file:` URI text of some components.
pub open spec fn spells_file_uri(text: Seq<char>) -> bool {
    exists|components: Seq<Seq<char>>|
        #[trigger] file_uri_text(components) == text && file_uri_components(components)
}

/// Whether the URI text of a path is short enough for a URI parser, which takes at most
/// `i32::MAX` bytes (only the text of an absolute, folded path is ever parsed).
pub open spec fn uri_fits(path: Seq<char>) -> bool {
    is_absolute(path) && !climbs(path) ==> encode_utf8(uri_text_of_path(path)).len() <= i32::MAX
}

/// The URI a text spells, when it is one.
///
/// Trusted: calls `lsp_types::Uri::from_str` (a parse by `fluent_uri::Uri::parse`, which
/// panics on a text longer than `i32::MAX` bytes); the contract claims that the outcome is
/// [`parsed_uri`] of the text, a function of the text alone; and, of the text
/// [`file_uri_text`] writes for non-empty components (`file://`, then `/` and each
/// component's UTF-8 bytes, each byte itself where RFC 3986 lets a path segment hold it and
/// `%XX` otherwise), that it parses, with the scheme `file`, an empty authority, and one path
/// segment per component that decodes to the component's bytes; and, of the root's text
/// `file:///`, that it parses with the scheme `file`, an empty authority, and one empty
/// segment (the path `/` with its `/` skipped).
#[verifier::external_body]
fn uri_of_text(text: &str) -> (uri: Option<Uri>)
    requires
        encode_utf8(text@).len() <= i32::MAX,
    ensures
        uri == parsed_uri(text@),
        spells_file_uri(text@) ==> uri is Some,
        text@ == root_uri_text() ==> uri is Some,
        uri matches Some(u) ==> (text@ == root_uri_text() ==> uri_scheme(u) == Some("file"@)
            && uri_authority(u) == Some(Seq::<char>::empty()) && uri_segments(u)
            == root_uri_segments()),
        uri matches Some(u) ==> forall|components: Seq<Seq<char>>|
            #[trigger] file_uri_text(components) == text@ && file_uri_components(components) ==> (
            uri_scheme(u) == Some("file"@) && uri_authority(u) == Some(Seq::<char>::empty())
                && uri_segments(u) == components.map_values(|c: Seq<char>| encode_utf8(c))),
{
    <Uri as std::str::FromStr>::from_str(text).ok()
}

/// The text of the URI for an absolute, folded path.
///
/// # Errors
///
/// The path is relative, or still climbs with `..`.
pub fn file_uri_text_of(path: &str) -> (result: Result<Vec<char>, PathUriError>)
    ensures
        match result {
            Ok(text) => is_absolute(path@) && !climbs(path@) && text@ == uri_text_of_path(path@),
            Err(PathUriError::NotAbsolute { path: p }) => !is_absolute(path@) && p@ == path@,
            Err(PathUriError::NotFolded { path: p }) => is_absolute(path@) && climbs(path@) && p@
                == path@,
            Err(PathUriError::Malformed { .. }) => false,
        },
{
    let chars = chars_of(path);
    if chars.len() == 0 || chars[0] != '/' {
        return Err(PathUriError::NotAbsolute { path: path.to_owned() });
    }
    let components = components_of(&chars);
    let mut text = chars_of("file://");
    let mut i: usize = 0;
    while i < components.len()
        invariant
            0 <= i <= components@.len(),
            is_absolute(path@),
            components.deep_view() == path_components(path@),
            text@ == file_uri_text(components.deep_view().take(i as int)),
            forall|j: int| 0 <= j < i ==> components.deep_view()[j] != seq!['.', '.'],
        decreases components@.len() - i,
    {
        assert(components.deep_view().take(i + 1).drop_last() =~= components.deep_view().take(
            i as int,
        ));
        let component = &components[i];
        if component.len() == 2 && component[0] == '.' && component[1] == '.' {
            assert(components.deep_view()[i as int] =~= seq!['.', '.']);
            assert(path_components(path@)[i as int] == seq!['.', '.']);
            return Err(PathUriError::NotFolded { path: path.to_owned() });
        }
        assert(components.deep_view()[i as int] != seq!['.', '.']) by {
            if components.deep_view()[i as int] == seq!['.', '.'] {
                assert(component@ =~= seq!['.', '.']);
            }
        }
        text.push('/');
        let name = string_of(component);
        push_all(&mut text, percent_encoded(name.as_str()).as_slice());
        i = i + 1;
        assert(text@ =~= file_uri_text(components.deep_view().take(i as int)));
    }
    assert(components.deep_view().take(i as int) =~= components.deep_view());
    assert(!climbs(path@)) by {
        if climbs(path@) {
            let j = choose|j: int|
                0 <= j < path_components(path@).len() && path_components(path@)[j] == seq![
                    '.',
                    '.',
                ];
            assert(components.deep_view()[j] != seq!['.', '.']);
        }
    }
    if components.len() == 0 {
        text.push('/');
        proof {
            reveal_strlit("file://");
            reveal_strlit("file:///");
        }
        assert(text@ =~= "file:///"@);
    }
    Ok(text)
}

/// The `file:` URI of an absolute path whose components hold no `..`.
///
/// # Errors
///
/// The path is relative or still climbs; the text built is not a URI.
pub fn file_uri_of(path: &str) -> (result: Result<Uri, PathUriError>)
    requires
        uri_fits(path@),
    ensures
        match result {
            Ok(uri) => is_absolute(path@) && !climbs(path@) && parsed_uri(uri_text_of_path(path@))
                == Some(uri) && (reads_back(path_components(path@)) ==> path_read(
                parts_of_uri(uri),
                Ok(joined(true, path_components(path@))),
            )),
            Err(PathUriError::NotAbsolute { path: p }) => !is_absolute(path@) && p@ == path@,
            Err(PathUriError::NotFolded { path: p }) => is_absolute(path@) && climbs(path@) && p@
                == path@,
            Err(PathUriError::Malformed { text }) => is_absolute(path@) && !climbs(path@) && text@
                == uri_text_of_path(path@) && !uri_accepts(uri_text_of_path(path@)),
        },
{
    let text = match file_uri_text_of(path) {
        Ok(text) => string_of(&text),
        Err(error) => {
            return Err(error);
        },
    };
    let parsed = uri_of_text(text.as_str());
    proof {
        let components = path_components(path@);
        if reads_back(components) && components.len() == 0 {
            reveal_strlit("file");
            let root = root_uri_segments();
            assert(root.drop_last() =~= Seq::<Seq<u8>>::empty());
            assert(root.last() == Seq::<u8>::empty());
            assert(root.len() == 1);
            assert(segments_path(Seq::<Seq<u8>>::empty()) == Some(Seq::<Seq<char>>::empty()));
            assert(first_unreadable(Seq::<Seq<u8>>::empty()) is None);
            assert(segments_path(root) == Some(Seq::<Seq<char>>::empty()));
            assert(first_unreadable(root) is None);
            assert(text@ == root_uri_text());
        }
        if reads_back(components) && components.len() > 0 {
            assert(text@ == file_uri_text(components));
            assert(file_uri_components(components));
            assert(spells_file_uri(text@));
            lemma_components_read_back(components);
            reveal_strlit("file");
        }
    }
    match parsed {
        Some(uri) => Ok(uri),
        None => Err(PathUriError::Malformed { text }),
    }
}

/// The components of a path with `.` dropped and each `..` taking back the one before it,
/// stopping at the root.
pub open spec fn folded_to_root(components: Seq<Seq<char>>) -> Seq<Seq<char>>
    decreases components.len(),
{
    if components.len() == 0 {
        Seq::empty()
    } else {
        let before = folded_to_root(components.drop_last());
        if components.last() == seq!['.', '.'] {
            if before.len() == 0 {
                before
            } else {
                before.drop_last()
            }
        } else {
            before.push(components.last())
        }
    }
}

/// The components of the absolute path `std::path::absolute` gives from
/// `current_directory`, with `.` and `..` folded away.
pub open spec fn absolute_components(path: Seq<char>, current_directory: Seq<char>) -> Seq<
    Seq<char>,
> {
    folded_to_root(
        if is_absolute(path) {
            path_components(path)
        } else {
            path_components(current_directory) + path_components(path)
        },
    )
}

/// The absolute path `std::path::absolute` gives from `current_directory`, with `.` and `..`
/// folded away.
pub open spec fn absolute_path(path: Seq<char>, current_directory: Seq<char>) -> Seq<char> {
    joined(true, absolute_components(path, current_directory))
}

/// The components of the path made absolute against `current_directory`, `.` dropped and
/// each `..` folded into the step before it, never above the root.
///
/// # Errors
///
/// The path is empty.
pub fn absolute_components_of(path: &str, current_directory: &str) -> (result: Result<
    Vec<Vec<char>>,
    AbsolutePathError,
>)
    ensures
        match result {
            Ok(c) => path@.len() > 0 && c.deep_view() == absolute_components(
                path@,
                current_directory@,
            ),
            Err(_) => path@.len() == 0,
        },
{
    let chars = chars_of(path);
    if chars.len() == 0 {
        return Err(AbsolutePathError::EmptyPath);
    }
    let own = components_of(&chars);
    let mut components: Vec<Vec<char>> = Vec::new();
    if chars[0] != '/' {
        let base = components_of(&chars_of(current_directory));
        let mut k: usize = 0;
        while k < base.len()
            invariant
                0 <= k <= base@.len(),
                base.deep_view() == path_components(current_directory@),
                components.deep_view() == base.deep_view().take(k as int),
            decreases base@.len() - k,
        {
            let ghost prior = components.deep_view();
            components.push(crate::path::clone_chars(&base[k]));
            k = k + 1;
            assert(components.deep_view() =~= base.deep_view().take(k as int)) by {
                assert(components.deep_view() =~= prior.push(base@[k - 1]@));
            }
        }
        assert(base.deep_view().take(k as int) =~= base.deep_view());
    }
    let ghost start = components.deep_view();
    let mut k: usize = 0;
    while k < own.len()
        invariant
            0 <= k <= own@.len(),
            own.deep_view() == path_components(path@),
            components.deep_view() == start + own.deep_view().take(k as int),
        decreases own@.len() - k,
    {
        let ghost prior = components.deep_view();
        components.push(crate::path::clone_chars(&own[k]));
        k = k + 1;
        assert(components.deep_view() =~= start + own.deep_view().take(k as int)) by {
            assert(components.deep_view() =~= prior.push(own@[k - 1]@));
        }
    }
    assert(own.deep_view().take(k as int) =~= own.deep_view());
    let mut folded: Vec<Vec<char>> = Vec::new();
    let mut i: usize = 0;
    while i < components.len()
        invariant
            0 <= i <= components@.len(),
            folded.deep_view() == folded_to_root(components.deep_view().take(i as int)),
        decreases components@.len() - i,
    {
        assert(components.deep_view().take(i + 1).drop_last() =~= components.deep_view().take(
            i as int,
        ));
        let component = &components[i];
        let ghost prior = folded.deep_view();
        if component.len() == 2 && component[0] == '.' && component[1] == '.' {
            assert(component@ =~= seq!['.', '.']);
            if folded.len() > 0 {
                folded.pop();
                assert(folded.deep_view() =~= prior.drop_last());
            }
        } else {
            assert(component@ != seq!['.', '.']) by {
                if component@ == seq!['.', '.'] {
                    assert(component@.len() == 2);
                }
            }
            folded.push(crate::path::clone_chars(component));
            assert(folded.deep_view() =~= prior.push(component@));
        }
        i = i + 1;
    }
    assert(components.deep_view().take(i as int) =~= components.deep_view());
    Ok(folded)
}

/// The path made absolute against `current_directory` (the process's, as
/// `std::path::absolute` reads it), with `.` dropped and each `..` folded into the step
/// before it, never above the root. Nothing is looked up on disk: a path need not exist,
/// and links are not followed.
///
/// # Errors
///
/// The path is empty.
pub fn absolute_path_of(path: &str, current_directory: &str) -> (result: Result<
    String,
    AbsolutePathError,
>)
    ensures
        match result {
            Ok(p) => path@.len() > 0 && p@ == absolute_path(path@, current_directory@),
            Err(_) => path@.len() == 0,
        },
{
    match absolute_components_of(path, current_directory) {
        Ok(folded) => Ok(string_of(&join_components(true, &folded))),
        Err(error) => Err(error),
    }
}

/// Whether a decoded path segment is a Windows drive letter (`C:`).
pub open spec fn is_drive_letter(name: Seq<u8>) -> bool {
    name.len() == 2 && ((65 <= name[0] && name[0] <= 90) || (97 <= name[0] && name[0] <= 122))
        && name[1] == 58
}

/// What a URI holds, as read by its parser: its text, its scheme, its authority (where it
/// has one), and its path segments decoded to bytes.
pub struct UriParts {
    pub text: String,
    pub scheme: Option<String>,
    pub authority: Option<String>,
    pub segments: Vec<Vec<u8>>,
}

/// The text of a URI (`Uri::as_str`).
pub uninterp spec fn uri_text(uri: Uri) -> Seq<char>;

/// The scheme of a URI, as written (`Uri::scheme`, `Scheme::as_str`).
pub uninterp spec fn uri_scheme(uri: Uri) -> Option<Seq<char>>;

/// The authority of a URI, as written (`Uri::authority`, `Authority::as_str`).
pub uninterp spec fn uri_authority(uri: Uri) -> Option<Seq<char>>;

/// A URI's path segments, each decoded to bytes (`path().segments()`, `EStr::decode`).
pub uninterp spec fn uri_segments(uri: Uri) -> Seq<Seq<u8>>;

/// An optional text as its characters.
pub open spec fn text_option_view(text: Option<String>) -> Option<Seq<char>> {
    match text {
        Some(t) => Some(t@),
        None => None,
    }
}

impl UriParts {
    /// The parts as values: the text, the scheme, the authority, and the segments' bytes.
    pub open spec fn view(&self) -> (Seq<char>, Option<Seq<char>>, Option<Seq<char>>, Seq<Seq<u8>>) {
        (
            self.text@,
            text_option_view(self.scheme),
            text_option_view(self.authority),
            self.segments@.map_values(|s: Vec<u8>| s@),
        )
    }
}

/// The parts of a URI as its parser found them.
pub open spec fn parts_of_uri(uri: Uri) -> (Seq<char>, Option<Seq<char>>, Option<Seq<char>>, Seq<Seq<u8>>) {
    (uri_text(uri), uri_scheme(uri), uri_authority(uri), uri_segments(uri))
}

/// A character equal to a lower-case letter, in either case.
pub open spec fn is_letter_either_case(c: char, lower: char) -> bool {
    c == lower || c as int == lower as int - 32
}

/// Whether a scheme is `file`, compared case-insensitively.
pub open spec fn is_file_scheme(scheme: Option<Seq<char>>) -> bool {
    match scheme {
        Some(s) => s.len() == 4 && is_letter_either_case(s[0], 'f') && is_letter_either_case(
            s[1],
            'i',
        ) && is_letter_either_case(s[2], 'l') && is_letter_either_case(s[3], 'e'),
        None => false,
    }
}

/// Whether an authority names a host: there is one, and it is not empty.
pub open spec fn names_a_host(authority: Option<Seq<char>>) -> bool {
    authority matches Some(a) && a.len() > 0
}

/// Whether a scheme is `file`, compared case-insensitively.
pub fn scheme_is_file(scheme: &Option<String>) -> (is_file: bool)
    ensures
        is_file == is_file_scheme(text_option_view(*scheme)),
{
    match scheme {
        Some(s) => {
            let chars = chars_of(s.as_str());
            chars.len() == 4 && (chars[0] == 'f' || chars[0] == 'F') && (chars[1] == 'i'
                || chars[1] == 'I') && (chars[2] == 'l' || chars[2] == 'L') && (chars[3] == 'e'
                || chars[3] == 'E')
        },
        None => false,
    }
}

/// Whether an authority names a host.
pub fn authority_names_a_host(authority: &Option<String>) -> (names: bool)
    ensures
        names == names_a_host(text_option_view(*authority)),
{
    match authority {
        Some(a) => chars_of(a.as_str()).len() > 0,
        None => false,
    }
}

/// The parts of a URI.
///
/// Trusted: reads `Uri::as_str`, `scheme` (`Scheme::as_str`), `authority`
/// (`Authority::as_str`), and `path().segments()` each decoded by `EStr::decode` into bytes;
/// the contract claims each is what the URI alone gives ([`parts_of_uri`]).
#[verifier::external_body]
fn uri_parts(uri: &Uri) -> (parts: UriParts)
    ensures
        parts@ == (uri_text(*uri), uri_scheme(*uri), uri_authority(*uri), uri_segments(*uri)),
{
    UriParts {
        text: uri.as_str().to_owned(),
        scheme: uri.scheme().map(|scheme| scheme.as_str().to_owned()),
        authority: uri.authority().map(|authority| authority.as_str().to_owned()),
        segments: uri.path().segments().map(|segment| segment.decode().into_bytes().into_owned()).collect(),
    }
}

/// How a URI's parts read as a path: `None` at the first segment that is not UTF-8 or is a
/// drive letter, else the path from the root through every non-empty segment.
pub open spec fn segments_path(segments: Seq<Seq<u8>>) -> Option<Seq<Seq<char>>>
    decreases segments.len(),
{
    if segments.len() == 0 {
        Some(Seq::empty())
    } else {
        match segments_path(segments.drop_last()) {
            None => None,
            Some(before) => {
                let s = segments.last();
                if s.len() == 0 {
                    Some(before)
                } else if !valid_utf8(s) || is_drive_letter(s) {
                    None
                } else {
                    Some(before.push(decode_utf8(s)))
                }
            },
        }
    }
}

/// The first segment that stops the reading, with whether it failed to be UTF-8.
pub open spec fn first_unreadable(segments: Seq<Seq<u8>>) -> Option<(nat, bool)>
    decreases segments.len(),
{
    if segments.len() == 0 {
        None
    } else {
        match first_unreadable(segments.drop_last()) {
            Some(found) => Some(found),
            None => {
                let s = segments.last();
                if s.len() > 0 && !valid_utf8(s) {
                    Some(((segments.len() - 1) as nat, true))
                } else if s.len() > 0 && is_drive_letter(s) {
                    Some(((segments.len() - 1) as nat, false))
                } else {
                    None
                }
            },
        }
    }
}

/// How a URI's parts (text, scheme, authority, segments) read as a local path: not a
/// `file:` URI; naming a host; the first segment that is not UTF-8 or is a drive letter;
/// else the path from the root through every non-empty segment.
pub open spec fn path_read(
    parts: (Seq<char>, Option<Seq<char>>, Option<Seq<char>>, Seq<Seq<u8>>),
    result: Result<Seq<char>, UriPathError>,
) -> bool {
    let (text, scheme, authority, segments) = parts;
    if !is_file_scheme(scheme) {
        result matches Err(UriPathError::NotAFileUri { uri }) && uri@ == text
    } else if names_a_host(authority) {
        result matches Err(UriPathError::HasAuthority { uri }) && uri@ == text
    } else {
        match first_unreadable(segments) {
            Some((_, true)) => result matches Err(UriPathError::NotUtf8 { uri }) && uri@ == text,
            Some((_, false)) => result matches Err(UriPathError::DriveLetter { uri }) && uri@
                == text,
            None => result == Ok::<Seq<char>, UriPathError>(
                joined(true, segments_path(segments)->Some_0),
            ),
        }
    }
}

/// A path reading with the path taken as its characters.
pub open spec fn reading_view(result: Result<String, UriPathError>) -> Result<Seq<char>, UriPathError> {
    match result {
        Ok(p) => Ok(p@),
        Err(e) => Err(e),
    }
}

/// The local path a URI's parts name.
///
/// # Errors
///
/// Not a `file:` URI; names a host; a segment is not UTF-8, or is a drive letter (the
/// first such segment decides which).
pub fn path_of_parts(parts: UriParts) -> (result: Result<String, UriPathError>)
    ensures
        path_read(parts@, reading_view(result)),
        result matches Ok(p) ==> is_absolute(p@),
{
    if !scheme_is_file(&parts.scheme) {
        return Err(UriPathError::NotAFileUri { uri: parts.text });
    }
    if authority_names_a_host(&parts.authority) {
        return Err(UriPathError::HasAuthority { uri: parts.text });
    }
    let ghost segments = parts.segments@.map_values(|s: Vec<u8>| s@);
    let mut components: Vec<Vec<char>> = Vec::new();
    let mut i: usize = 0;
    while i < parts.segments.len()
        invariant
            0 <= i <= parts.segments@.len(),
            is_file_scheme(text_option_view(parts.scheme)),
            !names_a_host(text_option_view(parts.authority)),
            segments == parts.segments@.map_values(|s: Vec<u8>| s@),
            first_unreadable(segments.take(i as int)) is None,
            segments_path(segments.take(i as int)) == Some(components.deep_view()),
        decreases parts.segments@.len() - i,
    {
        assert(segments.take(i + 1).drop_last() =~= segments.take(i as int));
        let segment = &parts.segments[i];
        if segment.len() > 0 {
            let bytes = vstd::slice::slice_to_vec(segment.as_slice());
            match crate::lsp::framing::text_of_utf8(bytes) {
                Some(name) => {
                    let letter = segment.len() == 2 && ((65 <= segment[0] && segment[0] <= 90) || (
                    97 <= segment[0] && segment[0] <= 122)) && segment[1] == 58;
                    if letter {
                        proof {
                            lemma_first_unreadable_stays(segments, (i + 1) as nat);
                        }
                        return Err(UriPathError::DriveLetter { uri: parts.text });
                    }
                    let ghost prior = components.deep_view();
                    components.push(chars_of(name.as_str()));
                    assert(components.deep_view() =~= prior.push(decode_utf8(segment@)));
                },
                None => {
                    proof {
                        lemma_first_unreadable_stays(segments, (i + 1) as nat);
                    }
                    return Err(UriPathError::NotUtf8 { uri: parts.text });
                },
            }
        }
        i = i + 1;
    }
    assert(segments.take(i as int) =~= segments);
    proof {
        lemma_joined_starts_at_root(components.deep_view());
    }
    Ok(string_of(&join_components(true, &components)))
}

/// A path spelled from the root starts with `/`.
proof fn lemma_joined_starts_at_root(components: Seq<Seq<char>>)
    ensures
        is_absolute(joined(true, components)),
    decreases components.len(),
{
    if components.len() > 1 {
        lemma_joined_starts_at_root(components.drop_last());
    }
}

/// Once a segment stops the reading, later segments do not change which one did.
proof fn lemma_first_unreadable_stays(segments: Seq<Seq<u8>>, k: nat)
    requires
        k <= segments.len(),
        first_unreadable(segments.take(k as int)) is Some,
    ensures
        first_unreadable(segments) == first_unreadable(segments.take(k as int)),
    decreases segments.len(),
{
    if segments.len() == k {
        assert(segments.take(k as int) =~= segments);
    } else {
        assert(segments.drop_last().take(k as int) =~= segments.take(k as int));
        lemma_first_unreadable_stays(segments.drop_last(), k);
    }
}

/// What the URI of a path carries, read back, is the path's components: the URI holds one
/// segment per component, its UTF-8 bytes percent-encoded ([`file_uri_text`]); once its
/// parser has decoded the segments to those bytes, [`path_of_parts`] finds every one
/// readable and puts the same components back together. A component spelled like a drive
/// letter (`C:`) is read as one, and is left out.
pub proof fn lemma_components_read_back(components: Seq<Seq<char>>)
    requires
        forall|i: int|
            0 <= i < components.len() ==> (#[trigger] components[i]).len() > 0
                && !is_drive_letter(encode_utf8(components[i])),
    ensures
        first_unreadable(components.map_values(|c: Seq<char>| encode_utf8(c))) is None,
        segments_path(components.map_values(|c: Seq<char>| encode_utf8(c))) == Some(components),
    decreases components.len(),
{
    if components.len() > 0 {
        let segments = components.map_values(|c: Seq<char>| encode_utf8(c));
        let rest = components.drop_last();
        assert(segments.drop_last() =~= rest.map_values(|c: Seq<char>| encode_utf8(c)));
        lemma_components_read_back(rest);
        let last = components.last();
        assert(components[components.len() - 1] == last);
        vstd::utf8::encode_utf8_valid_utf8(last);
        vstd::utf8::encode_utf8_decode_utf8(last);
        if encode_utf8(last).len() == 0 {
            assert(encode_utf8(last) =~= Seq::<u8>::empty());
            assert(decode_utf8(Seq::<u8>::empty()) =~= Seq::<char>::empty()) by {
                reveal_with_fuel(decode_utf8, 1);
            }
        }
        assert(segments.last() == encode_utf8(last));
        assert(rest.push(last) =~= components);
    }
}

/// The local path a `file:` URI names.
///
/// # Errors
///
/// As [`path_of_parts`] says of the URI's parts.
pub fn path_of(uri: &Uri) -> (result: Result<String, UriPathError>)
    ensures
        path_read(parts_of_uri(*uri), reading_view(result)),
        result matches Ok(p) ==> is_absolute(p@),
{
    let result = path_of_parts(uri_parts(uri));
    result
}

/// Whether each reading is what the URI at its place reads as ([`path_read`]), one per URI,
/// in order.
pub open spec fn uris_read(uris: Seq<Uri>, readings: Seq<Result<String, UriPathError>>) -> bool {
    &&& readings.len() == uris.len()
    &&& forall|i: int|
        0 <= i < uris.len() ==> path_read(parts_of_uri(uris[i]), reading_view(#[trigger] readings[i]))
}

/// Whether every URI of a list was read as a path.
pub open spec fn all_read(readings: Seq<Result<String, UriPathError>>) -> bool {
    forall|i: int| 0 <= i < readings.len() ==> #[trigger] readings[i] is Ok
}

/// Whether `k` is the first URI of a list that could not be read.
pub open spec fn first_unread(readings: Seq<Result<String, UriPathError>>, k: int) -> bool {
    &&& 0 <= k < readings.len()
    &&& readings[k] is Err
    &&& forall|j: int| 0 <= j < k ==> #[trigger] readings[j] is Ok
}

/// The paths of a list of read URIs, in order; or why the first one that could not be
/// read was not.
pub open spec fn paths_reading(readings: Seq<Result<String, UriPathError>>) -> Result<
    Seq<Seq<char>>,
    UriPathError,
> {
    if all_read(readings) {
        Ok(readings.map_values(|r: Result<String, UriPathError>| r->Ok_0@))
    } else {
        Err(readings[choose|k: int| first_unread(readings, k)]->Err_0)
    }
}

/// The paths of a list of read URIs, in order; or why the first one that could not be read
/// was not.
pub fn paths_of_readings(readings: Vec<Result<String, UriPathError>>) -> (result: Result<
    Vec<String>,
    UriPathError,
>)
    ensures
        match paths_reading(readings@) {
            Ok(paths) => result matches Ok(p) && p@.map_values(|s: String| s@) == paths,
            Err(cause) => result == Err::<Vec<String>, UriPathError>(cause),
        },
{
    let mut paths: Vec<String> = Vec::new();
    let mut i: usize = 0;
    while i < readings.len()
        invariant
            0 <= i <= readings.len(),
            paths.len() == i,
            forall|j: int| 0 <= j < i ==> #[trigger] readings@[j] is Ok,
            forall|j: int| 0 <= j < i ==> #[trigger] paths@[j]@ == readings@[j]->Ok_0@,
        decreases readings.len() - i,
    {
        let failed = match &readings[i] {
            Ok(path) => {
                paths.push(path.clone());
                false
            },
            Err(_) => true,
        };
        if failed {
            proof {
                assert(first_unread(readings@, i as int));
                let k = choose|k: int| first_unread(readings@, k);
                if k < i {
                    assert(readings@[k] is Ok);
                } else if i < k {
                    assert(readings@[i as int] is Ok);
                }
            }
            let mut owned = readings;
            let reading = owned.remove(i);
            return match reading {
                Err(cause) => Err(cause),
                Ok(_) => Ok(paths),
            };
        }
        i = i + 1;
    }
    assert(paths@.map_values(|s: String| s@) =~= readings@.map_values(
        |r: Result<String, UriPathError>| r->Ok_0@,
    ));
    Ok(paths)
}

} // verus!
