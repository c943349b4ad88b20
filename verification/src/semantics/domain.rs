//! The domain a file belongs to: the one `dryguard.toml` declares for it, else its directory.
use vstd::prelude::*;

use crate::domain_declaration::{
    components_from_root, declared_domain, AmbiguousDomain, DeclaredDomain, DomainDeclarations,
    DomainName,
};
use crate::path::{components_of, is_absolute, join_components, joined};
use crate::syntax::module_distance::directory_components;
use crate::text::{chars_of, push_str, string_of};

verus! {

broadcast use crate::text::lemma_chars_deep_view;

/// A domain: declared by name, or read off a directory.
///
/// The two are kept apart even when spelled alike; a declared name and a directory of the
/// same spelling are different domains.
#[derive(Debug, Clone, PartialEq, Eq)]
pub enum Domain {
    /// Declared in `[domains]`.
    Declared(DomainName),
    /// The directory the file sits in, as spelled.
    Directory(String),
}

/// A domain as a value.
pub enum DomainView {
    Declared(Seq<char>),
    Directory(Seq<char>),
}

/// The directory a file sits in, spelled as a path (`Path::parent`).
pub open spec fn parent_spelling(path: Seq<char>) -> Seq<char> {
    joined(is_absolute(path), directory_components(path))
}

/// The domain of a file: its declaration, else its directory; `None` when two
/// declarations with different names claim it.
pub open spec fn file_domain(
    root_absolute: bool,
    root: Seq<Seq<char>>,
    names: Seq<Seq<char>>,
    globs: Seq<Seq<Seq<crate::domain_declaration::SegmentView>>>,
    path: Seq<char>,
) -> Option<DomainView> {
    match declared_domain(names, globs, components_from_root(root_absolute, root, path)) {
        DeclaredDomain::Undeclared => Some(DomainView::Directory(parent_spelling(path))),
        DeclaredDomain::Declared(name) => Some(DomainView::Declared(name)),
        DeclaredDomain::Ambiguous(_, _) => None,
    }
}

/// The domain of a file under the given declarations.
pub open spec fn domain_under(declarations: DomainDeclarations, path: Seq<char>) -> Option<DomainView> {
    file_domain(
        declarations.root_absolute_view(),
        declarations.root_view(),
        declarations.names_view(),
        declarations.globs_view(),
        path,
    )
}

/// How a domain is printed: a declared name marked `(宣言)`, else the directory.
pub open spec fn domain_text(d: DomainView) -> Seq<char> {
    match d {
        DomainView::Declared(name) => name + " (宣言)"@,
        DomainView::Directory(directory) => directory,
    }
}

impl Domain {
    pub open spec fn view(&self) -> DomainView {
        match self {
            Domain::Declared(name) => DomainView::Declared(name@),
            Domain::Directory(directory) => DomainView::Directory(directory@),
        }
    }

    /// The domain of a file.
    ///
    /// # Errors
    ///
    /// Two declarations with different names claim the file.
    pub fn of_file(path: &str, declarations: &DomainDeclarations) -> (domain: Result<Domain, AmbiguousDomain>)
        ensures
            match domain {
                Ok(d) => domain_under(*declarations, path@) == Some(d.view()),
                Err(a) => domain_under(*declarations, path@) is None && a.path_view() == path@,
            },
    {
        match declarations.declared_domain_of(path) {
            Err(ambiguous) => Err(ambiguous),
            Ok(Some(name)) => Ok(Domain::Declared(name.duplicate())),
            Ok(None) => {
                let chars = chars_of(path);
                let mut components = components_of(&chars);
                if components.len() > 0 {
                    components.pop();
                }
                let absolute = chars.len() > 0 && chars[0] == '/';
                assert(components.deep_view() =~= directory_components(path@));
                let parent = join_components(absolute, &components);
                Ok(Domain::Directory(string_of(&parent)))
            },
        }
    }

    /// A copy of this domain.
    pub fn duplicate(&self) -> (copy: Domain)
        ensures
            copy.view() == self.view(),
    {
        match self {
            Domain::Declared(name) => Domain::Declared(name.duplicate()),
            Domain::Directory(directory) => Domain::Directory(
                string_of(&chars_of(directory.as_str())),
            ),
        }
    }

    /// Whether the two are the same domain.
    pub fn same_as(&self, other: &Domain) -> (same: bool)
        ensures
            same == (self.view() == other.view()),
    {
        match (self, other) {
            (Domain::Declared(a), Domain::Declared(b)) => a.same_as(b),
            (Domain::Directory(a), Domain::Directory(b)) => {
                let same = crate::path::same_component(
                    &chars_of(a.as_str()),
                    &chars_of(b.as_str()),
                );
                same
            },
            _ => false,
        }
    }

    /// How the domain is printed: a declared name marked `(宣言)`, else the directory.
    ///
    /// The mark keeps a declared name apart from a directory spelled the same.
    pub fn text(&self) -> (t: String)
        ensures
            t@ == domain_text(self.view()),
    {
        match self {
            Domain::Declared(name) => {
                let mut out = chars_of(name.as_str());
                push_str(&mut out, " (宣言)");
                string_of(&out)
            },
            Domain::Directory(directory) => string_of(&chars_of(directory.as_str())),
        }
    }
}

} // verus!
