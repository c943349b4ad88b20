//! The workspace root a language server is started on: the deepest directory shared by
//! the files it is asked about, or the nearest one above it that holds a project marker.
use vstd::prelude::*;

use lsp_types::Uri;

use crate::lsp::uri::{
    absolute_components, absolute_components_of, climbs, file_uri_of, parsed_uri, uri_accepts, uri_fits,
    uri_text_of_path, AbsolutePathError, PathUriError,
};
use crate::path::{
    common_prefix_len, components_of, is_absolute, join_components, joined, path_components,
    shared_prefix_len,
};
use crate::text::{chars_of, lemma_chars_deep_view, string_of};

verus! {

broadcast use lemma_chars_deep_view;

/// A directory handed to a server as its workspace root, with its URI.
#[derive(Debug, PartialEq, Eq)]
pub struct WorkspaceRoot {
    directory: String,
    uri: Uri,
}

/// A workspace root, and whether a project marker chose it.
#[derive(Debug, PartialEq, Eq)]
pub enum ProjectRoot {
    /// The nearest directory above the files that holds a marker.
    Marked(WorkspaceRoot),
    /// No marker above the files: their deepest shared directory.
    Unmarked(WorkspaceRoot),
}

/// Why no workspace root could be chosen.
#[derive(Debug, PartialEq, Eq)]
pub enum WorkspaceError {
    /// No file was given.
    NoPaths,
    /// A path could not be made absolute.
    PathNotAbsolute { path: String, cause: AbsolutePathError },
    /// The directory has no URI.
    Uri(PathUriError),
}

/// The components of the directory of a file made absolute: all but the last, or none
/// for the root itself.
pub open spec fn parent_components(path: Seq<char>, current_directory: Seq<char>) -> Seq<Seq<char>> {
    let components = absolute_components(path, current_directory);
    if components.len() == 0 {
        components
    } else {
        components.drop_last()
    }
}

/// The components every list starts with.
pub open spec fn shared_components(lists: Seq<Seq<Seq<char>>>) -> Seq<Seq<char>>
    decreases lists.len(),
{
    if lists.len() == 0 {
        Seq::empty()
    } else if lists.len() == 1 {
        lists[0]
    } else {
        let before = shared_components(lists.drop_last());
        before.take(common_prefix_len(before, lists.last()) as int)
    }
}

/// The deepest directory that holds each of the files, each made absolute against
/// `current_directory`.
pub open spec fn enclosing_directory(paths: Seq<Seq<char>>, current_directory: Seq<char>) -> Seq<char> {
    joined(
        true,
        shared_components(
            paths.map_values(|p: Seq<char>| parent_components(p, current_directory)),
        ),
    )
}

impl WorkspaceRoot {
    /// The URI is the one the directory's path spells.
    #[verifier::type_invariant]
    closed spec fn named_by_directory(self) -> bool {
        parsed_uri(uri_text_of_path(self.directory@)) == Some(self.uri)
    }

    pub closed spec fn directory_view(&self) -> Seq<char> {
        self.directory@
    }

    /// The directory.
    pub fn directory(&self) -> (directory: &str)
        ensures
            directory@ == self.directory_view(),
    {
        self.directory.as_str()
    }

    /// The URI of the directory.
    pub fn uri(&self) -> (uri: &Uri)
        ensures
            parsed_uri(uri_text_of_path(self.directory_view())) == Some(*uri),
    {
        proof {
            use_type_invariant(self);
        }
        &self.uri
    }

    /// The root at a directory.
    ///
    /// # Errors
    ///
    /// The directory has no URI.
    pub fn at(directory: &str) -> (result: Result<WorkspaceRoot, WorkspaceError>)
        requires
            uri_fits(directory@),
        ensures
            match result {
                Ok(root) => root.directory_view() == directory@ && is_absolute(directory@)
                    && !climbs(directory@) && uri_accepts(uri_text_of_path(directory@)),
                Err(WorkspaceError::Uri(_)) => !is_absolute(directory@) || climbs(directory@)
                    || !uri_accepts(uri_text_of_path(directory@)),
                Err(_) => false,
            },
    {
        match file_uri_of(directory) {
            Ok(uri) => Ok(WorkspaceRoot { directory: string_of(&chars_of(directory)), uri }),
            Err(error) => Err(WorkspaceError::Uri(error)),
        }
    }

    /// The root enclosing every file: the deepest directory holding them all, the files made
    /// absolute against `current_directory` without looking at the file system.
    ///
    /// # Errors
    ///
    /// No file is given; a path is empty; the directory has no URI.
    pub fn enclosing(paths: &Vec<String>, current_directory: &str) -> (result: Result<
        WorkspaceRoot,
        WorkspaceError,
    >)
        requires
            uri_fits(enclosing_directory(paths.deep_view(), current_directory@)),
        ensures
            paths@.len() == 0 ==> result == Err::<WorkspaceRoot, WorkspaceError>(
                WorkspaceError::NoPaths,
            ),
            result matches Ok(root) ==> root.directory_view() == enclosing_directory(
                paths.deep_view(),
                current_directory@,
            ),
            (paths@.len() > 0 && forall|i: int| 0 <= i < paths@.len() ==> paths@[i]@.len() > 0)
                ==> (result is Ok || result matches Err(WorkspaceError::Uri(_))),
    {
        let directory = match common_ancestor_directory_of(paths, current_directory) {
            Ok(directory) => directory,
            Err(error) => {
                return Err(error);
            },
        };
        WorkspaceRoot::at(directory.as_str())
    }
}

/// The directories from `directory` up to the root, nearest first.
pub open spec fn ancestors(directory: Seq<char>) -> Seq<Seq<char>> {
    let components = path_components(directory);
    Seq::new(components.len() + 1, |i: int| joined(true, components.take(components.len() - i)))
}

/// The directories from an absolute `directory` up to the root, nearest first.
pub fn ancestors_of(directory: &str) -> (ancestors_found: Vec<String>)
    ensures
        ancestors_found.deep_view() == ancestors(directory@),
{
    let components = components_of(&chars_of(directory));
    let ghost whole = components.deep_view();
    let mut kept = components.len();
    let mut current = components;
    let mut found: Vec<String> = Vec::new();
    found.push(string_of(&join_components(true, &current)));
    assert(whole.take(kept as int) =~= whole);
    while kept > 0
        invariant
            kept == current@.len(),
            kept <= whole.len(),
            current.deep_view() == whole.take(kept as int),
            found@.len() == whole.len() - kept + 1,
            forall|i: int|
                0 <= i < found@.len() ==> #[trigger] found@[i]@ == joined(
                    true,
                    whole.take(whole.len() - i),
                ),
        decreases kept,
    {
        current.pop();
        kept = kept - 1;
        assert(current.deep_view() =~= whole.take(kept as int));
        found.push(string_of(&join_components(true, &current)));
    }
    assert(found.deep_view() =~= ancestors(directory@));
    found
}

/// The root for the files: the nearest directory at or above their shared directory that
/// holds a project marker, else the shared directory. `marked[i]` says whether the `i`-th
/// of [`ancestors_of`] the shared directory holds a marker, as looked up on disk.
///
/// # Errors
///
/// As [`WorkspaceRoot::enclosing`].
pub fn enclosing_project(
    paths: &Vec<String>,
    current_directory: &str,
    marked: &Vec<bool>,
) -> (result: Result<ProjectRoot, WorkspaceError>)
    requires
        uri_fits(enclosing_directory(paths.deep_view(), current_directory@)),
        forall|i: int|
            0 <= i < ancestors(enclosing_directory(paths.deep_view(), current_directory@)).len()
                ==> uri_fits(
                #[trigger] ancestors(enclosing_directory(paths.deep_view(), current_directory@))[i],
            ),
    ensures
        paths@.len() == 0 ==> result == Err::<ProjectRoot, WorkspaceError>(WorkspaceError::NoPaths),
        result matches Ok(ProjectRoot::Unmarked(root)) ==> root.directory_view()
            == enclosing_directory(paths.deep_view(), current_directory@) && forall|i: int|
            0 <= i < marked@.len() && i < ancestors(
                enclosing_directory(paths.deep_view(), current_directory@),
            ).len() ==> !marked@[i],
        result matches Ok(ProjectRoot::Marked(root)) ==> exists|i: int|
            0 <= i < marked@.len() && i < ancestors(
                enclosing_directory(paths.deep_view(), current_directory@),
            ).len() && marked@[i] && root.directory_view() == ancestors(
                enclosing_directory(paths.deep_view(), current_directory@),
            )[i] && forall|j: int| 0 <= j < i ==> !marked@[j],
{
    let ancestor = match common_ancestor_directory_of(paths, current_directory) {
        Ok(directory) => directory,
        Err(error) => {
            return Err(error);
        },
    };
    let candidates = ancestors_of(ancestor.as_str());
    let mut i: usize = 0;
    while i < candidates.len() && i < marked.len()
        invariant
            0 <= i <= candidates@.len(),
            paths@.len() > 0,
            ancestor@ == enclosing_directory(paths.deep_view(), current_directory@),
            candidates.deep_view() == ancestors(ancestor@),
            forall|j: int| 0 <= j < i ==> !marked@[j],
            forall|j: int|
                0 <= j < ancestors(ancestor@).len() ==> uri_fits(#[trigger] ancestors(ancestor@)[j]),
        decreases candidates@.len() - i,
    {
        if marked[i] {
            assert(candidates.deep_view()[i as int] == candidates@[i as int]@);
            assert(i < ancestors(ancestor@).len());
            return match WorkspaceRoot::at(candidates[i].as_str()) {
                Ok(root) => Ok(ProjectRoot::Marked(root)),
                Err(error) => Err(error),
            };
        }
        i = i + 1;
    }
    match WorkspaceRoot::at(ancestor.as_str()) {
        Ok(root) => Ok(ProjectRoot::Unmarked(root)),
        Err(error) => Err(error),
    }
}

impl ProjectRoot {
    /// The root, marked or not.
    pub fn workspace_root(&self) -> (root: &WorkspaceRoot)
        ensures
            match self {
                ProjectRoot::Marked(r) => root == r,
                ProjectRoot::Unmarked(r) => root == r,
            },
    {
        match self {
            ProjectRoot::Marked(root) => root,
            ProjectRoot::Unmarked(root) => root,
        }
    }
}

/// The deepest directory holding every file, each made absolute first.
fn common_ancestor_directory_of(paths: &Vec<String>, current_directory: &str) -> (result: Result<
    String,
    WorkspaceError,
>)
    ensures
        paths@.len() == 0 ==> result == Err::<String, WorkspaceError>(WorkspaceError::NoPaths),
        result matches Ok(d) ==> d@ == enclosing_directory(paths.deep_view(), current_directory@),
        result matches Err(WorkspaceError::Uri(_)) ==> false,
        (paths@.len() > 0 && forall|i: int| 0 <= i < paths@.len() ==> paths@[i]@.len() > 0)
            ==> result is Ok,
{
    if paths.len() == 0 {
        return Err(WorkspaceError::NoPaths);
    }
    let ghost lists = paths.deep_view().map_values(
        |p: Seq<char>| parent_components(p, current_directory@),
    );
    let mut shared: Vec<Vec<char>> = Vec::new();
    let mut i: usize = 0;
    while i < paths.len()
        invariant
            0 <= i <= paths@.len(),
            paths@.len() > 0,
            lists == paths.deep_view().map_values(
                |p: Seq<char>| parent_components(p, current_directory@),
            ),
            i > 0 ==> shared.deep_view() == shared_components(lists.take(i as int)),
            forall|j: int| 0 <= j < i ==> paths@[j]@.len() > 0,
        decreases paths@.len() - i,
    {
        assert(paths.deep_view()[i as int] == paths@[i as int]@);
        let mut components = match absolute_components_of(paths[i].as_str(), current_directory) {
            Ok(components) => components,
            Err(cause) => {
                return Err(
                    WorkspaceError::PathNotAbsolute {
                        path: string_of(&chars_of(paths[i].as_str())),
                        cause,
                    },
                );
            },
        };
        if components.len() > 0 {
            components.pop();
        }
        assert(components.deep_view() =~= lists[i as int]);
        assert(lists.take(i + 1).drop_last() =~= lists.take(i as int));
        if i == 0 {
            shared = components;
        } else {
            proof {
                crate::path::lemma_common_prefix_len(shared.deep_view(), components.deep_view());
            }
            let keep = shared_prefix_len(&shared, &components);
            shared.truncate(keep);
            assert(shared.deep_view() =~= shared_components(lists.take(i + 1)));
        }
        i = i + 1;
    }
    assert(lists.take(i as int) =~= lists);
    Ok(string_of(&join_components(true, &shared)))
}

/// Whether `prefix` starts every list.
pub open spec fn starts_every(prefix: Seq<Seq<char>>, lists: Seq<Seq<Seq<char>>>) -> bool {
    forall|i: int|
        0 <= i < lists.len() ==> prefix.len() <= (#[trigger] lists[i]).len() && lists[i].take(
            prefix.len() as int,
        ) == prefix
}

/// The shared components are the longest run of components every list starts with: they
/// start every list, and anything that starts every list is no longer (so a root is the
/// deepest directory shared, compared component by component, not character by character).
pub proof fn lemma_shared_components_is_the_longest_common_prefix(lists: Seq<Seq<Seq<char>>>)
    requires
        lists.len() > 0,
    ensures
        starts_every(shared_components(lists), lists),
        forall|prefix: Seq<Seq<char>>|
            #[trigger] starts_every(prefix, lists) ==> prefix.len() <= shared_components(lists).len(),
    decreases lists.len(),
{
    if lists.len() == 1 {
        assert(lists[0].take(lists[0].len() as int) =~= lists[0]);
        assert forall|prefix: Seq<Seq<char>>| #[trigger] starts_every(prefix, lists) implies prefix.len()
            <= shared_components(lists).len() by {
            assert(prefix.len() <= lists[0].len());
        }
    } else {
        let rest = lists.drop_last();
        let last = lists.last();
        lemma_shared_components_is_the_longest_common_prefix(rest);
        let before = shared_components(rest);
        let k = common_prefix_len(before, last);
        crate::path::lemma_common_prefix_len(before, last);
        let shared = before.take(k as int);
        assert(shared_components(lists) == shared);
        assert forall|i: int| 0 <= i < lists.len() implies shared.len() <= (
        #[trigger] lists[i]).len() && lists[i].take(shared.len() as int) == shared by {
            if i < lists.len() - 1 {
                assert(rest[i] == lists[i]);
                assert(lists[i].take(before.len() as int) == before);
                assert(lists[i].take(k as int) =~= before.take(k as int));
            } else {
                assert(lists[i] == last);
                assert(last.take(k as int) =~= before.take(k as int));
            }
        }
        assert forall|prefix: Seq<Seq<char>>| #[trigger] starts_every(prefix, lists) implies prefix.len()
            <= shared.len() by {
            assert(starts_every(prefix, rest)) by {
                assert forall|i: int| 0 <= i < rest.len() implies prefix.len() <= (
                #[trigger] rest[i]).len() && rest[i].take(prefix.len() as int) == prefix by {
                    assert(rest[i] == lists[i]);
                }
            }
            assert(prefix.len() <= before.len());
            assert(lists[0] == rest[0]);
            assert(rest[0].take(before.len() as int) == before);
            assert(rest[0].take(prefix.len() as int) == prefix);
            assert(lists[lists.len() - 1] == last);
            assert(last.take(prefix.len() as int) == prefix);
            if k < prefix.len() {
                assert(before[k as int] == rest[0].take(before.len() as int)[k as int]);
                assert(before[k as int] == prefix[k as int]) by {
                    assert(rest[0].take(prefix.len() as int)[k as int] == rest[0][k as int]);
                }
                assert(last[k as int] == prefix[k as int]) by {
                    assert(last.take(prefix.len() as int)[k as int] == last[k as int]);
                }
            }
        }
    }
}

} // verus!
