//! Which files of a directory tree are read as TypeScript, and in what order.
//!
//! The walk itself is driven from outside, one directory at a time: this state says which
//! directory to list next and takes back what was in it, so that what is read from disk
//! stays out of the decisions.
use vstd::prelude::*;

use crate::domain_declaration::ends_with;
use crate::text::{chars_of, lemma_chars_deep_view, push_str, string_of};

verus! {

broadcast use lemma_chars_deep_view;

/// What an entry of a directory is, as the entry itself says (a link is neither).
#[derive(Debug, Clone, Copy, PartialEq, Eq)]
pub enum EntryKind {
    Directory,
    File,
    Other,
}

/// One entry of a listed directory: its name and what it is.
#[derive(Debug, Clone, PartialEq, Eq)]
pub struct DirectoryEntry {
    pub name: String,
    pub kind: EntryKind,
}

/// Directories never walked into: dependencies, build outputs and version control.
pub open spec fn is_excluded_name(name: Seq<char>) -> bool {
    name == "node_modules"@ || name == "dist"@ || name == "build"@ || name == "target"@ || name
        == ".git"@
}

/// A file read as TypeScript: `.ts` or `.tsx`.
pub open spec fn is_typescript_name(name: Seq<char>) -> bool {
    ends_with(name, ".ts"@) || ends_with(name, ".tsx"@)
}

/// The path of an entry of `directory`.
pub open spec fn child_path(directory: Seq<char>, name: Seq<char>) -> Seq<char> {
    if directory.len() > 0 && directory.last() == '/' {
        directory + name
    } else {
        directory + seq!['/'] + name
    }
}

/// Whether `a` sorts before `b` in a path: a separator before every character, other
/// characters by code point.
pub open spec fn char_precedes(a: char, b: char) -> bool {
    if a == '/' {
        b != '/'
    } else if b == '/' {
        false
    } else {
        a < b
    }
}

/// Path order: the first differing character decides, a separator sorting first, and a
/// path before every longer path it begins. This is component by component order.
pub open spec fn path_precedes(a: Seq<char>, b: Seq<char>) -> bool
    decreases a.len(),
{
    if a.len() == 0 {
        b.len() > 0
    } else if b.len() == 0 {
        false
    } else if a[0] != b[0] {
        char_precedes(a[0], b[0])
    } else {
        path_precedes(a.drop_first(), b.drop_first())
    }
}

/// Strictly increasing in path order.
pub open spec fn in_path_order(paths: Seq<Seq<char>>) -> bool {
    forall|i: int, j: int| 0 <= i < j < paths.len() ==> path_precedes(paths[i], paths[j])
}

pub proof fn lemma_precedes_irreflexive(a: Seq<char>)
    ensures
        !path_precedes(a, a),
    decreases a.len(),
{
    if a.len() > 0 {
        lemma_precedes_irreflexive(a.drop_first());
    }
}

pub proof fn lemma_precedes_transitive(a: Seq<char>, b: Seq<char>, c: Seq<char>)
    requires
        path_precedes(a, b),
        path_precedes(b, c),
    ensures
        path_precedes(a, c),
    decreases a.len(),
{
    if a.len() > 0 && b.len() > 0 && c.len() > 0 && a[0] == b[0] && b[0] == c[0] {
        lemma_precedes_transitive(a.drop_first(), b.drop_first(), c.drop_first());
    }
}

pub proof fn lemma_precedes_total(a: Seq<char>, b: Seq<char>)
    requires
        a != b,
    ensures
        path_precedes(a, b) || path_precedes(b, a),
    decreases a.len(),
{
    if a.len() > 0 && b.len() > 0 {
        if a[0] == b[0] {
            assert(a.drop_first() != b.drop_first()) by {
                if a.drop_first() == b.drop_first() {
                    assert(a =~= seq![a[0]] + a.drop_first());
                    assert(b =~= seq![b[0]] + b.drop_first());
                }
            }
            lemma_precedes_total(a.drop_first(), b.drop_first());
        }
    } else if a.len() == 0 && b.len() == 0 {
        assert(a =~= b);
    }
}

/// Whether `a` comes before `b` in path order.
fn precedes(a: &Vec<char>, b: &Vec<char>) -> (before: bool)
    ensures
        before == path_precedes(a@, b@),
{
    let mut i: usize = 0;
    assert(a@.skip(0) =~= a@);
    assert(b@.skip(0) =~= b@);
    while i < a.len() && i < b.len() && a[i] == b[i]
        invariant
            0 <= i <= a@.len(),
            i <= b@.len(),
            forall|j: int| 0 <= j < i ==> a@[j] == b@[j],
            path_precedes(a@, b@) == path_precedes(a@.skip(i as int), b@.skip(i as int)),
        decreases a@.len() - i,
    {
        assert(a@.skip(i as int).drop_first() =~= a@.skip(i + 1));
        assert(b@.skip(i as int).drop_first() =~= b@.skip(i + 1));
        i = i + 1;
    }
    if i == a.len() {
        return i < b.len();
    }
    if i == b.len() {
        return false;
    }
    assert(a@.skip(i as int)[0] == a@[i as int]);
    assert(b@.skip(i as int)[0] == b@[i as int]);
    if a[i] == '/' {
        b[i] != '/'
    } else if b[i] == '/' {
        false
    } else {
        a[i] < b[i]
    }
}

/// Why a codebase could not be walked.
#[derive(Debug, PartialEq, Eq)]
pub enum CodebaseError {
    /// What the walk was to start at is no directory (or is not there).
    RootNotADirectory { root: String },
    /// A directory on the way could not be listed; `cause` is the file system's account.
    DirectoryUnreadable { directory: String, cause: String },
}

/// A walk over a directory tree collecting the TypeScript files, in path order.
#[derive(Debug)]
pub struct TypescriptWalk {
    pending: Vec<String>,
    found: Vec<String>,
}

impl TypescriptWalk {
    /// The files found are kept in path order.
    pub open spec fn wf(&self) -> bool {
        in_path_order(self.found_view())
    }

    pub closed spec fn pending_view(&self) -> Seq<Seq<char>> {
        self.pending.deep_view()
    }

    pub closed spec fn found_view(&self) -> Seq<Seq<char>> {
        self.found.deep_view()
    }

    /// A walk that starts at `root`.
    pub fn new(root: &str) -> (walk: TypescriptWalk)
        ensures
            walk.wf(),
            walk.pending_view() == seq![root@],
            walk.found_view() == Seq::<Seq<char>>::empty(),
    {
        let mut pending: Vec<String> = Vec::new();
        pending.push(string_of(&chars_of(root)));
        let walk = TypescriptWalk { pending, found: Vec::new() };
        assert(walk.pending_view() =~= seq![root@]);
        assert(walk.found_view() =~= Seq::<Seq<char>>::empty());
        walk
    }

    /// A walk that starts at `root`, given whether `root` is a directory (not following a
    /// link).
    ///
    /// # Errors
    ///
    /// `root` is no directory.
    pub fn start(root: &str, root_is_directory: bool) -> (result: Result<TypescriptWalk, CodebaseError>)
        ensures
            !root_is_directory ==> (result matches Err(CodebaseError::RootNotADirectory { root: r })
                && r@ == root@),
            root_is_directory ==> (result matches Ok(walk) && walk.wf() && walk.pending_view()
                == seq![root@] && walk.found_view() == Seq::<Seq<char>>::empty()),
    {
        if !root_is_directory {
            return Err(CodebaseError::RootNotADirectory { root: string_of(&chars_of(root)) });
        }
        Ok(TypescriptWalk::new(root))
    }

    /// The next directory to list, taken off the walk; `None` when every directory was.
    pub fn next_directory(&mut self) -> (directory: Option<String>)
        ensures
            final(self).found_view() == old(self).found_view(),
            old(self).wf() ==> final(self).wf(),
            old(self).pending_view().len() == 0 ==> (directory is None
                && final(self).pending_view() == old(self).pending_view()),
            old(self).pending_view().len() > 0 ==> (directory matches Some(d)
                && d@ == old(self).pending_view().last()
                && final(self).pending_view() == old(self).pending_view().drop_last()),
    {
        let directory = self.pending.pop();
        assert(self.pending.deep_view() =~= old(self).pending_view().take(
            self.pending@.len() as int,
        ));
        directory
    }

    /// Takes what `directory` holds: subdirectories to walk (all but the excluded ones, in
    /// the order listed) and TypeScript files to keep.
    pub fn visit(&mut self, directory: &str, entries: &Vec<DirectoryEntry>)
        requires
            old(self).wf(),
        ensures
            final(self).wf(),
            final(self).pending_view() == old(self).pending_view() + walked_children(
                directory@,
                entries@,
            ),
            final(self).found_view().to_set() == old(self).found_view().to_set() + typescript_children(
                directory@,
                entries@,
            ),
            in_path_order(final(self).found_view()),
    {
        let mut i: usize = 0;
        while i < entries.len()
            invariant
                0 <= i <= entries@.len(),
                self.pending_view() == old(self).pending_view() + walked_children(
                    directory@,
                    entries@.take(i as int),
                ),
                self.found_view().to_set() == old(self).found_view().to_set()
                    + typescript_children(directory@, entries@.take(i as int)),
                in_path_order(self.found_view()),
            decreases entries@.len() - i,
        {
            proof {
                assert(entries@.take(i + 1).drop_last() =~= entries@.take(i as int));
            }
            let entry = &entries[i];
            let name = chars_of(entry.name.as_str());
            let path = child_path_of(directory, &name);
            match entry.kind {
                EntryKind::Directory => {
                    if !is_excluded(&name) {
                        let ghost prior = self.pending_view();
                        self.pending.push(string_of(&path));
                        assert(self.pending_view() =~= prior.push(path@));
                    }
                },
                EntryKind::File => {
                    if is_typescript(&name) {
                        self.insert(path);
                    }
                },
                EntryKind::Other => {},
            }
            i = i + 1;
            proof {
                lemma_children_step(directory@, entries@.take(i as int));
            }
            assert(self.found_view().to_set() =~= old(self).found_view().to_set()
                + typescript_children(directory@, entries@.take(i as int)));
        }
        assert(entries@.take(i as int) =~= entries@);
    }

    /// Adds a path, keeping path order; a path already found stays once.
    fn insert(&mut self, path: Vec<char>)
        requires
            in_path_order(old(self).found_view()),
        ensures
            final(self).pending_view() == old(self).pending_view(),
            final(self).found_view().to_set() == old(self).found_view().to_set().insert(path@),
            in_path_order(final(self).found_view()),
    {
        let ghost found = self.found_view();
        let mut k: usize = 0;
        while k < self.found.len() && precedes(&chars_of(self.found[k].as_str()), &path)
            invariant
                0 <= k <= found.len(),
                found == self.found_view(),
                in_path_order(found),
                forall|j: int| 0 <= j < k ==> path_precedes(#[trigger] found[j], path@),
            decreases found.len() - k,
        {
            assert(found[k as int] == self.found@[k as int]@);
            k = k + 1;
        }
        if k < self.found.len() {
            let existing = chars_of(self.found[k].as_str());
            if crate::path::same_component(&existing, &path) {
                assert(found.to_set() =~= found.to_set().insert(path@)) by {
                    assert(found[k as int] == path@);
                }
                return;
            }
            proof {
                assert(found[k as int] == existing@);
                lemma_precedes_total(found[k as int], path@);
            }
            assert(path_precedes(path@, found[k as int]));
        }
        proof {
            assert forall|j: int| k <= j < found.len() implies path_precedes(path@, #[trigger] found[j]) by {
                if j > k {
                    lemma_precedes_transitive(path@, found[k as int], found[j]);
                }
            }
        }
        self.found.insert(k, string_of(&path));
        proof {
            let now = self.found_view();
            assert(now =~= found.take(k as int).push(path@) + found.skip(k as int));
            assert forall|i: int, j: int| 0 <= i < j < now.len() implies path_precedes(now[i], now[j]) by {
                if j == k {
                } else if i == k {
                } else if i < k && j > k {
                    lemma_precedes_transitive(now[i], path@, now[j]);
                } else {
                }
            }
            assert(now.to_set() =~= found.to_set().insert(path@)) by {
                assert forall|x: Seq<char>| now.to_set().contains(x) <==> found.to_set().insert(path@).contains(x) by {
                    if now.to_set().contains(x) {
                        let i = choose|i: int| 0 <= i < now.len() && now[i] == x;
                        if i > k {
                            assert(found[i - 1] == x);
                        } else if i < k {
                            assert(found[i] == x);
                        }
                    }
                    if found.to_set().contains(x) {
                        let i = choose|i: int| 0 <= i < found.len() && found[i] == x;
                        if i >= k {
                            assert(now[i + 1] == x);
                        } else {
                            assert(now[i] == x);
                        }
                    }
                    if x == path@ {
                        assert(now[k as int] == x);
                    }
                }
            }
        }
    }

    /// The TypeScript files found, in path order.
    pub fn paths(&self) -> (paths: Vec<String>)
        ensures
            paths.deep_view() == self.found_view(),
            self.wf() ==> in_path_order(paths.deep_view()),
    {
        let mut paths: Vec<String> = Vec::new();
        let mut i: usize = 0;
        while i < self.found.len()
            invariant
                0 <= i <= self.found@.len(),
                paths.deep_view() == self.found.deep_view().take(i as int),
            decreases self.found@.len() - i,
        {
            let ghost prior = paths.deep_view();
            paths.push(self.found[i].clone());
            i = i + 1;
            assert(paths.deep_view() =~= self.found.deep_view().take(i as int)) by {
                assert(paths.deep_view() =~= prior.push(self.found@[i - 1]@));
            }
        }
        assert(self.found.deep_view().take(i as int) =~= self.found.deep_view());
        paths
    }
}

/// The subdirectories of `directory` to walk, in the order listed.
pub open spec fn walked_children(directory: Seq<char>, entries: Seq<DirectoryEntry>) -> Seq<Seq<char>>
    decreases entries.len(),
{
    if entries.len() == 0 {
        Seq::empty()
    } else {
        let before = walked_children(directory, entries.drop_last());
        let e = entries.last();
        if e.kind == EntryKind::Directory && !is_excluded_name(e.name@) {
            before.push(child_path(directory, e.name@))
        } else {
            before
        }
    }
}

/// The TypeScript files among the entries of `directory`.
pub open spec fn typescript_children(directory: Seq<char>, entries: Seq<DirectoryEntry>) -> Set<Seq<char>>
    decreases entries.len(),
{
    if entries.len() == 0 {
        Set::empty()
    } else {
        let before = typescript_children(directory, entries.drop_last());
        let e = entries.last();
        if e.kind == EntryKind::File && is_typescript_name(e.name@) {
            before.insert(child_path(directory, e.name@))
        } else {
            before
        }
    }
}

proof fn lemma_children_step(directory: Seq<char>, entries: Seq<DirectoryEntry>)
    requires
        entries.len() > 0,
    ensures
        typescript_children(directory, entries) == if entries.last().kind == EntryKind::File
            && is_typescript_name(entries.last().name@) {
            typescript_children(directory, entries.drop_last()).insert(
                child_path(directory, entries.last().name@),
            )
        } else {
            typescript_children(directory, entries.drop_last())
        },
{
}

/// The path of an entry of `directory`.
fn child_path_of(directory: &str, name: &Vec<char>) -> (path: Vec<char>)
    ensures
        path@ == child_path(directory@, name@),
{
    let mut path = chars_of(directory);
    if !(path.len() > 0 && path[path.len() - 1] == '/') {
        path.push('/');
    }
    crate::text::push_all(&mut path, name.as_slice());
    path
}

/// Whether a directory of this name is left out of the walk.
fn is_excluded(name: &Vec<char>) -> (excluded: bool)
    ensures
        excluded == is_excluded_name(name@),
{
    crate::text::spells(name, "node_modules") || crate::text::spells(name, "dist")
        || crate::text::spells(name, "build") || crate::text::spells(name, "target")
        || crate::text::spells(name, ".git")
}

/// Whether a file of this name is read as TypeScript.
fn is_typescript(name: &Vec<char>) -> (typescript: bool)
    ensures
        typescript == is_typescript_name(name@),
{
    ends_with_text(name, ".ts") || ends_with_text(name, ".tsx")
}

/// Whether the characters end with `suffix`.
fn ends_with_text(s: &Vec<char>, suffix: &str) -> (ends: bool)
    ensures
        ends == ends_with(s@, suffix@),
{
    let tail = chars_of(suffix);
    if tail.len() > s.len() {
        return false;
    }
    let length = s.len();
    let start = length - tail.len();
    let mut i: usize = 0;
    while i < tail.len()
        invariant
            0 <= i <= tail@.len(),
            length == s@.len(),
            start + tail@.len() == s@.len(),
            tail@ == suffix@,
            forall|j: int| 0 <= j < i ==> s@[start + j] == tail@[j],
        decreases tail@.len() - i,
    {
        if s[start + i] != tail[i] {
            assert(s@.skip(start as int)[i as int] != suffix@[i as int]);
            return false;
        }
        i = i + 1;
    }
    assert(s@.skip(start as int) =~= suffix@);
    true
}

/// Whether `path` is a subdirectory of `directory` the walk goes into: an entry that says
/// it is a directory (a link does not), not one of the excluded names.
pub open spec fn walked_into(directory: Seq<char>, entry: DirectoryEntry, path: Seq<char>) -> bool {
    entry.kind == EntryKind::Directory && !is_excluded_name(entry.name@) && path == child_path(
        directory,
        entry.name@,
    )
}

/// Whether `path` is a file of `directory` the walk keeps: an entry that says it is a file
/// (a link does not), named `.ts` or `.tsx`.
pub open spec fn kept_file(directory: Seq<char>, entry: DirectoryEntry, path: Seq<char>) -> bool {
    entry.kind == EntryKind::File && is_typescript_name(entry.name@) && path == child_path(
        directory,
        entry.name@,
    )
}

/// Whether the listing of `from` holds a subdirectory `to` the walk goes into.
pub open spec fn steps_into(listing: Map<Seq<char>, Seq<DirectoryEntry>>, from: Seq<char>, to: Seq<char>) -> bool {
    exists|i: int| 0 <= i < listing[from].len() && walked_into(from, #[trigger] listing[from][i], to)
}

/// Whether the listing of `directory` holds a file `path` the walk keeps.
pub open spec fn holds_file(listing: Map<Seq<char>, Seq<DirectoryEntry>>, directory: Seq<char>, path: Seq<char>) -> bool {
    exists|i: int|
        0 <= i < listing[directory].len() && kept_file(directory, #[trigger] listing[directory][i], path)
}

/// A chain of listed directories, each next one a subdirectory of the one before that the
/// walk goes into.
pub open spec fn walk_chain(listing: Map<Seq<char>, Seq<DirectoryEntry>>, chain: Seq<Seq<char>>) -> bool {
    &&& chain.len() > 0
    &&& forall|k: int| 0 <= k < chain.len() ==> listing.contains_key(#[trigger] chain[k])
    &&& forall|k: int|
        0 <= k < chain.len() - 1 ==> #[trigger] steps_into(listing, chain[k], chain[k + 1])
}

/// Whether `path` is a TypeScript file reachable from `from`: kept by a directory at the end
/// of a chain of walked directories starting at `from`.
pub open spec fn reached_file(listing: Map<Seq<char>, Seq<DirectoryEntry>>, from: Seq<char>, path: Seq<char>) -> bool {
    exists|chain: Seq<Seq<char>>|
        #[trigger] walk_chain(listing, chain) && chain[0] == from && holds_file(
            listing,
            chain.last(),
            path,
        )
}

/// What a walk comes to when each directory it asks for is listed as `listing` says: the
/// walk takes the last pending directory, goes on into its walked subdirectories and keeps
/// its TypeScript files (as [`TypescriptWalk::next_directory`] and [`TypescriptWalk::visit`]
/// do); `None` where a directory is not listed, or where `fuel` steps do not finish it.
pub open spec fn walk_outcome(
    listing: Map<Seq<char>, Seq<DirectoryEntry>>,
    pending: Seq<Seq<char>>,
    found: Set<Seq<char>>,
    fuel: nat,
) -> Option<Set<Seq<char>>>
    decreases fuel,
{
    if pending.len() == 0 {
        Some(found)
    } else if fuel == 0 || !listing.contains_key(pending.last()) {
        None
    } else {
        let directory = pending.last();
        walk_outcome(
            listing,
            pending.drop_last() + walked_children(directory, listing[directory]),
            found + typescript_children(directory, listing[directory]),
            (fuel - 1) as nat,
        )
    }
}

/// The walked subdirectories listed are those the walk goes into.
proof fn lemma_walked_children_are_walked_into(directory: Seq<char>, entries: Seq<DirectoryEntry>, path: Seq<char>)
    ensures
        walked_children(directory, entries).contains(path) <==> exists|i: int|
            0 <= i < entries.len() && walked_into(directory, #[trigger] entries[i], path),
    decreases entries.len(),
{
    if entries.len() > 0 {
        let rest = entries.drop_last();
        lemma_walked_children_are_walked_into(directory, rest, path);
        let before = walked_children(directory, rest);
        if exists|i: int| 0 <= i < entries.len() && walked_into(directory, #[trigger] entries[i], path) {
            let i = choose|i: int| 0 <= i < entries.len() && walked_into(directory, #[trigger] entries[i], path);
            if i < entries.len() - 1 {
                assert(rest[i] == entries[i]);
                assert(before.contains(path));
                if entries.last().kind == EntryKind::Directory && !is_excluded_name(entries.last().name@) {
                    let k = choose|k: int| 0 <= k < before.len() && before[k] == path;
                    assert(walked_children(directory, entries)[k] == path);
                }
            } else {
                assert(walked_children(directory, entries).last() == path);
            }
        }
        if walked_children(directory, entries).contains(path) {
            let k = choose|k: int|
                0 <= k < walked_children(directory, entries).len() && walked_children(directory, entries)[k] == path;
            if k < before.len() {
                assert(before[k] == path);
                let i = choose|i: int| 0 <= i < rest.len() && walked_into(directory, #[trigger] rest[i], path);
                assert(entries[i] == rest[i]);
            } else {
                assert(walked_into(directory, entries[entries.len() - 1], path));
            }
        }
    }
}

/// The TypeScript files listed are those the walk keeps.
proof fn lemma_typescript_children_are_kept(directory: Seq<char>, entries: Seq<DirectoryEntry>, path: Seq<char>)
    ensures
        typescript_children(directory, entries).contains(path) <==> exists|i: int|
            0 <= i < entries.len() && kept_file(directory, #[trigger] entries[i], path),
    decreases entries.len(),
{
    if entries.len() > 0 {
        let rest = entries.drop_last();
        lemma_typescript_children_are_kept(directory, rest, path);
        if exists|i: int| 0 <= i < entries.len() && kept_file(directory, #[trigger] entries[i], path) {
            let i = choose|i: int| 0 <= i < entries.len() && kept_file(directory, #[trigger] entries[i], path);
            if i < entries.len() - 1 {
                assert(rest[i] == entries[i]);
            }
        }
        if typescript_children(directory, rest).contains(path) {
            let i = choose|i: int| 0 <= i < rest.len() && kept_file(directory, #[trigger] rest[i], path);
            assert(entries[i] == rest[i]);
        }
    }
}

/// A file is reachable from a listed directory when the directory keeps it, or when it is
/// reachable from a subdirectory the walk goes into.
proof fn lemma_reached_from_a_directory(
    listing: Map<Seq<char>, Seq<DirectoryEntry>>,
    directory: Seq<char>,
    path: Seq<char>,
)
    requires
        listing.contains_key(directory),
    ensures
        reached_file(listing, directory, path) <==> holds_file(listing, directory, path) || exists|child: Seq<char>|
            #[trigger] steps_into(listing, directory, child) && reached_file(listing, child, path),
{
    if holds_file(listing, directory, path) {
        let chain = seq![directory];
        assert(walk_chain(listing, chain));
    }
    if exists|child: Seq<char>| #[trigger] steps_into(listing, directory, child) && reached_file(listing, child, path) {
        let child = choose|child: Seq<char>| #[trigger] steps_into(listing, directory, child) && reached_file(listing, child, path);
        let tail = choose|chain: Seq<Seq<char>>| #[trigger] walk_chain(listing, chain) && chain[0] == child && holds_file(
            listing,
            chain.last(),
            path,
        );
        let chain = seq![directory] + tail;
        assert forall|k: int| 0 <= k < chain.len() implies listing.contains_key(#[trigger] chain[k]) by {
            if k > 0 {
                assert(chain[k] == tail[k - 1]);
            }
        }
        assert forall|k: int| 0 <= k < chain.len() - 1 implies #[trigger] steps_into(listing, chain[k], chain[k + 1]) by {
            if k > 0 {
                assert(chain[k] == tail[k - 1]);
                assert(chain[k + 1] == tail[k]);
                let j = k - 1;
                assert(steps_into(listing, tail[j], tail[j + 1]));
            } else {
                assert(chain[1] == tail[0]);
            }
        }
        assert(chain.last() == tail.last());
        assert(walk_chain(listing, chain));
    }
    if reached_file(listing, directory, path) {
        let chain = choose|chain: Seq<Seq<char>>| #[trigger] walk_chain(listing, chain) && chain[0] == directory && holds_file(
            listing,
            chain.last(),
            path,
        );
        if chain.len() > 1 {
            let tail = chain.drop_first();
            assert forall|k: int| 0 <= k < tail.len() implies listing.contains_key(#[trigger] tail[k]) by {
                assert(tail[k] == chain[k + 1]);
            }
            assert forall|k: int| 0 <= k < tail.len() - 1 implies #[trigger] steps_into(listing, tail[k], tail[k + 1]) by {
                assert(tail[k] == chain[k + 1]);
                assert(tail[k + 1] == chain[k + 2]);
                assert(steps_into(listing, chain[k + 1], chain[k + 2]));
            }
            assert(walk_chain(listing, tail));
            assert(tail.last() == chain.last());
            let z: int = 0;
            assert(steps_into(listing, chain[z], chain[z + 1]));
            assert(reached_file(listing, tail[0], path));
        }
    }
}

/// What a walk that finishes comes to: the files found before, and every file reachable
/// from a pending directory.
proof fn lemma_walk_outcome(
    listing: Map<Seq<char>, Seq<DirectoryEntry>>,
    pending: Seq<Seq<char>>,
    found: Set<Seq<char>>,
    fuel: nat,
)
    ensures
        walk_outcome(listing, pending, found, fuel) matches Some(result) ==> forall|path: Seq<char>|
            #[trigger] result.contains(path) <==> found.contains(path) || exists|k: int|
                0 <= k < pending.len() && reached_file(listing, #[trigger] pending[k], path),
    decreases fuel,
{
    if pending.len() > 0 && fuel > 0 && listing.contains_key(pending.last()) {
        let directory = pending.last();
        let rest = pending.drop_last();
        let children = walked_children(directory, listing[directory]);
        let next = rest + children;
        let found_next = found + typescript_children(directory, listing[directory]);
        lemma_walk_outcome(listing, next, found_next, (fuel - 1) as nat);
        if let Some(result) = walk_outcome(listing, pending, found, fuel) {
            assert forall|path: Seq<char>| #[trigger] result.contains(path) <==> found.contains(path)
                || exists|k: int| 0 <= k < pending.len() && reached_file(listing, #[trigger] pending[k], path) by {
                lemma_reached_from_a_directory(listing, directory, path);
                lemma_typescript_children_are_kept(directory, listing[directory], path);
                let in_next = exists|k: int| 0 <= k < next.len() && reached_file(listing, #[trigger] next[k], path);
                let in_pending = exists|k: int| 0 <= k < pending.len() && reached_file(listing, #[trigger] pending[k], path);
                if in_next {
                    let k = choose|k: int| 0 <= k < next.len() && reached_file(listing, #[trigger] next[k], path);
                    if k < rest.len() {
                        assert(pending[k] == rest[k]);
                    } else {
                        let child = next[k];
                        assert(children[k - rest.len()] == child);
                        lemma_walked_children_are_walked_into(directory, listing[directory], child);
                        assert(steps_into(listing, directory, child));
                        assert(reached_file(listing, pending[pending.len() - 1], path));
                    }
                }
                if in_pending {
                    let k = choose|k: int| 0 <= k < pending.len() && reached_file(listing, #[trigger] pending[k], path);
                    if k < pending.len() - 1 {
                        assert(next[k] == pending[k]);
                    } else if !holds_file(listing, directory, path) {
                        let child = choose|child: Seq<char>| #[trigger] steps_into(listing, directory, child) && reached_file(listing, child, path);
                        lemma_walked_children_are_walked_into(directory, listing[directory], child);
                        let j = choose|j: int| 0 <= j < children.len() && children[j] == child;
                        assert(next[rest.len() + j] == child);
                    }
                }
            }
        }
    }
}

/// Two entries of one directory have one path only if they have one name.
proof fn lemma_child_path_names(directory: Seq<char>, a: Seq<char>, b: Seq<char>)
    requires
        child_path(directory, a) == child_path(directory, b),
    ensures
        a == b,
{
    let prefix_len = if directory.len() > 0 && directory.last() == '/' {
        directory.len()
    } else {
        directory.len() + 1
    };
    assert(child_path(directory, a).skip(prefix_len as int) =~= a);
    assert(child_path(directory, b).skip(prefix_len as int) =~= b);
}

/// A walk goes into every subdirectory but those named `node_modules`, `dist`, `build`,
/// `target` and `.git`; of a directory whose entries have distinct names, the paths it
/// goes on to never end in one of those names.
pub proof fn lemma_walk_skips_exactly_the_excluded_directories(
    directory: Seq<char>,
    entries: Seq<DirectoryEntry>,
    i: int,
)
    requires
        0 <= i < entries.len(),
        forall|j: int, k: int|
            0 <= j < entries.len() && 0 <= k < entries.len() && j != k ==> entries[j].name@
                != entries[k].name@,
    ensures
        entries[i].kind == EntryKind::Directory && (entries[i].name@ == "node_modules"@ || entries[i].name@ == "dist"@ || entries[i].name@
            == "build"@ || entries[i].name@ == "target"@ || entries[i].name@ == ".git"@)
            ==> !walked_children(directory, entries).contains(child_path(directory, entries[i].name@)),
        entries[i].kind == EntryKind::Directory && !(entries[i].name@ == "node_modules"@ || entries[i].name@ == "dist"@ || entries[i].name@
            == "build"@ || entries[i].name@ == "target"@ || entries[i].name@ == ".git"@)
            ==> walked_children(directory, entries).contains(child_path(directory, entries[i].name@)),
{
    let path = child_path(directory, entries[i].name@);
    lemma_walked_children_are_walked_into(directory, entries, path);
    reveal_strlit("node_modules");
    reveal_strlit("dist");
    reveal_strlit("build");
    reveal_strlit("target");
    reveal_strlit(".git");
    if walked_children(directory, entries).contains(path) {
        let k = choose|k: int| 0 <= k < entries.len() && walked_into(directory, #[trigger] entries[k], path);
        lemma_child_path_names(directory, entries[k].name@, entries[i].name@);
        assert(k == i);
    }
    if entries[i].kind == EntryKind::Directory && !is_excluded_name(entries[i].name@) {
        assert(walked_into(directory, entries[i], path));
    }
}

/// A whole walk keeps exactly the TypeScript files reachable from the root: the `.ts` and
/// `.tsx` files that say they are files, in directories reached through directories that
/// say they are directories (links are neither, so none is followed) and none of which is
/// excluded; the walk keeps them in path order ([`TypescriptWalk::visit`]).
pub proof fn lemma_whole_walk_keeps_the_reachable_typescript_files(
    listing: Map<Seq<char>, Seq<DirectoryEntry>>,
    root: Seq<char>,
    fuel: nat,
)
    ensures
        walk_outcome(listing, seq![root], Set::empty(), fuel) matches Some(found) ==> forall|path: Seq<char>|
            #[trigger] found.contains(path) <==> reached_file(listing, root, path),
{
    lemma_walk_outcome(listing, seq![root], Set::empty(), fuel);
    if let Some(found) = walk_outcome(listing, seq![root], Set::empty(), fuel) {
        assert forall|path: Seq<char>| #[trigger] found.contains(path) <==> reached_file(listing, root, path) by {
            if reached_file(listing, root, path) {
                assert(seq![root][0] == root);
            }
        }
    }
}

} // verus!
