//! The domains that `dryguard.toml`'s `[domains]` declares, and which declaration a file
//! falls under.
//!
//! A declaration is a list of path globs written relative to the directory holding
//! `dryguard.toml`. A declared domain wins over the one read off directories. Only the
//! spelling of paths is looked at; nothing here touches the file system.
use vstd::prelude::*;

use crate::path::{
    common_prefix_len, components_of, is_absolute, join_components, path_components, split_chars,
    split_on,
};
use crate::text::{chars_of, string_of};

verus! {

broadcast use crate::text::lemma_chars_deep_view;

/// A domain name: the spelling of a key in `[domains]`, closed to TOML bare keys
/// (ASCII letters and digits, `_`, `-`).
#[derive(Debug, Clone, PartialEq, Eq, PartialOrd, Ord, Hash)]
pub struct DomainName {
    spelling: String,
}

/// One character of a TOML bare key.
pub open spec fn is_bare_key_char(c: char) -> bool {
    ('a' <= c && c <= 'z') || ('A' <= c && c <= 'Z') || ('0' <= c && c <= '9') || c == '_' || c
        == '-'
}

/// A non-empty TOML bare key.
pub open spec fn is_bare_key(s: Seq<char>) -> bool {
    s.len() > 0 && forall|i: int| 0 <= i < s.len() ==> is_bare_key_char(#[trigger] s[i])
}

pub fn is_bare_key_char_exec(c: char) -> (b: bool)
    ensures
        b == is_bare_key_char(c),
{
    ('a' <= c && c <= 'z') || ('A' <= c && c <= 'Z') || ('0' <= c && c <= '9') || c == '_' || c
        == '-'
}

impl DomainName {
    pub closed spec fn view(&self) -> Seq<char> {
        self.spelling@
    }

    /// The name spelled `spelling`; `None` when it is empty or holds a character other than
    /// ASCII letters, digits, `_` and `-`.
    pub fn new(spelling: &str) -> (name: Option<DomainName>)
        ensures
            name is Some <==> is_bare_key(spelling@),
            name matches Some(n) ==> n@ == spelling@,
    {
        let chars = chars_of(spelling);
        if chars.len() == 0 {
            return None;
        }
        let mut i: usize = 0;
        while i < chars.len()
            invariant
                0 <= i <= chars@.len(),
                chars@ == spelling@,
                forall|j: int| 0 <= j < i ==> is_bare_key_char(#[trigger] chars@[j]),
            decreases chars@.len() - i,
        {
            if !is_bare_key_char_exec(chars[i]) {
                return None;
            }
            i = i + 1;
        }
        Some(DomainName { spelling: spelling.to_owned() })
    }

    /// The spelling.
    pub fn as_str(&self) -> (s: &str)
        ensures
            s@ == self@,
    {
        self.spelling.as_str()
    }

    /// A copy of this name.
    pub fn duplicate(&self) -> (copy: DomainName)
        ensures
            copy@ == self@,
    {
        DomainName { spelling: string_of(&chars_of(self.spelling.as_str())) }
    }

    /// Whether the two names are spelled the same.
    pub fn same_as(&self, other: &DomainName) -> (same: bool)
        ensures
            same == (self@ == other@),
    {
        let a = chars_of(self.spelling.as_str());
        let b = chars_of(other.spelling.as_str());
        crate::path::same_component(&a, &b)
    }
}

/// One segment of a glob, as read.
pub enum SegmentView {
    /// `**`: any number of path components, none included.
    AnyDepth,
    /// Anything else: the texts between `*`s, in order.
    Name(Seq<Seq<char>>),
}

/// A segment of a glob.
#[derive(Debug, Clone, PartialEq, Eq)]
enum PatternSegment {
    AnyDepth,
    Name(Vec<Vec<char>>),
}

impl PatternSegment {
    closed spec fn view(&self) -> SegmentView {
        match self {
            PatternSegment::AnyDepth => SegmentView::AnyDepth,
            PatternSegment::Name(pieces) => SegmentView::Name(pieces.deep_view()),
        }
    }
}

/// How a segment spelling reads: `**` is any depth; other spellings are split at `*`.
pub open spec fn segment_view_of(segment: Seq<char>) -> SegmentView {
    if segment == seq!['*', '*'] {
        SegmentView::AnyDepth
    } else {
        SegmentView::Name(split_on(segment, '*'))
    }
}

/// A glob naming the files of a domain. Only `**` (any depth) and `*` (any text within one
/// component) are wildcards.
#[derive(Debug, Clone, PartialEq, Eq)]
pub struct DomainPattern {
    spelling: String,
    segments: Vec<PatternSegment>,
}

/// Why a glob could not be read.
#[derive(Debug, Clone, PartialEq, Eq)]
pub enum DomainPatternError {
    /// The empty spelling.
    Empty,
    /// Starts with `/`; globs are relative to the directory of `dryguard.toml`.
    Absolute(String),
    /// Has an empty segment (`a//b`, trailing `/`).
    EmptySegment(String),
    /// Has a `.` or `..` segment.
    RelativeSegment(String),
    /// `**` written as part of a segment (`a**b`).
    PartialAnyDepth(String),
    /// A character this glob does not read.
    UnsupportedCharacter {
        /// The glob.
        pattern: String,
        /// The character.
        character: char,
    },
}

/// Characters this glob does not read: `?`, `[`, `]`, `{`, `}`, `\`.
pub open spec fn is_unsupported_char(c: char) -> bool {
    c == '?' || c == '[' || c == ']' || c == '{' || c == '}' || c == '\\'
}

/// Whether `needle` occurs in `s` starting at `i`.
pub open spec fn occurs_at(s: Seq<char>, needle: Seq<char>, i: int) -> bool {
    0 <= i && i + needle.len() <= s.len() && s.subrange(i, i + needle.len()) == needle
}

/// Whether `needle` occurs anywhere in `s`.
pub open spec fn contains_text(s: Seq<char>, needle: Seq<char>) -> bool {
    exists|i: int| occurs_at(s, needle, i)
}

/// The kind of problem with one glob segment, if any.
pub open spec fn segment_problem(segment: Seq<char>) -> Option<u8> {
    if segment.len() == 0 {
        Some(1u8)
    } else if segment == seq!['.'] || segment == seq!['.', '.'] {
        Some(2u8)
    } else if segment == seq!['*', '*'] {
        None
    } else if contains_text(segment, seq!['*', '*']) {
        Some(3u8)
    } else {
        None
    }
}

/// The index of the first segment with a problem, if any.
pub open spec fn first_problem(segments: Seq<Seq<char>>) -> Option<nat>
    decreases segments.len(),
{
    if segments.len() == 0 {
        None
    } else if segment_problem(segments[0]) is Some {
        Some(0nat)
    } else {
        match first_problem(segments.drop_first()) {
            Some(i) => Some(i + 1),
            None => None,
        }
    }
}

/// The index of the first unsupported character, if any.
pub open spec fn first_unsupported(s: Seq<char>) -> Option<nat>
    decreases s.len(),
{
    if s.len() == 0 {
        None
    } else if is_unsupported_char(s[0]) {
        Some(0nat)
    } else {
        match first_unsupported(s.drop_first()) {
            Some(i) => Some(i + 1),
            None => None,
        }
    }
}

impl DomainPattern {
    pub closed spec fn spelling_view(&self) -> Seq<char> {
        self.spelling@
    }

    pub closed spec fn segments_view(&self) -> Seq<SegmentView> {
        Seq::new(self.segments@.len(), |i: int| self.segments@[i].view())
    }

    /// The glob as written.
    pub fn as_str(&self) -> (s: &str)
        ensures
            s@ == self.spelling_view(),
    {
        self.spelling.as_str()
    }

    /// Reads a glob.
    ///
    /// # Errors
    ///
    /// Empty; absolute; a character other than `**` and `*` that globs commonly read
    /// (the first one is reported); then, segment by segment: an empty segment, a `.` or
    /// `..` segment, `**` inside a segment.
    pub fn parse(spelling: &str) -> (result: Result<DomainPattern, DomainPatternError>)
        ensures
            spelling@.len() == 0 ==> result == Err::<DomainPattern, DomainPatternError>(
                DomainPatternError::Empty,
            ),
            spelling@.len() > 0 && spelling@[0] == '/' ==> (result matches Err(
                DomainPatternError::Absolute(p),
            ) && p@ == spelling@),
            spelling@.len() > 0 && spelling@[0] != '/' ==> match first_unsupported(spelling@) {
                Some(i) => result matches Err(
                    DomainPatternError::UnsupportedCharacter { pattern, character },
                ) && pattern@ == spelling@ && character == spelling@[i as int],
                None => match first_problem(split_on(spelling@, '/')) {
                    Some(i) => {
                        let kind = segment_problem(split_on(spelling@, '/')[i as int]);
                        &&& kind == Some(1u8) ==> (result matches Err(
                            DomainPatternError::EmptySegment(p),
                        ) && p@ == spelling@)
                        &&& kind == Some(2u8) ==> (result matches Err(
                            DomainPatternError::RelativeSegment(p),
                        ) && p@ == spelling@)
                        &&& kind == Some(3u8) ==> (result matches Err(
                            DomainPatternError::PartialAnyDepth(p),
                        ) && p@ == spelling@)
                    },
                    None => result matches Ok(pattern) && pattern.spelling_view() == spelling@
                        && pattern.segments_view() == split_on(spelling@, '/').map_values(
                        |segment: Seq<char>| segment_view_of(segment),
                    ),
                },
            },
    {
        let chars = chars_of(spelling);
        if chars.len() == 0 {
            return Err(DomainPatternError::Empty);
        }
        if chars[0] == '/' {
            return Err(DomainPatternError::Absolute(spelling.to_owned()));
        }
        let mut k: usize = 0;
        assert(spelling@.skip(0) =~= spelling@);
        while k < chars.len()
            invariant
                0 <= k <= chars@.len(),
                chars@ == spelling@,
                chars@.len() > 0,
                chars@[0] != '/',
                first_unsupported(spelling@) == match first_unsupported(spelling@.skip(k as int)) {
                    Some(i) => Some((i + k) as nat),
                    None => None,
                },
            decreases chars@.len() - k,
        {
            proof {
                assert(spelling@.skip(k as int).drop_first() =~= spelling@.skip(k + 1));
            }
            if is_unsupported(chars[k]) {
                return Err(
                    DomainPatternError::UnsupportedCharacter {
                        pattern: spelling.to_owned(),
                        character: chars[k],
                    },
                );
            }
            k = k + 1;
        }
        proof {
            assert(spelling@.skip(chars@.len() as int) =~= Seq::<char>::empty());
        }
        let raw = split_chars(&chars, '/');
        let mut segments: Vec<PatternSegment> = Vec::new();
        let mut i: usize = 0;
        assert(raw.deep_view().skip(0) =~= raw.deep_view());
        while i < raw.len()
            invariant
                0 <= i <= raw@.len(),
                chars@ == spelling@,
                chars@.len() > 0,
                chars@[0] != '/',
                first_unsupported(spelling@) is None,
                raw.deep_view() == split_on(spelling@, '/'),
                first_problem(split_on(spelling@, '/')) == match first_problem(
                    raw.deep_view().skip(i as int),
                ) {
                    Some(j) => Some((j + i) as nat),
                    None => None,
                },
                segments@.len() == i,
                forall|j: int|
                    0 <= j < i ==> segments@[j].view() == segment_view_of(raw.deep_view()[j]),
            decreases raw@.len() - i,
        {
            proof {
                assert(raw.deep_view().skip(i as int).drop_first() =~= raw.deep_view().skip(i + 1));
                assert(raw.deep_view().skip(i as int)[0] == raw@[i as int]@);
            }
            let problem = segment_problem_of(&raw[i]);
            match problem {
                Some(1u8) => {
                    return Err(DomainPatternError::EmptySegment(spelling.to_owned()));
                },
                Some(2u8) => {
                    return Err(DomainPatternError::RelativeSegment(spelling.to_owned()));
                },
                Some(_) => {
                    return Err(DomainPatternError::PartialAnyDepth(spelling.to_owned()));
                },
                None => {},
            }
            let segment = segment_of(&raw[i]);
            segments.push(segment);
            i = i + 1;
        }
        proof {
            assert(raw.deep_view().skip(raw@.len() as int) =~= Seq::<Seq<char>>::empty());
        }
        let pattern = DomainPattern { spelling: spelling.to_owned(), segments };
        proof {
            assert(pattern.segments_view() =~= split_on(spelling@, '/').map_values(
                |segment: Seq<char>| segment_view_of(segment),
            ));
        }
        Ok(pattern)
    }

    /// Whether the glob matches the components of a path relative to the root.
    fn matches(&self, components: &Vec<Vec<char>>) -> (m: bool)
        ensures
            m == segments_match(self.segments_view(), components.deep_view()),
    {
        assert(Seq::new(self.segments@.len(), |i: int| self.segments@[i].view()).skip(0)
            =~= self.segments_view());
        assert(components.deep_view().skip(0) =~= components.deep_view());
        segments_match_exec(&self.segments, 0, components, 0)
    }
}

fn is_unsupported(c: char) -> (b: bool)
    ensures
        b == is_unsupported_char(c),
{
    c == '?' || c == '[' || c == ']' || c == '{' || c == '}' || c == '\\'
}

/// Whether `s[i..]` starts with `**`.
fn has_double_star(s: &Vec<char>) -> (b: bool)
    ensures
        b == contains_text(s@, seq!['*', '*']),
{
    let mut i: usize = 0;
    while s.len() >= 2 && i <= s.len() - 2
        invariant
            forall|j: int| 0 <= j < i ==> !occurs_at(s@, seq!['*', '*'], j),
        decreases s@.len() - i,
    {
        if s[i] == '*' && s[i + 1] == '*' {
            assert(s@.subrange(i as int, i + 2) =~= seq!['*', '*']);
            assert(occurs_at(s@, seq!['*', '*'], i as int));
            return true;
        }
        assert(s@.subrange(i as int, i + 2)[0] == s@[i as int]);
        assert(s@.subrange(i as int, i + 2)[1] == s@[i + 1]);
        i = i + 1;
    }
    assert forall|j: int| !occurs_at(s@, seq!['*', '*'], j) by {
        if 0 <= j && j + 2 <= s@.len() && j >= i {
            assert(false);
        }
    }
    false
}

fn segment_problem_of(segment: &Vec<char>) -> (problem: Option<u8>)
    ensures
        problem == segment_problem(segment@),
{
    if segment.len() == 0 {
        return Some(1);
    }
    if segment.len() == 1 && segment[0] == '.' {
        assert(segment@ =~= seq!['.']);
        return Some(2);
    }
    if segment.len() == 2 && segment[0] == '.' && segment[1] == '.' {
        assert(segment@ =~= seq!['.', '.']);
        return Some(2);
    }
    proof {
        if segment@ == seq!['.'] {
            assert(segment@[0] == '.');
        }
        if segment@ == seq!['.', '.'] {
            assert(segment@[0] == '.' && segment@[1] == '.');
        }
    }
    if segment.len() == 2 && segment[0] == '*' && segment[1] == '*' {
        assert(segment@ =~= seq!['*', '*']);
        return None;
    }
    proof {
        if segment@ == seq!['*', '*'] {
            assert(segment@[0] == '*' && segment@[1] == '*');
        }
    }
    if has_double_star(segment) {
        return Some(3);
    }
    None
}

fn segment_of(segment: &Vec<char>) -> (s: PatternSegment)
    ensures
        s.view() == segment_view_of(segment@),
{
    if segment.len() == 2 && segment[0] == '*' && segment[1] == '*' {
        assert(segment@ =~= seq!['*', '*']);
        return PatternSegment::AnyDepth;
    }
    proof {
        if segment@ == seq!['*', '*'] {
            assert(segment@[0] == '*' && segment@[1] == '*');
        }
    }
    PatternSegment::Name(split_chars(segment.as_slice(), '*'))
}

/// Whether the glob segments match the path components.
///
/// `**` matches any number of components (none included); any other segment matches
/// exactly one component by [`name_matches`].
pub open spec fn segments_match(segments: Seq<SegmentView>, components: Seq<Seq<char>>) -> bool
    decreases segments.len(), components.len(), 1int,
{
    if segments.len() == 0 {
        components.len() == 0
    } else {
        match segments[0] {
            SegmentView::AnyDepth => any_depth_match(segments.drop_first(), components),
            SegmentView::Name(pieces) => components.len() > 0 && name_matches(
                pieces,
                components[0],
            ) && segments_match(segments.drop_first(), components.drop_first()),
        }
    }
}

/// Whether the segments after a `**` match the components with some number of leading
/// components skipped (none included).
pub open spec fn any_depth_match(rest: Seq<SegmentView>, components: Seq<Seq<char>>) -> bool
    decreases rest.len() + 1, components.len(), 0int,
{
    segments_match(rest, components) || (components.len() > 0 && any_depth_match(
        rest,
        components.drop_first(),
    ))
}

/// A `**` followed by `rest` matches exactly when `rest` matches what is left after
/// skipping some number of leading components.
pub proof fn lemma_any_depth_match(rest: Seq<SegmentView>, components: Seq<Seq<char>>)
    ensures
        any_depth_match(rest, components) <==> exists|skipped: int|
            0 <= skipped <= components.len() && #[trigger] segments_match(
                rest,
                components.skip(skipped),
            ),
    decreases components.len(),
{
    assert(components.skip(0) =~= components);
    if segments_match(rest, components) {
        assert(segments_match(rest, components.skip(0)));
    }
    if components.len() > 0 {
        let tail = components.drop_first();
        lemma_any_depth_match(rest, tail);
        if any_depth_match(rest, tail) {
            let k = choose|skipped: int|
                0 <= skipped <= tail.len() && #[trigger] segments_match(rest, tail.skip(skipped));
            assert(tail.skip(k) =~= components.skip(k + 1));
            assert(segments_match(rest, components.skip(k + 1)));
        }
        if exists|skipped: int|
            0 <= skipped <= components.len() && #[trigger] segments_match(
                rest,
                components.skip(skipped),
            ) {
            let k = choose|skipped: int|
                0 <= skipped <= components.len() && #[trigger] segments_match(
                    rest,
                    components.skip(skipped),
                );
            if k > 0 {
                assert(tail.skip(k - 1) =~= components.skip(k));
                assert(segments_match(rest, tail.skip(k - 1)));
            }
        }
    } else {
        if exists|skipped: int|
            0 <= skipped <= components.len() && #[trigger] segments_match(
                rest,
                components.skip(skipped),
            ) {
            let k = choose|skipped: int|
                0 <= skipped <= components.len() && #[trigger] segments_match(
                    rest,
                    components.skip(skipped),
                );
            assert(k == 0);
        }
    }
}

/// Whether `prefix` begins `s`.
pub open spec fn starts_with(s: Seq<char>, prefix: Seq<char>) -> bool {
    prefix.len() <= s.len() && s.take(prefix.len() as int) == prefix
}

/// Whether `suffix` ends `s`.
pub open spec fn ends_with(s: Seq<char>, suffix: Seq<char>) -> bool {
    suffix.len() <= s.len() && s.skip(s.len() - suffix.len()) == suffix
}

/// The first position where `needle` occurs in `s` (`str::find`).
pub open spec fn find_text(s: Seq<char>, needle: Seq<char>) -> Option<nat> {
    if contains_text(s, needle) {
        Some(choose|i: nat| occurs_at(s, needle, i as int) && forall|j: int| 0 <= j < i ==> !occurs_at(s, needle, j))
    } else {
        None
    }
}

/// What is left of `s` after the middle pieces are found in order, each at its first
/// occurrence after the previous one.
pub open spec fn after_pieces(middle: Seq<Seq<char>>, s: Seq<char>) -> Option<Seq<char>>
    decreases middle.len(),
{
    if middle.len() == 0 {
        Some(s)
    } else {
        match find_text(s, middle[0]) {
            Some(i) => after_pieces(middle.drop_first(), s.skip(i + middle[0].len() as int)),
            None => None,
        }
    }
}

/// Whether the pieces of a segment split at `*` match one component name: the first
/// piece begins the name, the last ends it, and those in between follow in order
/// between them, each taken at its first occurrence.
pub open spec fn name_matches(pieces: Seq<Seq<char>>, name: Seq<char>) -> bool {
    if pieces.len() == 0 {
        name.len() == 0
    } else if !starts_with(name, pieces[0]) {
        false
    } else if pieces.len() == 1 {
        name.len() == pieces[0].len()
    } else {
        match after_pieces(pieces.subrange(1, pieces.len() - 1), name.skip(pieces[0].len() as int)) {
            Some(rest) => ends_with(rest, pieces.last()),
            None => false,
        }
    }
}

proof fn lemma_find_text(s: Seq<char>, needle: Seq<char>, i: nat)
    requires
        occurs_at(s, needle, i as int),
        forall|j: int| 0 <= j < i ==> !occurs_at(s, needle, j),
    ensures
        find_text(s, needle) == Some(i),
{
    let c = choose|k: nat| occurs_at(s, needle, k as int) && forall|j: int| 0 <= j < k ==> !occurs_at(s, needle, j);
    assert(occurs_at(s, needle, c as int));
    if c < i {
        assert(!occurs_at(s, needle, c as int));
    }
    if c > i {
        assert(!occurs_at(s, needle, i as int));
    }
}

/// Whether `needle` occurs in `s` at `i`.
fn occurs_at_exec(s: &[char], needle: &[char], i: usize) -> (b: bool)
    ensures
        b == occurs_at(s@, needle@, i as int),
{
    if needle.len() > s.len() || i > s.len() - needle.len() {
        return false;
    }
    let end = i + needle.len();
    let mut k: usize = 0;
    while k < needle.len()
        invariant
            end == i + needle@.len(),
            end <= s@.len(),
            0 <= k <= needle@.len(),
            forall|j: int| 0 <= j < k ==> s@[i + j] == needle@[j],
        decreases needle@.len() - k,
    {
        if s[i + k] != needle[k] {
            assert(s@.subrange(i as int, i + needle@.len())[k as int] == s@[i + k]);
            return false;
        }
        k = k + 1;
    }
    assert(s@.subrange(i as int, i + needle@.len()) =~= needle@);
    true
}

/// The first position where `needle` occurs in `s`.
fn find_exec(s: &[char], needle: &[char]) -> (found: Option<usize>)
    ensures
        found matches Some(i) ==> find_text(s@, needle@) == Some(i as nat) && occurs_at(
            s@,
            needle@,
            i as int,
        ),
        found is None ==> find_text(s@, needle@) is None,
{
    if needle.len() == 0 {
        assert(s@.subrange(0, 0) =~= needle@);
        proof {
            lemma_find_text(s@, needle@, 0);
        }
        return Some(0);
    }
    let mut i: usize = 0;
    while i < s.len()
        invariant
            0 <= i <= s@.len(),
            needle@.len() > 0,
            forall|j: int| 0 <= j < i ==> !occurs_at(s@, needle@, j),
        decreases s@.len() - i,
    {
        if occurs_at_exec(s, needle, i) {
            proof {
                lemma_find_text(s@, needle@, i as nat);
            }
            return Some(i);
        }
        i = i + 1;
    }
    assert(!contains_text(s@, needle@)) by {
        assert forall|j: int| !occurs_at(s@, needle@, j) by {
            if 0 <= j && j + needle@.len() <= s@.len() {
                assert(j < i);
            }
        }
    }
    None
}

/// Whether the pieces of a segment match one component name.
fn name_matches_exec(pieces: &Vec<Vec<char>>, name: &Vec<char>) -> (m: bool)
    ensures
        m == name_matches(pieces.deep_view(), name@),
{
    let ghost p = pieces.deep_view();
    if pieces.len() == 0 {
        return name.len() == 0;
    }
    assert(p[0] == pieces@[0]@);
    let first = &pieces[0];
    if !occurs_at_exec(name.as_slice(), first.as_slice(), 0) {
        proof {
            if starts_with(name@, p[0]) {
                assert(name@.subrange(0, p[0].len() as int) =~= name@.take(p[0].len() as int));
            }
        }
        return false;
    }
    proof {
        assert(name@.subrange(0, p[0].len() as int) =~= name@.take(p[0].len() as int));
    }
    if pieces.len() == 1 {
        return name.len() == first.len();
    }
    let mut rest = crate::text::slice_of(name.as_slice(), first.len(), name.len());
    assert(rest@ =~= name@.skip(p[0].len() as int));
    let last_index = pieces.len() - 1;
    let mut k: usize = 1;
    while k < last_index
        invariant
            1 <= k <= last_index,
            last_index == pieces@.len() - 1,
            p == pieces.deep_view(),
            after_pieces(p.subrange(1, last_index as int), name@.skip(p[0].len() as int))
                == after_pieces(p.subrange(k as int, last_index as int), rest@),
        decreases last_index - k,
    {
        let ghost mid = p.subrange(k as int, last_index as int);
        assert(mid[0] == pieces@[k as int]@);
        assert(mid.drop_first() =~= p.subrange(k + 1, last_index as int));
        let piece = pieces[k].as_slice();
        assert(piece@ == pieces@[k as int]@);
        match find_exec(rest.as_slice(), piece) {
            None => {
                return false;
            },
            Some(i) => {
                let ghost before = rest@;
                let plen = piece.len();
                let rl = rest.len();
                assert(i + plen <= rl);
                rest = crate::text::slice_of(rest.as_slice(), i + plen, rest.len());
                assert(rest@ =~= before.skip(i + pieces@[k as int]@.len()));
            },
        }
        k = k + 1;
    }
    assert(p.subrange(k as int, last_index as int) =~= Seq::<Seq<char>>::empty());
    let last = &pieces[last_index];
    assert(p.last() == last@);
    if last.len() > rest.len() {
        return false;
    }
    let tail_start = rest.len() - last.len();
    let ok = occurs_at_exec(rest.as_slice(), last.as_slice(), tail_start);
    assert(rest@.subrange(tail_start as int, tail_start + last@.len()) =~= rest@.skip(
        tail_start as int,
    ));
    ok
}

/// Whether the segments from `si` match the components from `ci`.
fn segments_match_exec(
    segments: &Vec<PatternSegment>,
    si: usize,
    components: &Vec<Vec<char>>,
    ci: usize,
) -> (m: bool)
    requires
        si <= segments@.len(),
        ci <= components@.len(),
    ensures
        m == segments_match(
            Seq::new(segments@.len(), |i: int| segments@[i].view()).skip(si as int),
            components.deep_view().skip(ci as int),
        ),
    decreases segments@.len() - si, components@.len() - ci,
{
    let ghost segs = Seq::new(segments@.len(), |i: int| segments@[i].view()).skip(si as int);
    let ghost comps = components.deep_view().skip(ci as int);
    if si == segments.len() {
        return ci == components.len();
    }
    assert(segs[0] == segments@[si as int].view());
    assert(segs.drop_first() =~= Seq::new(segments@.len(), |i: int| segments@[i].view()).skip(
        si + 1,
    ));
    match &segments[si] {
        PatternSegment::AnyDepth => {
            assert(segs[0] is AnyDepth);
            let n = components.len() - ci;
            let mut skipped: usize = 0;
            while skipped < n
                invariant
                    si < segments.len(),
                    ci <= components.len(),
                    n == components@.len() - ci,
                    skipped <= n,
                    segs.len() > 0,
                    segs[0] is AnyDepth,
                    segs == Seq::new(segments@.len(), |i: int| segments@[i].view()).skip(
                        si as int,
                    ),
                    comps == components.deep_view().skip(ci as int),
                    segs.drop_first() =~= Seq::new(
                        segments@.len(),
                        |i: int| segments@[i].view(),
                    ).skip(si + 1),
                    forall|j: int|
                        0 <= j < skipped ==> !segments_match(segs.drop_first(), #[trigger] comps.skip(j)),
                decreases n - skipped,
            {
                assert(comps.skip(skipped as int) =~= components.deep_view().skip(
                    ci + skipped,
                ));
                if segments_match_exec(segments, si + 1, components, ci + skipped) {
                    proof {
                        lemma_any_depth_match(segs.drop_first(), comps);
                        assert(segments_match(segs.drop_first(), comps.skip(skipped as int)));
                    }
                    return true;
                }
                skipped = skipped + 1;
            }
            assert(comps.skip(n as int) =~= components.deep_view().skip(ci + n));
            let last = segments_match_exec(segments, si + 1, components, ci + n);
            proof {
                lemma_any_depth_match(segs.drop_first(), comps);
                if last {
                    assert(segments_match(segs.drop_first(), comps.skip(n as int)));
                } else {
                    assert forall|j: int| 0 <= j <= comps.len() implies !#[trigger] segments_match(
                        segs.drop_first(),
                        comps.skip(j),
                    ) by {
                        if j < n {
                            assert(j < skipped);
                        }
                    }
                }
            }
            last
        },
        PatternSegment::Name(pieces) => {
            if ci == components.len() {
                return false;
            }
            assert(comps[0] == components@[ci as int]@);
            assert(comps.drop_first() =~= components.deep_view().skip(ci + 1));
            name_matches_exec(pieces, &components[ci]) && segments_match_exec(
                segments,
                si + 1,
                components,
                ci + 1,
            )
        },
    }
}

/// One declaration: a name and the globs of the files that belong to it.
#[derive(Debug, Clone, PartialEq, Eq)]
pub struct DomainDeclaration {
    name: DomainName,
    patterns: Vec<DomainPattern>,
}

impl DomainDeclaration {
    pub closed spec fn name_view(&self) -> Seq<char> {
        self.name@
    }

    pub closed spec fn patterns_view(&self) -> Seq<Seq<SegmentView>> {
        Seq::new(self.patterns@.len(), |i: int| self.patterns@[i].segments_view())
    }

    /// Pairs a name with its globs; `None` without a glob, since a declaration naming no
    /// file would silently never apply.
    pub fn new(name: DomainName, patterns: Vec<DomainPattern>) -> (declaration: Option<
        DomainDeclaration,
    >)
        ensures
            declaration is Some <==> patterns@.len() > 0,
            declaration matches Some(d) ==> d.name_view() == name@ && d.patterns_view()
                == Seq::new(patterns@.len(), |i: int| patterns@[i].segments_view()),
    {
        if patterns.len() == 0 {
            return None;
        }
        Some(DomainDeclaration { name, patterns })
    }

    /// The declared name.
    pub fn name(&self) -> (name: &DomainName)
        ensures
            name@ == self.name_view(),
    {
        &self.name
    }

    /// Whether one of the globs matches.
    fn matches(&self, components: &Vec<Vec<char>>) -> (m: bool)
        ensures
            m == declaration_matches(self.patterns_view(), components.deep_view()),
    {
        let mut i: usize = 0;
        while i < self.patterns.len()
            invariant
                0 <= i <= self.patterns@.len(),
                forall|j: int|
                    0 <= j < i ==> !segments_match(
                        #[trigger] self.patterns_view()[j],
                        components.deep_view(),
                    ),
            decreases self.patterns@.len() - i,
        {
            if self.patterns[i].matches(components) {
                assert(segments_match(self.patterns_view()[i as int], components.deep_view()));
                return true;
            }
            i = i + 1;
        }
        false
    }
}

/// Whether some glob of a declaration matches the components.
pub open spec fn declaration_matches(patterns: Seq<Seq<SegmentView>>, components: Seq<Seq<char>>) -> bool {
    exists|i: int| 0 <= i < patterns.len() && segments_match(#[trigger] patterns[i], components)
}

/// The declared domains and the directory their globs are relative to.
///
/// With no declaration, no file falls under one and domains are read off directories
/// only, as before the table existed.
#[derive(Debug, Clone, PartialEq, Eq)]
pub struct DomainDeclarations {
    root_absolute: bool,
    root: Vec<Vec<char>>,
    declarations: Vec<DomainDeclaration>,
}

/// A file that falls under two declarations with different names.
#[derive(Debug, PartialEq, Eq)]
pub struct AmbiguousDomain {
    path: String,
    first: DomainName,
    second: DomainName,
}

impl AmbiguousDomain {
    pub closed spec fn path_view(&self) -> Seq<char> {
        self.path@
    }

    pub closed spec fn first_view(&self) -> Seq<char> {
        self.first@
    }

    pub closed spec fn second_view(&self) -> Seq<char> {
        self.second@
    }

    /// The file.
    pub fn path(&self) -> (path: &str)
        ensures
            path@ == self.path_view(),
    {
        self.path.as_str()
    }

    /// The first two declarations it falls under, in the order they are written.
    pub fn domains(&self) -> (domains: Vec<DomainName>)
        ensures
            domains@.len() == 2,
            domains@[0]@ == self.first_view(),
            domains@[1]@ == self.second_view(),
    {
        let mut domains: Vec<DomainName> = Vec::new();
        domains.push(self.first.duplicate());
        domains.push(self.second.duplicate());
        domains
    }

    /// The first declaration it falls under.
    pub fn first(&self) -> (name: &DomainName)
        ensures
            name@ == self.first_view(),
    {
        &self.first
    }

    /// The second declaration, with a different name.
    pub fn second(&self) -> (name: &DomainName)
        ensures
            name@ == self.second_view(),
    {
        &self.second
    }
}

impl Clone for AmbiguousDomain {
    fn clone(&self) -> (copy: AmbiguousDomain)
        ensures
            copy.path_view() == self.path_view(),
            copy.first_view() == self.first_view(),
            copy.second_view() == self.second_view(),
    {
        AmbiguousDomain {
            path: self.path.clone(),
            first: self.first.duplicate(),
            second: self.second.duplicate(),
        }
    }
}

/// `path` spelled from the root: the root's components followed by the path's, or the
/// path's alone when it is absolute; `.` and `..` folded.
pub open spec fn fold_dots(components: Seq<Seq<char>>) -> Option<Seq<Seq<char>>>
    decreases components.len(),
{
    if components.len() == 0 {
        Some(Seq::empty())
    } else {
        match fold_dots(components.drop_last()) {
            None => None,
            Some(folded) => if components.last() == seq!['.', '.'] {
                if folded.len() == 0 {
                    None
                } else {
                    Some(folded.drop_last())
                }
            } else {
                Some(folded.push(components.last()))
            },
        }
    }
}

/// The components of `path` relative to the root, when it lies under the root.
pub open spec fn components_from_root(
    root_absolute: bool,
    root: Seq<Seq<char>>,
    path: Seq<char>,
) -> Option<Seq<Seq<char>>> {
    let absolute = is_absolute(path) || root_absolute;
    let joined = if is_absolute(path) {
        path_components(path)
    } else {
        root + path_components(path)
    };
    match fold_dots(joined) {
        None => None,
        Some(folded) => if absolute == root_absolute && common_prefix_len(root, folded)
            == root.len() {
            Some(folded.skip(root.len() as int))
        } else {
            None
        },
    }
}

impl DomainDeclarations {
    pub closed spec fn root_absolute_view(&self) -> bool {
        self.root_absolute
    }

    pub closed spec fn root_view(&self) -> Seq<Seq<char>> {
        self.root.deep_view()
    }

    pub closed spec fn names_view(&self) -> Seq<Seq<char>> {
        Seq::new(self.declarations@.len(), |i: int| self.declarations@[i].name_view())
    }

    pub closed spec fn globs_view(&self) -> Seq<Seq<Seq<SegmentView>>> {
        Seq::new(self.declarations@.len(), |i: int| self.declarations@[i].patterns_view())
    }

    /// No declaration, with no root.
    pub fn empty() -> (declarations: DomainDeclarations)
        ensures
            declarations.names_view().len() == 0,
    {
        DomainDeclarations { root_absolute: false, root: Vec::new(), declarations: Vec::new() }
    }

    /// Declarations with globs relative to `root` (the directory holding `dryguard.toml`).
    /// The root is kept with `.` and `..` folded.
    pub fn new(root: &str, declarations: Vec<DomainDeclaration>) -> (result: DomainDeclarations)
        ensures
            result.root_absolute_view() == is_absolute(root@),
            result.root_view() == match fold_dots(path_components(root@)) {
                Some(folded) => folded,
                None => path_components(root@),
            },
            result.names_view() == Seq::new(
                declarations@.len(),
                |i: int| declarations@[i].name_view(),
            ),
            result.globs_view() == Seq::new(
                declarations@.len(),
                |i: int| declarations@[i].patterns_view(),
            ),
    {
        let chars = chars_of(root);
        let components = components_of(&chars);
        let folded = match fold_dots_exec(&components) {
            Some(folded) => folded,
            None => components,
        };
        let absolute = chars.len() > 0 && chars[0] == '/';
        DomainDeclarations { root_absolute: absolute, root: folded, declarations }
    }

    /// Whether nothing is declared.
    pub fn is_empty(&self) -> (empty: bool)
        ensures
            empty == (self.names_view().len() == 0),
    {
        self.declarations.len() == 0
    }

    /// The declaration a file falls under, if any.
    ///
    /// `path` is absolute or relative to the root. A file outside the root falls under no
    /// declaration.
    ///
    /// # Errors
    ///
    /// The file falls under two declarations with different names; neither is picked,
    /// since the order they are written in should not decide.
    pub fn declared_domain_of(&self, path: &str) -> (result: Result<Option<&DomainName>, AmbiguousDomain>)
        ensures
            declared_domain(
                self.names_view(),
                self.globs_view(),
                components_from_root(self.root_absolute_view(), self.root_view(), path@),
            ) == match result {
                Ok(None) => DeclaredDomain::Undeclared,
                Ok(Some(name)) => DeclaredDomain::Declared(name@),
                Err(ambiguous) => DeclaredDomain::Ambiguous(
                    ambiguous.first_view(),
                    ambiguous.second_view(),
                ),
            },
            result matches Err(ambiguous) ==> ambiguous.path_view() == path@,
    {
        if self.declarations.len() == 0 {
            return Ok(None);
        }
        let components = match self.components_from_root_of(path) {
            None => {
                return Ok(None);
            },
            Some(components) => components,
        };
        let ghost comps = components.deep_view();
        let i = match self.first_matching_index(&components) {
            None => {
                return Ok(None);
            },
            Some(i) => i,
        };
        let first = i;
        let mut k = first + 1;
        while k < self.declarations.len()
            invariant
                first < k <= self.declarations@.len(),
                comps == components.deep_view(),
                components_from_root(self.root_absolute_view(), self.root_view(), path@) == Some(
                    comps,
                ),
                first_matching(self.globs_view(), comps, 0) == Some(first as nat),
                forall|j: int|
                    first < j < k ==> !(declaration_matches(
                        #[trigger] self.globs_view()[j],
                        comps,
                    ) && self.names_view()[j] != self.names_view()[first as int]),
            decreases self.declarations@.len() - k,
        {
            assert(self.globs_view()[k as int] == self.declarations@[k as int].patterns_view());
            assert(self.names_view()[k as int] == self.declarations@[k as int].name_view());
            assert(self.names_view()[first as int] == self.declarations@[first as int].name_view());
            if self.declarations[k].matches(&components) && !self.declarations[k].name.same_as(
                &self.declarations[first].name,
            ) {
                proof {
                    lemma_first_conflict_is(
                        self.names_view(),
                        self.globs_view(),
                        comps,
                        first as nat,
                        k as nat,
                    );
                    assert(self.names_view()[first as int] == self.declarations@[first as int].name_view());
                    assert(self.names_view()[k as int] == self.declarations@[k as int].name_view());
                    let c = components_from_root(self.root_absolute_view(), self.root_view(), path@);
                    assert(c == Some(comps));
                    assert(first_matching(self.globs_view(), comps, 0) == Some(first as nat));
                    assert(first_conflict(self.names_view(), self.globs_view(), comps, first as nat, (first + 1) as nat) == Some(k as nat));
                }
                let err = AmbiguousDomain {
                    path: path.to_owned(),
                    first: self.declarations[first].name.duplicate(),
                    second: self.declarations[k].name.duplicate(),
                };
                assert(err.first_view() == self.names_view()[first as int]);
                assert(err.second_view() == self.names_view()[k as int]);
                return Err(
                    AmbiguousDomain {
                        path: path.to_owned(),
                        first: self.declarations[first].name.duplicate(),
                        second: self.declarations[k].name.duplicate(),
                    },
                );
            }
            k = k + 1;
        }
        proof {
            lemma_first_conflict_none(
                self.names_view(),
                self.globs_view(),
                comps,
                first as nat,
            );
        }
        Ok(Some(&self.declarations[first].name))
    }

    /// The index of the first declaration whose globs match.
    fn first_matching_index(&self, components: &Vec<Vec<char>>) -> (index: Option<usize>)
        ensures
            match index {
                Some(i) => first_matching(self.globs_view(), components.deep_view(), 0) == Some(
                    i as nat,
                ) && i < self.declarations@.len(),
                None => first_matching(self.globs_view(), components.deep_view(), 0) is None,
            },
    {
        let ghost comps = components.deep_view();
        let mut i: usize = 0;
        while i < self.declarations.len()
            invariant
                0 <= i <= self.declarations@.len(),
                comps == components.deep_view(),
                forall|j: int|
                    0 <= j < i ==> !declaration_matches(
                        #[trigger] self.globs_view()[j],
                        comps,
                    ),
            decreases self.declarations@.len() - i,
        {
            if self.declarations[i].matches(components) {
                proof {
                    assert(self.globs_view()[i as int] == self.declarations@[i as int].patterns_view());
                    lemma_first_matching_is(self.globs_view(), comps, i as nat);
                }
                return Some(i);
            }
            assert(self.globs_view()[i as int] == self.declarations@[i as int].patterns_view());
            i = i + 1;
        }
        proof {
            lemma_first_matching_none(self.globs_view(), comps, 0);
        }
        None
    }

    /// The components of `path` relative to the root, when it lies under the root.
    fn components_from_root_of(&self, path: &str) -> (components: Option<Vec<Vec<char>>>)
        ensures
            match components {
                Some(c) => components_from_root(
                    self.root_absolute_view(),
                    self.root_view(),
                    path@,
                ) == Some(c.deep_view()),
                None => components_from_root(
                    self.root_absolute_view(),
                    self.root_view(),
                    path@,
                ) is None,
            },
    {
        let chars = chars_of(path);
        let path_absolute = chars.len() > 0 && chars[0] == '/';
        let own = components_of(&chars);
        let mut joined: Vec<Vec<char>> = Vec::new();
        if !path_absolute {
            let mut i: usize = 0;
            while i < self.root.len()
                invariant
                    0 <= i <= self.root@.len(),
                    joined.deep_view() == self.root.deep_view().take(i as int),
                decreases self.root@.len() - i,
            {
                let ghost before = joined.deep_view();
                joined.push(crate::path::clone_chars(&self.root[i]));
                proof {
                    assert(joined.deep_view() =~= before.push(self.root@[i as int]@));
                    assert(self.root.deep_view().take(i + 1) =~= self.root.deep_view().take(
                        i as int,
                    ).push(self.root@[i as int]@));
                }
                i = i + 1;
            }
            assert(self.root.deep_view().take(self.root@.len() as int) =~= self.root.deep_view());
        }
        let ghost prefix = joined.deep_view();
        let mut i: usize = 0;
        while i < own.len()
            invariant
                0 <= i <= own@.len(),
                joined.deep_view() == prefix + own.deep_view().take(i as int),
            decreases own@.len() - i,
        {
            let ghost before = joined.deep_view();
            joined.push(crate::path::clone_chars(&own[i]));
            proof {
                assert(joined.deep_view() =~= before.push(own@[i as int]@));
                assert(own.deep_view().take(i + 1) =~= own.deep_view().take(i as int).push(
                    own@[i as int]@,
                ));
            }
            i = i + 1;
        }
        proof {
            assert(own.deep_view().take(own@.len() as int) =~= own.deep_view());
            if path_absolute {
                assert(joined.deep_view() =~= path_components(path@));
            } else {
                assert(joined.deep_view() =~= self.root.deep_view() + path_components(path@));
            }
        }
        let folded = match fold_dots_exec(&joined) {
            None => {
                return None;
            },
            Some(folded) => folded,
        };
        let absolute = path_absolute || self.root_absolute;
        if absolute != self.root_absolute {
            return None;
        }
        let shared = crate::path::shared_prefix_len(&self.root, &folded);
        if shared != self.root.len() {
            return None;
        }
        proof {
            crate::path::lemma_common_prefix_len(self.root.deep_view(), folded.deep_view());
        }
        let mut rest: Vec<Vec<char>> = Vec::new();
        let mut i = shared;
        while i < folded.len()
            invariant
                shared <= i <= folded@.len(),
                rest.deep_view() == folded.deep_view().subrange(shared as int, i as int),
            decreases folded@.len() - i,
        {
            let ghost before = rest.deep_view();
            rest.push(crate::path::clone_chars(&folded[i]));
            proof {
                assert(rest.deep_view() =~= before.push(folded@[i as int]@));
                assert(folded.deep_view().subrange(shared as int, i + 1) =~= folded.deep_view().subrange(
                    shared as int,
                    i as int,
                ).push(folded@[i as int]@));
            }
            i = i + 1;
        }
        assert(rest.deep_view() =~= folded.deep_view().skip(self.root@.len() as int));
        Some(rest)
    }
}

/// Folds `.` away and `..` into its parent; `None` when `..` climbs above the start.
pub fn fold_dots_exec(components: &Vec<Vec<char>>) -> (folded: Option<Vec<Vec<char>>>)
    ensures
        match folded {
            Some(f) => fold_dots(components.deep_view()) == Some(f.deep_view()),
            None => fold_dots(components.deep_view()) is None,
        },
{
    let mut folded: Vec<Vec<char>> = Vec::new();
    let mut i: usize = 0;
    while i < components.len()
        invariant
            0 <= i <= components@.len(),
            fold_dots(components.deep_view().take(i as int)) == Some(folded.deep_view()),
        decreases components@.len() - i,
    {
        let ghost before = folded.deep_view();
        proof {
            assert(components.deep_view().take(i + 1).drop_last() =~= components.deep_view().take(
                i as int,
            ));
            assert(components.deep_view().take(i + 1).last() == components@[i as int]@);
        }
        let c = &components[i];
        let is_parent = c.len() == 2 && c[0] == '.' && c[1] == '.';
        proof {
            if is_parent {
                assert(c@ =~= seq!['.', '.']);
            }
            if c@ == seq!['.', '.'] {
                assert(c@[0] == '.' && c@[1] == '.');
            }
        }
        if is_parent {
            if folded.len() == 0 {
                proof {
                    lemma_fold_dots_none_extends(components.deep_view(), (i + 1) as nat);
                }
                return None;
            }
            folded.pop();
            proof {
                assert(folded.deep_view() =~= before.drop_last());
            }
        } else {
            folded.push(crate::path::clone_chars(c));
            proof {
                assert(folded.deep_view() =~= before.push(c@));
            }
        }
        i = i + 1;
    }
    proof {
        assert(components.deep_view().take(components@.len() as int) =~= components.deep_view());
    }
    Some(folded)
}

proof fn lemma_fold_dots_none_extends(s: Seq<Seq<char>>, i: nat)
    requires
        i <= s.len(),
        fold_dots(s.take(i as int)) is None,
    ensures
        fold_dots(s) is None,
    decreases s.len() - i,
{
    if i < s.len() {
        assert(s.take(i + 1int).drop_last() =~= s.take(i as int));
        lemma_fold_dots_none_extends(s, i + 1);
    } else {
        assert(s.take(i as int) =~= s);
    }
}

/// Which declaration a file falls under.
pub enum DeclaredDomain {
    /// None.
    Undeclared,
    /// This one.
    Declared(Seq<char>),
    /// Two with different names: the first that matches, and the first after it whose name
    /// differs.
    Ambiguous(Seq<char>, Seq<char>),
}

/// The index of the first declaration from `from` on whose globs match.
pub open spec fn first_matching(
    globs: Seq<Seq<Seq<SegmentView>>>,
    components: Seq<Seq<char>>,
    from: nat,
) -> Option<nat>
    decreases globs.len() - from,
{
    if from >= globs.len() {
        None
    } else if declaration_matches(globs[from as int], components) {
        Some(from)
    } else {
        first_matching(globs, components, from + 1)
    }
}

/// The index of the first declaration after `first` that matches with a different name.
pub open spec fn first_conflict(
    names: Seq<Seq<char>>,
    globs: Seq<Seq<Seq<SegmentView>>>,
    components: Seq<Seq<char>>,
    first: nat,
    from: nat,
) -> Option<nat>
    decreases globs.len() - from,
{
    if from >= globs.len() {
        None
    } else if declaration_matches(globs[from as int], components) && names[from as int]
        != names[first as int] {
        Some(from)
    } else {
        first_conflict(names, globs, components, first, from + 1)
    }
}

/// The declaration a file's components fall under, given the declarations' names and globs.
pub open spec fn declared_domain(
    names: Seq<Seq<char>>,
    globs: Seq<Seq<Seq<SegmentView>>>,
    components: Option<Seq<Seq<char>>>,
) -> DeclaredDomain {
    match components {
        None => DeclaredDomain::Undeclared,
        Some(c) => match first_matching(globs, c, 0) {
            None => DeclaredDomain::Undeclared,
            Some(first) => match first_conflict(names, globs, c, first, first + 1) {
                None => DeclaredDomain::Declared(names[first as int]),
                Some(second) => DeclaredDomain::Ambiguous(
                    names[first as int],
                    names[second as int],
                ),
            },
        },
    }
}

proof fn lemma_first_matching_none(
    globs: Seq<Seq<Seq<SegmentView>>>,
    components: Seq<Seq<char>>,
    from: nat,
)
    requires
        forall|j: int| from <= j < globs.len() ==> !declaration_matches(#[trigger] globs[j], components),
    ensures
        first_matching(globs, components, from) is None,
    decreases globs.len() - from,
{
    if from < globs.len() {
        lemma_first_matching_none(globs, components, from + 1);
    }
}

proof fn lemma_first_matching_is(
    globs: Seq<Seq<Seq<SegmentView>>>,
    components: Seq<Seq<char>>,
    first: nat,
)
    requires
        first < globs.len(),
        declaration_matches(globs[first as int], components),
        forall|j: int| 0 <= j < first ==> !declaration_matches(#[trigger] globs[j], components),
    ensures
        first_matching(globs, components, 0) == Some(first),
{
    lemma_first_matching_from(globs, components, 0, first);
}

proof fn lemma_first_matching_from(
    globs: Seq<Seq<Seq<SegmentView>>>,
    components: Seq<Seq<char>>,
    from: nat,
    first: nat,
)
    requires
        from <= first < globs.len(),
        declaration_matches(globs[first as int], components),
        forall|j: int| from <= j < first ==> !declaration_matches(#[trigger] globs[j], components),
    ensures
        first_matching(globs, components, from) == Some(first),
    decreases first - from,
{
    if from < first {
        lemma_first_matching_from(globs, components, from + 1, first);
    }
}

proof fn lemma_first_conflict_is(
    names: Seq<Seq<char>>,
    globs: Seq<Seq<Seq<SegmentView>>>,
    components: Seq<Seq<char>>,
    first: nat,
    second: nat,
)
    requires
        first < second < globs.len(),
        declaration_matches(globs[second as int], components),
        names[second as int] != names[first as int],
        forall|j: int|
            first < j < second ==> !(declaration_matches(#[trigger] globs[j], components)
                && names[j] != names[first as int]),
    ensures
        first_conflict(names, globs, components, first, first + 1) == Some(second),
{
    lemma_first_conflict_from(names, globs, components, first, first + 1, second);
}

proof fn lemma_first_conflict_from(
    names: Seq<Seq<char>>,
    globs: Seq<Seq<Seq<SegmentView>>>,
    components: Seq<Seq<char>>,
    first: nat,
    from: nat,
    second: nat,
)
    requires
        from <= second < globs.len(),
        declaration_matches(globs[second as int], components),
        names[second as int] != names[first as int],
        forall|j: int|
            from <= j < second ==> !(declaration_matches(#[trigger] globs[j], components)
                && names[j] != names[first as int]),
    ensures
        first_conflict(names, globs, components, first, from) == Some(second),
    decreases second - from,
{
    if from < second {
        lemma_first_conflict_from(names, globs, components, first, from + 1, second);
    }
}

proof fn lemma_first_conflict_none(
    names: Seq<Seq<char>>,
    globs: Seq<Seq<Seq<SegmentView>>>,
    components: Seq<Seq<char>>,
    first: nat,
)
    requires
        forall|j: int|
            first < j < globs.len() ==> !(declaration_matches(#[trigger] globs[j], components)
                && names[j] != names[first as int]),
    ensures
        first_conflict(names, globs, components, first, first + 1) is None,
{
    lemma_first_conflict_none_from(names, globs, components, first, first + 1);
}

proof fn lemma_first_conflict_none_from(
    names: Seq<Seq<char>>,
    globs: Seq<Seq<Seq<SegmentView>>>,
    components: Seq<Seq<char>>,
    first: nat,
    from: nat,
)
    requires
        first < from,
        forall|j: int|
            from <= j < globs.len() ==> !(declaration_matches(#[trigger] globs[j], components)
                && names[j] != names[first as int]),
    ensures
        first_conflict(names, globs, components, first, from) is None,
    decreases globs.len() - from,
{
    if from < globs.len() {
        lemma_first_conflict_none_from(names, globs, components, first, from + 1);
    }
}

/// What the first matching declaration from `from` on is: one that matches, with none
/// before it; or, where there is none, no declaration from there on matches.
proof fn lemma_first_matching_found(
    globs: Seq<Seq<Seq<SegmentView>>>,
    components: Seq<Seq<char>>,
    from: nat,
)
    ensures
        match first_matching(globs, components, from) {
            None => forall|j: int|
                from <= j < globs.len() ==> !declaration_matches(#[trigger] globs[j], components),
            Some(f) => from <= f < globs.len() && declaration_matches(globs[f as int], components)
                && forall|j: int|
                from <= j < f ==> !declaration_matches(#[trigger] globs[j], components),
        },
    decreases globs.len() - from,
{
    if from < globs.len() {
        lemma_first_matching_found(globs, components, from + 1);
    }
}

/// What the first conflict from `from` on is: a matching declaration with another name;
/// or, where there is none, every matching declaration from there on has the first's name.
proof fn lemma_first_conflict_found(
    names: Seq<Seq<char>>,
    globs: Seq<Seq<Seq<SegmentView>>>,
    components: Seq<Seq<char>>,
    first: nat,
    from: nat,
)
    ensures
        match first_conflict(names, globs, components, first, from) {
            None => forall|j: int|
                from <= j < globs.len() && declaration_matches(#[trigger] globs[j], components)
                    ==> names[j] == names[first as int],
            Some(s) => from <= s < globs.len() && declaration_matches(globs[s as int], components)
                && names[s as int] != names[first as int],
        },
    decreases globs.len() - from,
{
    if from < globs.len() {
        lemma_first_conflict_found(names, globs, components, first, from + 1);
    }
}

/// Whether some declaration whose globs match the components has the name `name`.
pub open spec fn a_match_is_named(
    names: Seq<Seq<char>>,
    globs: Seq<Seq<Seq<SegmentView>>>,
    components: Seq<Seq<char>>,
    name: Seq<char>,
) -> bool {
    exists|j: int|
        0 <= j < globs.len() && #[trigger] declaration_matches(globs[j], components) && names[j]
            == name
}

/// The domain a file falls under depends only on the names of the declarations that match
/// it: none is no domain; one name, that domain; two names, ambiguous between two of them.
pub proof fn lemma_declared_domain_is_the_matching_names(
    names: Seq<Seq<char>>,
    globs: Seq<Seq<Seq<SegmentView>>>,
    components: Seq<Seq<char>>,
)
    requires
        names.len() == globs.len(),
    ensures
        declared_domain(names, globs, Some(components)) is Undeclared <==> !exists|j: int|
            0 <= j < globs.len() && #[trigger] declaration_matches(globs[j], components),
        declared_domain(names, globs, Some(components)) matches DeclaredDomain::Declared(n) ==> (
        a_match_is_named(names, globs, components, n) && forall|j: int|
            0 <= j < globs.len() && #[trigger] declaration_matches(globs[j], components)
                ==> names[j] == n),
        declared_domain(names, globs, Some(components)) matches DeclaredDomain::Ambiguous(a, b)
            ==> (a != b && a_match_is_named(names, globs, components, a) && a_match_is_named(
            names,
            globs,
            components,
            b,
        )),
        (exists|j: int, k: int|
            0 <= j < globs.len() && 0 <= k < globs.len() && #[trigger] declaration_matches(
                globs[j],
                components,
            ) && #[trigger] declaration_matches(globs[k], components) && names[j] != names[k])
            <==> declared_domain(names, globs, Some(components)) is Ambiguous,
{
    lemma_first_matching_found(globs, components, 0);
    match first_matching(globs, components, 0) {
        None => {},
        Some(first) => {
            lemma_first_conflict_found(names, globs, components, first, first + 1);
            assert(declaration_matches(globs[first as int], components));
            match first_conflict(names, globs, components, first, first + 1) {
                None => {
                    assert forall|j: int|
                        0 <= j < globs.len() && #[trigger] declaration_matches(globs[j], components)
                            implies names[j] == names[first as int] by {
                        if j < first {
                        } else if j > first {
                        }
                    }
                },
                Some(second) => {
                    assert(declaration_matches(globs[second as int], components));
                },
            }
        },
    }
}

/// Whether some place of an order holds the declaration `j`.
pub open spec fn placed(order: Seq<int>, j: int) -> bool {
    exists|i: int| 0 <= i < order.len() && order[i] == j
}

/// Declaration order never decides a domain: the same declarations written in another order
/// (`order` lists, for each place, which declaration stands there; every declaration once)
/// give a file no domain, the same domain, or an ambiguity, just as before.
pub proof fn lemma_declaration_order_never_decides(
    names: Seq<Seq<char>>,
    globs: Seq<Seq<Seq<SegmentView>>>,
    order: Seq<int>,
    components: Option<Seq<Seq<char>>>,
)
    requires
        names.len() == globs.len(),
        order.len() == names.len(),
        forall|i: int| 0 <= i < order.len() ==> 0 <= #[trigger] order[i] < names.len(),
        forall|i: int, k: int|
            0 <= i < order.len() && 0 <= k < order.len() && i != k ==> #[trigger] order[i]
                != #[trigger] order[k],
        forall|j: int| 0 <= j < names.len() ==> #[trigger] placed(order, j),
    ensures
        ({
            let reordered = declared_domain(
                Seq::new(names.len(), |i: int| names[order[i]]),
                Seq::new(globs.len(), |i: int| globs[order[i]]),
                components,
            );
            let written = declared_domain(names, globs, components);
            &&& (reordered is Undeclared <==> written is Undeclared)
            &&& (reordered is Ambiguous <==> written is Ambiguous)
            &&& (written matches DeclaredDomain::Declared(n) ==> reordered == DeclaredDomain::Declared(n))
        }),
{
    if let Some(c) = components {
        let names2 = Seq::new(names.len(), |i: int| names[order[i]]);
        let globs2 = Seq::new(globs.len(), |i: int| globs[order[i]]);
        lemma_declared_domain_is_the_matching_names(names, globs, c);
        lemma_declared_domain_is_the_matching_names(names2, globs2, c);
        // A matching declaration at a place is one in the written list, and the other way.
        assert forall|i: int| 0 <= i < globs2.len() && #[trigger] declaration_matches(globs2[i], c)
            implies declaration_matches(globs[order[i]], c) && names2[i] == names[order[i]] by {}
        assert forall|j: int| 0 <= j < globs.len() && #[trigger] declaration_matches(globs[j], c)
            implies exists|i: int| 0 <= i < globs2.len() && declaration_matches(globs2[i], c) && names2[i] == names[j] by {
            assert(placed(order, j));
            let i = choose|i: int| 0 <= i < order.len() && order[i] == j;
            assert(globs2[i] == globs[j]);
        }
        let written = declared_domain(names, globs, Some(c));
        let reordered = declared_domain(names2, globs2, Some(c));
        if written is Undeclared {
            if !(reordered is Undeclared) {
                let i = choose|i: int| 0 <= i < globs2.len() && #[trigger] declaration_matches(globs2[i], c);
                assert(declaration_matches(globs[order[i]], c));
            }
        } else {
            let j = choose|j: int| 0 <= j < globs.len() && #[trigger] declaration_matches(globs[j], c);
            let i = choose|i: int| 0 <= i < globs2.len() && declaration_matches(globs2[i], c) && names2[i] == names[j];
            assert(declaration_matches(globs2[i], c));
        }
        if written is Ambiguous {
            let (j, k) = choose|j: int, k: int|
                0 <= j < globs.len() && 0 <= k < globs.len() && #[trigger] declaration_matches(
                    globs[j],
                    c,
                ) && #[trigger] declaration_matches(globs[k], c) && names[j] != names[k];
            let i = choose|i: int| 0 <= i < globs2.len() && declaration_matches(globs2[i], c) && names2[i] == names[j];
            let l = choose|l: int| 0 <= l < globs2.len() && declaration_matches(globs2[l], c) && names2[l] == names[k];
            assert(declaration_matches(globs2[i], c) && declaration_matches(globs2[l], c));
        }
        if reordered is Ambiguous {
            let (i, l) = choose|i: int, l: int|
                0 <= i < globs2.len() && 0 <= l < globs2.len() && #[trigger] declaration_matches(
                    globs2[i],
                    c,
                ) && #[trigger] declaration_matches(globs2[l], c) && names2[i] != names2[l];
            assert(declaration_matches(globs[order[i]], c) && declaration_matches(globs[order[l]], c));
        }
        if let DeclaredDomain::Declared(n) = written {
            if let DeclaredDomain::Declared(m) = reordered {
                let i = choose|i: int| 0 <= i < globs2.len() && #[trigger] declaration_matches(globs2[i], c) && names2[i] == m;
                assert(declaration_matches(globs[order[i]], c));
            }
        }
    }
}

} // verus!
