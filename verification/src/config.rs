//! Reads the settings in `dryguard.toml`: the thresholds and the domain declarations.
//!
//! Only the part of TOML these settings need is read: `[thresholds]` with three decimal
//! values, and `[domains]` with a one-line array of double-quoted globs per name. Whatever
//! falls outside that is reported with its line, never skipped: a setting silently
//! dropped looks like a setting that had no effect.
use vstd::prelude::*;

use crate::classification::ConfiguredThresholds;
use crate::domain_declaration::{
    first_problem, first_unsupported, fold_dots, is_bare_key, segment_problem, segment_view_of,
    DomainDeclaration, DomainDeclarations, DomainName, DomainPattern, DomainPatternError,
    SegmentView,
};
use crate::line_number::LineNumber;
use crate::path::{is_absolute, path_components, split_on};
use crate::text::{
    chars_of, first_index, first_index_of, lines_of, text_lines, lemma_chars_deep_view, lemma_first_index,
    lemma_leading_space_count, slice_of, spells, string_of, trim, trim_start, trimmed,
    trimmed_start,
};
use crate::threshold::{parsed_threshold, Threshold, ThresholdParseError, ThresholdReading};

verus! {

broadcast use lemma_chars_deep_view;

/// The name of the settings file, looked for in the directory being scanned.
pub const CONFIG_FILE_NAME: &'static str = "dryguard.toml";

/// The settings: the thresholds, and the domains declared by name.
#[derive(Debug, PartialEq, Eq)]
pub struct Configuration {
    thresholds: ConfiguredThresholds,
    domain_declarations: DomainDeclarations,
}

impl Configuration {
    pub closed spec fn thresholds_view(&self) -> ConfiguredThresholds {
        self.thresholds
    }

    pub closed spec fn declarations_view(&self) -> DomainDeclarations {
        self.domain_declarations
    }

    /// The thresholds, each at its default unless the settings write it.
    pub fn thresholds(&self) -> (thresholds: ConfiguredThresholds)
        ensures
            thresholds == self.thresholds_view(),
    {
        self.thresholds
    }

    /// The declared domains.
    pub fn domain_declarations(&self) -> (declarations: &DomainDeclarations)
        ensures
            *declarations == self.declarations_view(),
    {
        &self.domain_declarations
    }
}

impl Default for Configuration {
    /// The settings of a directory without `dryguard.toml`: default thresholds, no domain.
    fn default() -> (configuration: Self)
        ensures
            configuration.thresholds_view().structural_similarity_view() == Threshold::spec_half(),
            configuration.thresholds_view().shared_imports_view() == Threshold::spec_half(),
            configuration.thresholds_view().shared_caller_domains_view() == Threshold::spec_half(),
            configuration.declarations_view().names_view().len() == 0,
    {
        Configuration {
            thresholds: ConfiguredThresholds::default(),
            domain_declarations: DomainDeclarations::empty(),
        }
    }
}

/// A settings text that could not be read, with the line where it went wrong.
#[derive(Debug, PartialEq, Eq)]
pub struct MalformedConfig {
    line: LineNumber,
    reason: MalformedReason,
}

/// What was wrong with a line of the settings.
#[derive(Debug, Clone, PartialEq, Eq)]
pub enum MalformedReason {
    /// A table other than `[thresholds]` and `[domains]`. Holds its name.
    UnknownTable(String),
    /// Neither a table header nor `key = value`. Holds the line's content.
    NotAKeyValue(String),
    /// `key = value` before any table header. Holds the key.
    KeyOutsideTable(String),
    /// A key `[thresholds]` does not know. Holds the key.
    UnknownKey(String),
    /// A key written twice in one table. Holds the key.
    DuplicateKey(String),
    /// A threshold value that could not be read.
    Threshold(ThresholdParseError),
    /// A domain name other than a bare key. Holds the name as written.
    InvalidDomainName(String),
    /// A domain value other than a one-line array of double-quoted strings. Holds the value.
    NotAStringArray(String),
    /// A domain with no glob. Holds its name.
    EmptyDomain(String),
    /// A glob that could not be read.
    DomainPattern(DomainPatternError),
}

impl MalformedConfig {
    pub closed spec fn line_view(&self) -> nat {
        self.line.spec_get()
    }

    pub closed spec fn reason_view(&self) -> MalformedReason {
        self.reason
    }

    /// The line that could not be read, counted from 1.
    pub fn line(&self) -> (line: LineNumber)
        ensures
            line.spec_get() == self.line_view(),
    {
        self.line
    }

    /// What was wrong with it.
    pub fn reason(&self) -> (reason: &MalformedReason)
        ensures
            *reason == self.reason_view(),
    {
        &self.reason
    }
}

/// The table a line belongs to.
pub enum TableView {
    Outside,
    Thresholds,
    Domains,
}

/// What has been read so far: the current table, each threshold written as
/// `(numerator, scale)`, and the declarations' names and globs.
pub struct ReadState {
    pub table: TableView,
    pub structural_similarity: Option<(nat, nat)>,
    pub shared_imports: Option<(nat, nat)>,
    pub shared_caller_domains: Option<(nat, nat)>,
    pub names: Seq<Seq<char>>,
    pub globs: Seq<Seq<Seq<SegmentView>>>,
}

/// What was wrong with a line, with the text it is reported with.
pub enum Malformation {
    UnknownTable(Seq<char>),
    NotAKeyValue(Seq<char>),
    KeyOutsideTable(Seq<char>),
    UnknownKey(Seq<char>),
    DuplicateKey(Seq<char>),
    /// The threshold value that could not be read.
    Threshold(Seq<char>),
    InvalidDomainName(Seq<char>),
    NotAStringArray(Seq<char>),
    EmptyDomain(Seq<char>),
    /// The first glob that could not be read.
    DomainPattern(Seq<char>),
}

/// The outcome of reading some lines: a state, or the first malformed line (counted from 1).
pub enum Reading {
    Read(ReadState),
    Malformed(nat, Malformation),
}

/// The number of double quotes in a text.
pub open spec fn quote_count(s: Seq<char>) -> nat
    decreases s.len(),
{
    if s.len() == 0 {
        0
    } else {
        quote_count(s.drop_last()) + if s.last() == '"' {
            1nat
        } else {
            0nat
        }
    }
}

/// The first `#` at or after `i` outside double quotes; the length when there is none.
pub open spec fn comment_start_from(s: Seq<char>, i: nat) -> nat
    decreases s.len() - i,
{
    if i >= s.len() {
        s.len()
    } else if s[i as int] == '#' && quote_count(s.take(i as int)) % 2 == 0 {
        i
    } else {
        comment_start_from(s, i + 1)
    }
}

/// A line without its comment: everything from the first `#` outside a string on.
pub open spec fn without_comment(s: Seq<char>) -> Seq<char> {
    s.take(comment_start_from(s, 0) as int)
}

/// The name inside `[` and `]`, trimmed, when the content is a table header.
pub open spec fn table_name(content: Seq<char>) -> Option<Seq<char>> {
    if content.len() >= 2 && content[0] == '[' && content.last() == ']' {
        Some(trim(content.subrange(1, content.len() - 1)))
    } else {
        None
    }
}

pub proof fn lemma_trim_start_len(s: Seq<char>)
    ensures
        trim_start(s).len() <= s.len(),
{
    lemma_leading_space_count(s);
}

/// The strings of the items from `rest` on: `"…"` items separated by commas, a trailing
/// comma allowed.
pub open spec fn array_items(rest: Seq<char>) -> Option<Seq<Seq<char>>>
    decreases rest.len(),
{
    let r = trim_start(rest);
    if r.len() == 0 {
        Some(Seq::empty())
    } else if r[0] != '"' {
        None
    } else {
        match first_index(r.drop_first(), '"') {
            None => None,
            Some(j) => {
                let item = r.drop_first().take(j as int);
                let after = trim_start(r.drop_first().skip(j as int + 1));
                if after.len() == 0 {
                    Some(seq![item])
                } else if after[0] != ',' {
                    None
                } else {
                    proof {
                        lemma_trim_start_len(rest);
                        lemma_first_index(r.drop_first(), '"');
                        lemma_trim_start_len(r.drop_first().skip(j as int + 1));
                    }
                    match array_items(after.drop_first()) {
                        Some(tail) => Some(seq![item] + tail),
                        None => None,
                    }
                }
            },
        }
    }
}

/// The strings of a one-line array of double-quoted strings.
pub open spec fn array_strings(value: Seq<char>) -> Option<Seq<Seq<char>>> {
    if value.len() >= 2 && value[0] == '[' && value.last() == ']' {
        array_items(value.subrange(1, value.len() - 1))
    } else {
        None
    }
}

/// A glob [`DomainPattern::parse`] reads.
pub open spec fn pattern_ok(glob: Seq<char>) -> bool {
    glob.len() > 0 && glob[0] != '/' && first_unsupported(glob) is None && first_problem(
        split_on(glob, '/'),
    ) is None
}

/// The segments of a glob that reads.
pub open spec fn pattern_segments(glob: Seq<char>) -> Seq<SegmentView> {
    split_on(glob, '/').map_values(|segment: Seq<char>| segment_view_of(segment))
}

/// The position of the first glob that does not read.
pub open spec fn first_bad_pattern(globs: Seq<Seq<char>>) -> Option<nat>
    decreases globs.len(),
{
    if globs.len() == 0 {
        None
    } else if !pattern_ok(globs[0]) {
        Some(0)
    } else {
        match first_bad_pattern(globs.drop_first()) {
            Some(i) => Some(i + 1),
            None => None,
        }
    }
}

/// The line number of the line at `index`, as [`LineNumber::from_index`] gives it.
pub open spec fn line_at(index: nat) -> nat {
    if index + 1 > usize::MAX {
        usize::MAX as nat
    } else {
        index + 1
    }
}

/// The state after a `[thresholds]` line `key = value`.
pub open spec fn threshold_line(state: ReadState, line: nat, key: Seq<char>, value: Seq<char>) -> Reading {
    let slot = if key == "structural_similarity"@ {
        Some(state.structural_similarity)
    } else if key == "shared_imports"@ {
        Some(state.shared_imports)
    } else if key == "shared_caller_domains"@ {
        Some(state.shared_caller_domains)
    } else {
        None
    };
    match slot {
        None => Reading::Malformed(line, Malformation::UnknownKey(key)),
        Some(Some(_)) => Reading::Malformed(line, Malformation::DuplicateKey(key)),
        Some(None) => match parsed_threshold(value) {
            ThresholdReading::Value { numerator, scale } => {
                let written = Some((numerator as nat, scale as nat));
                Reading::Read(
                    if key == "structural_similarity"@ {
                        ReadState { structural_similarity: written, ..state }
                    } else if key == "shared_imports"@ {
                        ReadState { shared_imports: written, ..state }
                    } else {
                        ReadState { shared_caller_domains: written, ..state }
                    },
                )
            },
            _ => Reading::Malformed(line, Malformation::Threshold(value)),
        },
    }
}

/// The state after a `[domains]` line `key = value`.
pub open spec fn domain_line(state: ReadState, line: nat, key: Seq<char>, value: Seq<char>) -> Reading {
    if !is_bare_key(key) {
        Reading::Malformed(line, Malformation::InvalidDomainName(key))
    } else {
        match array_strings(value) {
            None => Reading::Malformed(line, Malformation::NotAStringArray(value)),
            Some(globs) => match first_bad_pattern(globs) {
                Some(j) => Reading::Malformed(line, Malformation::DomainPattern(globs[j as int])),
                None => if globs.len() == 0 {
                    Reading::Malformed(line, Malformation::EmptyDomain(key))
                } else if state.names.contains(key) {
                    Reading::Malformed(line, Malformation::DuplicateKey(key))
                } else {
                    Reading::Read(
                        ReadState {
                            names: state.names.push(key),
                            globs: state.globs.push(
                                globs.map_values(|g: Seq<char>| pattern_segments(g)),
                            ),
                            ..state
                        },
                    )
                },
            },
        }
    }
}

/// The state after the line at `index`.
pub open spec fn read_line(state: ReadState, index: nat, raw: Seq<char>) -> Reading {
    let line = line_at(index);
    let content = trim(without_comment(raw));
    if content.len() == 0 {
        Reading::Read(state)
    } else {
        match table_name(content) {
            Some(name) => if name == "thresholds"@ {
                Reading::Read(ReadState { table: TableView::Thresholds, ..state })
            } else if name == "domains"@ {
                Reading::Read(ReadState { table: TableView::Domains, ..state })
            } else {
                Reading::Malformed(line, Malformation::UnknownTable(name))
            },
            None => match first_index(content, '=') {
                None => Reading::Malformed(line, Malformation::NotAKeyValue(content)),
                Some(i) => {
                    let key = trim(content.take(i as int));
                    let value = trim(content.skip(i as int + 1));
                    match state.table {
                        TableView::Outside => Reading::Malformed(
                            line,
                            Malformation::KeyOutsideTable(key),
                        ),
                        TableView::Thresholds => threshold_line(state, line, key, value),
                        TableView::Domains => domain_line(state, line, key, value),
                    }
                },
            },
        }
    }
}

/// Nothing read yet.
pub open spec fn initial_state() -> ReadState {
    ReadState {
        table: TableView::Outside,
        structural_similarity: None,
        shared_imports: None,
        shared_caller_domains: None,
        names: Seq::empty(),
        globs: Seq::empty(),
    }
}

/// The outcome of reading the lines in order, stopping at the first malformed one.
pub open spec fn reading_of_lines(lines: Seq<Seq<char>>) -> Reading
    decreases lines.len(),
{
    if lines.len() == 0 {
        Reading::Read(initial_state())
    } else {
        match reading_of_lines(lines.drop_last()) {
            Reading::Malformed(line, m) => Reading::Malformed(line, m),
            Reading::Read(state) => read_line(state, (lines.len() - 1) as nat, lines.last()),
        }
    }
}

/// The outcome of reading a settings text.
pub open spec fn reading_of_text(text: Seq<char>) -> Reading {
    reading_of_lines(text_lines(text))
}

/// A threshold is the one written as `(numerator, scale)`, or one half when not written.
pub open spec fn written_or_half(threshold: Threshold, written: Option<(nat, nat)>) -> bool {
    match written {
        Some((numerator, scale)) => threshold.spec_numerator() == numerator && threshold.spec_scale()
            == scale,
        None => threshold == Threshold::spec_half(),
    }
}

/// The error [`Threshold::parse`] gives for `value`.
pub open spec fn threshold_error_of(error: ThresholdParseError, value: Seq<char>) -> bool {
    match error {
        ThresholdParseError::NotANumber(s) => s@ == value && parsed_threshold(value)
            == ThresholdReading::NotANumber,
        ThresholdParseError::OutOfRange(s) => s@ == value && parsed_threshold(value)
            == ThresholdReading::OutOfRange,
        ThresholdParseError::TooPrecise(s) => s@ == value && parsed_threshold(value)
            == ThresholdReading::TooPrecise,
    }
}

/// The error [`DomainPattern::parse`] gives for `glob`.
pub open spec fn pattern_error_of(error: DomainPatternError, glob: Seq<char>) -> bool {
    &&& glob.len() == 0 ==> error == DomainPatternError::Empty
    &&& glob.len() > 0 && glob[0] == '/' ==> (error matches DomainPatternError::Absolute(p) && p@
        == glob)
    &&& glob.len() > 0 && glob[0] != '/' ==> match first_unsupported(glob) {
        Some(i) => error matches DomainPatternError::UnsupportedCharacter { pattern, character }
            && pattern@ == glob && character == glob[i as int],
        None => match first_problem(split_on(glob, '/')) {
            Some(i) => {
                let kind = segment_problem(split_on(glob, '/')[i as int]);
                &&& kind == Some(1u8) ==> (error matches DomainPatternError::EmptySegment(p) && p@
                    == glob)
                &&& kind == Some(2u8) ==> (error matches DomainPatternError::RelativeSegment(p)
                    && p@ == glob)
                &&& kind == Some(3u8) ==> (error matches DomainPatternError::PartialAnyDepth(p)
                    && p@ == glob)
            },
            None => false,
        },
    }
}

/// The reason reports the malformation.
pub open spec fn reason_reports(reason: MalformedReason, m: Malformation) -> bool {
    match (reason, m) {
        (MalformedReason::UnknownTable(s), Malformation::UnknownTable(t)) => s@ == t,
        (MalformedReason::NotAKeyValue(s), Malformation::NotAKeyValue(t)) => s@ == t,
        (MalformedReason::KeyOutsideTable(s), Malformation::KeyOutsideTable(t)) => s@ == t,
        (MalformedReason::UnknownKey(s), Malformation::UnknownKey(t)) => s@ == t,
        (MalformedReason::DuplicateKey(s), Malformation::DuplicateKey(t)) => s@ == t,
        (MalformedReason::Threshold(e), Malformation::Threshold(v)) => threshold_error_of(e, v),
        (MalformedReason::InvalidDomainName(s), Malformation::InvalidDomainName(t)) => s@ == t,
        (MalformedReason::NotAStringArray(s), Malformation::NotAStringArray(t)) => s@ == t,
        (MalformedReason::EmptyDomain(s), Malformation::EmptyDomain(t)) => s@ == t,
        (MalformedReason::DomainPattern(e), Malformation::DomainPattern(g)) => pattern_error_of(e, g),
        _ => false,
    }
}

/// The configuration holds what was read, with the globs relative to `root`.
pub open spec fn configuration_holds(configuration: Configuration, state: ReadState, root: Seq<char>) -> bool {
    let thresholds = configuration.thresholds_view();
    let declarations = configuration.declarations_view();
    &&& written_or_half(thresholds.structural_similarity_view(), state.structural_similarity)
    &&& written_or_half(thresholds.shared_imports_view(), state.shared_imports)
    &&& written_or_half(thresholds.shared_caller_domains_view(), state.shared_caller_domains)
    &&& declarations.names_view() == state.names
    &&& declarations.globs_view() == state.globs
    &&& declarations.root_absolute_view() == is_absolute(root)
    &&& declarations.root_view() == match fold_dots(path_components(root)) {
        Some(folded) => folded,
        None => path_components(root),
    }
}

/// Reads a settings text. `root` is the directory holding it, from which globs are read.
///
/// # Errors
///
/// The first line that could not be read, with what was wrong with it.
pub fn configuration_of_text(text: &str, root: &str) -> (result: Result<Configuration, MalformedConfig>)
    ensures
        match reading_of_text(text@) {
            Reading::Read(state) => result matches Ok(c) && configuration_holds(c, state, root@),
            Reading::Malformed(line, m) => result matches Err(e) && e.line_view() == line
                && reason_reports(e.reason_view(), m),
        },
{
    let lines = lines_of(&chars_of(text));
    let mut written = WrittenThresholds {
        structural_similarity: None,
        shared_imports: None,
        shared_caller_domains: None,
    };
    let mut declarations: Vec<DomainDeclaration> = Vec::new();
    let mut table = TableState::Outside;
    let mut index: usize = 0;
    assert(state_of(table, written, declarations@) == initial_state()) by {
        assert(names_of(declarations@) =~= Seq::empty());
        assert(globs_of(declarations@) =~= Seq::empty());
    }
    assert(lines.deep_view().take(0) =~= Seq::empty());
    while index < lines.len()
        invariant
            0 <= index <= lines@.len(),
            lines.deep_view() == text_lines(text@),
            reading_of_lines(lines.deep_view().take(index as int)) == Reading::Read(
                state_of(table, written, declarations@),
            ),
        decreases lines@.len() - index,
    {
        proof {
            assert(lines.deep_view().take(index + 1).drop_last() =~= lines.deep_view().take(
                index as int,
            ));
            assert(lines.deep_view()[index as int] == lines@[index as int]@);
        }
        let ghost state = state_of(table, written, declarations@);
        let line = LineNumber::from_index(index);
        let content = trimmed(&without_comment_of(&lines[index]));
        if content.len() == 0 {
            index = index + 1;
            continue;
        }
        match table_name_of(&content) {
            Some(name) => {
                if spells(&name, "thresholds") {
                    table = TableState::Thresholds;
                } else if spells(&name, "domains") {
                    table = TableState::Domains;
                } else {
                    proof {
                        lemma_malformed_sticks(lines.deep_view(), (index + 1) as nat);
                    }
                    return Err(
                        MalformedConfig {
                            line,
                            reason: MalformedReason::UnknownTable(string_of(&name)),
                        },
                    );
                }
                index = index + 1;
                continue;
            },
            None => {},
        }
        let equals = match first_index_of(&content, '=') {
            Some(i) => i,
            None => {
                proof {
                    lemma_malformed_sticks(lines.deep_view(), (index + 1) as nat);
                }
                return Err(
                    MalformedConfig {
                        line,
                        reason: MalformedReason::NotAKeyValue(string_of(&content)),
                    },
                );
            },
        };
        proof {
            lemma_first_index(content@, '=');
        }
        let key = trimmed(&slice_of(&content, 0, equals));
        let value = trimmed(&slice_of(&content, equals + 1, content.len()));
        proof {
            assert(content@.subrange(0, equals as int) =~= content@.take(equals as int));
            assert(content@.subrange(equals + 1, content@.len() as int) =~= content@.skip(
                equals + 1,
            ));
        }
        match table {
            TableState::Outside => {
                proof {
                    lemma_malformed_sticks(lines.deep_view(), (index + 1) as nat);
                }
                return Err(
                    MalformedConfig {
                        line,
                        reason: MalformedReason::KeyOutsideTable(string_of(&key)),
                    },
                );
            },
            TableState::Thresholds => {
                match written.written(&key, &value, line) {
                    Ok(next) => {
                        written = next;
                    },
                    Err(malformed) => {
                        proof {
                            lemma_malformed_sticks(lines.deep_view(), (index + 1) as nat);
                        }
                        return Err(malformed);
                    },
                }
            },
            TableState::Domains => {
                let declaration = match declaration_of(&key, &value, line) {
                    Ok(declaration) => declaration,
                    Err(malformed) => {
                        proof {
                            lemma_malformed_sticks(lines.deep_view(), (index + 1) as nat);
                        }
                        return Err(malformed);
                    },
                };
                if declared(&declarations, declaration.name()) {
                    proof {
                        lemma_malformed_sticks(lines.deep_view(), (index + 1) as nat);
                    }
                    return Err(
                        MalformedConfig {
                            line,
                            reason: MalformedReason::DuplicateKey(string_of(&key)),
                        },
                    );
                }
                let ghost before = declarations@;
                declarations.push(declaration);
                proof {
                    assert(names_of(declarations@) =~= names_of(before).push(key@));
                    assert(globs_of(declarations@) =~= globs_of(before).push(
                        array_strings(value@)->Some_0.map_values(
                            |g: Seq<char>| pattern_segments(g),
                        ),
                    ));
                }
            },
        }
        index = index + 1;
    }
    proof {
        assert(lines.deep_view().take(index as int) =~= lines.deep_view());
    }
    let thresholds = written.applied_to(ConfiguredThresholds::default());
    let domain_declarations = DomainDeclarations::new(root, declarations);
    Ok(Configuration { thresholds, domain_declarations })
}

/// The table the lines being read belong to.
#[derive(Clone, Copy)]
enum TableState {
    Outside,
    Thresholds,
    Domains,
}

/// The thresholds written so far.
#[derive(Clone, Copy)]
struct WrittenThresholds {
    structural_similarity: Option<Threshold>,
    shared_imports: Option<Threshold>,
    shared_caller_domains: Option<Threshold>,
}

/// A written threshold as `(numerator, scale)`.
spec fn written_view(written: Option<Threshold>) -> Option<(nat, nat)> {
    match written {
        Some(t) => Some((t.spec_numerator(), t.spec_scale())),
        None => None,
    }
}

spec fn names_of(declarations: Seq<DomainDeclaration>) -> Seq<Seq<char>> {
    Seq::new(declarations.len(), |i: int| declarations[i].name_view())
}

spec fn globs_of(declarations: Seq<DomainDeclaration>) -> Seq<Seq<Seq<SegmentView>>> {
    Seq::new(declarations.len(), |i: int| declarations[i].patterns_view())
}

/// What the loop of [`configuration_of_text`] has read so far.
spec fn state_of(
    table: TableState,
    written: WrittenThresholds,
    declarations: Seq<DomainDeclaration>,
) -> ReadState {
    ReadState {
        table: match table {
            TableState::Outside => TableView::Outside,
            TableState::Thresholds => TableView::Thresholds,
            TableState::Domains => TableView::Domains,
        },
        structural_similarity: written_view(written.structural_similarity),
        shared_imports: written_view(written.shared_imports),
        shared_caller_domains: written_view(written.shared_caller_domains),
        names: names_of(declarations),
        globs: globs_of(declarations),
    }
}

impl WrittenThresholds {
    /// The thresholds after a `[thresholds]` line `key = value`.
    fn written(self, key: &Vec<char>, value: &Vec<char>, line: LineNumber) -> (result: Result<
        WrittenThresholds,
        MalformedConfig,
    >)
        ensures
            ({
                let state = ReadState {
                    table: TableView::Thresholds,
                    structural_similarity: written_view(self.structural_similarity),
                    shared_imports: written_view(self.shared_imports),
                    shared_caller_domains: written_view(self.shared_caller_domains),
                    names: Seq::empty(),
                    globs: Seq::empty(),
                };
                match threshold_line(state, line.spec_get(), key@, value@) {
                    Reading::Read(next) => result matches Ok(w) && written_view(
                        w.structural_similarity,
                    ) == next.structural_similarity && written_view(w.shared_imports)
                        == next.shared_imports && written_view(w.shared_caller_domains)
                        == next.shared_caller_domains,
                    Reading::Malformed(l, m) => result matches Err(e) && e.line_view() == l
                        && reason_reports(e.reason_view(), m),
                }
            }),
    {
        let slot = if spells(key, "structural_similarity") {
            self.structural_similarity
        } else if spells(key, "shared_imports") {
            self.shared_imports
        } else if spells(key, "shared_caller_domains") {
            self.shared_caller_domains
        } else {
            return Err(MalformedConfig { line, reason: MalformedReason::UnknownKey(string_of(key)) });
        };
        if slot.is_some() {
            return Err(
                MalformedConfig { line, reason: MalformedReason::DuplicateKey(string_of(key)) },
            );
        }
        let threshold = match Threshold::parse(string_of(value).as_str()) {
            Ok(threshold) => threshold,
            Err(error) => {
                return Err(MalformedConfig { line, reason: MalformedReason::Threshold(error) });
            },
        };
        threshold.check_wf();
        proof {
            threshold.lemma_bounds();
        }
        let mut next = self;
        if spells(key, "structural_similarity") {
            next.structural_similarity = Some(threshold);
        } else if spells(key, "shared_imports") {
            next.shared_imports = Some(threshold);
        } else {
            next.shared_caller_domains = Some(threshold);
        }
        Ok(next)
    }

    /// `base` with each written threshold in place of its own.
    fn applied_to(&self, base: ConfiguredThresholds) -> (thresholds: ConfiguredThresholds)
        requires
            base.structural_similarity_view() == Threshold::spec_half(),
            base.shared_imports_view() == Threshold::spec_half(),
            base.shared_caller_domains_view() == Threshold::spec_half(),
        ensures
            written_or_half(
                thresholds.structural_similarity_view(),
                written_view(self.structural_similarity),
            ),
            written_or_half(thresholds.shared_imports_view(), written_view(self.shared_imports)),
            written_or_half(
                thresholds.shared_caller_domains_view(),
                written_view(self.shared_caller_domains),
            ),
    {
        let mut thresholds = base;
        if let Some(threshold) = self.structural_similarity {
            thresholds = thresholds.with_structural_similarity(threshold);
        }
        if let Some(threshold) = self.shared_imports {
            thresholds = thresholds.with_shared_imports(threshold);
        }
        if let Some(threshold) = self.shared_caller_domains {
            thresholds = thresholds.with_shared_caller_domains(threshold);
        }
        thresholds
    }
}

/// Whether a declaration of this name was read already.
fn declared(declarations: &Vec<DomainDeclaration>, name: &DomainName) -> (found: bool)
    ensures
        found == names_of(declarations@).contains(name@),
{
    let mut i: usize = 0;
    while i < declarations.len()
        invariant
            0 <= i <= declarations@.len(),
            forall|j: int| 0 <= j < i ==> names_of(declarations@)[j] != name@,
        decreases declarations@.len() - i,
    {
        if declarations[i].name().same_as(name) {
            assert(names_of(declarations@)[i as int] == name@);
            return true;
        }
        i = i + 1;
    }
    proof {
        if names_of(declarations@).contains(name@) {
            let j = choose|j: int| 0 <= j < names_of(declarations@).len() && names_of(declarations@)[j] == name@;
            assert(names_of(declarations@)[j] != name@);
        }
    }
    false
}

/// The declaration of a `[domains]` line `key = value`; the check for a name read twice is
/// the caller's.
fn declaration_of(key: &Vec<char>, value: &Vec<char>, line: LineNumber) -> (result: Result<
    DomainDeclaration,
    MalformedConfig,
>)
    ensures
        match domain_line(
            ReadState {
                table: TableView::Domains,
                structural_similarity: None,
                shared_imports: None,
                shared_caller_domains: None,
                names: Seq::empty(),
                globs: Seq::empty(),
            },
            line.spec_get(),
            key@,
            value@,
        ) {
            Reading::Read(next) => result matches Ok(d) && d.name_view() == key@ && d.patterns_view()
                == next.globs.last(),
            Reading::Malformed(l, m) => result matches Err(e) && e.line_view() == l
                && reason_reports(e.reason_view(), m),
        },
{
    let spelling = string_of(key);
    let name = match DomainName::new(spelling.as_str()) {
        Some(name) => name,
        None => {
            return Err(MalformedConfig { line, reason: MalformedReason::InvalidDomainName(spelling) });
        },
    };
    let globs = match strings_of_array(value) {
        Some(globs) => globs,
        None => {
            return Err(
                MalformedConfig { line, reason: MalformedReason::NotAStringArray(string_of(value)) },
            );
        },
    };
    let mut patterns: Vec<DomainPattern> = Vec::new();
    let mut i: usize = 0;
    while i < globs.len()
        invariant
            0 <= i <= globs@.len(),
            patterns@.len() == i,
            is_bare_key(key@),
            array_strings(value@) == Some(globs.deep_view()),
            forall|j: int| 0 <= j < i ==> pattern_ok(#[trigger] globs.deep_view()[j]),
            forall|j: int|
                0 <= j < i ==> #[trigger] patterns@[j].segments_view() == pattern_segments(
                    globs.deep_view()[j],
                ),
        decreases globs@.len() - i,
    {
        assert(globs.deep_view()[i as int] == globs@[i as int]@);
        proof {
            lemma_first_problem(split_on(globs.deep_view()[i as int], '/'));
        }
        match DomainPattern::parse(string_of(&globs[i]).as_str()) {
            Ok(pattern) => {
                assert(pattern_ok(globs.deep_view()[i as int]));
                patterns.push(pattern);
            },
            Err(error) => {
                assert(!pattern_ok(globs.deep_view()[i as int]));
                proof {
                    lemma_first_bad_pattern(globs.deep_view(), i as nat);
                }
                assert(first_bad_pattern(globs.deep_view()) == Some(i as nat));
                assert(is_bare_key(key@));
                assert(array_strings(value@) == Some(globs.deep_view()));
                assert(pattern_error_of(error, globs.deep_view()[i as int]));
                return Err(MalformedConfig { line, reason: MalformedReason::DomainPattern(error) });
            },
        }
        i = i + 1;
    }
    proof {
        lemma_no_bad_pattern(globs.deep_view());
    }
    let ghost segments = globs.deep_view().map_values(|g: Seq<char>| pattern_segments(g));
    assert(Seq::new(patterns@.len(), |k: int| patterns@[k].segments_view()) =~= segments);
    match DomainDeclaration::new(name, patterns) {
        Some(declaration) => Ok(declaration),
        None => Err(MalformedConfig { line, reason: MalformedReason::EmptyDomain(spelling) }),
    }
}

/// The first problem found is within the segments and is a problem.
proof fn lemma_first_problem(segments: Seq<Seq<char>>)
    ensures
        first_problem(segments) matches Some(i) ==> i < segments.len() && segment_problem(
            segments[i as int],
        ) is Some,
    decreases segments.len(),
{
    if segments.len() > 0 {
        lemma_first_problem(segments.drop_first());
    }
}

/// Once a line is malformed, the lines after it do not change the outcome.
proof fn lemma_malformed_sticks(lines: Seq<Seq<char>>, k: nat)
    requires
        k <= lines.len(),
        reading_of_lines(lines.take(k as int)) is Malformed,
    ensures
        reading_of_lines(lines) == reading_of_lines(lines.take(k as int)),
    decreases lines.len(),
{
    if lines.len() == k {
        assert(lines.take(k as int) =~= lines);
    } else {
        assert(lines.drop_last().take(k as int) =~= lines.take(k as int));
        lemma_malformed_sticks(lines.drop_last(), k);
    }
}

/// The first bad glob is at `i` when every glob before it reads and it does not.
proof fn lemma_first_bad_pattern(globs: Seq<Seq<char>>, i: nat)
    requires
        i < globs.len(),
        forall|j: int| 0 <= j < i ==> pattern_ok(#[trigger] globs[j]),
        !pattern_ok(globs[i as int]),
    ensures
        first_bad_pattern(globs) == Some(i),
    decreases i,
{
    if i > 0 {
        assert forall|j: int| 0 <= j < i - 1 implies pattern_ok(#[trigger] globs.drop_first()[j]) by {
            assert(globs.drop_first()[j] == globs[j + 1]);
        }
        assert(pattern_ok(globs[0]));
        lemma_first_bad_pattern(globs.drop_first(), (i - 1) as nat);
    }
}

/// No glob is bad when every glob reads.
proof fn lemma_no_bad_pattern(globs: Seq<Seq<char>>)
    requires
        forall|j: int| 0 <= j < globs.len() ==> pattern_ok(#[trigger] globs[j]),
    ensures
        first_bad_pattern(globs) is None,
    decreases globs.len(),
{
    if globs.len() > 0 {
        assert forall|j: int| 0 <= j < globs.len() - 1 implies pattern_ok(
            #[trigger] globs.drop_first()[j],
        ) by {
            assert(globs.drop_first()[j] == globs[j + 1]);
        }
        assert(pattern_ok(globs[0]));
        lemma_no_bad_pattern(globs.drop_first());
    }
}

/// The strings of a one-line array of double-quoted strings; `None` for anything else.
fn strings_of_array(value: &Vec<char>) -> (strings: Option<Vec<Vec<char>>>)
    ensures
        match strings {
            Some(s) => array_strings(value@) == Some(s.deep_view()),
            None => array_strings(value@) is None,
        },
{
    if value.len() < 2 || value[0] != '[' || value[value.len() - 1] != ']' {
        return None;
    }
    let inner = slice_of(value, 1, value.len() - 1);
    items_of(&inner)
}

/// The strings of the items of an array from `rest` on.
fn items_of(rest: &Vec<char>) -> (strings: Option<Vec<Vec<char>>>)
    ensures
        match strings {
            Some(s) => array_items(rest@) == Some(s.deep_view()),
            None => array_items(rest@) is None,
        },
    decreases rest@.len(),
{
    let r = trimmed_start(rest);
    if r.len() == 0 {
        return Some(Vec::new());
    }
    if r[0] != '"' {
        return None;
    }
    let body = slice_of(&r, 1, r.len());
    assert(body@ =~= r@.drop_first());
    let close = match first_index_of(&body, '"') {
        Some(j) => j,
        None => {
            return None;
        },
    };
    proof {
        lemma_first_index(body@, '"');
    }
    let item = slice_of(&body, 0, close);
    assert(item@ =~= body@.take(close as int));
    let after_close = slice_of(&body, close + 1, body.len());
    assert(after_close@ =~= body@.skip(close + 1));
    let after = trimmed_start(&after_close);
    if after.len() == 0 {
        let mut strings: Vec<Vec<char>> = Vec::new();
        strings.push(item);
        assert(strings.deep_view() =~= seq![item@]);
        return Some(strings);
    }
    if after[0] != ',' {
        return None;
    }
    let tail_start = slice_of(&after, 1, after.len());
    assert(tail_start@ =~= after@.drop_first());
    proof {
        lemma_trim_start_len(rest@);
        lemma_trim_start_len(after_close@);
    }
    match items_of(&tail_start) {
        Some(tail) => {
            let mut strings: Vec<Vec<char>> = Vec::new();
            strings.push(item);
            let mut k: usize = 0;
            while k < tail.len()
                invariant
                    0 <= k <= tail@.len(),
                    strings.deep_view() == seq![item@] + tail.deep_view().take(k as int),
                decreases tail@.len() - k,
            {
                let ghost prior = strings.deep_view();
                strings.push(crate::path::clone_chars(&tail[k]));
                k = k + 1;
                assert(strings.deep_view() =~= seq![item@] + tail.deep_view().take(k as int)) by {
                    assert(strings.deep_view() =~= prior.push(tail.deep_view()[k - 1]));
                }
            }
            assert(tail.deep_view().take(k as int) =~= tail.deep_view());
            Some(strings)
        },
        None => None,
    }
}

/// A line without its comment: everything from the first `#` outside a string on.
fn without_comment_of(line: &Vec<char>) -> (content: Vec<char>)
    ensures
        content@ == without_comment(line@),
{
    let mut in_string = false;
    let mut i: usize = 0;
    while i < line.len()
        invariant
            0 <= i <= line@.len(),
            in_string == (quote_count(line@.take(i as int)) % 2 == 1),
            comment_start_from(line@, 0) == comment_start_from(line@, i as nat),
        decreases line@.len() - i,
    {
        assert(line@.take(i + 1).drop_last() =~= line@.take(i as int));
        if line[i] == '"' {
            in_string = !in_string;
        } else if line[i] == '#' && !in_string {
            return slice_of(line, 0, i);
        }
        i = i + 1;
    }
    slice_of(line, 0, line.len())
}

/// The trimmed name between `[` and `]`, when the content is a table header.
fn table_name_of(content: &Vec<char>) -> (name: Option<Vec<char>>)
    ensures
        match name {
            Some(n) => table_name(content@) == Some(n@),
            None => table_name(content@) is None,
        },
{
    if content.len() >= 2 && content[0] == '[' && content[content.len() - 1] == ']' {
        Some(trimmed(&slice_of(content, 1, content.len() - 1)))
    } else {
        None
    }
}

/// What reading the settings file came to.
#[derive(Debug)]
pub enum SettingsReading {
    /// No file there. Not an error: the defaults hold.
    Absent,
    /// A file is there but could not be read; `cause` is the file system's account of why.
    Unreadable { cause: String },
    /// The text of the file.
    Read { text: String },
}

/// Why the settings could not be had.
#[derive(Debug)]
pub enum ConfigError {
    /// The file is there but could not be read, or the directory holding it has no absolute
    /// path; `error` is the account of why.
    Unreadable { path: String, error: String },
    /// The file was read, and a line of it is wrong.
    Malformed { path: String, malformed: MalformedConfig },
}

/// The settings, given what reading the file at `path` came to and the absolute path of
/// the directory holding it (`root`, or why it has none), from which its globs are read.
///
/// A file that is not there leaves every setting at its default; one that is there but
/// could not be read is an error, not the same as absent.
///
/// # Errors
///
/// The file could not be read; it was read but its directory has no absolute path; it was
/// read and is malformed.
pub fn configuration_of_reading(
    path: &str,
    reading: SettingsReading,
    root: Result<String, String>,
) -> (result: Result<Configuration, ConfigError>)
    ensures
        reading is Absent ==> (result matches Ok(c) && c.thresholds_view().structural_similarity_view()
            == Threshold::spec_half() && c.thresholds_view().shared_imports_view()
            == Threshold::spec_half() && c.thresholds_view().shared_caller_domains_view()
            == Threshold::spec_half() && c.declarations_view().names_view().len() == 0),
        reading matches SettingsReading::Unreadable { cause } ==> (result matches Err(
            ConfigError::Unreadable { path: p, error },
        ) && p@ == path@ && error == cause),
        reading matches SettingsReading::Read { text } ==> match root {
            Err(cause) => result matches Err(ConfigError::Unreadable { path: p, error }) && p@
                == path@ && error == cause,
            Ok(r) => match reading_of_text(text@) {
                Reading::Read(state) => result matches Ok(c) && configuration_holds(c, state, r@),
                Reading::Malformed(line, m) => result matches Err(
                    ConfigError::Malformed { path: p, malformed: e },
                ) && p@ == path@ && e.line_view() == line && reason_reports(e.reason_view(), m),
            },
        },
{
    let text = match reading {
        SettingsReading::Absent => {
            return Ok(Configuration::default());
        },
        SettingsReading::Unreadable { cause } => {
            return Err(ConfigError::Unreadable { path: string_of(&chars_of(path)), error: cause });
        },
        SettingsReading::Read { text } => text,
    };
    let root = match root {
        Ok(root) => root,
        Err(cause) => {
            return Err(ConfigError::Unreadable { path: string_of(&chars_of(path)), error: cause });
        },
    };
    match configuration_of_text(text.as_str(), root.as_str()) {
        Ok(configuration) => Ok(configuration),
        Err(malformed) => Err(ConfigError::Malformed { path: string_of(&chars_of(path)), malformed }),
    }
}

} // verus!
