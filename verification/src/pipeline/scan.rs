//! A scan of a whole codebase: every pair of chunks compared once, nested pairs left out,
//! and the pairs similar enough kept as candidates, each with its classification.
use vstd::prelude::*;

use crate::classification::signal::Signals;
use crate::classification::{
    classification_of, classified_verdict, is_structurally_similar, reasons_of_signals, similar,
    Classification, ConfiguredThresholds,
};
use crate::line_number::LineNumber;
use crate::location::Location;

verus! {

/// A function or method cut out of a file: the file, and its first and last lines.
#[derive(Debug)]
pub struct Chunk {
    path: String,
    first: LineNumber,
    last: LineNumber,
}

/// A chunk as values: the file, the first line and the last line.
pub struct ChunkView {
    pub path: Seq<char>,
    pub first: nat,
    pub last: nat,
}

impl Chunk {
    pub closed spec fn view(&self) -> ChunkView {
        ChunkView { path: self.path@, first: self.first.spec_get(), last: self.last.spec_get() }
    }

    /// The chunk of a file between two lines, both included.
    pub fn new(path: String, first: LineNumber, last: LineNumber) -> (chunk: Chunk)
        ensures
            chunk@ == (ChunkView { path: path@, first: first.spec_get(), last: last.spec_get() }),
    {
        Chunk { path, first, last }
    }

    /// Where the chunk starts, as `compare` takes it.
    pub fn start(&self) -> (location: Location)
        ensures
            location.spec_path() == self@.path,
            location.spec_line() == self@.first,
    {
        Location::new(crate::text::string_of(&crate::text::chars_of(self.path.as_str())), self.first)
    }
}

/// Two chunks of one file whose lines overlap: a function and one inside it. Such a pair
/// counts the same code twice, so it is not compared.
pub open spec fn nested(a: ChunkView, b: ChunkView) -> bool {
    a.path == b.path && a.first <= b.last && b.first <= a.last
}

/// Whether two chunks are nested.
pub fn is_nested(a: &Chunk, b: &Chunk) -> (is: bool)
    ensures
        is == nested(a@, b@),
{
    let same_file = crate::text::spells(
        crate::text::chars_of(a.path.as_str()).as_slice(),
        b.path.as_str(),
    );
    same_file && a.first.get() <= b.last.get() && b.first.get() <= a.last.get()
}

/// What comparing two chunks came to: ruled out before measuring, because the bound their
/// token counts put on the similarity already falls short; or the signals measured.
#[derive(Debug)]
pub enum PairMeasure {
    RuledOut,
    Measured(Signals),
}

/// The pairs `(i, j)` with `i < j < n` whose first index is below `i`, in order: each index
/// with every later one.
pub open spec fn pairs_before(i: int, n: int) -> Seq<(int, int)>
    decreases i,
{
    if i <= 0 {
        seq![]
    } else {
        pairs_before(i - 1, n) + row(i - 1, n)
    }
}

/// The pairs of index `i` with every later index below `n`.
pub open spec fn row(i: int, n: int) -> Seq<(int, int)> {
    Seq::new(if n - i - 1 > 0 { (n - i - 1) as nat } else { 0 }, |k: int| (i, i + 1 + k))
}

/// All pairs of `n` chunks, each compared once, in the order compared.
pub open spec fn all_pairs(n: int) -> Seq<(int, int)> {
    pairs_before(n, n)
}

/// Whether the pair of indices is of two nested chunks.
pub open spec fn nested_at(chunks: Seq<ChunkView>, p: (int, int)) -> bool {
    nested(chunks[p.0], chunks[p.1])
}

/// The pairs of a list of compared pairs, each with what measuring it gave.
pub open spec fn pairs_of(entries: Seq<((int, int), PairMeasure)>) -> Seq<(int, int)> {
    entries.map_values(|e: ((int, int), PairMeasure)| e.0)
}

/// The number of pairs compared: all but the nested ones.
pub open spec fn compared_count(chunks: Seq<ChunkView>, entries: Seq<((int, int), PairMeasure)>) -> nat
    decreases entries.len(),
{
    if entries.len() == 0 {
        0
    } else {
        compared_count(chunks, entries.drop_last()) + if nested_at(chunks, entries.last().0) {
            0nat
        } else {
            1nat
        }
    }
}

/// The number of compared pairs ruled out before measuring.
pub open spec fn pruned_count(chunks: Seq<ChunkView>, entries: Seq<((int, int), PairMeasure)>) -> nat
    decreases entries.len(),
{
    if entries.len() == 0 {
        0
    } else {
        pruned_count(chunks, entries.drop_last()) + if !nested_at(chunks, entries.last().0)
            && entries.last().1 is RuledOut {
            1nat
        } else {
            0nat
        }
    }
}

/// Whether a compared pair is a candidate: not nested, measured, and structurally similar.
pub open spec fn is_candidate(
    chunks: Seq<ChunkView>,
    thresholds: ConfiguredThresholds,
    entry: ((int, int), PairMeasure),
) -> bool {
    &&& !nested_at(chunks, entry.0)
    &&& entry.1 matches PairMeasure::Measured(signals) && similar(
        signals.structural_similarity_view(),
        thresholds.structural_similarity_view(),
    )
}

/// The candidates among compared pairs, in order.
pub open spec fn candidates_among(
    chunks: Seq<ChunkView>,
    thresholds: ConfiguredThresholds,
    entries: Seq<((int, int), PairMeasure)>,
) -> Seq<((int, int), PairMeasure)>
    decreases entries.len(),
{
    if entries.len() == 0 {
        seq![]
    } else {
        let before = candidates_among(chunks, thresholds, entries.drop_last());
        if is_candidate(chunks, thresholds, entries.last()) {
            before.push(entries.last())
        } else {
            before
        }
    }
}

/// Whether each compared pair that is not nested holds what `measure` gave for it.
pub open spec fn measured_by<F: Fn(usize, usize) -> PairMeasure>(
    measure: F,
    chunks: Seq<ChunkView>,
    entries: Seq<((int, int), PairMeasure)>,
) -> bool {
    forall|q: int|
        0 <= q < entries.len() && !nested_at(chunks, #[trigger] entries[q].0) ==> measure.ensures(
            (entries[q].0.0 as usize, entries[q].0.1 as usize),
            entries[q].1,
        )
}

/// A pair kept as a candidate: where each chunk starts, and the pair's classification.
#[derive(Debug)]
pub struct CandidatePair {
    location_a: Location,
    location_b: Location,
    classification: Classification,
}

impl CandidatePair {
    pub closed spec fn location_a_view(&self) -> (Seq<char>, nat) {
        (self.location_a.spec_path(), self.location_a.spec_line())
    }

    pub closed spec fn location_b_view(&self) -> (Seq<char>, nat) {
        (self.location_b.spec_path(), self.location_b.spec_line())
    }

    pub closed spec fn classification_view(&self) -> Classification {
        self.classification
    }

    /// Where the chunk listed first starts.
    pub fn location_a(&self) -> (location: &Location)
        ensures
            (location.spec_path(), location.spec_line()) == self.location_a_view(),
    {
        &self.location_a
    }

    /// Where the chunk listed second starts.
    pub fn location_b(&self) -> (location: &Location)
        ensures
            (location.spec_path(), location.spec_line()) == self.location_b_view(),
    {
        &self.location_b
    }

    /// The pair's verdict and reasons.
    pub fn classification(&self) -> (classification: &Classification)
        ensures
            *classification == self.classification_view(),
    {
        &self.classification
    }
}

/// Whether a candidate is the pair of chunks of an entry, classified from its signals.
pub open spec fn candidate_is(
    candidate: CandidatePair,
    chunks: Seq<ChunkView>,
    thresholds: ConfiguredThresholds,
    entry: ((int, int), PairMeasure),
) -> bool {
    let signals = entry.1->Measured_0;
    &&& candidate.location_a_view() == (chunks[entry.0.0].path, chunks[entry.0.0].first)
    &&& candidate.location_b_view() == (chunks[entry.0.1].path, chunks[entry.0.1].first)
    &&& candidate.classification_view().verdict_view() == classified_verdict(signals, thresholds)
    &&& reasons_of_signals(candidate.classification_view().reasons_view(), signals, thresholds)
}

/// A file the scan passed over, and why.
#[derive(Debug)]
pub enum SkippedFile {
    /// No grammar reads the extension.
    UnreadableExtension { path: String },
    /// The file could not be read; `cause` is the reader's account.
    SourceUnreadable { path: String, cause: String },
    /// The file was read but could not be parsed; `cause` is the parser's account.
    SourceUnparsable { path: String, cause: String },
}

/// A skipped file as the report lists it.
pub open spec fn skipped_text(skipped: SkippedFile) -> Seq<char> {
    match skipped {
        SkippedFile::UnreadableExtension { path } => path@ + ": 読める拡張子ではありません"@,
        SkippedFile::SourceUnreadable { path, cause } => path@ + ": 読めません: "@ + cause@,
        SkippedFile::SourceUnparsable { path, cause } => path@ + ": 読み解けません: "@ + cause@,
    }
}

impl SkippedFile {
    /// The file and why it was passed over.
    pub fn text(&self) -> (t: String)
        ensures
            t@ == skipped_text(*self),
    {
        let mut out: Vec<char> = Vec::new();
        match self {
            SkippedFile::UnreadableExtension { path } => {
                crate::text::push_str(&mut out, path.as_str());
                crate::text::push_str(&mut out, ": 読める拡張子ではありません");
            },
            SkippedFile::SourceUnreadable { path, cause } => {
                crate::text::push_str(&mut out, path.as_str());
                crate::text::push_str(&mut out, ": 読めません: ");
                crate::text::push_str(&mut out, cause.as_str());
            },
            SkippedFile::SourceUnparsable { path, cause } => {
                crate::text::push_str(&mut out, path.as_str());
                crate::text::push_str(&mut out, ": 読み解けません: ");
                crate::text::push_str(&mut out, cause.as_str());
            },
        }
        crate::text::string_of(&out)
    }
}

/// What a scan found: the candidate pairs in the order compared, how much was walked, and
/// what was passed over.
#[derive(Debug)]
pub struct Scan {
    candidate_pairs: Vec<CandidatePair>,
    file_count: usize,
    chunk_count: usize,
    compared_pair_count: usize,
    pruned_pair_count: usize,
    skipped_files: Vec<SkippedFile>,
    unchunkable: Vec<Location>,
}

impl Scan {
    pub closed spec fn candidates_view(&self) -> Seq<CandidatePair> {
        self.candidate_pairs@
    }

    pub closed spec fn counts_view(&self) -> (nat, nat, nat, nat) {
        (
            self.file_count as nat,
            self.chunk_count as nat,
            self.compared_pair_count as nat,
            self.pruned_pair_count as nat,
        )
    }

    pub closed spec fn skipped_view(&self) -> Seq<SkippedFile> {
        self.skipped_files@
    }

    pub closed spec fn unchunkable_view(&self) -> Seq<(Seq<char>, nat)> {
        self.unchunkable@.map_values(|l: Location| (l.spec_path(), l.spec_line()))
    }

    /// The candidate pairs, in the order compared.
    pub fn candidate_pairs(&self) -> (pairs: &[CandidatePair])
        ensures
            pairs@ == self.candidates_view(),
    {
        self.candidate_pairs.as_slice()
    }

    /// The files the scan covered.
    pub fn file_count(&self) -> (n: usize)
        ensures
            n == self.counts_view().0,
    {
        self.file_count
    }

    /// The chunks cut out of them.
    pub fn chunk_count(&self) -> (n: usize)
        ensures
            n == self.counts_view().1,
    {
        self.chunk_count
    }

    /// The pairs compared; nested pairs are not.
    pub fn compared_pair_count(&self) -> (n: usize)
        ensures
            n == self.counts_view().2,
    {
        self.compared_pair_count
    }

    /// The compared pairs settled by the bound on their similarity alone.
    pub fn pruned_pair_count(&self) -> (n: usize)
        ensures
            n == self.counts_view().3,
    {
        self.pruned_pair_count
    }

    /// The files passed over.
    pub fn skipped_files(&self) -> (files: &[SkippedFile])
        ensures
            files@ == self.skipped_view(),
    {
        self.skipped_files.as_slice()
    }

    /// The functions that could not be cut out for a syntax error.
    pub fn unchunkable(&self) -> (locations: &[Location])
        ensures
            locations@.map_values(|l: Location| (l.spec_path(), l.spec_line()))
                == self.unchunkable_view(),
    {
        self.unchunkable.as_slice()
    }
}

/// The views of some chunks.
pub open spec fn chunk_views(chunks: Seq<Chunk>) -> Seq<ChunkView> {
    chunks.map_values(|c: Chunk| c@)
}

/// Whether the candidates and counts of a scan are those of the compared pairs.
pub open spec fn scan_found(
    scan: Scan,
    chunks: Seq<ChunkView>,
    thresholds: ConfiguredThresholds,
    entries: Seq<((int, int), PairMeasure)>,
) -> bool {
    let candidates = candidates_among(chunks, thresholds, entries);
    &&& scan.candidates_view().len() == candidates.len()
    &&& forall|k: int|
        0 <= k < candidates.len() ==> candidate_is(
            #[trigger] scan.candidates_view()[k],
            chunks,
            thresholds,
            candidates[k],
        )
    &&& scan.counts_view().2 == compared_count(chunks, entries)
    &&& scan.counts_view().3 == pruned_count(chunks, entries)
}

/// Appending one pair to the pairs before `i` and the first `k` of row `i` gives the first
/// `k + 1` of the row.
proof fn lemma_row_step(i: int, n: int, k: int)
    requires
        0 <= i,
        i + 1 + k < n,
        0 <= k,
    ensures
        (pairs_before(i, n) + row(i, n).take(k)).push((i, i + 1 + k)) == pairs_before(i, n)
            + row(i, n).take(k + 1),
{
    assert((pairs_before(i, n) + row(i, n).take(k)).push((i, i + 1 + k)) =~= pairs_before(i, n)
        + row(i, n).take(k + 1));
}

/// The pairs before `i + 1` are those before `i` and the whole row `i`.
proof fn lemma_row_done(i: int, n: int)
    requires
        0 <= i < n,
    ensures
        pairs_before(i + 1, n) == pairs_before(i, n) + row(i, n).take(n - i - 1),
{
    assert(row(i, n).take(n - i - 1) =~= row(i, n));
}

/// Recording one more compared pair: what the earlier ones came to stays, and the new one
/// adds its own part.
proof fn lemma_entry_pushed(
    chunks: Seq<ChunkView>,
    thresholds: ConfiguredThresholds,
    entries: Seq<((int, int), PairMeasure)>,
    entry: ((int, int), PairMeasure),
)
    ensures
        pairs_of(entries.push(entry)) == pairs_of(entries).push(entry.0),
        entries.push(entry).drop_last() == entries,
        compared_count(chunks, entries.push(entry)) == compared_count(chunks, entries) + if nested_at(
            chunks,
            entry.0,
        ) {
            0nat
        } else {
            1nat
        },
        pruned_count(chunks, entries.push(entry)) == pruned_count(chunks, entries) + if !nested_at(
            chunks,
            entry.0,
        ) && entry.1 is RuledOut {
            1nat
        } else {
            0nat
        },
        candidates_among(chunks, thresholds, entries.push(entry)) == if is_candidate(
            chunks,
            thresholds,
            entry,
        ) {
            candidates_among(chunks, thresholds, entries).push(entry)
        } else {
            candidates_among(chunks, thresholds, entries)
        },
{
    assert(pairs_of(entries.push(entry)) =~= pairs_of(entries).push(entry.0));
    assert(entries.push(entry).drop_last() =~= entries);
}

/// Only an outer function and one inside it are nested: two chunks are nested exactly when
/// they lie in one file and their line ranges overlap. Chunks of different files, or of one
/// file with disjoint ranges, are compared.
pub proof fn lemma_nested_means_overlapping_in_one_file(a: ChunkView, b: ChunkView)
    ensures
        nested(a, b) ==> a.path == b.path && a.first <= b.last && b.first <= a.last,
        a.path != b.path ==> !nested(a, b),
        a.last < b.first || b.last < a.first ==> !nested(a, b),
        a.path == b.path && a.first <= b.first && b.last <= a.last && b.first <= b.last
            ==> nested(a, b),
{
}

/// Every pair listed before index `i` is of two indices below `n`, the first below the
/// second.
proof fn lemma_pairs_in_range(i: int, n: int, q: int)
    requires
        0 <= i <= n,
        0 <= q < pairs_before(i, n).len(),
    ensures
        0 <= pairs_before(i, n)[q].0 < pairs_before(i, n)[q].1 < n,
    decreases i,
{
    if i > 0 {
        let before = pairs_before(i - 1, n);
        if q < before.len() {
            lemma_pairs_in_range(i - 1, n, q);
        } else {
            assert(pairs_before(i, n)[q] == row(i - 1, n)[q - before.len()]);
        }
    }
}

/// Where no listed pair is nested, every listed pair is compared.
proof fn lemma_all_compared(chunks: Seq<ChunkView>, entries: Seq<((int, int), PairMeasure)>)
    requires
        forall|q: int| 0 <= q < entries.len() ==> !nested_at(chunks, #[trigger] entries[q].0),
    ensures
        compared_count(chunks, entries) == entries.len(),
    decreases entries.len(),
{
    if entries.len() > 0 {
        let rest = entries.drop_last();
        assert forall|q: int| 0 <= q < rest.len() implies !nested_at(chunks, #[trigger] rest[q].0) by {
            assert(rest[q] == entries[q]);
        }
        lemma_all_compared(chunks, rest);
        assert(entries.last() == entries[entries.len() - 1]);
    }
}

/// How many pairs come before index `i` among `n` chunks: each earlier index with every
/// later one.
pub open spec fn before_count(i: int, n: int) -> int
    decreases i,
{
    if i <= 0 {
        0
    } else {
        before_count(i - 1, n) + (n - i)
    }
}

/// Twice the pairs before `i` is `i * (2n - i - 1)`; so all `n` chunks give `n(n-1)/2` pairs.
proof fn lemma_before_count_closed(i: int, n: int)
    requires
        0 <= i <= n,
    ensures
        2 * before_count(i, n) == i * (2 * n - i - 1),
    decreases i,
{
    if i > 0 {
        lemma_before_count_closed(i - 1, n);
        assert(2 * before_count(i, n) == i * (2 * n - i - 1)) by (nonlinear_arith)
            requires
                2 * before_count(i - 1, n) == (i - 1) * (2 * n - (i - 1) - 1),
                before_count(i, n) == before_count(i - 1, n) + (n - i),
        ;
    } else {
        assert(i * (2 * n - i - 1) == 0) by (nonlinear_arith)
            requires
                i == 0,
        ;
    }
}

/// The count of pairs before an index grows with the index.
proof fn lemma_before_count_grows(i: int, k: int, n: int)
    requires
        0 <= i <= k <= n,
    ensures
        before_count(i, n) <= before_count(k, n),
    decreases k - i,
{
    if i < k {
        lemma_before_count_grows(i, k - 1, n);
    }
}

/// Of the pairs listed, those ruled out are among those compared.
proof fn lemma_pruned_among_compared(chunks: Seq<ChunkView>, entries: Seq<((int, int), PairMeasure)>)
    ensures
        pruned_count(chunks, entries) <= compared_count(chunks, entries) <= entries.len(),
    decreases entries.len(),
{
    if entries.len() > 0 {
        lemma_pruned_among_compared(chunks, entries.drop_last());
    }
}

/// Compares every pair of chunks once, in order (each chunk with every later one), leaving
/// out nested pairs, and keeps as candidates the pairs `measure` finds structurally similar,
/// each classified from its signals. Pairs `measure` rules out before measuring are counted
/// among those compared, and apart.
///
/// `file_count`, `skipped` and `unchunkable` are what reading the files found, and are kept
/// as they are. The number of pairs must fit a `usize`.
pub fn scan_of_chunks<F: Fn(usize, usize) -> PairMeasure>(
    chunks: &[Chunk],
    measure: &F,
    thresholds: ConfiguredThresholds,
    file_count: usize,
    skipped: Vec<SkippedFile>,
    unchunkable: Vec<Location>,
) -> (scan: Scan)
    requires
        forall|i: usize, j: usize| measure.requires((i, j)),
        chunks@.len() * (chunks@.len() - 1) / 2 <= usize::MAX,
    ensures
        scan.counts_view().3 <= scan.counts_view().2,
        scan.counts_view().2 <= chunks@.len() * (chunks@.len() - 1) / 2,
        (forall|i: int, j: int|
            0 <= i < j < chunks@.len() ==> chunks@[i]@.path != chunks@[j]@.path
                || chunks@[i]@.last < chunks@[j]@.first || chunks@[j]@.last < chunks@[i]@.first)
            ==> scan.counts_view().2 == chunks@.len() * (chunks@.len() - 1) / 2,
        exists|entries: Seq<((int, int), PairMeasure)>|
            #[trigger] measured_by(*measure, chunk_views(chunks@), entries) && pairs_of(entries)
                == all_pairs(chunks@.len() as int) && scan_found(
                scan,
                chunk_views(chunks@),
                thresholds,
                entries,
            ),
        scan.counts_view().0 == file_count,
        scan.counts_view().1 == chunks@.len(),
        scan.skipped_view() == skipped@,
        scan.unchunkable_view() == unchunkable@.map_values(
            |l: Location| (l.spec_path(), l.spec_line()),
        ),
{
    let ghost views = chunk_views(chunks@);
    let ghost n = chunks@.len() as int;
    let ghost mut entries: Seq<((int, int), PairMeasure)> = seq![];
    let mut candidate_pairs: Vec<CandidatePair> = Vec::new();
    let mut compared: usize = 0;
    let mut pruned: usize = 0;
    let mut i: usize = 0;
    proof {
        lemma_before_count_closed(n, n);
        assert(before_count(n, n) == n * (n - 1) / 2) by (nonlinear_arith)
            requires
                2 * before_count(n, n) == n * (2 * n - n - 1),
        ;
    }
    while i < chunks.len()
        invariant
            0 <= i <= chunks@.len(),
            n == chunks@.len(),
            before_count(n, n) <= usize::MAX,
            views == chunk_views(chunks@),
            forall|a: usize, b: usize| measure.requires((a, b)),
            pairs_of(entries) == pairs_before(i as int, n),
            measured_by(*measure, views, entries),
            compared == compared_count(views, entries),
            pruned == pruned_count(views, entries),
            compared <= entries.len(),
            pruned <= compared,
            entries.len() == before_count(i as int, n),
            candidate_pairs@.len() == candidates_among(views, thresholds, entries).len(),
            forall|k: int|
                0 <= k < candidate_pairs@.len() ==> candidate_is(
                    #[trigger] candidate_pairs@[k],
                    views,
                    thresholds,
                    candidates_among(views, thresholds, entries)[k],
                ),
        decreases chunks@.len() - i,
    {
        let mut j: usize = i + 1;
        while j < chunks.len()
            invariant
                0 <= i < j <= chunks@.len(),
                n == chunks@.len(),
                before_count(n, n) <= usize::MAX,
                views == chunk_views(chunks@),
                forall|a: usize, b: usize| measure.requires((a, b)),
                pairs_of(entries) == pairs_before(i as int, n) + row(i as int, n).take(
                    j - i - 1,
                ),
                measured_by(*measure, views, entries),
                compared == compared_count(views, entries),
                pruned == pruned_count(views, entries),
                compared <= entries.len(),
                pruned <= compared,
                entries.len() == before_count(i as int, n) + (j - i - 1),
                candidate_pairs@.len() == candidates_among(views, thresholds, entries).len(),
                forall|k: int|
                    0 <= k < candidate_pairs@.len() ==> candidate_is(
                        #[trigger] candidate_pairs@[k],
                        views,
                        thresholds,
                        candidates_among(views, thresholds, entries)[k],
                    ),
            decreases chunks@.len() - j,
        {
            proof {
                lemma_before_count_grows(i + 1, n, n);
                assert(before_count(i + 1, n) == before_count(i as int, n) + (n - i - 1));
            }
            assert(compared + 1 <= usize::MAX && pruned + 1 <= usize::MAX);
            proof {
                lemma_row_step(i as int, n, j - i - 1);
            }
            let ghost prior = entries;
            assert(views[i as int] == chunks@[i as int]@);
            assert(views[j as int] == chunks@[j as int]@);
            if is_nested(&chunks[i], &chunks[j]) {
                let ghost entry = ((i as int, j as int), PairMeasure::RuledOut);
                proof {
                    lemma_entry_pushed(views, thresholds, prior, entry);
                    entries = prior.push(entry);
                    assert forall|q: int|
                        0 <= q < entries.len() && !nested_at(views, #[trigger] entries[q].0)
                            implies measure.ensures(
                        (entries[q].0.0 as usize, entries[q].0.1 as usize),
                        entries[q].1,
                    ) by {
                        if q < prior.len() {
                            assert(entries[q] == prior[q]);
                        }
                    }
                }
            } else {
                compared = compared + 1;
                let measured = measure(i, j);
                let ghost entry = ((i as int, j as int), measured);
                proof {
                    lemma_entry_pushed(views, thresholds, prior, entry);
                    entries = prior.push(entry);
                    assert forall|q: int|
                        0 <= q < entries.len() && !nested_at(views, #[trigger] entries[q].0)
                            implies measure.ensures(
                        (entries[q].0.0 as usize, entries[q].0.1 as usize),
                        entries[q].1,
                    ) by {
                        if q < prior.len() {
                            assert(entries[q] == prior[q]);
                        }
                    }
                }
                match measured {
                    PairMeasure::RuledOut => {
                        pruned = pruned + 1;
                    },
                    PairMeasure::Measured(signals) => {
                        if is_structurally_similar(
                            signals.structural_similarity(),
                            thresholds.structural_similarity(),
                        ) {
                            let candidate = CandidatePair {
                                location_a: chunks[i].start(),
                                location_b: chunks[j].start(),
                                classification: classification_of(&signals, thresholds),
                            };
                            candidate_pairs.push(candidate);
                        }
                    },
                }
            }
            j = j + 1;
        }
        proof {
            lemma_row_done(i as int, n);
            assert(before_count(i + 1, n) == before_count(i as int, n) + (n - i - 1));
        }
        i = i + 1;
    }
    assert(pairs_of(entries) == all_pairs(n));
    proof {
        lemma_pruned_among_compared(views, entries);
        if forall|a: int, b: int|
            0 <= a < b < chunks@.len() ==> chunks@[a]@.path != chunks@[b]@.path
                || chunks@[a]@.last < chunks@[b]@.first || chunks@[b]@.last < chunks@[a]@.first {
            assert forall|q: int| 0 <= q < entries.len() implies !nested_at(views, #[trigger] entries[q].0) by {
                assert(pairs_of(entries)[q] == entries[q].0);
                lemma_pairs_in_range(n, n, q);
                let (a, b) = entries[q].0;
                assert(views[a] == chunks@[a]@);
                assert(views[b] == chunks@[b]@);
            }
            lemma_all_compared(views, entries);
        }
    }
    Scan {
        candidate_pairs,
        file_count,
        chunk_count: chunks.len(),
        compared_pair_count: compared,
        pruned_pair_count: pruned,
        skipped_files: skipped,
        unchunkable,
    }
}

impl Chunk {
    /// A copy of the chunk.
    pub fn duplicate(&self) -> (copy: Chunk)
        ensures
            copy@ == self@,
    {
        Chunk {
            path: crate::text::string_of(&crate::text::chars_of(self.path.as_str())),
            first: self.first,
            last: self.last,
        }
    }
}

impl SkippedFile {
    /// A copy of the skipped file and its reason.
    pub fn duplicate(&self) -> (copy: SkippedFile)
        ensures
            copy == *self,
    {
        match self {
            SkippedFile::UnreadableExtension { path } => SkippedFile::UnreadableExtension {
                path: path.clone(),
            },
            SkippedFile::SourceUnreadable { path, cause } => SkippedFile::SourceUnreadable {
                path: path.clone(),
                cause: cause.clone(),
            },
            SkippedFile::SourceUnparsable { path, cause } => SkippedFile::SourceUnparsable {
                path: path.clone(),
                cause: cause.clone(),
            },
        }
    }
}

/// What cutting one file gave: its chunks, and the first lines of the functions a syntax
/// error kept from being cut out.
#[derive(Debug)]
pub struct FileChunks {
    chunks: Vec<Chunk>,
    unparsable_starts: Vec<LineNumber>,
}

impl FileChunks {
    pub closed spec fn chunks_view(&self) -> Seq<ChunkView> {
        chunk_views(self.chunks@)
    }

    pub closed spec fn starts_view(&self) -> Seq<nat> {
        self.unparsable_starts@.map_values(|l: LineNumber| l.spec_get())
    }

    /// A file's chunks and the starts of the functions that could not be cut out.
    pub fn new(chunks: Vec<Chunk>, unparsable_starts: Vec<LineNumber>) -> (file: FileChunks)
        ensures
            file.chunks_view() == chunk_views(chunks@),
            file.starts_view() == unparsable_starts@.map_values(|l: LineNumber| l.spec_get()),
    {
        FileChunks { chunks, unparsable_starts }
    }
}

/// The chunks of the files read, file by file, in order.
pub open spec fn gathered_chunks(files: Seq<(String, Result<FileChunks, SkippedFile>)>) -> Seq<ChunkView>
    decreases files.len(),
{
    if files.len() == 0 {
        seq![]
    } else {
        gathered_chunks(files.drop_last()) + match files.last().1 {
            Ok(file) => file.chunks_view(),
            Err(_) => seq![],
        }
    }
}

/// The files passed over, in order.
pub open spec fn gathered_skipped(files: Seq<(String, Result<FileChunks, SkippedFile>)>) -> Seq<SkippedFile>
    decreases files.len(),
{
    if files.len() == 0 {
        seq![]
    } else {
        gathered_skipped(files.drop_last()) + match files.last().1 {
            Ok(_) => seq![],
            Err(skipped) => seq![skipped],
        }
    }
}

/// Where the functions that could not be cut out start, file by file, in order.
pub open spec fn gathered_unchunkable(files: Seq<(String, Result<FileChunks, SkippedFile>)>) -> Seq<(Seq<char>, nat)>
    decreases files.len(),
{
    if files.len() == 0 {
        seq![]
    } else {
        gathered_unchunkable(files.drop_last()) + match files.last().1 {
            Ok(file) => file.starts_view().map_values(|line: nat| (files.last().0@, line)),
            Err(_) => seq![],
        }
    }
}

/// What was read of the files, gathered for a scan: every file's chunks, in order; the
/// files passed over, in order; and where each function that could not be cut out starts,
/// in order. One file that could not be read does not stop the others.
pub fn gathered_of(files: &[(String, Result<FileChunks, SkippedFile>)]) -> (gathered: (
    Vec<Chunk>,
    Vec<SkippedFile>,
    Vec<Location>,
))
    ensures
        chunk_views(gathered.0@) == gathered_chunks(files@),
        gathered.1@ == gathered_skipped(files@),
        gathered.2@.map_values(|l: Location| (l.spec_path(), l.spec_line())) == gathered_unchunkable(
            files@,
        ),
{
    let mut chunks: Vec<Chunk> = Vec::new();
    let mut skipped: Vec<SkippedFile> = Vec::new();
    let mut unchunkable: Vec<Location> = Vec::new();
    let mut i: usize = 0;
    while i < files.len()
        invariant
            0 <= i <= files@.len(),
            chunk_views(chunks@) == gathered_chunks(files@.take(i as int)),
            skipped@ == gathered_skipped(files@.take(i as int)),
            unchunkable@.map_values(|l: Location| (l.spec_path(), l.spec_line()))
                == gathered_unchunkable(files@.take(i as int)),
        decreases files@.len() - i,
    {
        assert(files@.take(i + 1).drop_last() =~= files@.take(i as int));
        assert(files@.take(i + 1).last() == files@[i as int]);
        let (path, outcome) = &files[i];
        match outcome {
            Ok(file) => {
                let ghost chunks_before = chunk_views(chunks@);
                let mut k: usize = 0;
                while k < file.chunks.len()
                    invariant
                        0 <= k <= file.chunks@.len(),
                        chunk_views(chunks@) == chunks_before + file.chunks_view().take(k as int),
                    decreases file.chunks@.len() - k,
                {
                    let ghost prior = chunk_views(chunks@);
                    chunks.push(file.chunks[k].duplicate());
                    k = k + 1;
                    assert(chunk_views(chunks@) =~= chunks_before + file.chunks_view().take(k as int)) by {
                        assert(chunk_views(chunks@) =~= prior.push(file.chunks@[k - 1]@));
                    }
                }
                assert(file.chunks_view().take(k as int) =~= file.chunks_view());
                let ghost located_before = unchunkable@.map_values(
                    |l: Location| (l.spec_path(), l.spec_line()),
                );
                let mut m: usize = 0;
                while m < file.unparsable_starts.len()
                    invariant
                        0 <= m <= file.unparsable_starts@.len(),
                        unchunkable@.map_values(|l: Location| (l.spec_path(), l.spec_line()))
                            == located_before + file.starts_view().take(m as int).map_values(
                            |line: nat| (path@, line),
                        ),
                    decreases file.unparsable_starts@.len() - m,
                {
                    let ghost prior = unchunkable@.map_values(
                        |l: Location| (l.spec_path(), l.spec_line()),
                    );
                    let location = Location::new(
                        crate::text::string_of(&crate::text::chars_of(path.as_str())),
                        file.unparsable_starts[m],
                    );
                    unchunkable.push(location);
                    m = m + 1;
                    assert(unchunkable@.map_values(|l: Location| (l.spec_path(), l.spec_line()))
                        =~= located_before + file.starts_view().take(m as int).map_values(
                        |line: nat| (path@, line),
                    )) by {
                        assert(unchunkable@.map_values(|l: Location| (l.spec_path(), l.spec_line()))
                            =~= prior.push((path@, file.unparsable_starts@[m - 1].spec_get())));
                    }
                }
                assert(file.starts_view().take(m as int) =~= file.starts_view());
                assert(skipped@ =~= gathered_skipped(files@.take(i + 1)));
            },
            Err(cause) => {
                let ghost before = skipped@;
                skipped.push(cause.duplicate());
                assert(skipped@ =~= before + seq![*cause]);
                assert(chunk_views(chunks@) =~= gathered_chunks(files@.take(i + 1)));
                assert(unchunkable@.map_values(|l: Location| (l.spec_path(), l.spec_line()))
                    =~= gathered_unchunkable(files@.take(i + 1)));
            },
        }
        i = i + 1;
    }
    assert(files@.take(i as int) =~= files@);
    (chunks, skipped, unchunkable)
}

} // verus!
