use dryguard::classification::signal::{
    CallerDomainOverlap, ImportOverlap, SemanticsUnavailable, Signals, StructuralSimilarity,
    TypeSignatureMatch,
};
use dryguard::classification::verdict::Verdict;
use dryguard::classification::ConfiguredThresholds;
use dryguard::domain_declaration::DomainDeclarations;
use dryguard::line_number::LineNumber;
use dryguard::location::Location;
use dryguard::lsp::workspace::WorkspaceError;
use dryguard::pipeline::scan::{gathered_of, scan_of_chunks, Chunk, FileChunks, PairMeasure, SkippedFile};
use dryguard::pipeline::semantics::{
    after_shutdown, asked_semantics_of_outcomes, from_setup_failure, measured_pair_of, without_name,
    CallerDomainsOutcome, SemanticsError, TypeSignatureOutcome,
};
use dryguard::json::JsonValue;
use dryguard::report::json::scan_json_of;
use dryguard::report::{scan_text_of, Explanation};
use dryguard::semantics::caller_domain::CallerDomains;
use dryguard::similarity::Similarity;
use dryguard::syntax::module_distance::ModuleDistance;

fn line(n: usize) -> LineNumber {
    LineNumber::new(n).expect("a line from 1")
}

fn chunk(path: &str, first: usize, last: usize) -> Chunk {
    Chunk::new(path.to_string(), line(first), line(last))
}

fn signals(shared: u128, total: u128, imports: (u128, u128)) -> Signals {
    Signals::new(
        StructuralSimilarity::Measured(Similarity::new(shared, total).unwrap()),
        ImportOverlap::Measured(Similarity::new(imports.0, imports.1).unwrap()),
        ModuleDistance::between("src/billing/a.ts", "src/inventory/b.ts"),
    )
}

fn counted(paths: &[&str]) -> CallerDomains {
    let paths: Vec<String> = paths.iter().map(|p| p.to_string()).collect();
    CallerDomains::from_reference_paths(&paths, &DomainDeclarations::empty())
        .unwrap()
        .unwrap()
}

#[test]
fn test_scan_of_chunks_keeps_the_similar_pairs_in_order_and_skips_nested_ones() {
    let chunks = vec![
        chunk("src/billing/a.ts", 1, 20),
        chunk("src/billing/a.ts", 5, 10),
        chunk("src/inventory/b.ts", 1, 8),
    ];
    // Pair (0, 1) is nested; (0, 2) is similar; (1, 2) is ruled out by its length.
    let measure = |i: usize, j: usize| -> PairMeasure {
        if i == 1 && j == 2 {
            PairMeasure::RuledOut
        } else {
            PairMeasure::Measured(signals(9, 10, (1, 1)))
        }
    };
    let scan = scan_of_chunks(
        &chunks,
        &measure,
        ConfiguredThresholds::default(),
        2,
        vec![],
        vec![],
    );
    assert_eq!(scan.file_count(), 2);
    assert_eq!(scan.chunk_count(), 3);
    assert_eq!(scan.compared_pair_count(), 2);
    assert_eq!(scan.pruned_pair_count(), 1);
    assert_eq!(scan.candidate_pairs().len(), 1);
    let pair = &scan.candidate_pairs()[0];
    assert_eq!(pair.location_a().text(), "src/billing/a.ts:1");
    assert_eq!(pair.location_b().text(), "src/inventory/b.ts:1");
    assert_eq!(pair.classification().verdict(), Verdict::ExtractCandidate);
}

#[test]
fn test_scan_of_chunks_leaves_out_dissimilar_pairs() {
    let chunks = vec![chunk("src/a.ts", 1, 3), chunk("src/b.ts", 1, 3)];
    let measure = |_: usize, _: usize| -> PairMeasure { PairMeasure::Measured(signals(1, 10, (0, 1))) };
    let scan = scan_of_chunks(&chunks, &measure, ConfiguredThresholds::default(), 2, vec![], vec![]);
    assert_eq!(scan.compared_pair_count(), 1);
    assert_eq!(scan.pruned_pair_count(), 0);
    assert!(scan.candidate_pairs().is_empty());
}

#[test]
fn test_scan_text_of_lists_what_was_passed_over_after_the_pairs() {
    let chunks = vec![chunk("src/a.ts", 1, 3), chunk("src/b.ts", 1, 3)];
    let measure = |_: usize, _: usize| -> PairMeasure { PairMeasure::Measured(signals(1, 10, (0, 1))) };
    let skipped = vec![SkippedFile::SourceUnreadable {
        path: "src/c.ts".to_string(),
        cause: "denied".to_string(),
    }];
    let unchunkable = vec![Location::new("src/d.ts".to_string(), line(4))];
    let scan = scan_of_chunks(&chunks, &measure, ConfiguredThresholds::default(), 4, skipped, unchunkable);
    let text = scan_text_of(&scan, Explanation::AskedSignals);
    assert_eq!(
        text,
        "読めなかったファイル:\n  src/c.ts: 読めません: denied\n\n構文エラーで切り出せなかった関数:\n  src/d.ts:4\n\n対象 4 ファイル / チャンク 2 件 / 比較 1 ペア（うち長さで確定 0 ペア）/ 候補 0 ペア"
    );
}

#[test]
fn test_scan_text_of_with_nothing_passed_over_is_the_walked_line_alone() {
    let scan = scan_of_chunks(&[], &|_: usize, _: usize| PairMeasure::RuledOut, ConfiguredThresholds::default(), 0, vec![], vec![]);
    assert_eq!(
        scan_text_of(&scan, Explanation::AskedSignals),
        "対象 0 ファイル / チャンク 0 件 / 比較 0 ペア（うち長さで確定 0 ペア）/ 候補 0 ペア"
    );
}

#[test]
fn test_asked_semantics_keeps_the_signal_that_came_and_the_first_failure() {
    let asked = asked_semantics_of_outcomes::<(), &str>(
        Ok(TypeSignatureOutcome::Normalized(())),
        Ok(TypeSignatureOutcome::Normalized(())),
        Err("broken pipe"),
        Ok(CallerDomainsOutcome::NoReferences),
        true,
    );
    assert_eq!(asked.type_signature_match, TypeSignatureMatch::Unifiable);
    assert_eq!(
        asked.caller_domain_overlap,
        CallerDomainOverlap::Unavailable { reason: SemanticsUnavailable::LspUnusable }
    );
    assert!(matches!(asked.error, Some(SemanticsError::Client("broken pipe"))));
}

#[test]
fn test_asked_semantics_never_measures_callers_with_a_side_missing() {
    let asked = asked_semantics_of_outcomes::<(), &str>(
        Ok(TypeSignatureOutcome::Normalized(())),
        Ok(TypeSignatureOutcome::NoTypeThere),
        Ok(CallerDomainsOutcome::Counted(counted(&["src/report/monthly.ts"]))),
        Ok(CallerDomainsOutcome::UnreadableReferences),
        true,
    );
    assert_eq!(asked.type_signature_match, TypeSignatureMatch::NoTypeThere);
    assert_eq!(asked.caller_domain_overlap, CallerDomainOverlap::UnreadableReferences);
    assert!(asked.error.is_none());
}

#[test]
fn test_asked_semantics_of_two_counted_sides_measures_the_overlap() {
    let asked = asked_semantics_of_outcomes::<(), &str>(
        Ok(TypeSignatureOutcome::Normalized(())),
        Ok(TypeSignatureOutcome::Normalized(())),
        Ok(CallerDomainsOutcome::Counted(counted(&["src/report/monthly.ts"]))),
        Ok(CallerDomainsOutcome::Counted(counted(&["src/report/daily.ts"]))),
        false,
    );
    assert_eq!(asked.type_signature_match, TypeSignatureMatch::NotUnifiable);
    assert!(matches!(asked.caller_domain_overlap, CallerDomainOverlap::Measured(_)));
}

#[test]
fn test_a_setup_failure_gives_its_own_reason() {
    let asked = from_setup_failure::<&str>(SemanticsError::Workspace(WorkspaceError::NoPaths));
    assert_eq!(
        asked.type_signature_match,
        TypeSignatureMatch::Unavailable { reason: SemanticsUnavailable::WorkspaceRootUndecidable }
    );
}

#[test]
fn test_answers_of_a_server_that_failed_to_shut_down_are_dropped() {
    let kept = after_shutdown(without_name::<&str>(), Err("exited"));
    assert_eq!(
        kept.type_signature_match,
        TypeSignatureMatch::Unavailable { reason: SemanticsUnavailable::LspUnusable }
    );
    let kept = after_shutdown(without_name::<&str>(), Ok(()));
    assert_eq!(kept.type_signature_match, TypeSignatureMatch::NoName);
}

#[test]
fn test_measured_pair_of_a_dissimilar_pair_does_not_ask_the_server() {
    let measured = measured_pair_of::<&str, _>(
        signals(1, 10, (0, 1)),
        ConfiguredThresholds::default(),
        || panic!("a pair that is no candidate is not asked about"),
    );
    assert_eq!(
        measured.signals.type_signature_match(),
        TypeSignatureMatch::Unavailable { reason: SemanticsUnavailable::NotACandidate }
    );
    assert!(measured.semantics_error.is_none());
}

#[test]
fn test_measured_pair_of_a_candidate_takes_what_the_server_gave() {
    let measured = measured_pair_of::<&str, _>(
        signals(9, 10, (1, 1)),
        ConfiguredThresholds::default(),
        || from_setup_failure(SemanticsError::Client("no server")),
    );
    assert_eq!(
        measured.signals.type_signature_match(),
        TypeSignatureMatch::Unavailable { reason: SemanticsUnavailable::LspUnusable }
    );
    assert!(matches!(measured.semantics_error, Some(SemanticsError::Client("no server"))));
}

fn member<'a>(value: &'a JsonValue, key: &str) -> &'a JsonValue {
    match value {
        JsonValue::Object(members) => &members.iter().find(|(k, _)| k == key).expect("the member").1,
        _ => panic!("an object"),
    }
}

fn text(value: &JsonValue) -> &str {
    match value {
        JsonValue::Text(t) => t.as_str(),
        _ => panic!("a text"),
    }
}

fn natural(value: &JsonValue) -> u64 {
    match value {
        JsonValue::Natural(n) => *n,
        _ => panic!("a number"),
    }
}

fn items(value: &JsonValue) -> &Vec<JsonValue> {
    match value {
        JsonValue::Array(items) => items,
        _ => panic!("an array"),
    }
}

#[test]
fn test_scan_json_of_gives_every_list_and_what_was_walked() {
    let chunks = vec![chunk("src/billing/a.ts", 1, 20), chunk("src/inventory/b.ts", 1, 8)];
    let measure = |_: usize, _: usize| -> PairMeasure { PairMeasure::Measured(signals(9, 10, (1, 1))) };
    let skipped = vec![SkippedFile::UnreadableExtension { path: "src/c.js".to_string() }];
    let scan = scan_of_chunks(&chunks, &measure, ConfiguredThresholds::default(), 3, skipped, vec![]);
    let value = scan_json_of(&scan, Explanation::AskedSignals);
    let pairs = items(member(&value, "candidate_pairs"));
    assert_eq!(pairs.len(), 1);
    assert_eq!(text(member(&pairs[0], "verdict")), "EXTRACT-CANDIDATE");
    let files = items(member(&value, "skipped_files"));
    assert_eq!(text(member(&files[0], "file")), "src/c.js");
    assert_eq!(text(member(&files[0], "reason")), "unreadable-extension");
    assert!(items(member(&value, "unchunkable")).is_empty());
    let walked = member(&value, "walked");
    assert_eq!(natural(member(walked, "files")), 3);
    assert_eq!(natural(member(walked, "chunks")), 2);
    assert_eq!(natural(member(walked, "compared_pairs")), 1);
    assert_eq!(natural(member(walked, "pruned_pairs")), 0);
}

#[test]
fn test_gathered_of_keeps_each_kind_of_outcome_in_file_order() {
    let files = vec![
        (
            "src/a.ts".to_string(),
            Ok(FileChunks::new(vec![chunk("src/a.ts", 1, 3), chunk("src/a.ts", 5, 9)], vec![line(12)])),
        ),
        (
            "src/b.ts".to_string(),
            Err(SkippedFile::SourceUnparsable { path: "src/b.ts".to_string(), cause: "bad".to_string() }),
        ),
        ("src/c.ts".to_string(), Ok(FileChunks::new(vec![chunk("src/c.ts", 2, 4)], vec![]))),
    ];
    let (chunks, skipped, unchunkable) = gathered_of(&files);
    let starts: Vec<String> = chunks.iter().map(|c| c.start().text()).collect();
    assert_eq!(starts, vec!["src/a.ts:1", "src/a.ts:5", "src/c.ts:2"]);
    assert_eq!(skipped.len(), 1);
    assert_eq!(skipped[0].text(), "src/b.ts: 読み解けません: bad");
    assert_eq!(unchunkable.len(), 1);
    assert_eq!(unchunkable[0].text(), "src/a.ts:12");
}
