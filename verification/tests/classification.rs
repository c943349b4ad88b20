use dryguard::classification::reason::{Lean, Reason};
use dryguard::classification::signal::{
    CallerDomainOverlap, ImportOverlap, MeasuredCallerDomains, SemanticsUnavailable, Signals,
    StructuralSimilarity, TypeSignatureMatch,
};
use dryguard::classification::verdict::Verdict;
use dryguard::classification::{
    classification_of, default_structural_similarity_threshold, is_structurally_similar,
    Classification, ConfiguredThresholds, SEPARATE_DIRECTORY_STEPS,
};
use dryguard::domain_declaration::DomainDeclarations;
use dryguard::semantics::caller_domain::CallerDomains;
use dryguard::similarity::Similarity;
use dryguard::syntax::import::ImportsUnavailable;
use dryguard::syntax::module_distance::ModuleDistance;
use dryguard::threshold::Threshold;

fn measured(shared: u128, total: u128) -> Similarity {
    Similarity::new(shared, total).expect("a ratio between 0 and 1")
}

fn half() -> Threshold {
    Threshold::half()
}

fn defaults() -> ConfiguredThresholds {
    ConfiguredThresholds::default()
}

fn caller_domains(reference_paths: &[&str]) -> CallerDomains {
    let paths: Vec<String> = reference_paths.iter().map(|p| p.to_string()).collect();
    CallerDomains::from_reference_paths(&paths, &DomainDeclarations::empty())
        .expect("no declaration to be ambiguous")
        .expect("at least one reference")
}

fn callers_in_separate_domains() -> CallerDomainOverlap {
    CallerDomainOverlap::Measured(MeasuredCallerDomains::new(
        caller_domains(&["src/billing/invoice.ts"]),
        caller_domains(&["src/inventory/stock.ts"]),
    ))
}

fn callers_in_the_same_domain() -> CallerDomainOverlap {
    CallerDomainOverlap::Measured(MeasuredCallerDomains::new(
        caller_domains(&["src/report/monthly.ts"]),
        caller_domains(&["src/report/daily.ts"]),
    ))
}

fn separate_directories() -> ModuleDistance {
    ModuleDistance::between("src/billing/discount.ts", "src/inventory/reorder.ts")
}

fn same_directory() -> ModuleDistance {
    ModuleDistance::between("src/billing/discount.ts", "src/billing/invoice.ts")
}

fn no_imports() -> ImportOverlap {
    ImportOverlap::Unavailable(ImportsUnavailable::NoDeclarations)
}

fn not_asked() -> SemanticsUnavailable {
    SemanticsUnavailable::NotAsked
}

fn leans(classification: &Classification, expected: &Reason) -> bool {
    classification.reasons().contains(expected)
}

fn signals_of_a_shared_domain() -> Signals {
    Signals::new(
        StructuralSimilarity::Measured(measured(9, 10)),
        ImportOverlap::Measured(measured(1, 1)),
        separate_directories(),
    )
}

fn signals_of_separate_domains() -> Signals {
    Signals::new(
        StructuralSimilarity::Measured(measured(9, 10)),
        ImportOverlap::Measured(measured(0, 1)),
        separate_directories(),
    )
}

fn signals_of_a_caller_only_domain_match() -> Signals {
    Signals::new(
        StructuralSimilarity::Measured(measured(9, 10)),
        no_imports(),
        separate_directories(),
    )
}

#[test]
fn test_classification_of_similar_chunks_sharing_dependencies_is_extract_candidate() {
    let classification = classification_of(&signals_of_a_shared_domain(), defaults());

    assert_eq!(classification.verdict(), Verdict::ExtractCandidate);
}

#[test]
fn test_classification_of_similar_chunks_in_separate_directories_without_shared_dependencies_is_do_not_extract(
) {
    let classification = classification_of(&signals_of_separate_domains(), defaults());

    assert_eq!(classification.verdict(), Verdict::DoNotExtract);
}

#[test]
fn test_classification_of_similar_chunks_in_the_same_directory_without_shared_dependencies_is_review(
) {
    let signals = Signals::new(
        StructuralSimilarity::Measured(measured(9, 10)),
        ImportOverlap::Measured(measured(0, 1)),
        same_directory(),
    );

    let classification = classification_of(&signals, defaults());

    assert_eq!(classification.verdict(), Verdict::Review);
}

#[test]
fn test_classification_of_chunks_below_the_threshold_is_review() {
    let signals = Signals::new(
        StructuralSimilarity::Measured(measured(2, 10)),
        ImportOverlap::Measured(measured(0, 1)),
        separate_directories(),
    );

    let classification = classification_of(&signals, defaults());

    assert_eq!(classification.verdict(), Verdict::Review);
}

#[test]
fn test_classification_at_the_threshold_is_extract_candidate() {
    let signals = Signals::new(
        StructuralSimilarity::Measured(measured(1, 2)),
        ImportOverlap::Measured(measured(1, 1)),
        separate_directories(),
    );

    let classification = classification_of(&signals, defaults());

    assert_eq!(classification.verdict(), Verdict::ExtractCandidate);
}

#[test]
fn test_classification_with_a_lowered_threshold_reaches_a_verdict_the_default_would_not() {
    let signals = Signals::new(
        StructuralSimilarity::Measured(measured(3, 10)),
        ImportOverlap::Measured(measured(0, 1)),
        separate_directories(),
    );
    let lowered = Threshold::new(2, 1).expect("0.2 is a threshold");

    let classification =
        classification_of(&signals, defaults().with_structural_similarity(lowered));

    assert_eq!(classification.verdict(), Verdict::DoNotExtract);
}

#[test]
fn test_classification_without_structural_similarity_is_review() {
    let signals = Signals::new(
        StructuralSimilarity::NoTokens,
        ImportOverlap::Measured(measured(0, 1)),
        separate_directories(),
    );

    let classification = classification_of(&signals, defaults());

    assert_eq!(classification.verdict(), Verdict::Review);
}

#[test]
fn test_classification_without_imports_is_review() {
    let classification = classification_of(&signals_of_a_caller_only_domain_match(), defaults());

    assert_eq!(classification.verdict(), Verdict::Review);
}

#[test]
fn test_classification_reports_one_reason_for_every_signal() {
    let classification = classification_of(&signals_of_a_shared_domain(), defaults());

    assert_eq!(classification.reasons().len(), 5);
}

#[test]
fn test_classification_of_a_shared_domain_whose_type_signatures_do_not_unify_is_review() {
    let signals = signals_of_a_shared_domain().with_semantics(
        TypeSignatureMatch::NotUnifiable,
        CallerDomainOverlap::Unavailable { reason: not_asked() },
    );

    let classification = classification_of(&signals, defaults());

    assert_eq!(classification.verdict(), Verdict::Review);
}

#[test]
fn test_classification_of_a_shared_domain_whose_type_signatures_unify_is_extract_candidate() {
    let signals = signals_of_a_shared_domain().with_semantics(
        TypeSignatureMatch::Unifiable,
        CallerDomainOverlap::Unavailable { reason: not_asked() },
    );

    let classification = classification_of(&signals, defaults());

    assert_eq!(classification.verdict(), Verdict::ExtractCandidate);
}

#[test]
fn test_classification_with_an_unusable_lsp_keeps_the_verdict_the_stage1_signals_reach() {
    let signals = signals_of_a_shared_domain().with_semantics(
        TypeSignatureMatch::Unavailable { reason: SemanticsUnavailable::LspUnusable },
        CallerDomainOverlap::Unavailable { reason: SemanticsUnavailable::LspUnusable },
    );

    let classification = classification_of(&signals, defaults());

    assert_eq!(classification.verdict(), Verdict::ExtractCandidate);
}

#[test]
fn test_classification_of_callers_in_separate_domains_decides_an_undecidable_placement() {
    let signals = signals_of_a_caller_only_domain_match().with_semantics(
        TypeSignatureMatch::Unavailable { reason: not_asked() },
        callers_in_separate_domains(),
    );

    let classification = classification_of(&signals, defaults());

    assert_eq!(classification.verdict(), Verdict::DoNotExtract);
}

#[test]
fn test_classification_of_callers_sharing_a_domain_against_a_separate_placement_is_review() {
    let signals = signals_of_separate_domains().with_semantics(
        TypeSignatureMatch::Unavailable { reason: not_asked() },
        callers_in_the_same_domain(),
    );

    let classification = classification_of(&signals, defaults());

    assert_eq!(classification.verdict(), Verdict::Review);
}

#[test]
fn test_classification_of_callers_in_separate_domains_against_a_shared_placement_is_review() {
    let signals = signals_of_a_shared_domain().with_semantics(
        TypeSignatureMatch::Unavailable { reason: not_asked() },
        callers_in_separate_domains(),
    );

    let classification = classification_of(&signals, defaults());

    assert_eq!(classification.verdict(), Verdict::Review);
}

#[test]
fn test_classification_of_a_caller_only_domain_match_without_a_type_signature_is_review() {
    let signals = signals_of_a_caller_only_domain_match().with_semantics(
        TypeSignatureMatch::Unavailable { reason: SemanticsUnavailable::LspUnusable },
        callers_in_the_same_domain(),
    );

    let classification = classification_of(&signals, defaults());

    assert_eq!(classification.verdict(), Verdict::Review);
}

#[test]
fn test_classification_of_a_caller_only_domain_match_with_a_type_signature_is_extract_candidate() {
    let signals = signals_of_a_caller_only_domain_match()
        .with_semantics(TypeSignatureMatch::Unifiable, callers_in_the_same_domain());

    let classification = classification_of(&signals, defaults());

    assert_eq!(classification.verdict(), Verdict::ExtractCandidate);
}

#[test]
fn test_classification_of_callers_in_separate_domains_does_not_need_a_type_signature() {
    let signals = signals_of_a_caller_only_domain_match().with_semantics(
        TypeSignatureMatch::Unavailable { reason: SemanticsUnavailable::LspUnusable },
        callers_in_separate_domains(),
    );

    let classification = classification_of(&signals, defaults());

    assert_eq!(classification.verdict(), Verdict::DoNotExtract);
}

#[test]
fn test_classification_of_unifiable_type_signatures_leans_that_reason_toward_extract() {
    let signals = signals_of_a_shared_domain().with_semantics(
        TypeSignatureMatch::Unifiable,
        CallerDomainOverlap::Unavailable { reason: not_asked() },
    );

    let classification = classification_of(&signals, defaults());

    assert!(
        leans(
            &classification,
            &Reason::TypeSignatureMatch {
                signal: TypeSignatureMatch::Unifiable,
                lean: Lean::TowardExtract,
            }
        ),
        "{:?}",
        classification.reasons()
    );
}

#[test]
fn test_classification_of_type_signatures_that_do_not_unify_leans_that_reason_the_other_way() {
    let signals = signals_of_a_shared_domain().with_semantics(
        TypeSignatureMatch::NotUnifiable,
        CallerDomainOverlap::Unavailable { reason: not_asked() },
    );

    let classification = classification_of(&signals, defaults());

    assert!(
        leans(
            &classification,
            &Reason::TypeSignatureMatch {
                signal: TypeSignatureMatch::NotUnifiable,
                lean: Lean::TowardDoNotExtract,
            }
        ),
        "{:?}",
        classification.reasons()
    );
}

#[test]
fn test_classification_without_asking_the_lsp_leans_the_stage2_reasons_neither_way() {
    let classification = classification_of(&signals_of_a_shared_domain(), defaults());

    assert!(
        leans(
            &classification,
            &Reason::TypeSignatureMatch {
                signal: TypeSignatureMatch::Unavailable { reason: not_asked() },
                lean: Lean::Neither,
            }
        ) && leans(
            &classification,
            &Reason::CallerDomainOverlap {
                signal: CallerDomainOverlap::Unavailable { reason: not_asked() },
                threshold: half(),
                lean: Lean::Neither,
            }
        ),
        "{:?}",
        classification.reasons()
    );
}

#[test]
fn test_classification_of_callers_in_separate_domains_leans_that_reason_toward_do_not_extract() {
    let signals = signals_of_separate_domains().with_semantics(
        TypeSignatureMatch::Unavailable { reason: not_asked() },
        callers_in_separate_domains(),
    );

    let classification = classification_of(&signals, defaults());

    assert!(
        leans(
            &classification,
            &Reason::CallerDomainOverlap {
                signal: callers_in_separate_domains(),
                threshold: half(),
                lean: Lean::TowardDoNotExtract,
            }
        ),
        "{:?}",
        classification.reasons()
    );
}

#[test]
fn test_classification_of_callers_sharing_a_domain_leans_that_reason_toward_extract() {
    let signals = signals_of_separate_domains().with_semantics(
        TypeSignatureMatch::Unavailable { reason: not_asked() },
        callers_in_the_same_domain(),
    );

    let classification = classification_of(&signals, defaults());

    assert!(
        leans(
            &classification,
            &Reason::CallerDomainOverlap {
                signal: callers_in_the_same_domain(),
                threshold: half(),
                lean: Lean::TowardExtract,
            }
        ),
        "{:?}",
        classification.reasons()
    );
}

#[test]
fn test_classification_of_callers_overlapping_at_the_threshold_leans_toward_extract() {
    let callers = CallerDomainOverlap::Measured(MeasuredCallerDomains::new(
        caller_domains(&["src/report/monthly.ts", "src/billing/invoice.ts"]),
        caller_domains(&["src/report/daily.ts"]),
    ));
    let signals = signals_of_separate_domains()
        .with_semantics(TypeSignatureMatch::Unavailable { reason: not_asked() }, callers);

    let classification = classification_of(&signals, defaults());

    assert_eq!(classification.verdict(), Verdict::Review, "{:?}", classification.reasons());
}

#[test]
fn test_classification_of_disjoint_imports_leans_the_import_reason_toward_do_not_extract() {
    let classification = classification_of(&signals_of_separate_domains(), defaults());

    assert!(
        leans(
            &classification,
            &Reason::ImportOverlap {
                signal: ImportOverlap::Measured(measured(0, 1)),
                threshold: half(),
                lean: Lean::TowardDoNotExtract,
            }
        ),
        "{:?}",
        classification.reasons()
    );
}

#[test]
fn test_classification_of_shared_imports_leans_the_import_reason_toward_extract() {
    let classification = classification_of(&signals_of_a_shared_domain(), defaults());

    assert!(
        leans(
            &classification,
            &Reason::ImportOverlap {
                signal: ImportOverlap::Measured(measured(1, 1)),
                threshold: half(),
                lean: Lean::TowardExtract,
            }
        ),
        "{:?}",
        classification.reasons()
    );
}

#[test]
fn test_classification_below_the_threshold_leans_the_similarity_reason_neither_way() {
    let signals = Signals::new(
        StructuralSimilarity::Measured(measured(2, 10)),
        ImportOverlap::Measured(measured(0, 1)),
        separate_directories(),
    );

    let classification = classification_of(&signals, defaults());

    assert!(
        leans(
            &classification,
            &Reason::StructuralSimilarity {
                signal: StructuralSimilarity::Measured(measured(2, 10)),
                threshold: half(),
                lean: Lean::Neither,
            }
        ),
        "{:?}",
        classification.reasons()
    );
}

#[test]
fn test_classification_of_far_modules_leans_the_distance_reason_toward_do_not_extract() {
    let classification = classification_of(&signals_of_separate_domains(), defaults());

    assert!(
        leans(
            &classification,
            &Reason::ModuleDistance {
                signal: separate_directories(),
                separate_directory_steps: SEPARATE_DIRECTORY_STEPS,
                lean: Lean::TowardDoNotExtract,
            }
        ),
        "{:?}",
        classification.reasons()
    );
}

#[test]
fn test_classification_of_modules_in_the_same_directory_leans_the_distance_reason_toward_extract()
{
    let signals = Signals::new(
        StructuralSimilarity::Measured(measured(9, 10)),
        ImportOverlap::Measured(measured(0, 1)),
        same_directory(),
    );

    let classification = classification_of(&signals, defaults());

    assert!(
        leans(
            &classification,
            &Reason::ModuleDistance {
                signal: same_directory(),
                separate_directory_steps: SEPARATE_DIRECTORY_STEPS,
                lean: Lean::TowardExtract,
            }
        ),
        "{:?}",
        classification.reasons()
    );
}

#[test]
fn test_classification_without_imports_leans_the_import_reason_neither_way() {
    let classification = classification_of(&signals_of_a_caller_only_domain_match(), defaults());

    assert!(
        leans(
            &classification,
            &Reason::ImportOverlap { signal: no_imports(), threshold: half(), lean: Lean::Neither }
        ),
        "{:?}",
        classification.reasons()
    );
}

#[test]
fn test_verdict_of_extract_candidate_displays_the_planned_label() {
    assert_eq!(Verdict::ExtractCandidate.to_string(), "EXTRACT-CANDIDATE");
}

#[test]
fn test_verdict_of_do_not_extract_displays_the_planned_label() {
    assert_eq!(Verdict::DoNotExtract.to_string(), "DO-NOT-EXTRACT");
}

#[test]
fn test_verdict_of_review_displays_the_planned_label() {
    assert_eq!(Verdict::Review.to_string(), "REVIEW");
}

#[test]
fn test_default_thresholds_are_each_one_half() {
    let thresholds = ConfiguredThresholds::default();

    assert_eq!(thresholds.structural_similarity(), half());
    assert_eq!(thresholds.shared_imports(), half());
    assert_eq!(thresholds.shared_caller_domains(), half());
    assert_eq!(default_structural_similarity_threshold(), half());
}

#[test]
fn test_is_structurally_similar_compares_the_exact_ratio_with_the_threshold() {
    let threshold = Threshold::new(7, 1).expect("0.7 is a threshold");

    assert!(is_structurally_similar(StructuralSimilarity::Measured(measured(7, 10)), threshold));
    assert!(!is_structurally_similar(StructuralSimilarity::Measured(measured(69, 100)), threshold));
    assert!(!is_structurally_similar(StructuralSimilarity::NoTokens, threshold));
}

#[test]
fn test_lowering_the_threshold_keeps_the_verdict_of_a_pair_already_similar() {
    let low = Threshold::new(2, 1).expect("0.2 is a threshold");

    for signals in [signals_of_a_shared_domain(), signals_of_separate_domains()] {
        let high = classification_of(&signals, defaults());
        let lowered = classification_of(&signals, defaults().with_structural_similarity(low));
        assert_eq!(high.verdict(), lowered.verdict());
    }
}

#[test]
fn test_shared_imports_threshold_moves_the_placement() {
    let signals = Signals::new(
        StructuralSimilarity::Measured(measured(9, 10)),
        ImportOverlap::Measured(measured(6, 10)),
        separate_directories(),
    );
    let strict = Threshold::new(7, 1).expect("0.7 is a threshold");

    assert_eq!(classification_of(&signals, defaults()).verdict(), Verdict::ExtractCandidate);
    assert_eq!(
        classification_of(&signals, defaults().with_shared_imports(strict)).verdict(),
        Verdict::DoNotExtract
    );
}
