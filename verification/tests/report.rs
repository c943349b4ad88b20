use dryguard::classification::signal::{
    CallerDomainOverlap, ImportOverlap, MeasuredCallerDomains, SemanticsUnavailable, Signals,
    StructuralSimilarity, TypeSignatureMatch,
};
use dryguard::classification::{classification_of, ConfiguredThresholds};
use dryguard::domain_declaration::{
    DomainDeclaration, DomainDeclarations, DomainName, DomainPattern,
};
use dryguard::line_number::LineNumber;
use dryguard::location::Location;
use dryguard::report::{text_of, Explanation};
use dryguard::semantics::caller_domain::CallerDomains;
use dryguard::semantics::resolved_type::UnopenedReason;
use dryguard::semantics::type_signature::UntracedReason;
use dryguard::similarity::Similarity;
use dryguard::syntax::import::ImportsUnavailable;
use dryguard::syntax::module_distance::ModuleDistance;
use dryguard::threshold::Threshold;

fn measured(shared: u128, total: u128) -> Similarity {
    Similarity::new(shared, total).expect("a ratio between 0 and 1")
}

fn location(path: &str, line: usize) -> Location {
    Location::new(path.to_owned(), LineNumber::new(line).expect("a positive line"))
}

fn separate_directories() -> ModuleDistance {
    ModuleDistance::between("src/billing/discount.ts", "src/inventory/reorder.ts")
}

fn nested_directories() -> ModuleDistance {
    ModuleDistance::between("src/billing/tax/rate.ts", "src/billing/invoice.ts")
}

fn not_asked() -> CallerDomainOverlap {
    CallerDomainOverlap::Unavailable { reason: SemanticsUnavailable::NotAsked }
}

fn explained_text_of_separate_directories(
    structural_similarity: StructuralSimilarity,
    import_overlap: ImportOverlap,
    threshold: Threshold,
    explanation: Explanation,
) -> String {
    let signals = Signals::new(structural_similarity, import_overlap, separate_directories());

    text_of(
        &location("src/billing/discount.ts", 42),
        &location("src/inventory/reorder.ts", 18),
        &classification_of(
            &signals,
            ConfiguredThresholds::default().with_structural_similarity(threshold),
        ),
        explanation,
    )
}

fn text_of_separate_directories(
    structural_similarity: StructuralSimilarity,
    import_overlap: ImportOverlap,
    threshold: Threshold,
) -> String {
    explained_text_of_separate_directories(
        structural_similarity,
        import_overlap,
        threshold,
        Explanation::AskedSignals,
    )
}

fn text_of_accidental_duplication() -> String {
    text_of_separate_directories(
        StructuralSimilarity::Measured(measured(94, 100)),
        ImportOverlap::Measured(measured(0, 1)),
        Threshold::half(),
    )
}

fn explained_text_of_accidental_duplication() -> String {
    explained_text_of_separate_directories(
        StructuralSimilarity::Measured(measured(94, 100)),
        ImportOverlap::Measured(measured(0, 1)),
        Threshold::half(),
        Explanation::AllSignals,
    )
}

fn callers_of(path: &str, declarations: &DomainDeclarations) -> CallerDomains {
    CallerDomains::from_reference_paths(&[path.to_owned()], declarations)
        .expect("not claimed by two declarations")
        .expect("one reference")
}

fn callers_in_separate_domains() -> CallerDomainOverlap {
    let none = DomainDeclarations::empty();
    CallerDomainOverlap::Measured(MeasuredCallerDomains::new(
        callers_of("/repo/src/billing/invoice.ts", &none),
        callers_of("/repo/src/inventory/stock.ts", &none),
    ))
}

fn declarations_of(declared: &[(&str, &[&str])]) -> DomainDeclarations {
    let declared = declared
        .iter()
        .map(|(domain, patterns)| {
            DomainDeclaration::new(
                DomainName::new(domain).expect("a bare key"),
                patterns.iter().map(|p| DomainPattern::parse(p).expect("a glob")).collect(),
            )
            .expect("at least one glob")
        })
        .collect();
    DomainDeclarations::new("/repo", declared)
}

fn explained_text_of_accidental_duplication_with_semantics(
    type_signature_match: TypeSignatureMatch,
    caller_domain_overlap: CallerDomainOverlap,
    explanation: Explanation,
) -> String {
    let signals = Signals::new(
        StructuralSimilarity::Measured(measured(94, 100)),
        ImportOverlap::Measured(measured(0, 1)),
        separate_directories(),
    )
    .with_semantics(type_signature_match, caller_domain_overlap);

    text_of(
        &location("src/billing/discount.ts", 42),
        &location("src/inventory/reorder.ts", 18),
        &classification_of(&signals, ConfiguredThresholds::default()),
        explanation,
    )
}

fn text_of_accidental_duplication_with_semantics(
    type_signature_match: TypeSignatureMatch,
    caller_domain_overlap: CallerDomainOverlap,
) -> String {
    explained_text_of_accidental_duplication_with_semantics(
        type_signature_match,
        caller_domain_overlap,
        Explanation::AskedSignals,
    )
}

#[test]
fn test_text_of_starts_with_the_verdict_and_both_locations() {
    let text = text_of_accidental_duplication();

    assert_eq!(
        text.lines().next(),
        Some("[DO-NOT-EXTRACT] src/billing/discount.ts:42 <-> src/inventory/reorder.ts:18")
    );
}

#[test]
fn test_text_of_reports_the_structural_similarity_with_the_threshold_it_was_compared_against() {
    let text = text_of_accidental_duplication();

    assert!(text.contains("構造類似度: 0.94 (閾値 0.5) → 共通化する側"), "{text}");
}

#[test]
fn test_text_of_reports_the_threshold_it_was_given_instead_of_the_default() {
    let text = text_of_separate_directories(
        StructuralSimilarity::Measured(measured(94, 100)),
        ImportOverlap::Measured(measured(0, 1)),
        Threshold::new(8, 1).expect("0.8"),
    );

    assert!(text.contains("(閾値 0.8)"), "{text}");
}

#[test]
fn test_text_of_without_explain_omits_the_thresholds_of_the_other_signals() {
    let text = text_of_accidental_duplication();

    assert!(
        text.contains("依存先の重なり 0.00 → 共通化しない側")
            && text.contains("モジュール距離 2 段 → 共通化しない側"),
        "{text}"
    );
    assert!(text.contains("構造類似度: 0.94 (閾値 0.5)"), "{text}");
}

#[test]
fn test_explained_text_of_reports_the_threshold_each_signal_was_compared_against() {
    let text = explained_text_of_accidental_duplication();

    assert!(text.contains("依存先の重なり 0.00 (閾値 0.5) → 共通化しない側"), "{text}");
}

#[test]
fn test_explained_text_of_reports_the_given_threshold_apart_from_the_others() {
    let text = explained_text_of_separate_directories(
        StructuralSimilarity::Measured(measured(94, 100)),
        ImportOverlap::Measured(measured(0, 1)),
        Threshold::new(8, 1).expect("0.8"),
        Explanation::AllSignals,
    );

    assert!(
        text.contains("構造類似度: 0.94 (閾値 0.8)") && text.contains("依存先の重なり 0.00 (閾値 0.5)"),
        "{text}"
    );
}

#[test]
fn test_explained_text_of_reports_each_moved_threshold_on_its_own_signal() {
    let thresholds = ConfiguredThresholds::default()
        .with_structural_similarity(Threshold::new(8, 1).expect("0.8"))
        .with_shared_imports(Threshold::new(7, 1).expect("0.7"))
        .with_shared_caller_domains(Threshold::new(6, 1).expect("0.6"));
    let signals = Signals::new(
        StructuralSimilarity::Measured(measured(94, 100)),
        ImportOverlap::Measured(measured(0, 1)),
        separate_directories(),
    )
    .with_semantics(TypeSignatureMatch::NotUnifiable, callers_in_separate_domains());

    let text = text_of(
        &location("src/billing/discount.ts", 42),
        &location("src/inventory/reorder.ts", 18),
        &classification_of(&signals, thresholds),
        Explanation::AllSignals,
    );

    assert!(
        text.contains("構造類似度: 0.94 (閾値 0.8)")
            && text.contains("依存先の重なり 0.00 (閾値 0.7)")
            && text.contains("呼び出し元ドメインの重なり 0.00 (閾値 0.6)"),
        "{text}"
    );
}

#[test]
fn test_explained_text_of_reports_the_steps_it_compared_against_not_the_measured_ones() {
    let signals = Signals::new(
        StructuralSimilarity::Measured(measured(94, 100)),
        ImportOverlap::Measured(measured(0, 1)),
        nested_directories(),
    );

    let text = text_of(
        &location("src/billing/tax/rate.ts", 42),
        &location("src/billing/invoice.ts", 18),
        &classification_of(&signals, ConfiguredThresholds::default()),
        Explanation::AllSignals,
    );

    assert!(text.contains("モジュール距離 1 段 (閾値 2 段) → 共通化する側"), "{text}");
}

#[test]
fn test_text_of_without_explain_omits_the_signals_that_were_not_asked() {
    let text = text_of_accidental_duplication();

    assert!(
        !text.contains("型シグネチャ")
            && !text.contains("呼び出し元ドメイン")
            && !text.contains("呼び出し先ドメイン"),
        "{text}"
    );
    assert!(text.contains("構造類似度: 0.94") && text.contains("依存先の重なり 0.00"), "{text}");
}

#[test]
fn test_explained_text_of_reports_the_signals_that_were_not_asked() {
    let text = explained_text_of_accidental_duplication();

    assert!(
        text.contains("型シグネチャ: 尋ねていない (Stage 1 のシグナルだけで組み立てた) → どちらでもない"),
        "{text}"
    );
    assert!(
        text.contains(
            "呼び出し元ドメインの重なりを尋ねていない \
             (Stage 1 のシグナルだけで組み立てた) → どちらでもない"
        ),
        "{text}"
    );
}

#[test]
fn test_text_of_reports_every_signal_with_the_direction_it_leaned() {
    let text = text_of_accidental_duplication();

    assert!(
        text.contains("  理由: 依存先の重なり 0.00 → 共通化しない側\n")
            && text.contains("        モジュール距離 2 段 → 共通化しない側\n"),
        "{text}"
    );
}

#[test]
fn test_text_of_reports_a_signal_that_leaned_against_the_verdict() {
    let text = text_of_separate_directories(
        StructuralSimilarity::Measured(measured(94, 100)),
        ImportOverlap::Measured(measured(1, 1)),
        Threshold::half(),
    );

    assert!(text.contains("モジュール距離 2 段 → 共通化しない側"), "{text}");
}

#[test]
fn test_text_of_without_imports_reports_that_the_signal_could_not_be_measured() {
    let text = text_of_separate_directories(
        StructuralSimilarity::Measured(measured(94, 100)),
        ImportOverlap::Unavailable(ImportsUnavailable::NoDeclarations),
        Threshold::half(),
    );

    assert!(
        text.contains("依存先の重なりを測れない (依存の宣言が無いファイルがある) → どちらでもない"),
        "{text}"
    );
    assert!(text.contains("構造類似度: 0.94"), "{text}");
}

#[test]
fn test_text_of_with_unreadable_imports_reports_a_different_reason_from_having_none() {
    let text = text_of_separate_directories(
        StructuralSimilarity::Measured(measured(94, 100)),
        ImportOverlap::Unavailable(ImportsUnavailable::UnreadableDeclaration {
            line: LineNumber::from_index(11),
        }),
        Threshold::half(),
    );

    assert!(
        text.contains(
            "依存先の重なりを測れない (12 行目の依存の宣言を読み取れなかったファイルがある) → どちらでもない"
        ),
        "{text}"
    );
    assert!(!text.contains("依存の宣言が無いファイルがある"), "{text}");
}

#[test]
fn test_text_of_with_a_rebound_require_reports_a_different_reason_from_being_unreadable() {
    let text = text_of_separate_directories(
        StructuralSimilarity::Measured(measured(94, 100)),
        ImportOverlap::Unavailable(ImportsUnavailable::ReboundSpelling),
        Threshold::half(),
    );

    assert!(
        text.contains(
            "依存先の重なりを測れない (require の綴りが読み込みを指すと言い切れないファイルがある) → どちらでもない"
        ),
        "{text}"
    );
    assert!(!text.contains("読み取れなかった"), "{text}");
}

#[test]
fn test_text_of_without_structural_similarity_omits_the_threshold() {
    let text = text_of_separate_directories(
        StructuralSimilarity::NoTokens,
        ImportOverlap::Measured(measured(0, 1)),
        Threshold::half(),
    );

    assert!(text.contains("構造類似度: 測れない (トークンが 1 つも無い) → どちらでもない"), "{text}");
    assert!(!text.contains("閾値"), "{text}");
}

#[test]
fn test_text_of_do_not_extract_suggests_keeping_the_code_separate() {
    let text = text_of_accidental_duplication();

    assert!(text.contains("  提案: 偶発的な重複の可能性が高い。共通化せず分離を維持する。"), "{text}");
}

#[test]
fn test_text_of_extract_candidate_suggests_extracting() {
    let text = text_of_separate_directories(
        StructuralSimilarity::Measured(measured(94, 100)),
        ImportOverlap::Measured(measured(1, 1)),
        Threshold::half(),
    );

    assert!(text.contains("  提案: 共通化してよい。1 つにまとめる先を検討する。"), "{text}");
}

#[test]
fn test_text_of_reports_the_type_signature_with_the_direction_it_leaned() {
    let text = text_of_accidental_duplication_with_semantics(TypeSignatureMatch::NotUnifiable, not_asked());

    assert!(text.contains("  型シグネチャ: 単一化不能 → 共通化しない側\n"), "{text}");
}

#[test]
fn test_text_of_with_an_unopened_type_name_says_so_instead_of_calling_the_pair_not_unifiable() {
    let text = text_of_accidental_duplication_with_semantics(
        TypeSignatureMatch::UnopenedTypeName { reason: UnopenedReason::TypeDefinitionNotProvided },
        not_asked(),
    );

    assert!(
        text.contains(
            "型シグネチャ: 測れない (比較に残る型名を開けない: サーバが typeDefinition を提供していない) → どちらでもない"
        ),
        "{text}"
    );
}

#[test]
fn test_text_of_with_an_unsettled_hover_says_so_instead_of_calling_the_pair_unifiable() {
    let text =
        text_of_accidental_duplication_with_semantics(TypeSignatureMatch::ServerStillWorking, not_asked());

    assert!(
        text.contains("型シグネチャ: 測れない (サーバが作業中で hover の答えが落ち着かない) → どちらでもない"),
        "{text}"
    );
}

#[test]
fn test_text_of_with_an_unsettled_declaration_hover_says_which_hover_did_not_settle() {
    let text = text_of_accidental_duplication_with_semantics(
        TypeSignatureMatch::UnopenedTypeName { reason: UnopenedReason::ServerStillWorking },
        not_asked(),
    );

    assert!(
        text.contains(
            "型シグネチャ: 測れない (比較に残る型名を開けない: サーバが作業中で宣言の位置の hover の答えが落ち着かない) → どちらでもない"
        ),
        "{text}"
    );
}

#[test]
fn test_text_of_with_an_unreadable_type_definition_says_so_instead_of_blaming_the_server() {
    let text = text_of_accidental_duplication_with_semantics(
        TypeSignatureMatch::UnopenedTypeName { reason: UnopenedReason::UnreadableTypeDefinition },
        not_asked(),
    );

    assert!(
        text.contains(
            "型シグネチャ: 測れない (比較に残る型名を開けない: typeDefinition の応答を読めない) → どちらでもない"
        ),
        "{text}"
    );
}

#[test]
fn test_text_of_with_an_omitted_type_annotation_points_at_the_annotation_to_write() {
    let text = text_of_accidental_duplication_with_semantics(
        TypeSignatureMatch::UntracedTypeName { reason: UntracedReason::OmittedTypeAnnotation },
        not_asked(),
    );

    assert!(
        text.contains("型シグネチャ: 測れない (型注釈が省かれている: 注釈を書くと辿れる) → どちらでもない"),
        "{text}"
    );
}

#[test]
fn test_text_of_with_unaligned_parameters_does_not_claim_the_annotation_is_missing() {
    let text = text_of_accidental_duplication_with_semantics(
        TypeSignatureMatch::UntracedTypeName { reason: UntracedReason::UnalignedParameters },
        not_asked(),
    );

    assert!(
        text.contains(
            "型シグネチャ: 測れない (引数の数が綴りと揃わない: どの引数の型名を尋ねていないかを言えない) → どちらでもない"
        ),
        "{text}"
    );
}

#[test]
fn test_text_of_with_no_traced_record_does_not_claim_the_annotation_is_missing() {
    let text = text_of_accidental_duplication_with_semantics(
        TypeSignatureMatch::UntracedTypeName { reason: UntracedReason::NoTracedRecord },
        not_asked(),
    );

    assert!(
        text.contains(
            "型シグネチャ: 測れない (比較に残る型名を尋ねていない: ソースに書かれていないか、dryguard が集め損ねている) → どちらでもない"
        ),
        "{text}"
    );
}

#[test]
fn test_text_of_with_a_miscounted_overload_set_says_how_many_are_missing() {
    let text = text_of_accidental_duplication_with_semantics(
        TypeSignatureMatch::OverloadSetMiscounted { counted: 3, found: 1 },
        not_asked(),
    );

    assert!(
        text.contains(
            "型シグネチャ: 測れない (サーバは 3 本のオーバーロードを数えたが、揃えられたのは 1 本) → どちらでもない"
        ),
        "{text}"
    );
}

#[test]
fn test_text_of_with_an_unusable_lsp_reports_why_the_type_signature_is_missing() {
    let text = text_of_accidental_duplication_with_semantics(
        TypeSignatureMatch::Unavailable { reason: SemanticsUnavailable::LspUnusable },
        CallerDomainOverlap::Unavailable { reason: SemanticsUnavailable::LspUnusable },
    );

    assert!(text.contains("型シグネチャ: 測れない (LSP サーバを使えない) → どちらでもない"), "{text}");
    assert!(
        text.contains("呼び出し元ドメインの重なりを測れない (LSP サーバを使えない) → どちらでもない"),
        "{text}"
    );
    assert!(text.contains("構造類似度: 0.94"), "{text}");
}

#[test]
fn test_text_of_with_an_unrooted_project_says_what_to_place() {
    let text = text_of_accidental_duplication_with_semantics(
        TypeSignatureMatch::Unifiable,
        CallerDomainOverlap::ProjectUnrooted {
            markers: vec!["tsconfig.json".to_owned(), "jsconfig.json".to_owned()],
        },
    );

    assert!(
        text.contains(
            "呼び出し元ドメインの重なりを測れない \
             (プロジェクトの印が見つからない: tsconfig.json / jsconfig.json \
              のどれかを置くと参照元が揃う)"
        ),
        "{text}"
    );
    assert!(text.contains("型シグネチャ: 単一化可能"), "{text}");
}

#[test]
fn test_text_of_with_an_unrooted_project_without_markers_suggests_nothing_to_place() {
    let text = text_of_accidental_duplication_with_semantics(
        TypeSignatureMatch::Unifiable,
        CallerDomainOverlap::ProjectUnrooted { markers: Vec::new() },
    );

    assert!(text.contains("呼び出し元ドメインの重なりを測れない (プロジェクトの印が見つからない)"), "{text}");
    assert!(!text.contains("を置くと参照元が揃う"), "{text}");
}

#[test]
fn test_text_of_a_file_outside_the_project_says_to_widen_the_range_not_to_place_a_marker() {
    let text = text_of_accidental_duplication_with_semantics(
        TypeSignatureMatch::Unifiable,
        CallerDomainOverlap::OutsideProject {
            markers: vec!["tsconfig.json".to_owned(), "jsconfig.json".to_owned()],
        },
    );

    assert!(
        text.contains(
            "呼び出し元ドメインの重なりを測れない \
             (プロジェクトの範囲から外れている: tsconfig.json / jsconfig.json \
              が指す範囲を見直すと参照元が揃う)"
        ),
        "{text}"
    );
    assert!(!text.contains("プロジェクトの印が見つからない"), "{text}");
}

#[test]
fn test_text_of_an_unverifiable_membership_does_not_blame_the_project_config() {
    let text = text_of_accidental_duplication_with_semantics(
        TypeSignatureMatch::Unifiable,
        CallerDomainOverlap::ProjectMembershipNotProvided,
    );

    assert!(
        text.contains("呼び出し元ドメインの重なりを測れない (サーバがプロジェクトの所属を答えられない)"),
        "{text}"
    );
    assert!(!text.contains("プロジェクトの範囲から外れている"), "{text}");
}

#[test]
fn test_text_of_a_file_outside_the_project_without_markers_names_no_file_to_fix() {
    let text = text_of_accidental_duplication_with_semantics(
        TypeSignatureMatch::Unifiable,
        CallerDomainOverlap::OutsideProject { markers: Vec::new() },
    );

    assert!(text.contains("呼び出し元ドメインの重なりを測れない (プロジェクトの範囲から外れている)"), "{text}");
    assert!(!text.contains("が指す範囲を見直すと参照元が揃う"), "{text}");
}

#[test]
fn test_text_of_with_an_undecidable_workspace_root_does_not_blame_the_lsp_server() {
    let text = text_of_accidental_duplication_with_semantics(
        TypeSignatureMatch::Unavailable { reason: SemanticsUnavailable::WorkspaceRootUndecidable },
        CallerDomainOverlap::Unavailable { reason: SemanticsUnavailable::WorkspaceRootUndecidable },
    );

    assert!(text.contains("型シグネチャ: 測れない (ワークスペースの根を決められない)"), "{text}");
    assert!(!text.contains("LSP サーバを使えない"), "{text}");
}

#[test]
fn test_text_of_of_a_pair_below_the_threshold_says_it_did_not_ask() {
    let text = text_of_accidental_duplication_with_semantics(
        TypeSignatureMatch::Unavailable { reason: SemanticsUnavailable::NotACandidate },
        CallerDomainOverlap::Unavailable { reason: SemanticsUnavailable::NotACandidate },
    );

    assert!(
        text.contains("型シグネチャ: 尋ねていない (構造が似ておらず候補ペアではない)")
            && text.contains("呼び出し元ドメインの重なりを尋ねていない (構造が似ておらず候補ペアではない)"),
        "{text}"
    );
}

#[test]
fn test_text_of_without_asking_the_lsp_omits_the_stage2_lines() {
    let text = text_of_accidental_duplication_with_semantics(
        TypeSignatureMatch::Unavailable { reason: SemanticsUnavailable::NotAsked },
        not_asked(),
    );

    assert!(!text.contains("型シグネチャ") && !text.contains("呼び出し元ドメイン"), "{text}");
    assert!(text.contains("依存先の重なり 0.00"), "{text}");
}

#[test]
fn test_text_of_reports_how_many_references_each_caller_domain_has() {
    let text = text_of_accidental_duplication_with_semantics(
        TypeSignatureMatch::Unavailable { reason: SemanticsUnavailable::NotAsked },
        callers_in_separate_domains(),
    );

    assert!(
        text.contains(
            "呼び出し元ドメインの重なり 0.00 \
             (/repo/src/billing 1件 <-> /repo/src/inventory 1件) → 共通化しない側"
        ),
        "{text}"
    );
}

#[test]
fn test_explained_text_of_reports_the_threshold_beside_the_caller_domain_overlap() {
    let text = explained_text_of_accidental_duplication_with_semantics(
        TypeSignatureMatch::Unavailable { reason: SemanticsUnavailable::NotAsked },
        callers_in_separate_domains(),
        Explanation::AllSignals,
    );

    assert!(
        text.contains(
            "呼び出し元ドメインの重なり 0.00 (閾値 0.5) \
             (/repo/src/billing 1件 <-> /repo/src/inventory 1件) → 共通化しない側"
        ),
        "{text}"
    );
}

#[test]
fn test_text_of_review_suggests_a_human_decision() {
    let text = text_of_separate_directories(
        StructuralSimilarity::Measured(measured(2, 10)),
        ImportOverlap::Measured(measured(0, 1)),
        Threshold::half(),
    );

    assert!(text.contains("  提案: 判断材料が足りない。人が見て決める。"), "{text}");
}

#[test]
fn test_text_of_marks_a_declared_caller_domain_as_declared() {
    let declarations = declarations_of(&[
        ("billing", &["src/**/invoice*.ts"]),
        ("inventory", &["src/**/product*.ts"]),
    ]);
    let callers = CallerDomainOverlap::Measured(MeasuredCallerDomains::new(
        callers_of("/repo/src/services/invoiceService.ts", &declarations),
        callers_of("/repo/src/services/productService.ts", &declarations),
    ));

    let text = text_of_accidental_duplication_with_semantics(TypeSignatureMatch::NoName, callers);

    assert!(
        text.contains("呼び出し元ドメインの重なり 0.00 (billing (宣言) 1件 <-> inventory (宣言) 1件)"),
        "{text}"
    );
}

#[test]
fn test_text_of_names_the_file_and_the_two_declarations_a_reference_matched() {
    let ambiguous = declarations_of(&[
        ("billing", &["src/billing/**"]),
        ("reporting", &["src/**/report*.ts"]),
    ])
    .declared_domain_of("/repo/src/billing/report.ts")
    .expect_err("claimed by two declarations");

    let text = text_of_accidental_duplication_with_semantics(
        TypeSignatureMatch::NoName,
        CallerDomainOverlap::AmbiguousDomain(ambiguous),
    );

    assert!(
        text.contains(
            "呼び出し元ドメインの重なりを測れない (参照元の /repo/src/billing/report.ts が \
             dryguard.toml の 2 つの宣言 billing / reporting に当たる) → どちらでもない"
        ),
        "{text}"
    );
}

#[test]
fn test_text_of_lays_out_a_whole_report() {
    let text = text_of_accidental_duplication();

    assert_eq!(
        text,
        "[DO-NOT-EXTRACT] src/billing/discount.ts:42 <-> src/inventory/reorder.ts:18\n\
         \x20 構造類似度: 0.94 (閾値 0.5) → 共通化する側\n\
         \x20 理由: 依存先の重なり 0.00 → 共通化しない側\n\
         \x20       モジュール距離 2 段 → 共通化しない側\n\
         \x20 提案: 偶発的な重複の可能性が高い。共通化せず分離を維持する。"
    );
}
