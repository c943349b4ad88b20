//! Lays a verdict and its reasons out as the text a person reads.
//!
//! Sentences are built here and only here; a reason is a value, a threshold and a lean,
//! not a sentence. Nothing here decides: the label and the reasons come in ready.
pub mod json;

use vstd::prelude::*;

use crate::classification::reason::{Lean, Reason};
use crate::classification::signal::{
    caller_overlap_counts, CallerDomainOverlap, CallerDomainOverlapView, ImportOverlap,
    MeasuredCallerDomains, SemanticsUnavailable, StructuralSimilarity, TypeSignatureMatch,
};
use crate::classification::verdict::{verdict_label, Verdict};
use crate::classification::Classification;
use crate::domain_declaration::AmbiguousDomain;
use crate::location::{location_text, Location};
use crate::pipeline::scan::{skipped_text, CandidatePair, Scan, SkippedFile};
use crate::semantics::caller_domain::CallerDomains;
use crate::semantics::domain::{domain_text, DomainView};
use crate::semantics::resolved_type::UnopenedReason;
use crate::semantics::type_signature::UntracedReason;
use crate::similarity::{ratio_text, similarity_text};
use crate::syntax::import::ImportsUnavailable;
use crate::syntax::module_distance::ModuleDistance;
use crate::path::split_on;
use crate::text::{
    chars_of, decimal, join_with, joined_with, lemma_chars_deep_view, push_all, push_decimal,
    push_str, string_of, text_lines,
};
use crate::threshold::{threshold_text, Threshold};

verus! {

broadcast use lemma_chars_deep_view;

/// How much of the reasoning to print.
#[derive(Debug, Clone, Copy, PartialEq, Eq)]
pub enum Explanation {
    /// The values and leans of the signals that were asked for (the default).
    AskedSignals,
    /// Also the signals that were not asked for, and the threshold applied to each.
    AllSignals,
}

/// The indent of a heading line.
pub open spec fn indent() -> Seq<char> {
    "  "@
}

/// The indent of the reasons after the first, aligned under the first one.
pub open spec fn continuation_indent() -> Seq<char> {
    "        "@
}

/// The way a signal leaned, as printed.
pub open spec fn lean_text(lean: Lean) -> Seq<char> {
    match lean {
        Lean::TowardExtract => "共通化する側"@,
        Lean::TowardDoNotExtract => "共通化しない側"@,
        Lean::Neither => "どちらでもない"@,
    }
}

/// What a person does next, given the label.
pub open spec fn suggestion_text(verdict: Verdict) -> Seq<char> {
    match verdict {
        Verdict::ExtractCandidate => "共通化してよい。1 つにまとめる先を検討する。"@,
        Verdict::DoNotExtract => "偶発的な重複の可能性が高い。共通化せず分離を維持する。"@,
        Verdict::Review => "判断材料が足りない。人が見て決める。"@,
    }
}

/// The threshold applied to a signal, printed only with every signal explained.
pub open spec fn applied_threshold_text(threshold: Threshold, explanation: Explanation) -> Seq<char> {
    match explanation {
        Explanation::AskedSignals => seq![],
        Explanation::AllSignals => " (閾値 "@ + threshold_text(threshold) + ")"@,
    }
}

/// The steps counted as separate directories, printed only with every signal explained.
pub open spec fn applied_steps_text(steps: nat, explanation: Explanation) -> Seq<char> {
    match explanation {
        Explanation::AskedSignals => seq![],
        Explanation::AllSignals => " (閾値 "@ + decimal(steps) + " 段)"@,
    }
}

/// The structural similarity with its threshold, or why it was not measured.
pub open spec fn structural_text(signal: StructuralSimilarity, threshold: Threshold) -> Seq<char> {
    match signal {
        StructuralSimilarity::Measured(s) => similarity_text(s) + " (閾値 "@ + threshold_text(
            threshold,
        ) + ")"@,
        StructuralSimilarity::NoTokens => "測れない (トークンが 1 つも無い)"@,
    }
}

/// Why a file's dependencies could not be collected.
pub open spec fn imports_unavailable_text(cause: ImportsUnavailable) -> Seq<char> {
    match cause {
        ImportsUnavailable::NoDeclarations => "依存の宣言が無いファイルがある"@,
        ImportsUnavailable::ReboundSpelling => "require の綴りが読み込みを指すと言い切れないファイルがある"@,
        ImportsUnavailable::UnreadableDeclaration { line } => decimal(line.spec_get())
            + " 行目の依存の宣言を読み取れなかったファイルがある"@,
    }
}

/// The dependency overlap, or why it was not measured.
pub open spec fn import_text(signal: ImportOverlap, threshold: Threshold, explanation: Explanation) -> Seq<char> {
    match signal {
        ImportOverlap::Measured(s) => "依存先の重なり "@ + similarity_text(s) + applied_threshold_text(
            threshold,
            explanation,
        ),
        ImportOverlap::Unavailable(cause) => "依存先の重なりを測れない ("@ + imports_unavailable_text(
            cause,
        ) + ")"@,
    }
}

/// The directory steps between the two files.
pub open spec fn distance_text(distance: ModuleDistance, steps: nat, explanation: Explanation) -> Seq<char> {
    "モジュール距離 "@ + decimal(distance.spec_steps()) + " 段"@ + applied_steps_text(
        steps,
        explanation,
    )
}

/// Why the language server was not reached; `None` for a question not asked, unless every
/// signal is explained.
pub open spec fn semantics_unavailable_text(reason: SemanticsUnavailable, explanation: Explanation) -> Option<
    Seq<char>,
> {
    match reason {
        SemanticsUnavailable::NotAsked => match explanation {
            Explanation::AskedSignals => None,
            Explanation::AllSignals => Some("尋ねていない (Stage 1 のシグナルだけで組み立てた)"@),
        },
        SemanticsUnavailable::NotACandidate => Some("尋ねていない (構造が似ておらず候補ペアではない)"@),
        SemanticsUnavailable::DocumentUnopenable => Some("測れない (サーバに開かせる形にできない)"@),
        SemanticsUnavailable::WorkspaceRootUndecidable => Some("測れない (ワークスペースの根を決められない)"@),
        SemanticsUnavailable::LspUnusable => Some("測れない (LSP サーバを使えない)"@),
    }
}

/// Why a type name that stays in the comparison was not traced.
pub open spec fn untraced_text(reason: UntracedReason) -> Seq<char> {
    match reason {
        UntracedReason::OmittedTypeAnnotation => "測れない (型注釈が省かれている: 注釈を書くと辿れる)"@,
        UntracedReason::UnalignedParameters => "測れない (引数の数が綴りと揃わない: どの引数の型名を尋ねていないかを言えない)"@,
        UntracedReason::NoTracedRecord => "測れない (比較に残る型名を尋ねていない: ソースに書かれていないか、dryguard が集め損ねている)"@,
    }
}

/// Why a type name that stays in the comparison could not be opened.
pub open spec fn unopened_text(reason: UnopenedReason) -> Seq<char> {
    match reason {
        UnopenedReason::TypeDefinitionNotProvided => "測れない (比較に残る型名を開けない: サーバが typeDefinition を提供していない)"@,
        UnopenedReason::NoDeclarationSite => "測れない (比較に残る型名を開けない: サーバが宣言の場所を答えない)"@,
        UnopenedReason::UnreadableTypeDefinition => "測れない (比較に残る型名を開けない: typeDefinition の応答を読めない)"@,
        UnopenedReason::UnreadableDeclaringDocument => "測れない (比較に残る型名を開けない: 宣言のファイルを読めない)"@,
        UnopenedReason::NoSpellingAtDeclaration => "測れない (比較に残る型名を開けない: サーバが宣言の位置に型を持たない)"@,
        UnopenedReason::UnreadableDeclarationHover => "測れない (比較に残る型名を開けない: 宣言の位置の hover の応答を読めない)"@,
        UnopenedReason::HoverNotProvided => "測れない (比較に残る型名を開けない: サーバが hover を提供していない)"@,
        UnopenedReason::ServerStillWorking => "測れない (比較に残る型名を開けない: サーバが作業中で宣言の位置の hover の答えが落ち着かない)"@,
        UnopenedReason::UnopenableAlias => "測れない (比較に残る型名を開けない: エイリアスの右辺を差し込める形にできない)"@,
    }
}

/// Whether the type signatures unify, or why that was not measured; `None` when the
/// question was not asked and not every signal is explained.
pub open spec fn type_text(signal: TypeSignatureMatch, explanation: Explanation) -> Option<Seq<char>> {
    match signal {
        TypeSignatureMatch::Unifiable => Some("単一化可能"@),
        TypeSignatureMatch::NotUnifiable => Some("単一化不能"@),
        TypeSignatureMatch::Unavailable { reason } => semantics_unavailable_text(reason, explanation),
        TypeSignatureMatch::NoName => Some("測れない (チャンクが名前を持たない)"@),
        TypeSignatureMatch::NoTypeThere => Some("測れない (サーバがその位置に型を持たない)"@),
        TypeSignatureMatch::UnreadableHover => Some("測れない (hover の応答を読めない)"@),
        TypeSignatureMatch::ServerStillWorking => Some("測れない (サーバが作業中で hover の答えが落ち着かない)"@),
        TypeSignatureMatch::UnreadableSignature => Some("測れない (返った綴りを読み解けない)"@),
        TypeSignatureMatch::HoverNotProvided => Some("測れない (サーバが hover を提供していない)"@),
        TypeSignatureMatch::UnopenedTypeName { reason } => Some(unopened_text(reason)),
        TypeSignatureMatch::UntracedTypeName { reason } => Some(untraced_text(reason)),
        TypeSignatureMatch::SiteDependentSpelling => Some("測れない (比較に残る綴りが書かれた場所で決まる)"@),
        TypeSignatureMatch::OverloadSetMiscounted { counted, found } => Some(
            "測れない (サーバは "@ + decimal(counted as nat) + " 本のオーバーロードを数えたが、揃えられたのは "@
                + decimal(found as nat) + " 本)"@,
        ),
    }
}

/// No project marker was found; names the markers that would settle it, if any.
pub open spec fn unrooted_text(markers: Seq<Seq<char>>) -> Seq<char> {
    if markers.len() == 0 {
        "プロジェクトの印が見つからない"@
    } else {
        "プロジェクトの印が見つからない: "@ + joined_with(markers, " / "@) + " のどれかを置くと参照元が揃う"@
    }
}

/// The file is outside its marker's project; names the markers, if any.
pub open spec fn outside_text(markers: Seq<Seq<char>>) -> Seq<char> {
    if markers.len() == 0 {
        "プロジェクトの範囲から外れている"@
    } else {
        "プロジェクトの範囲から外れている: "@ + joined_with(markers, " / "@) + " が指す範囲を見直すと参照元が揃う"@
    }
}

/// A file claimed by two declarations, and their two names.
pub open spec fn ambiguous_text(path: Seq<char>, first: Seq<char>, second: Seq<char>) -> Seq<char> {
    path + " が dryguard.toml の 2 つの宣言 "@ + first + " / "@ + second + " に当たる"@
}

/// One side's references per domain (`src/billing 3件 / src/inventory 5件`).
pub open spec fn per_domain_text(tally: Seq<(DomainView, nat)>) -> Seq<char> {
    joined_with(
        tally.map_values(|e: (DomainView, nat)| domain_text(e.0) + " "@ + decimal(e.1) + "件"@),
        " / "@,
    )
}

/// The measured caller-domain overlap with both sides' references per domain.
pub open spec fn measured_callers_text(
    a: Seq<(DomainView, nat)>,
    b: Seq<(DomainView, nat)>,
    threshold: Threshold,
    explanation: Explanation,
) -> Seq<char> {
    "呼び出し元ドメインの重なり "@ + ratio_text(caller_overlap_counts(a, b).0, caller_overlap_counts(a, b).1)
        + applied_threshold_text(threshold, explanation) + " ("@ + per_domain_text(a) + " <-> "@
        + per_domain_text(b) + ")"@
}

/// The caller-domain overlap, or why it was not measured; `None` when the question was not
/// asked and not every signal is explained.
pub open spec fn caller_text(
    signal: CallerDomainOverlapView,
    threshold: Threshold,
    explanation: Explanation,
) -> Option<Seq<char>> {
    let unmeasured = "呼び出し元ドメインの重なりを測れない ("@;
    match signal {
        CallerDomainOverlapView::Measured(a, b) => Some(measured_callers_text(a, b, threshold, explanation)),
        CallerDomainOverlapView::Unavailable(reason) => match semantics_unavailable_text(reason, explanation) {
            Some(t) => Some("呼び出し元ドメインの重なりを"@ + t),
            None => None,
        },
        CallerDomainOverlapView::NoName => Some(unmeasured + "チャンクが名前を持たない"@ + ")"@),
        CallerDomainOverlapView::ProjectUnrooted(markers) => Some(unmeasured + unrooted_text(markers) + ")"@),
        CallerDomainOverlapView::OutsideProject(markers) => Some(unmeasured + outside_text(markers) + ")"@),
        CallerDomainOverlapView::ProjectMembershipNotProvided => Some(
            unmeasured + "サーバがプロジェクトの所属を答えられない"@ + ")"@,
        ),
        CallerDomainOverlapView::NoReferences => Some(unmeasured + "参照元が 1 件も返らない"@ + ")"@),
        CallerDomainOverlapView::UnreadableReferences => Some(unmeasured + "読めない URI が混じっている"@ + ")"@),
        CallerDomainOverlapView::ServerStillWorking => Some(unmeasured + "サーバが作業中で答えが落ち着かない"@ + ")"@),
        CallerDomainOverlapView::ReferencesNotProvided => Some(
            unmeasured + "サーバが references を提供していない"@ + ")"@,
        ),
        CallerDomainOverlapView::AmbiguousDomain(path, first, second) => Some(
            unmeasured + "参照元の "@ + ambiguous_text(path, first, second) + ")"@,
        ),
    }
}

/// The line a reason adds under the heading, for the reasons printed on a line of their
/// own (structural similarity, type signature).
pub open spec fn reason_line(reason: Reason, explanation: Explanation) -> Option<Seq<char>> {
    match reason {
        Reason::StructuralSimilarity { signal, threshold, lean } => Some(
            indent() + "構造類似度: "@ + structural_text(signal, threshold) + " → "@ + lean_text(lean),
        ),
        Reason::TypeSignatureMatch { signal, lean } => match type_text(signal, explanation) {
            Some(t) => Some(indent() + "型シグネチャ: "@ + t + " → "@ + lean_text(lean)),
            None => None,
        },
        _ => None,
    }
}

/// The text a reason adds to the `理由:` block, for the other reasons.
pub open spec fn reason_entry(reason: Reason, explanation: Explanation) -> Option<Seq<char>> {
    match reason {
        Reason::ImportOverlap { signal, threshold, lean } => Some(
            import_text(signal, threshold, explanation) + " → "@ + lean_text(lean),
        ),
        Reason::ModuleDistance { signal, separate_directory_steps, lean } => Some(
            distance_text(signal, separate_directory_steps as nat, explanation) + " → "@ + lean_text(lean),
        ),
        Reason::CallerDomainOverlap { signal, threshold, lean } => match caller_text(
            signal@,
            threshold,
            explanation,
        ) {
            Some(t) => Some(t + " → "@ + lean_text(lean)),
            None => None,
        },
        _ => None,
    }
}

/// The lines the reasons add under the heading, in order.
pub open spec fn reason_lines(reasons: Seq<Reason>, explanation: Explanation) -> Seq<Seq<char>>
    decreases reasons.len(),
{
    if reasons.len() == 0 {
        seq![]
    } else {
        let before = reason_lines(reasons.drop_last(), explanation);
        match reason_line(reasons.last(), explanation) {
            Some(line) => before.push(line),
            None => before,
        }
    }
}

/// The entries the reasons add to the `理由:` block, in order.
pub open spec fn reason_entries(reasons: Seq<Reason>, explanation: Explanation) -> Seq<Seq<char>>
    decreases reasons.len(),
{
    if reasons.len() == 0 {
        seq![]
    } else {
        let before = reason_entries(reasons.drop_last(), explanation);
        match reason_entry(reasons.last(), explanation) {
            Some(entry) => before.push(entry),
            None => before,
        }
    }
}

/// The `理由:` block: the heading on the first entry, the rest aligned under it.
pub open spec fn reason_block(entries: Seq<Seq<char>>) -> Seq<Seq<char>> {
    Seq::new(
        entries.len(),
        |i: int|
            if i == 0 {
                indent() + "理由: "@ + entries[0]
            } else {
                continuation_indent() + entries[i]
            },
    )
}

/// The whole text for one pair, lines joined by a newline, with no newline at the end.
pub open spec fn report_text(
    location_a: Seq<char>,
    location_b: Seq<char>,
    verdict: Verdict,
    reasons: Seq<Reason>,
    explanation: Explanation,
) -> Seq<char> {
    let heading = "["@ + verdict_label(verdict) + "] "@ + location_a + " <-> "@ + location_b;
    joined_with(
        seq![heading] + reason_lines(reasons, explanation) + reason_block(
            reason_entries(reasons, explanation),
        ) + seq![indent() + "提案: "@ + suggestion_text(verdict)],
        "\n"@,
    )
}

/// The characters of an optional text.
pub open spec fn optional_chars(text: Option<Vec<char>>) -> Option<Seq<char>> {
    match text {
        Some(t) => Some(t@),
        None => None,
    }
}

/// The verdict and its reasons as lines: a heading, the reasons, and the suggestion.
///
/// The heading line gives the label and both locations; structural similarity always
/// shows its threshold, so that a changed threshold can be read off the output. The
/// language server's lines appear only when it was asked, unless every signal is
/// explained. No newline at the end.
pub fn text_of(
    location_a: &Location,
    location_b: &Location,
    classification: &Classification,
    explanation: Explanation,
) -> (text: String)
    ensures
        text@ == report_text(
            location_text(location_a.spec_path(), location_a.spec_line()),
            location_text(location_b.spec_path(), location_b.spec_line()),
            classification.verdict_view(),
            classification.reasons_view(),
            explanation,
        ),
{
    let verdict = classification.verdict();
    let mut heading: Vec<char> = Vec::new();
    push_str(&mut heading, "[");
    push_str(&mut heading, verdict.label());
    push_str(&mut heading, "] ");
    push_str(&mut heading, location_a.text().as_str());
    push_str(&mut heading, " <-> ");
    push_str(&mut heading, location_b.text().as_str());
    let ghost heading_view = heading@;
    assert(heading_view =~= "["@ + verdict_label(verdict) + "] "@ + location_text(
        location_a.spec_path(),
        location_a.spec_line(),
    ) + " <-> "@ + location_text(location_b.spec_path(), location_b.spec_line()));
    let mut lines: Vec<Vec<char>> = Vec::new();
    lines.push(heading);
    let mut entries: Vec<Vec<char>> = Vec::new();
    let reasons = classification.reasons();
    let mut i: usize = 0;
    while i < reasons.len()
        invariant
            0 <= i <= reasons@.len(),
            lines.deep_view() == seq![heading_view] + reason_lines(reasons@.take(i as int), explanation),
            entries.deep_view() == reason_entries(reasons@.take(i as int), explanation),
        decreases reasons@.len() - i,
    {
        proof {
            assert(reasons@.take(i + 1).drop_last() =~= reasons@.take(i as int));
        }
        let ghost lines_before = lines.deep_view();
        let ghost entries_before = entries.deep_view();
        match reason_line_of(&reasons[i], explanation) {
            Some(line) => {
                lines.push(line);
                assert(lines.deep_view() =~= lines_before.push(line@));
            },
            None => {},
        }
        match reason_entry_of(&reasons[i], explanation) {
            Some(entry) => {
                entries.push(entry);
                assert(entries.deep_view() =~= entries_before.push(entry@));
            },
            None => {},
        }
        i = i + 1;
    }
    proof {
        assert(reasons@.take(i as int) =~= reasons@);
    }
    let block = reason_lines_of(&entries);
    let ghost lines_before = lines.deep_view();
    let mut j: usize = 0;
    while j < block.len()
        invariant
            0 <= j <= block@.len(),
            lines.deep_view() == lines_before + block.deep_view().take(j as int),
        decreases block@.len() - j,
    {
        let copy = crate::path::clone_chars(&block[j]);
        let ghost prior = lines.deep_view();
        lines.push(copy);
        j = j + 1;
        assert(lines.deep_view() =~= lines_before + block.deep_view().take(j as int)) by {
            assert(lines.deep_view() =~= prior.push(block.deep_view()[j - 1]));
        }
    }
    assert(block.deep_view().take(j as int) =~= block.deep_view());
    let mut suggestion: Vec<char> = Vec::new();
    push_str(&mut suggestion, "  提案: ");
    push_str(&mut suggestion, suggestion_of(verdict));
    proof {
        reveal_strlit("  提案: ");
        reveal_strlit("  ");
        reveal_strlit("提案: ");
        assert(suggestion@ =~= indent() + "提案: "@ + suggestion_text(verdict));
    }
    let ghost prior = lines.deep_view();
    lines.push(suggestion);
    assert(lines.deep_view() =~= prior.push(suggestion@));
    assert(lines.deep_view() =~= seq![heading_view] + reason_lines(reasons@, explanation)
        + reason_block(reason_entries(reasons@, explanation)) + seq![
        indent() + "提案: "@ + suggestion_text(verdict),
    ]);
    let joined = join_with(&lines, "\n");
    string_of(&joined)
}

/// The line a structural similarity or type signature reason adds under the heading.
fn reason_line_of(reason: &Reason, explanation: Explanation) -> (line: Option<Vec<char>>)
    ensures
        optional_chars(line) == reason_line(*reason, explanation),
{
    match reason {
        Reason::StructuralSimilarity { signal, threshold, lean } => {
            let mut line: Vec<char> = Vec::new();
            push_str(&mut line, "  構造類似度: ");
            push_all(&mut line, structural_similarity_text_of(*signal, *threshold).as_slice());
            push_str(&mut line, " → ");
            push_str(&mut line, lean_text_of(*lean));
            proof {
                reveal_strlit("  構造類似度: ");
                reveal_strlit("  ");
                reveal_strlit("構造類似度: ");
                assert(line@ =~= indent() + "構造類似度: "@ + structural_text(*signal, *threshold)
                    + " → "@ + lean_text(*lean));
            }
            Some(line)
        },
        Reason::TypeSignatureMatch { signal, lean } => {
            match type_signature_text_of(*signal, explanation) {
                Some(t) => {
                    let mut line: Vec<char> = Vec::new();
                    push_str(&mut line, "  型シグネチャ: ");
                    push_all(&mut line, t.as_slice());
                    push_str(&mut line, " → ");
                    push_str(&mut line, lean_text_of(*lean));
                    proof {
                        reveal_strlit("  型シグネチャ: ");
                        reveal_strlit("  ");
                        reveal_strlit("型シグネチャ: ");
                        assert(line@ =~= indent() + "型シグネチャ: "@ + t@ + " → "@ + lean_text(*lean));
                    }
                    Some(line)
                },
                None => None,
            }
        },
        _ => None,
    }
}

/// The entry an import, distance or caller reason adds to the `理由:` block.
fn reason_entry_of(reason: &Reason, explanation: Explanation) -> (entry: Option<Vec<char>>)
    ensures
        optional_chars(entry) == reason_entry(*reason, explanation),
{
    match reason {
        Reason::ImportOverlap { signal, threshold, lean } => {
            let mut entry = import_overlap_text_of(*signal, *threshold, explanation);
            push_str(&mut entry, " → ");
            push_str(&mut entry, lean_text_of(*lean));
            Some(entry)
        },
        Reason::ModuleDistance { signal, separate_directory_steps, lean } => {
            let mut entry = module_distance_text_of(*signal, *separate_directory_steps, explanation);
            push_str(&mut entry, " → ");
            push_str(&mut entry, lean_text_of(*lean));
            Some(entry)
        },
        Reason::CallerDomainOverlap { signal, threshold, lean } => {
            match caller_domain_overlap_text_of(signal, *threshold, explanation) {
                Some(t) => {
                    let mut entry = t;
                    push_str(&mut entry, " → ");
                    push_str(&mut entry, lean_text_of(*lean));
                    Some(entry)
                },
                None => None,
            }
        },
        _ => None,
    }
}

/// The `理由:` block: the heading on the first entry, the rest aligned under it.
fn reason_lines_of(entries: &Vec<Vec<char>>) -> (lines: Vec<Vec<char>>)
    ensures
        lines.deep_view() == reason_block(entries.deep_view()),
{
    let mut lines: Vec<Vec<char>> = Vec::new();
    let mut i: usize = 0;
    while i < entries.len()
        invariant
            0 <= i <= entries@.len(),
            lines.deep_view() == reason_block(entries.deep_view()).take(i as int),
        decreases entries@.len() - i,
    {
        let mut line: Vec<char> = Vec::new();
        if i == 0 {
            push_str(&mut line, "  理由: ");
        } else {
            push_str(&mut line, "        ");
        }
        push_all(&mut line, entries[i].as_slice());
        proof {
            reveal_strlit("  ");
            reveal_strlit("        ");
            reveal_strlit("  理由: ");
            reveal_strlit("理由: ");
            assert(entries.deep_view()[i as int] == entries@[i as int]@);
            if i == 0 {
                assert(line@ =~= indent() + "理由: "@ + entries.deep_view()[0]);
            } else {
                assert(line@ =~= continuation_indent() + entries.deep_view()[i as int]);
            }
        }
        let ghost prior = lines.deep_view();
        lines.push(line);
        i = i + 1;
        assert(lines.deep_view() =~= reason_block(entries.deep_view()).take(i as int)) by {
            assert(lines.deep_view() =~= prior.push(line@));
        }
    }
    assert(reason_block(entries.deep_view()).take(i as int) =~= reason_block(entries.deep_view()));
    lines
}

/// The structural similarity with the threshold it was compared with.
///
/// No threshold beside a similarity that was not measured: a value not compared would
/// read as a comparison.
fn structural_similarity_text_of(signal: StructuralSimilarity, threshold: Threshold) -> (text: Vec<char>)
    ensures
        text@ == structural_text(signal, threshold),
{
    match signal {
        StructuralSimilarity::Measured(similarity) => {
            let mut text = chars_of(similarity.text().as_str());
            push_str(&mut text, " (閾値 ");
            push_str(&mut text, threshold.text().as_str());
            push_str(&mut text, ")");
            text
        },
        StructuralSimilarity::NoTokens => chars_of("測れない (トークンが 1 つも無い)"),
    }
}

/// The dependency overlap, or why it was not measured. The threshold only when every
/// signal is explained.
fn import_overlap_text_of(signal: ImportOverlap, threshold: Threshold, explanation: Explanation) -> (text: Vec<
    char,
>)
    ensures
        text@ == import_text(signal, threshold, explanation),
{
    match signal {
        ImportOverlap::Measured(overlap) => {
            let mut text = chars_of("依存先の重なり ");
            push_str(&mut text, overlap.text().as_str());
            push_all(&mut text, applied_threshold_text_of(threshold, explanation).as_slice());
            text
        },
        ImportOverlap::Unavailable(cause) => {
            let mut text = chars_of("依存先の重なりを測れない (");
            push_all(&mut text, imports_unavailable_text_of(cause).as_slice());
            push_str(&mut text, ")");
            text
        },
    }
}

/// Why a file's dependencies could not be collected, told by what the user does next.
fn imports_unavailable_text_of(cause: ImportsUnavailable) -> (text: Vec<char>)
    ensures
        text@ == imports_unavailable_text(cause),
{
    match cause {
        ImportsUnavailable::NoDeclarations => chars_of("依存の宣言が無いファイルがある"),
        ImportsUnavailable::ReboundSpelling => chars_of(
            "require の綴りが読み込みを指すと言い切れないファイルがある",
        ),
        ImportsUnavailable::UnreadableDeclaration { line } => {
            let mut text: Vec<char> = Vec::new();
            push_decimal(&mut text, line.get() as u64);
            push_str(&mut text, " 行目の依存の宣言を読み取れなかったファイルがある");
            text
        },
    }
}

/// The directory steps. The steps counted as separate only when every signal is explained.
fn module_distance_text_of(
    distance: ModuleDistance,
    separate_directory_steps: usize,
    explanation: Explanation,
) -> (text: Vec<char>)
    ensures
        text@ == distance_text(distance, separate_directory_steps as nat, explanation),
{
    let mut text = chars_of("モジュール距離 ");
    push_decimal(&mut text, distance.steps() as u64);
    push_str(&mut text, " 段");
    push_all(&mut text, applied_steps_text_of(separate_directory_steps, explanation).as_slice());
    text
}

/// The threshold applied to a signal, only when every signal is explained.
fn applied_threshold_text_of(threshold: Threshold, explanation: Explanation) -> (text: Vec<char>)
    ensures
        text@ == applied_threshold_text(threshold, explanation),
{
    match explanation {
        Explanation::AskedSignals => Vec::new(),
        Explanation::AllSignals => {
            let mut text = chars_of(" (閾値 ");
            push_str(&mut text, threshold.text().as_str());
            push_str(&mut text, ")");
            text
        },
    }
}

/// The steps counted as separate directories, only when every signal is explained.
///
/// Kept apart from the threshold text: steps are no 0.0-1.0 threshold, and carry a unit.
fn applied_steps_text_of(separate_directory_steps: usize, explanation: Explanation) -> (text: Vec<char>)
    ensures
        text@ == applied_steps_text(separate_directory_steps as nat, explanation),
{
    match explanation {
        Explanation::AskedSignals => Vec::new(),
        Explanation::AllSignals => {
            let mut text = chars_of(" (閾値 ");
            push_decimal(&mut text, separate_directory_steps as u64);
            push_str(&mut text, " 段)");
            text
        },
    }
}

/// Whether the type signatures unify, or why that was not measured. `None` when the server
/// was not asked and not every signal is explained: no line rather than a blank one.
fn type_signature_text_of(signal: TypeSignatureMatch, explanation: Explanation) -> (text: Option<Vec<char>>)
    ensures
        optional_chars(text) == type_text(signal, explanation),
{
    let text: &str = match signal {
        TypeSignatureMatch::Unifiable => "単一化可能",
        TypeSignatureMatch::NotUnifiable => "単一化不能",
        TypeSignatureMatch::Unavailable { reason } => match semantics_unavailable_text_of(reason, explanation) {
            Some(t) => t,
            None => {
                return None;
            },
        },
        TypeSignatureMatch::NoName => "測れない (チャンクが名前を持たない)",
        TypeSignatureMatch::NoTypeThere => "測れない (サーバがその位置に型を持たない)",
        TypeSignatureMatch::UnreadableHover => "測れない (hover の応答を読めない)",
        TypeSignatureMatch::ServerStillWorking => "測れない (サーバが作業中で hover の答えが落ち着かない)",
        TypeSignatureMatch::UnreadableSignature => "測れない (返った綴りを読み解けない)",
        TypeSignatureMatch::HoverNotProvided => "測れない (サーバが hover を提供していない)",
        TypeSignatureMatch::UnopenedTypeName { reason } => unopened_text_of(reason),
        TypeSignatureMatch::UntracedTypeName { reason } => untraced_text_of(reason),
        TypeSignatureMatch::SiteDependentSpelling => "測れない (比較に残る綴りが書かれた場所で決まる)",
        TypeSignatureMatch::OverloadSetMiscounted { counted, found } => {
            let mut text = chars_of("測れない (サーバは ");
            push_decimal(&mut text, counted as u64);
            push_str(&mut text, " 本のオーバーロードを数えたが、揃えられたのは ");
            push_decimal(&mut text, found as u64);
            push_str(&mut text, " 本)");
            return Some(text);
        },
    };
    Some(chars_of(text))
}

/// Why a type name that stays in the comparison was not traced.
fn untraced_text_of(reason: UntracedReason) -> (text: &'static str)
    ensures
        text@ == untraced_text(reason),
{
    match reason {
        UntracedReason::OmittedTypeAnnotation => "測れない (型注釈が省かれている: 注釈を書くと辿れる)",
        UntracedReason::UnalignedParameters => "測れない (引数の数が綴りと揃わない: どの引数の型名を尋ねていないかを言えない)",
        UntracedReason::NoTracedRecord => "測れない (比較に残る型名を尋ねていない: ソースに書かれていないか、dryguard が集め損ねている)",
    }
}

/// Why a type name that stays in the comparison could not be opened.
fn unopened_text_of(reason: UnopenedReason) -> (text: &'static str)
    ensures
        text@ == unopened_text(reason),
{
    match reason {
        UnopenedReason::TypeDefinitionNotProvided => "測れない (比較に残る型名を開けない: サーバが typeDefinition を提供していない)",
        UnopenedReason::NoDeclarationSite => "測れない (比較に残る型名を開けない: サーバが宣言の場所を答えない)",
        UnopenedReason::UnreadableTypeDefinition => "測れない (比較に残る型名を開けない: typeDefinition の応答を読めない)",
        UnopenedReason::UnreadableDeclaringDocument => "測れない (比較に残る型名を開けない: 宣言のファイルを読めない)",
        UnopenedReason::NoSpellingAtDeclaration => "測れない (比較に残る型名を開けない: サーバが宣言の位置に型を持たない)",
        UnopenedReason::UnreadableDeclarationHover => "測れない (比較に残る型名を開けない: 宣言の位置の hover の応答を読めない)",
        UnopenedReason::HoverNotProvided => "測れない (比較に残る型名を開けない: サーバが hover を提供していない)",
        UnopenedReason::ServerStillWorking => "測れない (比較に残る型名を開けない: サーバが作業中で宣言の位置の hover の答えが落ち着かない)",
        UnopenedReason::UnopenableAlias => "測れない (比較に残る型名を開けない: エイリアスの右辺を差し込める形にできない)",
    }
}

/// The caller-domain overlap with both sides' references per domain, or why it was not
/// measured. `None` when the server was not asked and not every signal is explained.
fn caller_domain_overlap_text_of(
    signal: &CallerDomainOverlap,
    threshold: Threshold,
    explanation: Explanation,
) -> (text: Option<Vec<char>>)
    ensures
        optional_chars(text) == caller_text(signal@, threshold, explanation),
{
    let unmeasured: &str = match signal {
        CallerDomainOverlap::Measured(measured) => {
            return Some(measured_caller_domains_text_of(measured, threshold, explanation));
        },
        CallerDomainOverlap::Unavailable { reason } => {
            match semantics_unavailable_text_of(*reason, explanation) {
                Some(t) => {
                    let mut text = chars_of("呼び出し元ドメインの重なりを");
                    push_str(&mut text, t);
                    return Some(text);
                },
                None => {
                    return None;
                },
            }
        },
        CallerDomainOverlap::NoName => "チャンクが名前を持たない",
        CallerDomainOverlap::ProjectUnrooted { markers } => {
            let mut text = chars_of("呼び出し元ドメインの重なりを測れない (");
            push_all(&mut text, unrooted_project_text_of(markers).as_slice());
            push_str(&mut text, ")");
            return Some(text);
        },
        CallerDomainOverlap::OutsideProject { markers } => {
            let mut text = chars_of("呼び出し元ドメインの重なりを測れない (");
            push_all(&mut text, outside_project_text_of(markers).as_slice());
            push_str(&mut text, ")");
            return Some(text);
        },
        CallerDomainOverlap::ProjectMembershipNotProvided => "サーバがプロジェクトの所属を答えられない",
        CallerDomainOverlap::NoReferences => "参照元が 1 件も返らない",
        CallerDomainOverlap::UnreadableReferences => "読めない URI が混じっている",
        CallerDomainOverlap::ServerStillWorking => "サーバが作業中で答えが落ち着かない",
        CallerDomainOverlap::ReferencesNotProvided => "サーバが references を提供していない",
        CallerDomainOverlap::AmbiguousDomain(ambiguous) => {
            let mut text = chars_of("呼び出し元ドメインの重なりを測れない (");
            push_str(&mut text, "参照元の ");
            push_all(&mut text, ambiguous_domain_text_of(ambiguous).as_slice());
            push_str(&mut text, ")");
            return Some(text);
        },
    };
    let mut text = chars_of("呼び出し元ドメインの重なりを測れない (");
    push_str(&mut text, unmeasured);
    push_str(&mut text, ")");
    Some(text)
}

/// The markers joined by ` / `.
fn markers_text_of(markers: &Vec<String>) -> (text: Vec<char>)
    ensures
        text@ == joined_with(markers.deep_view(), " / "@),
{
    let mut pieces: Vec<Vec<char>> = Vec::new();
    let mut i: usize = 0;
    while i < markers.len()
        invariant
            0 <= i <= markers@.len(),
            pieces.deep_view() == markers.deep_view().take(i as int),
        decreases markers@.len() - i,
    {
        let ghost prior = pieces.deep_view();
        pieces.push(chars_of(markers[i].as_str()));
        i = i + 1;
        assert(pieces.deep_view() =~= markers.deep_view().take(i as int)) by {
            assert(pieces.deep_view() =~= prior.push(markers@[i - 1]@));
        }
    }
    assert(markers.deep_view().take(i as int) =~= markers.deep_view());
    join_with(&pieces, " / ")
}

/// No project marker was found, and the markers that would settle it.
fn unrooted_project_text_of(markers: &Vec<String>) -> (text: Vec<char>)
    ensures
        text@ == unrooted_text(markers.deep_view()),
{
    if markers.len() == 0 {
        return chars_of("プロジェクトの印が見つからない");
    }
    let mut text = chars_of("プロジェクトの印が見つからない: ");
    push_all(&mut text, markers_text_of(markers).as_slice());
    push_str(&mut text, " のどれかを置くと参照元が揃う");
    text
}

/// The file is outside its marker's project, and the markers spanning it.
fn outside_project_text_of(markers: &Vec<String>) -> (text: Vec<char>)
    ensures
        text@ == outside_text(markers.deep_view()),
{
    if markers.len() == 0 {
        return chars_of("プロジェクトの範囲から外れている");
    }
    let mut text = chars_of("プロジェクトの範囲から外れている: ");
    push_all(&mut text, markers_text_of(markers).as_slice());
    push_str(&mut text, " が指す範囲を見直すと参照元が揃う");
    text
}

/// Why the language server was not reached. `None` for a question not asked, unless every
/// signal is explained.
fn semantics_unavailable_text_of(reason: SemanticsUnavailable, explanation: Explanation) -> (text:
    Option<&'static str>)
    ensures
        match text {
            Some(t) => semantics_unavailable_text(reason, explanation) == Some(t@),
            None => semantics_unavailable_text(reason, explanation) is None,
        },
{
    match reason {
        SemanticsUnavailable::NotAsked => match explanation {
            Explanation::AskedSignals => None,
            Explanation::AllSignals => Some("尋ねていない (Stage 1 のシグナルだけで組み立てた)"),
        },
        SemanticsUnavailable::NotACandidate => Some("尋ねていない (構造が似ておらず候補ペアではない)"),
        SemanticsUnavailable::DocumentUnopenable => Some("測れない (サーバに開かせる形にできない)"),
        SemanticsUnavailable::WorkspaceRootUndecidable => Some("測れない (ワークスペースの根を決められない)"),
        SemanticsUnavailable::LspUnusable => Some("測れない (LSP サーバを使えない)"),
    }
}

/// The measured overlap and both sides' references per domain.
fn measured_caller_domains_text_of(
    measured: &MeasuredCallerDomains,
    threshold: Threshold,
    explanation: Explanation,
) -> (text: Vec<char>)
    ensures
        text@ == measured_callers_text(
            measured.callers_a_view(),
            measured.callers_b_view(),
            threshold,
            explanation,
        ),
{
    let overlap = measured.overlap();
    let mut text = chars_of("呼び出し元ドメインの重なり ");
    push_str(&mut text, overlap.text().as_str());
    push_all(&mut text, applied_threshold_text_of(threshold, explanation).as_slice());
    push_str(&mut text, " (");
    push_all(&mut text, references_per_domain_text_of(measured.callers_a()).as_slice());
    push_str(&mut text, " <-> ");
    push_all(&mut text, references_per_domain_text_of(measured.callers_b()).as_slice());
    push_str(&mut text, ")");
    text
}

/// One side's references per domain; directories are printed whole, so that two
/// directories of one name under different parents stay apart.
fn references_per_domain_text_of(callers: &CallerDomains) -> (text: Vec<char>)
    ensures
        text@ == per_domain_text(callers@),
{
    let entries = callers.references_per_domain();
    let ghost tally = callers@;
    let ghost pieces_view = tally.map_values(
        |e: (DomainView, nat)| domain_text(e.0) + " "@ + decimal(e.1) + "件"@,
    );
    let mut pieces: Vec<Vec<char>> = Vec::new();
    let mut i: usize = 0;
    while i < entries.len()
        invariant
            0 <= i <= entries@.len(),
            entries@.map_values(|e: (crate::semantics::domain::Domain, usize)| (e.0.view(), e.1 as nat))
                == tally,
            pieces_view == tally.map_values(
                |e: (DomainView, nat)| domain_text(e.0) + " "@ + decimal(e.1) + "件"@,
            ),
            pieces.deep_view() == pieces_view.take(i as int),
        decreases entries@.len() - i,
    {
        let mut piece = chars_of(entries[i].0.text().as_str());
        push_str(&mut piece, " ");
        push_decimal(&mut piece, entries[i].1 as u64);
        push_str(&mut piece, "件");
        let ghost prior = pieces.deep_view();
        proof {
            assert(tally[i as int] == (entries@[i as int].0.view(), entries@[i as int].1 as nat));
            assert(piece@ == pieces_view[i as int]);
        }
        pieces.push(piece);
        i = i + 1;
        assert(pieces.deep_view() =~= pieces_view.take(i as int)) by {
            assert(pieces.deep_view() =~= prior.push(pieces_view[i - 1]));
        }
    }
    assert(pieces_view.take(i as int) =~= pieces_view);
    join_with(&pieces, " / ")
}

/// A file claimed by two declarations and their two names, the place to fix in
/// `dryguard.toml`.
fn ambiguous_domain_text_of(ambiguous: &AmbiguousDomain) -> (text: Vec<char>)
    ensures
        text@ == ambiguous_text(
            ambiguous.path_view(),
            ambiguous.first_view(),
            ambiguous.second_view(),
        ),
{
    let mut text = chars_of(ambiguous.path());
    push_str(&mut text, " が dryguard.toml の 2 つの宣言 ");
    push_str(&mut text, ambiguous.first().as_str());
    push_str(&mut text, " / ");
    push_str(&mut text, ambiguous.second().as_str());
    push_str(&mut text, " に当たる");
    text
}

/// The way a signal leaned, as printed.
fn lean_text_of(lean: Lean) -> (text: &'static str)
    ensures
        text@ == lean_text(lean),
{
    match lean {
        Lean::TowardExtract => "共通化する側",
        Lean::TowardDoNotExtract => "共通化しない側",
        Lean::Neither => "どちらでもない",
    }
}

/// What a person does next. Read off the label alone, so that nothing here decides.
pub(crate) fn suggestion_of(verdict: Verdict) -> (text: &'static str)
    ensures
        text@ == suggestion_text(verdict),
{
    match verdict {
        Verdict::ExtractCandidate => "共通化してよい。1 つにまとめる先を検討する。",
        Verdict::DoNotExtract => "偶発的な重複の可能性が高い。共通化せず分離を維持する。",
        Verdict::Review => "判断材料が足りない。人が見て決める。",
    }
}

/// Joined pieces start with the first piece.
proof fn lemma_joined_starts_with_first(pieces: Seq<Seq<char>>, sep: Seq<char>)
    requires
        pieces.len() >= 1,
    ensures
        joined_with(pieces, sep).len() >= pieces[0].len(),
        joined_with(pieces, sep).subrange(0, pieces[0].len() as int) == pieces[0],
    decreases pieces.len(),
{
    if pieces.len() > 1 {
        lemma_joined_starts_with_first(pieces.drop_last(), sep);
        let before = joined_with(pieces.drop_last(), sep);
        assert((before + sep + pieces.last()).subrange(0, pieces[0].len() as int) =~= before.subrange(
            0,
            pieces[0].len() as int,
        ));
    }
}

/// The heading line of a pair's text: its label and both locations.
pub open spec fn heading_line(location_a: Seq<char>, location_b: Seq<char>, verdict: Verdict) -> Seq<char> {
    "["@ + verdict_label(verdict) + "] "@ + location_a + " <-> "@ + location_b
}

/// The closing line of a pair's text: what to do next.
pub open spec fn suggestion_line(verdict: Verdict) -> Seq<char> {
    indent() + "提案: "@ + suggestion_text(verdict)
}

/// A pair's text opens with its heading line (the label in brackets and both locations) and
/// closes with its suggestion line after a newline, with no newline at the end.
pub proof fn lemma_text_opens_with_the_heading_and_closes_with_the_suggestion(
    location_a: Seq<char>,
    location_b: Seq<char>,
    verdict: Verdict,
    reasons: Seq<Reason>,
    explanation: Explanation,
)
    ensures
        ({
            let text = report_text(location_a, location_b, verdict, reasons, explanation);
            let heading = heading_line(location_a, location_b, verdict);
            let closing = suggestion_line(verdict);
            &&& text.len() > heading.len() + closing.len()
            &&& text.subrange(0, heading.len() as int) == heading
            &&& text.subrange(text.len() - closing.len() - 1, text.len() as int) == seq!['\n']
                + closing
            &&& text.last() != '\n'
        }),
{
    let heading = heading_line(location_a, location_b, verdict);
    let closing = suggestion_line(verdict);
    let pieces = seq![heading] + reason_lines(reasons, explanation) + reason_block(
        reason_entries(reasons, explanation),
    ) + seq![closing];
    assert(pieces[0] == heading);
    assert(pieces.last() == closing);
    assert(pieces.len() >= 2);
    let before = joined_with(pieces.drop_last(), "\n"@);
    lemma_joined_starts_with_first(pieces.drop_last(), "\n"@);
    assert(pieces.drop_last()[0] == heading);
    reveal_strlit("\n");
    reveal_strlit("  ");
    reveal_strlit("提案: ");
    reveal_strlit("共通化してよい。1 つにまとめる先を検討する。");
    reveal_strlit("偶発的な重複の可能性が高い。共通化せず分離を維持する。");
    reveal_strlit("判断材料が足りない。人が見て決める。");
    let text = before + "\n"@ + closing;
    assert(report_text(location_a, location_b, verdict, reasons, explanation) == text);
    assert(text.subrange(0, heading.len() as int) =~= before.subrange(0, heading.len() as int));
    assert(text.subrange(text.len() - closing.len() - 1, text.len() as int) =~= seq!['\n']
        + closing);
    assert(text.last() == closing.last());
}

/// Splitting more text after a text keeps the pieces that were already complete, and never
/// gives fewer pieces.
proof fn lemma_split_keeps_complete_pieces(a: Seq<char>, b: Seq<char>, sep: char)
    ensures
        split_on(a + b, sep).len() >= split_on(a, sep).len(),
        forall|i: int|
            0 <= i < split_on(a, sep).len() - 1 ==> #[trigger] split_on(a + b, sep)[i] == split_on(
                a,
                sep,
            )[i],
    decreases b.len(),
{
    crate::path::lemma_split_on_len(a, sep);
    if b.len() > 0 {
        let shorter = b.drop_last();
        lemma_split_keeps_complete_pieces(a, shorter, sep);
        crate::path::lemma_split_on_len(a + shorter, sep);
        assert((a + b).drop_last() =~= a + shorter);
    } else {
        assert(a + b =~= a);
    }
}

/// Text without the separator after a text joins its last piece.
proof fn lemma_split_extends_last_piece(a: Seq<char>, b: Seq<char>, sep: char)
    requires
        !b.contains(sep),
    ensures
        split_on(a + b, sep).len() == split_on(a, sep).len(),
        split_on(a + b, sep).last() == split_on(a, sep).last() + b,
    decreases b.len(),
{
    crate::path::lemma_split_on_len(a, sep);
    if b.len() > 0 {
        let shorter = b.drop_last();
        assert(!shorter.contains(sep)) by {
            if shorter.contains(sep) {
                let k = choose|k: int| 0 <= k < shorter.len() && shorter[k] == sep;
                assert(b[k] == sep);
            }
        }
        lemma_split_extends_last_piece(a, shorter, sep);
        crate::path::lemma_split_on_len(a + shorter, sep);
        assert((a + b).drop_last() =~= a + shorter);
        assert((a + b).last() == b.last());
        assert(b.last() != sep) by {
            assert(b[b.len() - 1] == b.last());
        }
        assert(split_on(a + shorter, sep).last() + seq![b.last()] =~= split_on(a, sep).last() + b);
    } else {
        assert(a + b =~= a);
    }
}

/// A separator ends the last piece and starts an empty one.
proof fn lemma_split_at_separator(a: Seq<char>, sep: char)
    ensures
        split_on(a.push(sep), sep) == split_on(a, sep).push(Seq::<char>::empty()),
{
    assert(a.push(sep).drop_last() =~= a);
}

/// Pieces joined by a separator split back into a first piece equal to the first piece
/// joined, when that one holds no separator.
proof fn lemma_joined_first_piece(pieces: Seq<Seq<char>>, sep: char)
    requires
        pieces.len() >= 1,
        !pieces[0].contains(sep),
    ensures
        split_on(joined_with(pieces, seq![sep]), sep)[0] == pieces[0],
    decreases pieces.len(),
{
    if pieces.len() == 1 {
        lemma_split_extends_last_piece(Seq::<char>::empty(), pieces[0], sep);
        assert(Seq::<char>::empty() + pieces[0] =~= pieces[0]);
        assert(split_on(Seq::<char>::empty(), sep) == seq![Seq::<char>::empty()]);
        assert(Seq::<char>::empty() + pieces[0] =~= pieces[0]);
    } else {
        let before = joined_with(pieces.drop_last(), seq![sep]);
        assert(pieces.drop_last()[0] == pieces[0]);
        lemma_joined_first_piece(pieces.drop_last(), sep);
        crate::path::lemma_split_on_len(before, sep);
        lemma_split_at_separator(before, sep);
        lemma_split_keeps_complete_pieces(before.push(sep), pieces.last(), sep);
        assert(before + seq![sep] + pieces.last() =~= before.push(sep) + pieces.last());
    }
}

/// The lines of a pair's text: the heading line first and the suggestion line last, as
/// `str::lines` reads them, and no newline at the end; for locations whose text holds no
/// line break (a line break in a path would start a line of its own).
pub proof fn lemma_text_lines_open_with_the_heading_and_close_with_the_suggestion(
    location_a: Seq<char>,
    location_b: Seq<char>,
    verdict: Verdict,
    reasons: Seq<Reason>,
    explanation: Explanation,
)
    requires
        !location_a.contains('\n'),
        !location_b.contains('\n'),
        !location_b.contains('\r'),
    ensures
        ({
            let lines = text_lines(report_text(location_a, location_b, verdict, reasons, explanation));
            &&& lines.len() >= 2
            &&& lines[0] == heading_line(location_a, location_b, verdict)
            &&& lines.last() == suggestion_line(verdict)
        }),
        report_text(location_a, location_b, verdict, reasons, explanation).last() != '\n',
{
    lemma_text_opens_with_the_heading_and_closes_with_the_suggestion(
        location_a,
        location_b,
        verdict,
        reasons,
        explanation,
    );
    let heading = heading_line(location_a, location_b, verdict);
    let closing = suggestion_line(verdict);
    let pieces = seq![heading] + reason_lines(reasons, explanation) + reason_block(
        reason_entries(reasons, explanation),
    ) + seq![closing];
    let text = report_text(location_a, location_b, verdict, reasons, explanation);
    reveal_strlit("[");
    reveal_strlit("] ");
    reveal_strlit(" <-> ");
    reveal_strlit("  ");
    reveal_strlit("提案: ");
    reveal_strlit("\n");
    reveal_strlit("EXTRACT-CANDIDATE");
    reveal_strlit("DO-NOT-EXTRACT");
    reveal_strlit("REVIEW");
    reveal_strlit("共通化してよい。1 つにまとめる先を検討する。");
    reveal_strlit("偶発的な重複の可能性が高い。共通化せず分離を維持する。");
    reveal_strlit("判断材料が足りない。人が見て決める。");
    assert(!heading.contains('\n')) by {
        if heading.contains('\n') {
            let k = choose|k: int| 0 <= k < heading.len() && heading[k] == '\n';
            let label = verdict_label(verdict);
            let p1 = "["@ + label;
            let p2 = p1 + "] "@;
            let p3 = p2 + location_a;
            let p4 = p3 + " <-> "@;
            assert(heading == p4 + location_b);
            if k >= p4.len() {
                assert(location_b[k - p4.len()] == '\n');
            } else if k >= p3.len() {
                assert(" <-> "@[k - p3.len()] == '\n');
            } else if k >= p2.len() {
                assert(location_a[k - p2.len()] == '\n');
            } else if k >= p1.len() {
                assert("] "@[k - p1.len()] == '\n');
            } else if k >= 1 {
                assert(label[k - 1] == '\n');
            } else {
                assert("["@[k] == '\n');
            }
        }
    }
    assert(!closing.contains('\n')) by {
        if closing.contains('\n') {
            let k = choose|k: int| 0 <= k < closing.len() && closing[k] == '\n';
            let p1 = "  "@ + "提案: "@;
            assert(closing == p1 + suggestion_text(verdict));
            if k >= p1.len() {
                assert(suggestion_text(verdict)[k - p1.len()] == '\n');
            } else if k >= 2 {
                assert("提案: "@[k - 2] == '\n');
            } else {
                assert("  "@[k] == '\n');
            }
        }
    }
    let before = joined_with(pieces.drop_last(), "\n"@);
    assert("\n"@ == seq!['\n']);
    assert(text == before.push('\n') + closing) by {
        assert(text == before + "\n"@ + closing);
        assert(before + "\n"@ + closing =~= before.push('\n') + closing);
    }
    assert(pieces.drop_last()[0] == heading);
    lemma_joined_first_piece(pieces.drop_last(), '\n');
    crate::path::lemma_split_on_len(before, '\n');
    lemma_split_at_separator(before, '\n');
    lemma_split_keeps_complete_pieces(before.push('\n'), closing, '\n');
    lemma_split_extends_last_piece(before.push('\n'), closing, '\n');
    let split = split_on(text, '\n');
    assert(split.len() >= 2);
    assert(split[0] == heading);
    assert(Seq::<char>::empty() + closing =~= closing);
    assert(split.last() == closing);
    assert(text.len() > 0);
    assert(heading.len() > 0 && heading.last() != '\r') by {
        if location_b.len() > 0 {
            assert(heading.last() == location_b.last());
            assert(location_b[location_b.len() - 1] == location_b.last());
        } else {
            assert(heading.last() == " <-> "@.last());
        }
    }
    let lines = text_lines(text);
    assert(lines[0] == crate::text::without_cr(split[0]));
}

/// A heading with its items under it, each indented; no block at all for no item, since an
/// empty heading reads as something passed over.
pub open spec fn listed_block(heading: Seq<char>, items: Seq<Seq<char>>) -> Seq<Seq<char>> {
    if items.len() == 0 {
        seq![]
    } else {
        seq![joined_with(seq![heading] + items.map_values(|t: Seq<char>| indent() + t), "\n"@)]
    }
}

/// How much a scan walked: files, chunks, pairs compared (with those settled by length
/// alone) and candidates.
pub open spec fn walked_text(files: nat, chunks: nat, compared: nat, pruned: nat, candidates: nat) -> Seq<char> {
    "対象 "@ + decimal(files) + " ファイル / チャンク "@ + decimal(chunks) + " 件 / 比較 "@ + decimal(
        compared,
    ) + " ペア（うち長さで確定 "@ + decimal(pruned) + " ペア）/ 候補 "@ + decimal(candidates)
        + " ペア"@
}

/// A candidate pair laid out as [`text_of`] lays out a compared pair.
pub open spec fn candidate_text(candidate: CandidatePair, explanation: Explanation) -> Seq<char> {
    report_text(
        location_text(candidate.location_a_view().0, candidate.location_a_view().1),
        location_text(candidate.location_b_view().0, candidate.location_b_view().1),
        candidate.classification_view().verdict_view(),
        candidate.classification_view().reasons_view(),
        explanation,
    )
}

/// The blocks of a scan's report: each candidate pair, the files passed over and the
/// functions that could not be cut out (each only where there is one), then what was
/// walked.
pub open spec fn scan_blocks(scan: Scan, explanation: Explanation) -> Seq<Seq<char>> {
    scan.candidates_view().map_values(|c: CandidatePair| candidate_text(c, explanation))
        + listed_block(
        "読めなかったファイル:"@,
        scan.skipped_view().map_values(|s: SkippedFile| skipped_text(s)),
    ) + listed_block(
        "構文エラーで切り出せなかった関数:"@,
        scan.unchunkable_view().map_values(|l: (Seq<char>, nat)| location_text(l.0, l.1)),
    ) + seq![
        walked_text(
            scan.counts_view().0,
            scan.counts_view().1,
            scan.counts_view().2,
            scan.counts_view().3,
            scan.candidates_view().len(),
        ),
    ]
}

/// A scan's report: its blocks with an empty line between each two; no newline at the end.
pub open spec fn scan_report_text(scan: Scan, explanation: Explanation) -> Seq<char> {
    joined_with(scan_blocks(scan, explanation), "\n\n"@)
}

/// Joining two runs of pieces is joining each, with one separator between them.
proof fn lemma_joined_concat(a: Seq<Seq<char>>, b: Seq<Seq<char>>, sep: Seq<char>)
    requires
        a.len() > 0,
        b.len() > 0,
    ensures
        joined_with(a + b, sep) == joined_with(a, sep) + sep + joined_with(b, sep),
    decreases b.len(),
{
    if b.len() == 1 {
        assert((a + b).drop_last() =~= a);
        assert((a + b).last() == b[0]);
    } else {
        lemma_joined_concat(a, b.drop_last(), sep);
        assert((a + b).drop_last() =~= a + b.drop_last());
        assert((a + b).last() == b.last());
        assert(joined_with(a, sep) + sep + joined_with(b.drop_last(), sep) + sep + b.last()
            =~= joined_with(a, sep) + sep + (joined_with(b.drop_last(), sep) + sep + b.last()));
    }
}

/// A scan's text opens with every candidate pair, in the order found, each laid out as
/// [`text_of`] lays out a compared pair and each a block of its own (blocks are parted by
/// an empty line); and it closes with how much was walked, whose last count is the number
/// of candidates.
/// Joined pieces end with the last piece.
proof fn lemma_joined_ends_with_last(pieces: Seq<Seq<char>>, sep: Seq<char>)
    requires
        pieces.len() > 0,
    ensures
        exists|before: Seq<char>| joined_with(pieces, sep) == before + pieces.last(),
{
    if pieces.len() == 1 {
        assert(joined_with(pieces, sep) =~= Seq::<char>::empty() + pieces.last());
    } else {
        let before = joined_with(pieces.drop_last(), sep) + sep;
        assert(joined_with(pieces, sep) == before + pieces.last());
    }
}

/// The candidate pairs of a scan laid out as [`text_of`] lays out a compared pair.
pub open spec fn candidate_texts(scan: Scan, explanation: Explanation) -> Seq<Seq<char>> {
    scan.candidates_view().map_values(
        |c: CandidatePair| report_text(
            location_text(c.location_a_view().0, c.location_a_view().1),
            location_text(c.location_b_view().0, c.location_b_view().1),
            c.classification_view().verdict_view(),
            c.classification_view().reasons_view(),
            explanation,
        ),
    )
}

/// The walked line of a scan, whose last count is the number of candidates.
pub open spec fn scan_walked_line(scan: Scan) -> Seq<char> {
    walked_text(
        scan.counts_view().0,
        scan.counts_view().1,
        scan.counts_view().2,
        scan.counts_view().3,
        scan.candidates_view().len(),
    )
}

/// A scan's text opens with every candidate pair, in the order found, each laid out as
/// [`text_of`] lays out a compared pair and each a block of its own (blocks are parted by
/// an empty line); and it closes with how much was walked, whose last count is the number
/// of candidates.
pub proof fn lemma_scan_text_opens_with_every_candidate(scan: Scan, explanation: Explanation)
    ensures
        candidate_texts(scan, explanation).len() > 0 ==> exists|rest: Seq<char>|
            scan_report_text(scan, explanation) == joined_with(
                candidate_texts(scan, explanation),
                "\n\n"@,
            ) + "\n\n"@ + rest,
        exists|before: Seq<char>| scan_report_text(scan, explanation) == before + scan_walked_line(scan),
{
    let texts = candidate_texts(scan, explanation);
    let others = listed_block(
        "読めなかったファイル:"@,
        scan.skipped_view().map_values(|s: SkippedFile| skipped_text(s)),
    ) + listed_block(
        "構文エラーで切り出せなかった関数:"@,
        scan.unchunkable_view().map_values(|l: (Seq<char>, nat)| location_text(l.0, l.1)),
    ) + seq![scan_walked_line(scan)];
    let blocks = scan_blocks(scan, explanation);
    assert(scan.candidates_view().map_values(|c: CandidatePair| candidate_text(c, explanation))
        =~= texts);
    assert(blocks =~= texts + others);
    assert(blocks.last() == scan_walked_line(scan));
    lemma_joined_ends_with_last(blocks, "\n\n"@);
    if texts.len() > 0 {
        lemma_joined_concat(texts, others, "\n\n"@);
    }
}

/// The lines of a listed block: the heading, then each item indented.
fn listed_lines(heading: &str, items: Vec<Vec<char>>) -> (block: Vec<Vec<char>>)
    ensures
        block.deep_view() == listed_block(heading@, items.deep_view()),
{
    if items.len() == 0 {
        return Vec::new();
    }
    let mut lines: Vec<Vec<char>> = Vec::new();
    lines.push(chars_of(heading));
    let ghost indented = items.deep_view().map_values(|t: Seq<char>| indent() + t);
    let mut i: usize = 0;
    while i < items.len()
        invariant
            0 <= i <= items@.len(),
            indented == items.deep_view().map_values(|t: Seq<char>| indent() + t),
            lines.deep_view() == seq![heading@] + indented.take(i as int),
        decreases items@.len() - i,
    {
        let mut line: Vec<char> = Vec::new();
        push_str(&mut line, "  ");
        push_all(&mut line, items[i].as_slice());
        assert(items.deep_view()[i as int] == items@[i as int]@);
        let ghost before = lines.deep_view();
        lines.push(line);
        i = i + 1;
        assert(lines.deep_view() =~= seq![heading@] + indented.take(i as int)) by {
            assert(lines.deep_view() =~= before.push(indent() + items@[i - 1]@));
        }
    }
    assert(indented.take(i as int) =~= indented);
    let mut block: Vec<Vec<char>> = Vec::new();
    block.push(join_with(&lines, "\n"));
    assert(block.deep_view() =~= listed_block(heading@, items.deep_view()));
    block
}

/// A scan as the text a person reads: each candidate pair as [`text_of`] lays it out, the
/// files passed over and the functions that could not be cut out (each only where there is
/// one), then how much was walked; an empty line between each two, no newline at the end.
pub fn scan_text_of(scan: &Scan, explanation: Explanation) -> (text: String)
    ensures
        text@ == scan_report_text(*scan, explanation),
{
    let pairs = scan.candidate_pairs();
    let mut blocks: Vec<Vec<char>> = Vec::new();
    let mut i: usize = 0;
    while i < pairs.len()
        invariant
            0 <= i <= pairs@.len(),
            pairs@ == scan.candidates_view(),
            blocks.deep_view() == pairs@.take(i as int).map_values(
                |c: CandidatePair| candidate_text(c, explanation),
            ),
        decreases pairs@.len() - i,
    {
        let pair = &pairs[i];
        let text = text_of(pair.location_a(), pair.location_b(), pair.classification(), explanation);
        let ghost before = blocks.deep_view();
        blocks.push(chars_of(text.as_str()));
        i = i + 1;
        assert(blocks.deep_view() =~= pairs@.take(i as int).map_values(
            |c: CandidatePair| candidate_text(c, explanation),
        )) by {
            assert(blocks.deep_view() =~= before.push(candidate_text(pairs@[i - 1], explanation)));
            assert(pairs@.take(i as int).drop_last() =~= pairs@.take(i - 1));
        }
    }
    assert(pairs@.take(i as int) =~= pairs@);

    let skipped = scan.skipped_files();
    let mut skipped_items: Vec<Vec<char>> = Vec::new();
    let mut k: usize = 0;
    while k < skipped.len()
        invariant
            0 <= k <= skipped@.len(),
            skipped@ == scan.skipped_view(),
            skipped_items.deep_view() == skipped@.take(k as int).map_values(
                |s: SkippedFile| skipped_text(s),
            ),
        decreases skipped@.len() - k,
    {
        let ghost before = skipped_items.deep_view();
        skipped_items.push(chars_of(skipped[k].text().as_str()));
        k = k + 1;
        assert(skipped_items.deep_view() =~= skipped@.take(k as int).map_values(
            |s: SkippedFile| skipped_text(s),
        )) by {
            assert(skipped_items.deep_view() =~= before.push(skipped_text(skipped@[k - 1])));
        }
    }
    assert(skipped@.take(k as int) =~= skipped@);
    let skipped_block = listed_lines("読めなかったファイル:", skipped_items);

    let unchunkable = scan.unchunkable();
    let mut unchunkable_items: Vec<Vec<char>> = Vec::new();
    let ghost located = unchunkable@.map_values(|l: Location| (l.spec_path(), l.spec_line()));
    let mut m: usize = 0;
    while m < unchunkable.len()
        invariant
            0 <= m <= unchunkable@.len(),
            located == unchunkable@.map_values(|l: Location| (l.spec_path(), l.spec_line())),
            unchunkable_items.deep_view() == located.take(m as int).map_values(
                |l: (Seq<char>, nat)| location_text(l.0, l.1),
            ),
        decreases unchunkable@.len() - m,
    {
        let ghost before = unchunkable_items.deep_view();
        unchunkable_items.push(chars_of(unchunkable[m].text().as_str()));
        m = m + 1;
        assert(unchunkable_items.deep_view() =~= located.take(m as int).map_values(
            |l: (Seq<char>, nat)| location_text(l.0, l.1),
        )) by {
            assert(unchunkable_items.deep_view() =~= before.push(
                location_text(located[m - 1].0, located[m - 1].1),
            ));
        }
    }
    assert(located.take(m as int) =~= located);
    let unchunkable_block = listed_lines("構文エラーで切り出せなかった関数:", unchunkable_items);

    let mut walked: Vec<char> = Vec::new();
    push_str(&mut walked, "対象 ");
    push_decimal(&mut walked, scan.file_count() as u64);
    push_str(&mut walked, " ファイル / チャンク ");
    push_decimal(&mut walked, scan.chunk_count() as u64);
    push_str(&mut walked, " 件 / 比較 ");
    push_decimal(&mut walked, scan.compared_pair_count() as u64);
    push_str(&mut walked, " ペア（うち長さで確定 ");
    push_decimal(&mut walked, scan.pruned_pair_count() as u64);
    push_str(&mut walked, " ペア）/ 候補 ");
    push_decimal(&mut walked, pairs.len() as u64);
    push_str(&mut walked, " ペア");

    let ghost candidate_blocks = blocks.deep_view();
    let mut b: usize = 0;
    while b < skipped_block.len()
        invariant
            0 <= b <= skipped_block@.len(),
            blocks.deep_view() == candidate_blocks + skipped_block.deep_view().take(b as int),
        decreases skipped_block@.len() - b,
    {
        let ghost before = blocks.deep_view();
        blocks.push(crate::path::clone_chars(&skipped_block[b]));
        b = b + 1;
        assert(blocks.deep_view() =~= candidate_blocks + skipped_block.deep_view().take(b as int)) by {
            assert(skipped_block.deep_view()[b - 1] == skipped_block@[b - 1]@);
            assert(blocks.deep_view() =~= before.push(skipped_block@[b - 1]@));
            assert(skipped_block.deep_view().take(b as int) =~= skipped_block.deep_view().take(
                b - 1,
            ).push(skipped_block.deep_view()[b - 1]));
        }
    }
    assert(skipped_block.deep_view().take(b as int) =~= skipped_block.deep_view());
    let ghost with_skipped = blocks.deep_view();
    let mut u: usize = 0;
    while u < unchunkable_block.len()
        invariant
            0 <= u <= unchunkable_block@.len(),
            blocks.deep_view() == with_skipped + unchunkable_block.deep_view().take(u as int),
        decreases unchunkable_block@.len() - u,
    {
        let ghost before = blocks.deep_view();
        blocks.push(crate::path::clone_chars(&unchunkable_block[u]));
        u = u + 1;
        assert(blocks.deep_view() =~= with_skipped + unchunkable_block.deep_view().take(u as int)) by {
            assert(unchunkable_block.deep_view()[u - 1] == unchunkable_block@[u - 1]@);
            assert(blocks.deep_view() =~= before.push(unchunkable_block@[u - 1]@));
            assert(unchunkable_block.deep_view().take(u as int) =~= unchunkable_block.deep_view().take(
                u - 1,
            ).push(unchunkable_block.deep_view()[u - 1]));
        }
    }
    assert(unchunkable_block.deep_view().take(u as int) =~= unchunkable_block.deep_view());
    blocks.push(walked);
    assert(blocks.deep_view() =~= scan_blocks(*scan, explanation));
    string_of(&join_with(&blocks, "\n\n"))
}

} // verus!

