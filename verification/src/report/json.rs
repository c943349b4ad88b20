//! Lays a verdict and its reasons out as the JSON an agent reads.
//!
//! Nothing here decides and nothing here writes a sentence: the label and the reasons come
//! in ready, and each reason goes out as its signal, its value, the reason it could not be
//! measured and its lean, as keys and values. Whatever the text shows of a reason, a count,
//! a line or a spelling, the JSON carries too.
use vstd::prelude::*;

use crate::classification::reason::{Lean, Reason};
use crate::json::{
    array_of, items_model, lemma_members_model_add, members_model, object_of, optional_model,
    push_member, single_member, text_value, two_members, JsonModel, JsonValue,
};
use crate::classification::signal::{
    caller_overlap_counts, CallerDomainOverlap, CallerDomainOverlapView, ImportOverlap,
    MeasuredCallerDomains, SemanticsUnavailable, StructuralSimilarity, TypeSignatureMatch,
};
use crate::classification::verdict::verdict_label;
use crate::classification::Classification;
use crate::location::Location;
use crate::report::{
    caller_text, reason_entry, reason_line, semantics_unavailable_text, suggestion_of,
    suggestion_text, type_text, Explanation,
};
use crate::location::location_text;
use crate::pipeline::scan::{CandidatePair, Scan, SkippedFile};
use crate::semantics::caller_domain::CallerDomains;
use crate::semantics::domain::{domain_text, DomainView};
use crate::semantics::resolved_type::UnopenedReason;
use crate::semantics::type_signature::UntracedReason;
use crate::similarity::{pow10_spec, Similarity};
use crate::syntax::import::ImportsUnavailable;
use crate::syntax::module_distance::ModuleDistance;
use crate::threshold::{pow10, Threshold};

verus! {

/// An array of texts.
pub open spec fn texts_model(texts: Seq<Seq<char>>) -> JsonModel {
    JsonModel::Array(texts.map_values(|t: Seq<char>| JsonModel::Text(t)))
}

/// A `status` member first, then the members that go with it.
pub open spec fn status_model(status: Seq<char>, fields: Seq<(Seq<char>, JsonModel)>) -> JsonModel {
    JsonModel::Object(seq![("status"@, JsonModel::Text(status))] + fields)
}

/// A value that was measured.
pub open spec fn measured_model(fields: Seq<(Seq<char>, JsonModel)>) -> JsonModel {
    status_model("measured"@, fields)
}

/// A value that could not be measured, why, and what the reason carries.
pub open spec fn unmeasurable_model(reason: Seq<char>, details: Seq<(Seq<char>, JsonModel)>) -> JsonModel {
    status_model("unmeasurable"@, seq![("reason"@, JsonModel::Text(reason))] + details)
}

/// A value that was not asked for, and why.
pub open spec fn not_asked_model(reason: Seq<char>) -> JsonModel {
    status_model("not-asked"@, seq![("reason"@, JsonModel::Text(reason))])
}

/// The way a signal leaned, as a key word.
pub open spec fn lean_name(lean: Lean) -> Seq<char> {
    match lean {
        Lean::TowardExtract => "toward-extract"@,
        Lean::TowardDoNotExtract => "toward-do-not-extract"@,
        Lean::Neither => "neither"@,
    }
}

/// Why a type name could not be opened, as a key word.
pub open spec fn unopened_name(reason: UnopenedReason) -> Seq<char> {
    match reason {
        UnopenedReason::TypeDefinitionNotProvided => "type-definition-not-provided"@,
        UnopenedReason::NoDeclarationSite => "no-declaration-site"@,
        UnopenedReason::UnreadableTypeDefinition => "unreadable-type-definition"@,
        UnopenedReason::UnreadableDeclaringDocument => "unreadable-declaring-document"@,
        UnopenedReason::NoSpellingAtDeclaration => "no-spelling-at-declaration"@,
        UnopenedReason::UnreadableDeclarationHover => "unreadable-declaration-hover"@,
        UnopenedReason::HoverNotProvided => "hover-not-provided"@,
        UnopenedReason::ServerStillWorking => "server-still-working"@,
        UnopenedReason::UnopenableAlias => "unopenable-alias"@,
    }
}

/// Why a type name was not traced, as a key word.
pub open spec fn untraced_name(reason: UntracedReason) -> Seq<char> {
    match reason {
        UntracedReason::OmittedTypeAnnotation => "omitted-type-annotation"@,
        UntracedReason::UnalignedParameters => "unaligned-parameters"@,
        UntracedReason::NoTracedRecord => "no-traced-record"@,
    }
}

/// A similarity, unrounded: the counts it divides.
pub open spec fn similarity_model(s: Similarity) -> JsonModel {
    JsonModel::Ratio(s.spec_shared(), s.spec_total())
}

/// A threshold, as the fraction it is.
pub open spec fn threshold_model(t: Threshold) -> JsonModel {
    JsonModel::Ratio(t.spec_numerator(), pow10_spec(t.spec_scale()))
}

/// The structural similarity, or why it could not be measured.
pub open spec fn structural_model(signal: StructuralSimilarity) -> JsonModel {
    match signal {
        StructuralSimilarity::Measured(s) => measured_model(
            seq![("similarity"@, similarity_model(s))],
        ),
        StructuralSimilarity::NoTokens => unmeasurable_model("no-tokens"@, seq![]),
    }
}

/// Why a dependency set could not be built; an unreadable declaration keeps its line.
pub open spec fn imports_unavailable_model(cause: ImportsUnavailable) -> JsonModel {
    match cause {
        ImportsUnavailable::NoDeclarations => unmeasurable_model("no-declarations"@, seq![]),
        ImportsUnavailable::ReboundSpelling => unmeasurable_model("rebound-spelling"@, seq![]),
        ImportsUnavailable::UnreadableDeclaration { line } => unmeasurable_model(
            "unreadable-declaration"@,
            seq![("line"@, JsonModel::Natural(line.spec_get()))],
        ),
    }
}

/// The overlap of the dependency sets, or why it could not be measured.
pub open spec fn import_model(signal: ImportOverlap) -> JsonModel {
    match signal {
        ImportOverlap::Measured(s) => measured_model(seq![("overlap"@, similarity_model(s))]),
        ImportOverlap::Unavailable(cause) => imports_unavailable_model(cause),
    }
}

/// The directory steps between the files; always measured.
pub open spec fn distance_model(distance: ModuleDistance) -> JsonModel {
    measured_model(seq![("steps"@, JsonModel::Natural(distance.spec_steps()))])
}

/// Why the server was not asked or could not answer; `None` for a signal only the
/// syntactic stage was wanted for, unless every signal is explained.
pub open spec fn semantics_unavailable_model(
    reason: SemanticsUnavailable,
    explanation: Explanation,
) -> Option<JsonModel> {
    match reason {
        SemanticsUnavailable::NotAsked => match explanation {
            Explanation::AskedSignals => None,
            Explanation::AllSignals => Some(not_asked_model("stage-1-only"@)),
        },
        SemanticsUnavailable::NotACandidate => Some(not_asked_model("not-a-candidate"@)),
        SemanticsUnavailable::DocumentUnopenable => Some(
            unmeasurable_model("document-unopenable"@, seq![]),
        ),
        SemanticsUnavailable::WorkspaceRootUndecidable => Some(
            unmeasurable_model("workspace-root-undecidable"@, seq![]),
        ),
        SemanticsUnavailable::LspUnusable => Some(unmeasurable_model("lsp-unusable"@, seq![])),
    }
}

/// Whether the type signatures unify, or why that could not be told; `None` as
/// [`semantics_unavailable_model`] says.
pub open spec fn type_model(signal: TypeSignatureMatch, explanation: Explanation) -> Option<
    JsonModel,
> {
    match signal {
        TypeSignatureMatch::Unifiable => Some(
            measured_model(seq![("unifiable"@, JsonModel::Bool(true))]),
        ),
        TypeSignatureMatch::NotUnifiable => Some(
            measured_model(seq![("unifiable"@, JsonModel::Bool(false))]),
        ),
        TypeSignatureMatch::Unavailable { reason } => semantics_unavailable_model(
            reason,
            explanation,
        ),
        TypeSignatureMatch::NoName => Some(unmeasurable_model("no-name"@, seq![])),
        TypeSignatureMatch::NoTypeThere => Some(unmeasurable_model("no-type-there"@, seq![])),
        TypeSignatureMatch::UnreadableHover => Some(unmeasurable_model("unreadable-hover"@, seq![])),
        TypeSignatureMatch::ServerStillWorking => Some(
            unmeasurable_model("server-still-working"@, seq![]),
        ),
        TypeSignatureMatch::UnreadableSignature => Some(
            unmeasurable_model("unreadable-signature"@, seq![]),
        ),
        TypeSignatureMatch::HoverNotProvided => Some(
            unmeasurable_model("hover-not-provided"@, seq![]),
        ),
        TypeSignatureMatch::UnopenedTypeName { reason } => Some(
            unmeasurable_model(
                "unopened-type-name"@,
                seq![("unopened"@, JsonModel::Text(unopened_name(reason)))],
            ),
        ),
        TypeSignatureMatch::UntracedTypeName { reason } => Some(
            unmeasurable_model(
                "untraced-type-name"@,
                seq![("untraced"@, JsonModel::Text(untraced_name(reason)))],
            ),
        ),
        TypeSignatureMatch::SiteDependentSpelling => Some(
            unmeasurable_model("site-dependent-spelling"@, seq![]),
        ),
        TypeSignatureMatch::OverloadSetMiscounted { counted, found } => Some(
            unmeasurable_model(
                "overload-set-miscounted"@,
                seq![
                    ("counted"@, JsonModel::Natural(counted as nat)),
                    ("found"@, JsonModel::Natural(found as nat)),
                ],
            ),
        ),
    }
}

/// One side's references per domain, in order: each domain as the text names it, and its
/// count.
pub open spec fn per_domain_model(tally: Seq<(DomainView, nat)>) -> JsonModel {
    JsonModel::Array(
        tally.map_values(
            |e: (DomainView, nat)|
                JsonModel::Object(
                    seq![
                        ("domain"@, JsonModel::Text(domain_text(e.0))),
                        ("references"@, JsonModel::Natural(e.1)),
                    ],
                ),
        ),
    )
}

/// The overlap of the callers' domains and both sides' tallies, or why it could not be
/// measured; `None` as [`semantics_unavailable_model`] says.
pub open spec fn caller_model(signal: CallerDomainOverlapView, explanation: Explanation) -> Option<
    JsonModel,
> {
    match signal {
        CallerDomainOverlapView::Measured(a, b) => Some(
            measured_model(
                seq![
                    ("overlap"@, JsonModel::Ratio(caller_overlap_counts(a, b).0, caller_overlap_counts(a, b).1)),
                    ("callers_a"@, per_domain_model(a)),
                    ("callers_b"@, per_domain_model(b)),
                ],
            ),
        ),
        CallerDomainOverlapView::Unavailable(reason) => semantics_unavailable_model(
            reason,
            explanation,
        ),
        CallerDomainOverlapView::NoName => Some(unmeasurable_model("no-name"@, seq![])),
        CallerDomainOverlapView::ProjectUnrooted(markers) => Some(
            unmeasurable_model("project-unrooted"@, seq![("project_markers"@, texts_model(markers))]),
        ),
        CallerDomainOverlapView::OutsideProject(markers) => Some(
            unmeasurable_model("outside-project"@, seq![("project_markers"@, texts_model(markers))]),
        ),
        CallerDomainOverlapView::ProjectMembershipNotProvided => Some(
            unmeasurable_model("project-membership-not-provided"@, seq![]),
        ),
        CallerDomainOverlapView::NoReferences => Some(unmeasurable_model("no-references"@, seq![])),
        CallerDomainOverlapView::UnreadableReferences => Some(
            unmeasurable_model("unreadable-references"@, seq![]),
        ),
        CallerDomainOverlapView::ServerStillWorking => Some(
            unmeasurable_model("server-still-working"@, seq![]),
        ),
        CallerDomainOverlapView::ReferencesNotProvided => Some(
            unmeasurable_model("references-not-provided"@, seq![]),
        ),
        CallerDomainOverlapView::AmbiguousDomain(path, first, second) => Some(
            unmeasurable_model(
                "ambiguous-domain"@,
                seq![("file"@, JsonModel::Text(path)), ("domains"@, texts_model(seq![first, second]))],
            ),
        ),
    }
}

/// The threshold applied to a measured value; none beside a value that was not compared.
pub open spec fn applied_threshold(measured: bool, threshold: Threshold) -> Option<
    (Seq<char>, JsonModel),
> {
    if measured {
        Some(("threshold"@, threshold_model(threshold)))
    } else {
        None
    }
}

/// The threshold applied to a measured value, given only with every signal explained: a
/// fixed threshold is nothing a reader can move.
pub open spec fn explained_threshold(
    measured: bool,
    threshold: Threshold,
    explanation: Explanation,
) -> Option<(Seq<char>, JsonModel)> {
    match explanation {
        Explanation::AskedSignals => None,
        Explanation::AllSignals => applied_threshold(measured, threshold),
    }
}

/// The steps counted as separate directories, given only with every signal explained, and
/// under a key of its own: it is a count of steps, not a fraction.
pub open spec fn explained_steps(steps: nat, explanation: Explanation) -> Option<
    (Seq<char>, JsonModel),
> {
    match explanation {
        Explanation::AskedSignals => None,
        Explanation::AllSignals => Some(("separate_directory_steps"@, JsonModel::Natural(steps))),
    }
}

/// A signal, its value, its lean, and the boundary applied to it where there is one.
pub open spec fn signal_model(
    name: Seq<char>,
    value: JsonModel,
    lean: Lean,
    applied: Option<(Seq<char>, JsonModel)>,
) -> JsonModel {
    JsonModel::Object(
        seq![
            ("signal"@, JsonModel::Text(name)),
            ("value"@, value),
            ("lean"@, JsonModel::Text(lean_name(lean))),
        ] + match applied {
            Some(member) => seq![member],
            None => seq![],
        },
    )
}

/// One reason; `None` for a signal that was not asked for and is not explained.
pub open spec fn reason_model(reason: Reason, explanation: Explanation) -> Option<JsonModel> {
    match reason {
        Reason::StructuralSimilarity { signal, threshold, lean } => Some(
            signal_model(
                "structural-similarity"@,
                structural_model(signal),
                lean,
                applied_threshold(signal is Measured, threshold),
            ),
        ),
        Reason::ImportOverlap { signal, threshold, lean } => Some(
            signal_model(
                "import-overlap"@,
                import_model(signal),
                lean,
                explained_threshold(signal is Measured, threshold, explanation),
            ),
        ),
        Reason::ModuleDistance { signal, separate_directory_steps, lean } => Some(
            signal_model(
                "module-distance"@,
                distance_model(signal),
                lean,
                explained_steps(separate_directory_steps as nat, explanation),
            ),
        ),
        Reason::TypeSignatureMatch { signal, lean } => match type_model(signal, explanation) {
            Some(value) => Some(signal_model("type-signature-match"@, value, lean, None)),
            None => None,
        },
        Reason::CallerDomainOverlap { signal, threshold, lean } => match caller_model(
            signal@,
            explanation,
        ) {
            Some(value) => Some(
                signal_model(
                    "caller-domain-overlap"@,
                    value,
                    lean,
                    explained_threshold(signal@ is Measured, threshold, explanation),
                ),
            ),
            None => None,
        },
    }
}

/// The reasons given, in order.
pub open spec fn reason_models(reasons: Seq<Reason>, explanation: Explanation) -> Seq<JsonModel>
    decreases reasons.len(),
{
    if reasons.len() == 0 {
        seq![]
    } else {
        let before = reason_models(reasons.drop_last(), explanation);
        match reason_model(reasons.last(), explanation) {
            Some(m) => before.push(m),
            None => before,
        }
    }
}

/// A file and a line.
pub open spec fn location_model(path: Seq<char>, line: nat) -> JsonModel {
    JsonModel::Object(seq![("file"@, JsonModel::Text(path)), ("line"@, JsonModel::Natural(line))])
}

/// The whole report for one pair: the label, both locations, the reasons and the
/// suggestion the text gives.
pub open spec fn report_model(
    path_a: Seq<char>,
    line_a: nat,
    path_b: Seq<char>,
    line_b: nat,
    verdict: crate::classification::verdict::Verdict,
    reasons: Seq<Reason>,
    explanation: Explanation,
) -> JsonModel {
    JsonModel::Object(
        seq![
            ("verdict"@, JsonModel::Text(verdict_label(verdict))),
            ("location_a"@, location_model(path_a, line_a)),
            ("location_b"@, location_model(path_b, line_b)),
            ("reasons"@, JsonModel::Array(reason_models(reasons, explanation))),
            ("suggestion"@, JsonModel::Text(suggestion_text(verdict))),
        ],
    )
}

/// A `status` member, then the members that go with it.
fn status_value_of(status: &str, fields: Vec<(String, JsonValue)>) -> (value: JsonValue)
    ensures
        value.model() == status_model(status@, members_model(fields@)),
{
    let mut members: Vec<(String, JsonValue)> = Vec::new();
    push_member(&mut members, "status", text_value(status));
    let ghost head = members@;
    let mut rest = fields;
    members.append(&mut rest);
    proof {
        lemma_members_model_add(head, fields@);
        assert(members_model(head) =~= seq![("status"@, JsonModel::Text(status@))]);
    }
    object_of(members)
}

/// A measured value.
fn measured_value_of(fields: Vec<(String, JsonValue)>) -> (value: JsonValue)
    ensures
        value.model() == measured_model(members_model(fields@)),
{
    status_value_of("measured", fields)
}

/// A value that could not be measured, why, and what the reason carries.
fn detailed_unmeasurable_value_of(reason: &str, details: Vec<(String, JsonValue)>) -> (value: JsonValue)
    ensures
        value.model() == unmeasurable_model(reason@, members_model(details@)),
{
    let mut fields: Vec<(String, JsonValue)> = Vec::new();
    push_member(&mut fields, "reason", text_value(reason));
    let ghost head = fields@;
    let mut rest = details;
    fields.append(&mut rest);
    proof {
        lemma_members_model_add(head, details@);
        assert(members_model(head) =~= seq![("reason"@, JsonModel::Text(reason@))]);
    }
    status_value_of("unmeasurable", fields)
}

/// A value that could not be measured, and why.
fn unmeasurable_value_of(reason: &str) -> (value: JsonValue)
    ensures
        value.model() == unmeasurable_model(reason@, seq![]),
{
    let value = detailed_unmeasurable_value_of(reason, Vec::new());
    assert(members_model(Seq::<(String, JsonValue)>::empty()) =~= seq![]);
    value
}

/// A value that was not asked for, and why.
fn not_asked_value_of(reason: &str) -> (value: JsonValue)
    ensures
        value.model() == not_asked_model(reason@),
{
    let mut fields: Vec<(String, JsonValue)> = Vec::new();
    push_member(&mut fields, "reason", text_value(reason));
    proof {
        lemma_members_model_add(fields@, fields@);
        assert(members_model(fields@) =~= seq![("reason"@, JsonModel::Text(reason@))]);
    }
    status_value_of("not-asked", fields)
}

/// A similarity as the counts it divides.
fn similarity_value_of(s: &Similarity) -> (value: JsonValue)
    ensures
        value.model() == similarity_model(*s),
{
    JsonValue::Ratio { numerator: s.shared(), denominator: s.total() }
}

/// A threshold as the fraction it is.
fn threshold_value_of(t: Threshold) -> (value: JsonValue)
    ensures
        value.model() == threshold_model(t),
{
    t.check_wf();
    proof {
        t.lemma_bounds();
    }
    JsonValue::Ratio { numerator: t.numerator() as u128, denominator: pow10(t.scale()) as u128 }
}

/// The way a signal leaned, as a key word.
fn lean_name_of(lean: Lean) -> (name: &'static str)
    ensures
        name@ == lean_name(lean),
{
    match lean {
        Lean::TowardExtract => "toward-extract",
        Lean::TowardDoNotExtract => "toward-do-not-extract",
        Lean::Neither => "neither",
    }
}

/// Why a type name could not be opened, as a key word.
fn unopened_name_of(reason: UnopenedReason) -> (name: &'static str)
    ensures
        name@ == unopened_name(reason),
{
    match reason {
        UnopenedReason::TypeDefinitionNotProvided => "type-definition-not-provided",
        UnopenedReason::NoDeclarationSite => "no-declaration-site",
        UnopenedReason::UnreadableTypeDefinition => "unreadable-type-definition",
        UnopenedReason::UnreadableDeclaringDocument => "unreadable-declaring-document",
        UnopenedReason::NoSpellingAtDeclaration => "no-spelling-at-declaration",
        UnopenedReason::UnreadableDeclarationHover => "unreadable-declaration-hover",
        UnopenedReason::HoverNotProvided => "hover-not-provided",
        UnopenedReason::ServerStillWorking => "server-still-working",
        UnopenedReason::UnopenableAlias => "unopenable-alias",
    }
}

/// Why a type name was not traced, as a key word.
fn untraced_name_of(reason: UntracedReason) -> (name: &'static str)
    ensures
        name@ == untraced_name(reason),
{
    match reason {
        UntracedReason::OmittedTypeAnnotation => "omitted-type-annotation",
        UntracedReason::UnalignedParameters => "unaligned-parameters",
        UntracedReason::NoTracedRecord => "no-traced-record",
    }
}

/// An optional member as a value.
pub open spec fn applied_model(applied: Option<(&str, JsonValue)>) -> Option<(Seq<char>, JsonModel)> {
    match applied {
        Some(member) => Some((member.0@, member.1.model())),
        None => None,
    }
}

/// The structural similarity, or why it could not be measured.
fn structural_similarity_value_of(signal: StructuralSimilarity) -> (value: JsonValue)
    ensures
        value.model() == structural_model(signal),
{
    match signal {
        StructuralSimilarity::Measured(s) => measured_value_of(
            single_member("similarity", similarity_value_of(&s)),
        ),
        StructuralSimilarity::NoTokens => unmeasurable_value_of("no-tokens"),
    }
}

/// Why a dependency set could not be built.
fn imports_unavailable_value_of(cause: ImportsUnavailable) -> (value: JsonValue)
    ensures
        value.model() == imports_unavailable_model(cause),
{
    match cause {
        ImportsUnavailable::NoDeclarations => unmeasurable_value_of("no-declarations"),
        ImportsUnavailable::ReboundSpelling => unmeasurable_value_of("rebound-spelling"),
        ImportsUnavailable::UnreadableDeclaration { line } => detailed_unmeasurable_value_of(
            "unreadable-declaration",
            single_member("line", JsonValue::Natural(line.get() as u64)),
        ),
    }
}

/// The overlap of the dependency sets, or why it could not be measured.
fn import_overlap_value_of(signal: ImportOverlap) -> (value: JsonValue)
    ensures
        value.model() == import_model(signal),
{
    match signal {
        ImportOverlap::Measured(s) => measured_value_of(
            single_member("overlap", similarity_value_of(&s)),
        ),
        ImportOverlap::Unavailable(cause) => imports_unavailable_value_of(cause),
    }
}

/// The directory steps between the files.
fn module_distance_value_of(distance: ModuleDistance) -> (value: JsonValue)
    ensures
        value.model() == distance_model(distance),
{
    measured_value_of(single_member("steps", JsonValue::Natural(distance.steps() as u64)))
}

/// Why the server was not asked or could not answer.
fn semantics_unavailable_value_of(reason: SemanticsUnavailable, explanation: Explanation) -> (value:
    Option<JsonValue>)
    ensures
        optional_model(value) == semantics_unavailable_model(reason, explanation),
{
    match reason {
        SemanticsUnavailable::NotAsked => match explanation {
            Explanation::AskedSignals => None,
            Explanation::AllSignals => Some(not_asked_value_of("stage-1-only")),
        },
        SemanticsUnavailable::NotACandidate => Some(not_asked_value_of("not-a-candidate")),
        SemanticsUnavailable::DocumentUnopenable => Some(
            unmeasurable_value_of("document-unopenable"),
        ),
        SemanticsUnavailable::WorkspaceRootUndecidable => Some(
            unmeasurable_value_of("workspace-root-undecidable"),
        ),
        SemanticsUnavailable::LspUnusable => Some(unmeasurable_value_of("lsp-unusable")),
    }
}

/// Whether the type signatures unify, or why that could not be told.
fn type_signature_value_of(signal: TypeSignatureMatch, explanation: Explanation) -> (value: Option<
    JsonValue,
>)
    ensures
        optional_model(value) == type_model(signal, explanation),
{
    let reason = match signal {
        TypeSignatureMatch::Unifiable => {
            return Some(measured_value_of(single_member("unifiable", JsonValue::Bool(true))));
        },
        TypeSignatureMatch::NotUnifiable => {
            return Some(measured_value_of(single_member("unifiable", JsonValue::Bool(false))));
        },
        TypeSignatureMatch::Unavailable { reason } => {
            return semantics_unavailable_value_of(reason, explanation);
        },
        TypeSignatureMatch::UnopenedTypeName { reason } => {
            return Some(
                detailed_unmeasurable_value_of(
                    "unopened-type-name",
                    single_member("unopened", text_value(unopened_name_of(reason))),
                ),
            );
        },
        TypeSignatureMatch::UntracedTypeName { reason } => {
            return Some(
                detailed_unmeasurable_value_of(
                    "untraced-type-name",
                    single_member("untraced", text_value(untraced_name_of(reason))),
                ),
            );
        },
        TypeSignatureMatch::OverloadSetMiscounted { counted, found } => {
            return Some(
                detailed_unmeasurable_value_of(
                    "overload-set-miscounted",
                    two_members(
                        "counted",
                        JsonValue::Natural(counted as u64),
                        "found",
                        JsonValue::Natural(found as u64),
                    ),
                ),
            );
        },
        TypeSignatureMatch::NoName => "no-name",
        TypeSignatureMatch::NoTypeThere => "no-type-there",
        TypeSignatureMatch::UnreadableHover => "unreadable-hover",
        TypeSignatureMatch::ServerStillWorking => "server-still-working",
        TypeSignatureMatch::UnreadableSignature => "unreadable-signature",
        TypeSignatureMatch::HoverNotProvided => "hover-not-provided",
        TypeSignatureMatch::SiteDependentSpelling => "site-dependent-spelling",
    };
    Some(unmeasurable_value_of(reason))
}

/// An array of texts.
fn texts_value_of(texts: &Vec<String>) -> (value: JsonValue)
    ensures
        value.model() == texts_model(texts.deep_view()),
{
    let mut items: Vec<JsonValue> = Vec::new();
    let mut i: usize = 0;
    while i < texts.len()
        invariant
            0 <= i <= texts@.len(),
            items_model(items@) == texts_model(texts.deep_view().take(i as int))->Array_0,
        decreases texts@.len() - i,
    {
        let ghost before = items@;
        let item = text_value(texts[i].as_str());
        let ghost item_model = item.model();
        items.push(item);
        i = i + 1;
        proof {
            let t = texts.deep_view();
            assert(t[i - 1] == texts@[i - 1]@);
            assert(items_model(items@) =~= items_model(before).push(item_model));
            assert(t.take(i as int) =~= t.take(i - 1).push(t[i - 1]));
            assert(texts_model(t.take(i as int))->Array_0 =~= texts_model(t.take(i - 1))->Array_0.push(
                JsonModel::Text(t[i - 1]),
            ));
        }
    }
    assert(texts.deep_view().take(i as int) =~= texts.deep_view());
    array_of(items)
}

/// One side's references per domain.
fn callers_value_of(callers: &CallerDomains) -> (value: JsonValue)
    ensures
        value.model() == per_domain_model(callers@),
{
    let entries = callers.references_per_domain();
    let ghost tally = entries@.map_values(|e: (crate::semantics::domain::Domain, usize)| (e.0.view(), e.1 as nat));
    let mut items: Vec<JsonValue> = Vec::new();
    let mut i: usize = 0;
    while i < entries.len()
        invariant
            0 <= i <= entries@.len(),
            tally == entries@.map_values(|e: (crate::semantics::domain::Domain, usize)| (e.0.view(), e.1 as nat)),
            items_model(items@) == per_domain_model(tally.take(i as int))->Array_0,
        decreases entries@.len() - i,
    {
        let ghost before = items@;
        let (domain, references) = &entries[i];
        let name = domain.text();
        let entry = object_of(
            two_members("domain", text_value(name.as_str()), "references", JsonValue::Natural(*references as u64)),
        );
        let ghost entry_model = entry.model();
        assert(entry_model == JsonModel::Object(
            seq![
                ("domain"@, JsonModel::Text(domain_text(tally[i as int].0))),
                ("references"@, JsonModel::Natural(tally[i as int].1)),
            ],
        ));
        items.push(entry);
        i = i + 1;
        proof {
            assert(items_model(items@) =~= items_model(before).push(entry_model));
            assert(tally.take(i as int) =~= tally.take(i - 1).push(tally[i - 1]));
            assert(per_domain_model(tally.take(i as int))->Array_0 =~= per_domain_model(
                tally.take(i - 1),
            )->Array_0.push(entry_model));
        }
    }
    assert(tally.take(i as int) =~= tally);
    array_of(items)
}

/// The overlap of the callers' domains and both sides' tallies.
fn measured_caller_domains_value_of(measured: &MeasuredCallerDomains) -> (value: JsonValue)
    ensures
        value.model() == measured_model(
            seq![
                ("overlap"@, JsonModel::Ratio(caller_overlap_counts(measured.callers_a_view(), measured.callers_b_view()).0, caller_overlap_counts(measured.callers_a_view(), measured.callers_b_view()).1)),
                ("callers_a"@, per_domain_model(measured.callers_a_view())),
                ("callers_b"@, per_domain_model(measured.callers_b_view())),
            ],
        ),
{
    let overlap = measured.overlap();
    let mut fields = two_members(
        "overlap",
        similarity_value_of(&overlap),
        "callers_a",
        callers_value_of(measured.callers_a()),
    );
    let ghost head = members_model(fields@);
    let callers_b = callers_value_of(measured.callers_b());
    let ghost callers_b_model = callers_b.model();
    push_member(&mut fields, "callers_b", callers_b);
    assert(members_model(fields@) =~= seq![
        ("overlap"@, JsonModel::Ratio(caller_overlap_counts(measured.callers_a_view(), measured.callers_b_view()).0, caller_overlap_counts(measured.callers_a_view(), measured.callers_b_view()).1)),
        ("callers_a"@, per_domain_model(measured.callers_a_view())),
        ("callers_b"@, per_domain_model(measured.callers_b_view())),
    ]);
    measured_value_of(fields)
}

/// The overlap of the callers' domains, or why it could not be measured.
fn caller_domain_value_of(signal: &CallerDomainOverlap, explanation: Explanation) -> (value: Option<
    JsonValue,
>)
    ensures
        optional_model(value) == caller_model(signal@, explanation),
{
    let reason = match signal {
        CallerDomainOverlap::Measured(measured) => {
            return Some(measured_caller_domains_value_of(measured));
        },
        CallerDomainOverlap::Unavailable { reason } => {
            return semantics_unavailable_value_of(*reason, explanation);
        },
        CallerDomainOverlap::ProjectUnrooted { markers } => {
            return Some(
                detailed_unmeasurable_value_of(
                    "project-unrooted",
                    single_member("project_markers", texts_value_of(markers)),
                ),
            );
        },
        CallerDomainOverlap::OutsideProject { markers } => {
            return Some(
                detailed_unmeasurable_value_of(
                    "outside-project",
                    single_member("project_markers", texts_value_of(markers)),
                ),
            );
        },
        CallerDomainOverlap::AmbiguousDomain(ambiguous) => {
            let mut domains: Vec<JsonValue> = Vec::new();
            domains.push(text_value(ambiguous.first().as_str()));
            domains.push(text_value(ambiguous.second().as_str()));
            let ghost domain_items = domains@;
            let domains = array_of(domains);
            assert(domains.model()->Array_0 =~= texts_model(
                seq![ambiguous.first_view(), ambiguous.second_view()],
            )->Array_0);
            return Some(
                detailed_unmeasurable_value_of(
                    "ambiguous-domain",
                    two_members("file", text_value(ambiguous.path()), "domains", domains),
                ),
            );
        },
        CallerDomainOverlap::NoName => "no-name",
        CallerDomainOverlap::ProjectMembershipNotProvided => "project-membership-not-provided",
        CallerDomainOverlap::NoReferences => "no-references",
        CallerDomainOverlap::UnreadableReferences => "unreadable-references",
        CallerDomainOverlap::ServerStillWorking => "server-still-working",
        CallerDomainOverlap::ReferencesNotProvided => "references-not-provided",
    };
    Some(unmeasurable_value_of(reason))
}

/// The threshold applied to a measured value.
fn applied_threshold_of(measured: bool, threshold: Threshold) -> (applied: Option<(&'static str, JsonValue)>)
    ensures
        applied_model(applied) == applied_threshold(measured, threshold),
{
    if measured {
        Some(("threshold", threshold_value_of(threshold)))
    } else {
        None
    }
}

/// The threshold applied to a measured value, with every signal explained.
fn explained_threshold_of(
    measured: bool,
    threshold: Threshold,
    explanation: Explanation,
) -> (applied: Option<(&'static str, JsonValue)>)
    ensures
        applied_model(applied) == explained_threshold(measured, threshold, explanation),
{
    match explanation {
        Explanation::AskedSignals => None,
        Explanation::AllSignals => applied_threshold_of(measured, threshold),
    }
}

/// The steps counted as separate directories, with every signal explained.
fn explained_steps_of(steps: usize, explanation: Explanation) -> (applied: Option<(&'static str, JsonValue)>)
    ensures
        applied_model(applied) == explained_steps(steps as nat, explanation),
{
    match explanation {
        Explanation::AskedSignals => None,
        Explanation::AllSignals => Some(("separate_directory_steps", JsonValue::Natural(steps as u64))),
    }
}

/// A signal, its value, its lean, and the boundary applied to it.
fn signal_value_of(
    name: &str,
    value: JsonValue,
    lean: Lean,
    applied: Option<(&'static str, JsonValue)>,
) -> (signal: JsonValue)
    ensures
        signal.model() == signal_model(name@, value.model(), lean, applied_model(applied)),
{
    let ghost value_model = value.model();
    let ghost applied_view = applied_model(applied);
    let mut members: Vec<(String, JsonValue)> = Vec::new();
    proof {
        lemma_members_model_add(members@, members@);
    }
    push_member(&mut members, "signal", text_value(name));
    push_member(&mut members, "value", value);
    push_member(&mut members, "lean", text_value(lean_name_of(lean)));
    let ghost head = members_model(members@);
    assert(head =~= seq![
        ("signal"@, JsonModel::Text(name@)),
        ("value"@, value_model),
        ("lean"@, JsonModel::Text(lean_name(lean))),
    ]);
    match applied {
        Some((key, boundary)) => {
            push_member(&mut members, key, boundary);
            assert(members_model(members@) =~= head + seq![applied_view->Some_0]);
        },
        None => {
            assert(members_model(members@) =~= head + seq![]);
        },
    }
    object_of(members)
}

/// One reason; `None` for a signal that was not asked for and is not explained.
fn reason_value_of(reason: &Reason, explanation: Explanation) -> (value: Option<JsonValue>)
    ensures
        optional_model(value) == reason_model(*reason, explanation),
{
    match reason {
        Reason::StructuralSimilarity { signal, threshold, lean } => {
            let measured = match signal {
                StructuralSimilarity::Measured(_) => true,
                StructuralSimilarity::NoTokens => false,
            };
            Some(
                signal_value_of(
                    "structural-similarity",
                    structural_similarity_value_of(*signal),
                    *lean,
                    applied_threshold_of(measured, *threshold),
                ),
            )
        },
        Reason::ImportOverlap { signal, threshold, lean } => {
            let measured = match signal {
                ImportOverlap::Measured(_) => true,
                ImportOverlap::Unavailable(_) => false,
            };
            Some(
                signal_value_of(
                    "import-overlap",
                    import_overlap_value_of(*signal),
                    *lean,
                    explained_threshold_of(measured, *threshold, explanation),
                ),
            )
        },
        Reason::ModuleDistance { signal, separate_directory_steps, lean } => Some(
            signal_value_of(
                "module-distance",
                module_distance_value_of(*signal),
                *lean,
                explained_steps_of(*separate_directory_steps, explanation),
            ),
        ),
        Reason::TypeSignatureMatch { signal, lean } => match type_signature_value_of(
            *signal,
            explanation,
        ) {
            Some(value) => Some(signal_value_of("type-signature-match", value, *lean, None)),
            None => None,
        },
        Reason::CallerDomainOverlap { signal, threshold, lean } => {
            let measured = match signal {
                CallerDomainOverlap::Measured(_) => true,
                _ => false,
            };
            match caller_domain_value_of(signal, explanation) {
                Some(value) => Some(
                    signal_value_of(
                        "caller-domain-overlap",
                        value,
                        *lean,
                        explained_threshold_of(measured, *threshold, explanation),
                    ),
                ),
                None => None,
            }
        },
    }
}

/// A file and a line.
fn location_value_of(location: &Location) -> (value: JsonValue)
    ensures
        value.model() == location_model(location.spec_path(), location.spec_line()),
{
    object_of(
        two_members(
            "file",
            text_value(location.path()),
            "line",
            JsonValue::Natural(location.line().get() as u64),
        ),
    )
}

/// The report for one pair as JSON: the label (`verdict`), both locations (`location_a`,
/// `location_b`, each a `file` and a `line`), the reasons in order (`reasons`), and the
/// suggestion the text gives (`suggestion`).
///
/// A reason is its `signal`, its `value`, its `lean` and, where one applies, the boundary
/// it was compared with; its `value` starts with a `status` (`measured`, `unmeasurable`,
/// `not-asked`) and carries either the values measured or the `reason` they were not,
/// with what that reason holds. Signals that were not asked for, and the fixed thresholds,
/// are given only with every signal explained, as in the text; the structural
/// similarity's threshold, which the caller chooses, is given beside every measured
/// similarity.
pub fn json_of(
    location_a: &Location,
    location_b: &Location,
    classification: &Classification,
    explanation: Explanation,
) -> (value: JsonValue)
    ensures
        value.model() == report_model(
            location_a.spec_path(),
            location_a.spec_line(),
            location_b.spec_path(),
            location_b.spec_line(),
            classification.verdict_view(),
            classification.reasons_view(),
            explanation,
        ),
{
    let verdict = classification.verdict();
    let reasons = classification.reasons();
    let mut items: Vec<JsonValue> = Vec::new();
    let mut i: usize = 0;
    while i < reasons.len()
        invariant
            0 <= i <= reasons@.len(),
            items_model(items@) == reason_models(reasons@.take(i as int), explanation),
        decreases reasons@.len() - i,
    {
        proof {
            assert(reasons@.take(i + 1).drop_last() =~= reasons@.take(i as int));
        }
        let ghost before = items@;
        match reason_value_of(&reasons[i], explanation) {
            Some(value) => {
                items.push(value);
                assert(items_model(items@) =~= items_model(before).push(value.model()));
            },
            None => {},
        }
        i = i + 1;
    }
    assert(reasons@.take(i as int) =~= reasons@);
    let mut members: Vec<(String, JsonValue)> = Vec::new();
    proof {
        lemma_members_model_add(members@, members@);
    }
    push_member(&mut members, "verdict", text_value(verdict.label()));
    push_member(&mut members, "location_a", location_value_of(location_a));
    push_member(&mut members, "location_b", location_value_of(location_b));
    push_member(&mut members, "reasons", array_of(items));
    push_member(&mut members, "suggestion", text_value(suggestion_of(verdict)));
    let value = object_of(members);
    assert(value.model()->Object_0 =~= report_model(
        location_a.spec_path(),
        location_a.spec_line(),
        location_b.spec_path(),
        location_b.spec_line(),
        classification.verdict_view(),
        classification.reasons_view(),
        explanation,
    )->Object_0);
    value
}

/// The JSON gives a reason exactly when the text prints it, as a line or in the `理由:`
/// block: with only the asked signals explained, both leave out the same ones.
pub proof fn lemma_json_gives_the_reasons_the_text_prints(reason: Reason, explanation: Explanation)
    ensures
        reason_model(reason, explanation) is Some <==> (reason_line(reason, explanation) is Some
            || reason_entry(reason, explanation) is Some),
{
    match reason {
        Reason::TypeSignatureMatch { signal, .. } => {
            if let TypeSignatureMatch::Unavailable { reason } = signal {
                assert(semantics_unavailable_model(reason, explanation) is Some
                    <==> semantics_unavailable_text(reason, explanation) is Some);
            }
        },
        Reason::CallerDomainOverlap { signal, threshold, .. } => {
            if let CallerDomainOverlapView::Unavailable(reason) = signal@ {
                assert(semantics_unavailable_model(reason, explanation) is Some
                    <==> semantics_unavailable_text(reason, explanation) is Some);
            }
            assert(caller_model(signal@, explanation) is Some <==> caller_text(
                signal@,
                threshold,
                explanation,
            ) is Some);
        },
        _ => {},
    }
}

/// A skipped file as JSON: the file, the reason as a key, and the reader's or parser's
/// account where there is one.
pub open spec fn skipped_model(skipped: SkippedFile) -> JsonModel {
    match skipped {
        SkippedFile::UnreadableExtension { path } => JsonModel::Object(
            seq![("file"@, JsonModel::Text(path@)), ("reason"@, JsonModel::Text("unreadable-extension"@))],
        ),
        SkippedFile::SourceUnreadable { path, cause } => JsonModel::Object(
            seq![
                ("file"@, JsonModel::Text(path@)),
                ("reason"@, JsonModel::Text("source-unreadable"@)),
                ("cause"@, JsonModel::Text(cause@)),
            ],
        ),
        SkippedFile::SourceUnparsable { path, cause } => JsonModel::Object(
            seq![
                ("file"@, JsonModel::Text(path@)),
                ("reason"@, JsonModel::Text("source-unparsable"@)),
                ("cause"@, JsonModel::Text(cause@)),
            ],
        ),
    }
}

/// A candidate pair as JSON, as [`json_of`] lays out a compared pair.
pub open spec fn candidate_model(candidate: CandidatePair, explanation: Explanation) -> JsonModel {
    report_model(
        candidate.location_a_view().0,
        candidate.location_a_view().1,
        candidate.location_b_view().0,
        candidate.location_b_view().1,
        candidate.classification_view().verdict_view(),
        candidate.classification_view().reasons_view(),
        explanation,
    )
}

/// A whole scan as JSON: the candidate pairs, the skipped files and the functions that
/// could not be cut out (each an array, empty where there is none), and how much was walked
/// (the number of candidates is the length of their array, so it is not given twice).
pub open spec fn scan_model(scan: Scan, explanation: Explanation) -> JsonModel {
    JsonModel::Object(
        seq![
            (
                "candidate_pairs"@,
                JsonModel::Array(
                    scan.candidates_view().map_values(
                        |c: CandidatePair| candidate_model(c, explanation),
                    ),
                ),
            ),
            (
                "skipped_files"@,
                JsonModel::Array(scan.skipped_view().map_values(|s: SkippedFile| skipped_model(s))),
            ),
            (
                "unchunkable"@,
                JsonModel::Array(
                    scan.unchunkable_view().map_values(
                        |l: (Seq<char>, nat)| location_model(l.0, l.1),
                    ),
                ),
            ),
            (
                "walked"@,
                JsonModel::Object(
                    seq![
                        ("files"@, JsonModel::Natural(scan.counts_view().0)),
                        ("chunks"@, JsonModel::Natural(scan.counts_view().1)),
                        ("compared_pairs"@, JsonModel::Natural(scan.counts_view().2)),
                        ("pruned_pairs"@, JsonModel::Natural(scan.counts_view().3)),
                    ],
                ),
            ),
        ],
    )
}

/// A scan's JSON lists everything the scan holds, in order: one pair object per candidate
/// (as [`json_of`] gives it), one object per skipped file naming the file, and one
/// `{file, line}` object per function that could not be cut out; and its walked counts are
/// the scan's.
pub proof fn lemma_scan_json_lists_everything(scan: Scan, explanation: Explanation)
    ensures
        ({
            let members = scan_model(scan, explanation)->Object_0;
            let pairs = scan.candidates_view();
            let skipped = scan.skipped_view();
            let unchunkable = scan.unchunkable_view();
            &&& members.len() == 4
            &&& members[0].0 == "candidate_pairs"@
            &&& members[0].1 matches JsonModel::Array(items) && items.len() == pairs.len()
                && forall|i: int|
                0 <= i < pairs.len() ==> #[trigger] items[i] == report_model(
                    pairs[i].location_a_view().0,
                    pairs[i].location_a_view().1,
                    pairs[i].location_b_view().0,
                    pairs[i].location_b_view().1,
                    pairs[i].classification_view().verdict_view(),
                    pairs[i].classification_view().reasons_view(),
                    explanation,
                )
            &&& members[1].0 == "skipped_files"@
            &&& members[1].1 matches JsonModel::Array(items) && items.len() == skipped.len()
                && forall|i: int|
                0 <= i < skipped.len() ==> (#[trigger] items[i] matches JsonModel::Object(fields)
                    && fields[0] == ("file"@, JsonModel::Text(
                    match skipped[i] {
                        SkippedFile::UnreadableExtension { path } => path@,
                        SkippedFile::SourceUnreadable { path, .. } => path@,
                        SkippedFile::SourceUnparsable { path, .. } => path@,
                    },
                )))
            &&& members[2].0 == "unchunkable"@
            &&& members[2].1 matches JsonModel::Array(items) && items.len() == unchunkable.len()
                && forall|i: int|
                0 <= i < unchunkable.len() ==> #[trigger] items[i] == JsonModel::Object(
                    seq![
                        ("file"@, JsonModel::Text(unchunkable[i].0)),
                        ("line"@, JsonModel::Natural(unchunkable[i].1)),
                    ],
                )
            &&& members[3] == ("walked"@, JsonModel::Object(
                seq![
                    ("files"@, JsonModel::Natural(scan.counts_view().0)),
                    ("chunks"@, JsonModel::Natural(scan.counts_view().1)),
                    ("compared_pairs"@, JsonModel::Natural(scan.counts_view().2)),
                    ("pruned_pairs"@, JsonModel::Natural(scan.counts_view().3)),
                ],
            ))
        }),
{
}

/// A skipped file as JSON.
fn skipped_file_value_of(skipped: &SkippedFile) -> (value: JsonValue)
    ensures
        value.model() == skipped_model(*skipped),
{
    let mut members: Vec<(String, JsonValue)> = Vec::new();
    proof {
        lemma_members_model_add(members@, members@);
    }
    match skipped {
        SkippedFile::UnreadableExtension { path } => {
            push_member(&mut members, "file", text_value(path.as_str()));
            push_member(&mut members, "reason", text_value("unreadable-extension"));
        },
        SkippedFile::SourceUnreadable { path, cause } => {
            push_member(&mut members, "file", text_value(path.as_str()));
            push_member(&mut members, "reason", text_value("source-unreadable"));
            push_member(&mut members, "cause", text_value(cause.as_str()));
        },
        SkippedFile::SourceUnparsable { path, cause } => {
            push_member(&mut members, "file", text_value(path.as_str()));
            push_member(&mut members, "reason", text_value("source-unparsable"));
            push_member(&mut members, "cause", text_value(cause.as_str()));
        },
    }
    let value = object_of(members);
    assert(value.model()->Object_0 =~= skipped_model(*skipped)->Object_0);
    value
}

/// A scan as JSON: the candidate pairs laid out as [`json_of`] lays out one pair, the skipped
/// files with their reasons, the functions that could not be cut out, and how much was
/// walked.
pub fn scan_json_of(scan: &Scan, explanation: Explanation) -> (value: JsonValue)
    ensures
        value.model() == scan_model(*scan, explanation),
{
    let pairs = scan.candidate_pairs();
    let mut candidates: Vec<JsonValue> = Vec::new();
    let mut i: usize = 0;
    while i < pairs.len()
        invariant
            0 <= i <= pairs@.len(),
            pairs@ == scan.candidates_view(),
            items_model(candidates@) == pairs@.take(i as int).map_values(
                |c: CandidatePair| candidate_model(c, explanation),
            ),
        decreases pairs@.len() - i,
    {
        let pair = &pairs[i];
        let ghost before = items_model(candidates@);
        let value = json_of(pair.location_a(), pair.location_b(), pair.classification(), explanation);
        let ghost model = value.model();
        candidates.push(value);
        i = i + 1;
        assert(items_model(candidates@) =~= pairs@.take(i as int).map_values(
            |c: CandidatePair| candidate_model(c, explanation),
        )) by {
            assert(items_model(candidates@) =~= before.push(model));
        }
    }
    assert(pairs@.take(i as int) =~= pairs@);

    let skipped = scan.skipped_files();
    let mut skipped_items: Vec<JsonValue> = Vec::new();
    let mut k: usize = 0;
    while k < skipped.len()
        invariant
            0 <= k <= skipped@.len(),
            skipped@ == scan.skipped_view(),
            items_model(skipped_items@) == skipped@.take(k as int).map_values(
                |s: SkippedFile| skipped_model(s),
            ),
        decreases skipped@.len() - k,
    {
        let ghost before = items_model(skipped_items@);
        let value = skipped_file_value_of(&skipped[k]);
        let ghost model = value.model();
        skipped_items.push(value);
        k = k + 1;
        assert(items_model(skipped_items@) =~= skipped@.take(k as int).map_values(
            |s: SkippedFile| skipped_model(s),
        )) by {
            assert(items_model(skipped_items@) =~= before.push(model));
        }
    }
    assert(skipped@.take(k as int) =~= skipped@);

    let unchunkable = scan.unchunkable();
    let ghost located = unchunkable@.map_values(|l: Location| (l.spec_path(), l.spec_line()));
    let mut located_items: Vec<JsonValue> = Vec::new();
    let mut m: usize = 0;
    while m < unchunkable.len()
        invariant
            0 <= m <= unchunkable@.len(),
            located == unchunkable@.map_values(|l: Location| (l.spec_path(), l.spec_line())),
            items_model(located_items@) == located.take(m as int).map_values(
                |l: (Seq<char>, nat)| location_model(l.0, l.1),
            ),
        decreases unchunkable@.len() - m,
    {
        let ghost before = items_model(located_items@);
        let value = location_value_of(&unchunkable[m]);
        let ghost model = value.model();
        located_items.push(value);
        m = m + 1;
        assert(items_model(located_items@) =~= located.take(m as int).map_values(
            |l: (Seq<char>, nat)| location_model(l.0, l.1),
        )) by {
            assert(items_model(located_items@) =~= before.push(model));
        }
    }
    assert(located.take(m as int) =~= located);

    let mut walked: Vec<(String, JsonValue)> = Vec::new();
    proof {
        lemma_members_model_add(walked@, walked@);
    }
    push_member(&mut walked, "files", JsonValue::Natural(scan.file_count() as u64));
    push_member(&mut walked, "chunks", JsonValue::Natural(scan.chunk_count() as u64));
    push_member(&mut walked, "compared_pairs", JsonValue::Natural(scan.compared_pair_count() as u64));
    push_member(&mut walked, "pruned_pairs", JsonValue::Natural(scan.pruned_pair_count() as u64));
    let walked_value = object_of(walked);

    let mut members: Vec<(String, JsonValue)> = Vec::new();
    proof {
        lemma_members_model_add(members@, members@);
    }
    push_member(&mut members, "candidate_pairs", array_of(candidates));
    push_member(&mut members, "skipped_files", array_of(skipped_items));
    push_member(&mut members, "unchunkable", array_of(located_items));
    push_member(&mut members, "walked", walked_value);
    let value = object_of(members);
    assert(value.model()->Object_0 =~= scan_model(*scan, explanation)->Object_0) by {
        assert(walked_value.model()->Object_0 =~= scan_model(*scan, explanation)->Object_0[3].1->Object_0);
    }
    value
}

/// The JSON report says what the text report says: its `verdict` is the label the text's
/// heading line brackets, its `suggestion` the text after `提案: ` on the text's last line,
/// and its locations the file and line that the heading spells as `file:line`.
pub proof fn lemma_json_agrees_with_the_text(
    path_a: Seq<char>,
    line_a: nat,
    path_b: Seq<char>,
    line_b: nat,
    verdict: crate::classification::verdict::Verdict,
    reasons: Seq<Reason>,
    explanation: Explanation,
)
    ensures
        ({
            let text = crate::report::report_text(
                location_text(path_a, line_a),
                location_text(path_b, line_b),
                verdict,
                reasons,
                explanation,
            );
            let members = report_model(path_a, line_a, path_b, line_b, verdict, reasons, explanation)->Object_0;
            let heading = crate::report::heading_line(
                location_text(path_a, line_a),
                location_text(path_b, line_b),
                verdict,
            );
            let closing = crate::report::suggestion_line(verdict);
            &&& members[0] == ("verdict"@, JsonModel::Text(verdict_label(verdict)))
            &&& heading == "["@ + verdict_label(verdict) + "] "@ + location_text(path_a, line_a)
                + " <-> "@ + location_text(path_b, line_b)
            &&& text.subrange(0, heading.len() as int) == heading
            &&& members[1] == ("location_a"@, location_model(path_a, line_a))
            &&& members[2] == ("location_b"@, location_model(path_b, line_b))
            &&& members[4] == ("suggestion"@, JsonModel::Text(suggestion_text(verdict)))
            &&& closing == crate::report::indent() + "提案: "@ + suggestion_text(verdict)
            &&& text.subrange(text.len() - closing.len() - 1, text.len() as int) == seq!['\n']
                + closing
        }),
{
    crate::report::lemma_text_opens_with_the_heading_and_closes_with_the_suggestion(
        location_text(path_a, line_a),
        location_text(path_b, line_b),
        verdict,
        reasons,
        explanation,
    );
}

} // verus!
