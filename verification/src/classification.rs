//! Folds the signals of a pair into a verdict, and says which way each signal leaned.
//!
//! The decision tree from signals to a label lives here and nowhere else. It reads no
//! file and asks no server: the language server's answers come in as signals, so a
//! verdict can be reached without one.
pub mod reason;
pub mod signal;
pub mod verdict;

use vstd::prelude::*;

use crate::classification::reason::{Lean, Reason};
use crate::classification::signal::{
    caller_overlap_counts, CallerDomainOverlap, CallerDomainOverlapView, ImportOverlap, Signals,
    StructuralSimilarity, TypeSignatureMatch,
};
use crate::classification::verdict::Verdict;
use crate::similarity::{pow10_spec, reaches};
use crate::syntax::module_distance::ModuleDistance;
use crate::threshold::Threshold;

verus! {

/// The directory steps from which two files count as sitting in separate directories.
///
/// One step is one file below the other's directory, the same domain's lower level; at
/// two steps both have gone down from a shared parent into different directories.
pub const SEPARATE_DIRECTORY_STEPS: usize = 2;

/// The three thresholds the signals are compared with.
#[derive(Debug, Clone, Copy, PartialEq, Eq)]
pub struct ConfiguredThresholds {
    structural_similarity: Threshold,
    shared_imports: Threshold,
    shared_caller_domains: Threshold,
}

impl ConfiguredThresholds {
    pub closed spec fn structural_similarity_view(&self) -> Threshold {
        self.structural_similarity
    }

    pub closed spec fn shared_imports_view(&self) -> Threshold {
        self.shared_imports
    }

    pub closed spec fn shared_caller_domains_view(&self) -> Threshold {
        self.shared_caller_domains
    }

    /// The lowest structural similarity at which two chunks count as similar.
    pub fn structural_similarity(&self) -> (threshold: Threshold)
        ensures
            threshold == self.structural_similarity_view(),
    {
        self.structural_similarity
    }

    /// The lowest dependency overlap at which two files count as sharing dependencies.
    pub fn shared_imports(&self) -> (threshold: Threshold)
        ensures
            threshold == self.shared_imports_view(),
    {
        self.shared_imports
    }

    /// The lowest caller-domain overlap at which two chunks count as used by one domain.
    pub fn shared_caller_domains(&self) -> (threshold: Threshold)
        ensures
            threshold == self.shared_caller_domains_view(),
    {
        self.shared_caller_domains
    }

    /// The same thresholds, with the structural similarity one replaced.
    pub fn with_structural_similarity(self, threshold: Threshold) -> (thresholds: Self)
        ensures
            thresholds.structural_similarity_view() == threshold,
            thresholds.shared_imports_view() == self.shared_imports_view(),
            thresholds.shared_caller_domains_view() == self.shared_caller_domains_view(),
    {
        ConfiguredThresholds { structural_similarity: threshold, ..self }
    }

    /// The same thresholds, with the shared dependencies one replaced.
    pub fn with_shared_imports(self, threshold: Threshold) -> (thresholds: Self)
        ensures
            thresholds.structural_similarity_view() == self.structural_similarity_view(),
            thresholds.shared_imports_view() == threshold,
            thresholds.shared_caller_domains_view() == self.shared_caller_domains_view(),
    {
        ConfiguredThresholds { shared_imports: threshold, ..self }
    }

    /// The same thresholds, with the shared caller domains one replaced.
    pub fn with_shared_caller_domains(self, threshold: Threshold) -> (thresholds: Self)
        ensures
            thresholds.structural_similarity_view() == self.structural_similarity_view(),
            thresholds.shared_imports_view() == self.shared_imports_view(),
            thresholds.shared_caller_domains_view() == threshold,
    {
        ConfiguredThresholds { shared_caller_domains: threshold, ..self }
    }
}

impl Default for ConfiguredThresholds {
    /// All three thresholds at one half.
    fn default() -> (thresholds: Self)
        ensures
            thresholds.structural_similarity_view() == Threshold::spec_half(),
            thresholds.shared_imports_view() == Threshold::spec_half(),
            thresholds.shared_caller_domains_view() == Threshold::spec_half(),
    {
        ConfiguredThresholds {
            structural_similarity: Threshold::half(),
            shared_imports: Threshold::half(),
            shared_caller_domains: Threshold::half(),
        }
    }
}

/// The structural similarity threshold used when none is given: one half.
pub fn default_structural_similarity_threshold() -> (threshold: Threshold)
    ensures
        threshold == Threshold::spec_half(),
{
    Threshold::half()
}

/// Whether two chunks belong to the same domain: the step between the signals and the label.
#[derive(Debug, Clone, Copy, PartialEq, Eq)]
pub enum DomainMatch {
    Same,
    Separate,
    Undecidable,
}

/// A verdict and the reasons it rests on, one per signal in the order they were measured.
#[derive(Debug, PartialEq, Eq)]
pub struct Classification {
    verdict: Verdict,
    reasons: Vec<Reason>,
}

impl Classification {
    pub closed spec fn verdict_view(&self) -> Verdict {
        self.verdict
    }

    pub closed spec fn reasons_view(&self) -> Seq<Reason> {
        self.reasons@
    }

    /// The verdict.
    pub fn verdict(&self) -> (verdict: Verdict)
        ensures
            verdict == self.verdict_view(),
    {
        self.verdict
    }

    /// The reasons, one per signal, in the order the signals were measured.
    pub fn reasons(&self) -> (reasons: &[Reason])
        ensures
            reasons@ == self.reasons_view(),
    {
        self.reasons.as_slice()
    }
}

/// The structural similarity reaches the threshold; a similarity not measured does not.
pub open spec fn similar(signal: StructuralSimilarity, threshold: Threshold) -> bool {
    match signal {
        StructuralSimilarity::Measured(similarity) => reaches(similarity, threshold),
        StructuralSimilarity::NoTokens => false,
    }
}

/// Structural similarity leans toward extracting when it reaches the threshold, and
/// otherwise neither way: a pair that is not similar is no candidate, not a duplicate.
pub open spec fn structural_lean(signal: StructuralSimilarity, threshold: Threshold) -> Lean {
    if similar(signal, threshold) {
        Lean::TowardExtract
    } else {
        Lean::Neither
    }
}

/// A measured dependency overlap leans toward extracting when it reaches the threshold and
/// away otherwise; an overlap not measured leans neither way.
pub open spec fn import_lean(signal: ImportOverlap, threshold: Threshold) -> Lean {
    match signal {
        ImportOverlap::Measured(overlap) => if reaches(overlap, threshold) {
            Lean::TowardExtract
        } else {
            Lean::TowardDoNotExtract
        },
        ImportOverlap::Unavailable(_) => Lean::Neither,
    }
}

/// Separate directories lean away from extracting; anything closer leans toward it.
pub open spec fn distance_lean(distance: ModuleDistance) -> Lean {
    if distance.spec_steps() >= SEPARATE_DIRECTORY_STEPS {
        Lean::TowardDoNotExtract
    } else {
        Lean::TowardExtract
    }
}

/// Unifiable signatures lean toward extracting, signatures that do not unify away from it;
/// a signature not measured leans neither way.
pub open spec fn type_lean(signal: TypeSignatureMatch) -> Lean {
    match signal {
        TypeSignatureMatch::Unifiable => Lean::TowardExtract,
        TypeSignatureMatch::NotUnifiable => Lean::TowardDoNotExtract,
        _ => Lean::Neither,
    }
}

/// `shared / total` reaches the threshold.
pub open spec fn counts_reach(shared: nat, total: nat, threshold: Threshold) -> bool {
    shared * pow10_spec(threshold.spec_scale()) >= threshold.spec_numerator() * total
}

/// A measured caller-domain overlap leans toward extracting when it reaches the threshold
/// and away otherwise; an overlap not measured leans neither way.
pub open spec fn caller_lean(signal: CallerDomainOverlapView, threshold: Threshold) -> Lean {
    match signal {
        CallerDomainOverlapView::Measured(a, b) => if counts_reach(
            caller_overlap_counts(a, b).0,
            caller_overlap_counts(a, b).1,
            threshold,
        ) {
            Lean::TowardExtract
        } else {
            Lean::TowardDoNotExtract
        },
        _ => Lean::Neither,
    }
}

/// Where the two chunks sit, from the dependency and directory leans alone.
///
/// Shared dependencies make the domain the same whatever the directories; a separate
/// domain takes both differing dependencies and separate directories.
pub open spec fn placement(import: Lean, distance: Lean) -> DomainMatch {
    match import {
        Lean::TowardExtract => DomainMatch::Same,
        Lean::Neither => DomainMatch::Undecidable,
        Lean::TowardDoNotExtract => if distance == Lean::TowardDoNotExtract {
            DomainMatch::Separate
        } else {
            DomainMatch::Undecidable
        },
    }
}

/// The placement with who calls the chunks laid over it: no observation keeps the
/// placement, an observation that contradicts it makes the match undecidable, and one that
/// does not settles it the observation's way.
pub open spec fn combined_domain_match(placement: DomainMatch, caller: Lean) -> DomainMatch {
    match caller {
        Lean::Neither => placement,
        Lean::TowardExtract => if placement == DomainMatch::Separate {
            DomainMatch::Undecidable
        } else {
            DomainMatch::Same
        },
        Lean::TowardDoNotExtract => if placement == DomainMatch::Same {
            DomainMatch::Undecidable
        } else {
            DomainMatch::Separate
        },
    }
}

/// The label from similarity, the type signature lean, the placement and the domain match.
pub open spec fn decided_verdict(
    similar: bool,
    type_signature: Lean,
    placement: DomainMatch,
    domain_match: DomainMatch,
) -> Verdict {
    if !similar {
        Verdict::Review
    } else {
        match domain_match {
            DomainMatch::Same => match type_signature {
                Lean::TowardDoNotExtract => Verdict::Review,
                Lean::TowardExtract => Verdict::ExtractCandidate,
                Lean::Neither => if placement == DomainMatch::Same {
                    Verdict::ExtractCandidate
                } else {
                    Verdict::Review
                },
            },
            DomainMatch::Separate => Verdict::DoNotExtract,
            DomainMatch::Undecidable => Verdict::Review,
        }
    }
}

/// The placement of a pair's signals.
pub open spec fn placement_of(signals: Signals, thresholds: ConfiguredThresholds) -> DomainMatch {
    placement(
        import_lean(signals.import_overlap_view(), thresholds.shared_imports_view()),
        distance_lean(signals.module_distance_view()),
    )
}

/// The verdict a pair's signals get under the thresholds.
pub open spec fn classified_verdict(signals: Signals, thresholds: ConfiguredThresholds) -> Verdict {
    let placement = placement_of(signals, thresholds);
    decided_verdict(
        similar(signals.structural_similarity_view(), thresholds.structural_similarity_view()),
        type_lean(signals.type_signature_match_view()),
        placement,
        combined_domain_match(
            placement,
            caller_lean(
                signals.caller_domain_overlap_view(),
                thresholds.shared_caller_domains_view(),
            ),
        ),
    )
}

/// The verdict the syntactic signals alone reach.
pub open spec fn stage1_verdict(
    structural_similarity: StructuralSimilarity,
    import_overlap: ImportOverlap,
    module_distance: ModuleDistance,
    thresholds: ConfiguredThresholds,
) -> Verdict {
    let placement = placement(
        import_lean(import_overlap, thresholds.shared_imports_view()),
        distance_lean(module_distance),
    );
    decided_verdict(
        similar(structural_similarity, thresholds.structural_similarity_view()),
        Lean::Neither,
        placement,
        placement,
    )
}

/// The reasons are the pair's five signals in order, each with its threshold and lean.
pub open spec fn reasons_of_signals(
    reasons: Seq<Reason>,
    signals: Signals,
    thresholds: ConfiguredThresholds,
) -> bool {
    &&& reasons.len() == 5
    &&& reasons[0] == (Reason::StructuralSimilarity {
        signal: signals.structural_similarity_view(),
        threshold: thresholds.structural_similarity_view(),
        lean: structural_lean(
            signals.structural_similarity_view(),
            thresholds.structural_similarity_view(),
        ),
    })
    &&& reasons[1] == (Reason::ImportOverlap {
        signal: signals.import_overlap_view(),
        threshold: thresholds.shared_imports_view(),
        lean: import_lean(signals.import_overlap_view(), thresholds.shared_imports_view()),
    })
    &&& reasons[2] == (Reason::ModuleDistance {
        signal: signals.module_distance_view(),
        separate_directory_steps: SEPARATE_DIRECTORY_STEPS,
        lean: distance_lean(signals.module_distance_view()),
    })
    &&& reasons[3] == (Reason::TypeSignatureMatch {
        signal: signals.type_signature_match_view(),
        lean: type_lean(signals.type_signature_match_view()),
    })
    &&& reasons[4] matches Reason::CallerDomainOverlap { signal, threshold, lean }
    &&& reasons[4]->CallerDomainOverlap_signal@ == signals.caller_domain_overlap_view()
    &&& reasons[4]->CallerDomainOverlap_threshold == thresholds.shared_caller_domains_view()
    &&& reasons[4]->CallerDomainOverlap_lean == caller_lean(
        signals.caller_domain_overlap_view(),
        thresholds.shared_caller_domains_view(),
    )
}

/// Folds the signals into a verdict, with one reason per signal.
///
/// This is the only place the decision tree from signals to a label is written down.
pub fn classification_of(signals: &Signals, thresholds: ConfiguredThresholds) -> (classification:
    Classification)
    ensures
        classification.verdict_view() == classified_verdict(*signals, thresholds),
        reasons_of_signals(classification.reasons_view(), *signals, thresholds),
{
    let structurally_similar = is_structurally_similar(
        signals.structural_similarity(),
        thresholds.structural_similarity(),
    );
    let placement = placement_domain_match_of(signals, thresholds);
    let domain_match = domain_match_of(placement, signals, thresholds);
    let type_signature_lean = type_signature_lean_of(signals.type_signature_match());
    Classification {
        verdict: verdict_of(structurally_similar, type_signature_lean, placement, domain_match),
        reasons: reasons_of(signals, thresholds),
    }
}

/// The label from similarity, the type signature lean, the placement and the domain match.
///
/// A pair that is not structurally similar is reviewed even when its domains differ:
/// only duplicates close enough to tempt an extraction can be called accidental.
fn verdict_of(
    structurally_similar: bool,
    type_signature_lean: Lean,
    placement: DomainMatch,
    domain_match: DomainMatch,
) -> (verdict: Verdict)
    ensures
        verdict == decided_verdict(structurally_similar, type_signature_lean, placement, domain_match),
{
    if !structurally_similar {
        return Verdict::Review;
    }
    match domain_match {
        DomainMatch::Same => shared_domain_verdict_of(type_signature_lean, placement),
        DomainMatch::Separate => Verdict::DoNotExtract,
        DomainMatch::Undecidable => Verdict::Review,
    }
}

/// The label of a pair in one domain: signatures that do not unify veto the extraction.
fn shared_domain_verdict_of(type_signature_lean: Lean, placement: DomainMatch) -> (verdict: Verdict)
    ensures
        verdict == decided_verdict(true, type_signature_lean, placement, DomainMatch::Same),
{
    match type_signature_lean {
        Lean::TowardDoNotExtract => Verdict::Review,
        Lean::TowardExtract => Verdict::ExtractCandidate,
        Lean::Neither => stage1_shared_domain_verdict_of(placement),
    }
}

/// The label of a pair in one domain whose signatures were not measured: a candidate only
/// when the placement alone already said the domain is the same.
fn stage1_shared_domain_verdict_of(placement: DomainMatch) -> (verdict: Verdict)
    ensures
        verdict == decided_verdict(true, Lean::Neither, placement, DomainMatch::Same),
{
    match placement {
        DomainMatch::Same => Verdict::ExtractCandidate,
        DomainMatch::Separate | DomainMatch::Undecidable => Verdict::Review,
    }
}

/// The placement with the callers laid over it.
fn domain_match_of(placement: DomainMatch, signals: &Signals, thresholds: ConfiguredThresholds) -> (domain_match: DomainMatch)
    ensures
        domain_match == combined_domain_match(
            placement,
            caller_lean(
                signals.caller_domain_overlap_view(),
                thresholds.shared_caller_domains_view(),
            ),
        ),
{
    match caller_domain_lean_of(signals.caller_domain_overlap(), thresholds.shared_caller_domains()) {
        Lean::Neither => placement,
        Lean::TowardExtract => match placement {
            DomainMatch::Same | DomainMatch::Undecidable => DomainMatch::Same,
            DomainMatch::Separate => DomainMatch::Undecidable,
        },
        Lean::TowardDoNotExtract => match placement {
            DomainMatch::Separate | DomainMatch::Undecidable => DomainMatch::Separate,
            DomainMatch::Same => DomainMatch::Undecidable,
        },
    }
}

/// Where the two chunks sit, from the dependency and directory leans.
fn placement_domain_match_of(signals: &Signals, thresholds: ConfiguredThresholds) -> (placement:
    DomainMatch)
    ensures
        placement == placement_of(*signals, thresholds),
{
    match import_overlap_lean_of(signals.import_overlap(), thresholds.shared_imports()) {
        Lean::TowardExtract => DomainMatch::Same,
        Lean::Neither => DomainMatch::Undecidable,
        Lean::TowardDoNotExtract => match module_distance_lean_of(signals.module_distance()) {
            Lean::TowardDoNotExtract => DomainMatch::Separate,
            Lean::TowardExtract | Lean::Neither => DomainMatch::Undecidable,
        },
    }
}

/// Whether the structural similarity reaches the threshold. A similarity that could not
/// be measured does not.
pub fn is_structurally_similar(signal: StructuralSimilarity, threshold: Threshold) -> (similar_enough: bool)
    ensures
        similar_enough == similar(signal, threshold),
{
    match signal {
        StructuralSimilarity::Measured(similarity) => similarity.is_at_least(threshold),
        StructuralSimilarity::NoTokens => false,
    }
}

/// Each signal paired with its threshold and the way it leaned.
fn reasons_of(signals: &Signals, thresholds: ConfiguredThresholds) -> (reasons: Vec<Reason>)
    ensures
        reasons_of_signals(reasons@, *signals, thresholds),
{
    let mut reasons: Vec<Reason> = Vec::new();
    reasons.push(
        Reason::StructuralSimilarity {
            signal: signals.structural_similarity(),
            threshold: thresholds.structural_similarity(),
            lean: structural_similarity_lean_of(
                signals.structural_similarity(),
                thresholds.structural_similarity(),
            ),
        },
    );
    reasons.push(
        Reason::ImportOverlap {
            signal: signals.import_overlap(),
            threshold: thresholds.shared_imports(),
            lean: import_overlap_lean_of(signals.import_overlap(), thresholds.shared_imports()),
        },
    );
    reasons.push(
        Reason::ModuleDistance {
            signal: signals.module_distance(),
            separate_directory_steps: SEPARATE_DIRECTORY_STEPS,
            lean: module_distance_lean_of(signals.module_distance()),
        },
    );
    reasons.push(
        Reason::TypeSignatureMatch {
            signal: signals.type_signature_match(),
            lean: type_signature_lean_of(signals.type_signature_match()),
        },
    );
    reasons.push(
        Reason::CallerDomainOverlap {
            signal: signals.caller_domain_overlap().clone(),
            threshold: thresholds.shared_caller_domains(),
            lean: caller_domain_lean_of(
                signals.caller_domain_overlap(),
                thresholds.shared_caller_domains(),
            ),
        },
    );
    reasons
}

/// The way the type signature leaned.
fn type_signature_lean_of(signal: TypeSignatureMatch) -> (lean: Lean)
    ensures
        lean == type_lean(signal),
{
    match signal {
        TypeSignatureMatch::Unifiable => Lean::TowardExtract,
        TypeSignatureMatch::NotUnifiable => Lean::TowardDoNotExtract,
        _ => Lean::Neither,
    }
}

/// The way the caller-domain overlap leaned.
fn caller_domain_lean_of(signal: &CallerDomainOverlap, threshold: Threshold) -> (lean: Lean)
    ensures
        lean == caller_lean(signal@, threshold),
{
    match signal {
        CallerDomainOverlap::Measured(measured) => {
            if measured.overlap().is_at_least(threshold) {
                Lean::TowardExtract
            } else {
                Lean::TowardDoNotExtract
            }
        },
        _ => Lean::Neither,
    }
}

/// The way the structural similarity leaned.
fn structural_similarity_lean_of(signal: StructuralSimilarity, threshold: Threshold) -> (lean: Lean)
    ensures
        lean == structural_lean(signal, threshold),
{
    if is_structurally_similar(signal, threshold) {
        Lean::TowardExtract
    } else {
        Lean::Neither
    }
}

/// The way the dependency overlap leaned.
fn import_overlap_lean_of(signal: ImportOverlap, threshold: Threshold) -> (lean: Lean)
    ensures
        lean == import_lean(signal, threshold),
{
    match signal {
        ImportOverlap::Measured(overlap) => {
            if overlap.is_at_least(threshold) {
                Lean::TowardExtract
            } else {
                Lean::TowardDoNotExtract
            }
        },
        ImportOverlap::Unavailable(_) => Lean::Neither,
    }
}

/// The way the directory distance leaned. The steps are always known, so never neither way.
fn module_distance_lean_of(distance: ModuleDistance) -> (lean: Lean)
    ensures
        lean == distance_lean(distance),
{
    if distance.steps() >= SEPARATE_DIRECTORY_STEPS {
        Lean::TowardDoNotExtract
    } else {
        Lean::TowardExtract
    }
}

/// `low` is no higher than `high` as a value.
pub open spec fn at_most(low: Threshold, high: Threshold) -> bool {
    low.spec_numerator() * pow10_spec(high.spec_scale()) <= high.spec_numerator() * pow10_spec(
        low.spec_scale(),
    )
}

/// Only a structurally similar pair gets a label other than REVIEW: a pair that is not
/// similar, or whose similarity could not be measured, is reviewed whatever its domains.
pub proof fn lemma_dissimilar_pair_is_reviewed(signals: Signals, thresholds: ConfiguredThresholds)
    requires
        !similar(signals.structural_similarity_view(), thresholds.structural_similarity_view()),
    ensures
        classified_verdict(signals, thresholds) == Verdict::Review,
{
}

/// Falling short of the structural threshold never leans a pair toward keeping it apart:
/// such a pair is no candidate, which is not the same as an accidental duplicate.
pub proof fn lemma_dissimilarity_leans_neither_way(signal: StructuralSimilarity, threshold: Threshold)
    ensures
        structural_lean(signal, threshold) != Lean::TowardDoNotExtract,
        !similar(signal, threshold) ==> structural_lean(signal, threshold) == Lean::Neither,
{
}

/// EXTRACT-CANDIDATE takes a similar pair in one domain whose signatures are not known to
/// clash, and either signatures that unify or a placement that already put the pair in
/// one domain before any caller was looked at.
pub proof fn lemma_extract_candidate_needs_a_compatible_signature(
    signals: Signals,
    thresholds: ConfiguredThresholds,
)
    requires
        classified_verdict(signals, thresholds) == Verdict::ExtractCandidate,
    ensures
        similar(signals.structural_similarity_view(), thresholds.structural_similarity_view()),
        signals.type_signature_match_view() != TypeSignatureMatch::NotUnifiable,
        signals.type_signature_match_view() == TypeSignatureMatch::Unifiable || placement_of(
            signals,
            thresholds,
        ) == DomainMatch::Same,
        caller_lean(signals.caller_domain_overlap_view(), thresholds.shared_caller_domains_view())
            != Lean::TowardDoNotExtract,
{
}

/// DO-NOT-EXTRACT takes a similar pair that nothing places in one domain: neither shared
/// dependencies nor shared callers, and either separate dependencies and directories or
/// callers from separate domains.
pub proof fn lemma_do_not_extract_needs_separate_domains(
    signals: Signals,
    thresholds: ConfiguredThresholds,
)
    requires
        classified_verdict(signals, thresholds) == Verdict::DoNotExtract,
    ensures
        similar(signals.structural_similarity_view(), thresholds.structural_similarity_view()),
        import_lean(signals.import_overlap_view(), thresholds.shared_imports_view())
            != Lean::TowardExtract,
        caller_lean(signals.caller_domain_overlap_view(), thresholds.shared_caller_domains_view())
            != Lean::TowardExtract,
        placement_of(signals, thresholds) == DomainMatch::Separate || caller_lean(
            signals.caller_domain_overlap_view(),
            thresholds.shared_caller_domains_view(),
        ) == Lean::TowardDoNotExtract,
{
}

/// When the language server gave neither a signature match nor measured callers, the
/// verdict is the one the syntactic signals alone reach: an unusable server does not move it.
pub proof fn lemma_unmeasured_semantics_keep_the_stage1_verdict(
    signals: Signals,
    thresholds: ConfiguredThresholds,
)
    requires
        type_lean(signals.type_signature_match_view()) == Lean::Neither,
        !(signals.caller_domain_overlap_view() is Measured),
    ensures
        classified_verdict(signals, thresholds) == stage1_verdict(
            signals.structural_similarity_view(),
            signals.import_overlap_view(),
            signals.module_distance_view(),
            thresholds,
        ),
{
}

/// Callers that contradict the placement (shared callers against separate domains, or
/// separate callers against one domain) send the pair to a person.
pub proof fn lemma_contradicting_callers_are_reviewed(
    signals: Signals,
    thresholds: ConfiguredThresholds,
)
    requires
        (placement_of(signals, thresholds) == DomainMatch::Separate && caller_lean(
            signals.caller_domain_overlap_view(),
            thresholds.shared_caller_domains_view(),
        ) == Lean::TowardExtract) || (placement_of(signals, thresholds) == DomainMatch::Same
            && caller_lean(
            signals.caller_domain_overlap_view(),
            thresholds.shared_caller_domains_view(),
        ) == Lean::TowardDoNotExtract),
    ensures
        classified_verdict(signals, thresholds) == Verdict::Review,
{
}

/// A pair similar under a structural threshold stays similar under any lower one.
pub proof fn lemma_lower_threshold_keeps_similarity(
    signal: StructuralSimilarity,
    low: Threshold,
    high: Threshold,
)
    requires
        at_most(low, high),
        similar(signal, high),
    ensures
        similar(signal, low),
{
    if let StructuralSimilarity::Measured(s) = signal {
        let a = s.spec_shared();
        let t = s.spec_total();
        let pl = pow10_spec(low.spec_scale());
        let ph = pow10_spec(high.spec_scale());
        let nl = low.spec_numerator();
        let nh = high.spec_numerator();
        crate::threshold::lemma_pow10_monotone(0, high.spec_scale());
        assert(a * pl >= nl * t) by (nonlinear_arith)
            requires
                a * ph >= nh * t,
                nl * ph <= nh * pl,
                ph >= 1,
                t >= 0,
                pl >= 0,
        {
            assert(a * ph * pl >= nh * t * pl) by (nonlinear_arith)
                requires
                    a * ph >= nh * t,
                    pl >= 0,
            ;
            assert(nh * pl * t >= nl * ph * t) by (nonlinear_arith)
                requires
                    nl * ph <= nh * pl,
                    t >= 0,
            ;
        }
    }
}

/// Lowering the structural threshold only adds candidates: a pair similar under the
/// higher threshold gets the same verdict under the lower one.
pub proof fn lemma_lower_threshold_keeps_verdicts(
    signals: Signals,
    low: ConfiguredThresholds,
    high: ConfiguredThresholds,
)
    requires
        at_most(low.structural_similarity_view(), high.structural_similarity_view()),
        low.shared_imports_view() == high.shared_imports_view(),
        low.shared_caller_domains_view() == high.shared_caller_domains_view(),
        similar(signals.structural_similarity_view(), high.structural_similarity_view()),
    ensures
        classified_verdict(signals, low) == classified_verdict(signals, high),
{
    lemma_lower_threshold_keeps_similarity(
        signals.structural_similarity_view(),
        low.structural_similarity_view(),
        high.structural_similarity_view(),
    );
}

/// The verdict is read off the leans the reasons carry and nothing else: two pairs whose
/// reasons lean the same ways, signal by signal, get the same verdict. What the reasons say
/// is what the verdict was reached from.
pub proof fn lemma_verdict_follows_the_leans(
    signals_a: Signals,
    thresholds_a: ConfiguredThresholds,
    reasons_a: Seq<Reason>,
    signals_b: Signals,
    thresholds_b: ConfiguredThresholds,
    reasons_b: Seq<Reason>,
)
    requires
        reasons_of_signals(reasons_a, signals_a, thresholds_a),
        reasons_of_signals(reasons_b, signals_b, thresholds_b),
        forall|i: int| 0 <= i < 5 ==> #[trigger] lean_of(reasons_a[i]) == lean_of(reasons_b[i]),
    ensures
        classified_verdict(signals_a, thresholds_a) == classified_verdict(signals_b, thresholds_b),
{
    assert(lean_of(reasons_a[0]) == lean_of(reasons_b[0]));
    assert(lean_of(reasons_a[1]) == lean_of(reasons_b[1]));
    assert(lean_of(reasons_a[2]) == lean_of(reasons_b[2]));
    assert(lean_of(reasons_a[3]) == lean_of(reasons_b[3]));
    assert(lean_of(reasons_a[4]) == lean_of(reasons_b[4]));
}

/// The way a reason leaned.
pub open spec fn lean_of(reason: Reason) -> Lean {
    match reason {
        Reason::StructuralSimilarity { lean, .. } => lean,
        Reason::ImportOverlap { lean, .. } => lean,
        Reason::ModuleDistance { lean, .. } => lean,
        Reason::TypeSignatureMatch { lean, .. } => lean,
        Reason::CallerDomainOverlap { lean, .. } => lean,
    }
}

} // verus!
