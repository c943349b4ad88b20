//! What the language server's answers about a pair of chunks come to: the type signature
//! match and the caller domain overlap, and why the server could not be asked, if it could
//! not. A failure on one side leaves the other signal as it was measured.
use vstd::prelude::*;

use crate::classification::signal::{
    CallerDomainOverlap, CallerDomainOverlapView, MeasuredCallerDomains, SemanticsUnavailable,
    Signals, TypeSignatureMatch,
};
use crate::classification::{is_structurally_similar, similar, ConfiguredThresholds};
use crate::lsp::document::DocumentError;
use crate::lsp::workspace::WorkspaceError;
use crate::semantics::caller_domain::CallerDomains;

verus! {

/// What asking for a chunk's type signature came to. `S` is the signature as normalized,
/// ready to be unified with another.
#[derive(Debug)]
pub enum TypeSignatureOutcome<S> {
    /// The signature, normalized.
    Normalized(S),
    /// The server has no type at the chunk's name.
    NoTypeThere,
    /// The hover answer could not be read.
    UnreadableHover,
    /// The returned spelling could not be parsed as a signature.
    UnreadableSignature,
    /// The server does not offer hover.
    HoverNotProvided,
}

/// What asking for a chunk's callers came to.
#[derive(Debug)]
pub enum CallerDomainsOutcome {
    /// The callers, counted per domain.
    Counted(CallerDomains),
    /// No reference came back.
    NoReferences,
    /// A reference's URI could not be read.
    UnreadableReferences,
    /// The server kept working and its answer did not settle.
    ServerStillWorking,
    /// The server does not offer references.
    ReferencesNotProvided,
}

/// Why the server could not be asked about a pair. `C` is the failure of the conversation
/// with the server.
#[derive(Debug)]
pub enum SemanticsError<C> {
    /// A file could not be made a document for the server.
    Document(DocumentError),
    /// No workspace root could be chosen.
    Workspace(WorkspaceError),
    /// Talking to the server failed.
    Client(C),
}

/// What the server's answers about a pair came to: both signals, and the first failure
/// on the way, if any.
#[derive(Debug)]
pub struct AskedSemantics<C> {
    pub type_signature_match: TypeSignatureMatch,
    pub caller_domain_overlap: CallerDomainOverlap,
    pub error: Option<SemanticsError<C>>,
}

/// The reason a failure gives the signals: one for each kind of failure, so that the user
/// learns what to fix.
pub open spec fn unavailable_reason<C>(cause: SemanticsError<C>) -> SemanticsUnavailable {
    match cause {
        SemanticsError::Document(_) => SemanticsUnavailable::DocumentUnopenable,
        SemanticsError::Workspace(_) => SemanticsUnavailable::WorkspaceRootUndecidable,
        SemanticsError::Client(_) => SemanticsUnavailable::LspUnusable,
    }
}

/// The reason a failure gives the signals.
pub fn unavailable_of<C>(cause: &SemanticsError<C>) -> (reason: SemanticsUnavailable)
    ensures
        reason == unavailable_reason(*cause),
{
    match cause {
        SemanticsError::Document(_) => SemanticsUnavailable::DocumentUnopenable,
        SemanticsError::Workspace(_) => SemanticsUnavailable::WorkspaceRootUndecidable,
        SemanticsError::Client(_) => SemanticsUnavailable::LspUnusable,
    }
}

/// Neither signal, both for the same reason: the server was not asked at all.
pub fn unavailable<C>(reason: SemanticsUnavailable, error: Option<SemanticsError<C>>) -> (asked:
    AskedSemantics<C>)
    ensures
        asked.type_signature_match == (TypeSignatureMatch::Unavailable { reason }),
        asked.caller_domain_overlap@ == crate::classification::signal::CallerDomainOverlapView::Unavailable(
            reason,
        ),
        asked.error == error,
{
    AskedSemantics {
        type_signature_match: TypeSignatureMatch::Unavailable { reason },
        caller_domain_overlap: CallerDomainOverlap::Unavailable { reason },
        error,
    }
}

/// A failure before anything was asked: neither signal, for the reason the failure gives,
/// with the failure kept.
pub fn from_setup_failure<C>(cause: SemanticsError<C>) -> (asked: AskedSemantics<C>)
    ensures
        asked.type_signature_match == (TypeSignatureMatch::Unavailable {
            reason: unavailable_reason(cause),
        }),
        asked.caller_domain_overlap@ == crate::classification::signal::CallerDomainOverlapView::Unavailable(
            unavailable_reason(cause),
        ),
        asked.error == Some(cause),
{
    let reason = unavailable_of(&cause);
    unavailable(reason, Some(cause))
}

/// A pair where a chunk has no name to ask at: neither signal can be asked for, and the
/// server did not fail.
pub fn without_name<C>() -> (asked: AskedSemantics<C>)
    ensures
        asked.type_signature_match == TypeSignatureMatch::NoName,
        asked.caller_domain_overlap@ == crate::classification::signal::CallerDomainOverlapView::NoName,
        asked.error is None,
{
    AskedSemantics {
        type_signature_match: TypeSignatureMatch::NoName,
        caller_domain_overlap: CallerDomainOverlap::NoName,
        error: None,
    }
}

/// The answers, unless the server failed to shut down: a server that ended badly may not
/// have finished reading the project, so its answers are not taken.
pub fn after_shutdown<C>(asked: AskedSemantics<C>, shutdown: Result<(), C>) -> (kept:
    AskedSemantics<C>)
    ensures
        shutdown is Ok ==> kept == asked,
        shutdown matches Err(cause) ==> (kept.type_signature_match == (
        TypeSignatureMatch::Unavailable { reason: SemanticsUnavailable::LspUnusable })
            && kept.caller_domain_overlap@
            == crate::classification::signal::CallerDomainOverlapView::Unavailable(
            SemanticsUnavailable::LspUnusable,
        ) && kept.error == Some(SemanticsError::Client(cause))),
{
    match shutdown {
        Ok(()) => asked,
        Err(cause) => from_setup_failure(SemanticsError::Client(cause)),
    }
}

/// The type signature match of two outcomes: whether they unify where both were
/// normalized (`unifiable` says whether they do); else the first reason, in this order, that
/// either side gives: no type there, an unreadable hover, an unreadable signature, no hover.
pub open spec fn type_signature_match<S>(
    signature_a: TypeSignatureOutcome<S>,
    signature_b: TypeSignatureOutcome<S>,
    unifiable: bool,
) -> TypeSignatureMatch {
    match (signature_a, signature_b) {
        (TypeSignatureOutcome::Normalized(_), TypeSignatureOutcome::Normalized(_)) => if unifiable {
            TypeSignatureMatch::Unifiable
        } else {
            TypeSignatureMatch::NotUnifiable
        },
        (TypeSignatureOutcome::NoTypeThere, _) | (_, TypeSignatureOutcome::NoTypeThere) => {
            TypeSignatureMatch::NoTypeThere
        },
        (TypeSignatureOutcome::UnreadableHover, _) | (_, TypeSignatureOutcome::UnreadableHover) => {
            TypeSignatureMatch::UnreadableHover
        },
        (TypeSignatureOutcome::UnreadableSignature, _) | (
            _,
            TypeSignatureOutcome::UnreadableSignature,
        ) => TypeSignatureMatch::UnreadableSignature,
        (TypeSignatureOutcome::HoverNotProvided, _) | (_, TypeSignatureOutcome::HoverNotProvided) => {
            TypeSignatureMatch::HoverNotProvided
        },
    }
}

/// The type signature match of two outcomes. `unifiable` is whether the two normalized
/// signatures unify; it is read only where both sides were normalized.
pub fn type_signature_match_of<S>(
    signature_a: &TypeSignatureOutcome<S>,
    signature_b: &TypeSignatureOutcome<S>,
    unifiable: bool,
) -> (signal: TypeSignatureMatch)
    ensures
        signal == type_signature_match(*signature_a, *signature_b, unifiable),
{
    match (signature_a, signature_b) {
        (TypeSignatureOutcome::Normalized(_), TypeSignatureOutcome::Normalized(_)) => {
            unifiable_match_of(unifiable)
        },
        (TypeSignatureOutcome::NoTypeThere, _) | (_, TypeSignatureOutcome::NoTypeThere) => {
            TypeSignatureMatch::NoTypeThere
        },
        (TypeSignatureOutcome::UnreadableHover, _) | (_, TypeSignatureOutcome::UnreadableHover) => {
            TypeSignatureMatch::UnreadableHover
        },
        (TypeSignatureOutcome::UnreadableSignature, _) | (
            _,
            TypeSignatureOutcome::UnreadableSignature,
        ) => TypeSignatureMatch::UnreadableSignature,
        (TypeSignatureOutcome::HoverNotProvided, _) | (_, TypeSignatureOutcome::HoverNotProvided) => {
            TypeSignatureMatch::HoverNotProvided
        },
    }
}

/// Whether two signatures unify, as a signal.
pub fn unifiable_match_of(unifiable: bool) -> (signal: TypeSignatureMatch)
    ensures
        unifiable ==> signal == TypeSignatureMatch::Unifiable,
        !unifiable ==> signal == TypeSignatureMatch::NotUnifiable,
{
    if unifiable {
        return TypeSignatureMatch::Unifiable;
    }
    TypeSignatureMatch::NotUnifiable
}

/// The caller domain overlap of two outcomes: both sides' counts where both were counted
/// (never an overlap of nothing where a side is missing); else the first reason, in this
/// order, that either side gives: no references, unreadable references, a server still
/// working, no references offered.
pub open spec fn caller_domain_overlap(
    callers_a: CallerDomainsOutcome,
    callers_b: CallerDomainsOutcome,
) -> crate::classification::signal::CallerDomainOverlapView {
    match (callers_a, callers_b) {
        (CallerDomainsOutcome::Counted(a), CallerDomainsOutcome::Counted(b)) => {
            crate::classification::signal::CallerDomainOverlapView::Measured(a@, b@)
        },
        (CallerDomainsOutcome::NoReferences, _) | (_, CallerDomainsOutcome::NoReferences) => {
            crate::classification::signal::CallerDomainOverlapView::NoReferences
        },
        (CallerDomainsOutcome::UnreadableReferences, _) | (
            _,
            CallerDomainsOutcome::UnreadableReferences,
        ) => crate::classification::signal::CallerDomainOverlapView::UnreadableReferences,
        (CallerDomainsOutcome::ServerStillWorking, _) | (
            _,
            CallerDomainsOutcome::ServerStillWorking,
        ) => crate::classification::signal::CallerDomainOverlapView::ServerStillWorking,
        (CallerDomainsOutcome::ReferencesNotProvided, _) | (
            _,
            CallerDomainsOutcome::ReferencesNotProvided,
        ) => crate::classification::signal::CallerDomainOverlapView::ReferencesNotProvided,
    }
}

/// The caller domain overlap of two outcomes.
pub fn caller_domain_overlap_of(
    callers_a: &CallerDomainsOutcome,
    callers_b: &CallerDomainsOutcome,
) -> (signal: CallerDomainOverlap)
    ensures
        signal@ == caller_domain_overlap(*callers_a, *callers_b),
{
    match (callers_a, callers_b) {
        (CallerDomainsOutcome::Counted(counted_a), CallerDomainsOutcome::Counted(counted_b)) => {
            CallerDomainOverlap::Measured(
                MeasuredCallerDomains::new(counted_a.clone(), counted_b.clone()),
            )
        },
        (CallerDomainsOutcome::NoReferences, _) | (_, CallerDomainsOutcome::NoReferences) => {
            CallerDomainOverlap::NoReferences
        },
        (CallerDomainsOutcome::UnreadableReferences, _) | (
            _,
            CallerDomainsOutcome::UnreadableReferences,
        ) => CallerDomainOverlap::UnreadableReferences,
        (CallerDomainsOutcome::ServerStillWorking, _) | (
            _,
            CallerDomainsOutcome::ServerStillWorking,
        ) => CallerDomainOverlap::ServerStillWorking,
        (CallerDomainsOutcome::ReferencesNotProvided, _) | (
            _,
            CallerDomainsOutcome::ReferencesNotProvided,
        ) => CallerDomainOverlap::ReferencesNotProvided,
    }
}

/// The first failure of four answers, in the order they were asked.
pub open spec fn first_failure<S, C>(
    signature_a: Result<TypeSignatureOutcome<S>, C>,
    signature_b: Result<TypeSignatureOutcome<S>, C>,
    callers_a: Result<CallerDomainsOutcome, C>,
    callers_b: Result<CallerDomainsOutcome, C>,
) -> Option<C> {
    match (signature_a, signature_b, callers_a, callers_b) {
        (Err(c), _, _, _) => Some(c),
        (_, Err(c), _, _) => Some(c),
        (_, _, Err(c), _) => Some(c),
        (_, _, _, Err(c)) => Some(c),
        _ => None,
    }
}

/// What the four answers about a pair come to. A signal whose two answers both came is
/// measured by [`type_signature_match`] or [`caller_domain_overlap`]; a signal with a failed
/// answer is one the server could not give; the first failure, in the order asked, is kept.
/// `unifiable` says whether the two signatures unify, where both were normalized.
pub fn asked_semantics_of_outcomes<S, C>(
    signature_a: Result<TypeSignatureOutcome<S>, C>,
    signature_b: Result<TypeSignatureOutcome<S>, C>,
    callers_a: Result<CallerDomainsOutcome, C>,
    callers_b: Result<CallerDomainsOutcome, C>,
    unifiable: bool,
) -> (asked: AskedSemantics<C>)
    ensures
        asked.type_signature_match == match (signature_a, signature_b) {
            (Ok(a), Ok(b)) => type_signature_match(a, b, unifiable),
            _ => TypeSignatureMatch::Unavailable { reason: SemanticsUnavailable::LspUnusable },
        },
        asked.caller_domain_overlap@ == match (callers_a, callers_b) {
            (Ok(a), Ok(b)) => caller_domain_overlap(a, b),
            _ => crate::classification::signal::CallerDomainOverlapView::Unavailable(
                SemanticsUnavailable::LspUnusable,
            ),
        },
        asked.error == match first_failure(signature_a, signature_b, callers_a, callers_b) {
            Some(c) => Some(SemanticsError::Client(c)),
            None => None,
        },
{
    let type_signature_match = match (&signature_a, &signature_b) {
        (Ok(a), Ok(b)) => type_signature_match_of(a, b, unifiable),
        _ => TypeSignatureMatch::Unavailable { reason: SemanticsUnavailable::LspUnusable },
    };
    let caller_domain_overlap = match (&callers_a, &callers_b) {
        (Ok(a), Ok(b)) => caller_domain_overlap_of(a, b),
        _ => CallerDomainOverlap::Unavailable { reason: SemanticsUnavailable::LspUnusable },
    };
    let error = match signature_a {
        Err(c) => Some(SemanticsError::Client(c)),
        Ok(_) => match signature_b {
            Err(c) => Some(SemanticsError::Client(c)),
            Ok(_) => match callers_a {
                Err(c) => Some(SemanticsError::Client(c)),
                Ok(_) => match callers_b {
                    Err(c) => Some(SemanticsError::Client(c)),
                    Ok(_) => None,
                },
            },
        },
    };
    AskedSemantics { type_signature_match, caller_domain_overlap, error }
}

/// A pair measured by both stages: its signals, and why the language server could not be
/// asked, where it could not.
#[derive(Debug)]
pub struct MeasuredPair<C> {
    pub signals: Signals,
    pub semantics_error: Option<SemanticsError<C>>,
}

/// Measures a pair: the syntactic signals as given, and, only for a pair structurally
/// similar enough to be a candidate, what `ask` gets from the language server. A pair that is
/// no candidate is not asked about (the server is not even started), which its signals say;
/// a server that could not be used does not fail the pair, its signals say why.
pub fn measured_pair_of<C, F: FnOnce() -> AskedSemantics<C>>(
    signals: Signals,
    thresholds: ConfiguredThresholds,
    ask: F,
) -> (measured: MeasuredPair<C>)
    requires
        similar(signals.structural_similarity_view(), thresholds.structural_similarity_view())
            ==> ask.requires(()),
    ensures
        measured.signals.structural_similarity_view() == signals.structural_similarity_view(),
        measured.signals.import_overlap_view() == signals.import_overlap_view(),
        measured.signals.module_distance_view() == signals.module_distance_view(),
        !similar(signals.structural_similarity_view(), thresholds.structural_similarity_view())
            ==> {
            &&& measured.signals.type_signature_match_view() == (TypeSignatureMatch::Unavailable {
                reason: SemanticsUnavailable::NotACandidate,
            })
            &&& measured.signals.caller_domain_overlap_view() == CallerDomainOverlapView::Unavailable(
                SemanticsUnavailable::NotACandidate,
            )
            &&& measured.semantics_error is None
        },
        similar(signals.structural_similarity_view(), thresholds.structural_similarity_view())
            ==> exists|asked: AskedSemantics<C>|
            #[trigger] ask.ensures((), asked) && measured.signals.type_signature_match_view()
                == asked.type_signature_match && measured.signals.caller_domain_overlap_view()
                == asked.caller_domain_overlap@ && measured.semantics_error == asked.error,
{
    let asked = if is_structurally_similar(
        signals.structural_similarity(),
        thresholds.structural_similarity(),
    ) {
        ask()
    } else {
        unavailable(SemanticsUnavailable::NotACandidate, None)
    };
    let measured = MeasuredPair {
        signals: signals.with_semantics(asked.type_signature_match, asked.caller_domain_overlap),
        semantics_error: asked.error,
    };
    measured
}

} // verus!
