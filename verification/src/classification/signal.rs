//! The signals a verdict is built from, each with the ways it can fail to be measured.
use vstd::prelude::*;

use crate::domain_declaration::AmbiguousDomain;
use crate::semantics::caller_domain::{keys, shared_count, union_count, CallerDomains};
use crate::semantics::domain::DomainView;
use crate::semantics::resolved_type::UnopenedReason;
use crate::semantics::type_signature::UntracedReason;
use crate::similarity::Similarity;
use crate::syntax::import::ImportsUnavailable;
use crate::syntax::module_distance::ModuleDistance;

verus! {

/// How similar the two chunks' normalized token sequences are.
#[derive(Debug, Clone, Copy, PartialEq, Eq)]
pub enum StructuralSimilarity {
    Measured(Similarity),
    /// One of the chunks has no token to compare.
    NoTokens,
}

/// How much the two files' dependency sets overlap.
#[derive(Debug, Clone, Copy, PartialEq, Eq)]
pub enum ImportOverlap {
    Measured(Similarity),
    /// One of the files' dependency sets could not be built.
    Unavailable(ImportsUnavailable),
}

/// Why the language server was not asked, or could not be asked, about a pair.
#[derive(Debug, Clone, Copy, PartialEq, Eq)]
pub enum SemanticsUnavailable {
    /// Only the syntactic signals were wanted.
    NotAsked,
    /// The pair is not similar enough to be a candidate.
    NotACandidate,
    /// A file could not be handed to the server.
    DocumentUnopenable,
    /// No workspace root could be chosen for the pair.
    WorkspaceRootUndecidable,
    /// The server could not be used.
    LspUnusable,
}

/// Whether the two chunks' type signatures unify.
#[derive(Debug, Clone, Copy, PartialEq, Eq)]
pub enum TypeSignatureMatch {
    Unifiable,
    NotUnifiable,
    Unavailable { reason: SemanticsUnavailable },
    /// A chunk has no name to hover on.
    NoName,
    /// The server has no type at the chunk's name.
    NoTypeThere,
    /// The hover answer could not be read.
    UnreadableHover,
    /// The server kept working and its answer did not settle.
    ServerStillWorking,
    /// The returned spelling could not be parsed as a signature.
    UnreadableSignature,
    /// The server does not offer hover.
    HoverNotProvided,
    /// A type name left in the comparison could not be opened.
    UnopenedTypeName { reason: UnopenedReason },
    /// A type name left in the comparison was not traced to its declaration.
    UntracedTypeName { reason: UntracedReason },
    /// A spelling left in the comparison depends on where it is written.
    SiteDependentSpelling,
    /// The server counted `counted` overloads, of which only `found` could be lined up.
    OverloadSetMiscounted { counted: usize, found: usize },
}

/// The callers of both chunks, counted per domain.
#[derive(Debug, PartialEq, Eq)]
pub struct MeasuredCallerDomains {
    callers_a: CallerDomains,
    callers_b: CallerDomains,
}

/// How much the domains the two chunks are called from overlap.
#[derive(Debug, PartialEq, Eq)]
pub enum CallerDomainOverlap {
    Measured(MeasuredCallerDomains),
    Unavailable { reason: SemanticsUnavailable },
    /// A chunk has no name to ask about.
    NoName,
    /// No project marker was found above the file; holds the markers the server looks for.
    ProjectUnrooted { markers: Vec<String> },
    /// The file lies outside the project its marker spans; holds the markers.
    OutsideProject { markers: Vec<String> },
    /// The server cannot say which project a file belongs to.
    ProjectMembershipNotProvided,
    /// No reference came back.
    NoReferences,
    /// A reference's URI could not be read.
    UnreadableReferences,
    /// The server kept working and its answer did not settle.
    ServerStillWorking,
    /// The server does not offer references.
    ReferencesNotProvided,
    /// A referencing file falls under two domain declarations.
    AmbiguousDomain(AmbiguousDomain),
}

/// The mathematical content of a [`CallerDomainOverlap`].
pub enum CallerDomainOverlapView {
    /// The per-domain reference counts of both sides.
    Measured(Seq<(DomainView, nat)>, Seq<(DomainView, nat)>),
    Unavailable(SemanticsUnavailable),
    NoName,
    ProjectUnrooted(Seq<Seq<char>>),
    OutsideProject(Seq<Seq<char>>),
    ProjectMembershipNotProvided,
    NoReferences,
    UnreadableReferences,
    ServerStillWorking,
    ReferencesNotProvided,
    /// The file, and the first two declarations it falls under.
    AmbiguousDomain(Seq<char>, Seq<char>, Seq<char>),
}

/// The overlap of two per-domain tallies as a (shared, total) pair of domain counts.
pub open spec fn caller_overlap_counts(a: Seq<(DomainView, nat)>, b: Seq<(DomainView, nat)>) -> (
    nat,
    nat,
) {
    (shared_count(keys(a), keys(b)), union_count(keys(a), keys(b)))
}

impl MeasuredCallerDomains {
    pub closed spec fn callers_a_view(&self) -> Seq<(DomainView, nat)> {
        self.callers_a@
    }

    pub closed spec fn callers_b_view(&self) -> Seq<(DomainView, nat)> {
        self.callers_b@
    }

    /// Both sides' callers.
    pub fn new(callers_a: CallerDomains, callers_b: CallerDomains) -> (measured: Self)
        ensures
            measured.callers_a_view() == callers_a@,
            measured.callers_b_view() == callers_b@,
    {
        MeasuredCallerDomains { callers_a, callers_b }
    }

    /// The Jaccard index of the two sides' domains.
    pub fn overlap(&self) -> (overlap: Similarity)
        ensures
            (overlap.spec_shared(), overlap.spec_total()) == caller_overlap_counts(
                self.callers_a_view(),
                self.callers_b_view(),
            ),
            overlap.spec_shared() == keys(self.callers_a_view()).to_set().intersect(
                keys(self.callers_b_view()).to_set(),
            ).len(),
            overlap.spec_total() == keys(self.callers_a_view()).to_set().union(
                keys(self.callers_b_view()).to_set(),
            ).len(),
    {
        self.callers_a.jaccard(&self.callers_b)
    }

    /// The first chunk's callers.
    pub fn callers_a(&self) -> (callers: &CallerDomains)
        ensures
            callers@ == self.callers_a_view(),
    {
        &self.callers_a
    }

    /// The second chunk's callers.
    pub fn callers_b(&self) -> (callers: &CallerDomains)
        ensures
            callers@ == self.callers_b_view(),
    {
        &self.callers_b
    }
}

impl Clone for MeasuredCallerDomains {
    fn clone(&self) -> (copy: MeasuredCallerDomains)
        ensures
            copy.callers_a_view() == self.callers_a_view(),
            copy.callers_b_view() == self.callers_b_view(),
    {
        MeasuredCallerDomains { callers_a: self.callers_a.clone(), callers_b: self.callers_b.clone() }
    }
}

impl CallerDomainOverlap {
    pub open spec fn view(&self) -> CallerDomainOverlapView {
        match self {
            CallerDomainOverlap::Measured(m) => CallerDomainOverlapView::Measured(
                m.callers_a_view(),
                m.callers_b_view(),
            ),
            CallerDomainOverlap::Unavailable { reason } => CallerDomainOverlapView::Unavailable(
                *reason,
            ),
            CallerDomainOverlap::NoName => CallerDomainOverlapView::NoName,
            CallerDomainOverlap::ProjectUnrooted { markers } => CallerDomainOverlapView::ProjectUnrooted(
                markers.deep_view(),
            ),
            CallerDomainOverlap::OutsideProject { markers } => CallerDomainOverlapView::OutsideProject(
                markers.deep_view(),
            ),
            CallerDomainOverlap::ProjectMembershipNotProvided => CallerDomainOverlapView::ProjectMembershipNotProvided,
            CallerDomainOverlap::NoReferences => CallerDomainOverlapView::NoReferences,
            CallerDomainOverlap::UnreadableReferences => CallerDomainOverlapView::UnreadableReferences,
            CallerDomainOverlap::ServerStillWorking => CallerDomainOverlapView::ServerStillWorking,
            CallerDomainOverlap::ReferencesNotProvided => CallerDomainOverlapView::ReferencesNotProvided,
            CallerDomainOverlap::AmbiguousDomain(a) => CallerDomainOverlapView::AmbiguousDomain(
                a.path_view(),
                a.first_view(),
                a.second_view(),
            ),
        }
    }
}

/// A copy of a list of strings.
fn copy_strings(strings: &Vec<String>) -> (copy: Vec<String>)
    ensures
        copy.deep_view() == strings.deep_view(),
{
    let mut copy: Vec<String> = Vec::new();
    let mut i: usize = 0;
    while i < strings.len()
        invariant
            0 <= i <= strings@.len(),
            copy@ == strings@.take(i as int),
        decreases strings@.len() - i,
    {
        copy.push(strings[i].clone());
        i = i + 1;
        assert(copy@ =~= strings@.take(i as int));
    }
    assert(copy@ =~= strings@);
    assert(copy.deep_view() =~= strings.deep_view());
    copy
}

impl Clone for CallerDomainOverlap {
    fn clone(&self) -> (copy: CallerDomainOverlap)
        ensures
            copy@ == self@,
    {
        match self {
            CallerDomainOverlap::Measured(m) => CallerDomainOverlap::Measured(m.clone()),
            CallerDomainOverlap::Unavailable { reason } => CallerDomainOverlap::Unavailable {
                reason: *reason,
            },
            CallerDomainOverlap::NoName => CallerDomainOverlap::NoName,
            CallerDomainOverlap::ProjectUnrooted { markers } => CallerDomainOverlap::ProjectUnrooted {
                markers: copy_strings(markers),
            },
            CallerDomainOverlap::OutsideProject { markers } => CallerDomainOverlap::OutsideProject {
                markers: copy_strings(markers),
            },
            CallerDomainOverlap::ProjectMembershipNotProvided => CallerDomainOverlap::ProjectMembershipNotProvided,
            CallerDomainOverlap::NoReferences => CallerDomainOverlap::NoReferences,
            CallerDomainOverlap::UnreadableReferences => CallerDomainOverlap::UnreadableReferences,
            CallerDomainOverlap::ServerStillWorking => CallerDomainOverlap::ServerStillWorking,
            CallerDomainOverlap::ReferencesNotProvided => CallerDomainOverlap::ReferencesNotProvided,
            CallerDomainOverlap::AmbiguousDomain(a) => CallerDomainOverlap::AmbiguousDomain(a.clone()),
        }
    }
}

/// The signals measured for one pair of chunks.
///
/// The syntactic signals are always there; the two the language server answers start
/// as not asked and are filled in by [`Signals::with_semantics`].
#[derive(Debug, PartialEq, Eq)]
pub struct Signals {
    structural_similarity: StructuralSimilarity,
    import_overlap: ImportOverlap,
    module_distance: ModuleDistance,
    type_signature_match: TypeSignatureMatch,
    caller_domain_overlap: CallerDomainOverlap,
}

impl Signals {
    pub closed spec fn structural_similarity_view(&self) -> StructuralSimilarity {
        self.structural_similarity
    }

    pub closed spec fn import_overlap_view(&self) -> ImportOverlap {
        self.import_overlap
    }

    pub closed spec fn module_distance_view(&self) -> ModuleDistance {
        self.module_distance
    }

    pub closed spec fn type_signature_match_view(&self) -> TypeSignatureMatch {
        self.type_signature_match
    }

    pub closed spec fn caller_domain_overlap_view(&self) -> CallerDomainOverlapView {
        self.caller_domain_overlap@
    }

    /// The syntactic signals, with the language server not asked.
    pub fn new(
        structural_similarity: StructuralSimilarity,
        import_overlap: ImportOverlap,
        module_distance: ModuleDistance,
    ) -> (signals: Self)
        ensures
            signals.structural_similarity_view() == structural_similarity,
            signals.import_overlap_view() == import_overlap,
            signals.module_distance_view() == module_distance,
            signals.type_signature_match_view() == (TypeSignatureMatch::Unavailable {
                reason: SemanticsUnavailable::NotAsked,
            }),
            signals.caller_domain_overlap_view() == CallerDomainOverlapView::Unavailable(
                SemanticsUnavailable::NotAsked,
            ),
    {
        Signals {
            structural_similarity,
            import_overlap,
            module_distance,
            type_signature_match: TypeSignatureMatch::Unavailable {
                reason: SemanticsUnavailable::NotAsked,
            },
            caller_domain_overlap: CallerDomainOverlap::Unavailable {
                reason: SemanticsUnavailable::NotAsked,
            },
        }
    }

    /// The same syntactic signals, with what the language server answered.
    pub fn with_semantics(
        self,
        type_signature_match: TypeSignatureMatch,
        caller_domain_overlap: CallerDomainOverlap,
    ) -> (signals: Self)
        ensures
            signals.structural_similarity_view() == self.structural_similarity_view(),
            signals.import_overlap_view() == self.import_overlap_view(),
            signals.module_distance_view() == self.module_distance_view(),
            signals.type_signature_match_view() == type_signature_match,
            signals.caller_domain_overlap_view() == caller_domain_overlap@,
    {
        Signals { type_signature_match, caller_domain_overlap, ..self }
    }

    /// The structural similarity of the two chunks.
    pub fn structural_similarity(&self) -> (signal: StructuralSimilarity)
        ensures
            signal == self.structural_similarity_view(),
    {
        self.structural_similarity
    }

    /// The overlap of the two files' dependencies.
    pub fn import_overlap(&self) -> (signal: ImportOverlap)
        ensures
            signal == self.import_overlap_view(),
    {
        self.import_overlap
    }

    /// The directory steps between the two files.
    pub fn module_distance(&self) -> (signal: ModuleDistance)
        ensures
            signal == self.module_distance_view(),
    {
        self.module_distance
    }

    /// Whether the two type signatures unify.
    pub fn type_signature_match(&self) -> (signal: TypeSignatureMatch)
        ensures
            signal == self.type_signature_match_view(),
    {
        self.type_signature_match
    }

    /// The overlap of the domains the two chunks are called from.
    pub fn caller_domain_overlap(&self) -> (signal: &CallerDomainOverlap)
        ensures
            signal@ == self.caller_domain_overlap_view(),
    {
        &self.caller_domain_overlap
    }
}

} // verus!
