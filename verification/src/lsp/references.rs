//! What a references answer says: the files that refer to a name.
use vstd::prelude::*;

use lsp_types::Uri;
use serde_json::Value;

use crate::path::is_absolute;
use crate::lsp::uri::{path_of, paths_of_readings, paths_reading, uris_read, UriPathError};

verus! {

/// What asking for the references to a name came to.
#[derive(Debug)]
pub enum ReferencesOutcome {
    /// The file of each reference, in the order the server gave them; one per reference.
    Answered(Vec<String>),
    /// The server named no reference.
    NoAnswer,
    /// A reference came back under a URI that is no local path.
    Unreadable { cause: UriPathError },
    /// The server kept working while it answered; no answer was taken.
    ServerStillWorking,
    /// The server does not answer references; nothing was asked.
    NotSupported,
}

/// Whether `outcome` is what a list of read references comes to: no reference is no
/// answer; otherwise every path, in order, or the first URI that could not be read.
pub open spec fn readings_come_to(
    readings: Seq<Result<String, UriPathError>>,
    outcome: ReferencesOutcome,
) -> bool {
    &&& readings.len() == 0 ==> outcome is NoAnswer
    &&& readings.len() > 0 ==> match paths_reading(readings) {
        Ok(paths) => (outcome matches ReferencesOutcome::Answered(p) && p@.map_values(
            |s: String| s@,
        ) == paths),
        Err(cause) => outcome == ReferencesOutcome::Unreadable { cause },
    }
}

/// What a list of read references comes to: no reference is no answer; otherwise every
/// path, or the first URI that could not be read.
pub fn outcome_of_readings(readings: Vec<Result<String, UriPathError>>) -> (outcome:
    ReferencesOutcome)
    ensures
        readings_come_to(readings@, outcome),
{
    if readings.len() == 0 {
        return ReferencesOutcome::NoAnswer;
    }
    match paths_of_readings(readings) {
        Ok(paths) => ReferencesOutcome::Answered(paths),
        Err(cause) => ReferencesOutcome::Unreadable { cause },
    }
}

/// What the references the server answered come to, given the URI of each reference
/// (`Location::uri`), in the order they came. No reference is no answer; otherwise each
/// URI is read as a path, and a URI that is no local path makes the whole answer
/// unreadable (see [`outcome_of_readings`]).
pub fn outcome_of(locations: &[Uri]) -> (outcome: ReferencesOutcome)
    ensures
        locations@.len() == 0 <==> outcome is NoAnswer,
        outcome is Answered || outcome is NoAnswer || outcome is Unreadable,
        outcome matches ReferencesOutcome::Answered(paths) ==> paths.len() == locations@.len()
            && forall|i: int| 0 <= i < paths.len() ==> is_absolute(#[trigger] paths@[i]@),
        exists|readings: Seq<Result<String, UriPathError>>|
            #[trigger] uris_read(locations@, readings) && readings_come_to(readings, outcome),
{
    let mut readings: Vec<Result<String, UriPathError>> = Vec::new();
    let mut i: usize = 0;
    while i < locations.len()
        invariant
            0 <= i <= locations@.len(),
            readings.len() == i,
            forall|j: int| 0 <= j < i ==> (#[trigger] readings@[j] matches Ok(p) ==> is_absolute(
                p@,
            )),
            forall|j: int|
                0 <= j < i ==> crate::lsp::uri::path_read(
                    crate::lsp::uri::parts_of_uri(locations@[j]),
                    crate::lsp::uri::reading_view(#[trigger] readings@[j]),
                ),
        decreases locations@.len() - i,
    {
        readings.push(path_of(&locations[i]));
        i = i + 1;
    }
    let ghost read = readings@;
    let outcome = outcome_of_readings(readings);
    proof {
        if outcome is Answered {
            let paths = outcome->Answered_0;
            assert(read.len() == locations@.len());
            assert(paths_reading(read) is Ok);
            assert(paths@.map_values(|s: String| s@) == paths_reading(read)->Ok_0);
            assert(paths@.map_values(|s: String| s@).len() == paths.len());
            assert forall|k: int| 0 <= k < paths.len() implies is_absolute(
                #[trigger] paths@[k]@,
            ) by {
                assert(paths@.map_values(|s: String| s@)[k] == paths@[k]@);
                lemma_paths_reading_index(read, k);
            }
        }
        assert(uris_read(locations@, read));
    }
    outcome
}

/// A path that was read is the path its reading gave.
proof fn lemma_paths_reading_index(readings: Seq<Result<String, UriPathError>>, k: int)
    requires
        paths_reading(readings) is Ok,
        0 <= k < readings.len(),
    ensures
        readings[k] matches Ok(p) && paths_reading(readings)->Ok_0[k] == p@,
{
    assert(readings[k] is Ok);
}

/// The URIs of the references a `textDocument/references` result holds, in order: `None`
/// where it is no JSON of an optional list of `Location`s, `Some(None)` for `null`.
pub uninterp spec fn reference_uris_in(result: Value) -> Option<Option<Seq<Uri>>>;

/// The URIs of the references a result holds, or why it holds none.
///
/// Trusted: `serde_json::from_value::<Option<Vec<lsp_types::Location>>>`, each location
/// taken by its `uri`; the contract claims the URIs are [`reference_uris_in`] of the result
/// alone. Nothing is stated of the error.
#[verifier::external_body]
fn reference_uris_of(result: Value) -> (uris: Result<Option<Vec<Uri>>, serde_json::Error>)
    ensures
        match reference_uris_in(result) {
            None => uris is Err,
            Some(None) => uris == Ok::<Option<Vec<Uri>>, serde_json::Error>(None),
            Some(Some(found)) => uris matches Ok(Some(u)) && u@ == found,
        },
{
    serde_json::from_value::<Option<Vec<lsp_types::Location>>>(result).map(|answered| {
        answered.map(|locations| locations.into_iter().map(|location| location.uri).collect())
    })
}

/// What a references result comes to: `null` is no answer; a list of locations, what
/// [`outcome_of`] makes of their URIs.
///
/// # Errors
///
/// The result is no optional list of locations.
pub fn outcome_of_result(result: Value) -> (outcome: Result<ReferencesOutcome, serde_json::Error>)
    ensures
        match reference_uris_in(result) {
            None => outcome is Err,
            Some(None) => outcome matches Ok(ReferencesOutcome::NoAnswer),
            Some(Some(uris)) => outcome matches Ok(o) && exists|readings: Seq<
                Result<String, UriPathError>,
            >| #[trigger] uris_read(uris, readings) && readings_come_to(readings, o),
        },
{
    match reference_uris_of(result) {
        Ok(Some(uris)) => Ok(outcome_of(uris.as_slice())),
        Ok(None) => Ok(ReferencesOutcome::NoAnswer),
        Err(cause) => Err(cause),
    }
}

} // verus!
