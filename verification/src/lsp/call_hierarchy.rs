//! What a call hierarchy answer says: where to start from, and the files of the functions
//! a function calls.
use vstd::prelude::*;

use lsp_types::{CallHierarchyItem, CallHierarchyOutgoingCall, Uri};

use crate::lsp::uri::{
    parts_of_uri, path_of, path_read, paths_of_readings, paths_reading, reading_view, uris_read,
    UriPathError,
};
use crate::path::is_absolute;

verus! {

#[verifier::external_type_specification]
#[verifier::external_body]
pub struct ExCallHierarchyItem(CallHierarchyItem);

#[verifier::external_type_specification]
#[verifier::external_body]
pub struct ExCallHierarchyOutgoingCall(CallHierarchyOutgoingCall);

/// What asking for the functions a function calls came to.
#[derive(Debug)]
pub enum CalleesOutcome {
    /// The file of each callee, in the order the server gave them; one per callee.
    Answered(Vec<String>),
    /// The server named no function to start the hierarchy from.
    NoItem,
    /// The server named several functions to start from; none was picked.
    SeveralItems { count: usize },
    /// The function calls nothing the server knows of.
    NoCallees,
    /// A callee came back under a URI that is no local path.
    Unreadable { cause: UriPathError },
    /// The server kept working while it answered; no answer was taken.
    ServerStillWorking,
    /// The server does not answer call hierarchies; nothing was asked.
    NotSupported,
}

/// Where a call hierarchy starts: the one function the server named, or why there is none
/// to start from.
#[derive(Debug)]
pub enum CallHierarchyStart<'a> {
    Item(&'a CallHierarchyItem),
    Undecidable(CalleesOutcome),
}

/// Where to start from, given the functions the server named at a position: exactly one is
/// the start; none, or several, decide the outcome without a start.
pub fn start_of<'a>(items: &'a [CallHierarchyItem]) -> (start: CallHierarchyStart<'a>)
    ensures
        items@.len() == 0 ==> start matches CallHierarchyStart::Undecidable(
            CalleesOutcome::NoItem,
        ),
        items@.len() == 1 ==> start == CallHierarchyStart::Item(&items@[0]),
        items@.len() > 1 ==> (start matches CallHierarchyStart::Undecidable(
            CalleesOutcome::SeveralItems { count },
        ) && count == items@.len()),
{
    if items.len() == 0 {
        return CallHierarchyStart::Undecidable(CalleesOutcome::NoItem);
    }
    if items.len() > 1 {
        return CallHierarchyStart::Undecidable(
            CalleesOutcome::SeveralItems { count: items.len() },
        );
    }
    CallHierarchyStart::Item(&items[0])
}

/// The URI of the function a call reaches: the field `to.uri`.
pub uninterp spec fn callee_uri_of(call: CallHierarchyOutgoingCall) -> Uri;

/// The URI of the function a call reaches.
///
/// Trusted: picks the field `to.uri` of an `lsp_types::CallHierarchyOutgoingCall`; the
/// contract claims it is [`callee_uri_of`] of the call.
#[verifier::external_body]
fn callee_uri(call: &CallHierarchyOutgoingCall) -> (uri: &Uri)
    ensures
        *uri == callee_uri_of(*call),
{
    &call.to.uri
}

/// Whether `outcome` is what a list of read callees comes to: no callee is no callees;
/// otherwise every path, in order, or the first URI that could not be read.
pub open spec fn readings_come_to(
    readings: Seq<Result<String, UriPathError>>,
    outcome: CalleesOutcome,
) -> bool {
    &&& readings.len() == 0 ==> outcome is NoCallees
    &&& readings.len() > 0 ==> match paths_reading(readings) {
        Ok(paths) => (outcome matches CalleesOutcome::Answered(p) && p@.map_values(
            |s: String| s@,
        ) == paths),
        Err(cause) => outcome == CalleesOutcome::Unreadable { cause },
    }
}

/// The URIs of the functions some calls reach, in order.
pub open spec fn callee_uris(calls: Seq<CallHierarchyOutgoingCall>) -> Seq<Uri> {
    calls.map_values(|call: CallHierarchyOutgoingCall| callee_uri_of(call))
}

/// What a list of read callees comes to: no callee is no callees; otherwise every path, or
/// the first URI that could not be read.
pub fn outcome_of_readings(readings: Vec<Result<String, UriPathError>>) -> (outcome:
    CalleesOutcome)
    ensures
        readings_come_to(readings@, outcome),
{
    if readings.len() == 0 {
        return CalleesOutcome::NoCallees;
    }
    match paths_of_readings(readings) {
        Ok(paths) => CalleesOutcome::Answered(paths),
        Err(cause) => CalleesOutcome::Unreadable { cause },
    }
}

/// What the outgoing calls the server answered come to. No call is no callees; otherwise
/// the URI of each callee is read as a path, and a URI that is no local path makes the
/// whole answer unreadable (see [`outcome_of_readings`]).
pub fn outcome_of(calls: &[CallHierarchyOutgoingCall]) -> (outcome: CalleesOutcome)
    ensures
        calls@.len() == 0 <==> outcome is NoCallees,
        outcome is Answered || outcome is NoCallees || outcome is Unreadable,
        outcome matches CalleesOutcome::Answered(paths) ==> paths.len() == calls@.len()
            && forall|i: int| 0 <= i < paths.len() ==> is_absolute(#[trigger] paths@[i]@),
        exists|readings: Seq<Result<String, UriPathError>>|
            #[trigger] uris_read(callee_uris(calls@), readings) && readings_come_to(
                readings,
                outcome,
            ),
{
    let mut readings: Vec<Result<String, UriPathError>> = Vec::new();
    let mut i: usize = 0;
    while i < calls.len()
        invariant
            0 <= i <= calls@.len(),
            readings.len() == i,
            forall|j: int| 0 <= j < i ==> (#[trigger] readings@[j] matches Ok(p) ==> is_absolute(
                p@,
            )),
            forall|j: int|
                0 <= j < i ==> path_read(
                    parts_of_uri(callee_uri_of(calls@[j])),
                    reading_view(#[trigger] readings@[j]),
                ),
        decreases calls@.len() - i,
    {
        readings.push(path_of(callee_uri(&calls[i])));
        i = i + 1;
    }
    let ghost read = readings@;
    let outcome = outcome_of_readings(readings);
    proof {
        if outcome is Answered {
            let paths = outcome->Answered_0;
            assert(paths@.map_values(|s: String| s@) == paths_reading(read)->Ok_0);
            assert(paths@.map_values(|s: String| s@).len() == paths.len());
            assert forall|k: int| 0 <= k < paths.len() implies is_absolute(
                #[trigger] paths@[k]@,
            ) by {
                assert(paths@.map_values(|s: String| s@)[k] == paths@[k]@);
                assert(read[k] is Ok);
            }
        }
        assert(uris_read(callee_uris(calls@), read));
    }
    outcome
}

} // verus!
