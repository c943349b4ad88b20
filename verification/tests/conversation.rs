use lsp_types::{HoverProviderCapability, OneOf, ReferencesOptions, ServerCapabilities};

use dryguard::lsp::connection::{
    is_progress, reply_to, result_of, step_after_answer, AttemptStep, ConnectionState,
    ProgressEvent, ProgressToken, ResponseRejection, ServerReply, REFERENCES_ATTEMPTS,
};
use dryguard::lsp::document::{DocumentError, LanguageId, SourceDocument, INITIAL_VERSION};
use dryguard::lsp::message::{RequestId, ResponseFailure, ResponseOutcome};
use dryguard::lsp::uri::PathUriError;
use dryguard::lsp::{provided, provides_hover, provides_references, Provision};

#[test]
fn test_connection_state_starts_with_the_first_id() {
    let mut state = ConnectionState::new();

    assert_eq!(state.take_request_id().number(), 1);
    assert_eq!(state.take_request_id().number(), 2);
}

#[test]
fn test_connection_state_opens_a_document_once() {
    let mut state = ConnectionState::new();
    let uri = "file:///repo/src/billing/discount.ts";

    assert!(!state.is_open(uri));
    state.note_opened(uri);
    state.note_opened(uri);
    assert!(state.is_open(uri));

    state.note_closed(uri);
    assert!(!state.is_open(uri), "one close undoes however many opens");
}

#[test]
fn test_connection_state_closing_one_document_keeps_the_others_open() {
    let mut state = ConnectionState::new();
    state.note_opened("file:///a.ts");
    state.note_opened("file:///b.ts");

    state.note_closed("file:///a.ts");

    assert!(!state.is_open("file:///a.ts"));
    assert!(state.is_open("file:///b.ts"));
}

#[test]
fn test_connection_state_a_work_that_began_and_ended_is_not_running() {
    let mut state = ConnectionState::new();

    state.note_progress(ProgressEvent::Begin(ProgressToken::Text("tk".to_owned())));
    assert!(state.is_working());
    state.note_progress(ProgressEvent::Report(ProgressToken::Text("tk".to_owned())));
    assert!(state.is_working());
    state.note_progress(ProgressEvent::End(ProgressToken::Text("tk".to_owned())));

    assert!(!state.is_working());
    assert_eq!(state.noticed_progress_count(), 1);
}

#[test]
fn test_connection_state_the_end_of_another_work_leaves_a_work_running() {
    let mut state = ConnectionState::new();

    state.note_progress(ProgressEvent::Begin(ProgressToken::Number(1)));
    state.note_progress(ProgressEvent::End(ProgressToken::Text("1".to_owned())));

    assert!(state.is_working(), "a number token is not the string spelling it");
}

#[test]
fn test_connection_state_an_answer_asked_while_work_began_and_ended_is_touched() {
    let mut state = ConnectionState::new();
    let before = state.noticed_progress_count();

    state.note_progress(ProgressEvent::Begin(ProgressToken::Number(4)));
    state.note_progress(ProgressEvent::End(ProgressToken::Number(4)));

    assert!(!state.is_working());
    assert!(!state.answer_untouched(before));
}

#[test]
fn test_connection_state_an_answer_asked_while_a_token_was_created_is_touched() {
    let mut state = ConnectionState::new();
    let before = state.noticed_progress_count();

    state.note_progress_created();

    assert!(!state.answer_untouched(before));
}

#[test]
fn test_connection_state_an_answer_asked_while_nothing_happened_is_untouched() {
    let state = ConnectionState::new();
    let before = state.noticed_progress_count();

    assert!(state.answer_untouched(before));
}

#[test]
fn test_reply_to_accepts_only_the_creation_of_a_progress_token() {
    assert_eq!(reply_to("window/workDoneProgress/create"), ServerReply::NullResult);
    assert_eq!(reply_to("window/showMessageRequest"), ServerReply::MethodNotFound);
}

#[test]
fn test_is_progress_reads_only_progress_notifications() {
    assert!(is_progress("$/progress"));
    assert!(!is_progress("window/logMessage"));
}

#[test]
fn test_result_of_a_response_to_another_request_is_refused() {
    let expected = RequestId::first().next();
    let received = RequestId::first();

    assert_eq!(
        result_of(expected, received, ResponseOutcome::Success(5u8)),
        Err(ResponseRejection::UnexpectedResponse { expected, received })
    );
}

#[test]
fn test_result_of_a_failed_request_is_the_server_failure() {
    let failure = ResponseFailure { code: -32601, message: "unknown".to_owned() };

    assert_eq!(
        result_of(
            RequestId::first(),
            RequestId::first(),
            ResponseOutcome::<u8>::Failure(failure.clone())
        ),
        Err(ResponseRejection::ServerFailure(failure))
    );
}

#[test]
fn test_result_of_the_matching_response_is_its_result() {
    assert_eq!(
        result_of(RequestId::first(), RequestId::first(), ResponseOutcome::Success(5u8)),
        Ok(5)
    );
}

#[test]
fn test_references_asked_while_the_server_keeps_working_give_up_after_the_last_attempt() {
    let mut attempts_left = REFERENCES_ATTEMPTS;
    let mut asks = 0;

    let step = loop {
        asks += 1;
        match step_after_answer(attempts_left, false) {
            AttemptStep::AskAgain { attempts_left: left } => attempts_left = left,
            other => break other,
        }
    };

    assert_eq!(step, AttemptStep::GiveUp);
    assert_eq!(asks, 3);
}

#[test]
fn test_references_answered_untouched_are_taken_at_once() {
    assert_eq!(step_after_answer(REFERENCES_ATTEMPTS, true), AttemptStep::Take);
}

fn document_at(path: &str, text: &str) -> SourceDocument {
    SourceDocument::new(path, Ok(path.to_owned()), text.to_owned()).expect("a document")
}

#[test]
fn test_new_from_a_typescript_file_names_the_language_as_typescript() {
    let document = document_at("/repo/tests/fixtures/billing/discount.ts", "export const a = 1;");

    assert_eq!(document.to_text_document_item().language_id, "typescript");
}

#[test]
fn test_new_from_a_tsx_file_names_the_language_as_typescriptreact() {
    let document =
        document_at("/repo/tests/fixtures/scan/src/report/Badge.tsx", "export const a = 1;");

    assert_eq!(document.to_text_document_item().language_id, "typescriptreact");
    assert_eq!(document.language_id(), LanguageId::TypeScriptReact);
}

#[test]
fn test_new_keeps_the_text_it_was_given() {
    let text = "export function pad(value: string): string {\n  return value;\n}\n";

    let document = document_at("/repo/tests/fixtures/billing/discount.ts", text);

    assert_eq!(document.to_text_document_item().text, text);
}

#[test]
fn test_new_from_a_relative_path_still_produces_an_absolute_uri() {
    let document = SourceDocument::new(
        "tests/fixtures/billing/discount.ts",
        Ok("/repo/tests/fixtures/billing/discount.ts".to_owned()),
        "export const a = 1;".to_owned(),
    )
    .expect("a document");

    let uri = document.uri().as_str().to_owned();
    assert!(
        uri.starts_with("file:///") && uri.ends_with("/tests/fixtures/billing/discount.ts"),
        "{uri}"
    );
    assert_eq!(document.uri_text(), uri);
}

#[test]
fn test_new_from_a_file_that_is_not_source_reports_the_extension() {
    let path = "/repo/tests/fixtures/scan/src/notes.md";

    let error = SourceDocument::new(path, Ok(path.to_owned()), String::new())
        .expect_err("no grammar reads it");

    assert!(matches!(
        error,
        DocumentError::UnreadableExtension { path: reported } if reported == path
    ));
}

#[test]
fn test_new_from_a_missing_file_reports_which_one() {
    let missing = "/repo/tests/fixtures/billing/dryguard-no-such-file.ts";

    let error = SourceDocument::new(
        missing,
        Err("No such file or directory (os error 2)".to_owned()),
        String::new(),
    )
    .expect_err("nothing to resolve");

    assert!(matches!(
        error,
        DocumentError::PathUnresolvable { path, .. } if path == missing
    ));
}

#[test]
fn test_new_from_a_path_that_resolved_to_a_relative_one_has_no_uri() {
    let error = SourceDocument::new("a.ts", Ok("a.ts".to_owned()), String::new())
        .expect_err("no URI for a relative path");

    assert!(matches!(error, DocumentError::Uri(PathUriError::NotAbsolute { .. })));
}

#[test]
fn test_to_text_document_item_starts_at_the_first_version() {
    let document = document_at("/repo/tests/fixtures/billing/discount.ts", "");

    assert_eq!(document.to_text_document_item().version, 1);
    assert_eq!(INITIAL_VERSION, 1);
}

fn capabilities_declaring_hover(hover_provider: Option<HoverProviderCapability>) -> ServerCapabilities {
    ServerCapabilities { hover_provider, ..ServerCapabilities::default() }
}

#[test]
fn test_provides_hover_with_a_server_that_declares_it_is_true() {
    let capabilities = capabilities_declaring_hover(Some(HoverProviderCapability::Simple(true)));

    assert!(provides_hover(&capabilities));
}

#[test]
fn test_provides_hover_with_a_server_that_turned_it_off_is_false() {
    let capabilities = capabilities_declaring_hover(Some(HoverProviderCapability::Simple(false)));

    assert!(!provides_hover(&capabilities));
}

#[test]
fn test_provides_hover_with_a_server_that_does_not_declare_it_is_false() {
    let capabilities = capabilities_declaring_hover(None);

    assert!(!provides_hover(&capabilities));
}

fn capabilities_declaring_references(
    references_provider: Option<OneOf<bool, ReferencesOptions>>,
) -> ServerCapabilities {
    ServerCapabilities { references_provider, ..ServerCapabilities::default() }
}

#[test]
fn test_provides_references_with_a_server_that_declares_it_is_true() {
    let capabilities = capabilities_declaring_references(Some(OneOf::Left(true)));

    assert!(provides_references(&capabilities));
}

#[test]
fn test_provides_references_with_a_server_that_turned_it_off_is_false() {
    let capabilities = capabilities_declaring_references(Some(OneOf::Left(false)));

    assert!(!provides_references(&capabilities));
}

#[test]
fn test_provides_references_with_a_server_that_does_not_declare_it_is_false() {
    let capabilities = capabilities_declaring_references(None);

    assert!(!provides_references(&capabilities));
}

#[test]
fn test_provides_references_with_options_is_true() {
    let capabilities = capabilities_declaring_references(Some(OneOf::Right(
        ReferencesOptions { work_done_progress_options: Default::default() },
    )));

    assert!(provides_references(&capabilities));
    assert!(provided(Provision::WithOptions));
    assert!(!provided(Provision::Undeclared));
}
