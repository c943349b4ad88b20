use std::str::FromStr;

use lsp_types::{
    CallHierarchyItem, CallHierarchyOutgoingCall, Hover, HoverContents, MarkedString,
    MarkupContent, MarkupKind, Position, Range, SymbolKind, Uri,
};
use serde_json::Value;

use dryguard::lsp::call_hierarchy::{self, CallHierarchyStart, CalleesOutcome};
use dryguard::lsp::hover::{self, HoverOutcome, SignatureText};
use dryguard::lsp::project_membership::{
    config_file_name_of, outcome_of_config, ProjectMembershipOutcome,
};
use dryguard::lsp::references::{self, ReferencesOutcome};
use dryguard::lsp::uri::{paths_of_readings, UriPathError};

fn signature_text(text: &str) -> SignatureText {
    SignatureText::new(text.to_owned()).expect("the text has a non-blank character")
}

fn markdown_hover(value: &str) -> Hover {
    Hover {
        contents: HoverContents::Markup(MarkupContent {
            kind: MarkupKind::Markdown,
            value: value.to_owned(),
        }),
        range: None,
    }
}

#[test]
fn test_hover_outcome_of_a_fenced_answer_is_the_text_inside_the_fence() {
    let hover = markdown_hover("\n```typescript\nfunction decl(a: string): number\n```\n");

    assert_eq!(
        hover::outcome_of(&hover),
        HoverOutcome::Answered(signature_text("function decl(a: string): number"))
    );
}

#[test]
fn test_hover_outcome_of_a_fence_broken_over_lines_keeps_every_line() {
    let hover = markdown_hover(
        "```typescript\nfunction constrained<T extends {\n    id: string;\n}, U>(a: T, b: U): [T, U]\n```",
    );

    assert_eq!(
        hover::outcome_of(&hover),
        HoverOutcome::Answered(signature_text(
            "function constrained<T extends {\n    id: string;\n}, U>(a: T, b: U): [T, U]"
        ))
    );
}

#[test]
fn test_hover_outcome_of_an_answer_with_a_doc_comment_stops_at_the_first_fence() {
    let hover = markdown_hover(
        "```typescript\nfunction decl(a: string): number\n```\n---\n```typescript\n説明\n```",
    );

    assert_eq!(
        hover::outcome_of(&hover),
        HoverOutcome::Answered(signature_text("function decl(a: string): number"))
    );
}

#[test]
fn test_hover_outcome_of_a_fence_without_a_language_name_is_still_read() {
    let hover = markdown_hover("```\nfn decl(a: &str) -> usize\n```");

    assert_eq!(
        hover::outcome_of(&hover),
        HoverOutcome::Answered(signature_text("fn decl(a: &str) -> usize"))
    );
}

#[test]
fn test_hover_outcome_of_an_answer_without_a_fence_is_not_read() {
    let hover = markdown_hover("function decl(a: string): number");

    assert_eq!(hover::outcome_of(&hover), HoverOutcome::Unreadable);
}

#[test]
fn test_hover_outcome_of_an_empty_fence_is_not_read() {
    let hover = markdown_hover("```typescript\n```");

    assert_eq!(hover::outcome_of(&hover), HoverOutcome::Unreadable);
}

#[test]
fn test_hover_outcome_of_a_deprecated_content_form_is_unreadable_not_absent() {
    let hover = Hover {
        contents: HoverContents::Scalar(MarkedString::String(
            "function decl(a: string): number".to_owned(),
        )),
        range: None,
    };

    assert_eq!(hover::outcome_of(&hover), HoverOutcome::Unreadable);
}

fn uri(text: &str) -> Uri {
    Uri::from_str(text).expect("the text is a URI")
}

/// The URI of each reference a server answered, as `Location::uri` carries it.
fn reference(text: &str) -> Uri {
    uri(text)
}

fn reference_paths_of(locations: &[Uri]) -> Vec<String> {
    match references::outcome_of(locations) {
        ReferencesOutcome::Answered(paths) => paths,
        other => panic!("the references are read: {other:?}"),
    }
}

#[test]
fn test_references_outcome_of_answers_in_separate_files_keeps_every_file() {
    let locations = [
        reference("file:///repo/src/billing/invoice.ts"),
        reference("file:///repo/src/inventory/stock.ts"),
    ];

    assert_eq!(
        reference_paths_of(&locations),
        vec![
            "/repo/src/billing/invoice.ts".to_owned(),
            "/repo/src/inventory/stock.ts".to_owned(),
        ]
    );
}

#[test]
fn test_references_outcome_of_two_answers_in_one_file_keeps_both() {
    let locations = [
        reference("file:///repo/src/billing/invoice.ts"),
        reference("file:///repo/src/billing/invoice.ts"),
    ];

    assert_eq!(reference_paths_of(&locations).len(), 2);
}

#[test]
fn test_references_outcome_of_an_encoded_uri_is_the_path_it_spells() {
    let locations = [reference("file:///repo/my%20project/invoice.ts")];

    assert_eq!(
        reference_paths_of(&locations),
        vec!["/repo/my project/invoice.ts".to_owned()]
    );
}

#[test]
fn test_references_outcome_of_no_answers_is_not_an_empty_answer() {
    assert!(matches!(references::outcome_of(&[]), ReferencesOutcome::NoAnswer));
}

#[test]
fn test_references_outcome_of_answers_including_an_unreadable_uri_is_not_partially_read() {
    let locations = [
        reference("file:///repo/src/billing/invoice.ts"),
        reference("untitled:Untitled-1"),
    ];

    assert!(matches!(
        references::outcome_of(&locations),
        ReferencesOutcome::Unreadable { .. }
    ));
}

#[test]
fn test_references_outcome_of_readings_reports_the_first_uri_it_could_not_read() {
    let readings = vec![
        Ok("/repo/a.ts".to_owned()),
        Err(UriPathError::NotAFileUri { uri: "untitled:1".to_owned() }),
        Err(UriPathError::HasAuthority { uri: "file://host/b.ts".to_owned() }),
    ];

    match references::outcome_of_readings(readings) {
        ReferencesOutcome::Unreadable { cause } => assert_eq!(
            cause,
            UriPathError::NotAFileUri { uri: "untitled:1".to_owned() }
        ),
        other => panic!("the first unreadable URI decides: {other:?}"),
    }
}

#[test]
fn test_paths_of_readings_keeps_every_path_in_order() {
    let readings = vec![Ok("/b.ts".to_owned()), Ok("/a.ts".to_owned())];

    assert_eq!(
        paths_of_readings(readings),
        Ok(vec!["/b.ts".to_owned(), "/a.ts".to_owned()])
    );
}

fn item(text: &str) -> CallHierarchyItem {
    CallHierarchyItem {
        name: "applyDiscount".to_owned(),
        kind: SymbolKind::FUNCTION,
        tags: None,
        detail: None,
        uri: uri(text),
        range: Range::new(Position::new(0, 0), Position::new(0, 0)),
        selection_range: Range::new(Position::new(0, 0), Position::new(0, 0)),
        data: None,
    }
}

fn outgoing_call(text: &str, call_sites: u32) -> CallHierarchyOutgoingCall {
    CallHierarchyOutgoingCall {
        to: item(text),
        from_ranges: (0..call_sites)
            .map(|line| Range::new(Position::new(line, 0), Position::new(line, 0)))
            .collect(),
    }
}

fn callee_paths_of(calls: &[CallHierarchyOutgoingCall]) -> Vec<String> {
    match call_hierarchy::outcome_of(calls) {
        CalleesOutcome::Answered(paths) => paths,
        other => panic!("the callees are read: {other:?}"),
    }
}

#[test]
fn test_start_of_one_item_is_that_item() {
    let items = [item("file:///repo/src/billing/invoice.ts")];

    assert!(matches!(
        call_hierarchy::start_of(&items),
        CallHierarchyStart::Item(started) if started.name == "applyDiscount"
    ));
}

#[test]
fn test_start_of_no_items_is_not_an_absent_callee_set() {
    assert!(matches!(
        call_hierarchy::start_of(&[]),
        CallHierarchyStart::Undecidable(CalleesOutcome::NoItem)
    ));
}

#[test]
fn test_start_of_several_items_does_not_take_the_first_one() {
    let items = [
        item("file:///repo/src/billing/invoice.ts"),
        item("file:///repo/src/inventory/stock.ts"),
    ];

    assert!(matches!(
        call_hierarchy::start_of(&items),
        CallHierarchyStart::Undecidable(CalleesOutcome::SeveralItems { count: 2 })
    ));
}

#[test]
fn test_callees_outcome_of_calls_into_separate_files_keeps_every_file() {
    let calls = [
        outgoing_call("file:///repo/src/utils/pad.ts", 1),
        outgoing_call("file:///repo/src/utils/round.ts", 1),
    ];

    assert_eq!(
        callee_paths_of(&calls),
        vec![
            "/repo/src/utils/pad.ts".to_owned(),
            "/repo/src/utils/round.ts".to_owned(),
        ]
    );
}

#[test]
fn test_callees_outcome_of_two_callees_in_one_file_keeps_both() {
    let calls = [
        outgoing_call("file:///repo/src/utils/pad.ts", 1),
        outgoing_call("file:///repo/src/utils/pad.ts", 1),
    ];

    assert_eq!(callee_paths_of(&calls).len(), 2);
}

#[test]
fn test_callees_outcome_of_one_callee_called_twice_is_counted_once() {
    let calls = [outgoing_call("file:///repo/src/utils/pad.ts", 2)];

    assert_eq!(callee_paths_of(&calls).len(), 1);
}

#[test]
fn test_callees_outcome_of_an_encoded_uri_is_the_path_it_spells() {
    let calls = [outgoing_call("file:///repo/my%20project/pad.ts", 1)];

    assert_eq!(
        callee_paths_of(&calls),
        vec!["/repo/my project/pad.ts".to_owned()]
    );
}

#[test]
fn test_callees_outcome_of_no_calls_is_not_an_empty_answer() {
    assert!(matches!(
        call_hierarchy::outcome_of(&[]),
        CalleesOutcome::NoCallees
    ));
}

#[test]
fn test_callees_outcome_of_calls_including_an_unreadable_uri_is_not_partially_read() {
    let calls = [
        outgoing_call("file:///repo/src/utils/pad.ts", 1),
        outgoing_call("untitled:Untitled-1", 1),
    ];

    assert!(matches!(
        call_hierarchy::outcome_of(&calls),
        CalleesOutcome::Unreadable { .. }
    ));
}

fn object(members: Vec<(&str, Value)>) -> Value {
    let mut map = serde_json::Map::new();
    for (key, value) in members {
        map.insert(key.to_owned(), value);
    }
    Value::Object(map)
}

/// A project information response around `body`.
fn response(body: Value) -> Value {
    object(vec![
        ("seq", Value::from(0)),
        ("type", Value::from("response")),
        ("command", Value::from("projectInfo")),
        ("request_seq", Value::from(1)),
        ("success", Value::from(true)),
        ("body", body),
    ])
}

/// What a response naming `config` comes to, given whether a file lies there.
fn outcome_naming(config: &str, config_is_file: bool) -> Option<ProjectMembershipOutcome> {
    let result = response(object(vec![
        ("configFileName", Value::from(config)),
        ("languageServiceDisabled", Value::from(false)),
    ]));
    let named = config_file_name_of(&result)?;
    Some(outcome_of_config(named, config_is_file))
}

#[test]
fn test_outcome_of_an_existing_config_file_is_a_configured_project() {
    let config = "/repo/tests/fixtures/references/src/tsconfig.json";

    assert_eq!(
        outcome_naming(config, true),
        Some(ProjectMembershipOutcome::Configured { config: config.to_owned() })
    );
}

#[test]
fn test_outcome_of_a_config_file_not_named_by_a_marker_is_still_a_configured_project() {
    let config = "/repo/tests/fixtures/solution-project/tsconfig.app.json";

    assert_eq!(
        outcome_naming(config, true),
        Some(ProjectMembershipOutcome::Configured { config: config.to_owned() })
    );
}

#[test]
fn test_outcome_of_a_project_the_server_built_itself_is_an_inferred_project() {
    let outcome = outcome_naming("/dev/null/inferredProject1*", false);

    assert_eq!(outcome, Some(ProjectMembershipOutcome::Inferred));
}

#[test]
fn test_outcome_of_a_response_without_a_body_is_not_read() {
    let result = object(vec![
        ("seq", Value::from(0)),
        ("type", Value::from("response")),
        ("command", Value::from("projectInfo")),
        ("request_seq", Value::from(1)),
        ("success", Value::from(false)),
        ("message", Value::from("no project")),
    ]);

    assert_eq!(config_file_name_of(&result), None);
}

#[test]
fn test_outcome_of_a_body_without_a_config_file_name_is_not_read() {
    let result = response(object(vec![("languageServiceDisabled", Value::from(false))]));

    assert_eq!(config_file_name_of(&result), None);
}

#[test]
fn test_outcome_of_a_config_file_name_that_is_not_text_is_not_read() {
    let result = response(object(vec![
        ("configFileName", Value::from(12)),
        ("languageServiceDisabled", Value::from(false)),
    ]));

    assert_eq!(config_file_name_of(&result), None);
}

fn declared_at(text: &str, line: u32, character: u32) -> lsp_types::Location {
    lsp_types::Location {
        uri: uri(text),
        range: Range::new(Position::new(line, character), Position::new(line, character + 1)),
    }
}

fn site_of_response(
    answered: &lsp_types::GotoDefinitionResponse,
) -> dryguard::lsp::type_definition::DeclarationSite {
    match dryguard::lsp::type_definition::outcome_of(answered) {
        dryguard::lsp::type_definition::TypeDefinitionOutcome::Answered(site) => site,
        other => panic!("the declaration is read: {other:?}"),
    }
}

#[test]
fn test_type_definition_outcome_of_a_single_location_is_the_file_it_names() {
    let answered = lsp_types::GotoDefinitionResponse::Scalar(declared_at(
        "file:///repo/src/billing/money.ts",
        0,
        12,
    ));

    assert_eq!(site_of_response(&answered).path(), "/repo/src/billing/money.ts");
}

#[test]
fn test_type_definition_outcome_of_a_location_keeps_the_position_the_server_named() {
    let answered = lsp_types::GotoDefinitionResponse::Scalar(declared_at(
        "file:///repo/src/billing/money.ts",
        4,
        12,
    ));

    let site = site_of_response(&answered);

    assert_eq!(site.position().line().get(), 5);
    assert_eq!(site.position().character(), 12);
}

#[test]
fn test_type_definition_outcome_of_several_locations_is_the_first_of_them() {
    let answered = lsp_types::GotoDefinitionResponse::Array(vec![
        declared_at("file:///repo/src/billing/money.ts", 0, 12),
        declared_at("file:///repo/src/report/money.ts", 0, 12),
    ]);

    assert_eq!(site_of_response(&answered).path(), "/repo/src/billing/money.ts");
}

#[test]
fn test_type_definition_outcome_of_a_link_points_at_the_name_not_the_whole_declaration() {
    let link = lsp_types::LocationLink {
        origin_selection_range: None,
        target_uri: uri("file:///repo/src/billing/money.ts"),
        target_range: Range::new(Position::new(3, 0), Position::new(3, 28)),
        target_selection_range: Range::new(Position::new(3, 12), Position::new(3, 18)),
    };
    let answered = lsp_types::GotoDefinitionResponse::Link(vec![link]);

    assert_eq!(site_of_response(&answered).position().character(), 12);
}

#[test]
fn test_type_definition_outcome_of_no_locations_is_not_an_empty_answer() {
    assert!(matches!(
        dryguard::lsp::type_definition::outcome_of(&lsp_types::GotoDefinitionResponse::Array(
            Vec::new()
        )),
        dryguard::lsp::type_definition::TypeDefinitionOutcome::NoAnswer
    ));
}

#[test]
fn test_type_definition_outcome_of_an_unreadable_uri_is_not_an_absent_answer() {
    let answered =
        lsp_types::GotoDefinitionResponse::Scalar(declared_at("untitled:Untitled-1", 0, 0));

    assert!(matches!(
        dryguard::lsp::type_definition::outcome_of(&answered),
        dryguard::lsp::type_definition::TypeDefinitionOutcome::Unreadable { .. }
    ));
}

#[test]
fn test_declaration_site_new_makes_its_uri_from_the_path() {
    let position = dryguard::source_position::SourcePosition::from_lsp(2, 7);

    let site = dryguard::lsp::type_definition::DeclarationSite::new("/repo/src/a b.ts", position)
        .expect("an absolute path has a URI");

    assert_eq!(site.uri().as_str(), "file:///repo/src/a%20b.ts");
    assert_eq!(site.position(), position);
}

#[test]
fn test_source_position_goes_back_to_the_line_a_server_counts() {
    let position = dryguard::source_position::SourcePosition::from_lsp(4, 16);

    assert_eq!(position.line().get(), 5);
    assert_eq!(position.lsp_line(), 4);
    assert_eq!(position.to_lsp_position(), Position::new(4, 16));
}

#[test]
fn test_references_outcome_of_a_result_reads_each_uri_in_order() {
    let result: serde_json::Value = serde_json::from_str(
        r#"[{"uri":"file:///repo/src/b.ts","range":{"start":{"line":0,"character":0},"end":{"line":0,"character":1}}},{"uri":"file:///repo/src/a.ts","range":{"start":{"line":2,"character":0},"end":{"line":2,"character":1}}}]"#,
    )
    .unwrap();
    match dryguard::lsp::references::outcome_of_result(result).unwrap() {
        dryguard::lsp::references::ReferencesOutcome::Answered(paths) => {
            assert_eq!(paths, vec!["/repo/src/b.ts".to_string(), "/repo/src/a.ts".to_string()]);
        }
        other => panic!("expected the files in order: {other:?}"),
    }
}

#[test]
fn test_references_outcome_of_a_null_result_is_no_answer() {
    let result: serde_json::Value = serde_json::from_str("null").unwrap();
    assert!(matches!(
        dryguard::lsp::references::outcome_of_result(result).unwrap(),
        dryguard::lsp::references::ReferencesOutcome::NoAnswer
    ));
}

#[test]
fn test_references_outcome_of_a_result_of_another_shape_is_an_error() {
    let result: serde_json::Value = serde_json::from_str(r#"{"uri": 3}"#).unwrap();
    assert!(dryguard::lsp::references::outcome_of_result(result).is_err());
}

#[test]
fn test_hover_outcome_of_a_result_reads_the_fenced_signature() {
    let result: Value = serde_json::from_str(
        r#"{"contents":{"kind":"markdown","value":"```typescript\nfunction f(a: number): string\n```"}}"#,
    )
    .unwrap();
    match hover::outcome_of_result(result).unwrap() {
        HoverOutcome::Answered(signature) => {
            assert_eq!(signature.as_str(), "function f(a: number): string")
        }
        other => panic!("expected the signature: {other:?}"),
    }
}

#[test]
fn test_hover_outcome_of_a_null_result_is_no_answer() {
    let result: Value = serde_json::from_str("null").unwrap();
    assert_eq!(hover::outcome_of_result(result).unwrap(), HoverOutcome::NoAnswer);
}

#[test]
fn test_hover_outcome_of_a_result_of_another_shape_is_an_error() {
    let result: Value = serde_json::from_str("[1, 2]").unwrap();
    assert!(hover::outcome_of_result(result).is_err());
}
