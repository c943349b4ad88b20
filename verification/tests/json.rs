use serde_json::Value;

use dryguard::classification::signal::{
    CallerDomainOverlap, ImportOverlap, MeasuredCallerDomains, SemanticsUnavailable, Signals,
    StructuralSimilarity, TypeSignatureMatch,
};
use dryguard::classification::{classification_of, ConfiguredThresholds};
use dryguard::domain_declaration::DomainDeclarations;
use dryguard::line_number::LineNumber;
use dryguard::location::Location;
use dryguard::json::JsonValue;
use dryguard::report::json::json_of;
use dryguard::report::Explanation;
use dryguard::semantics::caller_domain::CallerDomains;
use dryguard::similarity::Similarity;
use dryguard::syntax::import::ImportsUnavailable;
use dryguard::syntax::module_distance::ModuleDistance;
use dryguard::threshold::Threshold;

/// The JSON a report value prints as: a ratio becomes the number it divides to.
fn printed(value: &JsonValue) -> Value {
    match value {
        JsonValue::Null => Value::Null,
        JsonValue::Bool(b) => Value::Bool(*b),
        JsonValue::Integer(n) => Value::from(*n),
        JsonValue::Embedded(embedded) => embedded.clone(),
        JsonValue::Natural(n) => Value::from(*n),
        JsonValue::Ratio { numerator, denominator } => {
            Value::from(*numerator as f64 / *denominator as f64)
        }
        JsonValue::Text(text) => Value::from(text.as_str()),
        JsonValue::Array(items) => Value::Array(items.iter().map(printed).collect()),
        JsonValue::Object(members) => {
            let mut map = serde_json::Map::new();
            for (key, member) in members {
                map.insert(key.clone(), printed(member));
            }
            Value::Object(map)
        }
    }
}

fn measured(shared: u128, total: u128) -> Similarity {
    Similarity::new(shared, total).expect("a ratio between 0 and 1")
}

fn location(path: &str, line: usize) -> Location {
    Location::new(path.to_owned(), LineNumber::new(line).expect("a positive line"))
}

fn separate_directories() -> ModuleDistance {
    ModuleDistance::between("src/billing/discount.ts", "src/inventory/reorder.ts")
}

fn accidental_duplication() -> Signals {
    Signals::new(
        StructuralSimilarity::Measured(measured(91, 100)),
        ImportOverlap::Measured(measured(0, 1)),
        separate_directories(),
    )
}

fn explained_json_of_signals(
    signals: &Signals,
    threshold: Threshold,
    explanation: Explanation,
) -> Value {
    let value = json_of(
        &location("src/billing/discount.ts", 42),
        &location("src/inventory/reorder.ts", 18),
        &classification_of(
            signals,
            ConfiguredThresholds::default().with_structural_similarity(threshold),
        ),
        explanation,
    );
    let text = format!("{:#}", printed(&value));

    serde_json::from_str(&text).expect("the JSON reads back")
}

fn json_of_signals(signals: &Signals, explanation: Explanation) -> Value {
    explained_json_of_signals(signals, Threshold::half(), explanation)
}

/// The reason given for `signal`.
fn reason_of(json: &Value, signal: &str) -> Value {
    let reasons = json["reasons"].as_array().expect("the reasons are an array");
    reasons
        .iter()
        .find(|reason| reason["signal"] == signal)
        .cloned()
        .unwrap_or_else(|| panic!("a reason for {signal}: {json:#}"))
}

fn signal_names_of(json: &Value) -> Vec<String> {
    json["reasons"]
        .as_array()
        .expect("the reasons are an array")
        .iter()
        .map(|reason| reason["signal"].as_str().unwrap_or_default().to_owned())
        .collect()
}

#[test]
fn test_json_of_reports_the_verdict_with_the_same_label_as_the_text() {
    let json = json_of_signals(&accidental_duplication(), Explanation::AskedSignals);

    assert_eq!(json["verdict"], "DO-NOT-EXTRACT");
}

#[test]
fn test_json_of_reports_both_locations_as_a_file_and_a_line() {
    let json = json_of_signals(&accidental_duplication(), Explanation::AskedSignals);

    assert_eq!(json["location_a"]["file"], "src/billing/discount.ts");
    assert_eq!(json["location_a"]["line"], 42);
    assert_eq!(json["location_b"]["file"], "src/inventory/reorder.ts");
    assert_eq!(json["location_b"]["line"], 18);
}

#[test]
fn test_json_of_reports_the_same_suggestion_as_the_text() {
    let json = json_of_signals(&accidental_duplication(), Explanation::AskedSignals);

    assert_eq!(
        json["suggestion"],
        "偶発的な重複の可能性が高い。共通化せず分離を維持する。"
    );
}

#[test]
fn test_json_of_reports_a_measured_signal_with_its_value_and_lean() {
    let json = json_of_signals(&accidental_duplication(), Explanation::AskedSignals);

    let reason = reason_of(&json, "structural-similarity");
    assert_eq!(reason["value"]["status"], "measured");
    assert_eq!(reason["value"]["similarity"], 0.91);
    assert_eq!(reason["lean"], "toward-extract");
}

#[test]
fn test_json_of_without_explain_still_reports_the_structural_similarity_threshold() {
    let json = explained_json_of_signals(
        &accidental_duplication(),
        Threshold::new(75, 2).expect("0.75"),
        Explanation::AskedSignals,
    );

    assert_eq!(reason_of(&json, "structural-similarity")["threshold"], 0.75);
}

#[test]
fn test_json_of_with_an_unmeasurable_structural_similarity_omits_the_threshold() {
    let signals = Signals::new(
        StructuralSimilarity::NoTokens,
        ImportOverlap::Measured(measured(0, 1)),
        separate_directories(),
    );

    let json = json_of_signals(&signals, Explanation::AskedSignals);

    let reason = reason_of(&json, "structural-similarity");
    assert_eq!(reason["value"]["status"], "unmeasurable");
    assert_eq!(reason["value"]["reason"], "no-tokens");
    assert!(reason.get("threshold").is_none(), "{reason:#}");
}

#[test]
fn test_json_of_without_explain_omits_the_threshold_of_a_hardcoded_signal() {
    let json = json_of_signals(&accidental_duplication(), Explanation::AskedSignals);

    let reason = reason_of(&json, "import-overlap");
    assert_eq!(reason["value"]["overlap"], 0.0);
    assert!(reason.get("threshold").is_none(), "{reason:#}");
}

#[test]
fn test_json_of_with_explain_reports_the_threshold_of_a_hardcoded_signal() {
    let json = json_of_signals(&accidental_duplication(), Explanation::AllSignals);

    assert!(
        reason_of(&json, "import-overlap")["threshold"].is_number(),
        "{json:#}"
    );
}

#[test]
fn test_json_of_with_explain_reports_the_steps_it_counted_as_separate() {
    let json = json_of_signals(&accidental_duplication(), Explanation::AllSignals);

    let reason = reason_of(&json, "module-distance");
    assert_eq!(reason["value"]["steps"], 2);
    assert!(reason["separate_directory_steps"].is_number(), "{reason:#}");
    assert!(reason.get("threshold").is_none(), "{reason:#}");
}

#[test]
fn test_json_of_without_explain_omits_a_signal_it_did_not_ask_for() {
    let json = json_of_signals(&accidental_duplication(), Explanation::AskedSignals);

    let names = signal_names_of(&json);
    assert!(
        names.iter().any(|name| name.contains("structural-similarity")),
        "{names:?}"
    );
    assert!(
        !names.iter().any(|name| name.contains("type-signature-match")),
        "{names:?}"
    );
}

#[test]
fn test_json_of_with_explain_reports_a_signal_it_did_not_ask_for_as_not_asked() {
    let json = json_of_signals(&accidental_duplication(), Explanation::AllSignals);

    let reason = reason_of(&json, "type-signature-match");
    assert_eq!(reason["value"]["status"], "not-asked");
    assert_eq!(reason["value"]["reason"], "stage-1-only");
}

#[test]
fn test_json_of_reports_a_unifiable_type_signature_as_a_measured_value() {
    let signals = accidental_duplication()
        .with_semantics(TypeSignatureMatch::Unifiable, CallerDomainOverlap::NoReferences);

    let json = json_of_signals(&signals, Explanation::AskedSignals);

    let reason = reason_of(&json, "type-signature-match");
    assert_eq!(reason["value"]["status"], "measured");
    assert_eq!(reason["value"]["unifiable"], true);
}

#[test]
fn test_json_of_keeps_the_line_of_an_import_declaration_it_could_not_read() {
    let signals = Signals::new(
        StructuralSimilarity::Measured(measured(91, 100)),
        ImportOverlap::Unavailable(ImportsUnavailable::UnreadableDeclaration {
            line: LineNumber::new(12).expect("a positive line"),
        }),
        separate_directories(),
    );

    let json = json_of_signals(&signals, Explanation::AskedSignals);

    let value = reason_of(&json, "import-overlap")["value"].clone();
    assert_eq!(value["reason"], "unreadable-declaration");
    assert_eq!(value["line"], 12);
}

#[test]
fn test_json_of_keeps_both_overload_counts_it_could_not_line_up() {
    let signals = accidental_duplication().with_semantics(
        TypeSignatureMatch::OverloadSetMiscounted { counted: 3, found: 1 },
        CallerDomainOverlap::NoReferences,
    );

    let json = json_of_signals(&signals, Explanation::AskedSignals);

    let value = reason_of(&json, "type-signature-match")["value"].clone();
    assert_eq!(value["reason"], "overload-set-miscounted");
    assert_eq!(value["counted"], 3);
    assert_eq!(value["found"], 1);
}

#[test]
fn test_json_of_keeps_the_project_markers_the_server_looked_for() {
    let signals = accidental_duplication().with_semantics(
        TypeSignatureMatch::NoName,
        CallerDomainOverlap::ProjectUnrooted {
            markers: vec!["tsconfig.json".to_owned(), "jsconfig.json".to_owned()],
        },
    );

    let json = json_of_signals(&signals, Explanation::AskedSignals);

    let value = reason_of(&json, "caller-domain-overlap")["value"].clone();
    assert_eq!(value["reason"], "project-unrooted");
    assert_eq!(value["project_markers"][0], "tsconfig.json");
    assert_eq!(value["project_markers"][1], "jsconfig.json");
}

fn callers_of(path: &str) -> CallerDomains {
    CallerDomains::from_reference_paths(&[path.to_owned()], &DomainDeclarations::empty())
        .expect("not claimed by two declarations")
        .expect("one reference")
}

#[test]
fn test_json_of_reports_the_caller_domains_of_both_sides() {
    let signals = accidental_duplication().with_semantics(
        TypeSignatureMatch::NoName,
        CallerDomainOverlap::Measured(MeasuredCallerDomains::new(
            callers_of("/repo/src/billing/invoice.ts"),
            callers_of("/repo/src/inventory/stock.ts"),
        )),
    );

    let json = json_of_signals(&signals, Explanation::AskedSignals);

    let value = reason_of(&json, "caller-domain-overlap")["value"].clone();
    assert_eq!(value["overlap"], 0.0);
    assert_eq!(value["callers_a"][0]["domain"], "/repo/src/billing");
    assert_eq!(value["callers_a"][0]["references"], 1);
    assert_eq!(value["callers_b"][0]["domain"], "/repo/src/inventory");
}

#[test]
fn test_json_of_a_pair_not_similar_enough_reports_the_semantic_signals_as_not_asked() {
    let signals = accidental_duplication().with_semantics(
        TypeSignatureMatch::Unavailable { reason: SemanticsUnavailable::NotACandidate },
        CallerDomainOverlap::Unavailable { reason: SemanticsUnavailable::NotACandidate },
    );

    let json = json_of_signals(&signals, Explanation::AskedSignals);

    let value = reason_of(&json, "caller-domain-overlap")["value"].clone();
    assert_eq!(value["status"], "not-asked");
    assert_eq!(value["reason"], "not-a-candidate");
}

#[test]
fn test_json_of_gives_the_reasons_in_the_order_the_text_prints_them() {
    let json = json_of_signals(&accidental_duplication(), Explanation::AllSignals);

    assert_eq!(
        signal_names_of(&json),
        vec![
            "structural-similarity",
            "import-overlap",
            "module-distance",
            "type-signature-match",
            "caller-domain-overlap",
        ]
    );
}

#[test]
fn test_json_of_a_threshold_is_the_fraction_it_was_written_as() {
    let value = json_of(
        &location("a.ts", 1),
        &location("b.ts", 2),
        &classification_of(
            &accidental_duplication(),
            ConfiguredThresholds::default()
                .with_structural_similarity(Threshold::new(625, 3).expect("0.625")),
        ),
        Explanation::AskedSignals,
    );

    let JsonValue::Object(members) = &value else { panic!("an object") };
    let (_, JsonValue::Array(reasons)) = &members[3] else { panic!("the reasons") };
    let JsonValue::Object(reason) = &reasons[0] else { panic!("a reason") };
    assert!(matches!(
        reason[3],
        (ref key, JsonValue::Ratio { numerator: 625, denominator: 1000 }) if key == "threshold"
    ));
}
