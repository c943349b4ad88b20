use dryguard::classification::ConfiguredThresholds;
use dryguard::config::{configuration_of_text, Configuration, MalformedReason, CONFIG_FILE_NAME};
use dryguard::domain_declaration::DomainPatternError;
use dryguard::threshold::{Threshold, ThresholdParseError};

const ROOT: &str = "/repo";

fn threshold(numerator: u64) -> Threshold {
    Threshold::new(numerator, 1).expect("a tenth below one")
}

fn structural_similarity() -> Threshold {
    threshold(8)
}

fn shared_imports() -> Threshold {
    threshold(7)
}

fn shared_caller_domains() -> Threshold {
    threshold(6)
}

fn configuration_of_spelling(text: &str) -> Configuration {
    configuration_of_text(text, ROOT).expect("a readable spelling")
}

fn thresholds_of_spelling(text: &str) -> ConfiguredThresholds {
    configuration_of_spelling(text).thresholds()
}

fn declared_domain_of_spelling(text: &str, path: &str) -> Option<String> {
    configuration_of_spelling(text)
        .domain_declarations()
        .declared_domain_of(path)
        .expect("not claimed by two declarations")
        .map(|domain| domain.as_str().to_owned())
}

fn reason_of_spelling(text: &str) -> MalformedReason {
    let malformed = configuration_of_text(text, ROOT).expect_err("an unreadable spelling");
    malformed.reason().clone()
}

fn line_of_spelling(text: &str) -> usize {
    configuration_of_text(text, ROOT).expect_err("an unreadable spelling").line().get()
}

#[test]
fn test_empty_settings_leave_every_threshold_at_its_default() {
    assert_eq!(thresholds_of_spelling(""), ConfiguredThresholds::default());
}

#[test]
fn test_structural_similarity_key_moves_only_that_threshold() {
    let thresholds = thresholds_of_spelling("[thresholds]\nstructural_similarity = 0.8\n");

    assert_eq!(
        thresholds,
        ConfiguredThresholds::default().with_structural_similarity(structural_similarity())
    );
}

#[test]
fn test_shared_imports_key_moves_only_that_threshold() {
    let thresholds = thresholds_of_spelling("[thresholds]\nshared_imports = 0.7\n");

    assert_eq!(thresholds, ConfiguredThresholds::default().with_shared_imports(shared_imports()));
}

#[test]
fn test_shared_caller_domains_key_moves_only_that_threshold() {
    let thresholds = thresholds_of_spelling("[thresholds]\nshared_caller_domains = 0.6\n");

    assert_eq!(
        thresholds,
        ConfiguredThresholds::default().with_shared_caller_domains(shared_caller_domains())
    );
}

#[test]
fn test_three_keys_together_each_reach_their_own_threshold() {
    let thresholds = thresholds_of_spelling(
        "[thresholds]\n\
         structural_similarity = 0.8\n\
         shared_imports = 0.7\n\
         shared_caller_domains = 0.6\n",
    );

    assert_eq!(
        thresholds,
        ConfiguredThresholds::default()
            .with_structural_similarity(structural_similarity())
            .with_shared_imports(shared_imports())
            .with_shared_caller_domains(shared_caller_domains())
    );
}

#[test]
fn test_comments_and_blank_lines_are_not_read_as_settings() {
    let thresholds = thresholds_of_spelling(
        "# 閾値の設定\n\
         \n\
         [thresholds]  # ここから\n\
         shared_imports = 0.7  # 半分より厳しく\n",
    );

    assert_eq!(thresholds, ConfiguredThresholds::default().with_shared_imports(shared_imports()));
}

#[test]
fn test_unknown_table_is_reported_instead_of_being_skipped() {
    assert_eq!(
        reason_of_spelling("[owners]\nbilling = \"team-a\"\n"),
        MalformedReason::UnknownTable("owners".to_owned())
    );
}

#[test]
fn test_unknown_key_is_reported_instead_of_being_skipped() {
    assert_eq!(
        reason_of_spelling("[thresholds]\nsharedimports = 0.7\n"),
        MalformedReason::UnknownKey("sharedimports".to_owned())
    );
}

#[test]
fn test_key_written_before_any_table_is_reported() {
    assert_eq!(
        reason_of_spelling("shared_imports = 0.7\n"),
        MalformedReason::KeyOutsideTable("shared_imports".to_owned())
    );
}

#[test]
fn test_same_key_written_twice_is_reported() {
    assert_eq!(
        reason_of_spelling("[thresholds]\nshared_imports = 0.7\nshared_imports = 0.6\n"),
        MalformedReason::DuplicateKey("shared_imports".to_owned())
    );
}

#[test]
fn test_line_that_is_neither_a_table_nor_a_pair_is_reported() {
    assert_eq!(
        reason_of_spelling("[thresholds]\nshared_imports\n"),
        MalformedReason::NotAKeyValue("shared_imports".to_owned())
    );
}

#[test]
fn test_unclosed_table_header_is_not_read_as_a_table() {
    assert_eq!(
        reason_of_spelling("[thresholds\n"),
        MalformedReason::NotAKeyValue("[thresholds".to_owned())
    );
}

#[test]
fn test_value_out_of_range_keeps_the_reason_from_the_threshold() {
    assert_eq!(
        reason_of_spelling("[thresholds]\nshared_imports = 1.5\n"),
        MalformedReason::Threshold(ThresholdParseError::OutOfRange("1.5".to_owned()))
    );
}

#[test]
fn test_value_that_is_not_a_number_keeps_the_reason_from_the_threshold() {
    assert_eq!(
        reason_of_spelling("[thresholds]\nshared_imports = high\n"),
        MalformedReason::Threshold(ThresholdParseError::NotANumber("high".to_owned()))
    );
}

#[test]
fn test_the_reported_line_is_the_one_that_is_wrong() {
    assert_eq!(line_of_spelling("[thresholds]\nshared_imports = 0.7\nsharedcallers = 0.6\n"), 3);
}

#[test]
fn test_no_domains_table_declares_no_domain() {
    let configuration = configuration_of_spelling("[thresholds]\nshared_imports = 0.7\n");

    assert!(configuration.domain_declarations().is_empty());
}

#[test]
fn test_domains_table_declares_each_domain_by_its_globs() {
    let text = "[domains]\n\
                billing = [\"src/billing/**\", \"src/**/invoice*.ts\"]\n\
                inventory = [\"src/inventory/**\"]\n";

    assert_eq!(
        declared_domain_of_spelling(text, "/repo/src/services/invoiceService.ts"),
        Some("billing".to_owned())
    );
    assert_eq!(
        declared_domain_of_spelling(text, "/repo/src/inventory/stock.ts"),
        Some("inventory".to_owned())
    );
    assert_eq!(declared_domain_of_spelling(text, "/repo/src/shared/format.ts"), None);
}

#[test]
fn test_domains_and_thresholds_tables_are_read_together() {
    let configuration = configuration_of_spelling(
        "[domains]\nbilling = [\"src/billing/**\"]\n[thresholds]\nshared_imports = 0.7\n",
    );

    assert_eq!(
        configuration.thresholds(),
        ConfiguredThresholds::default().with_shared_imports(shared_imports())
    );
    assert!(!configuration.domain_declarations().is_empty());
}

#[test]
fn test_hash_inside_a_glob_is_not_read_as_a_comment() {
    let text = "[domains]\nbilling = [\"src/#legacy/**\"]  # 旧い請求\n";

    assert_eq!(
        declared_domain_of_spelling(text, "/repo/src/#legacy/invoice.ts"),
        Some("billing".to_owned())
    );
}

#[test]
fn test_trailing_comma_in_the_glob_array_is_read() {
    assert_eq!(
        declared_domain_of_spelling(
            "[domains]\nbilling = [\"src/billing/**\",]\n",
            "/repo/src/billing/invoice.ts"
        ),
        Some("billing".to_owned())
    );
}

#[test]
fn test_domain_value_that_is_not_a_string_array_is_reported() {
    assert_eq!(
        reason_of_spelling("[domains]\nbilling = \"src/billing/**\"\n"),
        MalformedReason::NotAStringArray("\"src/billing/**\"".to_owned())
    );
}

#[test]
fn test_glob_array_split_over_lines_is_reported() {
    assert_eq!(
        reason_of_spelling("[domains]\nbilling = [\n  \"src/billing/**\",\n]\n"),
        MalformedReason::NotAStringArray("[".to_owned())
    );
}

#[test]
fn test_single_quoted_glob_is_reported() {
    assert_eq!(
        reason_of_spelling("[domains]\nbilling = ['src/billing/**']\n"),
        MalformedReason::NotAStringArray("['src/billing/**']".to_owned())
    );
}

#[test]
fn test_domain_without_globs_is_reported() {
    assert_eq!(
        reason_of_spelling("[domains]\nbilling = []\n"),
        MalformedReason::EmptyDomain("billing".to_owned())
    );
}

#[test]
fn test_domain_name_that_is_not_a_bare_key_is_reported() {
    assert_eq!(
        reason_of_spelling("[domains]\n\"billing core\" = [\"src/**\"]\n"),
        MalformedReason::InvalidDomainName("\"billing core\"".to_owned())
    );
}

#[test]
fn test_same_domain_declared_twice_is_reported() {
    assert_eq!(
        reason_of_spelling(
            "[domains]\nbilling = [\"src/billing/**\"]\nbilling = [\"src/invoice/**\"]\n"
        ),
        MalformedReason::DuplicateKey("billing".to_owned())
    );
}

#[test]
fn test_glob_that_cannot_be_read_keeps_the_reason_from_the_pattern() {
    assert_eq!(
        reason_of_spelling("[domains]\nbilling = [\"src/billing/?.ts\"]\n"),
        MalformedReason::DomainPattern(DomainPatternError::UnsupportedCharacter {
            pattern: "src/billing/?.ts".to_owned(),
            character: '?',
        })
    );
}

#[test]
fn test_settings_file_name_is_dryguard_toml() {
    assert_eq!(CONFIG_FILE_NAME, "dryguard.toml");
}

#[test]
fn test_absent_settings_leave_every_threshold_at_its_default_and_declare_nothing() {
    let configuration = Configuration::default();

    assert_eq!(configuration.thresholds(), ConfiguredThresholds::default());
    assert!(configuration.domain_declarations().is_empty());
}

#[test]
fn test_carriage_returns_before_line_ends_are_not_part_of_the_value() {
    let thresholds = thresholds_of_spelling("[thresholds]\r\nshared_imports = 0.7\r\n");

    assert_eq!(thresholds, ConfiguredThresholds::default().with_shared_imports(shared_imports()));
}

#[test]
fn test_the_reported_line_counts_comment_and_blank_lines() {
    assert_eq!(line_of_spelling("# note\n\n[domains]\nbilling = []\n"), 4);
}

fn reading_of(text: &str) -> dryguard::config::SettingsReading {
    dryguard::config::SettingsReading::Read { text: text.to_owned() }
}

#[test]
fn test_settings_file_that_is_absent_leaves_every_threshold_at_its_default() {
    let configuration = dryguard::config::configuration_of_reading(
        "/repo/tests/fixtures/config/dryguard.toml",
        dryguard::config::SettingsReading::Absent,
        Ok("/repo/tests/fixtures/config".to_owned()),
    )
    .expect("a file that is not there is no failure");

    assert_eq!(configuration.thresholds(), ConfiguredThresholds::default());
}

#[test]
fn test_settings_file_on_disk_moves_the_thresholds_it_writes() {
    let text = "[thresholds]\nstructural_similarity = 0.8\nshared_imports = 0.7\nshared_caller_domains = 0.6\n";

    let configuration = dryguard::config::configuration_of_reading(
        "/repo/tests/fixtures/config/tuned/dryguard.toml",
        reading_of(text),
        Ok("/repo/tests/fixtures/config/tuned".to_owned()),
    )
    .expect("the settings read");

    assert_eq!(
        configuration.thresholds(),
        ConfiguredThresholds::default()
            .with_structural_similarity(structural_similarity())
            .with_shared_imports(shared_imports())
            .with_shared_caller_domains(shared_caller_domains())
    );
}

#[test]
fn test_settings_file_that_is_present_but_unreadable_is_not_treated_as_absent() {
    let error = dryguard::config::configuration_of_reading(
        "/repo/tests/fixtures/config/unreadable/dryguard.toml",
        dryguard::config::SettingsReading::Unreadable {
            cause: "Is a directory (os error 21)".to_owned(),
        },
        Ok("/repo/tests/fixtures/config/unreadable".to_owned()),
    )
    .expect_err("what cannot be read does not fall back to the defaults");

    assert!(matches!(
        error,
        dryguard::config::ConfigError::Unreadable { path, error }
            if path.ends_with(CONFIG_FILE_NAME) && error == "Is a directory (os error 21)"
    ));
}

#[test]
fn test_settings_file_on_disk_that_is_malformed_names_the_file_and_the_line() {
    let error = dryguard::config::configuration_of_reading(
        "/repo/tests/fixtures/config/unknown-key/dryguard.toml",
        reading_of("[thresholds]\nsimilarity = 0.8\n"),
        Ok("/repo/tests/fixtures/config/unknown-key".to_owned()),
    )
    .expect_err("an unknown key does not read");

    match error {
        dryguard::config::ConfigError::Malformed { path, malformed } => {
            assert!(path.ends_with(CONFIG_FILE_NAME), "{path}");
            assert_eq!(malformed.line().get(), 2);
            assert!(format!("{:?}", malformed.reason()).contains("similarity"));
        }
        other => panic!("the file and the line are named: {other:?}"),
    }
}

#[test]
fn test_settings_file_on_disk_reads_globs_from_its_own_directory() {
    let directory = "/repo/tests/fixtures/config/declared";
    let configuration = dryguard::config::configuration_of_reading(
        "/repo/tests/fixtures/config/declared/dryguard.toml",
        reading_of("[domains]\nbilling = [\"src/**/invoice*.ts\"]\n"),
        Ok(directory.to_owned()),
    )
    .expect("the settings read");
    let declarations = configuration.domain_declarations();

    assert_eq!(
        declarations
            .declared_domain_of("/repo/tests/fixtures/config/declared/src/services/invoiceService.ts")
            .expect("one declaration at most")
            .map(|domain| domain.as_str().to_owned()),
        Some("billing".to_owned())
    );
    assert_eq!(
        declarations
            .declared_domain_of("/repo/src/services/invoiceService.ts")
            .expect("one declaration at most"),
        None
    );
}

#[test]
fn test_settings_whose_directory_has_no_absolute_path_are_unreadable() {
    let error = dryguard::config::configuration_of_reading(
        "dryguard.toml",
        reading_of("[thresholds]\n"),
        Err("the current directory is gone".to_owned()),
    )
    .expect_err("no root for the globs");

    assert!(matches!(error, dryguard::config::ConfigError::Unreadable { .. }));
}
