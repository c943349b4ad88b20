use dryguard::domain_declaration::{
    DomainDeclaration, DomainDeclarations, DomainName, DomainPattern, DomainPatternError,
};
use dryguard::line_number::{LineNumber, LineNumberParseError};
use dryguard::location::{Location, LocationParseError};
use dryguard::similarity::Similarity;
use dryguard::threshold::{Threshold, ThresholdParseError};

fn line(value: usize) -> LineNumber {
    LineNumber::new(value).expect("a positive line")
}

#[test]
fn test_line_number_of_a_positive_value_keeps_it() {
    assert_eq!(line(42).get(), 42);
}

#[test]
fn test_line_number_of_one_is_created() {
    assert!(LineNumber::new(1).is_some());
}

#[test]
fn test_line_number_of_zero_cannot_be_created() {
    assert_eq!(LineNumber::new(0), None);
}

#[test]
fn test_line_number_from_the_first_index_is_the_first_line() {
    assert_eq!(LineNumber::from_index(0).get(), 1);
}

#[test]
fn test_line_number_from_an_index_counts_from_one() {
    assert_eq!(LineNumber::from_index(41).get(), 42);
}

#[test]
fn test_line_number_to_index_counts_from_zero() {
    assert_eq!(line(42).to_index(), 41);
}

#[test]
fn test_line_number_of_the_first_line_to_index_is_zero() {
    assert_eq!(line(1).to_index(), 0);
}

#[test]
fn test_line_number_parsed_from_digits_keeps_the_value() {
    let parsed = LineNumber::parse("42").expect("digits");

    assert_eq!(parsed.get(), 42);
}

#[test]
fn test_line_number_parsed_from_non_numeric_text_returns_not_a_number() {
    assert_eq!(
        LineNumber::parse("abc"),
        Err(LineNumberParseError::NotANumber("abc".to_owned()))
    );
}

#[test]
fn test_line_number_parsed_from_zero_returns_zero() {
    assert_eq!(LineNumber::parse("0"), Err(LineNumberParseError::Zero));
}

#[test]
fn test_line_number_displays_as_the_number() {
    assert_eq!(line(42).text(), "42");
}

#[test]
fn test_line_number_compares_by_the_number() {
    assert!(line(10) < line(20));
}

#[test]
fn test_line_number_from_the_largest_index_saturates() {
    assert_eq!(LineNumber::from_index(usize::MAX).get(), usize::MAX);
}

#[test]
fn test_line_number_text_parses_back_to_the_same_line() {
    for value in [1, 7, 42, 1000] {
        assert_eq!(LineNumber::parse(&line(value).text()), Ok(line(value)));
    }
}

#[test]
fn test_location_with_path_and_line_parses_both() {
    let location = Location::parse("src/billing/discount.ts:42").expect("a location");

    assert_eq!(location.path(), "src/billing/discount.ts");
    assert_eq!(location.line(), line(42));
}

#[test]
fn test_location_with_windows_drive_letter_keeps_drive_in_path() {
    let location = Location::parse(r"C:\src\a.rs:12").expect("a location");

    assert_eq!(location.path(), r"C:\src\a.rs");
    assert_eq!(location.line(), line(12));
}

#[test]
fn test_location_without_separator_returns_missing_separator() {
    assert_eq!(Location::parse("src/a.ts"), Err(LocationParseError::MissingSeparator));
}

#[test]
fn test_location_with_empty_path_returns_empty_path() {
    assert_eq!(Location::parse(":42"), Err(LocationParseError::EmptyPath));
}

#[test]
fn test_location_with_non_numeric_line_returns_not_a_number() {
    assert_eq!(
        Location::parse("src/a.ts:abc"),
        Err(LocationParseError::NotANumber("abc".to_owned()))
    );
}

#[test]
fn test_location_with_zero_line_returns_zero_line() {
    assert_eq!(Location::parse("src/a.ts:0"), Err(LocationParseError::ZeroLine));
}

#[test]
fn test_location_displays_as_file_and_line() {
    let location = Location::new("src/a.ts".to_owned(), line(7));

    assert_eq!(location.text(), "src/a.ts:7");
}

#[test]
fn test_location_text_parses_back_to_the_same_location() {
    let location = Location::new("src/a:b.ts".to_owned(), line(31));

    assert_eq!(Location::parse(&location.text()), Ok(location));
}

fn name(spelling: &str) -> DomainName {
    DomainName::new(spelling).expect("a bare key")
}

fn pattern(spelling: &str) -> DomainPattern {
    DomainPattern::parse(spelling).expect("a glob this reads")
}

fn declarations(declared: &[(&str, &[&str])]) -> DomainDeclarations {
    let declared = declared
        .iter()
        .map(|(domain, patterns)| {
            DomainDeclaration::new(name(domain), patterns.iter().map(|p| pattern(p)).collect())
                .expect("at least one glob")
        })
        .collect();
    DomainDeclarations::new("/repo", declared)
}

fn declared(declarations: &DomainDeclarations, path: &str) -> Option<String> {
    declarations
        .declared_domain_of(path)
        .expect("not claimed by two declarations")
        .map(|domain| domain.as_str().to_owned())
}

fn billing_by(patterns: &[&str], path: &str) -> Option<String> {
    declared(&declarations(&[("billing", patterns)]), path)
}

#[test]
fn test_domain_name_accepts_a_bare_key() {
    assert_eq!(name("billing-core_2").as_str(), "billing-core_2");
}

#[test]
fn test_domain_name_rejects_a_spelling_that_is_not_a_bare_key() {
    assert_eq!(DomainName::new("billing.core"), None);
    assert_eq!(DomainName::new(""), None);
}

#[test]
fn test_any_depth_matches_files_at_every_depth_below_the_directory() {
    assert_eq!(
        billing_by(&["src/billing/**"], "/repo/src/billing/invoice.ts"),
        Some("billing".to_owned())
    );
    assert_eq!(
        billing_by(&["src/billing/**"], "/repo/src/billing/tax/rate.ts"),
        Some("billing".to_owned())
    );
}

#[test]
fn test_any_depth_does_not_match_a_sibling_directory() {
    assert_eq!(billing_by(&["src/billing/**"], "/repo/src/inventory/stock.ts"), None);
}

#[test]
fn test_any_depth_in_the_middle_matches_zero_directories() {
    assert_eq!(
        billing_by(&["src/**/invoice*.ts"], "/repo/src/invoice.ts"),
        Some("billing".to_owned())
    );
    assert_eq!(
        billing_by(&["src/**/invoice*.ts"], "/repo/src/services/invoiceService.ts"),
        Some("billing".to_owned())
    );
}

#[test]
fn test_wildcard_does_not_cross_a_directory() {
    assert_eq!(billing_by(&["src/*.ts"], "/repo/src/billing/invoice.ts"), None);
    assert_eq!(billing_by(&["src/*.ts"], "/repo/src/invoice.ts"), Some("billing".to_owned()));
}

#[test]
fn test_wildcard_keeps_the_text_on_both_sides() {
    assert_eq!(billing_by(&["src/**/invoice*.ts"], "/repo/src/services/productService.ts"), None);
    assert_eq!(billing_by(&["src/**/invoice*.ts"], "/repo/src/models/invoice.tsx"), None);
}

#[test]
fn test_wildcards_between_texts_match_them_in_order() {
    assert_eq!(
        billing_by(&["src/*voice*Service*"], "/repo/src/invoiceService.ts"),
        Some("billing".to_owned())
    );
    assert_eq!(billing_by(&["src/*Service*voice*"], "/repo/src/invoiceService.ts"), None);
}

#[test]
fn test_wildcard_does_not_let_prefix_and_suffix_overlap() {
    assert_eq!(billing_by(&["ab*ba"], "/repo/aba"), None);
    assert_eq!(billing_by(&["ab*ba"], "/repo/abba"), Some("billing".to_owned()));
}

#[test]
fn test_relative_path_is_read_from_the_root() {
    assert_eq!(
        billing_by(&["src/billing/**"], "src/billing/invoice.ts"),
        Some("billing".to_owned())
    );
    assert_eq!(
        billing_by(&["src/billing/**"], "./src/inventory/../billing/invoice.ts"),
        Some("billing".to_owned())
    );
}

#[test]
fn test_file_outside_the_root_matches_no_declaration() {
    assert_eq!(billing_by(&["**"], "/elsewhere/src/billing/invoice.ts"), None);
    assert_eq!(billing_by(&["**"], "../elsewhere/invoice.ts"), None);
    assert_eq!(billing_by(&["**"], "/repo/src/invoice.ts"), Some("billing".to_owned()));
}

#[test]
fn test_file_matching_no_declaration_has_no_declared_domain() {
    let declarations = declarations(&[
        ("billing", &["src/billing/**"]),
        ("inventory", &["src/inventory/**"]),
    ]);

    assert_eq!(declared(&declarations, "/repo/src/shared/format.ts"), None);
    assert_eq!(
        declared(&declarations, "/repo/src/inventory/stock.ts"),
        Some("inventory".to_owned())
    );
}

#[test]
fn test_no_declarations_match_no_file() {
    let declarations = DomainDeclarations::empty();

    assert!(declarations.is_empty());
    assert_eq!(declared(&declarations, "src/billing/invoice.ts"), None);
}

#[test]
fn test_file_matching_two_declarations_is_an_error_naming_both() {
    let declarations = declarations(&[
        ("billing", &["src/billing/**"]),
        ("reporting", &["src/**/report*.ts"]),
    ]);

    let error = declarations
        .declared_domain_of("/repo/src/billing/report.ts")
        .expect_err("a file claimed by two declarations is not settled silently");

    assert_eq!(error.domains(), vec![name("billing"), name("reporting")]);
    assert_eq!(error.path(), "/repo/src/billing/report.ts");
}

#[test]
fn test_file_matching_two_patterns_of_one_declaration_is_not_an_error() {
    assert_eq!(
        billing_by(&["src/billing/**", "src/**/invoice*.ts"], "/repo/src/billing/invoice.ts"),
        Some("billing".to_owned())
    );
}

#[test]
fn test_declaration_without_patterns_cannot_be_built() {
    assert_eq!(DomainDeclaration::new(name("billing"), Vec::new()), None);
}

#[test]
fn test_pattern_that_is_empty_is_an_error() {
    assert_eq!(DomainPattern::parse(""), Err(DomainPatternError::Empty));
}

#[test]
fn test_pattern_starting_from_the_filesystem_root_is_an_error() {
    assert_eq!(
        DomainPattern::parse("/src/**"),
        Err(DomainPatternError::Absolute("/src/**".to_owned()))
    );
}

#[test]
fn test_pattern_with_an_empty_segment_is_an_error() {
    assert_eq!(
        DomainPattern::parse("src/billing/"),
        Err(DomainPatternError::EmptySegment("src/billing/".to_owned()))
    );
}

#[test]
fn test_pattern_with_a_relative_segment_is_an_error() {
    assert_eq!(
        DomainPattern::parse("../src/**"),
        Err(DomainPatternError::RelativeSegment("../src/**".to_owned()))
    );
}

#[test]
fn test_pattern_with_any_depth_inside_a_segment_is_an_error() {
    assert_eq!(
        DomainPattern::parse("src/a**b"),
        Err(DomainPatternError::PartialAnyDepth("src/a**b".to_owned()))
    );
}

#[test]
fn test_pattern_with_a_character_this_glob_does_not_read_is_an_error() {
    assert_eq!(
        DomainPattern::parse("src/{billing,invoice}/**"),
        Err(DomainPatternError::UnsupportedCharacter {
            pattern: "src/{billing,invoice}/**".to_owned(),
            character: '{',
        })
    );
}

#[test]
fn test_similarity_prints_two_decimals_rounded_half_up() {
    assert_eq!(Similarity::new(94, 100).expect("a ratio").text(), "0.94");
    assert_eq!(Similarity::new(0, 3).expect("a ratio").text(), "0.00");
    assert_eq!(Similarity::new(1, 1).expect("a ratio").text(), "1.00");
    assert_eq!(Similarity::new(1, 200).expect("a ratio").text(), "0.01");
    assert_eq!(Similarity::new(2, 3).expect("a ratio").text(), "0.67");
    assert_eq!(Similarity::new(3, 2), None);
    assert_eq!(Similarity::new(0, 0), None);
}

#[test]
fn test_threshold_prints_its_shortest_spelling() {
    assert_eq!(Threshold::new(50, 2).expect("0.50").text(), "0.5");
    assert_eq!(Threshold::new(8, 1).expect("0.8").text(), "0.8");
    assert_eq!(Threshold::new(1, 0).expect("1").text(), "1");
    assert_eq!(Threshold::new(0, 3).expect("0").text(), "0");
    assert_eq!(Threshold::new(11, 1), None);
}

#[test]
fn test_threshold_parse_reads_decimals_and_reports_each_failure() {
    assert_eq!(Threshold::parse("0.70"), Ok(Threshold::new(7, 1).expect("0.7")));
    assert_eq!(Threshold::parse("1"), Ok(Threshold::new(1, 0).expect("1")));
    assert_eq!(Threshold::parse("high"), Err(ThresholdParseError::NotANumber("high".to_owned())));
    assert_eq!(Threshold::parse("1.5"), Err(ThresholdParseError::OutOfRange("1.5".to_owned())));
    assert_eq!(
        Threshold::parse("0.1234567890123456789"),
        Err(ThresholdParseError::TooPrecise("0.1234567890123456789".to_owned()))
    );
}

#[test]
fn test_threshold_text_parses_back_to_the_same_threshold() {
    for (numerator, scale) in [(5, 1), (25, 2), (1, 0), (0, 0), (123, 3)] {
        let threshold = Threshold::new(numerator, scale).expect("in range");
        assert_eq!(Threshold::parse(&threshold.text()), Ok(threshold));
    }
}
