use dryguard::classification::ConfiguredThresholds;
use dryguard::cli::{configured_thresholds_of, explanation_of, CommonOptions, LanguageOption, OutputFormat};
use dryguard::report::Explanation;
use dryguard::threshold::Threshold;

#[test]
fn test_options_by_default_read_every_language_as_text_without_explaining() {
    let options = CommonOptions::default();

    assert_eq!(options.lang, LanguageOption::Auto);
    assert_eq!(options.format, OutputFormat::Text);
    assert_eq!(options.threshold, None);
    assert!(!options.explain);
    assert_eq!(options.fail_on, None);
}

#[test]
fn test_explanation_of_explain_covers_every_signal() {
    let options = CommonOptions { explain: true, ..CommonOptions::default() };

    assert_eq!(explanation_of(&options), Explanation::AllSignals);
    assert_eq!(explanation_of(&CommonOptions::default()), Explanation::AskedSignals);
}

#[test]
fn test_configured_thresholds_of_a_threshold_option_overrides_the_file() {
    let from_file = ConfiguredThresholds::default()
        .with_structural_similarity(Threshold::new(6, 1).expect("0.6"))
        .with_shared_imports(Threshold::new(7, 1).expect("0.7"));
    let options = CommonOptions {
        threshold: Some(Threshold::new(9, 1).expect("0.9")),
        ..CommonOptions::default()
    };

    let thresholds = configured_thresholds_of(from_file, &options);

    assert_eq!(
        thresholds,
        from_file.with_structural_similarity(Threshold::new(9, 1).expect("0.9"))
    );
}

#[test]
fn test_configured_thresholds_of_no_threshold_option_keeps_the_file() {
    let from_file = ConfiguredThresholds::default()
        .with_structural_similarity(Threshold::new(6, 1).expect("0.6"));

    assert_eq!(configured_thresholds_of(from_file, &CommonOptions::default()), from_file);
}
