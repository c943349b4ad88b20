//! What the command line asks for: a subcommand and the options every subcommand shares.
use vstd::prelude::*;

use crate::classification::ConfiguredThresholds;
use crate::location::Location;
use crate::report::Explanation;
use crate::threshold::Threshold;

verus! {

/// A parsed command line.
#[derive(Debug, PartialEq, Eq)]
pub struct Cli {
    pub command: Command,
    pub options: CommonOptions,
}

/// What to do.
#[derive(Debug, PartialEq, Eq)]
pub enum Command {
    /// Compare the chunks at two locations.
    Compare { location_a: Location, location_b: Location },
}

/// The options every subcommand takes.
#[derive(Debug, PartialEq, Eq)]
pub struct CommonOptions {
    /// The language of the files; `Auto` reads it off the extension.
    pub lang: LanguageOption,
    /// How to print the report.
    pub format: OutputFormat,
    /// The structural similarity threshold, in place of the configured one.
    pub threshold: Option<Threshold>,
    /// Print every signal and every threshold.
    pub explain: bool,
    /// The verdict on which to exit with failure.
    pub fail_on: Option<FailOn>,
}

/// The language option.
#[derive(Debug, Clone, Copy, PartialEq, Eq)]
pub enum LanguageOption {
    Ts,
    Auto,
}

/// The output format.
#[derive(Debug, Clone, Copy, PartialEq, Eq)]
pub enum OutputFormat {
    /// For a person to read.
    Text,
}

/// The verdict that fails the run.
#[derive(Debug, Clone, Copy, PartialEq, Eq)]
pub enum FailOn {
    DoNotExtract,
}

impl Default for CommonOptions {
    /// Language read off the extension, text output, the configured threshold, only the
    /// signals asked, never failing.
    fn default() -> (options: Self)
        ensures
            options.lang == LanguageOption::Auto,
            options.format == OutputFormat::Text,
            options.threshold is None,
            !options.explain,
            options.fail_on is None,
    {
        CommonOptions {
            lang: LanguageOption::Auto,
            format: OutputFormat::Text,
            threshold: None,
            explain: false,
            fail_on: None,
        }
    }
}

/// How much of the reasoning the options ask to print: every signal with `--explain`.
pub fn explanation_of(options: &CommonOptions) -> (explanation: Explanation)
    ensures
        explanation == if options.explain {
            Explanation::AllSignals
        } else {
            Explanation::AskedSignals
        },
{
    if options.explain {
        Explanation::AllSignals
    } else {
        Explanation::AskedSignals
    }
}

/// The configured thresholds, with `--threshold` in place of the structural similarity one.
pub fn configured_thresholds_of(from_file: ConfiguredThresholds, options: &CommonOptions) -> (thresholds:
    ConfiguredThresholds)
    ensures
        thresholds.structural_similarity_view() == match options.threshold {
            Some(t) => t,
            None => from_file.structural_similarity_view(),
        },
        thresholds.shared_imports_view() == from_file.shared_imports_view(),
        thresholds.shared_caller_domains_view() == from_file.shared_caller_domains_view(),
{
    match options.threshold {
        Some(threshold) => from_file.with_structural_similarity(threshold),
        None => from_file,
    }
}

} // verus!
