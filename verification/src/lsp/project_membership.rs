//! Which project the server put a file in, as its project information answer says.
use vstd::prelude::*;

use serde_json::Value;

use crate::lsp::value::{json_member, member_of, member_text, text_of_value, text_reads};

verus! {

/// Which project a file belongs to in the server's eyes.
#[derive(Debug, Clone, PartialEq, Eq)]
pub enum ProjectMembershipOutcome {
    /// A project that a configuration file on disk describes.
    Configured { config: String },
    /// A project the server made up for files no configuration file claims.
    Inferred,
    /// The server does not answer project information; nothing was asked.
    NotSupported,
}

/// The configuration file a project information answer names: the text at
/// `body.configFileName`; `None` where the answer has no body, the body no such member, or
/// the member is no text.
pub fn config_file_name_of(result: &Value) -> (name: Option<String>)
    ensures
        text_reads(
            name,
            match json_member(*result, "body"@) {
                Some(body) => member_text(body, "configFileName"@),
                None => None,
            },
        ),
{
    let body = match member_of(result, "body") {
        Some(body) => body,
        None => return None,
    };
    let named = match member_of(body, "configFileName") {
        Some(named) => named,
        None => return None,
    };
    text_of_value(named)
}

/// Which project a file belongs to, given the configuration file the server named and
/// whether that names a file on disk: a file there is a configured project; anything else
/// (the server names made-up projects after a path that holds no file) is an inferred one.
pub fn outcome_of_config(config: String, config_is_file: bool) -> (outcome: ProjectMembershipOutcome)
    ensures
        config_is_file ==> outcome == (ProjectMembershipOutcome::Configured { config }),
        !config_is_file ==> outcome == ProjectMembershipOutcome::Inferred,
{
    if !config_is_file {
        return ProjectMembershipOutcome::Inferred;
    }
    ProjectMembershipOutcome::Configured { config }
}

} // verus!
