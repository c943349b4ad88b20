//! What the tool reads from and writes to a language server, kept apart from the process
//! that runs it: message framing and messages, URIs, workspace roots and documents, the
//! answers to hover, references and call hierarchies, and the state a conversation keeps.
pub mod call_hierarchy;
pub mod connection;
pub mod document;
pub mod framing;
pub mod hover;
pub mod message;
pub mod project_membership;
pub mod references;
pub mod type_definition;
pub mod uri;
pub mod value;
pub mod workspace;

use vstd::prelude::*;

use lsp_types::{HoverProviderCapability, OneOf, ServerCapabilities};

use crate::text::{chars_of, string_of};

verus! {

/// How to start a language server: the program and its arguments.
#[derive(Debug, Clone, PartialEq, Eq)]
pub struct ServerCommand {
    program: String,
    args: Vec<String>,
}

impl ServerCommand {
    pub closed spec fn program_view(&self) -> Seq<char> {
        self.program@
    }

    pub closed spec fn args_view(&self) -> Seq<Seq<char>> {
        self.args.deep_view()
    }

    /// A program and its arguments.
    pub fn new(program: String, args: Vec<String>) -> (command: ServerCommand)
        ensures
            command.program_view() == program@,
            command.args_view() == args.deep_view(),
    {
        ServerCommand { program, args }
    }

    /// `typescript-language-server --stdio`: without `--stdio` it prints its usage and answers
    /// nothing.
    pub fn typescript() -> (command: ServerCommand)
        ensures
            command.program_view() == "typescript-language-server"@,
            command.args_view() == seq!["--stdio"@],
    {
        let mut args: Vec<String> = Vec::new();
        args.push(string_of(&chars_of("--stdio")));
        let command = ServerCommand::new(string_of(&chars_of("typescript-language-server")), args);
        assert(command.args_view() =~= seq!["--stdio"@]);
        command
    }

    /// The program.
    pub fn program(&self) -> (program: &str)
        ensures
            program@ == self.program_view(),
    {
        self.program.as_str()
    }

    /// The arguments.
    pub fn args(&self) -> (args: &Vec<String>)
        ensures
            args.deep_view() == self.args_view(),
    {
        &self.args
    }
}

#[verifier::external_type_specification]
#[verifier::external_body]
pub struct ExServerCapabilities(ServerCapabilities);

/// How a server declared one of its features: not at all, switched on or off, or with
/// options (which switch it on).
#[derive(Debug, Clone, Copy, PartialEq, Eq)]
pub enum Provision {
    Undeclared,
    Switched(bool),
    WithOptions,
}

/// Whether a feature so declared is there to be asked: switched on, or given options.
pub open spec fn provision_provides(provision: Provision) -> bool {
    provision == Provision::Switched(true) || provision == Provision::WithOptions
}

/// Whether a feature so declared is there to be asked: switched on, or given options.
/// Being declared is not enough: a feature can be declared switched off.
pub fn provided(provision: Provision) -> (there: bool)
    ensures
        there == (provision == Provision::Switched(true) || provision == Provision::WithOptions),
{
    match provision {
        Provision::Switched(on) => on,
        Provision::WithOptions => true,
        Provision::Undeclared => false,
    }
}

/// How a server's capabilities declare hover: `hover_provider` absent, `Simple(on)`, or
/// `Options(_)`.
pub uninterp spec fn hover_provision_in(capabilities: ServerCapabilities) -> Provision;

/// How a server's capabilities declare references: `references_provider` absent,
/// `OneOf::Left(on)`, or `OneOf::Right(_)`.
pub uninterp spec fn references_provision_in(capabilities: ServerCapabilities) -> Provision;

/// How the server declared hover.
///
/// Trusted: tells apart the variants of `ServerCapabilities::hover_provider` (`None`,
/// `HoverProviderCapability::Simple(on)`, `HoverProviderCapability::Options(_)`); the contract
/// claims the answer is [`hover_provision_in`] of the capabilities alone.
#[verifier::external_body]
fn hover_provision(capabilities: &ServerCapabilities) -> (provision: Provision)
    ensures
        provision == hover_provision_in(*capabilities),
{
    match &capabilities.hover_provider {
        None => Provision::Undeclared,
        Some(HoverProviderCapability::Simple(on)) => Provision::Switched(*on),
        Some(HoverProviderCapability::Options(_)) => Provision::WithOptions,
    }
}

/// How the server declared references.
///
/// Trusted: tells apart the variants of `ServerCapabilities::references_provider` (`None`,
/// `OneOf::Left(on)`, `OneOf::Right(_)`); the contract claims the answer is
/// [`references_provision_in`] of the capabilities alone.
#[verifier::external_body]
fn references_provision(capabilities: &ServerCapabilities) -> (provision: Provision)
    ensures
        provision == references_provision_in(*capabilities),
{
    match &capabilities.references_provider {
        None => Provision::Undeclared,
        Some(OneOf::Left(on)) => Provision::Switched(*on),
        Some(OneOf::Right(_)) => Provision::WithOptions,
    }
}

/// Whether the server answers hover, as [`provided`] reads its declaration.
pub fn provides_hover(capabilities: &ServerCapabilities) -> (there: bool)
    ensures
        there == provision_provides(hover_provision_in(*capabilities)),
{
    provided(hover_provision(capabilities))
}

/// Whether the server answers references, as [`provided`] reads its declaration.
pub fn provides_references(capabilities: &ServerCapabilities) -> (there: bool)
    ensures
        there == provision_provides(references_provision_in(*capabilities)),
{
    provided(references_provision(capabilities))
}

} // verus!
