//! Classifies structurally similar code pairs as accidental duplication or shared logic.
pub mod text;
pub mod json;
pub mod similarity;
pub mod threshold;
pub mod line_number;
pub mod location;
pub mod source_position;
pub mod path;
pub mod domain_declaration;
pub mod syntax;
pub mod semantics;
pub mod classification;
pub mod report;
pub mod config;
pub mod lsp;
pub mod codebase;
pub mod cli;
pub mod pipeline;
