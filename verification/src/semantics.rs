//! What the language server tells about a pair, normalized for classification: which
//! domain each caller of a chunk comes from, and why a type signature could not be read.
pub mod caller_domain;
pub mod domain;
pub mod resolved_type;
pub mod type_signature;
