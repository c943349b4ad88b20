//! The order the stages run in, and the decisions between them: which pairs of chunks are
//! compared and kept as candidates, and what the language server's answers for a pair come
//! to. Reading files, cutting chunks and talking to the server are done by whoever drives
//! these functions.
pub mod semantics;
pub mod scan;
