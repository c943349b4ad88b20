//! What is read off the source text itself: how far apart two files sit, and why a file's
//! dependencies could not be collected.
pub mod import;
pub mod module_distance;
