//! Compiler diagnostics: source spans, notes, and the rendering of a
//! syntax error as a source-annotated report.
pub mod lines;
pub mod source;
pub mod span;
pub mod text;
pub mod syntax;
