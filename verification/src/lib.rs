//! Semantic resolution for a small declarative styling/filter language.
//!
//! A parsed document is a tree of raw nodes: `Show`/`Hide` blocks holding
//! value assignments, conditional guards, variable definitions, nested
//! blocks and file imports.  This crate resolves such a tree against a
//! lexically scoped symbol table into a tree of concrete statements,
//! merging same-named value statements in place, accumulating conditions,
//! and splicing imported documents at the position of their import
//! directive.  The resolved tree renders to a line-oriented text grammar.

pub mod ast;
pub mod laws;
pub mod render;
pub mod resolved;
pub mod scope;
pub mod transform;
