//! Semantic verification of a directive tree for an ActionScript-family
//! language front end: phased, deferral-aware traversal that resolves scopes,
//! evaluates conditional-compilation tests, and binds import declarations.

pub mod ast;
pub mod compiler_options;
pub mod directive;
pub mod laws;
pub mod semantics;
pub mod subverifier;
