//! A verified interpreter for a minimal eight-instruction language that
//! operates on a flat byte tape.
//!
//! The pipeline has three stages:
//! - [`lexer::lex`] turns raw source bytes into recognized symbols,
//! - [`parser::parse`] resolves matched brackets into a nested instruction
//!   tree, rejecting unmatched brackets with their position,
//! - [`machine::run`] executes the tree against a byte tape with a movable
//!   data pointer and byte-oriented input and output.

pub mod lexer;
pub mod machine;
pub mod parser;
pub mod syntax;
