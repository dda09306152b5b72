//! Front-end infrastructure for a small expression-oriented language:
//! a chunked arena with type-tagged node handles, the AST node model,
//! a string interner, a spanned lexer, and the compiler context that
//! ties them together.

pub mod arena;
pub mod ast;
pub mod common;
pub mod context;
pub mod lexer;
