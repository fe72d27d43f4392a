//! Front end of a compiler for a small shader description language:
//! a comment-aware tokenizer, a recursive-descent parser, a compact module
//! path type, and the resolution of module references to source files.

pub mod ast;
pub mod compiler;
pub mod config;
pub mod driver;
pub mod error;
pub mod fs;
pub mod grammar;
pub mod hir;
pub mod lexer;
pub mod linker;
pub mod session;
pub mod span;
pub mod syntax;
pub mod text;
pub mod token;
