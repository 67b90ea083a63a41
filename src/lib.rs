//! A small regular-expression engine: patterns compile to an abstract syntax
//! tree, and a matcher decides whether some stretch of a text is derived by it.

pub mod text;
pub mod lexer;
pub mod syntax;
pub mod parser;
pub mod semantics;
pub mod matcher;
pub mod engine;
