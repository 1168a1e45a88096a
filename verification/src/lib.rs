//! A small scripting-language engine that tracks taint: values that come from
//! untrusted input must pass through a sanitizer before they may reach a
//! dangerous sink.
//!
//! Source text is turned into tokens, tokens into statements, and statements
//! are evaluated against a single table of bindings. Every stage is specified
//! by a mathematical model and proved to follow it.

pub mod ast;
pub mod errors;
pub mod lexer;
pub mod parser;
pub mod runtime;
pub mod sanitizer;
pub mod text;
pub mod types;

pub use runtime::run;
