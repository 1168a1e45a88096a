//! The closed set of failures that a stage of the engine can report.

use vstd::prelude::*;
use vstd::string::StringExecFns;

verus! {

/// A failure of one stage, with a human-readable description.
#[derive(Debug, Clone, PartialEq, Eq)]
pub enum CompileError {
    LexError(String),
    ParseError(String),
    RuntimeError(String),
}

/// The mathematical content of a [`CompileError`].
pub enum ErrorView {
    LexError(Seq<char>),
    ParseError(Seq<char>),
    RuntimeError(Seq<char>),
}

impl View for CompileError {
    type V = ErrorView;

    open spec fn view(&self) -> ErrorView {
        match self {
            CompileError::LexError(e) => ErrorView::LexError(e@),
            CompileError::ParseError(e) => ErrorView::ParseError(e@),
            CompileError::RuntimeError(e) => ErrorView::RuntimeError(e@),
        }
    }
}

impl ErrorView {
    /// The text shown to a user: the stage's name, then the description.
    pub open spec fn text(self) -> Seq<char> {
        match self {
            ErrorView::LexError(e) => "Lex error: "@ + e,
            ErrorView::ParseError(e) => "Parse error: "@ + e,
            ErrorView::RuntimeError(e) => "Runtime error: "@ + e,
        }
    }
}

impl CompileError {
    /// Renders the failure as the text shown to a user.
    pub fn message(&self) -> (text: String)
        ensures
            text@ == self@.text(),
    {
        match self {
            CompileError::LexError(e) => String::from_str("Lex error: ").concat(e.as_str()),
            CompileError::ParseError(e) => String::from_str("Parse error: ").concat(e.as_str()),
            CompileError::RuntimeError(e) => String::from_str("Runtime error: ").concat(
                e.as_str(),
            ),
        }
    }
}

} // verus!
