//! The diagnostics of the compiler.
//!
//! Every phase reports at most one fatal diagnostic: a single-line message.
//! The error is carried up to the caller as a tagged value; the surrounding
//! program is expected to print the message on its error stream and exit
//! with a nonzero status.

use vstd::prelude::*;

verus! {

/// A fatal compile-time diagnostic, tagged by the phase that raised it.
#[derive(Debug)]
pub enum CompileError {
    /// An unrecognized character, `!!`, or an integer literal out of range.
    LexError(String),
    /// Unexpected token shape: missing punctuation, missing identifier,
    /// an unknown local, or an ill-typed dereference.
    ParseError(String),
    /// An expression that must denote a memory location does not.
    SemanticError(String),
}

impl CompileError {
    /// The single-line human-readable message of the diagnostic.
    pub fn message(self) -> (msg: String)
        ensures
            msg@ == self.spec_message(),
    {
        match self {
            CompileError::LexError(m) => m,
            CompileError::ParseError(m) => m,
            CompileError::SemanticError(m) => m,
        }
    }

    /// The message text, whichever phase raised the diagnostic.
    pub open spec fn spec_message(self) -> Seq<char> {
        match self {
            CompileError::LexError(m) => m@,
            CompileError::ParseError(m) => m@,
            CompileError::SemanticError(m) => m@,
        }
    }
}

} // verus!
