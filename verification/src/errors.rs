//! Error types of the lexer, the parser and the rule engine.

use vstd::prelude::*;

verus! {

/// A lexing failure: no token starts at character index `at`.
#[derive(Debug, Clone, Copy, PartialEq, Eq, Structural)]
pub struct LexError {
    pub at: usize,
}

/// A parse failure: the token at index `at` is not what the grammar
/// expects there; `expected` describes the expected construct.
#[derive(Debug, Clone, Copy, PartialEq, Eq)]
pub struct ParseError {
    pub at: usize,
    pub expected: &'static str,
}

/// A failure of `lex_and_parse`: either stage can reject the input.
#[derive(Debug, Clone, Copy, PartialEq, Eq)]
pub enum SourceError {
    Lex(LexError),
    Parse(ParseError),
}

/// The errors the rule engine reports.
#[derive(Debug, Clone, Copy, PartialEq, Eq, Structural)]
pub enum EngineError {
    /// A variable may not be set to `Conflict`.
    ConflictAssignment,
    /// The value of a compound cannot be read from the main namespace.
    MainNamespaceRead,
    /// A namespace path has no corresponding node in the alias tree.
    NamespaceMissing,
    /// No alias is installed under the requested name.
    NoAlias,
    /// A trigger names an event identifier with no handler.
    HandlerMissing,
    /// A rule was not found in its handler.
    RuleMissing,
    /// An attempt to coerce `Conflict` to a boolean.
    AmbiguousValue,
    /// An `Alternative` action with no choices.
    EmptyAlternative,
    /// The re-entrant rule-firing budget was exhausted.
    DepthExhausted,
}

impl EngineError {
    /// A short description of the error.
    pub fn message(&self) -> &'static str {
        match self {
            EngineError::ConflictAssignment => "cannot update variable to an ambiguous value",
            EngineError::MainNamespaceRead => "cannot get rules from the main namespace",
            EngineError::NamespaceMissing => "no matching namespace found for alias",
            EngineError::NoAlias => "no alias found",
            EngineError::HandlerMissing => "invalid action: no handler for event",
            EngineError::RuleMissing => "rule not found in handler",
            EngineError::AmbiguousValue => "not a boolean value",
            EngineError::EmptyAlternative => "cannot execute empty alternative action",
            EngineError::DepthExhausted => "rule firing exceeded the depth budget",
        }
    }
}

} // verus!
