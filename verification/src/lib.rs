//! Core runtime of a reactive-rule node: AST and value types, lexer and
//! parser for the surface language, the alias namespace tree, the variable
//! store, the event-handler registry, and the recursive evaluator for
//! conditions and actions.

pub mod ast;
pub mod eq;
pub mod errors;
pub mod event_handler;
pub mod lexer;
pub mod node;
pub mod parser;
pub mod print;
pub mod token;
pub mod types;
pub mod utils;
pub mod visitor;

use vstd::prelude::*;

use crate::ast::{Compound, Rule, compound_view, rules_view};
use crate::errors::SourceError;
use crate::lexer::spec_lex;
use crate::parser::{sp_compound, sp_program};

verus! {

/// Lex and parse a whole program.  On success the rules are exactly what
/// the grammar assigns to the text; either stage can reject the input.
pub fn lex_and_parse(src: &str) -> (r: Result<Vec<Rule>, SourceError>)
    ensures
        match r {
            Ok(rules) => (spec_lex(src@, 0) matches Some(ts) && sp_program(ts) == Some(
                rules_view(rules@),
            )),
            Err(SourceError::Lex(_)) => spec_lex(src@, 0) is None,
            Err(SourceError::Parse(_)) => (spec_lex(src@, 0) matches Some(ts) && sp_program(
                ts,
            ) is None),
        },
{
    let toks = match crate::lexer::lexer(src) {
        Ok(t) => t,
        Err(e) => {
            return Err(SourceError::Lex(e));
        },
    };
    match crate::parser::program_parser(&toks) {
        Ok(rules) => Ok(rules),
        Err(e) => Err(SourceError::Parse(e)),
    }
}

/// As `lex_and_parse`; the failure is reported in the result rather than
/// printed.
pub fn lex_and_parse_safe(src: &str) -> (r: Result<Vec<Rule>, SourceError>)
    ensures
        match r {
            Ok(rules) => (spec_lex(src@, 0) matches Some(ts) && sp_program(ts) == Some(
                rules_view(rules@),
            )),
            Err(SourceError::Lex(_)) => spec_lex(src@, 0) is None,
            Err(SourceError::Parse(_)) => (spec_lex(src@, 0) matches Some(ts) && sp_program(
                ts,
            ) is None),
        },
{
    lex_and_parse(src)
}

/// Lex and parse a single compound covering the whole text.
pub fn lex_and_parse_compound(src: &str) -> (r: Result<Compound, SourceError>)
    ensures
        match r {
            Ok(c) => (spec_lex(src@, 0) matches Some(ts) && sp_compound(ts, 0) == Some(
                (compound_view(c), ts.len() as int),
            )),
            Err(SourceError::Lex(_)) => spec_lex(src@, 0) is None,
            Err(SourceError::Parse(_)) => (spec_lex(src@, 0) matches Some(ts) && match sp_compound(
                ts,
                0,
            ) {
                Some((v, e)) => e != ts.len(),
                None => true,
            }),
        },
{
    let toks = match crate::lexer::lexer(src) {
        Ok(t) => t,
        Err(e) => {
            return Err(SourceError::Lex(e));
        },
    };
    match crate::parser::compound_parser(&toks) {
        Ok(c) => Ok(c),
        Err(e) => Err(SourceError::Parse(e)),
    }
}

} // verus!
