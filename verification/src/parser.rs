//! The parser: turns a token stream into rules.
//!
//! The grammar is parsed by ordered choice with backtracking.  Condition
//! precedence, lowest to highest: disjunction (`or`, `;`), conjunction
//! (`and`, `,`), `not`, atomic or parenthesized.  Action precedence:
//! sequence (`;`, `seq`), alternative (`alt`), parallel (`,`, `par`),
//! primitive event.  Each `sp_...` function is the mathematical
//! definition of one nonterminal: given the tokens and a position it
//! yields the parsed tree and the position after it, or nothing.  The
//! executable parsers are proven to compute exactly these functions; the
//! public entry points also demand that the whole input is consumed.

use vstd::prelude::*;

use crate::ast::{
    Action, ActionList, ActionListView, ActionView, AtomicCondition, AtomicConditionView,
    CaseRule, CaseRuleView, Compound, CompoundView, Condition, ConditionView, DeclarativeRule,
    DeclarativeRuleView, Directive, DirectiveView, FactRule, FactRuleView, PrimitiveCondition,
    PrimitiveConditionView, PrimitiveEvent, PrimitiveEventView, ReactiveRule, ReactiveRuleView,
    Rule, RuleView,
};
use crate::errors::ParseError;
use crate::token::{Token, TokenView, tokens_view};

verus! {

// ---------------------------------------------------------------------
// The grammar as spec functions.
//
// All functions decrease lexicographically on (tokens left, rank): a
// call at the same position goes to a lower rank, and a call after at
// least one consumed token may go anywhere.  A `0 < e` guard keeps every
// continuation behind a strictly consumed prefix.
// ---------------------------------------------------------------------

/// Rules separated by nothing, ending at the closing brace or at the end
/// of input: the longest run of rules from `pos`.
pub open spec fn sp_rule_list(toks: Seq<TokenView>, pos: int) -> (Seq<RuleView>, int)
    decreases toks.len() - pos, 13int,
{
    match sp_rule(toks, pos) {
        None => (Seq::empty(), pos),
        Some((r, e)) => if pos < e <= toks.len() {
            let (rest, e2) = sp_rule_list(toks, e);
            (seq![r] + rest, e2)
        } else {
            (Seq::empty(), pos)
        },
    }
}

pub open spec fn sp_rule(toks: Seq<TokenView>, pos: int) -> Option<(RuleView, int)>
    decreases toks.len() - pos, 12int,
{
    match sp_eca(toks, pos) {
        Some(r) => Some(r),
        None => match sp_ca(toks, pos) {
            Some(r) => Some(r),
            None => match sp_cc(toks, pos) {
                Some(r) => Some(r),
                None => match sp_ct(toks, pos) {
                    Some(r) => Some(r),
                    None => match sp_case(toks, pos) {
                        Some(r) => Some(r),
                        None => sp_fact(toks, pos),
                    },
                },
            },
        },
    }
}

/// `=> A .` — the arrow, an action and the end of the rule.
pub open spec fn sp_arrow_tail(toks: Seq<TokenView>, pos: int) -> Option<(ActionView, int)>
    decreases toks.len() - pos, 10int,
{
    if pos < toks.len() && toks[pos] is FatArrow {
        match sp_action(toks, pos + 1) {
            None => None,
            Some((a, e)) => if e < toks.len() && toks[e] is EndRule {
                Some((a, e + 1))
            } else {
                None
            },
        }
    } else {
        None
    }
}

/// `#e : C => A .` or `#e => A .` (the event may be any primitive event).
pub open spec fn sp_eca(toks: Seq<TokenView>, pos: int) -> Option<(RuleView, int)>
    decreases toks.len() - pos, 11int,
{
    match sp_prim_event(toks, pos) {
        None => None,
        Some((ev, e1)) => if pos < e1 <= toks.len() {
            let (cond, e2) = if e1 < toks.len() && toks[e1] is Colon {
                match sp_condition(toks, e1 + 1) {
                    Some((c, e)) => if e1 + 1 <= e <= toks.len() {
                        (Some(c), e)
                    } else {
                        (None, e1)
                    },
                    None => (None, e1),
                }
            } else {
                (None, e1)
            };
            match sp_arrow_tail(toks, e2) {
                None => None,
                Some((a, e3)) => Some(
                    (
                        RuleView::Reactive(
                            ReactiveRuleView::ECA { event: ev, condition: cond, action: a },
                        ),
                        e3,
                    ),
                ),
            }
        } else {
            None
        },
    }
}

/// `: C => A .`
pub open spec fn sp_ca(toks: Seq<TokenView>, pos: int) -> Option<(RuleView, int)>
    decreases toks.len() - pos, 11int,
{
    if pos < toks.len() && toks[pos] is Colon {
        match sp_condition(toks, pos + 1) {
            None => None,
            Some((c, e1)) => if pos < e1 <= toks.len() {
                match sp_arrow_tail(toks, e1) {
                    None => None,
                    Some((a, e2)) => Some(
                        (
                            RuleView::Reactive(ReactiveRuleView::CA { condition: c, action: a }),
                            e2,
                        ),
                    ),
                }
            } else {
                None
            },
        }
    } else {
        None
    }
}

/// `C? -> AC .`
pub open spec fn sp_cc(toks: Seq<TokenView>, pos: int) -> Option<(RuleView, int)>
    decreases toks.len() - pos, 11int,
{
    let (premise, e1) = match sp_condition(toks, pos) {
        Some((c, e)) => if pos < e <= toks.len() {
            (Some(c), e)
        } else {
            (None, pos)
        },
        None => (None, pos),
    };
    if e1 < toks.len() && toks[e1] is ThinArrow {
        match sp_atomic(toks, e1 + 1) {
            None => None,
            Some((ac, e2)) => if e2 < toks.len() && toks[e2] is EndRule {
                Some(
                    (
                        RuleView::Declarative(
                            DeclarativeRuleView::CC { premise: premise, condition: ac },
                        ),
                        e2 + 1,
                    ),
                )
            } else {
                None
            },
        }
    } else {
        None
    }
}

/// `C? -o C .`
pub open spec fn sp_ct(toks: Seq<TokenView>, pos: int) -> Option<(RuleView, int)>
    decreases toks.len() - pos, 11int,
{
    let (premise, e1) = match sp_condition(toks, pos) {
        Some((c, e)) => if pos < e <= toks.len() {
            (Some(c), e)
        } else {
            (None, pos)
        },
        None => (None, pos),
    };
    if e1 < toks.len() && toks[e1] is DashO {
        match sp_condition(toks, e1 + 1) {
            None => None,
            Some((c, e2)) => if e2 < toks.len() && toks[e2] is EndRule {
                Some(
                    (
                        RuleView::Declarative(
                            DeclarativeRuleView::CT { premise: premise, condition: c },
                        ),
                        e2 + 1,
                    ),
                )
            } else {
                None
            },
        }
    } else {
        None
    }
}

/// `=> A .`
pub open spec fn sp_case(toks: Seq<TokenView>, pos: int) -> Option<(RuleView, int)>
    decreases toks.len() - pos, 11int,
{
    match sp_arrow_tail(toks, pos) {
        None => None,
        Some((a, e1)) => Some((RuleView::Case(CaseRuleView { action: a }), e1)),
    }
}

/// `AC .`
pub open spec fn sp_fact(toks: Seq<TokenView>, pos: int) -> Option<(RuleView, int)>
    decreases toks.len() - pos, 11int,
{
    match sp_atomic(toks, pos) {
        None => None,
        Some((ac, e1)) => if e1 < toks.len() && toks[e1] is EndRule {
            Some((RuleView::Fact(FactRuleView { condition: ac }), e1 + 1))
        } else {
            None
        },
    }
}

// ------------------------------ conditions ------------------------------

/// Disjunction level: conjunctions separated by `or` or `;`.
pub open spec fn sp_condition(toks: Seq<TokenView>, pos: int) -> Option<(ConditionView, int)>
    decreases toks.len() - pos, 9int,
{
    match sp_and(toks, pos) {
        None => None,
        Some((c, e)) => if pos < e <= toks.len() {
            let (items, e2) = sp_or_more(toks, e);
            if items.len() == 0 {
                Some((c, e))
            } else {
                Some((ConditionView::Disjunction(seq![c] + items), e2))
            }
        } else {
            None
        },
    }
}

/// Further `or`/`;`-separated conjunctions; a separator with no
/// conjunction after it is left unconsumed.
pub open spec fn sp_or_more(toks: Seq<TokenView>, pos: int) -> (Seq<ConditionView>, int)
    decreases toks.len() - pos, 8int,
{
    if pos < toks.len() && (toks[pos] is Or || toks[pos] is Semicolon) {
        match sp_and(toks, pos + 1) {
            None => (Seq::empty(), pos),
            Some((c, e)) => if pos + 1 < e <= toks.len() {
                let (rest, e2) = sp_or_more(toks, e);
                (seq![c] + rest, e2)
            } else {
                (Seq::empty(), pos)
            },
        }
    } else {
        (Seq::empty(), pos)
    }
}

/// Conjunction level: negations separated by `and` or `,`.
pub open spec fn sp_and(toks: Seq<TokenView>, pos: int) -> Option<(ConditionView, int)>
    decreases toks.len() - pos, 7int,
{
    match sp_not(toks, pos) {
        None => None,
        Some((c, e)) => if pos < e <= toks.len() {
            let (items, e2) = sp_and_more(toks, e);
            if items.len() == 0 {
                Some((c, e))
            } else {
                Some((ConditionView::Conjunction(seq![c] + items), e2))
            }
        } else {
            None
        },
    }
}

/// Further `and`/`,`-separated negations.
pub open spec fn sp_and_more(toks: Seq<TokenView>, pos: int) -> (Seq<ConditionView>, int)
    decreases toks.len() - pos, 6int,
{
    if pos < toks.len() && (toks[pos] is And || toks[pos] is Comma) {
        match sp_not(toks, pos + 1) {
            None => (Seq::empty(), pos),
            Some((c, e)) => if pos + 1 < e <= toks.len() {
                let (rest, e2) = sp_and_more(toks, e);
                (seq![c] + rest, e2)
            } else {
                (Seq::empty(), pos)
            },
        }
    } else {
        (Seq::empty(), pos)
    }
}

/// `not`* applied to a primary condition.
pub open spec fn sp_not(toks: Seq<TokenView>, pos: int) -> Option<(ConditionView, int)>
    decreases toks.len() - pos, 5int,
{
    if pos < toks.len() && toks[pos] is Not {
        match sp_not(toks, pos + 1) {
            None => None,
            Some((c, e)) => Some((ConditionView::Not(Box::new(c)), e)),
        }
    } else {
        sp_primary(toks, pos)
    }
}

/// An atomic condition, or a parenthesized condition.
pub open spec fn sp_primary(toks: Seq<TokenView>, pos: int) -> Option<(ConditionView, int)>
    decreases toks.len() - pos, 4int,
{
    match sp_atomic(toks, pos) {
        Some((ac, e)) => Some((ConditionView::Atomic(ac), e)),
        None => if pos < toks.len() && toks[pos] is LeftParenthesis {
            match sp_condition(toks, pos + 1) {
                None => None,
                Some((c, e)) => if e < toks.len() && toks[e] is RightParenthesis {
                    Some((ConditionView::Parentheses(Box::new(c)), e + 1))
                } else {
                    None
                },
            }
        } else {
            None
        },
    }
}

/// A namespace-qualified atomic condition, a primitive variable, or a
/// compound, tried in that order.
pub open spec fn sp_atomic(toks: Seq<TokenView>, pos: int) -> Option<(AtomicConditionView, int)>
    decreases toks.len() - pos, 2int,
{
    if pos + 1 < toks.len() && toks[pos] is Descriptor && toks[pos + 1] is Dot {
        match sp_atomic(toks, pos + 2) {
            None => None,
            Some((inner, e)) => Some(
                (
                    AtomicConditionView::SubCompound {
                        namespace: toks[pos]->Descriptor_0,
                        condition: Box::new(inner),
                    },
                    e,
                ),
            ),
        }
    } else if pos < toks.len() && toks[pos] is Descriptor {
        Some(
            (
                AtomicConditionView::Primitive(
                    PrimitiveConditionView::Var(toks[pos]->Descriptor_0),
                ),
                pos + 1,
            ),
        )
    } else {
        match sp_compound(toks, pos) {
            None => None,
            Some((c, e)) => Some((AtomicConditionView::Compound(c), e)),
        }
    }
}

/// `{ rule* } (as ident)?`
pub open spec fn sp_compound(toks: Seq<TokenView>, pos: int) -> Option<(CompoundView, int)>
    decreases toks.len() - pos, 1int,
{
    if pos < toks.len() && toks[pos] is LeftCBracket {
        let (rules, e1) = sp_rule_list(toks, pos + 1);
        if e1 < toks.len() && toks[e1] is RightCBracket {
            if e1 + 2 < toks.len() + 1 && toks[e1 + 1] is As && e1 + 2 < toks.len() && toks[e1
                + 2] is Descriptor {
                Some(
                    (
                        CompoundView {
                            rules: rules,
                            alias: Some(toks[e1 + 2]->Descriptor_0),
                        },
                        e1 + 3,
                    ),
                )
            } else {
                Some((CompoundView { rules: rules, alias: None }, e1 + 1))
            }
        } else {
            None
        }
    } else {
        None
    }
}

// ------------------------------- events --------------------------------

/// `#id`, `+AC`, or `-AC`.
pub open spec fn sp_prim_event(toks: Seq<TokenView>, pos: int) -> Option<(PrimitiveEventView, int)>
    decreases toks.len() - pos, 3int,
{
    if pos + 1 < toks.len() && toks[pos] is Hash && toks[pos + 1] is Descriptor {
        Some((PrimitiveEventView::Trigger(toks[pos + 1]->Descriptor_0), pos + 2))
    } else if pos < toks.len() && toks[pos] is Plus {
        match sp_atomic(toks, pos + 1) {
            None => None,
            Some((ac, e)) => Some((PrimitiveEventView::Production(ac), e)),
        }
    } else if pos < toks.len() && toks[pos] is Minus {
        match sp_atomic(toks, pos + 1) {
            None => None,
            Some((ac, e)) => Some((PrimitiveEventView::Consumption(ac), e)),
        }
    } else {
        None
    }
}

// ------------------------------- actions -------------------------------

/// Sequence level: alternatives separated by `;` or `seq`, with an
/// optional trailing separator.
pub open spec fn sp_action(toks: Seq<TokenView>, pos: int) -> Option<(ActionView, int)>
    decreases toks.len() - pos, 9int,
{
    match sp_alt(toks, pos) {
        None => None,
        Some((a, e)) => if pos < e <= toks.len() {
            let (items, e2) = sp_seq_more(toks, e);
            if items.len() == 0 {
                Some((a, e2))
            } else {
                Some((ActionView::List(ActionListView::Sequence(seq![a] + items)), e2))
            }
        } else {
            None
        },
    }
}

pub open spec fn sp_seq_more(toks: Seq<TokenView>, pos: int) -> (Seq<ActionView>, int)
    decreases toks.len() - pos, 8int,
{
    if pos < toks.len() && (toks[pos] is Semicolon || toks[pos] is SeqKw) {
        match sp_alt(toks, pos + 1) {
            None => (Seq::empty(), pos + 1),
            Some((a, e)) => if pos + 1 < e <= toks.len() {
                let (rest, e2) = sp_seq_more(toks, e);
                (seq![a] + rest, e2)
            } else {
                (Seq::empty(), pos + 1)
            },
        }
    } else {
        (Seq::empty(), pos)
    }
}

/// Alternative level: parallels separated by `alt`.
pub open spec fn sp_alt(toks: Seq<TokenView>, pos: int) -> Option<(ActionView, int)>
    decreases toks.len() - pos, 7int,
{
    match sp_par(toks, pos) {
        None => None,
        Some((a, e)) => if pos < e <= toks.len() {
            let (items, e2) = sp_alt_more(toks, e);
            if items.len() == 0 {
                Some((a, e2))
            } else {
                Some((ActionView::List(ActionListView::Alternative(seq![a] + items)), e2))
            }
        } else {
            None
        },
    }
}

pub open spec fn sp_alt_more(toks: Seq<TokenView>, pos: int) -> (Seq<ActionView>, int)
    decreases toks.len() - pos, 6int,
{
    if pos < toks.len() && toks[pos] is Alt {
        match sp_par(toks, pos + 1) {
            None => (Seq::empty(), pos + 1),
            Some((a, e)) => if pos + 1 < e <= toks.len() {
                let (rest, e2) = sp_alt_more(toks, e);
                (seq![a] + rest, e2)
            } else {
                (Seq::empty(), pos + 1)
            },
        }
    } else {
        (Seq::empty(), pos)
    }
}

/// Parallel level: primitive events separated by `,` or `par`.
pub open spec fn sp_par(toks: Seq<TokenView>, pos: int) -> Option<(ActionView, int)>
    decreases toks.len() - pos, 5int,
{
    match sp_prim_event(toks, pos) {
        None => None,
        Some((ev, e)) => if pos < e <= toks.len() {
            let (items, e2) = sp_par_more(toks, e);
            if items.len() == 0 {
                Some((ActionView::Primitive(ev), e2))
            } else {
                Some(
                    (
                        ActionView::List(
                            ActionListView::Parallel(seq![ActionView::Primitive(ev)] + items),
                        ),
                        e2,
                    ),
                )
            }
        } else {
            None
        },
    }
}

pub open spec fn sp_par_more(toks: Seq<TokenView>, pos: int) -> (Seq<ActionView>, int)
    decreases toks.len() - pos, 4int,
{
    if pos < toks.len() && (toks[pos] is Comma || toks[pos] is Par) {
        match sp_prim_event(toks, pos + 1) {
            None => (Seq::empty(), pos + 1),
            Some((ev, e)) => if pos + 1 < e <= toks.len() {
                let (rest, e2) = sp_par_more(toks, e);
                (seq![ActionView::Primitive(ev)] + rest, e2)
            } else {
                (Seq::empty(), pos + 1)
            },
        }
    } else {
        (Seq::empty(), pos)
    }
}

// ------------------------------- programs ------------------------------

/// The whole input as a run of rules; every token must be consumed.
pub open spec fn sp_program(toks: Seq<TokenView>) -> Option<Seq<RuleView>> {
    let (rules, e) = sp_rule_list(toks, 0);
    if e == toks.len() {
        Some(rules)
    } else {
        None
    }
}

// ------------------------------ directives -----------------------------

/// `@scale(n) compound`, `@include(x)`, `@exclude(x)`, `@interleaving`,
/// `@external(event)` or `@external(x)`.
pub open spec fn sp_directive(toks: Seq<TokenView>, pos: int) -> Option<(DirectiveView, int)>
    decreases toks.len() - pos, 14int,
{
    if pos + 1 < toks.len() && toks[pos] is At && toks[pos + 1] is Descriptor {
        let name = toks[pos + 1]->Descriptor_0;
        if name == "scale"@ {
            if pos + 4 < toks.len() && toks[pos + 2] is LeftParenthesis && toks[pos
                + 3] is Number && toks[pos + 4] is RightParenthesis {
                match sp_compound(toks, pos + 5) {
                    None => None,
                    Some((c, e)) => Some(
                        (
                            DirectiveView::Scale { number: toks[pos + 3]->Number_0, policy: c },
                            e,
                        ),
                    ),
                }
            } else {
                None
            }
        } else if name == "include"@ || name == "exclude"@ {
            if pos + 4 < toks.len() && toks[pos + 2] is LeftParenthesis && toks[pos
                + 3] is Descriptor && toks[pos + 4] is RightParenthesis {
                let arg = toks[pos + 3]->Descriptor_0;
                if name == "include"@ {
                    Some((DirectiveView::Include(arg), pos + 5))
                } else {
                    Some((DirectiveView::Exclude(arg), pos + 5))
                }
            } else {
                None
            }
        } else if name == "interleaving"@ {
            Some((DirectiveView::Interleaving, pos + 2))
        } else if name == "external"@ {
            if pos + 2 < toks.len() && toks[pos + 2] is LeftParenthesis {
                match sp_prim_event(toks, pos + 3) {
                    Some((ev, e)) => if e < toks.len() && toks[e] is RightParenthesis {
                        Some((DirectiveView::ExternalEvent(ev), e + 1))
                    } else {
                        None
                    },
                    None => if pos + 4 < toks.len() && toks[pos + 3] is Descriptor && toks[pos
                        + 4] is RightParenthesis {
                        Some((DirectiveView::ExternalVar(toks[pos + 3]->Descriptor_0), pos + 5))
                    } else {
                        None
                    },
                }
            } else {
                None
            }
        } else {
            None
        }
    } else {
        None
    }
}

// ---------------------------------------------------------------------
// Executable parsing.  Each function computes exactly its spec.
// ---------------------------------------------------------------------

fn parse_rule_list(toks: &Vec<Token>, pos: usize) -> (r: (Vec<Rule>, usize))
    requires
        pos <= toks@.len(),
    ensures
        sp_rule_list(tokens_view(toks@), pos as int) == (crate::ast::rules_view(r.0@), r.1 as int),
        pos <= r.1 <= toks@.len(),
    decreases toks@.len() - pos, 13int,
{
    match parse_rule(toks, pos) {
        Err(_) => (Vec::new(), pos),
        Ok((rule, e)) => {
            let (rest, e2) = parse_rule_list(toks, e);
            let mut out: Vec<Rule> = Vec::new();
            out.push(rule);
            let mut rest_vec = rest;
            out.append(&mut rest_vec);
            proof {
                crate::ast::lemma_rules_view_concat(seq![out@[0]], rest@);
                assert(out@ =~= seq![out@[0]] + rest@);
                crate::ast::lemma_rules_view_singleton(out@[0]);
            }
            (out, e2)
        },
    }
}

fn parse_rule(toks: &Vec<Token>, pos: usize) -> (r: Result<(Rule, usize), ParseError>)
    requires
        pos <= toks@.len(),
    ensures
        match r {
            Ok((x, e)) => sp_rule(tokens_view(toks@), pos as int) == Some((x@, e as int)) && pos
                < e <= toks@.len(),
            Err(_) => sp_rule(tokens_view(toks@), pos as int) is None,
        },
    decreases toks@.len() - pos, 12int,
{
    match parse_eca(toks, pos) {
        Ok(r) => Ok(r),
        Err(_) => match parse_ca(toks, pos) {
            Ok(r) => Ok(r),
            Err(_) => match parse_cc(toks, pos) {
                Ok(r) => Ok(r),
                Err(_) => match parse_ct(toks, pos) {
                    Ok(r) => Ok(r),
                    Err(_) => match parse_case(toks, pos) {
                        Ok(r) => Ok(r),
                        Err(_) => parse_fact(toks, pos),
                    },
                },
            },
        },
    }
}

#[verifier::rlimit(100)]
fn parse_arrow_tail(toks: &Vec<Token>, pos: usize) -> (r: Result<(Action, usize), ParseError>)
    requires
        pos <= toks@.len(),
    ensures
        match r {
            Ok((a, e)) => sp_arrow_tail(tokens_view(toks@), pos as int) == Some((a@, e as int))
                && pos < e <= toks@.len(),
            Err(_) => sp_arrow_tail(tokens_view(toks@), pos as int) is None,
        },
    decreases toks@.len() - pos, 10int,
{
    let n = toks.len();
    if pos < n && matches!(&toks[pos], Token::FatArrow) {
        let (a, e) = match parse_action_at(toks, pos + 1) {
            Ok(x) => x,
            Err(e) => {
                return Err(e);
            },
        };
        if e < n && matches!(&toks[e], Token::EndRule) {
            Ok((a, e + 1))
        } else {
            Err(ParseError { at: e, expected: "end of rule" })
        }
    } else {
        Err(ParseError { at: pos, expected: "fat arrow" })
    }
}

#[verifier::rlimit(100)]
#[verifier::spinoff_prover]
fn parse_eca(toks: &Vec<Token>, pos: usize) -> (r: Result<(Rule, usize), ParseError>)
    requires
        pos <= toks@.len(),
    ensures
        match r {
            Ok((x, e)) => sp_eca(tokens_view(toks@), pos as int) == Some((x@, e as int)) && pos
                < e <= toks@.len(),
            Err(_) => sp_eca(tokens_view(toks@), pos as int) is None,
        },
    decreases toks@.len() - pos, 11int,
{
    let n = toks.len();
    let (ev, e1) = match parse_prim_event(toks, pos) {
        Ok(x) => x,
        Err(e) => {
            return Err(e);
        },
    };
    let has_colon = e1 < n && matches!(&toks[e1], Token::Colon);
    let (cond, e2) = if has_colon {
        match parse_condition_at(toks, e1 + 1) {
            Ok((c, e)) => (Some(c), e),
            Err(_) => (None, e1),
        }
    } else {
        (None, e1)
    };
    match parse_arrow_tail(toks, e2) {
        Err(e) => Err(e),
        Ok((a, e3)) => Ok(
            (Rule::Reactive(ReactiveRule::ECA { event: ev, condition: cond, action: a }), e3),
        ),
    }
}

#[verifier::rlimit(100)]
#[verifier::spinoff_prover]
fn parse_ca(toks: &Vec<Token>, pos: usize) -> (r: Result<(Rule, usize), ParseError>)
    requires
        pos <= toks@.len(),
    ensures
        match r {
            Ok((x, e)) => sp_ca(tokens_view(toks@), pos as int) == Some((x@, e as int)) && pos < e
                <= toks@.len(),
            Err(_) => sp_ca(tokens_view(toks@), pos as int) is None,
        },
    decreases toks@.len() - pos, 11int,
{
    let n = toks.len();
    if pos < n && matches!(&toks[pos], Token::Colon) {
        let (c, e1) = match parse_condition_at(toks, pos + 1) {
            Ok(x) => x,
            Err(e) => {
                return Err(e);
            },
        };
        match parse_arrow_tail(toks, e1) {
            Err(e) => Err(e),
            Ok((a, e2)) => Ok((Rule::Reactive(ReactiveRule::CA { condition: c, action: a }), e2)),
        }
    } else {
        Err(ParseError { at: pos, expected: "colon and condition" })
    }
}

#[verifier::rlimit(80)]
fn parse_cc(toks: &Vec<Token>, pos: usize) -> (r: Result<(Rule, usize), ParseError>)
    requires
        pos <= toks@.len(),
    ensures
        match r {
            Ok((x, e)) => sp_cc(tokens_view(toks@), pos as int) == Some((x@, e as int)) && pos < e
                <= toks@.len(),
            Err(_) => sp_cc(tokens_view(toks@), pos as int) is None,
        },
    decreases toks@.len() - pos, 11int,
{
    let n = toks.len();
    let (premise, e1) = match parse_condition_at(toks, pos) {
        Ok((c, e)) => (Some(c), e),
        Err(_) => (None, pos),
    };
    if e1 < n && matches!(&toks[e1], Token::ThinArrow) {
        let (ac, e2) = match parse_atomic_at(toks, e1 + 1) {
            Ok(x) => x,
            Err(e) => {
                return Err(e);
            },
        };
        if e2 < n && matches!(&toks[e2], Token::EndRule) {
            Ok((Rule::Declarative(DeclarativeRule::CC { premise, condition: ac }), e2 + 1))
        } else {
            Err(ParseError { at: e2, expected: "end of rule" })
        }
    } else {
        Err(ParseError { at: e1, expected: "end of rule" })
    }
}

#[verifier::rlimit(100)]
#[verifier::spinoff_prover]
fn parse_ct(toks: &Vec<Token>, pos: usize) -> (r: Result<(Rule, usize), ParseError>)
    requires
        pos <= toks@.len(),
    ensures
        match r {
            Ok((x, e)) => sp_ct(tokens_view(toks@), pos as int) == Some((x@, e as int)) && pos < e
                <= toks@.len(),
            Err(_) => sp_ct(tokens_view(toks@), pos as int) is None,
        },
    decreases toks@.len() - pos, 11int,
{
    let n = toks.len();
    let (premise, e1) = match parse_condition_at(toks, pos) {
        Ok((c, e)) => (Some(c), e),
        Err(_) => (None, pos),
    };
    if e1 < n && matches!(&toks[e1], Token::DashO) {
        let (c, e2) = match parse_condition_at(toks, e1 + 1) {
            Ok(x) => x,
            Err(e) => {
                return Err(e);
            },
        };
        if e2 < n && matches!(&toks[e2], Token::EndRule) {
            Ok((Rule::Declarative(DeclarativeRule::CT { premise, condition: c }), e2 + 1))
        } else {
            Err(ParseError { at: e2, expected: "end of rule" })
        }
    } else {
        Err(ParseError { at: e1, expected: "end of rule" })
    }
}

#[verifier::rlimit(80)]
fn parse_case(toks: &Vec<Token>, pos: usize) -> (r: Result<(Rule, usize), ParseError>)
    requires
        pos <= toks@.len(),
    ensures
        match r {
            Ok((x, e)) => sp_case(tokens_view(toks@), pos as int) == Some((x@, e as int)) && pos
                < e <= toks@.len(),
            Err(_) => sp_case(tokens_view(toks@), pos as int) is None,
        },
    decreases toks@.len() - pos, 11int,
{
    match parse_arrow_tail(toks, pos) {
        Err(e) => Err(e),
        Ok((a, e1)) => Ok((Rule::Case(CaseRule { action: a }), e1)),
    }
}

fn parse_fact(toks: &Vec<Token>, pos: usize) -> (r: Result<(Rule, usize), ParseError>)
    requires
        pos <= toks@.len(),
    ensures
        match r {
            Ok((x, e)) => sp_fact(tokens_view(toks@), pos as int) == Some((x@, e as int)) && pos
                < e <= toks@.len(),
            Err(_) => sp_fact(tokens_view(toks@), pos as int) is None,
        },
    decreases toks@.len() - pos, 11int,
{
    let n = toks.len();
    let (ac, e1) = match parse_atomic_at(toks, pos) {
        Ok(x) => x,
        Err(e) => {
            return Err(e);
        },
    };
    if e1 < n && matches!(&toks[e1], Token::EndRule) {
        Ok((Rule::Fact(FactRule { condition: ac }), e1 + 1))
    } else {
        Err(ParseError { at: e1, expected: "end of rule" })
    }
}

fn parse_condition_at(toks: &Vec<Token>, pos: usize) -> (r: Result<
    (Condition, usize),
    ParseError,
>)
    requires
        pos <= toks@.len(),
    ensures
        match r {
            Ok((x, e)) => sp_condition(tokens_view(toks@), pos as int) == Some((x@, e as int))
                && pos < e <= toks@.len(),
            Err(_) => sp_condition(tokens_view(toks@), pos as int) is None,
        },
    decreases toks@.len() - pos, 9int,
{
    let (c, e) = match parse_and_at(toks, pos) {
        Ok(x) => x,
        Err(err) => {
            return Err(err);
        },
    };
    let (items, e2) = parse_or_more(toks, e);
    if items.len() == 0 {
        proof {
            crate::ast::lemma_conds_view_len(items@);
        }
        Ok((c, e))
    } else {
        let mut parts: Vec<Condition> = Vec::new();
        parts.push(c);
        let mut items_vec = items;
        parts.append(&mut items_vec);
        proof {
            crate::ast::lemma_conds_view_concat(seq![parts@[0]], items@);
            assert(parts@ =~= seq![parts@[0]] + items@);
            crate::ast::lemma_conds_view_singleton(parts@[0]);
            crate::ast::lemma_conds_view_len(items@);
        }
        Ok((Condition::Disjunction(parts), e2))
    }
}

fn parse_or_more(toks: &Vec<Token>, pos: usize) -> (r: (Vec<Condition>, usize))
    requires
        pos <= toks@.len(),
    ensures
        sp_or_more(tokens_view(toks@), pos as int) == (crate::ast::conds_view(r.0@), r.1 as int),
        pos <= r.1 <= toks@.len(),
    decreases toks@.len() - pos, 8int,
{
    let n = toks.len();
    if pos < n && (matches!(&toks[pos], Token::Or) || matches!(&toks[pos], Token::Semicolon)) {
        match parse_and_at(toks, pos + 1) {
            Err(_) => (Vec::new(), pos),
            Ok((c, e)) => {
                let (rest, e2) = parse_or_more(toks, e);
                let mut out: Vec<Condition> = Vec::new();
                out.push(c);
                let mut rest_vec = rest;
                out.append(&mut rest_vec);
                proof {
                    crate::ast::lemma_conds_view_concat(seq![out@[0]], rest@);
                    assert(out@ =~= seq![out@[0]] + rest@);
                    crate::ast::lemma_conds_view_singleton(out@[0]);
                }
                (out, e2)
            },
        }
    } else {
        (Vec::new(), pos)
    }
}

fn parse_and_at(toks: &Vec<Token>, pos: usize) -> (r: Result<(Condition, usize), ParseError>)
    requires
        pos <= toks@.len(),
    ensures
        match r {
            Ok((x, e)) => sp_and(tokens_view(toks@), pos as int) == Some((x@, e as int)) && pos
                < e <= toks@.len(),
            Err(_) => sp_and(tokens_view(toks@), pos as int) is None,
        },
    decreases toks@.len() - pos, 7int,
{
    let (c, e) = match parse_not_at(toks, pos) {
        Ok(x) => x,
        Err(err) => {
            return Err(err);
        },
    };
    let (items, e2) = parse_and_more(toks, e);
    if items.len() == 0 {
        proof {
            crate::ast::lemma_conds_view_len(items@);
        }
        Ok((c, e))
    } else {
        let mut parts: Vec<Condition> = Vec::new();
        parts.push(c);
        let mut items_vec = items;
        parts.append(&mut items_vec);
        proof {
            crate::ast::lemma_conds_view_concat(seq![parts@[0]], items@);
            assert(parts@ =~= seq![parts@[0]] + items@);
            crate::ast::lemma_conds_view_singleton(parts@[0]);
            crate::ast::lemma_conds_view_len(items@);
        }
        Ok((Condition::Conjunction(parts), e2))
    }
}

fn parse_and_more(toks: &Vec<Token>, pos: usize) -> (r: (Vec<Condition>, usize))
    requires
        pos <= toks@.len(),
    ensures
        sp_and_more(tokens_view(toks@), pos as int) == (crate::ast::conds_view(r.0@), r.1 as int),
        pos <= r.1 <= toks@.len(),
    decreases toks@.len() - pos, 6int,
{
    let n = toks.len();
    if pos < n && (matches!(&toks[pos], Token::And) || matches!(&toks[pos], Token::Comma)) {
        match parse_not_at(toks, pos + 1) {
            Err(_) => (Vec::new(), pos),
            Ok((c, e)) => {
                let (rest, e2) = parse_and_more(toks, e);
                let mut out: Vec<Condition> = Vec::new();
                out.push(c);
                let mut rest_vec = rest;
                out.append(&mut rest_vec);
                proof {
                    crate::ast::lemma_conds_view_concat(seq![out@[0]], rest@);
                    assert(out@ =~= seq![out@[0]] + rest@);
                    crate::ast::lemma_conds_view_singleton(out@[0]);
                }
                (out, e2)
            },
        }
    } else {
        (Vec::new(), pos)
    }
}

fn parse_not_at(toks: &Vec<Token>, pos: usize) -> (r: Result<(Condition, usize), ParseError>)
    requires
        pos <= toks@.len(),
    ensures
        match r {
            Ok((x, e)) => sp_not(tokens_view(toks@), pos as int) == Some((x@, e as int)) && pos
                < e <= toks@.len(),
            Err(_) => sp_not(tokens_view(toks@), pos as int) is None,
        },
    decreases toks@.len() - pos, 5int,
{
    let n = toks.len();
    if pos < n && matches!(&toks[pos], Token::Not) {
        match parse_not_at(toks, pos + 1) {
            Err(e) => Err(e),
            Ok((c, e)) => Ok((Condition::Not(Box::new(c)), e)),
        }
    } else {
        parse_primary_at(toks, pos)
    }
}

fn parse_primary_at(toks: &Vec<Token>, pos: usize) -> (r: Result<(Condition, usize), ParseError>)
    requires
        pos <= toks@.len(),
    ensures
        match r {
            Ok((x, e)) => sp_primary(tokens_view(toks@), pos as int) == Some((x@, e as int)) && pos
                < e <= toks@.len(),
            Err(_) => sp_primary(tokens_view(toks@), pos as int) is None,
        },
    decreases toks@.len() - pos, 4int,
{
    let n = toks.len();
    match parse_atomic_at(toks, pos) {
        Ok((ac, e)) => Ok((Condition::Atomic(ac), e)),
        Err(_) => {
            if pos < n && matches!(&toks[pos], Token::LeftParenthesis) {
                let (c, e) = match parse_condition_at(toks, pos + 1) {
                    Ok(x) => x,
                    Err(err) => {
                        return Err(err);
                    },
                };
                if e < n && matches!(&toks[e], Token::RightParenthesis) {
                    Ok((Condition::Parentheses(Box::new(c)), e + 1))
                } else {
                    Err(ParseError { at: e, expected: "closing parenthesis" })
                }
            } else {
                Err(ParseError { at: pos, expected: "atomic or parenthesized condition" })
            }
        },
    }
}

fn parse_atomic_at(toks: &Vec<Token>, pos: usize) -> (r: Result<
    (AtomicCondition, usize),
    ParseError,
>)
    requires
        pos <= toks@.len(),
    ensures
        match r {
            Ok((x, e)) => sp_atomic(tokens_view(toks@), pos as int) == Some((x@, e as int)) && pos
                < e <= toks@.len(),
            Err(_) => sp_atomic(tokens_view(toks@), pos as int) is None,
        },
    decreases toks@.len() - pos, 2int,
{
    let n = toks.len();
    if pos < n && pos + 1 < n && matches!(&toks[pos], Token::Descriptor(_)) && matches!(
        &toks[pos + 1],
        Token::Dot,
    ) {
        let namespace = match &toks[pos] {
            Token::Descriptor(d) => d.clone(),
            _ => {
                proof {
                    assert(false);
                }
                String::new()
            },
        };
        match parse_atomic_at(toks, pos + 2) {
            Err(e) => Err(e),
            Ok((inner, e)) => Ok(
                (AtomicCondition::SubCompound { namespace, condition: Box::new(inner) }, e),
            ),
        }
    } else if pos < n && matches!(&toks[pos], Token::Descriptor(_)) {
        let name = match &toks[pos] {
            Token::Descriptor(d) => d.clone(),
            _ => {
                proof {
                    assert(false);
                }
                String::new()
            },
        };
        Ok((AtomicCondition::Primitive(PrimitiveCondition::Var(name)), pos + 1))
    } else {
        match parse_compound_at(toks, pos) {
            Err(e) => Err(e),
            Ok((c, e)) => Ok((AtomicCondition::Compound(c), e)),
        }
    }
}

fn parse_compound_at(toks: &Vec<Token>, pos: usize) -> (r: Result<(Compound, usize), ParseError>)
    requires
        pos <= toks@.len(),
    ensures
        match r {
            Ok((x, e)) => sp_compound(tokens_view(toks@), pos as int) == Some((x@, e as int))
                && pos < e <= toks@.len(),
            Err(_) => sp_compound(tokens_view(toks@), pos as int) is None,
        },
    decreases toks@.len() - pos, 1int,
{
    let n = toks.len();
    if pos < n && matches!(&toks[pos], Token::LeftCBracket) {
        let (rules, e1) = parse_rule_list(toks, pos + 1);
        if e1 < n && matches!(&toks[e1], Token::RightCBracket) {
            if e1 + 1 < n && matches!(&toks[e1 + 1], Token::As) && e1 + 2 < n && matches!(
                &toks[e1 + 2],
                Token::Descriptor(_),
            ) {
                let alias = match &toks[e1 + 2] {
                    Token::Descriptor(d) => d.clone(),
                    _ => {
                        proof {
                            assert(false);
                        }
                        String::new()
                    },
                };
                Ok((Compound { rules, alias: Some(alias) }, e1 + 3))
            } else {
                Ok((Compound { rules, alias: None }, e1 + 1))
            }
        } else {
            Err(ParseError { at: e1, expected: "closing brace" })
        }
    } else {
        Err(ParseError { at: pos, expected: "compound" })
    }
}

fn parse_prim_event(toks: &Vec<Token>, pos: usize) -> (r: Result<
    (PrimitiveEvent, usize),
    ParseError,
>)
    requires
        pos <= toks@.len(),
    ensures
        match r {
            Ok((x, e)) => sp_prim_event(tokens_view(toks@), pos as int) == Some((x@, e as int))
                && pos < e <= toks@.len(),
            Err(_) => sp_prim_event(tokens_view(toks@), pos as int) is None,
        },
    decreases toks@.len() - pos, 3int,
{
    let n = toks.len();
    if pos < n && pos + 1 < n && matches!(&toks[pos], Token::Hash) && matches!(
        &toks[pos + 1],
        Token::Descriptor(_),
    ) {
        let id = match &toks[pos + 1] {
            Token::Descriptor(d) => d.clone(),
            _ => {
                proof {
                    assert(false);
                }
                String::new()
            },
        };
        Ok((PrimitiveEvent::Trigger(id), pos + 2))
    } else if pos < n && matches!(&toks[pos], Token::Plus) {
        match parse_atomic_at(toks, pos + 1) {
            Err(e) => Err(e),
            Ok((ac, e)) => Ok((PrimitiveEvent::Production(ac), e)),
        }
    } else if pos < n && matches!(&toks[pos], Token::Minus) {
        match parse_atomic_at(toks, pos + 1) {
            Err(e) => Err(e),
            Ok((ac, e)) => Ok((PrimitiveEvent::Consumption(ac), e)),
        }
    } else {
        Err(ParseError { at: pos, expected: "primitive event" })
    }
}

#[verifier::rlimit(80)]
fn parse_action_at(toks: &Vec<Token>, pos: usize) -> (r: Result<(Action, usize), ParseError>)
    requires
        pos <= toks@.len(),
    ensures
        match r {
            Ok((x, e)) => sp_action(tokens_view(toks@), pos as int) == Some((x@, e as int)) && pos
                < e <= toks@.len(),
            Err(_) => sp_action(tokens_view(toks@), pos as int) is None,
        },
    decreases toks@.len() - pos, 9int,
{
    let (a, e) = match parse_alt_at(toks, pos) {
        Ok(x) => x,
        Err(err) => {
            return Err(err);
        },
    };
    let (items, e2) = parse_seq_more(toks, e);
    if items.len() == 0 {
        proof {
            crate::ast::lemma_actions_view_len(items@);
        }
        Ok((a, e2))
    } else {
        let mut parts: Vec<Action> = Vec::new();
        parts.push(a);
        let mut items_vec = items;
        parts.append(&mut items_vec);
        proof {
            crate::ast::lemma_actions_view_concat(seq![parts@[0]], items@);
            assert(parts@ =~= seq![parts@[0]] + items@);
            crate::ast::lemma_actions_view_singleton(parts@[0]);
            crate::ast::lemma_actions_view_len(items@);
        }
        Ok((Action::List(ActionList::Sequence(parts)), e2))
    }
}

#[verifier::rlimit(80)]
fn parse_seq_more(toks: &Vec<Token>, pos: usize) -> (r: (Vec<Action>, usize))
    requires
        pos <= toks@.len(),
    ensures
        sp_seq_more(tokens_view(toks@), pos as int) == (crate::ast::actions_view(r.0@), r.1 as int),
        pos <= r.1 <= toks@.len(),
    decreases toks@.len() - pos, 8int,
{
    let n = toks.len();
    if pos < n && (matches!(&toks[pos], Token::Semicolon) || matches!(&toks[pos], Token::SeqKw)) {
        match parse_alt_at(toks, pos + 1) {
            Err(_) => (Vec::new(), pos + 1),
            Ok((a, e)) => {
                let (rest, e2) = parse_seq_more(toks, e);
                let mut out: Vec<Action> = Vec::new();
                out.push(a);
                let mut rest_vec = rest;
                out.append(&mut rest_vec);
                proof {
                    crate::ast::lemma_actions_view_concat(seq![out@[0]], rest@);
                    assert(out@ =~= seq![out@[0]] + rest@);
                    crate::ast::lemma_actions_view_singleton(out@[0]);
                }
                (out, e2)
            },
        }
    } else {
        (Vec::new(), pos)
    }
}

#[verifier::rlimit(80)]
fn parse_alt_at(toks: &Vec<Token>, pos: usize) -> (r: Result<(Action, usize), ParseError>)
    requires
        pos <= toks@.len(),
    ensures
        match r {
            Ok((x, e)) => sp_alt(tokens_view(toks@), pos as int) == Some((x@, e as int)) && pos
                < e <= toks@.len(),
            Err(_) => sp_alt(tokens_view(toks@), pos as int) is None,
        },
    decreases toks@.len() - pos, 7int,
{
    let (a, e) = match parse_par_at(toks, pos) {
        Ok(x) => x,
        Err(err) => {
            return Err(err);
        },
    };
    let (items, e2) = parse_alt_more(toks, e);
    if items.len() == 0 {
        proof {
            crate::ast::lemma_actions_view_len(items@);
        }
        Ok((a, e2))
    } else {
        let mut parts: Vec<Action> = Vec::new();
        parts.push(a);
        let mut items_vec = items;
        parts.append(&mut items_vec);
        proof {
            crate::ast::lemma_actions_view_concat(seq![parts@[0]], items@);
            assert(parts@ =~= seq![parts@[0]] + items@);
            crate::ast::lemma_actions_view_singleton(parts@[0]);
            crate::ast::lemma_actions_view_len(items@);
        }
        Ok((Action::List(ActionList::Alternative(parts)), e2))
    }
}

#[verifier::rlimit(80)]
fn parse_alt_more(toks: &Vec<Token>, pos: usize) -> (r: (Vec<Action>, usize))
    requires
        pos <= toks@.len(),
    ensures
        sp_alt_more(tokens_view(toks@), pos as int) == (crate::ast::actions_view(r.0@), r.1 as int),
        pos <= r.1 <= toks@.len(),
    decreases toks@.len() - pos, 6int,
{
    let n = toks.len();
    if pos < n && matches!(&toks[pos], Token::Alt) {
        match parse_par_at(toks, pos + 1) {
            Err(_) => (Vec::new(), pos + 1),
            Ok((a, e)) => {
                let (rest, e2) = parse_alt_more(toks, e);
                let mut out: Vec<Action> = Vec::new();
                out.push(a);
                let mut rest_vec = rest;
                out.append(&mut rest_vec);
                proof {
                    crate::ast::lemma_actions_view_concat(seq![out@[0]], rest@);
                    assert(out@ =~= seq![out@[0]] + rest@);
                    crate::ast::lemma_actions_view_singleton(out@[0]);
                }
                (out, e2)
            },
        }
    } else {
        (Vec::new(), pos)
    }
}

#[verifier::rlimit(80)]
fn parse_par_at(toks: &Vec<Token>, pos: usize) -> (r: Result<(Action, usize), ParseError>)
    requires
        pos <= toks@.len(),
    ensures
        match r {
            Ok((x, e)) => sp_par(tokens_view(toks@), pos as int) == Some((x@, e as int)) && pos
                < e <= toks@.len(),
            Err(_) => sp_par(tokens_view(toks@), pos as int) is None,
        },
    decreases toks@.len() - pos, 5int,
{
    let (ev, e) = match parse_prim_event(toks, pos) {
        Ok(x) => x,
        Err(err) => {
            return Err(err);
        },
    };
    let (items, e2) = parse_par_more(toks, e);
    if items.len() == 0 {
        proof {
            crate::ast::lemma_actions_view_len(items@);
        }
        Ok((Action::Primitive(ev), e2))
    } else {
        let mut parts: Vec<Action> = Vec::new();
        parts.push(Action::Primitive(ev));
        let mut items_vec = items;
        parts.append(&mut items_vec);
        proof {
            crate::ast::lemma_actions_view_concat(seq![parts@[0]], items@);
            assert(parts@ =~= seq![parts@[0]] + items@);
            crate::ast::lemma_actions_view_singleton(parts@[0]);
            crate::ast::lemma_actions_view_len(items@);
        }
        Ok((Action::List(ActionList::Parallel(parts)), e2))
    }
}

fn parse_par_more(toks: &Vec<Token>, pos: usize) -> (r: (Vec<Action>, usize))
    requires
        pos <= toks@.len(),
    ensures
        sp_par_more(tokens_view(toks@), pos as int) == (crate::ast::actions_view(r.0@), r.1 as int),
        pos <= r.1 <= toks@.len(),
    decreases toks@.len() - pos, 4int,
{
    let n = toks.len();
    if pos < n && (matches!(&toks[pos], Token::Comma) || matches!(&toks[pos], Token::Par)) {
        match parse_prim_event(toks, pos + 1) {
            Err(_) => (Vec::new(), pos + 1),
            Ok((ev, e)) => {
                let (rest, e2) = parse_par_more(toks, e);
                let mut out: Vec<Action> = Vec::new();
                out.push(Action::Primitive(ev));
                let mut rest_vec = rest;
                out.append(&mut rest_vec);
                proof {
                    crate::ast::lemma_actions_view_concat(seq![out@[0]], rest@);
                    assert(out@ =~= seq![out@[0]] + rest@);
                    crate::ast::lemma_actions_view_singleton(out@[0]);
                }
                (out, e2)
            },
        }
    } else {
        (Vec::new(), pos)
    }
}

// ---------------------------------------------------------------------
// Entry points: each parses its nonterminal and demands that the whole
// token stream is consumed.
// ---------------------------------------------------------------------

/// Parse a whole program: a run of rules covering every token.
pub fn program_parser(toks: &Vec<Token>) -> (r: Result<Vec<Rule>, ParseError>)
    ensures
        match r {
            Ok(rules) => sp_program(tokens_view(toks@)) == Some(crate::ast::rules_view(rules@)),
            Err(_) => sp_program(tokens_view(toks@)) is None,
        },
{
    let (rules, e) = parse_rule_list(toks, 0);
    if e == toks.len() {
        Ok(rules)
    } else {
        Err(ParseError { at: e, expected: "end of input" })
    }
}

/// Parse exactly one rule covering every token.
pub fn rule_parser(toks: &Vec<Token>) -> (r: Result<Rule, ParseError>)
    ensures
        match r {
            Ok(x) => sp_rule(tokens_view(toks@), 0) == Some((x@, toks@.len() as int)),
            Err(_) => match sp_rule(tokens_view(toks@), 0) {
                Some((v, e)) => e != toks@.len(),
                None => true,
            },
        },
{
    match parse_rule(toks, 0) {
        Err(e) => Err(e),
        Ok((x, e)) => {
            if e == toks.len() {
                Ok(x)
            } else {
                Err(ParseError { at: e, expected: "end of input" })
            }
        },
    }
}

/// Parse exactly one condition covering every token.
pub fn condition_parser(toks: &Vec<Token>) -> (r: Result<Condition, ParseError>)
    ensures
        match r {
            Ok(x) => sp_condition(tokens_view(toks@), 0) == Some((x@, toks@.len() as int)),
            Err(_) => match sp_condition(tokens_view(toks@), 0) {
                Some((v, e)) => e != toks@.len(),
                None => true,
            },
        },
{
    match parse_condition_at(toks, 0) {
        Err(e) => Err(e),
        Ok((x, e)) => {
            if e == toks.len() {
                Ok(x)
            } else {
                Err(ParseError { at: e, expected: "end of input" })
            }
        },
    }
}

/// Parse exactly one atomic condition covering every token.
pub fn atomic_condition_parser(toks: &Vec<Token>) -> (r: Result<AtomicCondition, ParseError>)
    ensures
        match r {
            Ok(x) => sp_atomic(tokens_view(toks@), 0) == Some((x@, toks@.len() as int)),
            Err(_) => match sp_atomic(tokens_view(toks@), 0) {
                Some((v, e)) => e != toks@.len(),
                None => true,
            },
        },
{
    match parse_atomic_at(toks, 0) {
        Err(e) => Err(e),
        Ok((x, e)) => {
            if e == toks.len() {
                Ok(x)
            } else {
                Err(ParseError { at: e, expected: "end of input" })
            }
        },
    }
}

/// Parse exactly one compound covering every token.
pub fn compound_parser(toks: &Vec<Token>) -> (r: Result<Compound, ParseError>)
    ensures
        match r {
            Ok(x) => sp_compound(tokens_view(toks@), 0) == Some((x@, toks@.len() as int)),
            Err(_) => match sp_compound(tokens_view(toks@), 0) {
                Some((v, e)) => e != toks@.len(),
                None => true,
            },
        },
{
    match parse_compound_at(toks, 0) {
        Err(e) => Err(e),
        Ok((x, e)) => {
            if e == toks.len() {
                Ok(x)
            } else {
                Err(ParseError { at: e, expected: "end of input" })
            }
        },
    }
}

/// Parse exactly one primitive event covering every token.
pub fn primitive_event_parser(toks: &Vec<Token>) -> (r: Result<PrimitiveEvent, ParseError>)
    ensures
        match r {
            Ok(x) => sp_prim_event(tokens_view(toks@), 0) == Some((x@, toks@.len() as int)),
            Err(_) => match sp_prim_event(tokens_view(toks@), 0) {
                Some((v, e)) => e != toks@.len(),
                None => true,
            },
        },
{
    match parse_prim_event(toks, 0) {
        Err(e) => Err(e),
        Ok((x, e)) => {
            if e == toks.len() {
                Ok(x)
            } else {
                Err(ParseError { at: e, expected: "end of input" })
            }
        },
    }
}

/// Parse exactly one primitive condition: a single descriptor.
pub fn primitive_condition_parser(toks: &Vec<Token>) -> (r: Result<PrimitiveCondition, ParseError>)
    ensures
        match r {
            Ok(x) => toks@.len() == 1 && (tokens_view(toks@)[0] matches TokenView::Descriptor(d)
                && x@ == PrimitiveConditionView::Var(d)),
            Err(_) => !(toks@.len() == 1 && tokens_view(toks@)[0] is Descriptor),
        },
{
    if toks.len() == 1 && matches!(&toks[0], Token::Descriptor(_)) {
        let name = match &toks[0] {
            Token::Descriptor(d) => d.clone(),
            _ => {
                proof {
                    assert(false);
                }
                String::new()
            },
        };
        Ok(PrimitiveCondition::Var(name))
    } else {
        Err(ParseError { at: 0, expected: "a single descriptor" })
    }
}

/// Parse exactly one action covering every token.
pub fn action_parser(toks: &Vec<Token>) -> (r: Result<Action, ParseError>)
    ensures
        match r {
            Ok(x) => sp_action(tokens_view(toks@), 0) == Some((x@, toks@.len() as int)),
            Err(_) => match sp_action(tokens_view(toks@), 0) {
                Some((v, e)) => e != toks@.len(),
                None => true,
            },
        },
{
    match parse_action_at(toks, 0) {
        Err(e) => Err(e),
        Ok((x, e)) => {
            if e == toks.len() {
                Ok(x)
            } else {
                Err(ParseError { at: e, expected: "end of input" })
            }
        },
    }
}

/// Parse exactly one directive covering every token.
pub fn directive_parser(toks: &Vec<Token>) -> (r: Result<Directive, ParseError>)
    ensures
        match r {
            Ok(x) => sp_directive(tokens_view(toks@), 0) == Some((x@, toks@.len() as int)),
            Err(_) => match sp_directive(tokens_view(toks@), 0) {
                Some((v, e)) => e != toks@.len(),
                None => true,
            },
        },
{
    match parse_directive_at(toks, 0) {
        Err(e) => Err(e),
        Ok((x, e)) => {
            if e == toks.len() {
                Ok(x)
            } else {
                Err(ParseError { at: e, expected: "end of input" })
            }
        },
    }
}

#[verifier::rlimit(80)]
fn parse_directive_at(toks: &Vec<Token>, pos: usize) -> (r: Result<(Directive, usize), ParseError>)
    requires
        pos <= toks@.len(),
    ensures
        match r {
            Ok((x, e)) => sp_directive(tokens_view(toks@), pos as int) == Some((x@, e as int))
                && pos < e <= toks@.len(),
            Err(_) => sp_directive(tokens_view(toks@), pos as int) is None,
        },
    decreases toks@.len() - pos, 14int,
{
    let n = toks.len();
    if pos < n && pos + 1 < n && matches!(&toks[pos], Token::At) && matches!(
        &toks[pos + 1],
        Token::Descriptor(_),
    ) {
        let name = match &toks[pos + 1] {
            Token::Descriptor(d) => d.clone(),
            _ => {
                proof {
                    assert(false);
                }
                String::new()
            },
        };
        if name.eq(&String::from_str("scale")) {
            if n - pos > 4 && matches!(&toks[pos + 2], Token::LeftParenthesis) && matches!(
                &toks[pos + 3],
                Token::Number(_),
            ) && matches!(&toks[pos + 4], Token::RightParenthesis) {
                let number = match &toks[pos + 3] {
                    Token::Number(k) => *k,
                    _ => {
                        proof {
                            assert(false);
                        }
                        0
                    },
                };
                match parse_compound_at(toks, pos + 5) {
                    Err(e) => Err(e),
                    Ok((c, e)) => Ok((Directive::Scale { number, policy: c }, e)),
                }
            } else {
                Err(ParseError { at: pos, expected: "directive" })
            }
        } else if name.eq(&String::from_str("include")) || name.eq(&String::from_str("exclude")) {
            if n - pos > 4 && matches!(&toks[pos + 2], Token::LeftParenthesis) && matches!(
                &toks[pos + 3],
                Token::Descriptor(_),
            ) && matches!(&toks[pos + 4], Token::RightParenthesis) {
                let arg = match &toks[pos + 3] {
                    Token::Descriptor(d) => d.clone(),
                    _ => {
                        proof {
                            assert(false);
                        }
                        String::new()
                    },
                };
                if name.eq(&String::from_str("include")) {
                    Ok((Directive::Include(arg), pos + 5))
                } else {
                    Ok((Directive::Exclude(arg), pos + 5))
                }
            } else {
                Err(ParseError { at: pos, expected: "directive" })
            }
        } else if name.eq(&String::from_str("interleaving")) {
            Ok((Directive::Interleaving, pos + 2))
        } else if name.eq(&String::from_str("external")) {
            if n - pos > 2 && matches!(&toks[pos + 2], Token::LeftParenthesis) {
                match parse_prim_event(toks, pos + 3) {
                    Ok((ev, e)) => {
                        if e < n && matches!(&toks[e], Token::RightParenthesis) {
                            Ok((Directive::ExternalEvent(ev), e + 1))
                        } else {
                            Err(ParseError { at: e, expected: "closing parenthesis" })
                        }
                    },
                    Err(_) => {
                        if n - pos > 4 && matches!(&toks[pos + 3], Token::Descriptor(_))
                            && matches!(&toks[pos + 4], Token::RightParenthesis) {
                            let arg = match &toks[pos + 3] {
                                Token::Descriptor(d) => d.clone(),
                                _ => {
                                    proof {
                                        assert(false);
                                    }
                                    String::new()
                                },
                            };
                            Ok((Directive::ExternalVar(arg), pos + 5))
                        } else {
                            Err(ParseError { at: pos, expected: "directive" })
                        }
                    },
                }
            } else {
                Err(ParseError { at: pos, expected: "directive" })
            }
        } else {
            Err(ParseError { at: pos, expected: "directive" })
        }
    } else {
        Err(ParseError { at: pos, expected: "directive" })
    }
}

} // verus!
