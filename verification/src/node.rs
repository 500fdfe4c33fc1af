//! The node kernel: variable store, alias namespace tree and handler
//! registry, with the recursive evaluator for conditions and actions.
//!
//! The store and the read paths are pinned to spec-level mirrors
//! (`spec_store`, `spec_get_atomic`, `spec_process_condition`, ...).
//! Action execution is sequential: a sequence runs its children in
//! textual order to completion; a parallel list does the same (the
//! barrier of a concurrent implementation has no observable counterpart
//! here); an alternative runs one child picked uniformly at random.
//! Re-entrant rule firing (a trigger firing rules whose actions fire
//! further triggers) is bounded by a depth budget; exceeding it is an
//! error.

use vstd::prelude::*;

use crate::ast::{
    Action, ActionList, AtomicCondition, AtomicConditionView, CaseRule, Compound, Condition,
    ConditionView, PrimitiveCondition, PrimitiveConditionView, ReactiveRule, ReactiveRuleView,
    CompoundView, PrimitiveEvent, Rule, RuleView, atomic_view, clone_rules, cond_view,
    conds_view, lemma_actions_view_index, lemma_actions_view_len, lemma_conds_view_index,
    lemma_conds_view_len, lemma_rules_view_index, lemma_rules_view_len, reactive_view, rule_view,
    rules_view,
};
use crate::eq::rules_contain;
use crate::errors::EngineError;
use crate::event_handler::{
    EventHandler, HandlerView, RuleKeyView, ReactiveRuleKey, handler_view, key_find, key_upsert,
    lemma_key_find_at, lemma_key_find_none, spec_handler_rules, spec_handler_state,
};
use crate::print::reactive_identifier;
use crate::types::{
    ActivationStatus, FactRuleWithArgs, ReactiveRuleWithArgs, ReactiveRuleWithArgsView,
    RuleWithArgs, RuleWithArgsView, clone_path, clone_strings, path_view, strings_view,
};
use crate::utils::{
    AliasNamespace, NamespaceView, spec_create_rules, spec_get_rules, spec_overall_status,
    overall_status_from_set,
};

verus! {

/// The largest number of re-entrant rule firings one action may cause.
pub const MAX_FIRING_DEPTH: u64 = 64;

// ---------------------------------------------------------------------
// The node model.
// ---------------------------------------------------------------------

pub struct NodeView {
    pub vars: Seq<(Seq<char>, ActivationStatus)>,
    pub aliases: NamespaceView,
    pub handlers: Seq<HandlerView>,
}

/// The status stored under the first occurrence of a variable name.
pub open spec fn var_find(s: Seq<(Seq<char>, ActivationStatus)>, name: Seq<char>) -> Option<
    ActivationStatus,
>
    decreases s.len(),
{
    if s.len() == 0 {
        None
    } else if s.first().0 == name {
        Some(s.first().1)
    } else {
        var_find(s.drop_first(), name)
    }
}

/// Overwrite the status under the first occurrence of a name, or append.
pub open spec fn var_upsert(
    s: Seq<(Seq<char>, ActivationStatus)>,
    name: Seq<char>,
    v: ActivationStatus,
) -> Seq<(Seq<char>, ActivationStatus)>
    decreases s.len(),
{
    if s.len() == 0 {
        seq![(name, v)]
    } else if s.first().0 == name {
        seq![(name, v)] + s.drop_first()
    } else {
        seq![s.first()] + var_upsert(s.drop_first(), name, v)
    }
}

/// The first handler with the given identifier.
pub open spec fn handler_find(s: Seq<HandlerView>, id: Seq<char>) -> Option<HandlerView>
    decreases s.len(),
{
    if s.len() == 0 {
        None
    } else if s.first().id == id {
        Some(s.first())
    } else {
        handler_find(s.drop_first(), id)
    }
}

/// Replace the first handler with the given identifier, or append one.
pub open spec fn handler_set(s: Seq<HandlerView>, id: Seq<char>, h: HandlerView) -> Seq<
    HandlerView,
>
    decreases s.len(),
{
    if s.len() == 0 {
        seq![h]
    } else if s.first().id == id {
        seq![h] + s.drop_first()
    } else {
        seq![s.first()] + handler_set(s.drop_first(), id, h)
    }
}

/// Well-formedness: variable names are unique and never `Conflict`, at
/// most one handler bears any identifier, and the root of the alias tree
/// holds no rules of its own (the main scope).
pub open spec fn node_wf(nv: NodeView) -> bool {
    &&& forall|i: int, j: int|
        0 <= i < j < nv.vars.len() ==> (#[trigger] nv.vars[i]).0 != (#[trigger] nv.vars[j]).0
    &&& forall|i: int| 0 <= i < nv.vars.len() ==> (#[trigger] nv.vars[i]).1
        != ActivationStatus::Conflict
    &&& forall|i: int, j: int|
        0 <= i < j < nv.handlers.len() ==> (#[trigger] nv.handlers[i]).id != (
        #[trigger] nv.handlers[j]).id
    &&& nv.aliases.rules.len() == 0
}

/// Every variable present before is present after.
pub open spec fn vars_preserved(a: NodeView, b: NodeView) -> bool {
    forall|k: Seq<char>| #[trigger] var_find(a.vars, k) is Some ==> var_find(b.vars, k) is Some
}

// ---------------------------------------------------------------------
// Spec-level transitions.
// ---------------------------------------------------------------------

/// Registering a reactive rule: its handler gains (or updates) the key,
/// or a fresh handler is created.
pub open spec fn spec_apply_reactive(
    handlers: Seq<HandlerView>,
    rule: ReactiveRuleView,
    value: ActivationStatus,
    alias: Option<Seq<Seq<char>>>,
) -> Seq<HandlerView> {
    let id = reactive_identifier(rule);
    let key = RuleKeyView { rule: rule, alias: alias };
    match handler_find(handlers, id) {
        None => handlers.push(HandlerView { id: id, rules: seq![(key, value)] }),
        Some(h) => handler_set(
            handlers,
            id,
            HandlerView { id: id, rules: key_upsert(h.rules, key, value) },
        ),
    }
}

/// Writing an atomic condition with a value (the store procedure):
/// a primitive updates the variable store; a compound installs its rules
/// under the target namespace path and registers each non-case rule; a
/// sub-compound extends the path and continues.
pub open spec fn spec_store(
    nv: NodeView,
    ac: AtomicConditionView,
    value: ActivationStatus,
    ns: Option<Seq<Seq<char>>>,
    override_entries: bool,
) -> (NodeView, Result<bool, EngineError>)
    decreases ac, 2int, 0int,
{
    match ac {
        AtomicConditionView::Primitive(p) => match p {
            PrimitiveConditionView::Var(name) => {
                if value == ActivationStatus::Conflict {
                    (nv, Err(EngineError::ConflictAssignment))
                } else {
                    (
                        NodeView { vars: var_upsert(nv.vars, name, value), ..nv },
                        Ok(true),
                    )
                }
            },
        },
        AtomicConditionView::Compound(c) => {
            let base = match ns {
                Some(p) => p,
                None => Seq::empty(),
            };
            let path = match c.alias {
                Some(a) => base.push(a),
                None => base,
            };
            let nv1 = if path.len() > 0 {
                NodeView {
                    aliases: spec_create_rules(nv.aliases, path, c.rules, override_entries).0,
                    ..nv
                }
            } else {
                nv
            };
            let dispatch_path = if path.len() > 0 {
                Some(path)
            } else {
                None
            };
            spec_dispatch(nv1, c.rules, 0, value, dispatch_path)
        },
        AtomicConditionView::SubCompound { namespace, condition } => {
            let base = match ns {
                Some(p) => p,
                None => Seq::empty(),
            };
            spec_store(nv, *condition, value, Some(base.push(namespace)), override_entries)
        },
    }
}

/// Registering the rules of a compound, in order: reactive rules go to
/// their handlers with the compound's value and path, fact rules are
/// stored with the value, case rules are deferred to the caller, and
/// declarative rules are accepted unchanged.
pub open spec fn spec_dispatch(
    nv: NodeView,
    rules: Seq<RuleView>,
    i: int,
    value: ActivationStatus,
    path: Option<Seq<Seq<char>>>,
) -> (NodeView, Result<bool, EngineError>)
    decreases rules, 1int, rules.len() - i,
{
    if i < 0 || i >= rules.len() {
        (nv, Ok(true))
    } else {
        match rules[i] {
            RuleView::Reactive(rr) => {
                let nv2 = NodeView {
                    handlers: spec_apply_reactive(nv.handlers, rr, value, path),
                    ..nv
                };
                spec_dispatch(nv2, rules, i + 1, value, path)
            },
            RuleView::Fact(f) => {
                let (nv2, res) = spec_store(nv, f.condition, value, None, true);
                match res {
                    Err(e) => (nv2, Err(e)),
                    Ok(b) => {
                        let (nv3, res2) = spec_dispatch(nv2, rules, i + 1, value, path);
                        match res2 {
                            Err(e) => (nv3, Err(e)),
                            Ok(b2) => (nv3, Ok(b && b2)),
                        }
                    },
                }
            },
            RuleView::Case(_) => spec_dispatch(nv, rules, i + 1, value, path),
            RuleView::Declarative(_) => spec_dispatch(nv, rules, i + 1, value, path),
        }
    }
}

/// The stored status of a reactive rule under its handler.
pub open spec fn spec_get_rule_status(
    handlers: Seq<HandlerView>,
    rule: ReactiveRuleView,
    alias: Option<Seq<Seq<char>>>,
) -> Result<ActivationStatus, EngineError> {
    match handler_find(handlers, reactive_identifier(rule)) {
        None => Err(EngineError::HandlerMissing),
        Some(h) => match key_find(h.rules, RuleKeyView { rule: rule, alias: alias }) {
            Some(v) => Ok(v),
            None => Err(EngineError::RuleMissing),
        },
    }
}

/// The rules of `rules` that also occur in `stored`, in order.
pub open spec fn spec_intersect(rules: Seq<RuleView>, stored: Seq<RuleView>) -> Seq<RuleView>
    decreases rules.len(),
{
    if rules.len() == 0 {
        Seq::empty()
    } else {
        let rest = spec_intersect(rules.drop_last(), stored);
        if stored.contains(rules.last()) {
            rest.push(rules.last())
        } else {
            rest
        }
    }
}

/// The stored statuses of the reactive rules among `matching`, keyed
/// with the bundle's path.
pub open spec fn spec_collect_statuses(
    handlers: Seq<HandlerView>,
    matching: Seq<RuleView>,
    i: int,
    path: Seq<Seq<char>>,
) -> Result<Seq<ActivationStatus>, EngineError>
    decreases matching.len() - i,
{
    if i < 0 || i >= matching.len() {
        Ok(Seq::empty())
    } else {
        match matching[i] {
            RuleView::Reactive(rr) => match spec_get_rule_status(handlers, rr, Some(path)) {
                Err(e) => Err(e),
                Ok(v) => match spec_collect_statuses(handlers, matching, i + 1, path) {
                    Err(e) => Err(e),
                    Ok(rest) => Ok(seq![v] + rest),
                },
            },
            _ => spec_collect_statuses(handlers, matching, i + 1, path),
        }
    }
}

/// Reading an atomic condition: a primitive reads the variable store
/// (`Conflict` when never assigned); a compound reads the statuses of its
/// reactive rules under the target path and aggregates them; a
/// sub-compound extends the path.  The aggregate over an empty or
/// all-`True` collection is `True`; any `Conflict` makes it `Conflict`;
/// otherwise any `False` makes it `False`.
pub open spec fn spec_get_atomic(
    nv: NodeView,
    ac: AtomicConditionView,
    ns: Option<Seq<Seq<char>>>,
) -> Result<ActivationStatus, EngineError>
    decreases ac,
{
    match ac {
        AtomicConditionView::Primitive(p) => match p {
            PrimitiveConditionView::Var(name) => match var_find(nv.vars, name) {
                Some(v) => Ok(v),
                None => Ok(ActivationStatus::Conflict),
            },
        },
        AtomicConditionView::Compound(c) => {
            let base = match ns {
                Some(p) => p,
                None => Seq::empty(),
            };
            let path = match c.alias {
                Some(a) => base.push(a),
                None => base,
            };
            if path.len() == 0 {
                Err(EngineError::MainNamespaceRead)
            } else {
                match spec_get_rules(nv.aliases, path) {
                    None => Err(EngineError::NamespaceMissing),
                    Some(stored) => {
                        let matching = spec_intersect(c.rules, stored);
                        match spec_collect_statuses(nv.handlers, matching, 0, path) {
                            Err(e) => Err(e),
                            Ok(sts) => Ok(spec_overall_status(sts)),
                        }
                    },
                }
            }
        },
        AtomicConditionView::SubCompound { namespace, condition } => {
            let base = match ns {
                Some(p) => p,
                None => Seq::empty(),
            };
            spec_get_atomic(nv, *condition, Some(base.push(namespace)))
        },
    }
}

/// Looking a bundle up by an atomic condition: a primitive names a
/// top-level alias (under a namespace, the path extended by the name); a
/// compound needs a namespace and keeps only its own rules that are
/// stored there; a sub-compound extends the path.
pub open spec fn spec_get_alias_rules(
    nv: NodeView,
    ac: AtomicConditionView,
    ns: Option<Seq<Seq<char>>>,
) -> Result<(Seq<RuleView>, Seq<Seq<char>>), EngineError>
    decreases ac,
{
    match ac {
        AtomicConditionView::Primitive(p) => match p {
            PrimitiveConditionView::Var(name) => {
                let base = match ns {
                    Some(p) => p,
                    None => Seq::empty(),
                };
                let path = base.push(name);
                match spec_get_rules(nv.aliases, path) {
                    None => Err(EngineError::NoAlias),
                    Some(rs) => Ok((rs, path)),
                }
            },
        },
        AtomicConditionView::Compound(c) => match ns {
            None => Err(EngineError::NoAlias),
            Some(p) => {
                if p.len() == 0 {
                    Err(EngineError::NoAlias)
                } else {
                    match spec_get_rules(nv.aliases, p) {
                        None => Err(EngineError::NoAlias),
                        Some(stored) => Ok((spec_intersect(c.rules, stored), p)),
                    }
                }
            },
        },
        AtomicConditionView::SubCompound { namespace, condition } => {
            let base = match ns {
                Some(p) => p,
                None => Seq::empty(),
            };
            spec_get_alias_rules(nv, *condition, Some(base.push(namespace)))
        },
    }
}

/// Evaluating a condition tree: an atomic condition is read and coerced
/// to a boolean (`Conflict` is an error); conjunction and disjunction
/// short-circuit left to right.
pub open spec fn spec_process_condition(nv: NodeView, c: ConditionView) -> Result<
    bool,
    EngineError,
>
    decreases c, 1int, 0int,
{
    match c {
        ConditionView::Atomic(a) => match spec_get_atomic(nv, a, None) {
            Err(e) => Err(e),
            Ok(ActivationStatus::True) => Ok(true),
            Ok(ActivationStatus::False) => Ok(false),
            Ok(ActivationStatus::Conflict) => Err(EngineError::AmbiguousValue),
        },
        ConditionView::Not(inner) => match spec_process_condition(nv, *inner) {
            Err(e) => Err(e),
            Ok(b) => Ok(!b),
        },
        ConditionView::Parentheses(inner) => spec_process_condition(nv, *inner),
        ConditionView::Conjunction(cs) => spec_conjunction(nv, cs, 0),
        ConditionView::Disjunction(cs) => spec_disjunction(nv, cs, 0),
    }
}

pub open spec fn spec_conjunction(nv: NodeView, cs: Seq<ConditionView>, i: int) -> Result<
    bool,
    EngineError,
>
    decreases cs, 2int, cs.len() - i,
{
    if i < 0 || i >= cs.len() {
        Ok(true)
    } else {
        match spec_process_condition(nv, cs[i]) {
            Err(e) => Err(e),
            Ok(false) => Ok(false),
            Ok(true) => spec_conjunction(nv, cs, i + 1),
        }
    }
}

pub open spec fn spec_disjunction(nv: NodeView, cs: Seq<ConditionView>, i: int) -> Result<
    bool,
    EngineError,
>
    decreases cs, 2int, cs.len() - i,
{
    if i < 0 || i >= cs.len() {
        Ok(false)
    } else {
        match spec_process_condition(nv, cs[i]) {
            Err(e) => Err(e),
            Ok(true) => Ok(true),
            Ok(false) => spec_disjunction(nv, cs, i + 1),
        }
    }
}

/// The reactive rules every handler reports, in registry order.
pub open spec fn spec_node_rules(handlers: Seq<HandlerView>, all: bool) -> Seq<
    ReactiveRuleWithArgsView,
>
    decreases handlers.len(),
{
    if handlers.len() == 0 {
        Seq::empty()
    } else {
        spec_node_rules(handlers.drop_last(), all) + spec_handler_rules(handlers.last(), all)
    }
}

/// No rule of the list is a case rule.
pub open spec fn no_case_rules(rs: Seq<RuleView>) -> bool {
    forall|i: int| 0 <= i < rs.len() ==> !((#[trigger] rs[i]) is Case)
}

/// The views of a vector of rules with arguments.
pub open spec fn rule_args_views(s: Seq<RuleWithArgs>) -> Seq<RuleWithArgsView> {
    Seq::new(s.len(), |i: int| s[i]@)
}

/// No element of the list is a case rule.
pub open spec fn no_case_args(rs: Seq<RuleWithArgsView>) -> bool {
    forall|i: int| 0 <= i < rs.len() ==> !((#[trigger] rs[i]) is Case)
}

/// Storing a run of atomic conditions with status `False`, in order
/// (initialization ignores the per-store results).
pub open spec fn spec_init_stores(nv: NodeView, acs: Seq<AtomicConditionView>) -> NodeView
    decreases acs.len(),
{
    if acs.len() == 0 {
        nv
    } else {
        spec_init_stores(
            spec_store(nv, acs.first(), ActivationStatus::False, None, true).0,
            acs.drop_first(),
        )
    }
}

pub proof fn lemma_init_stores_concat(
    nv: NodeView,
    a: Seq<AtomicConditionView>,
    b: Seq<AtomicConditionView>,
)
    ensures
        spec_init_stores(nv, a + b) == spec_init_stores(spec_init_stores(nv, a), b),
    decreases a.len(),
{
    if a.len() == 0 {
        assert(a + b =~= b);
    } else {
        assert((a + b).first() == a.first());
        assert((a + b).drop_first() =~= a.drop_first() + b);
        lemma_init_stores_concat(
            spec_store(nv, a.first(), ActivationStatus::False, None, true).0,
            a.drop_first(),
            b,
        );
    }
}

/// The arguments the constructor gives the non-case rules, in order:
/// reactive rules start `True` with no alias, fact rules carry no
/// explicit value, declarative rules pass through, case rules are left
/// for the second phase.
pub open spec fn spec_noncase_args(rs: Seq<RuleView>) -> Seq<RuleWithArgsView>
    decreases rs.len(),
{
    if rs.len() == 0 {
        Seq::empty()
    } else {
        spec_noncase_args(rs.drop_last()) + (match rs.last() {
            RuleView::Reactive(rr) => seq![
                RuleWithArgsView::Reactive(
                    ReactiveRuleWithArgsView {
                        rule: rr,
                        value: ActivationStatus::True,
                        alias: None,
                    },
                ),
            ],
            RuleView::Fact(f) => seq![
                RuleWithArgsView::Fact(
                    crate::types::FactRuleWithArgsView { rule: f, value: None },
                ),
            ],
            RuleView::Declarative(d) => seq![RuleWithArgsView::Declarative(d)],
            RuleView::Case(_) => Seq::empty(),
        })
    }
}

/// The plain rules a list of rules-with-arguments stands for.
pub open spec fn args_as_rules(rv: Seq<RuleWithArgsView>) -> Seq<RuleView> {
    Seq::new(
        rv.len(),
        |i: int|
            match rv[i] {
                RuleWithArgsView::Reactive(x) => RuleView::Reactive(x.rule),
                RuleWithArgsView::Declarative(d) => RuleView::Declarative(d),
                RuleWithArgsView::Fact(f) => RuleView::Fact(f.rule),
                RuleWithArgsView::Case(c) => RuleView::Case(c),
            },
    )
}

/// The case rules of a rule list, in order.
pub open spec fn case_rule_views(rs: Seq<RuleView>) -> Seq<RuleView>
    decreases rs.len(),
{
    if rs.len() == 0 {
        Seq::empty()
    } else {
        case_rule_views(rs.drop_last()) + (match rs.last() {
            RuleView::Case(c) => seq![RuleView::Case(c)],
            _ => Seq::<RuleView>::empty(),
        })
    }
}

/// The value a fact rule stores: its explicit value, or `True` for a
/// primitive condition and `False` for the rest.
pub open spec fn spec_fact_value(f: crate::types::FactRuleWithArgsView) -> ActivationStatus {
    match f.value {
        Some(v) => v,
        None => match f.rule.condition {
            AtomicConditionView::Primitive(_) => ActivationStatus::True,
            _ => ActivationStatus::False,
        },
    }
}

/// Applying a list of non-case rules from index `i` on, in order: the
/// final state, and either the per-rule results (input order preserved)
/// or the first error.  Case rules are outside this fold's domain and
/// contribute nothing.
pub open spec fn spec_apply_rule_seq(
    nv: NodeView,
    rules: Seq<RuleWithArgsView>,
    i: int,
) -> (NodeView, Result<Seq<bool>, EngineError>)
    decreases rules.len() - i,
{
    if i < 0 || i >= rules.len() {
        (nv, Ok(Seq::empty()))
    } else {
        match rules[i] {
            RuleWithArgsView::Reactive(rv) => {
                let nv2 = NodeView {
                    handlers: spec_apply_reactive(nv.handlers, rv.rule, rv.value, rv.alias),
                    ..nv
                };
                let (nv3, res) = spec_apply_rule_seq(nv2, rules, i + 1);
                match res {
                    Ok(bs) => (nv3, Ok(seq![true] + bs)),
                    Err(e) => (nv3, Err(e)),
                }
            },
            RuleWithArgsView::Declarative(_) => {
                let (nv3, res) = spec_apply_rule_seq(nv, rules, i + 1);
                match res {
                    Ok(bs) => (nv3, Ok(seq![true] + bs)),
                    Err(e) => (nv3, Err(e)),
                }
            },
            RuleWithArgsView::Fact(f) => {
                let (nv2, res1) = spec_store(nv, f.rule.condition, spec_fact_value(f), None, true);
                match res1 {
                    Err(e) => (nv2, Err(e)),
                    Ok(b) => {
                        let (nv3, res) = spec_apply_rule_seq(nv2, rules, i + 1);
                        match res {
                            Ok(bs) => (nv3, Ok(seq![b] + bs)),
                            Err(e) => (nv3, Err(e)),
                        }
                    },
                }
            },
            RuleWithArgsView::Case(_) => spec_apply_rule_seq(nv, rules, i + 1),
        }
    }
}

/// A marker for quantifier instantiation over an alternative's drawn
/// child index.
pub open spec fn alt_choice(k: int) -> bool {
    true
}

/// What executing one action promises, shape by shape.  `fueled` says
/// the re-entrant firing budget is not exhausted.
///
/// A trigger with no handler is the invalid-action error and changes
/// nothing; a trigger whose handler does not aggregate to `True` is a
/// silent no-op.  A production (consumption) whose condition names no
/// installed alias is exactly the plain store with `True` (`False`); when
/// an alias is installed and its bundle holds no deferred case rules,
/// it is exactly the store of the bundle's compound at the full path,
/// with replacement (union) semantics.  An empty sequence or parallel
/// list succeeds unchanged; an empty alternative is an error, unchanged.
pub open spec fn action_claims(
    pre: NodeView,
    post: NodeView,
    av: crate::ast::ActionView,
    r: Result<bool, EngineError>,
    fueled: bool,
) -> bool
    decreases av, 2int, 0int,
{
    match av {
        crate::ast::ActionView::Primitive(pe) => match pe {
            crate::ast::PrimitiveEventView::Trigger(t) => {
                &&& handler_find(pre.handlers, t) is None ==> (r == Err::<bool, EngineError>(
                    EngineError::HandlerMissing,
                ) && post == pre)
                &&& match handler_find(pre.handlers, t) {
                    Some(h) => spec_handler_state(h.rules) != ActivationStatus::True ==> (r
                        == Ok::<bool, EngineError>(true) && post == pre),
                    None => true,
                }
            },
            crate::ast::PrimitiveEventView::Production(ac) => {
                &&& spec_get_alias_rules(pre, ac, None) is Err ==> ({
                    let (nv2, res) = spec_store(pre, ac, ActivationStatus::True, None, true);
                    post == nv2 && r == res
                })
                &&& match spec_get_alias_rules(pre, ac, None) {
                    Ok((bundle, ns)) => (fueled && no_case_rules(bundle)) ==> ({
                        let (nv2, res) = spec_store(
                            pre,
                            AtomicConditionView::Compound(
                                CompoundView { rules: bundle, alias: None },
                            ),
                            ActivationStatus::True,
                            Some(ns),
                            true,
                        );
                        post == nv2 && r == res
                    }),
                    Err(_) => true,
                }
            },
            crate::ast::PrimitiveEventView::Consumption(ac) => {
                &&& spec_get_alias_rules(pre, ac, None) is Err ==> ({
                    let (nv2, res) = spec_store(pre, ac, ActivationStatus::False, None, true);
                    post == nv2 && r == res
                })
                &&& match spec_get_alias_rules(pre, ac, None) {
                    Ok((bundle, ns)) => (fueled && no_case_rules(bundle)) ==> ({
                        let (nv2, res) = spec_store(
                            pre,
                            AtomicConditionView::Compound(
                                CompoundView { rules: bundle, alias: None },
                            ),
                            ActivationStatus::False,
                            Some(ns),
                            false,
                        );
                        post == nv2 && r == res
                    }),
                    Err(_) => true,
                }
            },
        },
        crate::ast::ActionView::List(l) => match l {
            crate::ast::ActionListView::Sequence(v) => actions_chain(pre, v, 0, post, r, fueled),
            crate::ast::ActionListView::Parallel(v) => actions_chain(pre, v, 0, post, r, fueled),
            crate::ast::ActionListView::Alternative(v) => if v.len() == 0 {
                r == Err::<bool, EngineError>(EngineError::EmptyAlternative) && post == pre
            } else {
                exists|k: int|
                    #[trigger] alt_choice(k) && 0 <= k < v.len() && action_claims(
                        pre,
                        post,
                        v[k],
                        r,
                        fueled,
                    )
            },
        },
    }
}

pub proof fn lemma_chain_step_err(
    pre: NodeView,
    v: Seq<crate::ast::ActionView>,
    i: int,
    mid: NodeView,
    e: EngineError,
    fueled: bool,
)
    requires
        0 <= i < v.len(),
        action_claims(pre, mid, v[i], Err::<bool, EngineError>(e), fueled),
        vars_preserved(pre, mid),
    ensures
        actions_chain(pre, v, i, mid, Err::<bool, EngineError>(e), fueled),
{
    let r1 = Err::<bool, EngineError>(e);
    assert(chain_link(mid, r1));
    assert({
        &&& chain_link(mid, r1)
        &&& action_claims(pre, mid, v[i], r1, fueled)
        &&& vars_preserved(pre, mid)
        &&& match r1 {
            Err(e2) => mid == mid && Err::<bool, EngineError>(e) == Err::<bool, EngineError>(e2),
            Ok(b) => false,
        }
    });
}

pub proof fn lemma_chain_step_ok(
    pre: NodeView,
    v: Seq<crate::ast::ActionView>,
    i: int,
    mid: NodeView,
    b: bool,
    post: NodeView,
    r2: Result<bool, EngineError>,
    fueled: bool,
)
    requires
        0 <= i < v.len(),
        action_claims(pre, mid, v[i], Ok::<bool, EngineError>(b), fueled),
        vars_preserved(pre, mid),
        actions_chain(mid, v, i + 1, post, r2, fueled),
    ensures
        actions_chain(pre, v, i, post, res_and(b, r2), fueled),
{
    let r1 = Ok::<bool, EngineError>(b);
    assert(chain_link(mid, r1));
    assert(chain_tail(r2));
    assert(match r2 {
        Ok(b2) => res_and(b, r2) == Ok::<bool, EngineError>(b && b2),
        Err(e) => res_and(b, r2) == Err::<bool, EngineError>(e),
    });
    assert({
        &&& chain_tail(r2)
        &&& actions_chain(mid, v, i + 1, post, r2, fueled)
        &&& match r2 {
            Ok(b2) => res_and(b, r2) == Ok::<bool, EngineError>(b && b2),
            Err(e) => res_and(b, r2) == Err::<bool, EngineError>(e),
        }
    });
    assert({
        &&& chain_link(mid, r1)
        &&& action_claims(pre, mid, v[i], r1, fueled)
        &&& vars_preserved(pre, mid)
        &&& match r1 {
            Err(e2) => post == mid && res_and(b, r2) == Err::<bool, EngineError>(e2),
            Ok(b1) => exists|rr: Result<bool, EngineError>|
                #[trigger] chain_tail(rr) && actions_chain(mid, v, i + 1, post, rr, fueled)
                    && match rr {
                    Ok(b2) => res_and(b, r2) == Ok::<bool, EngineError>(b1 && b2),
                    Err(e2) => res_and(b, r2) == Err::<bool, EngineError>(e2),
                },
        }
    });
}

/// The conjunction of a finished child's result with the rest.
pub open spec fn res_and(b: bool, r2: Result<bool, EngineError>) -> Result<bool, EngineError> {
    match r2 {
        Ok(b2) => Ok(b && b2),
        Err(e) => Err(e),
    }
}

/// The guard condition of a reactive rule, if any.
pub open spec fn rule_condition(rv: ReactiveRuleView) -> Option<ConditionView> {
    match rv {
        ReactiveRuleView::ECA { condition, .. } => condition,
        ReactiveRuleView::CA { condition, .. } => Some(condition),
    }
}

/// The action a reactive rule fires.
pub open spec fn rule_action(rv: ReactiveRuleView) -> crate::ast::ActionView {
    match rv {
        ReactiveRuleView::ECA { action, .. } => action,
        ReactiveRuleView::CA { action, .. } => action,
    }
}

/// One fired action's outcome: either the re-entrant firing budget ran
/// out (an error, state untouched), or the action's own claims tie the
/// intermediate state and result.
pub open spec fn budgeted_action(
    pre: NodeView,
    act: crate::ast::ActionView,
    mid: NodeView,
    r1: Result<bool, EngineError>,
    sub: bool,
) -> bool {
    ||| (mid == pre && r1 == Err::<bool, EngineError>(EngineError::DepthExhausted))
    ||| (action_claims(pre, mid, act, r1, sub) && vars_preserved(pre, mid))
}

/// Firing a handler's rules `snap[i..]` in order: a rule whose status is
/// not `True` is skipped; otherwise its guard is evaluated against the
/// then-current state — a guard error is returned as is, a false guard
/// skips the rule, and a true guard fires the rule's action as a case
/// rule.  The result is the conjunction of the fired actions' results,
/// and the first error aborts.
pub open spec fn fired_chain(
    pre: NodeView,
    snap: Seq<ReactiveRuleWithArgsView>,
    i: int,
    post: NodeView,
    r: Result<bool, EngineError>,
    sub: bool,
) -> bool
    decreases snap.len() - i, 1int,
{
    if i < 0 || i >= snap.len() {
        post == pre && r == Ok::<bool, EngineError>(true)
    } else {
        let e = snap[i];
        if e.value != ActivationStatus::True {
            fired_chain(pre, snap, i + 1, post, r, sub)
        } else {
            let holds = match rule_condition(e.rule) {
                Some(c) => spec_process_condition(pre, c),
                None => Ok::<bool, EngineError>(true),
            };
            match holds {
                Err(err) => post == pre && r == Err::<bool, EngineError>(err),
                Ok(false) => fired_chain(pre, snap, i + 1, post, r, sub),
                Ok(true) => fired_step(pre, rule_action(e.rule), snap, i, post, r, sub),
            }
        }
    }
}

pub open spec fn fired_step(
    pre: NodeView,
    act: crate::ast::ActionView,
    snap: Seq<ReactiveRuleWithArgsView>,
    i: int,
    post: NodeView,
    r: Result<bool, EngineError>,
    sub: bool,
) -> bool
    decreases snap.len() - i, 0int,
{
    0 <= i < snap.len() && exists|mid: NodeView, r1: Result<bool, EngineError>|
        {
            &&& #[trigger] chain_link(mid, r1)
            &&& budgeted_action(pre, act, mid, r1, sub)
            &&& match r1 {
                Err(e) => post == mid && r == Err::<bool, EngineError>(e),
                Ok(b) => exists|r2: Result<bool, EngineError>|
                    #[trigger] chain_tail(r2) && fired_chain(mid, snap, i + 1, post, r2, sub)
                        && r == res_and(b, r2),
            }
        }
}

/// Firing a bundle's deferred case rules `rules[i..]`, in order: rules
/// that are not case rules contribute nothing; each case rule's action
/// runs under the firing budget.  The result is the conjunction of the
/// fired actions' results, and the first error aborts.
pub open spec fn cases_chain(
    pre: NodeView,
    rules: Seq<RuleView>,
    i: int,
    post: NodeView,
    r: Result<bool, EngineError>,
    sub: bool,
) -> bool
    decreases rules.len() - i, 1int,
{
    if i < 0 || i >= rules.len() {
        post == pre && r == Ok::<bool, EngineError>(true)
    } else {
        match rules[i] {
            RuleView::Case(c) => case_step(pre, c.action, rules, i, post, r, sub),
            _ => cases_chain(pre, rules, i + 1, post, r, sub),
        }
    }
}

pub open spec fn case_step(
    pre: NodeView,
    act: crate::ast::ActionView,
    rules: Seq<RuleView>,
    i: int,
    post: NodeView,
    r: Result<bool, EngineError>,
    sub: bool,
) -> bool
    decreases rules.len() - i, 0int,
{
    0 <= i < rules.len() && exists|mid: NodeView, r1: Result<bool, EngineError>|
        {
            &&& #[trigger] chain_link(mid, r1)
            &&& budgeted_action(pre, act, mid, r1, sub)
            &&& match r1 {
                Err(e) => post == mid && r == Err::<bool, EngineError>(e),
                Ok(b) => exists|r2: Result<bool, EngineError>|
                    #[trigger] chain_tail(r2) && cases_chain(mid, rules, i + 1, post, r2, sub)
                        && r == res_and(b, r2),
            }
        }
}

pub proof fn lemma_case_step_err(
    pre: NodeView,
    act: crate::ast::ActionView,
    rules: Seq<RuleView>,
    i: int,
    mid: NodeView,
    e: EngineError,
    sub: bool,
)
    requires
        0 <= i < rules.len(),
        budgeted_action(pre, act, mid, Err::<bool, EngineError>(e), sub),
    ensures
        case_step(pre, act, rules, i, mid, Err::<bool, EngineError>(e), sub),
{
    let r1 = Err::<bool, EngineError>(e);
    assert(chain_link(mid, r1));
    assert({
        &&& chain_link(mid, r1)
        &&& budgeted_action(pre, act, mid, r1, sub)
        &&& match r1 {
            Err(e2) => mid == mid && Err::<bool, EngineError>(e) == Err::<bool, EngineError>(e2),
            Ok(b) => false,
        }
    });
}

pub proof fn lemma_case_step_ok(
    pre: NodeView,
    act: crate::ast::ActionView,
    rules: Seq<RuleView>,
    i: int,
    mid: NodeView,
    b: bool,
    post: NodeView,
    r2: Result<bool, EngineError>,
    sub: bool,
)
    requires
        0 <= i < rules.len(),
        budgeted_action(pre, act, mid, Ok::<bool, EngineError>(b), sub),
        cases_chain(mid, rules, i + 1, post, r2, sub),
    ensures
        case_step(pre, act, rules, i, post, res_and(b, r2), sub),
{
    let r1 = Ok::<bool, EngineError>(b);
    assert(chain_link(mid, r1));
    assert(chain_tail(r2));
    assert({
        &&& chain_tail(r2)
        &&& cases_chain(mid, rules, i + 1, post, r2, sub)
        &&& res_and(b, r2) == res_and(b, r2)
    });
    assert({
        &&& chain_link(mid, r1)
        &&& budgeted_action(pre, act, mid, r1, sub)
        &&& match r1 {
            Err(e2) => post == mid && res_and(b, r2) == Err::<bool, EngineError>(e2),
            Ok(b1) => exists|rr: Result<bool, EngineError>|
                #[trigger] chain_tail(rr) && cases_chain(mid, rules, i + 1, post, rr, sub)
                    && res_and(b, r2) == res_and(b1, rr),
        }
    });
}

pub proof fn lemma_fired_step_err(
    pre: NodeView,
    act: crate::ast::ActionView,
    snap: Seq<ReactiveRuleWithArgsView>,
    i: int,
    mid: NodeView,
    e: EngineError,
    sub: bool,
)
    requires
        0 <= i < snap.len(),
        budgeted_action(pre, act, mid, Err::<bool, EngineError>(e), sub),
    ensures
        fired_step(pre, act, snap, i, mid, Err::<bool, EngineError>(e), sub),
{
    let r1 = Err::<bool, EngineError>(e);
    assert(chain_link(mid, r1));
    assert({
        &&& chain_link(mid, r1)
        &&& budgeted_action(pre, act, mid, r1, sub)
        &&& match r1 {
            Err(e2) => mid == mid && Err::<bool, EngineError>(e) == Err::<bool, EngineError>(e2),
            Ok(b) => false,
        }
    });
}

pub proof fn lemma_fired_step_ok(
    pre: NodeView,
    act: crate::ast::ActionView,
    snap: Seq<ReactiveRuleWithArgsView>,
    i: int,
    mid: NodeView,
    b: bool,
    post: NodeView,
    r2: Result<bool, EngineError>,
    sub: bool,
)
    requires
        0 <= i < snap.len(),
        budgeted_action(pre, act, mid, Ok::<bool, EngineError>(b), sub),
        fired_chain(mid, snap, i + 1, post, r2, sub),
    ensures
        fired_step(pre, act, snap, i, post, res_and(b, r2), sub),
{
    let r1 = Ok::<bool, EngineError>(b);
    assert(chain_link(mid, r1));
    assert(chain_tail(r2));
    assert({
        &&& chain_tail(r2)
        &&& fired_chain(mid, snap, i + 1, post, r2, sub)
        &&& res_and(b, r2) == res_and(b, r2)
    });
    assert({
        &&& chain_link(mid, r1)
        &&& budgeted_action(pre, act, mid, r1, sub)
        &&& match r1 {
            Err(e2) => post == mid && res_and(b, r2) == Err::<bool, EngineError>(e2),
            Ok(b1) => exists|rr: Result<bool, EngineError>|
                #[trigger] chain_tail(rr) && fired_chain(mid, snap, i + 1, post, rr, sub) && res_and(
                    b,
                    r2,
                ) == res_and(b1, rr),
        }
    });
}

/// Running the children `v[i..]` in textual order, each to completion:
/// each child satisfies its own claims, the result is the conjunction of
/// the children's results, and the first child error is returned with
/// the state as that child left it.
/// A marker for quantifier instantiation over a chain's intermediate
/// state and first result.
pub open spec fn chain_link(mid: NodeView, r1: Result<bool, EngineError>) -> bool {
    true
}

/// A marker for quantifier instantiation over a chain's tail result.
pub open spec fn chain_tail(r2: Result<bool, EngineError>) -> bool {
    true
}

pub open spec fn actions_chain(
    pre: NodeView,
    v: Seq<crate::ast::ActionView>,
    i: int,
    post: NodeView,
    r: Result<bool, EngineError>,
    fueled: bool,
) -> bool
    decreases v, 1int, v.len() - i,
{
    if i < 0 || i >= v.len() {
        post == pre && r == Ok::<bool, EngineError>(true)
    } else {
        exists|mid: NodeView, r1: Result<bool, EngineError>|
            {
                &&& #[trigger] chain_link(mid, r1)
                &&& action_claims(pre, mid, v[i], r1, fueled)
                &&& vars_preserved(pre, mid)
                &&& match r1 {
                    Err(e) => post == mid && r == Err::<bool, EngineError>(e),
                    Ok(b) => exists|r2: Result<bool, EngineError>|
                        #[trigger] chain_tail(r2) && actions_chain(mid, v, i + 1, post, r2, fueled)
                            && match r2 {
                            Ok(b2) => r == Ok::<bool, EngineError>(b && b2),
                            Err(e) => r == Err::<bool, EngineError>(e),
                        },
                }
            }
    }
}


// ---------------------------------------------------------------------
// Facts about the spec transitions.
// ---------------------------------------------------------------------

pub proof fn lemma_var_find_at(s: Seq<(Seq<char>, ActivationStatus)>, name: Seq<char>, j: int)
    requires
        0 <= j < s.len(),
        s[j].0 == name,
        forall|i: int| 0 <= i < j ==> s[i].0 != name,
    ensures
        var_find(s, name) == Some(s[j].1),
    decreases j,
{
    if j == 0 {
        assert(s.first() == s[0]);
    } else {
        assert(s.first().0 != name);
        assert(s.drop_first()[j - 1] == s[j]);
        assert forall|i: int| 0 <= i < j - 1 implies s.drop_first()[i].0 != name by {
            assert(s.drop_first()[i] == s[i + 1]);
        }
        lemma_var_find_at(s.drop_first(), name, j - 1);
    }
}

pub proof fn lemma_var_find_none(s: Seq<(Seq<char>, ActivationStatus)>, name: Seq<char>)
    requires
        forall|i: int| 0 <= i < s.len() ==> s[i].0 != name,
    ensures
        var_find(s, name) is None,
    decreases s.len(),
{
    if s.len() > 0 {
        assert(s.first() == s[0]);
        assert forall|i: int| 0 <= i < s.drop_first().len() implies s.drop_first()[i].0 != name by {
            assert(s.drop_first()[i] == s[i + 1]);
        }
        lemma_var_find_none(s.drop_first(), name);
    }
}

/// Upserting a variable keeps names unique, keeps every other binding,
/// stores the new one, and introduces no `Conflict`.
#[verifier::rlimit(100)]
#[verifier::spinoff_prover]
pub proof fn lemma_var_upsert(
    s: Seq<(Seq<char>, ActivationStatus)>,
    name: Seq<char>,
    v: ActivationStatus,
)
    requires
        forall|i: int, j: int| 0 <= i < j < s.len() ==> (#[trigger] s[i]).0 != (#[trigger] s[j]).0,
    ensures
        forall|i: int, j: int|
            0 <= i < j < var_upsert(s, name, v).len() ==> (#[trigger] var_upsert(s, name, v)[i]).0
                != (#[trigger] var_upsert(s, name, v)[j]).0,
        var_find(var_upsert(s, name, v), name) == Some(v),
        forall|k: Seq<char>| k != name ==> #[trigger] var_find(var_upsert(s, name, v), k)
            == var_find(s, k),
        forall|i: int|
            0 <= i < var_upsert(s, name, v).len() ==> ((#[trigger] var_upsert(s, name, v)[i]).1
                == v || exists|j: int| 0 <= j < s.len() && (#[trigger] s[j]).1 == var_upsert(
                s,
                name,
                v,
            )[i].1),
    decreases s.len(),
{
    let t = var_upsert(s, name, v);
    if s.len() == 0 {
        assert(t =~= seq![(name, v)]);
        assert(t.first() == (name, v));
        assert forall|k: Seq<char>| k != name implies #[trigger] var_find(t, k) == var_find(
            s,
            k,
        ) by {
            assert(t.drop_first() =~= s);
            assert(var_find(t, k) == var_find(s, k));
        }
    } else if s.first().0 == name {
        assert(t =~= seq![(name, v)] + s.drop_first());
        assert(t.first() == (name, v));
        assert(t.drop_first() =~= s.drop_first());
        assert forall|i: int, j: int| 0 <= i < j < t.len() implies (#[trigger] t[i]).0 != (
        #[trigger] t[j]).0 by {
            if i == 0 {
                assert(t[j] == s[j]);
                assert(s[0].0 != s[j].0);
            } else {
                assert(t[i] == s[i]);
                assert(t[j] == s[j]);
            }
        }
        assert forall|k: Seq<char>| k != name implies #[trigger] var_find(t, k) == var_find(
            s,
            k,
        ) by {
            assert(var_find(t, k) == var_find(t.drop_first(), k));
            assert(var_find(s, k) == var_find(s.drop_first(), k));
        }
        assert forall|i: int| 0 <= i < t.len() implies ((#[trigger] t[i]).1 == v || exists|j: int|
            0 <= j < s.len() && (#[trigger] s[j]).1 == t[i].1) by {
            if i > 0 {
                assert(s[i].1 == t[i].1);
            }
        }
    } else {
        lemma_var_upsert(s.drop_first(), name, v);
        let u = var_upsert(s.drop_first(), name, v);
        assert(t =~= seq![s.first()] + u);
        assert(t.first() == s.first());
        assert(t.drop_first() =~= u);
        assert forall|i: int, j: int| 0 <= i < j < t.len() implies (#[trigger] t[i]).0 != (
        #[trigger] t[j]).0 by {
            if i == 0 {
                assert(t[j] == u[j - 1]);
                if u[j - 1].0 == s.first().0 {
                    assert(var_find(u, s.first().0) is Some) by {
                        lemma_var_find_exists(u, j - 1);
                    }
                    if s.first().0 == name {
                        assert(false);
                    } else {
                        assert(var_find(u, s.first().0) == var_find(s.drop_first(), s.first().0));
                        assert forall|k: int|
                            0 <= k < s.drop_first().len() implies s.drop_first()[k].0
                            != s.first().0 by {
                            assert(s.drop_first()[k] == s[k + 1]);
                            assert(s[0].0 != s[k + 1].0);
                        }
                        lemma_var_find_none(s.drop_first(), s.first().0);
                        assert(false);
                    }
                }
            } else {
                assert(t[i] == u[i - 1]);
                assert(t[j] == u[j - 1]);
            }
        }
        assert(var_find(t, name) == var_find(u, name));
        assert forall|k: Seq<char>| k != name implies #[trigger] var_find(t, k) == var_find(
            s,
            k,
        ) by {
            if k == s.first().0 {
                assert(var_find(t, k) == Some(t.first().1));
                assert(var_find(s, k) == Some(s.first().1));
            } else {
                assert(var_find(t, k) == var_find(u, k));
                assert(var_find(s, k) == var_find(s.drop_first(), k));
            }
        }
        assert forall|i: int| 0 <= i < t.len() implies ((#[trigger] t[i]).1 == v || exists|j: int|
            0 <= j < s.len() && (#[trigger] s[j]).1 == t[i].1) by {
            if i == 0 {
                assert(s[0].1 == t[0].1);
            } else {
                assert(t[i] == u[i - 1]);
                if u[i - 1].1 != v {
                    let j = choose|j: int|
                        0 <= j < s.drop_first().len() && (#[trigger] s.drop_first()[j]).1 == u[i
                            - 1].1;
                    assert(s[j + 1].1 == t[i].1);
                }
            }
        }
    }
}

/// A name occurring in the sequence is found.
pub proof fn lemma_var_find_exists(s: Seq<(Seq<char>, ActivationStatus)>, j: int)
    requires
        0 <= j < s.len(),
    ensures
        var_find(s, s[j].0) is Some,
    decreases j,
{
    if j == 0 {
        assert(s.first() == s[0]);
    } else {
        if s.first().0 != s[j].0 {
            assert(s.drop_first()[j - 1] == s[j]);
            lemma_var_find_exists(s.drop_first(), j - 1);
        }
    }
}

pub proof fn lemma_handler_find_at(s: Seq<HandlerView>, id: Seq<char>, j: int)
    requires
        0 <= j < s.len(),
        s[j].id == id,
        forall|i: int| 0 <= i < j ==> s[i].id != id,
    ensures
        handler_find(s, id) == Some(s[j]),
    decreases j,
{
    if j == 0 {
        assert(s.first() == s[0]);
    } else {
        assert(s.first().id != id);
        assert(s.drop_first()[j - 1] == s[j]);
        assert forall|i: int| 0 <= i < j - 1 implies s.drop_first()[i].id != id by {
            assert(s.drop_first()[i] == s[i + 1]);
        }
        lemma_handler_find_at(s.drop_first(), id, j - 1);
    }
}

pub proof fn lemma_handler_find_none(s: Seq<HandlerView>, id: Seq<char>)
    requires
        forall|i: int| 0 <= i < s.len() ==> s[i].id != id,
    ensures
        handler_find(s, id) is None,
    decreases s.len(),
{
    if s.len() > 0 {
        assert(s.first() == s[0]);
        assert forall|i: int| 0 <= i < s.drop_first().len() implies s.drop_first()[i].id != id by {
            assert(s.drop_first()[i] == s[i + 1]);
        }
        lemma_handler_find_none(s.drop_first(), id);
    }
}

pub proof fn lemma_handler_find_none_converse(s: Seq<HandlerView>, id: Seq<char>)
    requires
        handler_find(s, id) is None,
    ensures
        forall|i: int| 0 <= i < s.len() ==> s[i].id != id,
    decreases s.len(),
{
    if s.len() > 0 {
        assert(s.first().id != id);
        lemma_handler_find_none_converse(s.drop_first(), id);
        assert forall|i: int| 0 <= i < s.len() implies s[i].id != id by {
            if i > 0 {
                assert(s.drop_first()[i - 1] == s[i]);
            } else {
                assert(s[0] == s.first());
            }
        }
    }
}

pub proof fn lemma_handler_set_at(s: Seq<HandlerView>, id: Seq<char>, h: HandlerView, j: int)
    requires
        0 <= j < s.len(),
        s[j].id == id,
        forall|i: int| 0 <= i < j ==> s[i].id != id,
    ensures
        handler_set(s, id, h) == s.update(j, h),
    decreases j,
{
    if j == 0 {
        assert(s.first() == s[0]);
        assert(seq![h] + s.drop_first() =~= s.update(0, h));
    } else {
        assert(s.first().id != id);
        assert(s.drop_first()[j - 1] == s[j]);
        assert forall|i: int| 0 <= i < j - 1 implies s.drop_first()[i].id != id by {
            assert(s.drop_first()[i] == s[i + 1]);
        }
        lemma_handler_set_at(s.drop_first(), id, h, j - 1);
        assert(seq![s.first()] + s.drop_first().update(j - 1, h) =~= s.update(j, h));
    }
}

/// Registering a reactive rule keeps handler identifiers unique, leaves
/// every existing identifier present, and leaves a handler for the
/// rule's own identifier.
pub proof fn lemma_apply_reactive_wf(
    handlers: Seq<HandlerView>,
    rule: ReactiveRuleView,
    value: ActivationStatus,
    alias: Option<Seq<Seq<char>>>,
)
    requires
        forall|i: int, j: int|
            0 <= i < j < handlers.len() ==> (#[trigger] handlers[i]).id != (
            #[trigger] handlers[j]).id,
    ensures
        ({
            let t = spec_apply_reactive(handlers, rule, value, alias);
            &&& forall|i: int, j: int|
                0 <= i < j < t.len() ==> (#[trigger] t[i]).id != (#[trigger] t[j]).id
            &&& handler_find(t, reactive_identifier(rule)) is Some
        }),
{
    let id = reactive_identifier(rule);
    let key = RuleKeyView { rule: rule, alias: alias };
    let t = spec_apply_reactive(handlers, rule, value, alias);
    match handler_find(handlers, id) {
        None => {
            lemma_handler_find_none_converse(handlers, id);
            assert(t =~= handlers.push(HandlerView { id: id, rules: seq![(key, value)] }));
            assert(t[t.len() - 1].id == id);
            assert forall|i: int| 0 <= i < t.len() - 1 implies t[i].id != id by {
                assert(t[i] == handlers[i]);
            }
            lemma_handler_find_at(t, id, t.len() - 1);
        },
        Some(h) => {
            let j = lemma_handler_find_some_index(handlers, id);
            lemma_handler_set_at(
                handlers,
                id,
                HandlerView { id: id, rules: key_upsert(h.rules, key, value) },
                j,
            );
            assert(t =~= handlers.update(
                j,
                HandlerView { id: id, rules: key_upsert(h.rules, key, value) },
            ));
            assert(t[j].id == id);
            assert forall|i: int| 0 <= i < j implies t[i].id != id by {
                assert(t[i] == handlers[i]);
            }
            lemma_handler_find_at(t, id, j);
        },
    }
}

/// A found identifier has a first index.
pub proof fn lemma_handler_find_some_index(s: Seq<HandlerView>, id: Seq<char>) -> (j: int)
    requires
        handler_find(s, id) is Some,
    ensures
        0 <= j < s.len(),
        s[j].id == id,
        forall|i: int| 0 <= i < j ==> s[i].id != id,
        handler_find(s, id) == Some(s[j]),
    decreases s.len(),
{
    if s.first().id == id {
        assert(s[0] == s.first());
        0
    } else {
        let j = lemma_handler_find_some_index(s.drop_first(), id);
        assert(s.drop_first()[j] == s[j + 1]);
        assert forall|i: int| 0 <= i < j + 1 implies s[i].id != id by {
            if i == 0 {
                assert(s[0] == s.first());
            } else {
                assert(s.drop_first()[i - 1] == s[i]);
            }
        }
        j + 1
    }
}

/// Storing preserves well-formedness and never removes a variable; a
/// primitive store with a concrete value leaves its variable present.
pub proof fn lemma_spec_store_wf(
    nv: NodeView,
    ac: AtomicConditionView,
    value: ActivationStatus,
    ns: Option<Seq<Seq<char>>>,
    override_entries: bool,
)
    requires
        node_wf(nv),
    ensures
        node_wf(spec_store(nv, ac, value, ns, override_entries).0),
        vars_preserved(nv, spec_store(nv, ac, value, ns, override_entries).0),
        (ac matches AtomicConditionView::Primitive(p) && value != ActivationStatus::Conflict)
            ==> var_find(
            spec_store(nv, ac, value, ns, override_entries).0.vars,
            ac->Primitive_0->Var_0,
        ) is Some,
    decreases ac, 2int, 0int,
{
    match ac {
        AtomicConditionView::Primitive(p) => {
            if value != ActivationStatus::Conflict {
                let name = p->Var_0;
                lemma_var_upsert(nv.vars, name, value);
                let t = var_upsert(nv.vars, name, value);
                assert forall|i: int| 0 <= i < t.len() implies (#[trigger] t[i]).1
                    != ActivationStatus::Conflict by {
                    if t[i].1 != value {
                        let j = choose|j: int|
                            0 <= j < nv.vars.len() && (#[trigger] nv.vars[j]).1 == t[i].1;
                    }
                }
                assert forall|k: Seq<char>| #[trigger] var_find(nv.vars, k) is Some implies
                    var_find(t, k) is Some by {
                    if k != name {
                        assert(var_find(t, k) == var_find(nv.vars, k));
                    }
                }
            }
        },
        AtomicConditionView::Compound(c) => {
            let base = match ns {
                Some(p) => p,
                None => Seq::empty(),
            };
            let path = match c.alias {
                Some(a) => base.push(a),
                None => base,
            };
            let nv1 = if path.len() > 0 {
                NodeView {
                    aliases: spec_create_rules(nv.aliases, path, c.rules, override_entries).0,
                    ..nv
                }
            } else {
                nv
            };
            assert(node_wf(nv1)) by {
                if path.len() > 0 {
                    assert(spec_create_rules(nv.aliases, path, c.rules, override_entries).0.rules
                        == nv.aliases.rules);
                }
            }
            let dispatch_path = if path.len() > 0 {
                Some(path)
            } else {
                None
            };
            lemma_spec_dispatch_wf(nv1, c.rules, 0, value, dispatch_path);
        },
        AtomicConditionView::SubCompound { namespace, condition } => {
            let base = match ns {
                Some(p) => p,
                None => Seq::empty(),
            };
            lemma_spec_store_wf(nv, *condition, value, Some(base.push(namespace)),
                override_entries);
        },
    }
}

pub proof fn lemma_spec_dispatch_wf(
    nv: NodeView,
    rules: Seq<RuleView>,
    i: int,
    value: ActivationStatus,
    path: Option<Seq<Seq<char>>>,
)
    requires
        node_wf(nv),
    ensures
        node_wf(spec_dispatch(nv, rules, i, value, path).0),
        vars_preserved(nv, spec_dispatch(nv, rules, i, value, path).0),
    decreases rules, 1int, rules.len() - i,
{
    if 0 <= i < rules.len() {
        match rules[i] {
            RuleView::Reactive(rr) => {
                lemma_apply_reactive_wf(nv.handlers, rr, value, path);
                let nv2 = NodeView {
                    handlers: spec_apply_reactive(nv.handlers, rr, value, path),
                    ..nv
                };
                lemma_spec_dispatch_wf(nv2, rules, i + 1, value, path);
            },
            RuleView::Fact(f) => {
                lemma_spec_store_wf(nv, f.condition, value, None, true);
                let (nv2, res) = spec_store(nv, f.condition, value, None, true);
                match res {
                    Err(_) => {},
                    Ok(_) => {
                        lemma_spec_dispatch_wf(nv2, rules, i + 1, value, path);
                    },
                }
            },
            RuleView::Case(_) => {
                lemma_spec_dispatch_wf(nv, rules, i + 1, value, path);
            },
            RuleView::Declarative(_) => {
                lemma_spec_dispatch_wf(nv, rules, i + 1, value, path);
            },
        }
    }
}


/// Upserting at the first match is a pointwise update.
pub proof fn lemma_var_upsert_at(
    s: Seq<(Seq<char>, ActivationStatus)>,
    name: Seq<char>,
    v: ActivationStatus,
    j: int,
)
    requires
        0 <= j < s.len(),
        s[j].0 == name,
        forall|i: int| 0 <= i < j ==> s[i].0 != name,
    ensures
        var_upsert(s, name, v) == s.update(j, (name, v)),
    decreases j,
{
    if j == 0 {
        assert(s.first() == s[0]);
        assert(seq![(name, v)] + s.drop_first() =~= s.update(0, (name, v)));
    } else {
        assert(s.first().0 != name);
        assert(s.drop_first()[j - 1] == s[j]);
        assert forall|i: int| 0 <= i < j - 1 implies s.drop_first()[i].0 != name by {
            assert(s.drop_first()[i] == s[i + 1]);
        }
        lemma_var_upsert_at(s.drop_first(), name, v, j - 1);
        assert(seq![s.first()] + s.drop_first().update(j - 1, (name, v)) =~= s.update(
            j,
            (name, v),
        ));
    }
}

/// An absent name is appended.
pub proof fn lemma_var_upsert_absent(
    s: Seq<(Seq<char>, ActivationStatus)>,
    name: Seq<char>,
    v: ActivationStatus,
)
    requires
        forall|i: int| 0 <= i < s.len() ==> s[i].0 != name,
    ensures
        var_upsert(s, name, v) == s.push((name, v)),
    decreases s.len(),
{
    if s.len() == 0 {
        assert(seq![(name, v)] =~= s.push((name, v)));
    } else {
        assert(s.first() == s[0]);
        assert forall|i: int| 0 <= i < s.drop_first().len() implies s.drop_first()[i].0 != name by {
            assert(s.drop_first()[i] == s[i + 1]);
        }
        lemma_var_upsert_absent(s.drop_first(), name, v);
        assert(seq![s.first()] + s.drop_first().push((name, v)) =~= s.push((name, v)));
    }
}

// ---------------------------------------------------------------------
// The executable node.
// ---------------------------------------------------------------------

/// The node: the variable store, the alias namespace tree, and the
/// event-handler registry.
#[derive(Debug)]
pub struct Node {
    pub vars: Vec<(String, ActivationStatus)>,
    pub aliases: AliasNamespace,
    pub event_handlers: Vec<EventHandler>,
}

pub open spec fn spec_node_view(n: Node) -> NodeView {
    NodeView {
        vars: Seq::new(n.vars@.len(), |i: int| (n.vars@[i].0@, n.vars@[i].1)),
        aliases: crate::utils::alias_ns_view(n.aliases),
        handlers: Seq::new(n.event_handlers@.len(), |i: int| handler_view(n.event_handlers@[i])),
    }
}

impl View for Node {
    type V = NodeView;

    open spec fn view(&self) -> NodeView {
        spec_node_view(*self)
    }
}

/// Draws one index of `0..n` uniformly.  Relies on `rand::random_range`:
/// the sample lies within the range, and the call panics only on an
/// empty range, which the precondition excludes.
#[verifier::external_body]
fn random_index(n: usize) -> (r: usize)
    requires
        n > 0,
    ensures
        r < n,
{
    rand::random_range(0..n)
}

impl Node {
    /// An empty node: no variables, no aliases, no handlers.
    pub fn new() -> (r: Node)
        ensures
            r@ == (NodeView {
                vars: Seq::<(Seq<char>, ActivationStatus)>::empty(),
                aliases: crate::utils::empty_namespace(),
                handlers: Seq::<HandlerView>::empty(),
            }),
            node_wf(r@),
    {
        let node = Node {
            vars: Vec::new(),
            aliases: AliasNamespace::new(),
            event_handlers: Vec::new(),
        };
        proof {
            assert(node@.vars =~= Seq::<(Seq<char>, ActivationStatus)>::empty());
            assert(node@.handlers =~= Seq::<HandlerView>::empty());
        }
        node
    }

    /// The index of the first variable with the given name.
    fn find_var(&self, name: &String) -> (r: Option<usize>)
        ensures
            match r {
                Some(j) => j < self.vars@.len() && self@.vars[j as int].0 == name@ && (forall|
                    i: int,
                |
                    0 <= i < j ==> self@.vars[i].0 != name@),
                None => forall|i: int| 0 <= i < self.vars@.len() ==> self@.vars[i].0 != name@,
            },
    {
        let mut i: usize = 0;
        while i < self.vars.len()
            invariant
                i <= self.vars@.len(),
                forall|j: int| 0 <= j < i ==> self@.vars[j].0 != name@,
            decreases self.vars@.len() - i,
        {
            if self.vars[i].0.eq(name) {
                return Some(i);
            }
            i = i + 1;
        }
        None
    }

    /// Update a variable; assigning `Conflict` is rejected.
    fn update_var(&mut self, var: &PrimitiveCondition, value: ActivationStatus) -> (r: Result<
        bool,
        EngineError,
    >)
        ensures
            value == ActivationStatus::Conflict ==> (r == Err::<bool, EngineError>(
                EngineError::ConflictAssignment,
            ) && final(self)@ == old(self)@),
            value != ActivationStatus::Conflict ==> (r == Ok::<bool, EngineError>(true)
                && final(self)@ == (NodeView {
                vars: var_upsert(old(self)@.vars, var@->Var_0, value),
                ..old(self)@
            })),
    {
        if matches!(value, ActivationStatus::Conflict) {
            return Err(EngineError::ConflictAssignment);
        }
        let name = match var {
            PrimitiveCondition::Var(s) => s.clone(),
        };
        let ghost vars0 = self@.vars;
        match self.find_var(&name) {
            Some(j) => {
                proof {
                    lemma_var_upsert_at(vars0, name@, value, j as int);
                }
                self.vars.set(j, (name, value));
                proof {
                    assert(self@.vars =~= vars0.update(j as int, (name@, value)));
                }
            },
            None => {
                proof {
                    lemma_var_upsert_absent(vars0, name@, value);
                }
                self.vars.push((name, value));
                proof {
                    assert(self@.vars =~= vars0.push((name@, value)));
                }
            },
        }
        Ok(true)
    }

    /// The index of the first handler with the given identifier.
    fn find_handler(&self, id: &String) -> (r: Option<usize>)
        ensures
            match r {
                Some(j) => j < self.event_handlers@.len() && self@.handlers[j as int].id == id@ && (
                forall|i: int| 0 <= i < j ==> self@.handlers[i].id != id@) && handler_find(
                    self@.handlers,
                    id@,
                ) == Some(self@.handlers[j as int]),
                None => handler_find(self@.handlers, id@) is None,
            },
    {
        let mut i: usize = 0;
        while i < self.event_handlers.len()
            invariant
                i <= self.event_handlers@.len(),
                forall|j: int| 0 <= j < i ==> self@.handlers[j].id != id@,
            decreases self.event_handlers@.len() - i,
        {
            if self.event_handlers[i].id.eq(id) {
                proof {
                    lemma_handler_find_at(self@.handlers, id@, i as int);
                }
                return Some(i);
            }
            i = i + 1;
        }
        proof {
            lemma_handler_find_none(self@.handlers, id@);
        }
        None
    }

    /// Register a reactive rule with its handler, creating the handler
    /// when absent.
    fn apply_reactive(
        &mut self,
        rule: &ReactiveRule,
        value: ActivationStatus,
        alias: &Option<Vec<String>>,
    )
        ensures
            final(self)@ == (NodeView {
                handlers: spec_apply_reactive(
                    old(self)@.handlers,
                    reactive_view(*rule),
                    value,
                    path_view(*alias),
                ),
                ..old(self)@
            }),
    {
        let id = rule.get_identifier();
        let ghost handlers0 = self@.handlers;
        match self.find_handler(&id) {
            None => {
                let h = EventHandler::new(
                    ReactiveRuleWithArgs {
                        rule: rule.clone(),
                        value: value,
                        alias: clone_path(alias),
                    },
                );
                proof {
                    assert(handler_view(h).rules =~= seq![
                        (
                            RuleKeyView {
                                rule: reactive_view(*rule),
                                alias: path_view(*alias),
                            },
                            value,
                        ),
                    ]);
                }
                self.event_handlers.push(h);
                proof {
                    assert(self@.handlers =~= handlers0.push(
                        handler_view(self.event_handlers@.last()),
                    ));
                    assert(self@.handlers =~= spec_apply_reactive(
                        handlers0,
                        reactive_view(*rule),
                        value,
                        path_view(*alias),
                    ));
                }
            },
            Some(j) => {
                let ghost key = RuleKeyView {
                    rule: reactive_view(*rule),
                    alias: path_view(*alias),
                };
                let ghost h0 = self@.handlers[j as int];
                let mut taken = EventHandler { id: String::new(), rules: Vec::new() };
                self.event_handlers.set_and_swap(j, &mut taken);
                let res = taken.add_rule(
                    ReactiveRuleWithArgs {
                        rule: rule.clone(),
                        value: value,
                        alias: clone_path(alias),
                    },
                );
                self.event_handlers.set_and_swap(j, &mut taken);
                proof {
                    assert(self.event_handlers@ =~= old(self).event_handlers@.update(
                        j as int,
                        self.event_handlers@[j as int],
                    ));
                    assert(handler_view(self.event_handlers@[j as int]) == (HandlerView {
                        id: h0.id,
                        rules: key_upsert(h0.rules, key, value),
                    }));
                    assert(self@.handlers =~= handlers0.update(
                        j as int,
                        HandlerView { id: h0.id, rules: key_upsert(h0.rules, key, value) },
                    ));
                    lemma_handler_set_at(
                        handlers0,
                        id@,
                        HandlerView { id: h0.id, rules: key_upsert(h0.rules, key, value) },
                        j as int,
                    );
                    assert(reactive_identifier(reactive_view(*rule)) == id@);
                }
            },
        }
    }

    /// Store an atomic condition with a value: exactly the store
    /// procedure `spec_store`.
    pub fn store_atomic_condition(
        &mut self,
        condition: &AtomicCondition,
        value: ActivationStatus,
        var_namespace: Option<Vec<String>>,
        override_entries: bool,
    ) -> (r: Result<bool, EngineError>)
        ensures
            ({
                let (nv2, res) = spec_store(
                    old(self)@,
                    atomic_view(*condition),
                    value,
                    path_view(var_namespace),
                    override_entries,
                );
                final(self)@ == nv2 && r == res
            }),
        decreases *condition, 2int, 0int,
    {
        match condition {
            AtomicCondition::Primitive(p) => self.update_var(p, value),
            AtomicCondition::Compound(c) => {
                let ghost nv0 = self@;
                let ghost vns = path_view(var_namespace);
                let mut n: Vec<String> = match var_namespace {
                    Some(ns) => ns,
                    None => Vec::new(),
                };
                let ghost base = strings_view(n@);
                proof {
                    match vns {
                        Some(p) => {
                            assert(base == p);
                        },
                        None => {
                            assert(base =~= Seq::<Seq<char>>::empty());
                        },
                    }
                }
                match &c.alias {
                    Some(alias_name) => {
                        n.push(alias_name.clone());
                        proof {
                            assert(strings_view(n@) =~= base.push(alias_name@));
                        }
                    },
                    None => {},
                }
                let ghost path = strings_view(n@);
                let ghost cv = crate::ast::compound_view(*c);
                let ghost nv1 = if path.len() > 0 {
                    NodeView {
                        aliases: spec_create_rules(nv0.aliases, path, cv.rules, override_entries).0,
                        ..nv0
                    }
                } else {
                    nv0
                };
                proof {
                    assert(atomic_view(*condition) == AtomicConditionView::Compound(cv));
                    assert(cv.rules == rules_view(c.rules@));
                    match vns {
                        Some(p) => {},
                        None => {},
                    }
                }
                if n.len() > 0 {
                    let installed = clone_rules(&c.rules);
                    let _prev = self.aliases.create_rules(&n, 0, installed, override_entries);
                    proof {
                        assert(strings_view(n@).subrange(0, n@.len() as int) =~= path);
                        assert(self@.aliases == spec_create_rules(
                            nv0.aliases,
                            path,
                            cv.rules,
                            override_entries,
                        ).0);
                        assert(self@.vars =~= nv0.vars);
                        assert(self@.handlers =~= nv0.handlers);
                        assert(self@ == nv1);
                    }
                } else {
                    proof {
                        assert(self@ == nv1);
                    }
                }
                let dispatch_path = if n.len() > 0 {
                    Some(n)
                } else {
                    None
                };
                proof {
                    match path_view(dispatch_path) {
                        Some(p) => {
                            assert(p == path);
                            assert(path.len() > 0);
                        },
                        None => {
                            assert(path.len() == 0);
                        },
                    }
                }
                let result = self.dispatch_compound_rules(&c.rules, 0, value, &dispatch_path);
                proof {
                    let (nv2, res) = spec_store(
                        nv0,
                        atomic_view(*condition),
                        value,
                        vns,
                        override_entries,
                    );
                    assert((nv2, res) == spec_dispatch(
                        nv1,
                        cv.rules,
                        0,
                        value,
                        path_view(dispatch_path),
                    ));
                    assert(self@ == nv2);
                }
                result
            },
            AtomicCondition::SubCompound { namespace, condition } => {
                let ghost vns = path_view(var_namespace);
                let mut base: Vec<String> = match var_namespace {
                    Some(ns) => ns,
                    None => Vec::new(),
                };
                let ghost base0 = strings_view(base@);
                proof {
                    match vns {
                        Some(p) => {
                            assert(base0 == p);
                        },
                        None => {
                            assert(base0 =~= Seq::<Seq<char>>::empty());
                        },
                    }
                }
                base.push(namespace.clone());
                proof {
                    assert(strings_view(base@) =~= base0.push(namespace@));
                }
                self.store_atomic_condition(condition, value, Some(base), override_entries)
            },
        }
    }

    /// Register the rules of a compound from index `i` on, as
    /// `spec_dispatch` describes.
    fn dispatch_compound_rules(
        &mut self,
        rules: &Vec<Rule>,
        i: usize,
        value: ActivationStatus,
        path: &Option<Vec<String>>,
    ) -> (r: Result<bool, EngineError>)
        requires
            i <= rules@.len(),
        ensures
            ({
                let (nv2, res) = spec_dispatch(
                    old(self)@,
                    rules_view(rules@),
                    i as int,
                    value,
                    path_view(*path),
                );
                final(self)@ == nv2 && r == res
            }),
        decreases *rules, 1int, rules@.len() - i,
    {
        proof {
            lemma_rules_view_len(rules@);
        }
        if i == rules.len() {
            Ok(true)
        } else {
            proof {
                lemma_rules_view_index(rules@, i as int);
            }
            match &rules[i] {
                Rule::Reactive(rr) => {
                    self.apply_reactive(rr, value, path);
                    self.dispatch_compound_rules(rules, i + 1, value, path)
                },
                Rule::Fact(f) => {
                    match self.store_atomic_condition(&f.condition, value, None, true) {
                        Err(e) => Err(e),
                        Ok(b) => {
                            match self.dispatch_compound_rules(rules, i + 1, value, path) {
                                Err(e) => Err(e),
                                Ok(b2) => Ok(b && b2),
                            }
                        },
                    }
                },
                Rule::Case(_) => self.dispatch_compound_rules(rules, i + 1, value, path),
                Rule::Declarative(_) => self.dispatch_compound_rules(rules, i + 1, value, path),
            }
        }
    }
}


impl Node {
    /// The stored status of a reactive rule in its handler.
    pub fn get_rule_status(&self, rule: &ReactiveRuleWithArgs) -> (r: Result<
        ActivationStatus,
        EngineError,
    >)
        ensures
            r == spec_get_rule_status(
                self@.handlers,
                reactive_view(rule.rule),
                path_view(rule.alias),
            ),
    {
        let id = rule.rule.get_identifier();
        match self.find_handler(&id) {
            None => Err(EngineError::HandlerMissing),
            Some(j) => {
                let key = ReactiveRuleKey {
                    rule: rule.rule.clone(),
                    alias: clone_path(&rule.alias),
                };
                match self.event_handlers[j].status_of(&key) {
                    Some(v) => Ok(v),
                    None => Err(EngineError::RuleMissing),
                }
            },
        }
    }

    /// Read an atomic condition: exactly `spec_get_atomic`.
    #[verifier::loop_isolation(false)]
    #[verifier::rlimit(100)]
    #[verifier::spinoff_prover]
    pub fn get_atomic_condition(
        &self,
        condition: &AtomicCondition,
        var_namespace: Option<Vec<String>>,
    ) -> (r: Result<ActivationStatus, EngineError>)
        ensures
            r == spec_get_atomic(self@, atomic_view(*condition), path_view(var_namespace)),
        decreases *condition,
    {
        let ghost vns = path_view(var_namespace);
        match condition {
            AtomicCondition::Primitive(p) => {
                let name = match p {
                    PrimitiveCondition::Var(s) => s,
                };
                match self.find_var(name) {
                    Some(j) => {
                        proof {
                            lemma_var_find_at(self@.vars, name@, j as int);
                        }
                        Ok(self.vars[j].1)
                    },
                    None => {
                        proof {
                            lemma_var_find_none(self@.vars, name@);
                        }
                        Ok(ActivationStatus::Conflict)
                    },
                }
            },
            AtomicCondition::Compound(c) => {
                let ghost cv = crate::ast::compound_view(*c);
                let mut n: Vec<String> = match var_namespace {
                    Some(ns) => ns,
                    None => Vec::new(),
                };
                let ghost base = strings_view(n@);
                proof {
                    match vns {
                        Some(p) => {
                            assert(base == p);
                        },
                        None => {
                            assert(base =~= Seq::<Seq<char>>::empty());
                        },
                    }
                }
                match &c.alias {
                    Some(alias_name) => {
                        n.push(alias_name.clone());
                        proof {
                            assert(strings_view(n@) =~= base.push(alias_name@));
                        }
                    },
                    None => {},
                }
                let ghost path = strings_view(n@);
                if n.len() == 0 {
                    return Err(EngineError::MainNamespaceRead);
                }
                let stored = match self.aliases.get_rules(&n, 0) {
                    Ok(v) => v,
                    Err(_) => {
                        proof {
                            assert(strings_view(n@).subrange(0, n@.len() as int) =~= path);
                        }
                        return Err(EngineError::NamespaceMissing);
                    },
                };
                proof {
                    assert(strings_view(n@).subrange(0, n@.len() as int) =~= path);
                }
                let matching = intersect_rules(&c.rules, &stored);
                let ghost mv = spec_intersect(cv.rules, rules_view(stored@));
                let ghost target = spec_get_atomic(self@, atomic_view(*condition), vns);
                proof {
                    assert(target == (match spec_collect_statuses(self@.handlers, mv, 0, path) {
                        Ok(sts) => Ok::<ActivationStatus, EngineError>(spec_overall_status(sts)),
                        Err(e) => Err::<ActivationStatus, EngineError>(e),
                    }));
                }
                let mut statuses: Vec<ActivationStatus> = Vec::new();
                let mut k: usize = 0;
                proof {
                    lemma_rules_view_len(matching@);
                    assert(statuses@ + Seq::<ActivationStatus>::empty() =~= statuses@);
                }
                while k < matching.len()
                    invariant
                        k <= matching@.len(),
                        rules_view(matching@) == mv,
                        rules_view(matching@).len() == matching@.len(),
                        path == strings_view(n@),
                        target == spec_get_atomic(self@, atomic_view(*condition), vns),
                        target == (match spec_collect_statuses(self@.handlers, mv, 0, path) {
                            Ok(sts) => Ok::<ActivationStatus, EngineError>(
                                spec_overall_status(sts),
                            ),
                            Err(e) => Err::<ActivationStatus, EngineError>(e),
                        }),
                        match spec_collect_statuses(self@.handlers, mv, k as int, path) {
                            Ok(rest) => spec_collect_statuses(self@.handlers, mv, 0, path) == Ok::<
                                Seq<ActivationStatus>,
                                EngineError,
                            >(statuses@ + rest),
                            Err(e) => spec_collect_statuses(self@.handlers, mv, 0, path) == Err::<
                                Seq<ActivationStatus>,
                                EngineError,
                            >(e),
                        },
                    decreases matching@.len() - k,
                {
                    proof {
                        lemma_rules_view_index(matching@, k as int);
                    }
                    match &matching[k] {
                        Rule::Reactive(rr) => {
                            let probe = ReactiveRuleWithArgs {
                                rule: rr.clone(),
                                value: ActivationStatus::True,
                                alias: Some(clone_strings(&n)),
                            };
                            match self.get_rule_status(&probe) {
                                Err(e) => {
                                    proof {
                                        assert(spec_collect_statuses(
                                            self@.handlers,
                                            mv,
                                            k as int,
                                            path,
                                        ) == Err::<Seq<ActivationStatus>, EngineError>(e));
                                    }
                                    return Err(e);
                                },
                                Ok(v) => {
                                    let ghost pre = statuses@;
                                    statuses.push(v);
                                    proof {
                                        match spec_collect_statuses(
                                            self@.handlers,
                                            mv,
                                            k as int + 1,
                                            path,
                                        ) {
                                            Ok(rest) => {
                                                assert(spec_collect_statuses(
                                                    self@.handlers,
                                                    mv,
                                                    k as int,
                                                    path,
                                                ) == Ok::<Seq<ActivationStatus>, EngineError>(
                                                    seq![v] + rest,
                                                ));
                                                assert(pre + (seq![v] + rest) =~= pre.push(v)
                                                    + rest);
                                            },
                                            Err(e) => {
                                                assert(spec_collect_statuses(
                                                    self@.handlers,
                                                    mv,
                                                    k as int,
                                                    path,
                                                ) == Err::<Seq<ActivationStatus>, EngineError>(e));
                                            },
                                        }
                                    }
                                },
                            }
                        },
                        _ => {},
                    }
                    k = k + 1;
                }
                proof {
                    assert(spec_collect_statuses(self@.handlers, mv, matching@.len() as int, path)
                        == Ok::<Seq<ActivationStatus>, EngineError>(Seq::empty()));
                    assert(statuses@ + Seq::<ActivationStatus>::empty() =~= statuses@);
                }
                Ok(overall_status_from_set(&statuses))
            },
            AtomicCondition::SubCompound { namespace, condition } => {
                let mut base: Vec<String> = match var_namespace {
                    Some(ns) => ns,
                    None => Vec::new(),
                };
                let ghost base0 = strings_view(base@);
                proof {
                    match vns {
                        Some(p) => {
                            assert(base0 == p);
                        },
                        None => {
                            assert(base0 =~= Seq::<Seq<char>>::empty());
                        },
                    }
                }
                base.push(namespace.clone());
                proof {
                    assert(strings_view(base@) =~= base0.push(namespace@));
                }
                self.get_atomic_condition(condition, Some(base))
            },
        }
    }

    /// Look a bundle up by an atomic condition: exactly
    /// `spec_get_alias_rules`.
    pub fn get_alias_rules(
        &self,
        atomic_condition: &AtomicCondition,
        alias_namespace: Option<Vec<String>>,
    ) -> (r: Result<(Vec<Rule>, Vec<String>), EngineError>)
        ensures
            match r {
                Ok((rules, full_path)) => spec_get_alias_rules(
                    self@,
                    atomic_view(*atomic_condition),
                    path_view(alias_namespace),
                ) == Ok::<(Seq<RuleView>, Seq<Seq<char>>), EngineError>(
                    (rules_view(rules@), strings_view(full_path@)),
                ),
                Err(e) => spec_get_alias_rules(
                    self@,
                    atomic_view(*atomic_condition),
                    path_view(alias_namespace),
                ) == Err::<(Seq<RuleView>, Seq<Seq<char>>), EngineError>(e),
            },
        decreases *atomic_condition,
    {
        let ghost vns = path_view(alias_namespace);
        match atomic_condition {
            AtomicCondition::Primitive(p) => {
                let name = match p {
                    PrimitiveCondition::Var(s) => s.clone(),
                };
                let mut path: Vec<String> = match alias_namespace {
                    Some(ns) => ns,
                    None => Vec::new(),
                };
                let ghost base = strings_view(path@);
                proof {
                    match vns {
                        Some(q) => {
                            assert(base == q);
                        },
                        None => {
                            assert(base =~= Seq::<Seq<char>>::empty());
                        },
                    }
                }
                path.push(name);
                proof {
                    assert(strings_view(path@) =~= base.push(
                        prim_cond_name(crate::ast::prim_cond_view(*p)),
                    ));
                }
                match self.aliases.get_rules(&path, 0) {
                    Err(_) => {
                        proof {
                            assert(strings_view(path@).subrange(0, path@.len() as int)
                                =~= strings_view(path@));
                        }
                        Err(EngineError::NoAlias)
                    },
                    Ok(rs) => {
                        proof {
                            assert(strings_view(path@).subrange(0, path@.len() as int)
                                =~= strings_view(path@));
                        }
                        Ok((rs, path))
                    },
                }
            },
            AtomicCondition::Compound(c) => {
                let ghost cv = crate::ast::compound_view(*c);
                match alias_namespace {
                    None => Err(EngineError::NoAlias),
                    Some(p) => {
                        if p.len() == 0 {
                            Err(EngineError::NoAlias)
                        } else {
                            match self.aliases.get_rules(&p, 0) {
                                Err(_) => {
                                    proof {
                                        assert(strings_view(p@).subrange(0, p@.len() as int)
                                            =~= strings_view(p@));
                                    }
                                    Err(EngineError::NoAlias)
                                },
                                Ok(stored) => {
                                    proof {
                                        assert(strings_view(p@).subrange(0, p@.len() as int)
                                            =~= strings_view(p@));
                                    }
                                    let matching = intersect_rules(&c.rules, &stored);
                                    Ok((matching, p))
                                },
                            }
                        }
                    },
                }
            },
            AtomicCondition::SubCompound { namespace, condition } => {
                let mut base: Vec<String> = match alias_namespace {
                    Some(ns) => ns,
                    None => Vec::new(),
                };
                let ghost base0 = strings_view(base@);
                proof {
                    match vns {
                        Some(q) => {
                            assert(base0 == q);
                        },
                        None => {
                            assert(base0 =~= Seq::<Seq<char>>::empty());
                        },
                    }
                }
                base.push(namespace.clone());
                proof {
                    assert(strings_view(base@) =~= base0.push(namespace@));
                }
                self.get_alias_rules(condition, Some(base))
            },
        }
    }

    /// Evaluate a condition tree: exactly `spec_process_condition`.
    #[verifier::loop_isolation(false)]
    pub fn process_condition(&self, condition: &Condition) -> (r: Result<bool, EngineError>)
        ensures
            r == spec_process_condition(self@, cond_view(*condition)),
        decreases *condition,
    {
        match condition {
            Condition::Atomic(a) => {
                match self.get_atomic_condition(a, None) {
                    Err(e) => Err(e),
                    Ok(v) => v.to_bool(),
                }
            },
            Condition::Not(inner) => {
                match self.process_condition(inner) {
                    Err(e) => Err(e),
                    Ok(b) => Ok(!b),
                }
            },
            Condition::Parentheses(inner) => self.process_condition(inner),
            Condition::Conjunction(cs) => {
                let ghost csv = conds_view(cs@);
                let mut k: usize = 0;
                proof {
                    lemma_conds_view_len(cs@);
                }
                while k < cs.len()
                    invariant
                        k <= cs@.len(),
                        csv == conds_view(cs@),
                        csv.len() == cs@.len(),
                        cond_view(*condition) == ConditionView::Conjunction(csv),
                        spec_process_condition(self@, cond_view(*condition)) == spec_conjunction(
                            self@,
                            csv,
                            k as int,
                        ),
                    decreases cs@.len() - k,
                {
                    proof {
                        lemma_conds_view_index(cs@, k as int);
                        assert(decreases_to!(*condition => *cs));
                        assert(decreases_to!(*cs => cs@[k as int]));
                    }
                    match self.process_condition(&cs[k]) {
                        Err(e) => {
                            return Err(e);
                        },
                        Ok(false) => {
                            return Ok(false);
                        },
                        Ok(true) => {},
                    }
                    k = k + 1;
                }
                Ok(true)
            },
            Condition::Disjunction(cs) => {
                let ghost csv = conds_view(cs@);
                let mut k: usize = 0;
                proof {
                    lemma_conds_view_len(cs@);
                }
                while k < cs.len()
                    invariant
                        k <= cs@.len(),
                        csv == conds_view(cs@),
                        csv.len() == cs@.len(),
                        cond_view(*condition) == ConditionView::Disjunction(csv),
                        spec_process_condition(self@, cond_view(*condition)) == spec_disjunction(
                            self@,
                            csv,
                            k as int,
                        ),
                    decreases cs@.len() - k,
                {
                    proof {
                        lemma_conds_view_index(cs@, k as int);
                        assert(decreases_to!(*condition => *cs));
                        assert(decreases_to!(*cs => cs@[k as int]));
                    }
                    match self.process_condition(&cs[k]) {
                        Err(e) => {
                            return Err(e);
                        },
                        Ok(true) => {
                            return Ok(true);
                        },
                        Ok(false) => {},
                    }
                    k = k + 1;
                }
                Ok(false)
            },
        }
    }
}

/// The name of a primitive condition.
pub open spec fn prim_cond_name(p: PrimitiveConditionView) -> Seq<char> {
    match p {
        PrimitiveConditionView::Var(s) => s,
    }
}

/// The rules of `rules` that also occur in `stored`, in order.
fn intersect_rules(rules: &Vec<Rule>, stored: &Vec<Rule>) -> (r: Vec<Rule>)
    ensures
        rules_view(r@) == spec_intersect(rules_view(rules@), rules_view(stored@)),
{
    proof {
        lemma_rules_view_len(rules@);
    }
    let mut out: Vec<Rule> = Vec::new();
    let mut k: usize = 0;
    proof {
        assert(rules_view(rules@).subrange(0, 0) =~= Seq::<RuleView>::empty());
    }
    while k < rules.len()
        invariant
            k <= rules@.len(),
            rules_view(rules@).len() == rules@.len(),
            rules_view(out@) == spec_intersect(
                rules_view(rules@).subrange(0, k as int),
                rules_view(stored@),
            ),
        decreases rules@.len() - k,
    {
        let ghost pre = rules_view(rules@).subrange(0, k as int);
        proof {
            lemma_rules_view_index(rules@, k as int);
            assert(rules_view(rules@).subrange(0, k as int + 1).drop_last() =~= pre);
            assert(rules_view(rules@).subrange(0, k as int + 1).last() == rules_view(
                rules@,
            )[k as int]);
        }
        if rules_contain(stored, &rules[k]) {
            let copy = rules[k].clone();
            proof {
                crate::ast::lemma_rules_view_push(out@, copy);
            }
            out.push(copy);
        }
        k = k + 1;
    }
    proof {
        assert(rules_view(rules@).subrange(0, rules@.len() as int) =~= rules_view(rules@));
    }
    out
}


/// Variable presence survives two steps.
pub proof fn lemma_vars_preserved_trans(a: NodeView, b: NodeView, c: NodeView)
    requires
        vars_preserved(a, b),
        vars_preserved(b, c),
    ensures
        vars_preserved(a, c),
{
    assert forall|k: Seq<char>| #[trigger] var_find(a.vars, k) is Some implies var_find(
        c.vars,
        k,
    ) is Some by {
        assert(var_find(b.vars, k) is Some);
    }
}

impl Node {
    /// Process one rule: a reactive rule is registered with its handler,
    /// a case rule's action is executed at once, a fact rule stores its
    /// condition (`True` by default for a primitive, `False` for the
    /// rest), and a declarative rule is accepted unchanged.
    #[verifier::rlimit(100)]
    #[verifier::spinoff_prover]
    fn process_rule_depth(&mut self, rule_with_args: &RuleWithArgs, depth: u64) -> (r: Result<
        bool,
        EngineError,
    >)
        ensures
            node_wf(old(self)@) ==> node_wf(final(self)@),
            vars_preserved(old(self)@, final(self)@),
            match rule_with_args@ {
                RuleWithArgsView::Reactive(rv) => final(self)@ == (NodeView {
                    handlers: spec_apply_reactive(old(self)@.handlers, rv.rule, rv.value, rv.alias),
                    ..old(self)@
                }) && r == Ok::<bool, EngineError>(true),
                RuleWithArgsView::Declarative(_) => final(self)@ == old(self)@ && r == Ok::<
                    bool,
                    EngineError,
                >(true),
                RuleWithArgsView::Fact(f) => ({
                    let value = match f.value {
                        Some(v) => v,
                        None => match f.rule.condition {
                            AtomicConditionView::Primitive(_) => ActivationStatus::True,
                            _ => ActivationStatus::False,
                        },
                    };
                    let (nv2, res) = spec_store(old(self)@, f.rule.condition, value, None, true);
                    final(self)@ == nv2 && r == res
                }),
                RuleWithArgsView::Case(c) => {
                    &&& depth == 0 ==> (r == Err::<bool, EngineError>(EngineError::DepthExhausted)
                        && final(self)@ == old(self)@)
                    &&& depth > 0 ==> action_claims(
                        old(self)@,
                        final(self)@,
                        c.action,
                        r,
                        depth > 1,
                    )
                },
            },
        decreases depth, *rule_with_args,
    {
        match rule_with_args {
            RuleWithArgs::Reactive(rwa) => {
                self.apply_reactive(&rwa.rule, rwa.value, &rwa.alias);
                proof {
                    if node_wf(old(self)@) {
                        lemma_apply_reactive_wf(
                            old(self)@.handlers,
                            reactive_view(rwa.rule),
                            rwa.value,
                            path_view(rwa.alias),
                        );
                    }
                }
                Ok(true)
            },
            RuleWithArgs::Declarative(_) => Ok(true),
            RuleWithArgs::Fact(fwa) => {
                let value = match fwa.value {
                    Some(v) => v,
                    None => match &fwa.rule.condition {
                        AtomicCondition::Primitive(_) => ActivationStatus::True,
                        _ => ActivationStatus::False,
                    },
                };
                let res = self.store_atomic_condition(&fwa.rule.condition, value, None, true);
                proof {
                    if node_wf(old(self)@) {
                        lemma_spec_store_wf(
                            old(self)@,
                            atomic_view(fwa.rule.condition),
                            value,
                            None,
                            true,
                        );
                    }
                    lemma_spec_store_vars(
                        old(self)@,
                        atomic_view(fwa.rule.condition),
                        value,
                        None,
                        true,
                    );
                }
                res
            },
            RuleWithArgs::Case(cr) => {
                if depth == 0 {
                    return Err(EngineError::DepthExhausted);
                }
                self.process_action_depth(&cr.action, depth - 1)
            },
        }
    }

    /// Execute an action.  A trigger fires its handler's enabled rules
    /// when the handler's aggregated state is `True` and is a no-op on
    /// `False` or `Conflict`; a production or consumption asserts an
    /// atomic condition (with the bundle-merge semantics when an alias is
    /// installed, firing the bundle's deferred case rules afterwards); a
    /// sequence and a parallel list run their children in textual order;
    /// an alternative runs one child picked uniformly at random.
    #[verifier::loop_isolation(false)]
    fn process_action_depth(&mut self, action: &Action, depth: u64) -> (r: Result<
        bool,
        EngineError,
    >)
        ensures
            node_wf(old(self)@) ==> node_wf(final(self)@),
            vars_preserved(old(self)@, final(self)@),
            action_claims(
                old(self)@,
                final(self)@,
                crate::ast::action_view(*action),
                r,
                depth > 0,
            ),
            ({
                let av = crate::ast::action_view(*action);
                match av {
                    crate::ast::ActionView::Primitive(
                        crate::ast::PrimitiveEventView::Trigger(t),
                    ) => match handler_find(old(self)@.handlers, t) {
                        Some(h) => spec_handler_state(h.rules) == ActivationStatus::True ==> ((
                        depth == 0 ==> (r == Err::<bool, EngineError>(EngineError::DepthExhausted)
                            && final(self)@ == old(self)@)) && (depth > 0 ==> fired_chain(
                            old(self)@,
                            spec_handler_rules(h, true),
                            0,
                            final(self)@,
                            r,
                            depth > 2,
                        ))),
                        None => true,
                    },
                    crate::ast::ActionView::Primitive(
                        crate::ast::PrimitiveEventView::Production(ac),
                    ) => match spec_get_alias_rules(old(self)@, ac, None) {
                        Ok((bundle, ns)) => ((depth == 0 ==> (r == Err::<bool, EngineError>(
                            EngineError::DepthExhausted,
                        ) && final(self)@ == old(self)@)) && (depth > 0 ==> ({
                            let (nv2, res1) = spec_store(
                                old(self)@,
                                AtomicConditionView::Compound(
                                    CompoundView { rules: bundle, alias: None },
                                ),
                                ActivationStatus::True,
                                Some(ns),
                                true,
                            );
                            match res1 {
                                Err(e) => final(self)@ == nv2 && r == Err::<bool, EngineError>(e),
                                Ok(b) => exists|r2: Result<bool, EngineError>|
                                    #[trigger] chain_tail(r2) && cases_chain(
                                        nv2,
                                        bundle,
                                        0,
                                        final(self)@,
                                        r2,
                                        depth > 3,
                                    ) && r == res_and(b, r2),
                            }
                        }))),
                        Err(_) => true,
                    },
                    crate::ast::ActionView::Primitive(
                        crate::ast::PrimitiveEventView::Consumption(ac),
                    ) => match spec_get_alias_rules(old(self)@, ac, None) {
                        Ok((bundle, ns)) => ((depth == 0 ==> (r == Err::<bool, EngineError>(
                            EngineError::DepthExhausted,
                        ) && final(self)@ == old(self)@)) && (depth > 0 ==> ({
                            let (nv2, res1) = spec_store(
                                old(self)@,
                                AtomicConditionView::Compound(
                                    CompoundView { rules: bundle, alias: None },
                                ),
                                ActivationStatus::False,
                                Some(ns),
                                false,
                            );
                            match res1 {
                                Err(e) => final(self)@ == nv2 && r == Err::<bool, EngineError>(e),
                                Ok(b) => exists|r2: Result<bool, EngineError>|
                                    #[trigger] chain_tail(r2) && cases_chain(
                                        nv2,
                                        bundle,
                                        0,
                                        final(self)@,
                                        r2,
                                        depth > 3,
                                    ) && r == res_and(b, r2),
                            }
                        }))),
                        Err(_) => true,
                    },
                    _ => true,
                }
            }),
        decreases depth, *action,
    {
        match action {
            Action::Primitive(prim_event) => match prim_event {
                PrimitiveEvent::Trigger(desc) => {
                    match self.find_handler(desc) {
                        None => Err(EngineError::HandlerMissing),
                        Some(j) => {
                            let st = self.event_handlers[j].state();
                            match st {
                                ActivationStatus::True => {
                                    if depth == 0 {
                                        return Err(EngineError::DepthExhausted);
                                    }
                                    let ghost hv = self@.handlers[j as int];
                                    let snapshot = self.event_handlers[j].get_rules(true);
                                    let ghost snapv = Seq::new(
                                        snapshot@.len(),
                                        |i: int| snapshot@[i]@,
                                    );
                                    let ghost sub = depth > 2;
                                    proof {
                                        assert(snapv == spec_handler_rules(hv, true));
                                        assert forall|post: NodeView, r2: Result<
                                            bool,
                                            EngineError,
                                        >|
                                            #[trigger] fired_chain(self@, snapv, 0, post, r2, sub)
                                                implies fired_chain(
                                            old(self)@,
                                            snapv,
                                            0,
                                            post,
                                            res_and(true, r2),
                                            sub,
                                        ) by {
                                            match r2 {
                                                Ok(_) => {
                                                    assert(res_and(true, r2) == r2);
                                                },
                                                Err(_) => {
                                                    assert(res_and(true, r2) == r2);
                                                },
                                            }
                                        }
                                    }
                                    let mut ok = true;
                                    let mut k: usize = 0;
                                    while k < snapshot.len()
                                        invariant
                                            node_wf(old(self)@) ==> node_wf(self@),
                                            vars_preserved(old(self)@, self@),
                                            k <= snapshot@.len(),
                                            forall|post: NodeView, r2: Result<bool, EngineError>|
                                                #[trigger] fired_chain(
                                                    self@,
                                                    snapv,
                                                    k as int,
                                                    post,
                                                    r2,
                                                    sub,
                                                ) ==> fired_chain(
                                                    old(self)@,
                                                    snapv,
                                                    0,
                                                    post,
                                                    res_and(ok, r2),
                                                    sub,
                                                ),
                                        decreases snapshot@.len() - k,
                                    {
                                        let ghost mid = self@;
                                        let ghost ok_pre = ok;
                                        let rwa = &snapshot[k];
                                        proof {
                                            assert(snapv[k as int] == snapshot@[k as int]@);
                                        }
                                        let enabled = matches!(rwa.value, ActivationStatus::True);
                                        if enabled {
                                            let cond_eval: Result<bool, EngineError> = match &rwa.rule {
                                                ReactiveRule::CA { condition, .. } => (
                                                self.process_condition(condition)),
                                                ReactiveRule::ECA { condition: Some(c), .. } => (
                                                self.process_condition(c)),
                                                ReactiveRule::ECA { condition: None, .. } => (
                                                Ok(true)),
                                            };
                                            proof {
                                                assert((match rule_condition(
                                                    snapv[k as int].rule,
                                                ) {
                                                    Some(c) => spec_process_condition(self@, c),
                                                    None => Ok::<bool, EngineError>(true),
                                                }) == cond_eval);
                                            }
                                            let holds = match cond_eval {
                                                Err(e) => {
                                                    proof {
                                                        assert(fired_chain(
                                                            mid,
                                                            snapv,
                                                            k as int,
                                                            self@,
                                                            Err::<bool, EngineError>(e),
                                                            sub,
                                                        ));
                                                    }
                                                    return Err(e);
                                                },
                                                Ok(b) => b,
                                            };
                                            if holds {
                                                let act = match &rwa.rule {
                                                    ReactiveRule::CA { action, .. } => (
                                                    action.clone()),
                                                    ReactiveRule::ECA { action, .. } => (
                                                    action.clone()),
                                                };
                                                let ghost actv = crate::ast::action_view(act);
                                                proof {
                                                    assert(actv == rule_action(
                                                        snapv[k as int].rule,
                                                    ));
                                                }
                                                let case = RuleWithArgs::Case(
                                                    CaseRule { action: act },
                                                );
                                                match self.process_rule_depth(&case, depth - 1) {
                                                    Err(e) => {
                                                        proof {
                                                            assert(budgeted_action(
                                                                mid,
                                                                actv,
                                                                self@,
                                                                Err::<bool, EngineError>(e),
                                                                sub,
                                                            ));
                                                            lemma_fired_step_err(
                                                                mid,
                                                                actv,
                                                                snapv,
                                                                k as int,
                                                                self@,
                                                                e,
                                                                sub,
                                                            );
                                                            assert(fired_chain(
                                                                mid,
                                                                snapv,
                                                                k as int,
                                                                self@,
                                                                Err::<bool, EngineError>(e),
                                                                sub,
                                                            ));
                                                            lemma_vars_preserved_trans(
                                                                old(self)@,
                                                                mid,
                                                                self@,
                                                            );
                                                        }
                                                        return Err(e);
                                                    },
                                                    Ok(b) => {
                                                        ok = ok && b;
                                                        proof {
                                                            let cur = self@;
                                                            assert(budgeted_action(
                                                                mid,
                                                                actv,
                                                                cur,
                                                                Ok::<bool, EngineError>(b),
                                                                sub,
                                                            ));
                                                            assert forall|
                                                                post: NodeView,
                                                                r2: Result<bool, EngineError>,
                                                            |
                                                                #[trigger] fired_chain(
                                                                    cur,
                                                                    snapv,
                                                                    k as int + 1,
                                                                    post,
                                                                    r2,
                                                                    sub,
                                                                ) implies fired_chain(
                                                                old(self)@,
                                                                snapv,
                                                                0,
                                                                post,
                                                                res_and(ok_pre && b, r2),
                                                                sub,
                                                            ) by {
                                                                lemma_fired_step_ok(
                                                                    mid,
                                                                    actv,
                                                                    snapv,
                                                                    k as int,
                                                                    cur,
                                                                    b,
                                                                    post,
                                                                    r2,
                                                                    sub,
                                                                );
                                                                assert(fired_chain(
                                                                    mid,
                                                                    snapv,
                                                                    k as int,
                                                                    post,
                                                                    res_and(b, r2),
                                                                    sub,
                                                                ));
                                                                assert(res_and(
                                                                    ok_pre,
                                                                    res_and(b, r2),
                                                                ) == res_and(ok_pre && b, r2)) by {
                                                                    match r2 {
                                                                        Ok(_) => {},
                                                                        Err(_) => {},
                                                                    }
                                                                }
                                                            }
                                                        }
                                                    },
                                                }
                                                proof {
                                                    lemma_vars_preserved_trans(
                                                        old(self)@,
                                                        mid,
                                                        self@,
                                                    );
                                                }
                                            } else {
                                                proof {
                                                    assert forall|
                                                        post: NodeView,
                                                        r2: Result<bool, EngineError>,
                                                    |
                                                        #[trigger] fired_chain(
                                                            self@,
                                                            snapv,
                                                            k as int + 1,
                                                            post,
                                                            r2,
                                                            sub,
                                                        ) implies fired_chain(
                                                        old(self)@,
                                                        snapv,
                                                        0,
                                                        post,
                                                        res_and(ok, r2),
                                                        sub,
                                                    ) by {
                                                        assert(fired_chain(
                                                            self@,
                                                            snapv,
                                                            k as int,
                                                            post,
                                                            r2,
                                                            sub,
                                                        ));
                                                    }
                                                }
                                            }
                                        } else {
                                            proof {
                                                assert(snapv[k as int].value
                                                    != ActivationStatus::True);
                                                assert forall|
                                                    post: NodeView,
                                                    r2: Result<bool, EngineError>,
                                                |
                                                    #[trigger] fired_chain(
                                                        self@,
                                                        snapv,
                                                        k as int + 1,
                                                        post,
                                                        r2,
                                                        sub,
                                                    ) implies fired_chain(
                                                    old(self)@,
                                                    snapv,
                                                    0,
                                                    post,
                                                    res_and(ok, r2),
                                                    sub,
                                                ) by {
                                                    assert(fired_chain(
                                                        self@,
                                                        snapv,
                                                        k as int,
                                                        post,
                                                        r2,
                                                        sub,
                                                    ));
                                                }
                                            }
                                        }
                                        k = k + 1;
                                    }
                                    proof {
                                        assert(fired_chain(
                                            self@,
                                            snapv,
                                            snapshot@.len() as int,
                                            self@,
                                            Ok::<bool, EngineError>(true),
                                            sub,
                                        ));
                                        assert(res_and(ok, Ok::<bool, EngineError>(true)) == Ok::<
                                            bool,
                                            EngineError,
                                        >(ok));
                                    }
                                    Ok(ok)
                                },
                                ActivationStatus::False => Ok(true),
                                ActivationStatus::Conflict => Ok(true),
                            }
                        },
                    }
                },
                PrimitiveEvent::Production(ac) => {
                    match self.get_alias_rules(ac, None) {
                        Err(_) => {
                            let res = self.store_atomic_condition(
                                ac,
                                ActivationStatus::True,
                                None,
                                true,
                            );
                            proof {
                                if node_wf(old(self)@) {
                                    lemma_spec_store_wf(
                                        old(self)@,
                                        atomic_view(*ac),
                                        ActivationStatus::True,
                                        None,
                                        true,
                                    );
                                }
                                lemma_spec_store_vars(
                                    old(self)@,
                                    atomic_view(*ac),
                                    ActivationStatus::True,
                                    None,
                                    true,
                                );
                            }
                            res
                        },
                        Ok((bundle, ns)) => {
                            if depth == 0 {
                                return Err(EngineError::DepthExhausted);
                            }
                            self.fire_bundle(bundle, ns, ActivationStatus::True, true, depth - 1)
                        },
                    }
                },
                PrimitiveEvent::Consumption(ac) => {
                    match self.get_alias_rules(ac, None) {
                        Err(_) => {
                            let res = self.store_atomic_condition(
                                ac,
                                ActivationStatus::False,
                                None,
                                true,
                            );
                            proof {
                                if node_wf(old(self)@) {
                                    lemma_spec_store_wf(
                                        old(self)@,
                                        atomic_view(*ac),
                                        ActivationStatus::False,
                                        None,
                                        true,
                                    );
                                }
                                lemma_spec_store_vars(
                                    old(self)@,
                                    atomic_view(*ac),
                                    ActivationStatus::False,
                                    None,
                                    true,
                                );
                            }
                            res
                        },
                        Ok((bundle, ns)) => {
                            if depth == 0 {
                                return Err(EngineError::DepthExhausted);
                            }
                            self.fire_bundle(bundle, ns, ActivationStatus::False, false, depth - 1)
                        },
                    }
                },
            },
            Action::List(list) => match list {
                ActionList::Sequence(actions) => self.run_actions_in_order(actions, depth),
                ActionList::Parallel(actions) => self.run_actions_in_order(actions, depth),
                ActionList::Alternative(actions) => {
                    if actions.len() == 0 {
                        Err(EngineError::EmptyAlternative)
                    } else {
                        let k = random_index(actions.len());
                        proof {
                            assert(decreases_to!(*action => *actions));
                            assert(decreases_to!(*actions => actions@[k as int]));
                        }
                        let res = self.process_action_depth(&actions[k], depth);
                        proof {
                            lemma_actions_view_len(actions@);
                            lemma_actions_view_index(actions@, k as int);
                            assert(alt_choice(k as int));
                            assert(action_claims(
                                old(self)@,
                                self@,
                                crate::ast::actions_view(actions@)[k as int],
                                res,
                                depth > 0,
                            ));
                        }
                        res
                    }
                },
            },
        }
    }

    /// Run the children of a sequence or a parallel list, in textual
    /// order, each to completion: exactly the chain `actions_chain`, so
    /// the result is the conjunction of the children's results and the
    /// first child error is returned.
    #[verifier::loop_isolation(false)]
    fn run_actions_in_order(&mut self, actions: &Vec<Action>, depth: u64) -> (r: Result<
        bool,
        EngineError,
    >)
        ensures
            node_wf(old(self)@) ==> node_wf(final(self)@),
            vars_preserved(old(self)@, final(self)@),
            actions_chain(
                old(self)@,
                crate::ast::actions_view(actions@),
                0,
                final(self)@,
                r,
                depth > 0,
            ),
        decreases depth, *actions,
    {
        let ghost av = crate::ast::actions_view(actions@);
        let ghost fueled = depth > 0;
        proof {
            lemma_actions_view_len(actions@);
        }
        let mut ok = true;
        let mut k: usize = 0;
        proof {
            assert forall|post: NodeView, r2: Result<bool, EngineError>|
                #[trigger] actions_chain(self@, av, 0, post, r2, fueled) implies actions_chain(
                old(self)@,
                av,
                0,
                post,
                res_and(true, r2),
                fueled,
            ) by {
                match r2 {
                    Ok(b2) => {
                        assert(res_and(true, r2) == r2);
                    },
                    Err(_) => {
                        assert(res_and(true, r2) == r2);
                    },
                }
            }
        }
        while k < actions.len()
            invariant
                node_wf(old(self)@) ==> node_wf(self@),
                vars_preserved(old(self)@, self@),
                k <= actions@.len(),
                forall|post: NodeView, r2: Result<bool, EngineError>|
                    #[trigger] actions_chain(self@, av, k as int, post, r2, fueled)
                        ==> actions_chain(old(self)@, av, 0, post, res_and(ok, r2), fueled),
            decreases actions@.len() - k,
        {
            let ghost mid = self@;
            let ghost ok_pre = ok;
            proof {
                assert(decreases_to!(*actions => actions@[k as int]));
                lemma_actions_view_index(actions@, k as int);
            }
            match self.process_action_depth(&actions[k], depth) {
                Err(e) => {
                    proof {
                        assert(action_claims(mid, self@, av[k as int], Err::<bool, EngineError>(e),
                            fueled));
                        lemma_chain_step_err(mid, av, k as int, self@, e, fueled);
                        assert(actions_chain(
                            old(self)@,
                            av,
                            0,
                            self@,
                            res_and(ok_pre, Err::<bool, EngineError>(e)),
                            fueled,
                        ));
                        lemma_vars_preserved_trans(old(self)@, mid, self@);
                    }
                    return Err(e);
                },
                Ok(b) => {
                    ok = ok && b;
                    proof {
                        let cur = self@;
                        assert(action_claims(mid, cur, av[k as int], Ok::<bool, EngineError>(b),
                            fueled));
                        assert forall|post: NodeView, r2: Result<bool, EngineError>|
                            #[trigger] actions_chain(cur, av, k as int + 1, post, r2, fueled)
                                implies actions_chain(
                            old(self)@,
                            av,
                            0,
                            post,
                            res_and(ok_pre && b, r2),
                            fueled,
                        ) by {
                            lemma_chain_step_ok(mid, av, k as int, cur, b, post, r2, fueled);
                            assert(res_and(ok_pre, res_and(b, r2)) == res_and(ok_pre && b, r2))
                                by {
                                match r2 {
                                    Ok(_) => {},
                                    Err(_) => {},
                                }
                            }
                        }
                    }
                },
            }
            proof {
                lemma_vars_preserved_trans(old(self)@, mid, self@);
            }
            k = k + 1;
        }
        proof {
            assert(actions_chain(self@, av, actions@.len() as int, self@, Ok::<
                bool,
                EngineError,
            >(true), fueled));
            assert(res_and(ok, Ok::<bool, EngineError>(true)) == Ok::<bool, EngineError>(ok));
        }
        Ok(ok)
    }

    /// Install a found bundle under its path with the given value, then
    /// fire the bundle's deferred case rules.
    #[verifier::loop_isolation(false)]
    fn fire_bundle(
        &mut self,
        bundle: Vec<Rule>,
        ns: Vec<String>,
        value: ActivationStatus,
        override_entries: bool,
        depth: u64,
    ) -> (r: Result<bool, EngineError>)
        ensures
            node_wf(old(self)@) ==> node_wf(final(self)@),
            vars_preserved(old(self)@, final(self)@),
            no_case_rules(rules_view(bundle@)) ==> ({
                let (nv2, res) = spec_store(
                    old(self)@,
                    AtomicConditionView::Compound(
                        CompoundView { rules: rules_view(bundle@), alias: None },
                    ),
                    value,
                    Some(strings_view(ns@)),
                    override_entries,
                );
                final(self)@ == nv2 && r == res
            }),
            ({
                let (nv2, res1) = spec_store(
                    old(self)@,
                    AtomicConditionView::Compound(
                        CompoundView { rules: rules_view(bundle@), alias: None },
                    ),
                    value,
                    Some(strings_view(ns@)),
                    override_entries,
                );
                match res1 {
                    Err(e) => final(self)@ == nv2 && r == Err::<bool, EngineError>(e),
                    Ok(b) => exists|r2: Result<bool, EngineError>|
                        #[trigger] chain_tail(r2) && cases_chain(
                            nv2,
                            rules_view(bundle@),
                            0,
                            final(self)@,
                            r2,
                            depth > 2,
                        ) && r == res_and(b, r2),
                }
            }),
        decreases depth, bundle,
    {
        let bundle_rules = clone_rules(&bundle);
        let ghost brv = rules_view(bundle_rules@);
        let comp = AtomicCondition::Compound(Compound { rules: bundle_rules, alias: None });
        let ghost nv0 = self@;
        let ghost nsv = strings_view(ns@);
        let ghost claim_ac = AtomicConditionView::Compound(
            CompoundView { rules: rules_view(bundle@), alias: None },
        );
        proof {
            assert(brv == rules_view(bundle@));
            assert(comp is Compound);
            assert(comp->Compound_0.rules@ == bundle_rules@);
            assert(rules_view(comp->Compound_0.rules@) == brv);
            assert(comp->Compound_0.alias is None);
            assert(atomic_view(comp) == AtomicConditionView::Compound(
                crate::ast::compound_view(comp->Compound_0),
            ));
            assert(crate::ast::compound_view(comp->Compound_0) == (CompoundView {
                rules: brv,
                alias: None,
            }));
            assert(atomic_view(comp) == claim_ac);
        }
        let mut ok = match self.store_atomic_condition(&comp, value, Some(ns), override_entries) {
            Err(e) => {
                proof {
                    if node_wf(old(self)@) {
                        lemma_spec_store_wf(
                            nv0,
                            atomic_view(comp),
                            value,
                            path_view(Some(ns)),
                            override_entries,
                        );
                    }
                    lemma_spec_store_vars(
                        nv0,
                        atomic_view(comp),
                        value,
                        path_view(Some(ns)),
                        override_entries,
                    );
                }
                return Err(e);
            },
            Ok(b) => {
                proof {
                    if node_wf(old(self)@) {
                        lemma_spec_store_wf(
                            nv0,
                            atomic_view(comp),
                            value,
                            path_view(Some(ns)),
                            override_entries,
                        );
                    }
                    lemma_spec_store_vars(
                        nv0,
                        atomic_view(comp),
                        value,
                        path_view(Some(ns)),
                        override_entries,
                    );
                }
                b
            },
        };
        let ghost post_store = self@;
        let ghost store_b = ok;
        let ghost bv = rules_view(bundle@);
        let ghost sub = depth > 2;
        let mut k: usize = 0;
        proof {
            lemma_rules_view_len(bundle@);
            assert forall|post: NodeView, r2: Result<bool, EngineError>|
                #[trigger] cases_chain(self@, bv, 0, post, r2, sub) implies cases_chain(
                post_store,
                bv,
                0,
                post,
                res_and(true, r2),
                sub,
            ) by {
                match r2 {
                    Ok(_) => {
                        assert(res_and(true, r2) == r2);
                    },
                    Err(_) => {
                        assert(res_and(true, r2) == r2);
                    },
                }
            }
        }
        let mut acc_run = true;
        while k < bundle.len()
            invariant
                node_wf(old(self)@) ==> node_wf(self@),
                vars_preserved(old(self)@, self@),
                k <= bundle@.len(),
                bv == rules_view(bundle@),
                bv.len() == bundle@.len(),
                ok == (store_b && acc_run),
                no_case_rules(bv) ==> (self@ == post_store && acc_run == true),
                forall|post: NodeView, r2: Result<bool, EngineError>|
                    #[trigger] cases_chain(self@, bv, k as int, post, r2, sub) ==> cases_chain(
                        post_store,
                        bv,
                        0,
                        post,
                        res_and(acc_run, r2),
                        sub,
                    ),
            decreases bundle@.len() - k,
        {
            let ghost mid = self@;
            let ghost acc_pre = acc_run;
            proof {
                lemma_rules_view_index(bundle@, k as int);
            }
            match &bundle[k] {
                Rule::Case(cr) => {
                    proof {
                        assert(bv[k as int] is Case);
                    }
                    if depth == 0 {
                        proof {
                            assert(budgeted_action(
                                mid,
                                bv[k as int]->Case_0.action,
                                mid,
                                Err::<bool, EngineError>(EngineError::DepthExhausted),
                                sub,
                            ));
                            lemma_case_step_err(
                                mid,
                                bv[k as int]->Case_0.action,
                                bv,
                                k as int,
                                mid,
                                EngineError::DepthExhausted,
                                sub,
                            );
                            assert(cases_chain(
                                mid,
                                bv,
                                k as int,
                                mid,
                                Err::<bool, EngineError>(EngineError::DepthExhausted),
                                sub,
                            ));
                            assert(res_and(
                                acc_pre,
                                Err::<bool, EngineError>(EngineError::DepthExhausted),
                            ) == Err::<bool, EngineError>(EngineError::DepthExhausted));
                            assert(cases_chain(
                                post_store,
                                bv,
                                0,
                                mid,
                                Err::<bool, EngineError>(EngineError::DepthExhausted),
                                sub,
                            ));
                            assert(chain_tail(
                                Err::<bool, EngineError>(EngineError::DepthExhausted),
                            ));
                            assert(res_and(
                                store_b,
                                Err::<bool, EngineError>(EngineError::DepthExhausted),
                            ) == Err::<bool, EngineError>(EngineError::DepthExhausted));
                        }
                        return Err(EngineError::DepthExhausted);
                    }
                    let case = RuleWithArgs::Case(cr.clone());
                    let ghost actv = crate::ast::action_view(cr.action);
                    proof {
                        assert(actv == bv[k as int]->Case_0.action);
                        assert(case@ == RuleWithArgsView::Case(
                            crate::ast::CaseRuleView { action: actv },
                        ));
                    }
                    match self.process_rule_depth(&case, depth - 1) {
                        Err(e) => {
                            proof {
                                assert(budgeted_action(
                                    mid,
                                    actv,
                                    self@,
                                    Err::<bool, EngineError>(e),
                                    sub,
                                ));
                                lemma_case_step_err(
                                    mid,
                                    actv,
                                    bv,
                                    k as int,
                                    self@,
                                    e,
                                    sub,
                                );
                                assert(cases_chain(
                                    mid,
                                    bv,
                                    k as int,
                                    self@,
                                    Err::<bool, EngineError>(e),
                                    sub,
                                ));
                                assert(res_and(acc_pre, Err::<bool, EngineError>(e)) == Err::<
                                    bool,
                                    EngineError,
                                >(e));
                                assert(cases_chain(
                                    post_store,
                                    bv,
                                    0,
                                    self@,
                                    Err::<bool, EngineError>(e),
                                    sub,
                                ));
                                assert(chain_tail(Err::<bool, EngineError>(e)));
                                assert(res_and(store_b, Err::<bool, EngineError>(e)) == Err::<
                                    bool,
                                    EngineError,
                                >(e));
                                lemma_vars_preserved_trans(old(self)@, mid, self@);
                            }
                            return Err(e);
                        },
                        Ok(b) => {
                            ok = ok && b;
                            acc_run = acc_run && b;
                            proof {
                                let cur = self@;
                                assert(budgeted_action(
                                    mid,
                                    actv,
                                    cur,
                                    Ok::<bool, EngineError>(b),
                                    sub,
                                ));
                                assert forall|post: NodeView, r2: Result<bool, EngineError>|
                                    #[trigger] cases_chain(cur, bv, k as int + 1, post, r2, sub)
                                        implies cases_chain(
                                    post_store,
                                    bv,
                                    0,
                                    post,
                                    res_and(acc_pre && b, r2),
                                    sub,
                                ) by {
                                    lemma_case_step_ok(
                                        mid,
                                        actv,
                                        bv,
                                        k as int,
                                        cur,
                                        b,
                                        post,
                                        r2,
                                        sub,
                                    );
                                    assert(cases_chain(
                                        mid,
                                        bv,
                                        k as int,
                                        post,
                                        res_and(b, r2),
                                        sub,
                                    ));
                                    assert(res_and(acc_pre, res_and(b, r2)) == res_and(
                                        acc_pre && b,
                                        r2,
                                    )) by {
                                        match r2 {
                                            Ok(_) => {},
                                            Err(_) => {},
                                        }
                                    }
                                }
                            }
                        },
                    }
                    proof {
                        lemma_vars_preserved_trans(old(self)@, mid, self@);
                    }
                },
                _ => {
                    proof {
                        assert(!(bv[k as int] is Case));
                        assert forall|post: NodeView, r2: Result<bool, EngineError>|
                            #[trigger] cases_chain(self@, bv, k as int + 1, post, r2, sub) implies
                            cases_chain(post_store, bv, 0, post, res_and(acc_run, r2), sub) by {
                            assert(cases_chain(self@, bv, k as int, post, r2, sub));
                        }
                    }
                },
            }
            k = k + 1;
        }
        proof {
            assert(cases_chain(self@, bv, bundle@.len() as int, self@, Ok::<bool, EngineError>(
                true,
            ), sub));
            assert(cases_chain(post_store, bv, 0, self@, res_and(acc_run, Ok::<
                bool,
                EngineError,
            >(true)), sub));
            assert(res_and(acc_run, Ok::<bool, EngineError>(true)) == Ok::<bool, EngineError>(
                acc_run,
            ));
            assert(chain_tail(Ok::<bool, EngineError>(acc_run)));
            assert(res_and(store_b, Ok::<bool, EngineError>(acc_run)) == Ok::<bool, EngineError>(
                ok,
            ));
        }
        Ok(ok)
    }

    /// Process one rule with the default firing budget
    /// (`MAX_FIRING_DEPTH`): a case rule whose action fires re-entrant
    /// chains deeper than the budget fails with `DepthExhausted`.
    pub fn process_rule(&mut self, rule_with_args: &RuleWithArgs) -> (r: Result<bool, EngineError>)
        ensures
            node_wf(old(self)@) ==> node_wf(final(self)@),
            vars_preserved(old(self)@, final(self)@),
            match rule_with_args@ {
                RuleWithArgsView::Reactive(rv) => final(self)@ == (NodeView {
                    handlers: spec_apply_reactive(old(self)@.handlers, rv.rule, rv.value, rv.alias),
                    ..old(self)@
                }) && r == Ok::<bool, EngineError>(true),
                RuleWithArgsView::Declarative(_) => final(self)@ == old(self)@ && r == Ok::<
                    bool,
                    EngineError,
                >(true),
                RuleWithArgsView::Fact(f) => ({
                    let value = match f.value {
                        Some(v) => v,
                        None => match f.rule.condition {
                            AtomicConditionView::Primitive(_) => ActivationStatus::True,
                            _ => ActivationStatus::False,
                        },
                    };
                    let (nv2, res) = spec_store(old(self)@, f.rule.condition, value, None, true);
                    final(self)@ == nv2 && r == res
                }),
                RuleWithArgsView::Case(c) => action_claims(
                    old(self)@,
                    final(self)@,
                    c.action,
                    r,
                    true,
                ),
            },
    {
        self.process_rule_depth(rule_with_args, MAX_FIRING_DEPTH)
    }

    /// Execute one action with the default firing budget
    /// (`MAX_FIRING_DEPTH`; deeper re-entrant firing chains fail with
    /// `DepthExhausted`).  The shape-by-shape promises are
    /// `action_claims` (the invalid-action error, the silent no-op on an
    /// inactive or ambiguous handler, the exact store semantics of
    /// productions and consumptions, the sequence/parallel chain and the
    /// alternative choice) together with the firing chains: a trigger
    /// whose handler aggregates `True` fires the handler's enabled rules
    /// in order (`fired_chain`), and a production or consumption through
    /// an installed bundle stores the bundle and then fires its deferred
    /// case rules in order (`cases_chain`).
    pub fn process_action(&mut self, action: &Action) -> (r: Result<bool, EngineError>)
        ensures
            node_wf(old(self)@) ==> node_wf(final(self)@),
            vars_preserved(old(self)@, final(self)@),
            action_claims(old(self)@, final(self)@, crate::ast::action_view(*action), r, true),
            ({
                let av = crate::ast::action_view(*action);
                match av {
                    crate::ast::ActionView::Primitive(
                        crate::ast::PrimitiveEventView::Trigger(t),
                    ) => match handler_find(old(self)@.handlers, t) {
                        Some(h) => spec_handler_state(h.rules) == ActivationStatus::True
                            ==> fired_chain(
                            old(self)@,
                            spec_handler_rules(h, true),
                            0,
                            final(self)@,
                            r,
                            true,
                        ),
                        None => true,
                    },
                    crate::ast::ActionView::Primitive(
                        crate::ast::PrimitiveEventView::Production(ac),
                    ) => match spec_get_alias_rules(old(self)@, ac, None) {
                        Ok((bundle, ns)) => ({
                            let (nv2, res1) = spec_store(
                                old(self)@,
                                AtomicConditionView::Compound(
                                    CompoundView { rules: bundle, alias: None },
                                ),
                                ActivationStatus::True,
                                Some(ns),
                                true,
                            );
                            match res1 {
                                Err(e) => final(self)@ == nv2 && r == Err::<bool, EngineError>(e),
                                Ok(b) => exists|r2: Result<bool, EngineError>|
                                    #[trigger] chain_tail(r2) && cases_chain(
                                        nv2,
                                        bundle,
                                        0,
                                        final(self)@,
                                        r2,
                                        true,
                                    ) && r == res_and(b, r2),
                            }
                        }),
                        Err(_) => true,
                    },
                    crate::ast::ActionView::Primitive(
                        crate::ast::PrimitiveEventView::Consumption(ac),
                    ) => match spec_get_alias_rules(old(self)@, ac, None) {
                        Ok((bundle, ns)) => ({
                            let (nv2, res1) = spec_store(
                                old(self)@,
                                AtomicConditionView::Compound(
                                    CompoundView { rules: bundle, alias: None },
                                ),
                                ActivationStatus::False,
                                Some(ns),
                                false,
                            );
                            match res1 {
                                Err(e) => final(self)@ == nv2 && r == Err::<bool, EngineError>(e),
                                Ok(b) => exists|r2: Result<bool, EngineError>|
                                    #[trigger] chain_tail(r2) && cases_chain(
                                        nv2,
                                        bundle,
                                        0,
                                        final(self)@,
                                        r2,
                                        true,
                                    ) && r == res_and(b, r2),
                            }
                        }),
                        Err(_) => true,
                    },
                    _ => true,
                }
            }),
    {
        self.process_action_depth(action, MAX_FIRING_DEPTH)
    }

    /// Add rules, in order; the results preserve the input order, and
    /// the first error aborts.  For a list with no case rules the final
    /// state and every result are exactly the in-order fold
    /// `spec_apply_rule_seq` of the per-rule transitions; case rules
    /// execute their actions under the default firing budget.
    #[verifier::loop_isolation(false)]
    #[verifier::rlimit(100)]
    #[verifier::spinoff_prover]
    pub fn new_rules(&mut self, rules: &Vec<RuleWithArgs>) -> (r: Result<Vec<bool>, EngineError>)
        ensures
            node_wf(old(self)@) ==> node_wf(final(self)@),
            vars_preserved(old(self)@, final(self)@),
            r matches Ok(v) ==> v@.len() == rules@.len(),
            no_case_args(rule_args_views(rules@)) ==> ({
                let (nv2, res) = spec_apply_rule_seq(old(self)@, rule_args_views(rules@), 0);
                final(self)@ == nv2 && match (r, res) {
                    (Ok(v), Ok(bs)) => v@ == bs,
                    (Err(a), Err(b)) => a == b,
                    _ => false,
                }
            }),
            (forall|i: int| 0 <= i < rules@.len() ==> (#[trigger] rules@[i]@) is Case) ==> exists|
                rr: Result<bool, EngineError>,
            |
                #[trigger] chain_tail(rr) && cases_chain(
                    old(self)@,
                    args_as_rules(rule_args_views(rules@)),
                    0,
                    final(self)@,
                    rr,
                    true,
                ),
    {
        let ghost rv = rule_args_views(rules@);
        let ghost crs = args_as_rules(rv);
        let ghost allcase = forall|i: int| 0 <= i < rules@.len() ==> (#[trigger] rules@[i]@) is Case;
        proof {
            if allcase {
                assert(chain_tail(Ok::<bool, EngineError>(true)));
                assert forall|post: NodeView, r2: Result<bool, EngineError>|
                    #[trigger] cases_chain(self@, crs, 0, post, r2, true) implies exists|
                    rr: Result<bool, EngineError>,
                |
                    #[trigger] chain_tail(rr) && cases_chain(old(self)@, crs, 0, post, rr, true) by {
                    assert(chain_tail(r2));
                }
            }
        }
        let ghost nocase = no_case_args(rv);
        let mut results: Vec<bool> = Vec::new();
        let mut k: usize = 0;
        proof {
            if nocase {
                assert(results@ + Seq::<bool>::empty() =~= results@);
            }
        }
        while k < rules.len()
            invariant
                node_wf(old(self)@) ==> node_wf(self@),
                vars_preserved(old(self)@, self@),
                k <= rules@.len(),
                results@.len() == k,
                nocase ==> ({
                    let (nv2, res) = spec_apply_rule_seq(old(self)@, rv, 0);
                    let (nvk, resk) = spec_apply_rule_seq(self@, rv, k as int);
                    nv2 == nvk && res == match resk {
                        Ok(bs) => Ok::<Seq<bool>, EngineError>(results@ + bs),
                        Err(e) => Err::<Seq<bool>, EngineError>(e),
                    }
                }),
                allcase ==> (forall|post: NodeView, r2: Result<bool, EngineError>|
                    #[trigger] cases_chain(self@, crs, k as int, post, r2, true) ==> exists|
                        rr: Result<bool, EngineError>,
                    |
                        #[trigger] chain_tail(rr) && cases_chain(
                            old(self)@,
                            crs,
                            0,
                            post,
                            rr,
                            true,
                        )),
            decreases rules@.len() - k,
        {
            let ghost mid = self@;
            let ghost pre_results = results@;
            proof {
                if allcase {
                    assert(rules@[k as int]@ is Case);
                    assert(crs[k as int] == RuleView::Case(rules@[k as int]@->Case_0));
                }
            }
            match self.process_rule_depth(&rules[k], MAX_FIRING_DEPTH) {
                Err(e) => {
                    proof {
                        if nocase {
                            assert(spec_apply_rule_seq(mid, rv, k as int) == (
                            self@,
                            Err::<Seq<bool>, EngineError>(e),
                            ));
                        }
                        if allcase {
                            let actv = rules@[k as int]@->Case_0.action;
                            assert(budgeted_action(mid, actv, self@, Err::<bool, EngineError>(e),
                                true));
                            lemma_case_step_err(mid, actv, crs, k as int, self@, e, true);
                            assert(cases_chain(mid, crs, k as int, self@, Err::<
                                bool,
                                EngineError,
                            >(e), true));
                        }
                    }
                    return Err(e);
                },
                Ok(b) => {
                    results.push(b);
                    proof {
                        if allcase {
                            let cur = self@;
                            let actv = rules@[k as int]@->Case_0.action;
                            assert(budgeted_action(mid, actv, cur, Ok::<bool, EngineError>(b),
                                true));
                            assert forall|post: NodeView, r2: Result<bool, EngineError>|
                                #[trigger] cases_chain(cur, crs, k as int + 1, post, r2, true)
                                    implies exists|rr: Result<bool, EngineError>|
                                #[trigger] chain_tail(rr) && cases_chain(
                                    old(self)@,
                                    crs,
                                    0,
                                    post,
                                    rr,
                                    true,
                                ) by {
                                lemma_case_step_ok(mid, actv, crs, k as int, cur, b, post, r2,
                                    true);
                                assert(cases_chain(mid, crs, k as int, post, res_and(b, r2),
                                    true));
                            }
                        }
                        if nocase {
                            let (nvn, resn) = spec_apply_rule_seq(self@, rv, k as int + 1);
                            assert(spec_apply_rule_seq(mid, rv, k as int) == (
                            nvn,
                            match resn {
                                Ok(bs) => Ok::<Seq<bool>, EngineError>(seq![b] + bs),
                                Err(e) => Err::<Seq<bool>, EngineError>(e),
                            },
                            ));
                            match resn {
                                Ok(bs) => {
                                    assert(pre_results + (seq![b] + bs) =~= results@ + bs);
                                },
                                Err(_) => {},
                            }
                        }
                    }
                },
            }
            proof {
                lemma_vars_preserved_trans(old(self)@, mid, self@);
            }
            k = k + 1;
        }
        proof {
            if nocase {
                assert(spec_apply_rule_seq(self@, rv, rules@.len() as int) == (
                self@,
                Ok::<Seq<bool>, EngineError>(Seq::empty()),
                ));
                assert(results@ + Seq::<bool>::empty() =~= results@);
            }
            if allcase {
                assert(crs.len() == rules@.len());
                assert(cases_chain(self@, crs, rules@.len() as int, self@, Ok::<
                    bool,
                    EngineError,
                >(true), true));
            }
        }
        Ok(results)
    }

    /// Every reactive rule across all handlers, in registry order; with
    /// `all` unset, entries whose status is `False` are hidden.
    pub fn get_rules(&self, all: bool) -> (r: Vec<ReactiveRuleWithArgs>)
        ensures
            Seq::new(r@.len(), |i: int| r@[i]@) == spec_node_rules(self@.handlers, all),
    {
        let mut out: Vec<ReactiveRuleWithArgs> = Vec::new();
        let mut k: usize = 0;
        proof {
            assert(spec_node_rules(self@.handlers.subrange(0, 0), all) =~= Seq::<
                ReactiveRuleWithArgsView,
            >::empty());
            assert(Seq::new(out@.len(), |i: int| out@[i]@) =~= Seq::<
                ReactiveRuleWithArgsView,
            >::empty());
        }
        while k < self.event_handlers.len()
            invariant
                k <= self.event_handlers@.len(),
                Seq::new(out@.len(), |i: int| out@[i]@) == spec_node_rules(
                    self@.handlers.subrange(0, k as int),
                    all,
                ),
            decreases self.event_handlers@.len() - k,
        {
            let ghost pre = Seq::new(out@.len(), |i: int| out@[i]@);
            let mut part = self.event_handlers[k].get_rules(all);
            let ghost part_view = Seq::new(part@.len(), |i: int| part@[i]@);
            out.append(&mut part);
            proof {
                assert(self@.handlers.subrange(0, k as int + 1).drop_last() =~= self@.handlers.subrange(
                    0,
                    k as int,
                ));
                assert(self@.handlers.subrange(0, k as int + 1).last() == self@.handlers[k as int]);
                assert(self@.handlers[k as int] == handler_view(self.event_handlers@[k as int]));
                assert(Seq::new(out@.len(), |i: int| out@[i]@) =~= pre + part_view);
            }
            k = k + 1;
        }
        proof {
            assert(self@.handlers.subrange(0, self@.handlers.len() as int) =~= self@.handlers);
        }
        out
    }
}

/// Storing never removes a variable, and a primitive store with a
/// concrete value leaves its variable present.
pub proof fn lemma_spec_store_vars(
    nv: NodeView,
    ac: AtomicConditionView,
    value: ActivationStatus,
    ns: Option<Seq<Seq<char>>>,
    override_entries: bool,
)
    ensures
        vars_preserved(nv, spec_store(nv, ac, value, ns, override_entries).0),
        (ac matches AtomicConditionView::Primitive(p) && value != ActivationStatus::Conflict)
            ==> var_find(
            spec_store(nv, ac, value, ns, override_entries).0.vars,
            ac->Primitive_0->Var_0,
        ) is Some,
    decreases ac, 2int, 0int,
{
    match ac {
        AtomicConditionView::Primitive(p) => {
            if value != ActivationStatus::Conflict {
                let name = p->Var_0;
                lemma_var_upsert_any(nv.vars, name, value);
            }
        },
        AtomicConditionView::Compound(c) => {
            let base = match ns {
                Some(p) => p,
                None => Seq::empty(),
            };
            let path = match c.alias {
                Some(a) => base.push(a),
                None => base,
            };
            let nv1 = if path.len() > 0 {
                NodeView {
                    aliases: spec_create_rules(nv.aliases, path, c.rules, override_entries).0,
                    ..nv
                }
            } else {
                nv
            };
            let dispatch_path = if path.len() > 0 {
                Some(path)
            } else {
                None
            };
            lemma_spec_dispatch_vars(nv1, c.rules, 0, value, dispatch_path);
        },
        AtomicConditionView::SubCompound { namespace, condition } => {
            let base = match ns {
                Some(p) => p,
                None => Seq::empty(),
            };
            lemma_spec_store_vars(nv, *condition, value, Some(base.push(namespace)),
                override_entries);
        },
    }
}

pub proof fn lemma_spec_dispatch_vars(
    nv: NodeView,
    rules: Seq<RuleView>,
    i: int,
    value: ActivationStatus,
    path: Option<Seq<Seq<char>>>,
)
    ensures
        vars_preserved(nv, spec_dispatch(nv, rules, i, value, path).0),
    decreases rules, 1int, rules.len() - i,
{
    if 0 <= i < rules.len() {
        match rules[i] {
            RuleView::Reactive(rr) => {
                let nv2 = NodeView {
                    handlers: spec_apply_reactive(nv.handlers, rr, value, path),
                    ..nv
                };
                lemma_spec_dispatch_vars(nv2, rules, i + 1, value, path);
            },
            RuleView::Fact(f) => {
                lemma_spec_store_vars(nv, f.condition, value, None, true);
                let (nv2, res) = spec_store(nv, f.condition, value, None, true);
                match res {
                    Err(_) => {},
                    Ok(_) => {
                        lemma_spec_dispatch_vars(nv2, rules, i + 1, value, path);
                        lemma_vars_preserved_trans(
                            nv,
                            nv2,
                            spec_dispatch(nv2, rules, i + 1, value, path).0,
                        );
                    },
                }
            },
            RuleView::Case(_) => {
                lemma_spec_dispatch_vars(nv, rules, i + 1, value, path);
            },
            RuleView::Declarative(_) => {
                lemma_spec_dispatch_vars(nv, rules, i + 1, value, path);
            },
        }
    }
}

/// Upserting keeps every present variable present, with no uniqueness
/// assumption.
pub proof fn lemma_var_upsert_any(
    s: Seq<(Seq<char>, ActivationStatus)>,
    name: Seq<char>,
    v: ActivationStatus,
)
    ensures
        var_find(var_upsert(s, name, v), name) == Some(v),
        forall|k: Seq<char>| k != name ==> #[trigger] var_find(var_upsert(s, name, v), k)
            == var_find(s, k),
    decreases s.len(),
{
    let t = var_upsert(s, name, v);
    if s.len() == 0 {
        assert(t =~= seq![(name, v)]);
        assert(t.first() == (name, v));
        assert forall|k: Seq<char>| k != name implies #[trigger] var_find(t, k) == var_find(
            s,
            k,
        ) by {
            assert(t.drop_first() =~= s);
            assert(var_find(t, k) == var_find(s, k));
        }
    } else if s.first().0 == name {
        assert(t =~= seq![(name, v)] + s.drop_first());
        assert(t.first() == (name, v));
        assert(t.drop_first() =~= s.drop_first());
        assert forall|k: Seq<char>| k != name implies #[trigger] var_find(t, k) == var_find(
            s,
            k,
        ) by {
            assert(var_find(t, k) == var_find(t.drop_first(), k));
            assert(var_find(s, k) == var_find(s.drop_first(), k));
        }
    } else {
        lemma_var_upsert_any(s.drop_first(), name, v);
        let u = var_upsert(s.drop_first(), name, v);
        assert(t =~= seq![s.first()] + u);
        assert(t.first() == s.first());
        assert(t.drop_first() =~= u);
        assert(var_find(t, name) == var_find(u, name));
        assert forall|k: Seq<char>| k != name implies #[trigger] var_find(t, k) == var_find(
            s,
            k,
        ) by {
            if k == s.first().0 {
                assert(var_find(t, k) == Some(t.first().1));
                assert(var_find(s, k) == Some(s.first().1));
            } else {
                assert(var_find(t, k) == var_find(u, k));
                assert(var_find(s, k) == var_find(s.drop_first(), k));
            }
        }
    }
}


impl Node {
    /// Build a node, optionally from an initial rule set.  Every atomic
    /// condition mentioned anywhere in the rules is stored first with
    /// status `False`; then the non-case rules are applied, and only
    /// then the case rules (under the default firing budget), so that
    /// every handler exists before any case executes.  After
    /// construction every primitive variable mentioned anywhere in the
    /// rules is present in the variable store; for a rule set with no
    /// case rules the whole state is exactly the two initialization
    /// folds.
    #[verifier::loop_isolation(false)]
    #[verifier::rlimit(100)]
    #[verifier::spinoff_prover]
    pub fn new_with_rules(rules: Option<Vec<Rule>>) -> (r: Node)
        ensures
            node_wf(r@),
            match rules {
                Some(rs) => (forall|k: int|
                    0 <= k < crate::visitor::acs_of_rule_seq(rules_view(rs@)).len() ==> ((
                    #[trigger] crate::visitor::acs_of_rule_seq(rules_view(rs@))[k])
                        matches AtomicConditionView::Primitive(p) ==> var_find(
                        r@.vars,
                        crate::node::prim_cond_name(p),
                    ) is Some)) && (no_case_rules(rules_view(rs@)) ==> r@ == spec_apply_rule_seq(
                    spec_init_stores(
                        NodeView {
                            vars: Seq::<(Seq<char>, ActivationStatus)>::empty(),
                            aliases: crate::utils::empty_namespace(),
                            handlers: Seq::<HandlerView>::empty(),
                        },
                        crate::visitor::acs_of_rule_seq(rules_view(rs@)),
                    ),
                    spec_noncase_args(rules_view(rs@)),
                    0,
                ).0) && ({
                    let nv1 = spec_init_stores(
                        NodeView {
                            vars: Seq::<(Seq<char>, ActivationStatus)>::empty(),
                            aliases: crate::utils::empty_namespace(),
                            handlers: Seq::<HandlerView>::empty(),
                        },
                        crate::visitor::acs_of_rule_seq(rules_view(rs@)),
                    );
                    let (nv2, res2) = spec_apply_rule_seq(
                        nv1,
                        spec_noncase_args(rules_view(rs@)),
                        0,
                    );
                    match res2 {
                        Err(_) => r@ == nv2,
                        Ok(_) => exists|rr: Result<bool, EngineError>|
                            #[trigger] chain_tail(rr) && cases_chain(
                                nv2,
                                case_rule_views(rules_view(rs@)),
                                0,
                                r@,
                                rr,
                                true,
                            ),
                    }
                }),
                None => r@ == (NodeView {
                    vars: Seq::<(Seq<char>, ActivationStatus)>::empty(),
                    aliases: crate::utils::empty_namespace(),
                    handlers: Seq::<HandlerView>::empty(),
                }),
            },
    {
        let mut node = Node::new();
        let rs = match rules {
            None => {
                return node;
            },
            Some(rs) => rs,
        };
        let ghost rsv = rules_view(rs@);
        let ghost empty_nv = node@;
        proof {
            lemma_rules_view_len(rs@);
            assert(rsv.subrange(0, 0) =~= Seq::<RuleView>::empty());
        }
        let mut i: usize = 0;
        while i < rs.len()
            invariant
                i <= rs@.len(),
                node_wf(node@),
                node@ == spec_init_stores(
                    empty_nv,
                    crate::visitor::acs_of_rule_seq(rsv.subrange(0, i as int)),
                ),
                forall|k: int|
                    0 <= k < crate::visitor::acs_of_rule_seq(rsv.subrange(0, i as int)).len()
                        ==> ((#[trigger] crate::visitor::acs_of_rule_seq(
                        rsv.subrange(0, i as int),
                    )[k]) matches AtomicConditionView::Primitive(p) ==> var_find(
                        node@.vars,
                        prim_cond_name(p),
                    ) is Some),
            decreases rs@.len() - i,
        {
            let ghost done = crate::visitor::acs_of_rule_seq(rsv.subrange(0, i as int));
            let acs = rs[i].collect_atomic_conditions();
            let ghost acsv = crate::visitor::acs_vec_view(acs@);
            proof {
                lemma_rules_view_index(rs@, i as int);
                assert(acsv == crate::visitor::acs_of_rule(rsv[i as int]));
            }
            let ghost rule_start = node@;
            let ghost acs_len = acsv.len();
            let mut k: usize = 0;
            proof {
                crate::visitor::lemma_acs_vec_view_len(acs@);
                assert(acsv.subrange(0, acs_len as int) =~= acsv);
            }
            while k < acs.len()
                invariant
                    k <= acs@.len(),
                    acsv == crate::visitor::acs_vec_view(acs@),
                    acs_len == acsv.len(),
                    acs_len == acs@.len(),
                    node_wf(node@),
                    spec_init_stores(rule_start, acsv) == spec_init_stores(
                        node@,
                        acsv.subrange(k as int, acs_len as int),
                    ),
                    forall|m: int|
                        0 <= m < done.len() ==> ((#[trigger] done[m])
                            matches AtomicConditionView::Primitive(p) ==> var_find(
                            node@.vars,
                            prim_cond_name(p),
                        ) is Some),
                    forall|m: int|
                        0 <= m < k ==> ((#[trigger] acsv[m])
                            matches AtomicConditionView::Primitive(p) ==> var_find(
                            node@.vars,
                            prim_cond_name(p),
                        ) is Some),
                decreases acs@.len() - k,
            {
                let ghost pre = node@;
                let _ = node.store_atomic_condition(
                    &acs[k],
                    ActivationStatus::False,
                    None,
                    true,
                );
                proof {
                    lemma_spec_store_wf(
                        pre,
                        atomic_view(acs@[k as int]),
                        ActivationStatus::False,
                        None,
                        true,
                    );
                    lemma_spec_store_vars(
                        pre,
                        atomic_view(acs@[k as int]),
                        ActivationStatus::False,
                        None,
                        true,
                    );
                    assert(acsv[k as int] == atomic_view(acs@[k as int]));
                    let suffix = acsv.subrange(k as int, acs_len as int);
                    assert(suffix.first() == acsv[k as int]);
                    assert(suffix.drop_first() =~= acsv.subrange(k as int + 1, acs_len as int));
                    assert(spec_init_stores(node@, suffix.drop_first()) == spec_init_stores(
                        node@,
                        acsv.subrange(k as int + 1, acs_len as int),
                    ));
                }
                k = k + 1;
            }
            proof {
                assert(acsv.subrange(acs_len as int, acs_len as int) =~= Seq::<
                    AtomicConditionView,
                >::empty());
                assert(node@ == spec_init_stores(rule_start, acsv));
            }
            proof {
                assert(rsv.subrange(0, i as int + 1).drop_last() =~= rsv.subrange(0, i as int));
                assert(rsv.subrange(0, i as int + 1).last() == rsv[i as int]);
                assert(crate::visitor::acs_of_rule_seq(rsv.subrange(0, i as int + 1)) == done
                    + acsv);
                lemma_init_stores_concat(empty_nv, done, acsv);
            }
            i = i + 1;
        }
        proof {
            assert(rsv.subrange(0, rs@.len() as int) =~= rsv);
        }
        // apply the non-case rules, then the case rules
        let mut other_rules: Vec<RuleWithArgs> = Vec::new();
        let mut case_rules: Vec<RuleWithArgs> = Vec::new();
        let mut j: usize = 0;
        proof {
            assert(rule_args_views(other_rules@) =~= Seq::<RuleWithArgsView>::empty());
        }
        proof {
            assert(args_as_rules(rule_args_views(case_rules@)) =~= Seq::<RuleView>::empty());
        }
        while j < rs.len()
            invariant
                j <= rs@.len(),
                rule_args_views(other_rules@) == spec_noncase_args(rsv.subrange(0, j as int)),
                no_case_args(rule_args_views(other_rules@)),
                no_case_rules(rsv) ==> case_rules@.len() == 0,
                args_as_rules(rule_args_views(case_rules@)) == case_rule_views(
                    rsv.subrange(0, j as int),
                ),
                forall|m: int| 0 <= m < case_rules@.len() ==> (#[trigger] case_rules@[m]@) is Case,
            decreases rs@.len() - j,
        {
            let ghost other_pre = rule_args_views(other_rules@);
            proof {
                lemma_rules_view_index(rs@, j as int);
                assert(rsv.subrange(0, j as int + 1).drop_last() =~= rsv.subrange(0, j as int));
                assert(rsv.subrange(0, j as int + 1).last() == rsv[j as int]);
            }
            match &rs[j] {
                Rule::Reactive(rr) => {
                    other_rules.push(
                        RuleWithArgs::Reactive(
                            ReactiveRuleWithArgs {
                                rule: rr.clone(),
                                value: ActivationStatus::True,
                                alias: None,
                            },
                        ),
                    );
                    proof {
                        assert(rule_args_views(other_rules@) =~= other_pre.push(
                            other_rules@.last()@,
                        ));
                        assert(other_pre.push(other_rules@.last()@) =~= other_pre + seq![
                            other_rules@.last()@,
                        ]);
                        assert(case_rule_views(rsv.subrange(0, j as int)) + Seq::<
                            RuleView,
                        >::empty() =~= case_rule_views(rsv.subrange(0, j as int)));
                    }
                },
                Rule::Fact(f) => {
                    other_rules.push(
                        RuleWithArgs::Fact(FactRuleWithArgs { rule: f.clone(), value: None }),
                    );
                    proof {
                        assert(rule_args_views(other_rules@) =~= other_pre.push(
                            other_rules@.last()@,
                        ));
                        assert(other_pre.push(other_rules@.last()@) =~= other_pre + seq![
                            other_rules@.last()@,
                        ]);
                        assert(case_rule_views(rsv.subrange(0, j as int)) + Seq::<
                            RuleView,
                        >::empty() =~= case_rule_views(rsv.subrange(0, j as int)));
                    }
                },
                Rule::Declarative(d) => {
                    other_rules.push(RuleWithArgs::Declarative(d.clone()));
                    proof {
                        assert(rule_args_views(other_rules@) =~= other_pre.push(
                            other_rules@.last()@,
                        ));
                        assert(other_pre.push(other_rules@.last()@) =~= other_pre + seq![
                            other_rules@.last()@,
                        ]);
                        assert(case_rule_views(rsv.subrange(0, j as int)) + Seq::<
                            RuleView,
                        >::empty() =~= case_rule_views(rsv.subrange(0, j as int)));
                    }
                },
                Rule::Case(c) => {
                    let ghost cases_pre = args_as_rules(rule_args_views(case_rules@));
                    case_rules.push(RuleWithArgs::Case(c.clone()));
                    proof {
                        assert(other_pre + Seq::<RuleWithArgsView>::empty() =~= other_pre);
                        assert(rsv[j as int] is Case);
                        assert(case_rules@.last()@ == RuleWithArgsView::Case(
                            rsv[j as int]->Case_0,
                        ));
                        assert(args_as_rules(rule_args_views(case_rules@)) =~= cases_pre.push(
                            RuleView::Case(rsv[j as int]->Case_0),
                        ));
                        assert(cases_pre.push(RuleView::Case(rsv[j as int]->Case_0)) =~= cases_pre
                            + seq![RuleView::Case(rsv[j as int]->Case_0)]);
                    }
                },
            }
            j = j + 1;
        }
        proof {
            assert(rsv.subrange(0, rs@.len() as int) =~= rsv);
        }
        let ghost before_apply = node@;
        let applied = node.new_rules(&other_rules);
        let ghost after_other = node@;
        if applied.is_ok() {
            let _ = node.new_rules(&case_rules);
            proof {
                lemma_vars_preserved_trans(before_apply, after_other, node@);
                if no_case_rules(rsv) {
                    assert(rule_args_views(case_rules@) =~= Seq::<RuleWithArgsView>::empty());
                    assert(node@ == after_other);
                }
            }
        }
        node
    }
}

// ---------------------------------------------------------------------
// Laws.
// ---------------------------------------------------------------------

/// Handler uniqueness: a well-formed node has at most one handler for
/// any identifier, so two distinct registry entries never share one.
pub proof fn lemma_handler_uniqueness(nv: NodeView, i: int, j: int)
    requires
        node_wf(nv),
        0 <= i < j < nv.handlers.len(),
    ensures
        nv.handlers[i].id != nv.handlers[j].id,
{
}

/// An identifier occurring in the registry is found.
pub proof fn lemma_handler_find_exists(s: Seq<HandlerView>, j: int)
    requires
        0 <= j < s.len(),
    ensures
        handler_find(s, s[j].id) is Some,
    decreases j,
{
    if j == 0 {
        assert(s.first() == s[0]);
    } else {
        if s.first().id != s[j].id {
            assert(s.drop_first()[j - 1] == s[j]);
            lemma_handler_find_exists(s.drop_first(), j - 1);
        }
    }
}

/// Every handler identifier present before is present after.
pub open spec fn handlers_preserved(a: NodeView, b: NodeView) -> bool {
    forall|id: Seq<char>| #[trigger] handler_find(a.handlers, id) is Some ==> handler_find(
        b.handlers,
        id,
    ) is Some
}

pub proof fn lemma_handlers_preserved_trans(a: NodeView, b: NodeView, c: NodeView)
    requires
        handlers_preserved(a, b),
        handlers_preserved(b, c),
    ensures
        handlers_preserved(a, c),
{
    assert forall|id: Seq<char>| #[trigger] handler_find(a.handlers, id) is Some implies
        handler_find(c.handlers, id) is Some by {
        assert(handler_find(b.handlers, id) is Some);
    }
}

/// Registering a reactive rule keeps every present identifier present.
pub proof fn lemma_apply_reactive_preserves(
    handlers: Seq<HandlerView>,
    rule: ReactiveRuleView,
    value: ActivationStatus,
    alias: Option<Seq<Seq<char>>>,
)
    ensures
        forall|id: Seq<char>| #[trigger] handler_find(handlers, id) is Some ==> handler_find(
            spec_apply_reactive(handlers, rule, value, alias),
            id,
        ) is Some,
{
    let rid = reactive_identifier(rule);
    let key = RuleKeyView { rule: rule, alias: alias };
    let t = spec_apply_reactive(handlers, rule, value, alias);
    assert forall|id: Seq<char>| #[trigger] handler_find(handlers, id) is Some implies
        handler_find(t, id) is Some by {
        let j = lemma_handler_find_some_index(handlers, id);
        match handler_find(handlers, rid) {
            None => {
                assert(t =~= handlers.push(HandlerView { id: rid, rules: seq![(key, value)] }));
                assert(t[j].id == id);
                lemma_handler_find_exists(t, j);
            },
            Some(h) => {
                let m = lemma_handler_find_some_index(handlers, rid);
                lemma_handler_set_at(
                    handlers,
                    rid,
                    HandlerView { id: rid, rules: key_upsert(h.rules, key, value) },
                    m,
                );
                assert(t =~= handlers.update(
                    m,
                    HandlerView { id: rid, rules: key_upsert(h.rules, key, value) },
                ));
                assert(t[j].id == id);
                lemma_handler_find_exists(t, j);
            },
        }
    }
}

/// Storing never removes a handler.
pub proof fn lemma_spec_store_handlers(
    nv: NodeView,
    ac: AtomicConditionView,
    value: ActivationStatus,
    ns: Option<Seq<Seq<char>>>,
    override_entries: bool,
)
    ensures
        handlers_preserved(nv, spec_store(nv, ac, value, ns, override_entries).0),
    decreases ac, 2int, 0int,
{
    match ac {
        AtomicConditionView::Primitive(_) => {},
        AtomicConditionView::Compound(c) => {
            let base = match ns {
                Some(p) => p,
                None => Seq::empty(),
            };
            let path = match c.alias {
                Some(a) => base.push(a),
                None => base,
            };
            let nv1 = if path.len() > 0 {
                NodeView {
                    aliases: spec_create_rules(nv.aliases, path, c.rules, override_entries).0,
                    ..nv
                }
            } else {
                nv
            };
            let dispatch_path = if path.len() > 0 {
                Some(path)
            } else {
                None
            };
            lemma_spec_dispatch_handlers(nv1, c.rules, 0, value, dispatch_path);
        },
        AtomicConditionView::SubCompound { namespace, condition } => {
            let base = match ns {
                Some(p) => p,
                None => Seq::empty(),
            };
            lemma_spec_store_handlers(nv, *condition, value, Some(base.push(namespace)),
                override_entries);
        },
    }
}

pub proof fn lemma_spec_dispatch_handlers(
    nv: NodeView,
    rules: Seq<RuleView>,
    i: int,
    value: ActivationStatus,
    path: Option<Seq<Seq<char>>>,
)
    ensures
        handlers_preserved(nv, spec_dispatch(nv, rules, i, value, path).0),
    decreases rules, 1int, rules.len() - i,
{
    if 0 <= i < rules.len() {
        match rules[i] {
            RuleView::Reactive(rr) => {
                lemma_apply_reactive_preserves(nv.handlers, rr, value, path);
                let nv2 = NodeView {
                    handlers: spec_apply_reactive(nv.handlers, rr, value, path),
                    ..nv
                };
                lemma_spec_dispatch_handlers(nv2, rules, i + 1, value, path);
                lemma_handlers_preserved_trans(
                    nv,
                    nv2,
                    spec_dispatch(nv2, rules, i + 1, value, path).0,
                );
            },
            RuleView::Fact(f) => {
                lemma_spec_store_handlers(nv, f.condition, value, None, true);
                let (nv2, res) = spec_store(nv, f.condition, value, None, true);
                match res {
                    Err(_) => {},
                    Ok(_) => {
                        lemma_spec_dispatch_handlers(nv2, rules, i + 1, value, path);
                        lemma_handlers_preserved_trans(
                            nv,
                            nv2,
                            spec_dispatch(nv2, rules, i + 1, value, path).0,
                        );
                    },
                }
            },
            RuleView::Case(_) => {
                lemma_spec_dispatch_handlers(nv, rules, i + 1, value, path);
            },
            RuleView::Declarative(_) => {
                lemma_spec_dispatch_handlers(nv, rules, i + 1, value, path);
            },
        }
    }
}

/// A rule stored inside an alias namespace also appears in the handler
/// registry iff it is reactive.  The only-if half is structural: the
/// registry's keys hold reactive rules by type.  This lemma is the if
/// half: when storing a compound succeeds, every reactive rule it
/// carries ends up with a handler under the rule's identifier.
pub proof fn lemma_dispatch_registers_reactive(
    nv: NodeView,
    rules: Seq<RuleView>,
    i: int,
    value: ActivationStatus,
    path: Option<Seq<Seq<char>>>,
)
    requires
        0 <= i,
        spec_dispatch(nv, rules, i, value, path).1 is Ok,
    ensures
        forall|m: int|
            i <= m < rules.len() && (#[trigger] rules[m]) is Reactive ==> handler_find(
                spec_dispatch(nv, rules, i, value, path).0.handlers,
                reactive_identifier(rules[m]->Reactive_0),
            ) is Some,
    decreases rules, 1int, rules.len() - i,
{
    if 0 <= i < rules.len() {
        match rules[i] {
            RuleView::Reactive(rr) => {
                lemma_apply_reactive_wf_free(nv.handlers, rr, value, path);
                let nv2 = NodeView {
                    handlers: spec_apply_reactive(nv.handlers, rr, value, path),
                    ..nv
                };
                lemma_dispatch_registers_reactive(nv2, rules, i + 1, value, path);
                lemma_spec_dispatch_handlers(nv2, rules, i + 1, value, path);
            },
            RuleView::Fact(f) => {
                let (nv2, res) = spec_store(nv, f.condition, value, None, true);
                match res {
                    Err(_) => {},
                    Ok(_) => {
                        lemma_dispatch_registers_reactive(nv2, rules, i + 1, value, path);
                    },
                }
            },
            RuleView::Case(_) => {
                lemma_dispatch_registers_reactive(nv, rules, i + 1, value, path);
            },
            RuleView::Declarative(_) => {
                lemma_dispatch_registers_reactive(nv, rules, i + 1, value, path);
            },
        }
    }
}

/// Registering a rule leaves a handler for its identifier, with no
/// well-formedness assumption.
pub proof fn lemma_apply_reactive_wf_free(
    handlers: Seq<HandlerView>,
    rule: ReactiveRuleView,
    value: ActivationStatus,
    alias: Option<Seq<Seq<char>>>,
)
    ensures
        handler_find(
            spec_apply_reactive(handlers, rule, value, alias),
            reactive_identifier(rule),
        ) is Some,
{
    let id = reactive_identifier(rule);
    let key = RuleKeyView { rule: rule, alias: alias };
    let t = spec_apply_reactive(handlers, rule, value, alias);
    match handler_find(handlers, id) {
        None => {
            lemma_handler_find_none_converse(handlers, id);
            assert(t =~= handlers.push(HandlerView { id: id, rules: seq![(key, value)] }));
            assert(t[t.len() - 1].id == id);
            lemma_handler_find_exists(t, t.len() - 1);
        },
        Some(h) => {
            let j = lemma_handler_find_some_index(handlers, id);
            lemma_handler_set_at(
                handlers,
                id,
                HandlerView { id: id, rules: key_upsert(h.rules, key, value) },
                j,
            );
            assert(t =~= handlers.update(
                j,
                HandlerView { id: id, rules: key_upsert(h.rules, key, value) },
            ));
            assert(t[j].id == id);
            lemma_handler_find_exists(t, j);
        },
    }
}

/// Storing a compound under a non-empty path registers every reactive
/// rule of the bundle (when the store succeeds).
pub proof fn lemma_store_registers_reactive(
    nv: NodeView,
    c: CompoundView,
    value: ActivationStatus,
    ns: Option<Seq<Seq<char>>>,
    override_entries: bool,
)
    requires
        spec_store(nv, AtomicConditionView::Compound(c), value, ns, override_entries).1 is Ok,
    ensures
        forall|m: int|
            0 <= m < c.rules.len() && (#[trigger] c.rules[m]) is Reactive ==> handler_find(
                spec_store(
                    nv,
                    AtomicConditionView::Compound(c),
                    value,
                    ns,
                    override_entries,
                ).0.handlers,
                reactive_identifier(c.rules[m]->Reactive_0),
            ) is Some,
{
    let base = match ns {
        Some(p) => p,
        None => Seq::empty(),
    };
    let path = match c.alias {
        Some(a) => base.push(a),
        None => base,
    };
    let nv1 = if path.len() > 0 {
        NodeView {
            aliases: spec_create_rules(nv.aliases, path, c.rules, override_entries).0,
            ..nv
        }
    } else {
        nv
    };
    let dispatch_path = if path.len() > 0 {
        Some(path)
    } else {
        None
    };
    lemma_dispatch_registers_reactive(nv1, c.rules, 0, value, dispatch_path);
}

/// Compound aggregation: a compound whose reactive rules all have status
/// `True` aggregates to `True`; any `Conflict` makes it `Conflict`; any
/// `False` with no `Conflict` makes it `False`.
pub proof fn lemma_compound_aggregation(s: Seq<ActivationStatus>)
    ensures
        (forall|i: int| 0 <= i < s.len() ==> s[i] == ActivationStatus::True)
            ==> spec_overall_status(s) == ActivationStatus::True,
        s.contains(ActivationStatus::Conflict) ==> spec_overall_status(s)
            == ActivationStatus::Conflict,
        (!s.contains(ActivationStatus::Conflict) && s.contains(ActivationStatus::False))
            ==> spec_overall_status(s) == ActivationStatus::False,
{
    if forall|i: int| 0 <= i < s.len() ==> s[i] == ActivationStatus::True {
        if s.contains(ActivationStatus::Conflict) {
            let w = choose|w: int|
                0 <= w < s.len() && s[w] == ActivationStatus::Conflict;
            assert(false);
        }
        if s.contains(ActivationStatus::False) {
            let w = choose|w: int| 0 <= w < s.len() && s[w] == ActivationStatus::False;
            assert(false);
        }
    }
}

} // verus!
