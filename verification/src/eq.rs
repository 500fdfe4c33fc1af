//! Structural equality of syntax trees, decided at the level of their
//! views: each function returns exactly whether the two views coincide.

use vstd::prelude::*;

use crate::ast::{
    Action, ActionList, AtomicCondition, Compound, Condition, DeclarativeRule, PrimitiveCondition,
    PrimitiveEvent, ReactiveRule, Rule, action_list_view, action_view, actions_view, atomic_view,
    compound_view, cond_view, conds_view, declarative_view, lemma_actions_view_index,
    lemma_actions_view_len, lemma_conds_view_index, lemma_conds_view_len, lemma_rules_view_index,
    lemma_rules_view_len, opt_cond_view, opt_string_view, prim_cond_view, prim_event_view,
    reactive_view, rule_view, rules_view,
};

verus! {

pub fn eq_prim_cond(a: &PrimitiveCondition, b: &PrimitiveCondition) -> (r: bool)
    ensures
        r == (prim_cond_view(*a) == prim_cond_view(*b)),
{
    match (a, b) {
        (PrimitiveCondition::Var(x), PrimitiveCondition::Var(y)) => x.eq(y),
    }
}

pub fn eq_opt_string(a: &Option<String>, b: &Option<String>) -> (r: bool)
    ensures
        r == (opt_string_view(*a) == opt_string_view(*b)),
{
    match (a, b) {
        (Some(x), Some(y)) => x.eq(y),
        (None, None) => true,
        _ => false,
    }
}

pub fn eq_atomic(a: &AtomicCondition, b: &AtomicCondition) -> (r: bool)
    ensures
        r == (atomic_view(*a) == atomic_view(*b)),
    decreases *a,
{
    match (a, b) {
        (AtomicCondition::Primitive(x), AtomicCondition::Primitive(y)) => eq_prim_cond(x, y),
        (AtomicCondition::Compound(x), AtomicCondition::Compound(y)) => eq_compound(x, y),
        (
            AtomicCondition::SubCompound { namespace: n1, condition: c1 },
            AtomicCondition::SubCompound { namespace: n2, condition: c2 },
        ) => n1.eq(n2) && eq_atomic(c1, c2),
        _ => false,
    }
}

pub fn eq_compound(a: &Compound, b: &Compound) -> (r: bool)
    ensures
        r == (compound_view(*a) == compound_view(*b)),
    decreases *a,
{
    eq_rules(&a.rules, &b.rules) && eq_opt_string(&a.alias, &b.alias)
}

pub fn eq_rules(a: &Vec<Rule>, b: &Vec<Rule>) -> (r: bool)
    ensures
        r == (rules_view(a@) == rules_view(b@)),
    decreases *a,
{
    proof {
        lemma_rules_view_len(a@);
        lemma_rules_view_len(b@);
    }
    if a.len() != b.len() {
        return false;
    }
    let mut i: usize = 0;
    while i < a.len()
        invariant
            a@.len() == b@.len(),
            i <= a@.len(),
            forall|j: int| 0 <= j < i ==> rule_view(a@[j]) == rule_view(b@[j]),
        decreases a@.len() - i,
    {
        if !eq_rule(&a[i], &b[i]) {
            proof {
                lemma_rules_view_index(a@, i as int);
                lemma_rules_view_index(b@, i as int);
            }
            return false;
        }
        i = i + 1;
    }
    proof {
        assert forall|j: int| 0 <= j < a@.len() implies rules_view(a@)[j] == rules_view(b@)[j] by {
            lemma_rules_view_index(a@, j);
            lemma_rules_view_index(b@, j);
        }
        assert(rules_view(a@) =~= rules_view(b@));
    }
    true
}

pub fn eq_cond(a: &Condition, b: &Condition) -> (r: bool)
    ensures
        r == (cond_view(*a) == cond_view(*b)),
    decreases *a,
{
    match (a, b) {
        (Condition::Atomic(x), Condition::Atomic(y)) => eq_atomic(x, y),
        (Condition::Not(x), Condition::Not(y)) => eq_cond(x, y),
        (Condition::Conjunction(x), Condition::Conjunction(y)) => eq_conds(x, y),
        (Condition::Disjunction(x), Condition::Disjunction(y)) => eq_conds(x, y),
        (Condition::Parentheses(x), Condition::Parentheses(y)) => eq_cond(x, y),
        _ => false,
    }
}

pub fn eq_conds(a: &Vec<Condition>, b: &Vec<Condition>) -> (r: bool)
    ensures
        r == (conds_view(a@) == conds_view(b@)),
    decreases *a,
{
    proof {
        lemma_conds_view_len(a@);
        lemma_conds_view_len(b@);
    }
    if a.len() != b.len() {
        return false;
    }
    let mut i: usize = 0;
    while i < a.len()
        invariant
            a@.len() == b@.len(),
            i <= a@.len(),
            forall|j: int| 0 <= j < i ==> cond_view(a@[j]) == cond_view(b@[j]),
        decreases a@.len() - i,
    {
        if !eq_cond(&a[i], &b[i]) {
            proof {
                lemma_conds_view_index(a@, i as int);
                lemma_conds_view_index(b@, i as int);
            }
            return false;
        }
        i = i + 1;
    }
    proof {
        assert forall|j: int| 0 <= j < a@.len() implies conds_view(a@)[j] == conds_view(b@)[j] by {
            lemma_conds_view_index(a@, j);
            lemma_conds_view_index(b@, j);
        }
        assert(conds_view(a@) =~= conds_view(b@));
    }
    true
}

pub fn eq_opt_cond(a: &Option<Condition>, b: &Option<Condition>) -> (r: bool)
    ensures
        r == (opt_cond_view(*a) == opt_cond_view(*b)),
    decreases *a,
{
    match (a, b) {
        (Some(x), Some(y)) => eq_cond(x, y),
        (None, None) => true,
        _ => false,
    }
}

pub fn eq_action_list(a: &ActionList, b: &ActionList) -> (r: bool)
    ensures
        r == (action_list_view(*a) == action_list_view(*b)),
    decreases *a,
{
    match (a, b) {
        (ActionList::Sequence(x), ActionList::Sequence(y)) => eq_actions(x, y),
        (ActionList::Parallel(x), ActionList::Parallel(y)) => eq_actions(x, y),
        (ActionList::Alternative(x), ActionList::Alternative(y)) => eq_actions(x, y),
        _ => false,
    }
}

pub fn eq_actions(a: &Vec<Action>, b: &Vec<Action>) -> (r: bool)
    ensures
        r == (actions_view(a@) == actions_view(b@)),
    decreases *a,
{
    proof {
        lemma_actions_view_len(a@);
        lemma_actions_view_len(b@);
    }
    if a.len() != b.len() {
        return false;
    }
    let mut i: usize = 0;
    while i < a.len()
        invariant
            a@.len() == b@.len(),
            i <= a@.len(),
            forall|j: int| 0 <= j < i ==> action_view(a@[j]) == action_view(b@[j]),
        decreases a@.len() - i,
    {
        if !eq_action(&a[i], &b[i]) {
            proof {
                lemma_actions_view_index(a@, i as int);
                lemma_actions_view_index(b@, i as int);
            }
            return false;
        }
        i = i + 1;
    }
    proof {
        assert forall|j: int| 0 <= j < a@.len() implies actions_view(a@)[j] == actions_view(
            b@,
        )[j] by {
            lemma_actions_view_index(a@, j);
            lemma_actions_view_index(b@, j);
        }
        assert(actions_view(a@) =~= actions_view(b@));
    }
    true
}

pub fn eq_prim_event(a: &PrimitiveEvent, b: &PrimitiveEvent) -> (r: bool)
    ensures
        r == (prim_event_view(*a) == prim_event_view(*b)),
    decreases *a,
{
    match (a, b) {
        (PrimitiveEvent::Trigger(x), PrimitiveEvent::Trigger(y)) => x.eq(y),
        (PrimitiveEvent::Production(x), PrimitiveEvent::Production(y)) => eq_atomic(x, y),
        (PrimitiveEvent::Consumption(x), PrimitiveEvent::Consumption(y)) => eq_atomic(x, y),
        _ => false,
    }
}

pub fn eq_action(a: &Action, b: &Action) -> (r: bool)
    ensures
        r == (action_view(*a) == action_view(*b)),
    decreases *a,
{
    match (a, b) {
        (Action::Primitive(x), Action::Primitive(y)) => eq_prim_event(x, y),
        (Action::List(x), Action::List(y)) => eq_action_list(x, y),
        _ => false,
    }
}

pub fn eq_reactive(a: &ReactiveRule, b: &ReactiveRule) -> (r: bool)
    ensures
        r == (reactive_view(*a) == reactive_view(*b)),
    decreases *a,
{
    match (a, b) {
        (
            ReactiveRule::ECA { event: e1, condition: c1, action: a1 },
            ReactiveRule::ECA { event: e2, condition: c2, action: a2 },
        ) => eq_prim_event(e1, e2) && eq_opt_cond(c1, c2) && eq_action(a1, a2),
        (
            ReactiveRule::CA { condition: c1, action: a1 },
            ReactiveRule::CA { condition: c2, action: a2 },
        ) => eq_cond(c1, c2) && eq_action(a1, a2),
        _ => false,
    }
}

pub fn eq_declarative(a: &DeclarativeRule, b: &DeclarativeRule) -> (r: bool)
    ensures
        r == (declarative_view(*a) == declarative_view(*b)),
    decreases *a,
{
    match (a, b) {
        (
            DeclarativeRule::CC { premise: p1, condition: c1 },
            DeclarativeRule::CC { premise: p2, condition: c2 },
        ) => eq_opt_cond(p1, p2) && eq_atomic(c1, c2),
        (
            DeclarativeRule::CT { premise: p1, condition: c1 },
            DeclarativeRule::CT { premise: p2, condition: c2 },
        ) => eq_opt_cond(p1, p2) && eq_cond(c1, c2),
        _ => false,
    }
}

pub fn eq_rule(a: &Rule, b: &Rule) -> (r: bool)
    ensures
        r == (rule_view(*a) == rule_view(*b)),
    decreases *a,
{
    match (a, b) {
        (Rule::Reactive(x), Rule::Reactive(y)) => eq_reactive(x, y),
        (Rule::Declarative(x), Rule::Declarative(y)) => eq_declarative(x, y),
        (Rule::Case(x), Rule::Case(y)) => eq_action(&x.action, &y.action),
        (Rule::Fact(x), Rule::Fact(y)) => eq_atomic(&x.condition, &y.condition),
        _ => false,
    }
}

/// Whether `rules_view(v@)` holds an element equal to `rule_view(*x)`.
pub fn rules_contain(v: &Vec<Rule>, x: &Rule) -> (r: bool)
    ensures
        r == rules_view(v@).contains(rule_view(*x)),
{
    proof {
        lemma_rules_view_len(v@);
    }
    let mut i: usize = 0;
    while i < v.len()
        invariant
            i <= v@.len(),
            forall|j: int| 0 <= j < i ==> rule_view(v@[j]) != rule_view(*x),
        decreases v@.len() - i,
    {
        if eq_rule(&v[i], x) {
            proof {
                lemma_rules_view_index(v@, i as int);
            }
            return true;
        }
        i = i + 1;
    }
    proof {
        if rules_view(v@).contains(rule_view(*x)) {
            let j = choose|j: int|
                0 <= j < rules_view(v@).len() && rules_view(v@)[j] == rule_view(*x);
            lemma_rules_view_index(v@, j);
        }
    }
    false
}

} // verus!
