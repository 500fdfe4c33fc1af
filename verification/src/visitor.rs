//! Collecting the atomic conditions mentioned anywhere in a rule, in
//! visit order: a node before its children.

use vstd::prelude::*;

use crate::ast::{
    Action, ActionList, ActionListView, ActionView, AtomicCondition, AtomicConditionView,
    Compound, Condition, ConditionView, DeclarativeRuleView, PrimitiveEvent, PrimitiveEventView,
    ReactiveRuleView, Rule, RuleView, action_list_view, action_view, atomic_view, cond_view,
    lemma_actions_view_index, lemma_actions_view_len, lemma_conds_view_index,
    lemma_conds_view_len, lemma_rules_view_index, lemma_rules_view_len, prim_event_view,
    rule_view,
};

verus! {

// ---------------------------------------------------------------------
// The atomic conditions of each node, in visit order.
// ---------------------------------------------------------------------

pub open spec fn acs_of_atomic(a: AtomicConditionView) -> Seq<AtomicConditionView>
    decreases a, 1int,
{
    match a {
        AtomicConditionView::Primitive(_) => seq![a],
        AtomicConditionView::Compound(c) => seq![a] + acs_of_rules(c.rules),
        AtomicConditionView::SubCompound { condition, .. } => seq![a] + acs_of_atomic(*condition),
    }
}

pub open spec fn acs_of_rules(rs: Seq<RuleView>) -> Seq<AtomicConditionView>
    decreases rs, 2int,
{
    if rs.len() == 0 {
        Seq::empty()
    } else {
        acs_of_rules(rs.drop_last()) + acs_of_rule(rs.last())
    }
}

pub open spec fn acs_of_cond(c: ConditionView) -> Seq<AtomicConditionView>
    decreases c, 1int,
{
    match c {
        ConditionView::Atomic(a) => acs_of_atomic(a),
        ConditionView::Not(inner) => acs_of_cond(*inner),
        ConditionView::Conjunction(cs) => acs_of_conds(cs),
        ConditionView::Disjunction(cs) => acs_of_conds(cs),
        ConditionView::Parentheses(inner) => acs_of_cond(*inner),
    }
}

pub open spec fn acs_of_conds(cs: Seq<ConditionView>) -> Seq<AtomicConditionView>
    decreases cs, 2int,
{
    if cs.len() == 0 {
        Seq::empty()
    } else {
        acs_of_conds(cs.drop_last()) + acs_of_cond(cs.last())
    }
}

pub open spec fn acs_of_opt_cond(c: Option<ConditionView>) -> Seq<AtomicConditionView>
    decreases c, 2int,
{
    match c {
        Some(c) => acs_of_cond(c),
        None => Seq::empty(),
    }
}

pub open spec fn acs_of_prim_event(e: PrimitiveEventView) -> Seq<AtomicConditionView>
    decreases e, 1int,
{
    match e {
        PrimitiveEventView::Trigger(_) => Seq::empty(),
        PrimitiveEventView::Production(a) => acs_of_atomic(a),
        PrimitiveEventView::Consumption(a) => acs_of_atomic(a),
    }
}

pub open spec fn acs_of_action(a: ActionView) -> Seq<AtomicConditionView>
    decreases a, 1int,
{
    match a {
        ActionView::Primitive(e) => acs_of_prim_event(e),
        ActionView::List(l) => acs_of_action_list(l),
    }
}

pub open spec fn acs_of_action_list(l: ActionListView) -> Seq<AtomicConditionView>
    decreases l, 1int,
{
    match l {
        ActionListView::Sequence(v) => acs_of_actions(v),
        ActionListView::Parallel(v) => acs_of_actions(v),
        ActionListView::Alternative(v) => acs_of_actions(v),
    }
}

pub open spec fn acs_of_actions(v: Seq<ActionView>) -> Seq<AtomicConditionView>
    decreases v, 2int,
{
    if v.len() == 0 {
        Seq::empty()
    } else {
        acs_of_actions(v.drop_last()) + acs_of_action(v.last())
    }
}

pub open spec fn acs_of_rule(r: RuleView) -> Seq<AtomicConditionView>
    decreases r, 1int,
{
    match r {
        RuleView::Reactive(rr) => match rr {
            ReactiveRuleView::ECA { event, condition, action } => (
                acs_of_prim_event(event) + acs_of_opt_cond(condition) + acs_of_action(action)
            ),
            ReactiveRuleView::CA { condition, action } => (
                acs_of_cond(condition) + acs_of_action(action)
            ),
        },
        RuleView::Declarative(d) => match d {
            DeclarativeRuleView::CC { premise, condition } => (
                acs_of_opt_cond(premise) + acs_of_atomic(condition)
            ),
            DeclarativeRuleView::CT { premise, condition } => (
                acs_of_opt_cond(premise) + acs_of_cond(condition)
            ),
        },
        RuleView::Case(c) => acs_of_action(c.action),
        RuleView::Fact(f) => acs_of_atomic(f.condition),
    }
}

/// The atomic conditions mentioned across a whole rule set.
pub open spec fn acs_of_rule_seq(rs: Seq<RuleView>) -> Seq<AtomicConditionView>
    decreases rs.len(),
{
    if rs.len() == 0 {
        Seq::empty()
    } else {
        acs_of_rule_seq(rs.drop_last()) + acs_of_rule(rs.last())
    }
}

/// The view of a collected vector.
pub open spec fn acs_vec_view(v: Seq<AtomicCondition>) -> Seq<AtomicConditionView> {
    Seq::new(v.len(), |i: int| atomic_view(v[i]))
}

pub proof fn lemma_acs_vec_view_len(v: Seq<AtomicCondition>)
    ensures
        acs_vec_view(v).len() == v.len(),
{
}

// ---------------------------------------------------------------------
// Executable collection.
// ---------------------------------------------------------------------

impl Rule {
    /// Every atomic condition mentioned in this rule, in visit order.
    pub fn collect_atomic_conditions(&self) -> (r: Vec<AtomicCondition>)
        ensures
            acs_vec_view(r@) == acs_of_rule(self@),
    {
        let mut out: Vec<AtomicCondition> = Vec::new();
        collect_rule(self, &mut out);
        proof {
            assert(acs_vec_view(Seq::<AtomicCondition>::empty()) =~= Seq::<
                AtomicConditionView,
            >::empty());
            assert(Seq::<AtomicConditionView>::empty() + acs_of_rule(rule_view(*self))
                =~= acs_of_rule(rule_view(*self)));
        }
        out
    }
}

fn collect_atomic(a: &AtomicCondition, out: &mut Vec<AtomicCondition>)
    ensures
        acs_vec_view(final(out)@) == acs_vec_view(old(out)@) + acs_of_atomic(atomic_view(*a)),
    decreases *a, 1int, 0int,
{
    let ghost pre = acs_vec_view(out@);
    let copy = a.clone();
    out.push(copy);
    proof {
        assert(acs_vec_view(out@) =~= pre + seq![atomic_view(*a)]);
    }
    match a {
        AtomicCondition::Primitive(_) => {
            proof {
                assert(pre + seq![atomic_view(*a)] =~= pre + acs_of_atomic(atomic_view(*a)));
            }
        },
        AtomicCondition::Compound(c) => {
            collect_rules(&c.rules, 0, out);
            proof {
                lemma_acs_rules_from_all(crate::ast::rules_view(c.rules@));
                let av = atomic_view(*a);
                let x = acs_of_rules(crate::ast::rules_view(c.rules@));
                assert(crate::ast::compound_view(*c).rules == crate::ast::rules_view(c.rules@));
                assert(acs_of_atomic(av) == seq![av] + x);
                assert((pre + seq![av]) + x =~= pre + (seq![av] + x));
            }
        },
        AtomicCondition::SubCompound { condition, .. } => {
            collect_atomic(condition, out);
            proof {
                assert((pre + seq![atomic_view(*a)]) + acs_of_atomic(atomic_view(**condition))
                    =~= pre + acs_of_atomic(atomic_view(*a)));
            }
        },
    }
}

fn collect_rules(rules: &Vec<Rule>, i: usize, out: &mut Vec<AtomicCondition>)
    requires
        i <= rules@.len(),
    ensures
        acs_vec_view(final(out)@) == acs_vec_view(old(out)@) + acs_of_rules_from(
            crate::ast::rules_view(rules@),
            i as int,
        ),
    decreases *rules, 2int, rules@.len() - i,
{
    proof {
        lemma_rules_view_len(rules@);
    }
    if i == rules.len() {
        proof {
            assert(acs_vec_view(out@) + acs_of_rules_from(
                crate::ast::rules_view(rules@),
                i as int,
            ) =~= acs_vec_view(out@));
        }
    } else {
        let ghost pre = acs_vec_view(out@);
        proof {
            lemma_rules_view_index(rules@, i as int);
        }
        collect_rule(&rules[i], out);
        collect_rules(rules, i + 1, out);
        proof {
            assert((pre + acs_of_rule(rule_view(rules@[i as int]))) + acs_of_rules_from(
                crate::ast::rules_view(rules@),
                i as int + 1,
            ) =~= pre + acs_of_rules_from(crate::ast::rules_view(rules@), i as int));
        }
    }
}

/// The atomic conditions of `rs[i..]`, in order.
pub open spec fn acs_of_rules_from(rs: Seq<RuleView>, i: int) -> Seq<AtomicConditionView>
    decreases rs.len() - i,
{
    if i < 0 || i >= rs.len() {
        Seq::empty()
    } else {
        acs_of_rule(rs[i]) + acs_of_rules_from(rs, i + 1)
    }
}

proof fn lemma_acs_rules_from(rs: Seq<RuleView>, i: int)
    requires
        0 <= i <= rs.len(),
    ensures
        acs_of_rules(rs.subrange(0, i)) + acs_of_rules_from(rs, i) == acs_of_rules(rs),
    decreases rs.len() - i,
{
    if i == rs.len() {
        assert(rs.subrange(0, i) =~= rs);
        assert(acs_of_rules(rs) + Seq::<AtomicConditionView>::empty() =~= acs_of_rules(rs));
    } else {
        lemma_acs_rules_from(rs, i + 1);
        assert(rs.subrange(0, i + 1).drop_last() =~= rs.subrange(0, i));
        assert(rs.subrange(0, i + 1).last() == rs[i]);
        assert(acs_of_rules(rs.subrange(0, i + 1)) == acs_of_rules(rs.subrange(0, i))
            + acs_of_rule(rs[i]));
        assert((acs_of_rules(rs.subrange(0, i)) + acs_of_rule(rs[i])) + acs_of_rules_from(
            rs,
            i + 1,
        ) =~= acs_of_rules(rs.subrange(0, i)) + (acs_of_rule(rs[i]) + acs_of_rules_from(
            rs,
            i + 1,
        )));
    }
}

proof fn lemma_acs_rules_from_all(rs: Seq<RuleView>)
    ensures
        acs_of_rules_from(rs, 0) == acs_of_rules(rs),
{
    lemma_acs_rules_from(rs, 0);
    assert(rs.subrange(0, 0) =~= Seq::<RuleView>::empty());
    assert(Seq::<AtomicConditionView>::empty() + acs_of_rules_from(rs, 0) =~= acs_of_rules_from(
        rs,
        0,
    ));
}

fn collect_rule(r: &Rule, out: &mut Vec<AtomicCondition>)
    ensures
        acs_vec_view(final(out)@) == acs_vec_view(old(out)@) + acs_of_rule(rule_view(*r)),
    decreases *r, 1int, 0int,
{
    let ghost pre = acs_vec_view(out@);
    match r {
        Rule::Reactive(rr) => match rr {
            crate::ast::ReactiveRule::ECA { event, condition, action } => {
                collect_prim_event(event, out);
                let ghost mid1 = acs_vec_view(out@);
                match condition {
                    Some(c) => collect_cond(c, out),
                    None => {},
                }
                let ghost mid2 = acs_vec_view(out@);
                collect_action(action, out);
                proof {
                    assert(acs_vec_view(out@) =~= pre + (acs_of_prim_event(
                        prim_event_view(*event),
                    ) + acs_of_opt_cond(crate::ast::opt_cond_view(*condition)) + acs_of_action(
                        action_view(*action),
                    )));
                    assert(mid1 + Seq::<AtomicConditionView>::empty() =~= mid1);
                }
            },
            crate::ast::ReactiveRule::CA { condition, action } => {
                collect_cond(condition, out);
                collect_action(action, out);
                proof {
                    assert(acs_vec_view(out@) =~= pre + (acs_of_cond(cond_view(*condition))
                        + acs_of_action(action_view(*action))));
                }
            },
        },
        Rule::Declarative(d) => match d {
            crate::ast::DeclarativeRule::CC { premise, condition } => {
                match premise {
                    Some(c) => collect_cond(c, out),
                    None => {},
                }
                let ghost mid = acs_vec_view(out@);
                collect_atomic(condition, out);
                proof {
                    assert(acs_vec_view(out@) =~= pre + (acs_of_opt_cond(
                        crate::ast::opt_cond_view(*premise),
                    ) + acs_of_atomic(atomic_view(*condition))));
                    assert(pre + Seq::<AtomicConditionView>::empty() =~= pre);
                }
            },
            crate::ast::DeclarativeRule::CT { premise, condition } => {
                match premise {
                    Some(c) => collect_cond(c, out),
                    None => {},
                }
                let ghost mid = acs_vec_view(out@);
                collect_cond(condition, out);
                proof {
                    assert(acs_vec_view(out@) =~= pre + (acs_of_opt_cond(
                        crate::ast::opt_cond_view(*premise),
                    ) + acs_of_cond(cond_view(*condition))));
                    assert(pre + Seq::<AtomicConditionView>::empty() =~= pre);
                }
            },
        },
        Rule::Case(c) => {
            collect_action(&c.action, out);
        },
        Rule::Fact(f) => {
            collect_atomic(&f.condition, out);
        },
    }
}

fn collect_cond(c: &Condition, out: &mut Vec<AtomicCondition>)
    ensures
        acs_vec_view(final(out)@) == acs_vec_view(old(out)@) + acs_of_cond(cond_view(*c)),
    decreases *c, 1int, 0int,
{
    let ghost pre = acs_vec_view(out@);
    match c {
        Condition::Atomic(a) => collect_atomic(a, out),
        Condition::Not(inner) => collect_cond(inner, out),
        Condition::Conjunction(cs) => {
            collect_conds(cs, 0, out);
            proof {
                lemma_acs_conds_from_all(crate::ast::conds_view(cs@));
            }
        },
        Condition::Disjunction(cs) => {
            collect_conds(cs, 0, out);
            proof {
                lemma_acs_conds_from_all(crate::ast::conds_view(cs@));
            }
        },
        Condition::Parentheses(inner) => collect_cond(inner, out),
    }
}

pub open spec fn acs_of_conds_from(cs: Seq<ConditionView>, i: int) -> Seq<AtomicConditionView>
    decreases cs.len() - i,
{
    if i < 0 || i >= cs.len() {
        Seq::empty()
    } else {
        acs_of_cond(cs[i]) + acs_of_conds_from(cs, i + 1)
    }
}

proof fn lemma_acs_conds_from(cs: Seq<ConditionView>, i: int)
    requires
        0 <= i <= cs.len(),
    ensures
        acs_of_conds(cs.subrange(0, i)) + acs_of_conds_from(cs, i) == acs_of_conds(cs),
    decreases cs.len() - i,
{
    if i == cs.len() {
        assert(cs.subrange(0, i) =~= cs);
        assert(acs_of_conds(cs) + Seq::<AtomicConditionView>::empty() =~= acs_of_conds(cs));
    } else {
        lemma_acs_conds_from(cs, i + 1);
        assert(cs.subrange(0, i + 1).drop_last() =~= cs.subrange(0, i));
        assert(cs.subrange(0, i + 1).last() == cs[i]);
        assert(acs_of_conds(cs.subrange(0, i + 1)) == acs_of_conds(cs.subrange(0, i))
            + acs_of_cond(cs[i]));
        assert((acs_of_conds(cs.subrange(0, i)) + acs_of_cond(cs[i])) + acs_of_conds_from(
            cs,
            i + 1,
        ) =~= acs_of_conds(cs.subrange(0, i)) + (acs_of_cond(cs[i]) + acs_of_conds_from(
            cs,
            i + 1,
        )));
    }
}

proof fn lemma_acs_conds_from_all(cs: Seq<ConditionView>)
    ensures
        acs_of_conds_from(cs, 0) == acs_of_conds(cs),
{
    lemma_acs_conds_from(cs, 0);
    assert(cs.subrange(0, 0) =~= Seq::<ConditionView>::empty());
    assert(Seq::<AtomicConditionView>::empty() + acs_of_conds_from(cs, 0) =~= acs_of_conds_from(
        cs,
        0,
    ));
}

fn collect_conds(cs: &Vec<Condition>, i: usize, out: &mut Vec<AtomicCondition>)
    requires
        i <= cs@.len(),
    ensures
        acs_vec_view(final(out)@) == acs_vec_view(old(out)@) + acs_of_conds_from(
            crate::ast::conds_view(cs@),
            i as int,
        ),
    decreases *cs, 2int, cs@.len() - i,
{
    proof {
        lemma_conds_view_len(cs@);
    }
    if i == cs.len() {
        proof {
            assert(acs_vec_view(out@) + acs_of_conds_from(
                crate::ast::conds_view(cs@),
                i as int,
            ) =~= acs_vec_view(out@));
        }
    } else {
        let ghost pre = acs_vec_view(out@);
        proof {
            lemma_conds_view_index(cs@, i as int);
        }
        collect_cond(&cs[i], out);
        collect_conds(cs, i + 1, out);
        proof {
            assert((pre + acs_of_cond(cond_view(cs@[i as int]))) + acs_of_conds_from(
                crate::ast::conds_view(cs@),
                i as int + 1,
            ) =~= pre + acs_of_conds_from(crate::ast::conds_view(cs@), i as int));
        }
    }
}

fn collect_prim_event(e: &PrimitiveEvent, out: &mut Vec<AtomicCondition>)
    ensures
        acs_vec_view(final(out)@) == acs_vec_view(old(out)@) + acs_of_prim_event(
            prim_event_view(*e),
        ),
    decreases *e, 1int, 0int,
{
    match e {
        PrimitiveEvent::Trigger(_) => {
            proof {
                assert(acs_vec_view(out@) + Seq::<AtomicConditionView>::empty() =~= acs_vec_view(
                    out@,
                ));
            }
        },
        PrimitiveEvent::Production(a) => collect_atomic(a, out),
        PrimitiveEvent::Consumption(a) => collect_atomic(a, out),
    }
}

fn collect_action(a: &Action, out: &mut Vec<AtomicCondition>)
    ensures
        acs_vec_view(final(out)@) == acs_vec_view(old(out)@) + acs_of_action(action_view(*a)),
    decreases *a, 1int, 0int,
{
    match a {
        Action::Primitive(e) => collect_prim_event(e, out),
        Action::List(l) => match l {
            ActionList::Sequence(v) => {
                collect_actions(v, 0, out);
                proof {
                    lemma_acs_actions_from_all(crate::ast::actions_view(v@));
                }
            },
            ActionList::Parallel(v) => {
                collect_actions(v, 0, out);
                proof {
                    lemma_acs_actions_from_all(crate::ast::actions_view(v@));
                }
            },
            ActionList::Alternative(v) => {
                collect_actions(v, 0, out);
                proof {
                    lemma_acs_actions_from_all(crate::ast::actions_view(v@));
                }
            },
        },
    }
}

pub open spec fn acs_of_actions_from(v: Seq<ActionView>, i: int) -> Seq<AtomicConditionView>
    decreases v.len() - i,
{
    if i < 0 || i >= v.len() {
        Seq::empty()
    } else {
        acs_of_action(v[i]) + acs_of_actions_from(v, i + 1)
    }
}

proof fn lemma_acs_actions_from(v: Seq<ActionView>, i: int)
    requires
        0 <= i <= v.len(),
    ensures
        acs_of_actions(v.subrange(0, i)) + acs_of_actions_from(v, i) == acs_of_actions(v),
    decreases v.len() - i,
{
    if i == v.len() {
        assert(v.subrange(0, i) =~= v);
        assert(acs_of_actions(v) + Seq::<AtomicConditionView>::empty() =~= acs_of_actions(v));
    } else {
        lemma_acs_actions_from(v, i + 1);
        assert(v.subrange(0, i + 1).drop_last() =~= v.subrange(0, i));
        assert(v.subrange(0, i + 1).last() == v[i]);
        assert(acs_of_actions(v.subrange(0, i + 1)) == acs_of_actions(v.subrange(0, i))
            + acs_of_action(v[i]));
        assert((acs_of_actions(v.subrange(0, i)) + acs_of_action(v[i])) + acs_of_actions_from(
            v,
            i + 1,
        ) =~= acs_of_actions(v.subrange(0, i)) + (acs_of_action(v[i]) + acs_of_actions_from(
            v,
            i + 1,
        )));
    }
}

proof fn lemma_acs_actions_from_all(v: Seq<ActionView>)
    ensures
        acs_of_actions_from(v, 0) == acs_of_actions(v),
{
    lemma_acs_actions_from(v, 0);
    assert(v.subrange(0, 0) =~= Seq::<ActionView>::empty());
    assert(Seq::<AtomicConditionView>::empty() + acs_of_actions_from(v, 0) =~= acs_of_actions_from(
        v,
        0,
    ));
}

fn collect_actions(v: &Vec<Action>, i: usize, out: &mut Vec<AtomicCondition>)
    requires
        i <= v@.len(),
    ensures
        acs_vec_view(final(out)@) == acs_vec_view(old(out)@) + acs_of_actions_from(
            crate::ast::actions_view(v@),
            i as int,
        ),
    decreases *v, 2int, v@.len() - i,
{
    proof {
        lemma_actions_view_len(v@);
    }
    if i == v.len() {
        proof {
            assert(acs_vec_view(out@) + acs_of_actions_from(
                crate::ast::actions_view(v@),
                i as int,
            ) =~= acs_vec_view(out@));
        }
    } else {
        let ghost pre = acs_vec_view(out@);
        proof {
            lemma_actions_view_index(v@, i as int);
        }
        collect_action(&v[i], out);
        collect_actions(v, i + 1, out);
        proof {
            assert((pre + acs_of_action(action_view(v@[i as int]))) + acs_of_actions_from(
                crate::ast::actions_view(v@),
                i as int + 1,
            ) =~= pre + acs_of_actions_from(crate::ast::actions_view(v@), i as int));
        }
    }
}

} // verus!
