//! Rendering of syntax trees back to source text.  The output of every
//! `to_text` method is pinned to a spec-level printing function, and the
//! text parses back to the tree it came from (exercised by the
//! round-trip tests).

use vstd::prelude::*;

use crate::ast::{
    Action, ActionList, ActionListView, ActionView, AtomicCondition, AtomicConditionView,
    CaseRuleView, Compound, CompoundView, Condition, ConditionView, DeclarativeRule,
    DeclarativeRuleView, FactRuleView, PrimitiveCondition, PrimitiveConditionView, PrimitiveEvent,
    PrimitiveEventView, ReactiveRule, ReactiveRuleView, Rule, RuleView, actions_view, conds_view,
    lemma_actions_view_index, lemma_actions_view_len, lemma_conds_view_index, lemma_conds_view_len,
    lemma_rules_view_index, lemma_rules_view_len, rules_view,
};

verus! {

// ---------------------------------------------------------------------
// Spec-level printing.
// ---------------------------------------------------------------------

pub open spec fn print_prim_cond(p: PrimitiveConditionView) -> Seq<char> {
    match p {
        PrimitiveConditionView::Var(s) => s,
    }
}

pub open spec fn print_atomic(a: AtomicConditionView) -> Seq<char>
    decreases a, 1int,
{
    match a {
        AtomicConditionView::Primitive(p) => print_prim_cond(p),
        AtomicConditionView::Compound(c) => print_compound(c),
        AtomicConditionView::SubCompound { namespace, condition } => (
            namespace + "."@ + print_atomic(*condition)
        ),
    }
}

pub open spec fn print_compound(c: CompoundView) -> Seq<char>
    decreases c, 1int,
{
    let body = "{ "@ + join_rules(c.rules) + " }"@;
    match c.alias {
        Some(a) => body + " as "@ + a,
        None => body,
    }
}

/// Rules inside a compound are separated by single spaces.
pub open spec fn join_rules(rs: Seq<RuleView>) -> Seq<char>
    decreases rs, 2int,
{
    if rs.len() == 0 {
        Seq::empty()
    } else if rs.len() == 1 {
        print_rule(rs.first())
    } else {
        print_rule(rs.first()) + " "@ + join_rules(rs.drop_first())
    }
}

pub open spec fn print_cond(c: ConditionView) -> Seq<char>
    decreases c, 1int,
{
    match c {
        ConditionView::Atomic(a) => print_atomic(a),
        ConditionView::Not(inner) => "not "@ + print_cond(*inner),
        ConditionView::Conjunction(cs) => join_conds(cs, " and "@),
        ConditionView::Disjunction(cs) => join_conds(cs, " or "@),
        ConditionView::Parentheses(inner) => "("@ + print_cond(*inner) + ")"@,
    }
}

pub open spec fn join_conds(cs: Seq<ConditionView>, sep: Seq<char>) -> Seq<char>
    decreases cs, 2int,
{
    if cs.len() == 0 {
        Seq::empty()
    } else if cs.len() == 1 {
        print_cond(cs.first())
    } else {
        print_cond(cs.first()) + sep + join_conds(cs.drop_first(), sep)
    }
}

pub open spec fn print_prim_event(e: PrimitiveEventView) -> Seq<char>
    decreases e, 1int,
{
    match e {
        PrimitiveEventView::Trigger(id) => "#"@ + id,
        PrimitiveEventView::Production(a) => "+"@ + print_atomic(a),
        PrimitiveEventView::Consumption(a) => "-"@ + print_atomic(a),
    }
}

pub open spec fn print_action(a: ActionView) -> Seq<char>
    decreases a, 1int,
{
    match a {
        ActionView::Primitive(e) => print_prim_event(e),
        ActionView::List(l) => print_action_list(l),
    }
}

pub open spec fn print_action_list(l: ActionListView) -> Seq<char>
    decreases l, 1int,
{
    match l {
        ActionListView::Sequence(v) => join_actions(v, "; "@),
        ActionListView::Parallel(v) => join_actions(v, ", "@),
        ActionListView::Alternative(v) => join_actions(v, " alt "@),
    }
}

pub open spec fn join_actions(actions: Seq<ActionView>, sep: Seq<char>) -> Seq<char>
    decreases actions, 2int,
{
    if actions.len() == 0 {
        Seq::empty()
    } else if actions.len() == 1 {
        print_action(actions.first())
    } else {
        print_action(actions.first()) + sep + join_actions(actions.drop_first(), sep)
    }
}

pub open spec fn print_reactive(r: ReactiveRuleView) -> Seq<char>
    decreases r, 1int,
{
    match r {
        ReactiveRuleView::ECA { event, condition, action } => match condition {
            Some(c) => (
                print_prim_event(event) + ": "@ + print_cond(c) + " => "@ + print_action(action)
                    + "."@
            ),
            None => print_prim_event(event) + " => "@ + print_action(action) + "."@,
        },
        ReactiveRuleView::CA { condition, action } => (
            ":"@ + print_cond(condition) + " => "@ + print_action(action) + "."@
        ),
    }
}

pub open spec fn print_declarative(d: DeclarativeRuleView) -> Seq<char>
    decreases d, 1int,
{
    match d {
        DeclarativeRuleView::CC { premise, condition } => match premise {
            Some(p) => print_cond(p) + " -> "@ + print_atomic(condition) + "."@,
            None => "-> "@ + print_atomic(condition) + "."@,
        },
        DeclarativeRuleView::CT { premise, condition } => match premise {
            Some(p) => print_cond(p) + " -o "@ + print_cond(condition) + "."@,
            None => "-o "@ + print_cond(condition) + "."@,
        },
    }
}

pub open spec fn print_rule(r: RuleView) -> Seq<char>
    decreases r, 1int,
{
    match r {
        RuleView::Reactive(rr) => print_reactive(rr),
        RuleView::Declarative(d) => print_declarative(d),
        RuleView::Case(c) => "=> "@ + print_action(c.action) + "."@,
        RuleView::Fact(f) => print_atomic(f.condition) + "."@,
    }
}

// ---------------------------------------------------------------------
// Executable printing.
// ---------------------------------------------------------------------

impl PrimitiveCondition {
    pub fn to_text(&self) -> (r: String)
        ensures
            r@ == print_prim_cond(self@),
    {
        match self {
            PrimitiveCondition::Var(s) => s.clone(),
        }
    }
}

impl AtomicCondition {
    pub fn to_text(&self) -> (r: String)
        ensures
            r@ == print_atomic(self@),
        decreases *self, 1int, 0int,
    {
        match self {
            AtomicCondition::Primitive(p) => p.to_text(),
            AtomicCondition::Compound(c) => c.to_text(),
            AtomicCondition::SubCompound { namespace, condition } => {
                let mut out = namespace.clone();
                out.append(".");
                out.append(condition.to_text().as_str());
                out
            },
        }
    }
}

impl Compound {
    pub fn to_text(&self) -> (r: String)
        ensures
            r@ == print_compound(self@),
        decreases *self, 1int, 0int,
    {
        let mut out = String::from_str("{ ");
        out.append(join_rules_text(&self.rules, 0).as_str());
        out.append(" }");
        match &self.alias {
            Some(a) => {
                out.append(" as ");
                out.append(a.as_str());
            },
            None => {},
        }
        proof {
            assert(rules_view(self.rules@).subrange(0, rules_view(self.rules@).len() as int)
                =~= rules_view(self.rules@));
        }
        out
    }
}

/// The space-joined rendering of `rules_view(v@)` from index `i` on.
fn join_rules_text(v: &Vec<Rule>, i: usize) -> (r: String)
    requires
        i <= v@.len(),
    ensures
        r@ == join_rules(rules_view(v@).subrange(i as int, rules_view(v@).len() as int)),
    decreases *v, 2int, v@.len() - i,
{
    proof {
        lemma_rules_view_len(v@);
    }
    let ghost whole = rules_view(v@);
    let ghost tail = whole.subrange(i as int, whole.len() as int);
    if i == v.len() {
        String::new()
    } else if i + 1 == v.len() {
        proof {
            lemma_rules_view_index(v@, i as int);
            assert(tail.first() == whole[i as int]);
        }
        v[i].to_text()
    } else {
        proof {
            lemma_rules_view_index(v@, i as int);
            assert(tail.first() == whole[i as int]);
            assert(tail.drop_first() =~= whole.subrange(i + 1, whole.len() as int));
        }
        let mut out = v[i].to_text();
        out.append(" ");
        out.append(join_rules_text(v, i + 1).as_str());
        out
    }
}

impl Condition {
    pub fn to_text(&self) -> (r: String)
        ensures
            r@ == print_cond(self@),
        decreases *self, 1int, 0int,
    {
        match self {
            Condition::Atomic(a) => a.to_text(),
            Condition::Not(inner) => {
                let mut out = String::from_str("not ");
                out.append(inner.to_text().as_str());
                out
            },
            Condition::Conjunction(cs) => {
                proof {
                    assert(conds_view(cs@).subrange(0, conds_view(cs@).len() as int)
                        =~= conds_view(cs@));
                }
                join_conds_text(cs, 0, " and ")
            },
            Condition::Disjunction(cs) => {
                proof {
                    assert(conds_view(cs@).subrange(0, conds_view(cs@).len() as int)
                        =~= conds_view(cs@));
                }
                join_conds_text(cs, 0, " or ")
            },
            Condition::Parentheses(inner) => {
                let mut out = String::from_str("(");
                out.append(inner.to_text().as_str());
                out.append(")");
                out
            },
        }
    }
}

/// The `sep`-joined rendering of `conds_view(v@)` from index `i` on.
fn join_conds_text(v: &Vec<Condition>, i: usize, sep: &str) -> (r: String)
    requires
        i <= v@.len(),
    ensures
        r@ == join_conds(conds_view(v@).subrange(i as int, conds_view(v@).len() as int), sep@),
    decreases *v, 2int, v@.len() - i,
{
    proof {
        lemma_conds_view_len(v@);
    }
    let ghost whole = conds_view(v@);
    let ghost tail = whole.subrange(i as int, whole.len() as int);
    if i == v.len() {
        String::new()
    } else if i + 1 == v.len() {
        proof {
            lemma_conds_view_index(v@, i as int);
            assert(tail.first() == whole[i as int]);
        }
        v[i].to_text()
    } else {
        proof {
            lemma_conds_view_index(v@, i as int);
            assert(tail.first() == whole[i as int]);
            assert(tail.drop_first() =~= whole.subrange(i + 1, whole.len() as int));
        }
        let mut out = v[i].to_text();
        out.append(sep);
        out.append(join_conds_text(v, i + 1, sep).as_str());
        out
    }
}

impl PrimitiveEvent {
    pub fn to_text(&self) -> (r: String)
        ensures
            r@ == print_prim_event(self@),
        decreases *self, 1int, 0int,
    {
        match self {
            PrimitiveEvent::Trigger(id) => {
                let mut out = String::from_str("#");
                out.append(id.as_str());
                out
            },
            PrimitiveEvent::Production(a) => {
                let mut out = String::from_str("+");
                out.append(a.to_text().as_str());
                out
            },
            PrimitiveEvent::Consumption(a) => {
                let mut out = String::from_str("-");
                out.append(a.to_text().as_str());
                out
            },
        }
    }
}

impl Action {
    pub fn to_text(&self) -> (r: String)
        ensures
            r@ == print_action(self@),
        decreases *self, 1int, 0int,
    {
        match self {
            Action::Primitive(e) => e.to_text(),
            Action::List(l) => l.to_text(),
        }
    }
}

impl ActionList {
    pub fn to_text(&self) -> (r: String)
        ensures
            r@ == print_action_list(self@),
        decreases *self, 1int, 0int,
    {
        match self {
            ActionList::Sequence(v) => {
                proof {
                    assert(actions_view(v@).subrange(0, actions_view(v@).len() as int)
                        =~= actions_view(v@));
                }
                join_actions_text(v, 0, "; ")
            },
            ActionList::Parallel(v) => {
                proof {
                    assert(actions_view(v@).subrange(0, actions_view(v@).len() as int)
                        =~= actions_view(v@));
                }
                join_actions_text(v, 0, ", ")
            },
            ActionList::Alternative(v) => {
                proof {
                    assert(actions_view(v@).subrange(0, actions_view(v@).len() as int)
                        =~= actions_view(v@));
                }
                join_actions_text(v, 0, " alt ")
            },
        }
    }
}

/// The `sep`-joined rendering of `actions_view(v@)` from index `i` on.
fn join_actions_text(v: &Vec<Action>, i: usize, sep: &str) -> (r: String)
    requires
        i <= v@.len(),
    ensures
        r@ == join_actions(
            actions_view(v@).subrange(i as int, actions_view(v@).len() as int),
            sep@,
        ),
    decreases *v, 2int, v@.len() - i,
{
    proof {
        lemma_actions_view_len(v@);
    }
    let ghost whole = actions_view(v@);
    let ghost tail = whole.subrange(i as int, whole.len() as int);
    if i == v.len() {
        String::new()
    } else if i + 1 == v.len() {
        proof {
            lemma_actions_view_index(v@, i as int);
            assert(tail.first() == whole[i as int]);
        }
        v[i].to_text()
    } else {
        proof {
            lemma_actions_view_index(v@, i as int);
            assert(tail.first() == whole[i as int]);
            assert(tail.drop_first() =~= whole.subrange(i + 1, whole.len() as int));
        }
        let mut out = v[i].to_text();
        out.append(sep);
        out.append(join_actions_text(v, i + 1, sep).as_str());
        out
    }
}

impl ReactiveRule {
    pub fn to_text(&self) -> (r: String)
        ensures
            r@ == print_reactive(self@),
        decreases *self, 1int, 0int,
    {
        match self {
            ReactiveRule::ECA { event, condition, action } => {
                let mut out = event.to_text();
                match condition {
                    Some(c) => {
                        out.append(": ");
                        out.append(c.to_text().as_str());
                    },
                    None => {},
                }
                out.append(" => ");
                out.append(action.to_text().as_str());
                out.append(".");
                out
            },
            ReactiveRule::CA { condition, action } => {
                let mut out = String::from_str(":");
                out.append(condition.to_text().as_str());
                out.append(" => ");
                out.append(action.to_text().as_str());
                out.append(".");
                out
            },
        }
    }
}

impl DeclarativeRule {
    pub fn to_text(&self) -> (r: String)
        ensures
            r@ == print_declarative(self@),
        decreases *self, 1int, 0int,
    {
        match self {
            DeclarativeRule::CC { premise, condition } => {
                let mut out = String::new();
                match premise {
                    Some(p) => {
                        out = p.to_text();
                        out.append(" -> ");
                    },
                    None => {
                        out.append("-> ");
                    },
                }
                out.append(condition.to_text().as_str());
                out.append(".");
                out
            },
            DeclarativeRule::CT { premise, condition } => {
                let mut out = String::new();
                match premise {
                    Some(p) => {
                        out = p.to_text();
                        out.append(" -o ");
                    },
                    None => {
                        out.append("-o ");
                    },
                }
                out.append(condition.to_text().as_str());
                out.append(".");
                out
            },
        }
    }
}

impl Rule {
    pub fn to_text(&self) -> (r: String)
        ensures
            r@ == print_rule(self@),
        decreases *self, 1int, 0int,
    {
        match self {
            Rule::Reactive(rr) => rr.to_text(),
            Rule::Declarative(d) => d.to_text(),
            Rule::Case(c) => {
                let mut out = String::from_str("=> ");
                out.append(c.action.to_text().as_str());
                out.append(".");
                out
            },
            Rule::Fact(f) => {
                let mut out = f.condition.to_text();
                out.append(".");
                out
            },
        }
    }
}

// ---------------------------------------------------------------------
// Identifiers.  The identifier of an event is the event name for a
// trigger and the printed atomic condition for a production or a
// consumption; a CA rule's identifier is the empty string.
// ---------------------------------------------------------------------

pub open spec fn prim_event_identifier(e: PrimitiveEventView) -> Seq<char> {
    match e {
        PrimitiveEventView::Trigger(id) => id,
        PrimitiveEventView::Production(a) => print_atomic(a),
        PrimitiveEventView::Consumption(a) => print_atomic(a),
    }
}

pub open spec fn reactive_identifier(r: ReactiveRuleView) -> Seq<char> {
    match r {
        ReactiveRuleView::ECA { event, .. } => prim_event_identifier(event),
        ReactiveRuleView::CA { .. } => Seq::empty(),
    }
}

pub open spec fn declarative_identifier(d: DeclarativeRuleView) -> Seq<char> {
    match d {
        DeclarativeRuleView::CC { premise, .. } => match premise {
            Some(c) => print_cond(c),
            None => Seq::empty(),
        },
        DeclarativeRuleView::CT { premise, .. } => match premise {
            Some(c) => print_cond(c),
            None => Seq::empty(),
        },
    }
}

pub open spec fn rule_identifier(r: RuleView) -> Option<Seq<char>> {
    match r {
        RuleView::Reactive(rr) => Some(reactive_identifier(rr)),
        RuleView::Declarative(d) => Some(declarative_identifier(d)),
        RuleView::Case(_) => None,
        RuleView::Fact(_) => None,
    }
}

impl PrimitiveEvent {
    /// The identifier of what triggers the event.
    pub fn get_identifier(&self) -> (r: String)
        ensures
            r@ == prim_event_identifier(self@),
    {
        match self {
            PrimitiveEvent::Trigger(id) => id.clone(),
            PrimitiveEvent::Production(cond) => cond.to_text(),
            PrimitiveEvent::Consumption(cond) => cond.to_text(),
        }
    }
}

impl ReactiveRule {
    /// The identifier of the event this rule reacts to; the empty string
    /// for a CA rule.
    pub fn get_identifier(&self) -> (r: String)
        ensures
            r@ == reactive_identifier(self@),
    {
        match self {
            ReactiveRule::ECA { event, .. } => event.get_identifier(),
            ReactiveRule::CA { .. } => String::new(),
        }
    }
}

impl DeclarativeRule {
    /// The printed premise; the empty string when there is none.
    pub fn get_identifier(&self) -> (r: String)
        ensures
            r@ == declarative_identifier(self@),
    {
        match self {
            DeclarativeRule::CC { premise, .. } => match premise {
                Some(c) => c.to_text(),
                None => String::new(),
            },
            DeclarativeRule::CT { premise, .. } => match premise {
                Some(c) => c.to_text(),
                None => String::new(),
            },
        }
    }
}

impl Rule {
    /// The identifier of a reactive or declarative rule; `None` for case
    /// and fact rules.
    pub fn get_identifier(&self) -> (r: Option<String>)
        ensures
            match (r, rule_identifier(self@)) {
                (Some(s), Some(v)) => s@ == v,
                (None, None) => true,
                _ => false,
            },
    {
        match self {
            Rule::Reactive(rr) => Some(rr.get_identifier()),
            Rule::Declarative(d) => Some(d.get_identifier()),
            Rule::Case(_) => None,
            Rule::Fact(_) => None,
        }
    }
}

} // verus!
