//! Abstract syntax of the rule language: conditions, actions, events,
//! rules, compounds and directives, together with their mathematical
//! models (the `...View` types) used in specifications.

use vstd::prelude::*;

verus! {

// ---------------------------------------------------------------------
// Mathematical models.
//
// Each executable syntax type below has a view: identifiers become
// `Seq<char>`, vectors become `Seq`, and boxes disappear.  Contracts are
// stated over these models.
// ---------------------------------------------------------------------

pub enum PrimitiveConditionView {
    Var(Seq<char>),
}

pub enum AtomicConditionView {
    Primitive(PrimitiveConditionView),
    Compound(CompoundView),
    SubCompound { namespace: Seq<char>, condition: Box<AtomicConditionView> },
}

pub struct CompoundView {
    pub rules: Seq<RuleView>,
    pub alias: Option<Seq<char>>,
}

pub enum ConditionView {
    Atomic(AtomicConditionView),
    Not(Box<ConditionView>),
    Conjunction(Seq<ConditionView>),
    Disjunction(Seq<ConditionView>),
    Parentheses(Box<ConditionView>),
}

pub enum ActionListView {
    Sequence(Seq<ActionView>),
    Parallel(Seq<ActionView>),
    Alternative(Seq<ActionView>),
}

pub enum PrimitiveEventView {
    Trigger(Seq<char>),
    Production(AtomicConditionView),
    Consumption(AtomicConditionView),
}

pub enum ActionView {
    Primitive(PrimitiveEventView),
    List(ActionListView),
}

#[allow(inconsistent_fields)]
pub enum ReactiveRuleView {
    ECA { event: PrimitiveEventView, condition: Option<ConditionView>, action: ActionView },
    CA { condition: ConditionView, action: ActionView },
}

#[allow(inconsistent_fields)]
pub enum DeclarativeRuleView {
    CC { premise: Option<ConditionView>, condition: AtomicConditionView },
    CT { premise: Option<ConditionView>, condition: ConditionView },
}

pub struct CaseRuleView {
    pub action: ActionView,
}

pub struct FactRuleView {
    pub condition: AtomicConditionView,
}

pub enum RuleView {
    Reactive(ReactiveRuleView),
    Declarative(DeclarativeRuleView),
    Case(CaseRuleView),
    Fact(FactRuleView),
}

pub enum DirectiveView {
    Scale { number: u8, policy: CompoundView },
    Include(Seq<char>),
    Exclude(Seq<char>),
    Interleaving,
    ExternalVar(Seq<char>),
    ExternalEvent(PrimitiveEventView),
}

// ---------------------------------------------------------------------
// Executable syntax.
// ---------------------------------------------------------------------

/// A primitive condition: a named boolean variable.
#[derive(Debug, PartialEq, Eq)]
pub enum PrimitiveCondition {
    Var(String),
}

/// An atomic condition: a primitive variable, a brace-delimited bundle of
/// rules with an optional alias, or a namespace-qualified atomic condition.
#[derive(Debug, PartialEq, Eq)]
pub enum AtomicCondition {
    Primitive(PrimitiveCondition),
    Compound(Compound),
    SubCompound {
        /// The namespace segment qualifying the inner condition.
        namespace: String,
        condition: Box<AtomicCondition>,
    },
}

/// A bundle of rules with an optional local alias name.
#[derive(Debug, PartialEq, Eq)]
pub struct Compound {
    pub rules: Vec<Rule>,
    pub alias: Option<String>,
}

/// A boolean condition tree over atomic conditions.
#[derive(Debug, PartialEq, Eq)]
pub enum Condition {
    Atomic(AtomicCondition),
    Not(Box<Condition>),
    Conjunction(Vec<Condition>),
    Disjunction(Vec<Condition>),
    Parentheses(Box<Condition>),
}

/// An ordered list of actions run under one of the three combinators.
#[derive(Debug, PartialEq, Eq)]
pub enum ActionList {
    Sequence(Vec<Action>),
    Parallel(Vec<Action>),
    Alternative(Vec<Action>),
}

/// A primitive event: fire a trigger, assert an atomic condition true
/// (production), or assert it false (consumption).
#[derive(Debug, PartialEq, Eq)]
pub enum PrimitiveEvent {
    Trigger(String),
    Production(AtomicCondition),
    Consumption(AtomicCondition),
}

/// An action: a primitive event or a combinator over sub-actions.
#[derive(Debug, PartialEq, Eq)]
pub enum Action {
    Primitive(PrimitiveEvent),
    List(ActionList),
}

/// A reactive rule: event-condition-action, or condition-action.
#[derive(Debug, PartialEq, Eq)]
#[allow(inconsistent_fields)]
pub enum ReactiveRule {
    ECA { event: PrimitiveEvent, condition: Option<Condition>, action: Action },
    CA { condition: Condition, action: Action },
}

/// A declarative rule; parsed and carried through, not yet interpreted.
#[derive(Debug, PartialEq, Eq)]
#[allow(inconsistent_fields)]
pub enum DeclarativeRule {
    CC { premise: Option<Condition>, condition: AtomicCondition },
    CT { premise: Option<Condition>, condition: Condition },
}

/// A rule that executes its action once, when encountered.
#[derive(Debug, PartialEq, Eq)]
pub struct CaseRule {
    pub action: Action,
}

/// A rule asserting an atomic condition.
#[derive(Debug, PartialEq, Eq)]
pub struct FactRule {
    pub condition: AtomicCondition,
}

/// A rule of any of the four kinds.
#[derive(Debug, PartialEq, Eq)]
pub enum Rule {
    Reactive(ReactiveRule),
    Declarative(DeclarativeRule),
    Case(CaseRule),
    Fact(FactRule),
}

/// A source-level directive.
#[derive(Debug, PartialEq, Eq)]
pub enum Directive {
    Scale { number: u8, policy: Compound },
    Include(String),
    Exclude(String),
    Interleaving,
    ExternalVar(String),
    ExternalEvent(PrimitiveEvent),
}

// ---------------------------------------------------------------------
// Views.
// ---------------------------------------------------------------------

pub open spec fn prim_cond_view(p: PrimitiveCondition) -> PrimitiveConditionView {
    match p {
        PrimitiveCondition::Var(s) => PrimitiveConditionView::Var(s@),
    }
}

pub open spec fn atomic_view(a: AtomicCondition) -> AtomicConditionView
    decreases a,
{
    match a {
        AtomicCondition::Primitive(p) => AtomicConditionView::Primitive(prim_cond_view(p)),
        AtomicCondition::Compound(c) => AtomicConditionView::Compound(compound_view(c)),
        AtomicCondition::SubCompound { namespace, condition } => (
            AtomicConditionView::SubCompound {
                namespace: namespace@,
                condition: Box::new(atomic_view(*condition)),
            }
        ),
    }
}

pub open spec fn compound_view(c: Compound) -> CompoundView
    decreases c,
{
    CompoundView { rules: rules_view(c.rules@), alias: opt_string_view(c.alias) }
}

pub open spec fn opt_string_view(o: Option<String>) -> Option<Seq<char>> {
    match o {
        Some(s) => Some(s@),
        None => None,
    }
}

pub open spec fn rules_view(s: Seq<Rule>) -> Seq<RuleView>
    decreases s,
{
    if s.len() == 0 {
        Seq::empty()
    } else {
        rules_view(s.drop_last()).push(rule_view(s.last()))
    }
}

pub open spec fn cond_view(c: Condition) -> ConditionView
    decreases c,
{
    match c {
        Condition::Atomic(a) => ConditionView::Atomic(atomic_view(a)),
        Condition::Not(inner) => ConditionView::Not(Box::new(cond_view(*inner))),
        Condition::Conjunction(cs) => ConditionView::Conjunction(conds_view(cs@)),
        Condition::Disjunction(cs) => ConditionView::Disjunction(conds_view(cs@)),
        Condition::Parentheses(inner) => ConditionView::Parentheses(Box::new(cond_view(*inner))),
    }
}

pub open spec fn conds_view(s: Seq<Condition>) -> Seq<ConditionView>
    decreases s,
{
    if s.len() == 0 {
        Seq::empty()
    } else {
        conds_view(s.drop_last()).push(cond_view(s.last()))
    }
}

pub open spec fn opt_cond_view(o: Option<Condition>) -> Option<ConditionView>
    decreases o,
{
    match o {
        Some(c) => Some(cond_view(c)),
        None => None,
    }
}

pub open spec fn action_list_view(l: ActionList) -> ActionListView
    decreases l,
{
    match l {
        ActionList::Sequence(v) => ActionListView::Sequence(actions_view(v@)),
        ActionList::Parallel(v) => ActionListView::Parallel(actions_view(v@)),
        ActionList::Alternative(v) => ActionListView::Alternative(actions_view(v@)),
    }
}

pub open spec fn actions_view(s: Seq<Action>) -> Seq<ActionView>
    decreases s,
{
    if s.len() == 0 {
        Seq::empty()
    } else {
        actions_view(s.drop_last()).push(action_view(s.last()))
    }
}

pub open spec fn prim_event_view(e: PrimitiveEvent) -> PrimitiveEventView
    decreases e,
{
    match e {
        PrimitiveEvent::Trigger(id) => PrimitiveEventView::Trigger(id@),
        PrimitiveEvent::Production(a) => PrimitiveEventView::Production(atomic_view(a)),
        PrimitiveEvent::Consumption(a) => PrimitiveEventView::Consumption(atomic_view(a)),
    }
}

pub open spec fn action_view(a: Action) -> ActionView
    decreases a,
{
    match a {
        Action::Primitive(e) => ActionView::Primitive(prim_event_view(e)),
        Action::List(l) => ActionView::List(action_list_view(l)),
    }
}

pub open spec fn reactive_view(r: ReactiveRule) -> ReactiveRuleView
    decreases r,
{
    match r {
        ReactiveRule::ECA { event, condition, action } => (
            ReactiveRuleView::ECA {
                event: prim_event_view(event),
                condition: opt_cond_view(condition),
                action: action_view(action),
            }
        ),
        ReactiveRule::CA { condition, action } => (
            ReactiveRuleView::CA { condition: cond_view(condition), action: action_view(action) }
        ),
    }
}

pub open spec fn declarative_view(d: DeclarativeRule) -> DeclarativeRuleView
    decreases d,
{
    match d {
        DeclarativeRule::CC { premise, condition } => (
            DeclarativeRuleView::CC {
                premise: opt_cond_view(premise),
                condition: atomic_view(condition),
            }
        ),
        DeclarativeRule::CT { premise, condition } => (
            DeclarativeRuleView::CT {
                premise: opt_cond_view(premise),
                condition: cond_view(condition),
            }
        ),
    }
}

pub open spec fn rule_view(r: Rule) -> RuleView
    decreases r,
{
    match r {
        Rule::Reactive(rr) => RuleView::Reactive(reactive_view(rr)),
        Rule::Declarative(d) => RuleView::Declarative(declarative_view(d)),
        Rule::Case(c) => RuleView::Case(CaseRuleView { action: action_view(c.action) }),
        Rule::Fact(f) => RuleView::Fact(FactRuleView { condition: atomic_view(f.condition) }),
    }
}

pub open spec fn directive_view(d: Directive) -> DirectiveView
    decreases d,
{
    match d {
        Directive::Scale { number, policy } => (
            DirectiveView::Scale { number: number, policy: compound_view(policy) }
        ),
        Directive::Include(s) => DirectiveView::Include(s@),
        Directive::Exclude(s) => DirectiveView::Exclude(s@),
        Directive::Interleaving => DirectiveView::Interleaving,
        Directive::ExternalVar(s) => DirectiveView::ExternalVar(s@),
        Directive::ExternalEvent(e) => DirectiveView::ExternalEvent(prim_event_view(e)),
    }
}

impl View for PrimitiveCondition {
    type V = PrimitiveConditionView;

    open spec fn view(&self) -> PrimitiveConditionView {
        prim_cond_view(*self)
    }
}

impl View for AtomicCondition {
    type V = AtomicConditionView;

    open spec fn view(&self) -> AtomicConditionView {
        atomic_view(*self)
    }
}

impl View for Compound {
    type V = CompoundView;

    open spec fn view(&self) -> CompoundView {
        compound_view(*self)
    }
}

impl View for Condition {
    type V = ConditionView;

    open spec fn view(&self) -> ConditionView {
        cond_view(*self)
    }
}

impl View for ActionList {
    type V = ActionListView;

    open spec fn view(&self) -> ActionListView {
        action_list_view(*self)
    }
}

impl View for PrimitiveEvent {
    type V = PrimitiveEventView;

    open spec fn view(&self) -> PrimitiveEventView {
        prim_event_view(*self)
    }
}

impl View for Action {
    type V = ActionView;

    open spec fn view(&self) -> ActionView {
        action_view(*self)
    }
}

impl View for ReactiveRule {
    type V = ReactiveRuleView;

    open spec fn view(&self) -> ReactiveRuleView {
        reactive_view(*self)
    }
}

impl View for DeclarativeRule {
    type V = DeclarativeRuleView;

    open spec fn view(&self) -> DeclarativeRuleView {
        declarative_view(*self)
    }
}

impl View for CaseRule {
    type V = CaseRuleView;

    open spec fn view(&self) -> CaseRuleView {
        CaseRuleView { action: action_view(self.action) }
    }
}

impl View for FactRule {
    type V = FactRuleView;

    open spec fn view(&self) -> FactRuleView {
        FactRuleView { condition: atomic_view(self.condition) }
    }
}

impl View for Rule {
    type V = RuleView;

    open spec fn view(&self) -> RuleView {
        rule_view(*self)
    }
}

impl View for Directive {
    type V = DirectiveView;

    open spec fn view(&self) -> DirectiveView {
        directive_view(*self)
    }
}

// ---------------------------------------------------------------------
// Facts about sequence views.
// ---------------------------------------------------------------------

// ---------------------------------------------------------------------
// Cloning.  Every clone has the same view as the original.
// ---------------------------------------------------------------------

impl Clone for PrimitiveCondition {
    fn clone(&self) -> (res: Self)
        ensures
            res@ == self@,
    {
        match self {
            PrimitiveCondition::Var(s) => PrimitiveCondition::Var(s.clone()),
        }
    }
}

impl Clone for AtomicCondition {
    fn clone(&self) -> (res: Self)
        ensures
            res@ == self@,
        decreases *self,
    {
        match self {
            AtomicCondition::Primitive(p) => AtomicCondition::Primitive(p.clone()),
            AtomicCondition::Compound(c) => AtomicCondition::Compound(c.clone()),
            AtomicCondition::SubCompound { namespace, condition } => (
                AtomicCondition::SubCompound {
                    namespace: namespace.clone(),
                    condition: Box::new((**condition).clone()),
                }
            ),
        }
    }
}

impl Clone for Compound {
    fn clone(&self) -> (res: Self)
        ensures
            res@ == self@,
        decreases *self,
    {
        Compound { rules: clone_rules(&self.rules), alias: self.alias.clone() }
    }
}

impl Clone for Condition {
    fn clone(&self) -> (res: Self)
        ensures
            res@ == self@,
        decreases *self,
    {
        match self {
            Condition::Atomic(a) => Condition::Atomic(a.clone()),
            Condition::Not(inner) => Condition::Not(Box::new((**inner).clone())),
            Condition::Conjunction(cs) => Condition::Conjunction(clone_conditions(cs)),
            Condition::Disjunction(cs) => Condition::Disjunction(clone_conditions(cs)),
            Condition::Parentheses(inner) => Condition::Parentheses(Box::new((**inner).clone())),
        }
    }
}

impl Clone for ActionList {
    fn clone(&self) -> (res: Self)
        ensures
            res@ == self@,
        decreases *self,
    {
        match self {
            ActionList::Sequence(v) => ActionList::Sequence(clone_actions(v)),
            ActionList::Parallel(v) => ActionList::Parallel(clone_actions(v)),
            ActionList::Alternative(v) => ActionList::Alternative(clone_actions(v)),
        }
    }
}

impl Clone for PrimitiveEvent {
    fn clone(&self) -> (res: Self)
        ensures
            res@ == self@,
        decreases *self,
    {
        match self {
            PrimitiveEvent::Trigger(id) => PrimitiveEvent::Trigger(id.clone()),
            PrimitiveEvent::Production(a) => PrimitiveEvent::Production(a.clone()),
            PrimitiveEvent::Consumption(a) => PrimitiveEvent::Consumption(a.clone()),
        }
    }
}

impl Clone for Action {
    fn clone(&self) -> (res: Self)
        ensures
            res@ == self@,
        decreases *self,
    {
        match self {
            Action::Primitive(e) => Action::Primitive(e.clone()),
            Action::List(l) => Action::List(l.clone()),
        }
    }
}

impl Clone for ReactiveRule {
    fn clone(&self) -> (res: Self)
        ensures
            res@ == self@,
        decreases *self,
    {
        match self {
            ReactiveRule::ECA { event, condition, action } => {
                let cond = match condition {
                    Some(c) => Some(c.clone()),
                    None => None,
                };
                ReactiveRule::ECA { event: event.clone(), condition: cond, action: action.clone() }
            },
            ReactiveRule::CA { condition, action } => (
                ReactiveRule::CA { condition: condition.clone(), action: action.clone() }
            ),
        }
    }
}

impl Clone for DeclarativeRule {
    fn clone(&self) -> (res: Self)
        ensures
            res@ == self@,
        decreases *self,
    {
        match self {
            DeclarativeRule::CC { premise, condition } => {
                let p = match premise {
                    Some(c) => Some(c.clone()),
                    None => None,
                };
                DeclarativeRule::CC { premise: p, condition: condition.clone() }
            },
            DeclarativeRule::CT { premise, condition } => {
                let p = match premise {
                    Some(c) => Some(c.clone()),
                    None => None,
                };
                DeclarativeRule::CT { premise: p, condition: condition.clone() }
            },
        }
    }
}

impl Clone for CaseRule {
    fn clone(&self) -> (res: Self)
        ensures
            res@ == self@,
        decreases *self,
    {
        CaseRule { action: self.action.clone() }
    }
}

impl Clone for FactRule {
    fn clone(&self) -> (res: Self)
        ensures
            res@ == self@,
        decreases *self,
    {
        FactRule { condition: self.condition.clone() }
    }
}

impl Clone for Rule {
    fn clone(&self) -> (res: Self)
        ensures
            res@ == self@,
        decreases *self,
    {
        match self {
            Rule::Reactive(rr) => Rule::Reactive(rr.clone()),
            Rule::Declarative(d) => Rule::Declarative(d.clone()),
            Rule::Case(c) => Rule::Case(c.clone()),
            Rule::Fact(f) => Rule::Fact(f.clone()),
        }
    }
}

// ---------------------------------------------------------------------
// Element-wise cloning of rule, condition and action vectors.
// ---------------------------------------------------------------------

pub fn clone_rules(v: &Vec<Rule>) -> (res: Vec<Rule>)
    ensures
        res@.len() == v@.len(),
        rules_view(res@) == rules_view(v@),
    decreases *v,
{
    let mut out: Vec<Rule> = Vec::new();
    let mut i: usize = 0;
    while i < v.len()
        invariant
            i <= v@.len(),
            out@.len() == i,
            rules_view(out@) == rules_view(v@.subrange(0, i as int)),
        decreases v@.len() - i,
    {
        let c = v[i].clone();
        proof {
            lemma_rules_view_push(out@, c);
            lemma_rules_view_push(v@.subrange(0, i as int), v@[i as int]);
            assert(v@.subrange(0, i as int).push(v@[i as int])
                =~= v@.subrange(0, i as int + 1));
        }
        out.push(c);
        i = i + 1;
    }
    proof {
        assert(v@.subrange(0, v@.len() as int) =~= v@);
    }
    out
}

pub fn clone_conditions(v: &Vec<Condition>) -> (res: Vec<Condition>)
    ensures
        res@.len() == v@.len(),
        conds_view(res@) == conds_view(v@),
    decreases *v,
{
    let mut out: Vec<Condition> = Vec::new();
    let mut i: usize = 0;
    while i < v.len()
        invariant
            i <= v@.len(),
            out@.len() == i,
            conds_view(out@) == conds_view(v@.subrange(0, i as int)),
        decreases v@.len() - i,
    {
        let c = v[i].clone();
        proof {
            lemma_conds_view_push(out@, c);
            lemma_conds_view_push(v@.subrange(0, i as int), v@[i as int]);
            assert(v@.subrange(0, i as int).push(v@[i as int])
                =~= v@.subrange(0, i as int + 1));
        }
        out.push(c);
        i = i + 1;
    }
    proof {
        assert(v@.subrange(0, v@.len() as int) =~= v@);
    }
    out
}

pub fn clone_actions(v: &Vec<Action>) -> (res: Vec<Action>)
    ensures
        res@.len() == v@.len(),
        actions_view(res@) == actions_view(v@),
    decreases *v,
{
    let mut out: Vec<Action> = Vec::new();
    let mut i: usize = 0;
    while i < v.len()
        invariant
            i <= v@.len(),
            out@.len() == i,
            actions_view(out@) == actions_view(v@.subrange(0, i as int)),
        decreases v@.len() - i,
    {
        let c = v[i].clone();
        proof {
            lemma_actions_view_push(out@, c);
            lemma_actions_view_push(v@.subrange(0, i as int), v@[i as int]);
            assert(v@.subrange(0, i as int).push(v@[i as int])
                =~= v@.subrange(0, i as int + 1));
        }
        out.push(c);
        i = i + 1;
    }
    proof {
        assert(v@.subrange(0, v@.len() as int) =~= v@);
    }
    out
}

// ---------------------------------------------------------------------
// Facts about sequence views under push.
// ---------------------------------------------------------------------

pub proof fn lemma_rules_view_push(s: Seq<Rule>, x: Rule)
    ensures
        rules_view(s.push(x)) == rules_view(s).push(rule_view(x)),
{
    assert(s.push(x).drop_last() =~= s);
    assert(s.push(x).last() == x);
}

pub proof fn lemma_conds_view_push(s: Seq<Condition>, x: Condition)
    ensures
        conds_view(s.push(x)) == conds_view(s).push(cond_view(x)),
{
    assert(s.push(x).drop_last() =~= s);
    assert(s.push(x).last() == x);
}

pub proof fn lemma_actions_view_push(s: Seq<Action>, x: Action)
    ensures
        actions_view(s.push(x)) == actions_view(s).push(action_view(x)),
{
    assert(s.push(x).drop_last() =~= s);
    assert(s.push(x).last() == x);
}


pub proof fn lemma_rules_view_singleton(x: Rule)
    ensures
        rules_view(seq![x]) == seq![rule_view(x)],
{
    let s = seq![x];
    assert(s.len() == 1);
    assert(s.drop_last() =~= Seq::<Rule>::empty());
    assert(rules_view(s.drop_last()) =~= Seq::<RuleView>::empty());
    assert(s.last() == x);
    assert(rules_view(s) =~= seq![rule_view(x)]);
}

pub proof fn lemma_conds_view_singleton(x: Condition)
    ensures
        conds_view(seq![x]) == seq![cond_view(x)],
{
    let s = seq![x];
    assert(s.len() == 1);
    assert(s.drop_last() =~= Seq::<Condition>::empty());
    assert(conds_view(s.drop_last()) =~= Seq::<ConditionView>::empty());
    assert(s.last() == x);
    assert(conds_view(s) =~= seq![cond_view(x)]);
}

pub proof fn lemma_actions_view_singleton(x: Action)
    ensures
        actions_view(seq![x]) == seq![action_view(x)],
{
    let s = seq![x];
    assert(s.len() == 1);
    assert(s.drop_last() =~= Seq::<Action>::empty());
    assert(actions_view(s.drop_last()) =~= Seq::<ActionView>::empty());
    assert(s.last() == x);
    assert(actions_view(s) =~= seq![action_view(x)]);
}

pub proof fn lemma_rules_view_concat(s1: Seq<Rule>, s2: Seq<Rule>)
    ensures
        rules_view(s1 + s2) == rules_view(s1) + rules_view(s2),
    decreases s2,
{
    if s2.len() == 0 {
        assert(s1 + s2 =~= s1);
        lemma_rules_view_len(s1);
        assert(rules_view(s1) + rules_view(s2) =~= rules_view(s1));
    } else {
        lemma_rules_view_concat(s1, s2.drop_last());
        assert((s1 + s2).drop_last() =~= s1 + s2.drop_last());
        assert((s1 + s2).last() == s2.last());
        assert(rules_view(s1) + rules_view(s2) =~= (rules_view(s1) + rules_view(
            s2.drop_last(),
        )).push(rule_view(s2.last())));
    }
}

pub proof fn lemma_conds_view_concat(s1: Seq<Condition>, s2: Seq<Condition>)
    ensures
        conds_view(s1 + s2) == conds_view(s1) + conds_view(s2),
    decreases s2,
{
    if s2.len() == 0 {
        assert(s1 + s2 =~= s1);
        lemma_conds_view_len(s1);
        assert(conds_view(s1) + conds_view(s2) =~= conds_view(s1));
    } else {
        lemma_conds_view_concat(s1, s2.drop_last());
        assert((s1 + s2).drop_last() =~= s1 + s2.drop_last());
        assert((s1 + s2).last() == s2.last());
        assert(conds_view(s1) + conds_view(s2) =~= (conds_view(s1) + conds_view(
            s2.drop_last(),
        )).push(cond_view(s2.last())));
    }
}

pub proof fn lemma_actions_view_concat(s1: Seq<Action>, s2: Seq<Action>)
    ensures
        actions_view(s1 + s2) == actions_view(s1) + actions_view(s2),
    decreases s2,
{
    if s2.len() == 0 {
        assert(s1 + s2 =~= s1);
        lemma_actions_view_len(s1);
        assert(actions_view(s1) + actions_view(s2) =~= actions_view(s1));
    } else {
        lemma_actions_view_concat(s1, s2.drop_last());
        assert((s1 + s2).drop_last() =~= s1 + s2.drop_last());
        assert((s1 + s2).last() == s2.last());
        assert(actions_view(s1) + actions_view(s2) =~= (actions_view(s1) + actions_view(
            s2.drop_last(),
        )).push(action_view(s2.last())));
    }
}

pub proof fn lemma_rules_view_index(s: Seq<Rule>, i: int)
    requires
        0 <= i < s.len(),
    ensures
        rules_view(s).len() == s.len(),
        rules_view(s)[i] == rule_view(s[i]),
    decreases s,
{
    lemma_rules_view_len(s);
    if i < s.len() - 1 {
        lemma_rules_view_index(s.drop_last(), i);
    }
}

pub proof fn lemma_rules_view_len(s: Seq<Rule>)
    ensures
        rules_view(s).len() == s.len(),
    decreases s,
{
    if s.len() > 0 {
        lemma_rules_view_len(s.drop_last());
    }
}

pub proof fn lemma_conds_view_index(s: Seq<Condition>, i: int)
    requires
        0 <= i < s.len(),
    ensures
        conds_view(s).len() == s.len(),
        conds_view(s)[i] == cond_view(s[i]),
    decreases s,
{
    lemma_conds_view_len(s);
    if i < s.len() - 1 {
        lemma_conds_view_index(s.drop_last(), i);
    }
}

pub proof fn lemma_conds_view_len(s: Seq<Condition>)
    ensures
        conds_view(s).len() == s.len(),
    decreases s,
{
    if s.len() > 0 {
        lemma_conds_view_len(s.drop_last());
    }
}

pub proof fn lemma_actions_view_index(s: Seq<Action>, i: int)
    requires
        0 <= i < s.len(),
    ensures
        actions_view(s).len() == s.len(),
        actions_view(s)[i] == action_view(s[i]),
    decreases s,
{
    lemma_actions_view_len(s);
    if i < s.len() - 1 {
        lemma_actions_view_index(s.drop_last(), i);
    }
}

pub proof fn lemma_actions_view_len(s: Seq<Action>)
    ensures
        actions_view(s).len() == s.len(),
    decreases s,
{
    if s.len() > 0 {
        lemma_actions_view_len(s.drop_last());
    }
}

} // verus!
