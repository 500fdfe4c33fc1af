//! Value types of the rule engine: the ternary activation status and
//! rules carried together with their activation arguments.

use vstd::prelude::*;

use crate::ast::{
    DeclarativeRule, DeclarativeRuleView, CaseRule, CaseRuleView, FactRule, FactRuleView,
    ReactiveRule, ReactiveRuleView, Rule, RuleView, action_view, atomic_view, declarative_view,
    reactive_view, rule_view,
};
use crate::errors::EngineError;

verus! {

/// Ternary activation value attached to variables and to a rule's
/// enablement state.  `Conflict` denotes a value that could not be
/// coherently resolved; it is only ever computed or returned, never
/// stored in the variable store.
#[derive(Debug, Clone, Copy, PartialEq, Eq, Structural)]
pub enum ActivationStatus {
    True,
    False,
    Conflict,
}

impl ActivationStatus {
    /// `Some(bool)` for the two concrete values, `None` for `Conflict`.
    pub fn as_option_bool(&self) -> (r: Option<bool>)
        ensures
            r == match *self {
                ActivationStatus::True => Some(true),
                ActivationStatus::False => Some(false),
                ActivationStatus::Conflict => None::<bool>,
            },
    {
        match self {
            ActivationStatus::True => Some(true),
            ActivationStatus::False => Some(false),
            ActivationStatus::Conflict => None,
        }
    }

    /// The boolean value; coercing `Conflict` is an error.
    pub fn to_bool(&self) -> (r: Result<bool, EngineError>)
        ensures
            r == match *self {
                ActivationStatus::True => Ok::<bool, EngineError>(true),
                ActivationStatus::False => Ok::<bool, EngineError>(false),
                ActivationStatus::Conflict => Err::<bool, EngineError>(
                    EngineError::AmbiguousValue,
                ),
            },
    {
        match self {
            ActivationStatus::True => Ok(true),
            ActivationStatus::False => Ok(false),
            ActivationStatus::Conflict => Err(EngineError::AmbiguousValue),
        }
    }
}

// ---------------------------------------------------------------------
// Alias paths.
// ---------------------------------------------------------------------

pub open spec fn strings_view(s: Seq<String>) -> Seq<Seq<char>> {
    Seq::new(s.len(), |i: int| s[i]@)
}

pub open spec fn path_view(o: Option<Vec<String>>) -> Option<Seq<Seq<char>>> {
    match o {
        Some(v) => Some(strings_view(v@)),
        None => None,
    }
}

/// Element-wise clone of a path.
pub fn clone_strings(v: &Vec<String>) -> (res: Vec<String>)
    ensures
        res@.len() == v@.len(),
        strings_view(res@) == strings_view(v@),
{
    let mut out: Vec<String> = Vec::new();
    let mut i: usize = 0;
    while i < v.len()
        invariant
            i <= v@.len(),
            out@.len() == i,
            forall|j: int| 0 <= j < i ==> out@[j]@ == v@[j]@,
        decreases v@.len() - i,
    {
        out.push(v[i].clone());
        i = i + 1;
    }
    proof {
        assert(strings_view(out@) =~= strings_view(v@));
    }
    out
}

pub fn clone_path(o: &Option<Vec<String>>) -> (res: Option<Vec<String>>)
    ensures
        path_view(res) == path_view(*o),
{
    match o {
        Some(v) => Some(clone_strings(v)),
        None => None,
    }
}

/// Whether two paths have the same view.
pub fn eq_path(a: &Option<Vec<String>>, b: &Option<Vec<String>>) -> (r: bool)
    ensures
        r == (path_view(*a) == path_view(*b)),
{
    match (a, b) {
        (None, None) => true,
        (Some(x), Some(y)) => {
            if x.len() != y.len() {
                proof {
                    assert(strings_view(x@).len() != strings_view(y@).len());
                }
                false
            } else {
                let mut i: usize = 0;
                while i < x.len()
                    invariant
                        x@.len() == y@.len(),
                        i <= x@.len(),
                        path_view(*a) == Some(strings_view(x@)),
                        path_view(*b) == Some(strings_view(y@)),
                        forall|j: int| 0 <= j < i ==> x@[j]@ == y@[j]@,
                    decreases x@.len() - i,
                {
                    if !x[i].eq(&y[i]) {
                        proof {
                            assert(strings_view(x@)[i as int] != strings_view(y@)[i as int]);
                        }
                        return false;
                    }
                    i = i + 1;
                }
                proof {
                    assert(strings_view(x@) =~= strings_view(y@));
                }
                true
            }
        },
        _ => false,
    }
}

// ---------------------------------------------------------------------
// Rules with arguments.
// ---------------------------------------------------------------------

/// A non-reactive rule that can be stored as data.
#[derive(Debug, PartialEq, Eq)]
pub enum NonReactiveRule {
    Fact(FactRule),
}

pub struct ReactiveRuleWithArgsView {
    pub rule: ReactiveRuleView,
    pub value: ActivationStatus,
    pub alias: Option<Seq<Seq<char>>>,
}

/// A reactive rule together with its activation value and the alias path
/// of the bundle it came through.
#[derive(Debug, PartialEq, Eq)]
pub struct ReactiveRuleWithArgs {
    pub rule: ReactiveRule,
    pub value: ActivationStatus,
    pub alias: Option<Vec<String>>,
}

impl ReactiveRuleWithArgs {
    pub fn new(rule: ReactiveRule, value: ActivationStatus, alias: Option<Vec<String>>) -> (r:
        ReactiveRuleWithArgs)
        ensures
            r@ == (ReactiveRuleWithArgsView {
                rule: reactive_view(rule),
                value: value,
                alias: path_view(alias),
            }),
    {
        ReactiveRuleWithArgs { rule, value, alias }
    }
}

impl View for ReactiveRuleWithArgs {
    type V = ReactiveRuleWithArgsView;

    open spec fn view(&self) -> ReactiveRuleWithArgsView {
        ReactiveRuleWithArgsView {
            rule: reactive_view(self.rule),
            value: self.value,
            alias: path_view(self.alias),
        }
    }
}

impl Clone for ReactiveRuleWithArgs {
    fn clone(&self) -> (res: Self)
        ensures
            res@ == self@,
    {
        ReactiveRuleWithArgs {
            rule: self.rule.clone(),
            value: self.value,
            alias: clone_path(&self.alias),
        }
    }
}

pub struct FactRuleWithArgsView {
    pub rule: FactRuleView,
    pub value: Option<ActivationStatus>,
}

/// A fact rule together with an optional explicit activation value.
#[derive(Debug, PartialEq, Eq)]
pub struct FactRuleWithArgs {
    pub rule: FactRule,
    pub value: Option<ActivationStatus>,
}

impl FactRuleWithArgs {
    pub fn new(rule: FactRule, value: Option<ActivationStatus>) -> (r: FactRuleWithArgs)
        ensures
            r@ == (FactRuleWithArgsView {
                rule: FactRuleView { condition: atomic_view(rule.condition) },
                value: value,
            }),
    {
        FactRuleWithArgs { rule, value }
    }
}

impl View for FactRuleWithArgs {
    type V = FactRuleWithArgsView;

    open spec fn view(&self) -> FactRuleWithArgsView {
        FactRuleWithArgsView {
            rule: FactRuleView { condition: atomic_view(self.rule.condition) },
            value: self.value,
        }
    }
}

impl Clone for FactRuleWithArgs {
    fn clone(&self) -> (res: Self)
        ensures
            res@ == self@,
    {
        FactRuleWithArgs { rule: self.rule.clone(), value: self.value }
    }
}

pub enum RuleWithArgsView {
    Declarative(DeclarativeRuleView),
    Case(CaseRuleView),
    Fact(FactRuleWithArgsView),
    Reactive(ReactiveRuleWithArgsView),
}

/// A rule paired with the extra arguments the engine carries.
#[derive(Debug, PartialEq, Eq)]
pub enum RuleWithArgs {
    Declarative(DeclarativeRule),
    Case(CaseRule),
    Fact(FactRuleWithArgs),
    Reactive(ReactiveRuleWithArgs),
}

pub open spec fn rule_with_args_view(r: RuleWithArgs) -> RuleWithArgsView {
    match r {
        RuleWithArgs::Declarative(d) => RuleWithArgsView::Declarative(declarative_view(d)),
        RuleWithArgs::Case(c) => RuleWithArgsView::Case(CaseRuleView { action: action_view(c.action) }),
        RuleWithArgs::Fact(f) => RuleWithArgsView::Fact(f@),
        RuleWithArgs::Reactive(r) => RuleWithArgsView::Reactive(r@),
    }
}

impl View for RuleWithArgs {
    type V = RuleWithArgsView;

    open spec fn view(&self) -> RuleWithArgsView {
        rule_with_args_view(*self)
    }
}

impl Clone for RuleWithArgs {
    fn clone(&self) -> (res: Self)
        ensures
            res@ == self@,
    {
        match self {
            RuleWithArgs::Declarative(d) => RuleWithArgs::Declarative(d.clone()),
            RuleWithArgs::Case(c) => RuleWithArgs::Case(c.clone()),
            RuleWithArgs::Fact(f) => RuleWithArgs::Fact(f.clone()),
            RuleWithArgs::Reactive(r) => RuleWithArgs::Reactive(r.clone()),
        }
    }
}

impl From<RuleWithArgs> for Rule {
    fn from(rwa: RuleWithArgs) -> (r: Rule) {
        match rwa {
            RuleWithArgs::Declarative(d) => Rule::Declarative(d),
            RuleWithArgs::Case(c) => Rule::Case(c),
            RuleWithArgs::Fact(FactRuleWithArgs { rule, .. }) => Rule::Fact(rule),
            RuleWithArgs::Reactive(ReactiveRuleWithArgs { rule, .. }) => Rule::Reactive(rule),
        }
    }
}

impl vstd::std_specs::convert::FromSpecImpl<RuleWithArgs> for Rule {
    open spec fn obeys_from_spec() -> bool {
        true
    }

    open spec fn from_spec(rwa: RuleWithArgs) -> Rule {
        match rwa {
            RuleWithArgs::Declarative(d) => Rule::Declarative(d),
            RuleWithArgs::Case(c) => Rule::Case(c),
            RuleWithArgs::Fact(f) => Rule::Fact(f.rule),
            RuleWithArgs::Reactive(r) => Rule::Reactive(r.rule),
        }
    }
}

impl From<Rule> for RuleWithArgs {
    fn from(rw: Rule) -> (r: RuleWithArgs) {
        match rw {
            Rule::Declarative(d) => RuleWithArgs::Declarative(d),
            Rule::Case(c) => RuleWithArgs::Case(c),
            Rule::Fact(fr) => RuleWithArgs::Fact(FactRuleWithArgs { rule: fr, value: None }),
            Rule::Reactive(rr) => RuleWithArgs::Reactive(
                ReactiveRuleWithArgs {
                    rule: rr,
                    value: ActivationStatus::True,
                    alias: None,
                },
            ),
        }
    }
}

impl vstd::std_specs::convert::FromSpecImpl<Rule> for RuleWithArgs {
    open spec fn obeys_from_spec() -> bool {
        true
    }

    open spec fn from_spec(rw: Rule) -> RuleWithArgs {
        match rw {
            Rule::Declarative(d) => RuleWithArgs::Declarative(d),
            Rule::Case(c) => RuleWithArgs::Case(c),
            Rule::Fact(fr) => RuleWithArgs::Fact(FactRuleWithArgs { rule: fr, value: None }),
            Rule::Reactive(rr) => RuleWithArgs::Reactive(
                ReactiveRuleWithArgs {
                    rule: rr,
                    value: ActivationStatus::True,
                    alias: None,
                },
            ),
        }
    }
}

} // verus!
