//! Event handlers: one per event identifier, each holding reactive rules
//! keyed by rule and alias path, with an activation status per rule.

use vstd::prelude::*;

use crate::ast::{ReactiveRule, ReactiveRuleView, reactive_view};
use crate::eq::eq_reactive;
use crate::errors::EngineError;
use crate::print::reactive_identifier;
use crate::types::{
    ActivationStatus, ReactiveRuleWithArgs, ReactiveRuleWithArgsView, clone_path, eq_path,
    path_view,
};

verus! {

// ---------------------------------------------------------------------
// Keys and the handler model.
// ---------------------------------------------------------------------

pub struct RuleKeyView {
    pub rule: ReactiveRuleView,
    pub alias: Option<Seq<Seq<char>>>,
}

/// A reactive rule together with the alias path it came through; the key
/// under which its activation status is stored.
#[derive(Debug, PartialEq, Eq)]
pub struct ReactiveRuleKey {
    pub rule: ReactiveRule,
    pub alias: Option<Vec<String>>,
}

impl View for ReactiveRuleKey {
    type V = RuleKeyView;

    open spec fn view(&self) -> RuleKeyView {
        RuleKeyView { rule: reactive_view(self.rule), alias: path_view(self.alias) }
    }
}

impl Clone for ReactiveRuleKey {
    fn clone(&self) -> (res: Self)
        ensures
            res@ == self@,
    {
        ReactiveRuleKey { rule: self.rule.clone(), alias: clone_path(&self.alias) }
    }
}

pub fn eq_rule_key(a: &ReactiveRuleKey, b: &ReactiveRuleKey) -> (r: bool)
    ensures
        r == (a@ == b@),
{
    eq_reactive(&a.rule, &b.rule) && eq_path(&a.alias, &b.alias)
}

/// Model of a handler: its identifier and its keyed rule statuses, in
/// insertion order.
pub struct HandlerView {
    pub id: Seq<char>,
    pub rules: Seq<(RuleKeyView, ActivationStatus)>,
}

/// The status stored under the first occurrence of `k`.
pub open spec fn key_find(s: Seq<(RuleKeyView, ActivationStatus)>, k: RuleKeyView) -> Option<
    ActivationStatus,
>
    decreases s.len(),
{
    if s.len() == 0 {
        None
    } else if s.first().0 == k {
        Some(s.first().1)
    } else {
        key_find(s.drop_first(), k)
    }
}

/// Overwrite the status under the first occurrence of `k`, or append.
pub open spec fn key_upsert(
    s: Seq<(RuleKeyView, ActivationStatus)>,
    k: RuleKeyView,
    v: ActivationStatus,
) -> Seq<(RuleKeyView, ActivationStatus)>
    decreases s.len(),
{
    if s.len() == 0 {
        seq![(k, v)]
    } else if s.first().0 == k {
        seq![(k, v)] + s.drop_first()
    } else {
        seq![s.first()] + key_upsert(s.drop_first(), k, v)
    }
}

pub proof fn lemma_key_find_at(s: Seq<(RuleKeyView, ActivationStatus)>, k: RuleKeyView, j: int)
    requires
        0 <= j < s.len(),
        s[j].0 == k,
        forall|i: int| 0 <= i < j ==> s[i].0 != k,
    ensures
        key_find(s, k) == Some(s[j].1),
    decreases j,
{
    if j == 0 {
        assert(s.first() == s[0]);
    } else {
        assert(s.first().0 != k);
        assert(s.drop_first()[j - 1] == s[j]);
        assert forall|i: int| 0 <= i < j - 1 implies s.drop_first()[i].0 != k by {
            assert(s.drop_first()[i] == s[i + 1]);
        }
        lemma_key_find_at(s.drop_first(), k, j - 1);
    }
}

pub proof fn lemma_key_find_none(s: Seq<(RuleKeyView, ActivationStatus)>, k: RuleKeyView)
    requires
        forall|i: int| 0 <= i < s.len() ==> s[i].0 != k,
    ensures
        key_find(s, k) is None,
    decreases s.len(),
{
    if s.len() > 0 {
        assert(s.first() == s[0]);
        assert forall|i: int| 0 <= i < s.drop_first().len() implies s.drop_first()[i].0 != k by {
            assert(s.drop_first()[i] == s[i + 1]);
        }
        lemma_key_find_none(s.drop_first(), k);
    }
}

pub proof fn lemma_key_upsert_at(
    s: Seq<(RuleKeyView, ActivationStatus)>,
    k: RuleKeyView,
    v: ActivationStatus,
    j: int,
)
    requires
        0 <= j < s.len(),
        s[j].0 == k,
        forall|i: int| 0 <= i < j ==> s[i].0 != k,
    ensures
        key_upsert(s, k, v) == s.update(j, (k, v)),
    decreases j,
{
    if j == 0 {
        assert(s.first() == s[0]);
        assert(seq![(k, v)] + s.drop_first() =~= s.update(0, (k, v)));
    } else {
        assert(s.first().0 != k);
        assert(s.drop_first()[j - 1] == s[j]);
        assert forall|i: int| 0 <= i < j - 1 implies s.drop_first()[i].0 != k by {
            assert(s.drop_first()[i] == s[i + 1]);
        }
        lemma_key_upsert_at(s.drop_first(), k, v, j - 1);
        assert(seq![s.first()] + s.drop_first().update(j - 1, (k, v)) =~= s.update(j, (k, v)));
    }
}

pub proof fn lemma_key_upsert_absent(
    s: Seq<(RuleKeyView, ActivationStatus)>,
    k: RuleKeyView,
    v: ActivationStatus,
)
    requires
        forall|i: int| 0 <= i < s.len() ==> s[i].0 != k,
    ensures
        key_upsert(s, k, v) == s.push((k, v)),
    decreases s.len(),
{
    if s.len() == 0 {
        assert(seq![(k, v)] =~= s.push((k, v)));
    } else {
        assert(s.first() == s[0]);
        assert forall|i: int| 0 <= i < s.drop_first().len() implies s.drop_first()[i].0 != k by {
            assert(s.drop_first()[i] == s[i + 1]);
        }
        lemma_key_upsert_absent(s.drop_first(), k, v);
        assert(seq![s.first()] + s.drop_first().push((k, v)) =~= s.push((k, v)));
    }
}

/// The aggregated state of a handler: one shared status if all rules
/// agree, else `True` if any rule is `True`, else `False` if any is
/// `False`, else `Conflict`.
pub open spec fn spec_handler_state(s: Seq<(RuleKeyView, ActivationStatus)>) -> ActivationStatus {
    if s.len() == 0 {
        ActivationStatus::Conflict
    } else if forall|i: int| 0 <= i < s.len() ==> (#[trigger] s[i]).1 == s[0].1 {
        s[0].1
    } else if exists|i: int| 0 <= i < s.len() && s[i].1 == ActivationStatus::True {
        ActivationStatus::True
    } else if exists|i: int| 0 <= i < s.len() && s[i].1 == ActivationStatus::False {
        ActivationStatus::False
    } else {
        ActivationStatus::Conflict
    }
}

/// The rules a handler reports: every entry, or with `all` unset only
/// those whose status is not `False`.
pub open spec fn spec_handler_rules(h: HandlerView, all: bool) -> Seq<ReactiveRuleWithArgsView>
    decreases h.rules.len(),
{
    if h.rules.len() == 0 {
        Seq::empty()
    } else {
        let rest = spec_handler_rules(
            HandlerView { id: h.id, rules: h.rules.drop_last() },
            all,
        );
        let e = h.rules.last();
        if all || e.1 != ActivationStatus::False {
            rest.push(
                ReactiveRuleWithArgsView { rule: e.0.rule, value: e.1, alias: e.0.alias },
            )
        } else {
            rest
        }
    }
}

// ---------------------------------------------------------------------
// The executable handler.
// ---------------------------------------------------------------------

/// A handler for one event identifier.
#[derive(Debug)]
pub struct EventHandler {
    pub id: String,
    pub rules: Vec<(ReactiveRuleKey, ActivationStatus)>,
}

pub open spec fn handler_view(h: EventHandler) -> HandlerView {
    HandlerView {
        id: h.id@,
        rules: Seq::new(h.rules@.len(), |i: int| (h.rules@[i].0@, h.rules@[i].1)),
    }
}

impl View for EventHandler {
    type V = HandlerView;

    open spec fn view(&self) -> HandlerView {
        handler_view(*self)
    }
}

impl EventHandler {
    /// A handler seeded with one reactive rule; its identifier is the
    /// rule's event identifier.
    pub fn new(rule_with_args: ReactiveRuleWithArgs) -> (r: EventHandler)
        ensures
            r@.id == reactive_identifier(reactive_view(rule_with_args.rule)),
            r@.rules =~= seq![
                (
                    RuleKeyView {
                        rule: reactive_view(rule_with_args.rule),
                        alias: path_view(rule_with_args.alias),
                    },
                    rule_with_args.value,
                ),
            ],
    {
        let id = rule_with_args.rule.get_identifier();
        let mut rules: Vec<(ReactiveRuleKey, ActivationStatus)> = Vec::new();
        rules.push(
            (
                ReactiveRuleKey { rule: rule_with_args.rule, alias: rule_with_args.alias },
                rule_with_args.value,
            ),
        );
        EventHandler { id, rules }
    }

    /// The index of the first entry with the given key.
    fn find_key(&self, key: &ReactiveRuleKey) -> (r: Option<usize>)
        ensures
            match r {
                Some(j) => j < self.rules@.len() && self.rules@[j as int].0@ == key@ && (
                forall|i: int| 0 <= i < j ==> self.rules@[i].0@ != key@),
                None => forall|i: int| 0 <= i < self.rules@.len() ==> self.rules@[i].0@ != key@,
            },
    {
        let mut i: usize = 0;
        while i < self.rules.len()
            invariant
                i <= self.rules@.len(),
                forall|j: int| 0 <= j < i ==> self.rules@[j].0@ != key@,
            decreases self.rules@.len() - i,
        {
            if eq_rule_key(&self.rules[i].0, key) {
                return Some(i);
            }
            i = i + 1;
        }
        None
    }

    /// Insert the rule, or overwrite the status under its key.  Never
    /// fails.
    pub fn add_rule(&mut self, rule_with_args: ReactiveRuleWithArgs) -> (r: Result<
        bool,
        EngineError,
    >)
        ensures
            r == Ok::<bool, EngineError>(true),
            final(self)@.id == old(self)@.id,
            final(self)@.rules == key_upsert(
                old(self)@.rules,
                RuleKeyView {
                    rule: reactive_view(rule_with_args.rule),
                    alias: path_view(rule_with_args.alias),
                },
                rule_with_args.value,
            ),
    {
        let value = rule_with_args.value;
        let key = ReactiveRuleKey { rule: rule_with_args.rule, alias: rule_with_args.alias };
        let ghost rules0 = self@.rules;
        match self.find_key(&key) {
            Some(j) => {
                proof {
                    assert forall|i: int| 0 <= i < j implies rules0[i].0 != key@ by {
                        assert(rules0[i].0 == self.rules@[i].0@);
                    }
                    assert(rules0[j as int].0 == key@);
                    lemma_key_upsert_at(rules0, key@, value, j as int);
                }
                self.rules.set(j, (key, value));
                proof {
                    assert(self@.rules =~= rules0.update(j as int, (key@, value)));
                }
                Ok(true)
            },
            None => {
                proof {
                    assert forall|i: int| 0 <= i < rules0.len() implies rules0[i].0 != key@ by {
                        assert(rules0[i].0 == self.rules@[i].0@);
                    }
                    lemma_key_upsert_absent(rules0, key@, value);
                }
                self.rules.push((key, value));
                proof {
                    assert(self@.rules =~= rules0.push(
                        (self.rules@.last().0@, self.rules@.last().1),
                    ));
                }
                Ok(true)
            },
        }
    }

    /// The stored status under a key, if any.
    pub fn status_of(&self, key: &ReactiveRuleKey) -> (r: Option<ActivationStatus>)
        ensures
            r == key_find(self@.rules, key@),
    {
        match self.find_key(key) {
            Some(j) => {
                proof {
                    assert forall|i: int| 0 <= i < j implies self@.rules[i].0 != key@ by {
                        assert(self@.rules[i].0 == self.rules@[i].0@);
                    }
                    assert(self@.rules[j as int].0 == key@);
                    lemma_key_find_at(self@.rules, key@, j as int);
                }
                Some(self.rules[j].1)
            },
            None => {
                proof {
                    assert forall|i: int| 0 <= i < self@.rules.len() implies self@.rules[i].0
                        != key@ by {
                        assert(self@.rules[i].0 == self.rules@[i].0@);
                    }
                    lemma_key_find_none(self@.rules, key@);
                }
                None
            },
        }
    }

    /// The rules this handler tracks; with `all` unset, entries whose
    /// status is `False` are hidden.
    pub fn get_rules(&self, all: bool) -> (r: Vec<ReactiveRuleWithArgs>)
        ensures
            Seq::new(r@.len(), |i: int| r@[i]@) == spec_handler_rules(self@, all),
    {
        let mut out: Vec<ReactiveRuleWithArgs> = Vec::new();
        let mut i: usize = 0;
        while i < self.rules.len()
            invariant
                i <= self.rules@.len(),
                Seq::new(out@.len(), |j: int| out@[j]@) == spec_handler_rules(
                    HandlerView {
                        id: self@.id,
                        rules: self@.rules.subrange(0, i as int),
                    },
                    all,
                ),
            decreases self.rules@.len() - i,
        {
            let ghost pre = Seq::new(out@.len(), |j: int| out@[j]@);
            let ghost hpre = HandlerView { id: self@.id, rules: self@.rules.subrange(0, i as int) };
            let entry = &self.rules[i];
            let keep = all || !matches!(entry.1, ActivationStatus::False);
            if keep {
                let rwa = ReactiveRuleWithArgs {
                    rule: entry.0.rule.clone(),
                    value: entry.1,
                    alias: clone_path(&entry.0.alias),
                };
                out.push(rwa);
            }
            proof {
                let hnext = HandlerView {
                    id: self@.id,
                    rules: self@.rules.subrange(0, i as int + 1),
                };
                assert(hnext.rules.drop_last() =~= hpre.rules);
                assert(hnext.rules.last() == self@.rules[i as int]);
                assert(self@.rules[i as int] == (self.rules@[i as int].0@, self.rules@[i as int].1));
                if keep {
                    assert(Seq::new(out@.len(), |j: int| out@[j]@) =~= pre.push(
                        ReactiveRuleWithArgsView {
                            rule: self@.rules[i as int].0.rule,
                            value: self@.rules[i as int].1,
                            alias: self@.rules[i as int].0.alias,
                        },
                    ));
                } else {
                    assert(Seq::new(out@.len(), |j: int| out@[j]@) =~= pre);
                }
            }
            i = i + 1;
        }
        proof {
            assert(self@.rules.subrange(0, self@.rules.len() as int) =~= self@.rules);
        }
        out
    }

    /// The aggregated status of all contained rules.
    pub fn state(&self) -> (r: ActivationStatus)
        ensures
            r == spec_handler_state(self@.rules),
    {
        if self.rules.len() == 0 {
            return ActivationStatus::Conflict;
        }
        let first = self.rules[0].1;
        let mut all_same = true;
        let mut any_true = false;
        let mut any_false = false;
        let mut i: usize = 0;
        while i < self.rules.len()
            invariant
                i <= self.rules@.len(),
                self.rules@.len() > 0,
                first == self@.rules[0].1,
                all_same == forall|j: int| 0 <= j < i ==> (#[trigger] self@.rules[j]).1 == self@.rules[0].1,
                any_true == exists|j: int|
                    0 <= j < i && self@.rules[j].1 == ActivationStatus::True,
                any_false == exists|j: int|
                    0 <= j < i && self@.rules[j].1 == ActivationStatus::False,
            decreases self.rules@.len() - i,
        {
            let v = self.rules[i].1;
            proof {
                assert(self@.rules[i as int].1 == self.rules@[i as int].1);
            }
            match v {
                ActivationStatus::True => {
                    any_true = true;
                },
                ActivationStatus::False => {
                    any_false = true;
                },
                ActivationStatus::Conflict => {},
            }
            let same = matches!(
                (v, &self.rules[0].1),
                (ActivationStatus::True, ActivationStatus::True) | (
                    ActivationStatus::False,
                    ActivationStatus::False,
                ) | (ActivationStatus::Conflict, ActivationStatus::Conflict)
            );
            if !same {
                all_same = false;
            }
            i = i + 1;
        }
        if all_same {
            first
        } else if any_true {
            ActivationStatus::True
        } else if any_false {
            ActivationStatus::False
        } else {
            ActivationStatus::Conflict
        }
    }
}

} // verus!
