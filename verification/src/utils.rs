//! The alias namespace tree, aggregation of activation statuses, and
//! small helpers on paths.

use vstd::prelude::*;

use crate::ast::{Rule, RuleView, lemma_rules_view_len, rule_view, rules_view};
use crate::eq::rules_contain;
use crate::errors::EngineError;
use crate::types::{ActivationStatus, clone_strings, strings_view};

verus! {

// ---------------------------------------------------------------------
// Status aggregation.
// ---------------------------------------------------------------------

/// The aggregate of a collection of statuses: any `Conflict` makes the
/// whole `Conflict`; otherwise any `False` makes it `False`; otherwise
/// it is `True`.
pub open spec fn spec_overall_status(s: Seq<ActivationStatus>) -> ActivationStatus {
    if s.contains(ActivationStatus::Conflict) {
        ActivationStatus::Conflict
    } else if s.contains(ActivationStatus::False) {
        ActivationStatus::False
    } else {
        ActivationStatus::True
    }
}

/// Aggregate the statuses of a collection of rules.
pub fn overall_status_from_set(statuses: &Vec<ActivationStatus>) -> (r: ActivationStatus)
    ensures
        r == spec_overall_status(statuses@),
{
    let mut any_false = false;
    let mut i: usize = 0;
    while i < statuses.len()
        invariant
            i <= statuses@.len(),
            forall|j: int| 0 <= j < i ==> statuses@[j] != ActivationStatus::Conflict,
            any_false == exists|j: int| 0 <= j < i && statuses@[j] == ActivationStatus::False,
        decreases statuses@.len() - i,
    {
        match statuses[i] {
            ActivationStatus::Conflict => {
                proof {
                    assert(statuses@[i as int] == ActivationStatus::Conflict);
                    assert(statuses@.contains(ActivationStatus::Conflict));
                }
                return ActivationStatus::Conflict;
            },
            ActivationStatus::False => {
                proof {
                    assert(statuses@[i as int] == ActivationStatus::False);
                }
                any_false = true;
            },
            ActivationStatus::True => {},
        }
        i = i + 1;
    }
    proof {
        if statuses@.contains(ActivationStatus::Conflict) {
            let j = choose|j: int|
                0 <= j < statuses@.len() && statuses@[j] == ActivationStatus::Conflict;
            assert(false);
        }
        if any_false {
            assert(statuses@.contains(ActivationStatus::False));
        } else {
            if statuses@.contains(ActivationStatus::False) {
                let j = choose|j: int|
                    0 <= j < statuses@.len() && statuses@[j] == ActivationStatus::False;
                assert(false);
            }
        }
    }
    if any_false {
        ActivationStatus::False
    } else {
        ActivationStatus::True
    }
}

// ---------------------------------------------------------------------
// Paths.
// ---------------------------------------------------------------------

/// Split a non-empty path into its head, its tail and a copy of the
/// whole.
pub fn get_parts(path: Vec<String>) -> (r: (String, Vec<String>, Vec<String>))
    requires
        path@.len() > 0,
    ensures
        r.0@ == path@[0]@,
        strings_view(r.1@) == strings_view(path@).drop_first(),
        strings_view(r.2@) == strings_view(path@),
{
    let head = path[0].clone();
    let mut tail: Vec<String> = Vec::new();
    let mut i: usize = 1;
    while i < path.len()
        invariant
            1 <= i <= path@.len(),
            tail@.len() == i - 1,
            forall|j: int| 0 <= j < i - 1 ==> tail@[j]@ == path@[j + 1]@,
        decreases path@.len() - i,
    {
        tail.push(path[i].clone());
        i = i + 1;
    }
    proof {
        assert(strings_view(tail@) =~= strings_view(path@).drop_first());
    }
    let full = clone_strings(&path);
    (head, tail, full)
}

// ---------------------------------------------------------------------
// The alias namespace tree.
// ---------------------------------------------------------------------

/// Model of a namespace node: named children and a rule list.
pub struct NamespaceView {
    pub subs: Seq<(Seq<char>, NamespaceView)>,
    pub rules: Seq<RuleView>,
}

/// The first child with the given name.
pub open spec fn subs_find(s: Seq<(Seq<char>, NamespaceView)>, name: Seq<char>) -> Option<
    NamespaceView,
>
    decreases s.len(),
{
    if s.len() == 0 {
        None
    } else if s.first().0 == name {
        Some(s.first().1)
    } else {
        subs_find(s.drop_first(), name)
    }
}

/// Replace the first child with the given name, or append one.
pub open spec fn subs_set(
    s: Seq<(Seq<char>, NamespaceView)>,
    name: Seq<char>,
    child: NamespaceView,
) -> Seq<(Seq<char>, NamespaceView)>
    decreases s.len(),
{
    if s.len() == 0 {
        seq![(name, child)]
    } else if s.first().0 == name {
        seq![(name, child)] + s.drop_first()
    } else {
        seq![s.first()] + subs_set(s.drop_first(), name, child)
    }
}

/// The union of two rule lists: `old` in order, then those of `add` not
/// already present, in order.
pub open spec fn spec_union_rules(old: Seq<RuleView>, add: Seq<RuleView>) -> Seq<RuleView>
    decreases add.len(),
{
    if add.len() == 0 {
        old
    } else if old.contains(add.first()) {
        spec_union_rules(old, add.drop_first())
    } else {
        spec_union_rules(old.push(add.first()), add.drop_first())
    }
}

/// Fetching the rules stored under `path`; `None` when a prefix segment
/// is absent.
pub open spec fn spec_get_rules(n: NamespaceView, path: Seq<Seq<char>>) -> Option<Seq<RuleView>>
    decreases path.len(),
{
    if path.len() == 0 {
        Some(n.rules)
    } else {
        match subs_find(n.subs, path.first()) {
            None => None,
            Some(c) => spec_get_rules(c, path.drop_first()),
        }
    }
}

pub open spec fn empty_namespace() -> NamespaceView {
    NamespaceView { subs: Seq::empty(), rules: Seq::empty() }
}

/// Installing `new_rules` under `path`, creating intermediate nodes:
/// the new tree, and the previous rule list at the leaf (`None` when it
/// was empty).
pub open spec fn spec_create_rules(
    n: NamespaceView,
    path: Seq<Seq<char>>,
    new_rules: Seq<RuleView>,
    override_entries: bool,
) -> (NamespaceView, Option<Seq<RuleView>>)
    decreases path.len(),
{
    if path.len() == 0 {
        let merged = if override_entries {
            new_rules
        } else {
            spec_union_rules(n.rules, new_rules)
        };
        let prev = if n.rules.len() == 0 {
            None
        } else {
            Some(n.rules)
        };
        (NamespaceView { subs: n.subs, rules: merged }, prev)
    } else {
        let child = match subs_find(n.subs, path.first()) {
            Some(c) => c,
            None => empty_namespace(),
        };
        let (child2, prev) = spec_create_rules(child, path.drop_first(), new_rules,
            override_entries);
        (NamespaceView { subs: subs_set(n.subs, path.first(), child2), rules: n.rules }, prev)
    }
}

/// A namespace node: named sub-namespaces and the rules stored here.
#[derive(Debug)]
pub struct AliasNamespace {
    pub sub_namespaces: Vec<(String, AliasNamespace)>,
    pub rules: Vec<Rule>,
}

pub open spec fn alias_ns_view(n: AliasNamespace) -> NamespaceView
    decreases n,
{
    NamespaceView { subs: subs_view(n.sub_namespaces@), rules: rules_view(n.rules@) }
}

pub open spec fn subs_view(s: Seq<(String, AliasNamespace)>) -> Seq<(Seq<char>, NamespaceView)>
    decreases s,
{
    if s.len() == 0 {
        Seq::empty()
    } else {
        subs_view(s.drop_last()).push((s.last().0@, alias_ns_view(s.last().1)))
    }
}

impl View for AliasNamespace {
    type V = NamespaceView;

    open spec fn view(&self) -> NamespaceView {
        alias_ns_view(*self)
    }
}

pub proof fn lemma_subs_view_len(s: Seq<(String, AliasNamespace)>)
    ensures
        subs_view(s).len() == s.len(),
    decreases s,
{
    if s.len() > 0 {
        lemma_subs_view_len(s.drop_last());
    }
}

pub proof fn lemma_subs_view_index(s: Seq<(String, AliasNamespace)>, i: int)
    requires
        0 <= i < s.len(),
    ensures
        subs_view(s).len() == s.len(),
        subs_view(s)[i] == (s[i].0@, alias_ns_view(s[i].1)),
    decreases s,
{
    lemma_subs_view_len(s);
    if i < s.len() - 1 {
        lemma_subs_view_index(s.drop_last(), i);
    }
}

pub proof fn lemma_subs_view_push(s: Seq<(String, AliasNamespace)>, x: (String, AliasNamespace))
    ensures
        subs_view(s.push(x)) == subs_view(s).push((x.0@, alias_ns_view(x.1))),
{
    assert(s.push(x).drop_last() =~= s);
    assert(s.push(x).last() == x);
}

pub proof fn lemma_subs_view_update(
    s: Seq<(String, AliasNamespace)>,
    i: int,
    x: (String, AliasNamespace),
)
    requires
        0 <= i < s.len(),
    ensures
        subs_view(s.update(i, x)) == subs_view(s).update(i, (x.0@, alias_ns_view(x.1))),
    decreases s,
{
    lemma_subs_view_len(s);
    lemma_subs_view_len(s.update(i, x));
    let t = s.update(i, x);
    if i == s.len() - 1 {
        assert(t.drop_last() =~= s.drop_last());
        assert(t.last() == x);
        assert(subs_view(s).update(i, (x.0@, alias_ns_view(x.1))) =~= subs_view(
            s.drop_last(),
        ).push((x.0@, alias_ns_view(x.1))));
    } else {
        assert(t.drop_last() =~= s.drop_last().update(i, x));
        lemma_subs_view_update(s.drop_last(), i, x);
        assert(t.last() == s.last());
        assert(subs_view(s).update(i, (x.0@, alias_ns_view(x.1))) =~= subs_view(
            s.drop_last(),
        ).update(i, (x.0@, alias_ns_view(x.1))).push((s.last().0@, alias_ns_view(s.last().1))));
    }
}

/// The first match determines `subs_find`.
pub proof fn lemma_subs_find_at(s: Seq<(Seq<char>, NamespaceView)>, name: Seq<char>, j: int)
    requires
        0 <= j < s.len(),
        s[j].0 == name,
        forall|k: int| 0 <= k < j ==> s[k].0 != name,
    ensures
        subs_find(s, name) == Some(s[j].1),
    decreases j,
{
    if j == 0 {
        assert(s.first() == s[0]);
    } else {
        assert(s.first().0 != name);
        assert(s.drop_first()[j - 1] == s[j]);
        assert forall|k: int| 0 <= k < j - 1 implies s.drop_first()[k].0 != name by {
            assert(s.drop_first()[k] == s[k + 1]);
        }
        lemma_subs_find_at(s.drop_first(), name, j - 1);
    }
}

pub proof fn lemma_subs_find_none(s: Seq<(Seq<char>, NamespaceView)>, name: Seq<char>)
    requires
        forall|k: int| 0 <= k < s.len() ==> s[k].0 != name,
    ensures
        subs_find(s, name) is None,
    decreases s.len(),
{
    if s.len() > 0 {
        assert(s.first() == s[0]);
        assert forall|k: int| 0 <= k < s.drop_first().len() implies s.drop_first()[k].0 != name by {
            assert(s.drop_first()[k] == s[k + 1]);
        }
        lemma_subs_find_none(s.drop_first(), name);
    }
}

/// Replacing the first match is a pointwise update.
pub proof fn lemma_subs_set_at(
    s: Seq<(Seq<char>, NamespaceView)>,
    name: Seq<char>,
    child: NamespaceView,
    j: int,
)
    requires
        0 <= j < s.len(),
        s[j].0 == name,
        forall|k: int| 0 <= k < j ==> s[k].0 != name,
    ensures
        subs_set(s, name, child) == s.update(j, (name, child)),
    decreases j,
{
    if j == 0 {
        assert(s.first() == s[0]);
        assert(seq![(name, child)] + s.drop_first() =~= s.update(0, (name, child)));
    } else {
        assert(s.first().0 != name);
        assert(s.drop_first()[j - 1] == s[j]);
        assert forall|k: int| 0 <= k < j - 1 implies s.drop_first()[k].0 != name by {
            assert(s.drop_first()[k] == s[k + 1]);
        }
        lemma_subs_set_at(s.drop_first(), name, child, j - 1);
        assert(seq![s.first()] + s.drop_first().update(j - 1, (name, child)) =~= s.update(
            j,
            (name, child),
        ));
    }
}

/// Appending happens when the name is absent.
pub proof fn lemma_subs_set_absent(
    s: Seq<(Seq<char>, NamespaceView)>,
    name: Seq<char>,
    child: NamespaceView,
)
    requires
        forall|k: int| 0 <= k < s.len() ==> s[k].0 != name,
    ensures
        subs_set(s, name, child) == s.push((name, child)),
    decreases s.len(),
{
    if s.len() == 0 {
        assert(seq![(name, child)] =~= s.push((name, child)));
    } else {
        assert(s.first() == s[0]);
        assert forall|k: int| 0 <= k < s.drop_first().len() implies s.drop_first()[k].0 != name by {
            assert(s.drop_first()[k] == s[k + 1]);
        }
        lemma_subs_set_absent(s.drop_first(), name, child);
        assert(seq![s.first()] + s.drop_first().push((name, child)) =~= s.push((name, child)));
    }
}

/// The union built step by step from the left.
pub proof fn lemma_union_rules_concat(old: Seq<RuleView>, a: Seq<RuleView>, b: Seq<RuleView>)
    ensures
        spec_union_rules(old, a + b) == spec_union_rules(spec_union_rules(old, a), b),
    decreases a.len(),
{
    if a.len() == 0 {
        assert(a + b =~= b);
    } else {
        assert((a + b).first() == a.first());
        assert((a + b).drop_first() =~= a.drop_first() + b);
        if old.contains(a.first()) {
            lemma_union_rules_concat(old, a.drop_first(), b);
        } else {
            lemma_union_rules_concat(old.push(a.first()), a.drop_first(), b);
        }
    }
}

impl AliasNamespace {
    /// A fresh node with no children and no rules.
    pub fn new() -> (r: AliasNamespace)
        ensures
            r@ == empty_namespace(),
    {
        AliasNamespace { sub_namespaces: Vec::new(), rules: Vec::new() }
    }

    /// The index of the first child with the given name.
    fn find_sub(&self, name: &String) -> (r: Option<usize>)
        ensures
            match r {
                Some(j) => j < self.sub_namespaces@.len() && self.sub_namespaces@[j as int].0@
                    == name@ && (forall|k: int|
                    0 <= k < j ==> self.sub_namespaces@[k].0@ != name@) && subs_find(
                    self@.subs,
                    name@,
                ) == Some(alias_ns_view(self.sub_namespaces@[j as int].1)),
                None => subs_find(self@.subs, name@) is None,
            },
    {
        let mut i: usize = 0;
        while i < self.sub_namespaces.len()
            invariant
                i <= self.sub_namespaces@.len(),
                forall|k: int| 0 <= k < i ==> self.sub_namespaces@[k].0@ != name@,
            decreases self.sub_namespaces@.len() - i,
        {
            if self.sub_namespaces[i].0.eq(name) {
                proof {
                    lemma_subs_view_index(self.sub_namespaces@, i as int);
                    assert forall|k: int| 0 <= k < i implies subs_view(self.sub_namespaces@)[k].0
                        != name@ by {
                        lemma_subs_view_index(self.sub_namespaces@, k);
                    }
                    lemma_subs_find_at(subs_view(self.sub_namespaces@), name@, i as int);
                }
                return Some(i);
            }
            i = i + 1;
        }
        proof {
            lemma_subs_view_len(self.sub_namespaces@);
            assert forall|k: int| 0 <= k < subs_view(self.sub_namespaces@).len() implies subs_view(
                self.sub_namespaces@,
            )[k].0 != name@ by {
                lemma_subs_view_index(self.sub_namespaces@, k);
            }
            lemma_subs_find_none(subs_view(self.sub_namespaces@), name@);
        }
        None
    }

    /// The rules stored under the path `aliases[i..]`.
    pub fn get_rules(&self, aliases: &Vec<String>, i: usize) -> (r: Result<Vec<Rule>, EngineError>)
        requires
            i <= aliases@.len(),
        ensures
            match r {
                Ok(rules) => spec_get_rules(
                    self@,
                    strings_view(aliases@).subrange(i as int, aliases@.len() as int),
                ) == Some(rules_view(rules@)),
                Err(e) => spec_get_rules(
                    self@,
                    strings_view(aliases@).subrange(i as int, aliases@.len() as int),
                ) is None && e == EngineError::NamespaceMissing,
            },
        decreases aliases@.len() - i,
    {
        let ghost path = strings_view(aliases@).subrange(i as int, aliases@.len() as int);
        if i == aliases.len() {
            let rules = crate::ast::clone_rules(&self.rules);
            proof {
                assert(path.len() == 0);
            }
            Ok(rules)
        } else {
            proof {
                assert(path.first() == aliases@[i as int]@);
                assert(path.drop_first() =~= strings_view(aliases@).subrange(
                    i as int + 1,
                    aliases@.len() as int,
                ));
            }
            match self.find_sub(&aliases[i]) {
                None => Err(EngineError::NamespaceMissing),
                Some(j) => self.sub_namespaces[j].1.get_rules(aliases, i + 1),
            }
        }
    }

    /// Install `new_rules` under the path `aliases[i..]`, creating
    /// intermediate nodes; at the leaf the list is replaced or united.
    /// Returns the previous rule list at the leaf, `None` when empty.
    pub fn create_rules(
        &mut self,
        aliases: &Vec<String>,
        i: usize,
        new_rules: Vec<Rule>,
        override_entries: bool,
    ) -> (r: Option<Vec<Rule>>)
        requires
            i <= aliases@.len(),
        ensures
            ({
                let (ns2, prev) = spec_create_rules(
                    old(self)@,
                    strings_view(aliases@).subrange(i as int, aliases@.len() as int),
                    rules_view(new_rules@),
                    override_entries,
                );
                final(self)@ == ns2 && match (r, prev) {
                    (Some(v), Some(p)) => rules_view(v@) == p,
                    (None, None) => true,
                    _ => false,
                }
            }),
        decreases aliases@.len() - i,
    {
        let ghost path = strings_view(aliases@).subrange(i as int, aliases@.len() as int);
        let ghost nv = rules_view(new_rules@);
        let ghost ns0 = self@;
        if i == aliases.len() {
            proof {
                assert(path.len() == 0);
                lemma_rules_view_len(self.rules@);
            }
            let prev = if self.rules.len() == 0 {
                None
            } else {
                Some(crate::ast::clone_rules(&self.rules))
            };
            if override_entries {
                self.rules = new_rules;
            } else {
                let ghost old_rules = rules_view(self.rules@);
                proof {
                    crate::ast::lemma_rules_view_len(new_rules@);
                    assert(rules_view(new_rules@).subrange(0, 0) =~= Seq::<RuleView>::empty());
                }
                let mut k: usize = 0;
                while k < new_rules.len()
                    invariant
                        k <= new_rules@.len(),
                        rules_view(new_rules@).len() == new_rules@.len(),
                        self.sub_namespaces@ == old(self).sub_namespaces@,
                        rules_view(self.rules@) == spec_union_rules(
                            old_rules,
                            rules_view(new_rules@).subrange(0, k as int),
                        ),
                    decreases new_rules@.len() - k,
                {
                    let ghost pre = rules_view(new_rules@).subrange(0, k as int);
                    proof {
                        crate::ast::lemma_rules_view_len(new_rules@);
                        crate::ast::lemma_rules_view_index(new_rules@, k as int);
                        assert(rules_view(new_rules@).subrange(0, k as int + 1) =~= pre.push(
                            rule_view(new_rules@[k as int]),
                        ));
                        assert(pre.push(rule_view(new_rules@[k as int])) =~= pre + seq![
                            rule_view(new_rules@[k as int]),
                        ]);
                        lemma_union_rules_concat(
                            old_rules,
                            pre,
                            seq![rule_view(new_rules@[k as int])],
                        );
                        assert(seq![rule_view(new_rules@[k as int])].drop_first()
                            =~= Seq::<RuleView>::empty());
                        let uu = spec_union_rules(old_rules, pre);
                        let x = rule_view(new_rules@[k as int]);
                        assert(seq![x].first() == x);
                        assert(spec_union_rules(uu, Seq::<RuleView>::empty()) == uu);
                        assert(spec_union_rules(uu.push(x), Seq::<RuleView>::empty()) == uu.push(
                            x,
                        ));
                    }
                    if !rules_contain(&self.rules, &new_rules[k]) {
                        let ghost before = rules_view(self.rules@);
                        let copy = new_rules[k].clone();
                        proof {
                            crate::ast::lemma_rules_view_push(self.rules@, copy);
                        }
                        self.rules.push(copy);
                    }
                    k = k + 1;
                }
                proof {
                    assert(rules_view(self.rules@) == spec_union_rules(
                        old_rules,
                        rules_view(new_rules@).subrange(0, new_rules@.len() as int),
                    ));
                    assert(rules_view(new_rules@).subrange(0, new_rules@.len() as int)
                        =~= nv);
                }
            }
            proof {
                let (ns2, sprev) = spec_create_rules(ns0, path, nv, override_entries);
                assert(self@.rules == ns2.rules);
                assert(self@.subs == ns2.subs);
                assert(self@ == ns2);
            }
            prev
        } else {
            proof {
                assert(path.first() == aliases@[i as int]@);
                assert(path.drop_first() =~= strings_view(aliases@).subrange(
                    i as int + 1,
                    aliases@.len() as int,
                ));
            }
            match self.find_sub(&aliases[i]) {
                Some(j) => {
                    let ghost subs0 = self.sub_namespaces@;
                    let ghost name = aliases@[i as int]@;
                    let mut pair = (String::new(), AliasNamespace::new());
                    self.sub_namespaces.set_and_swap(j, &mut pair);
                    let prev = pair.1.create_rules(aliases, i + 1, new_rules, override_entries);
                    self.sub_namespaces.set_and_swap(j, &mut pair);
                    proof {
                        lemma_subs_view_index(subs0, j as int);
                        assert forall|k: int| 0 <= k < j implies subs_view(subs0)[k].0 != name by {
                            lemma_subs_view_index(subs0, k);
                        }
                        lemma_subs_set_at(
                            subs_view(subs0),
                            name,
                            alias_ns_view(self.sub_namespaces@[j as int].1),
                            j as int,
                        );
                        lemma_subs_view_update(
                            subs0,
                            j as int,
                            self.sub_namespaces@[j as int],
                        );
                        assert(self.sub_namespaces@ =~= subs0.update(
                            j as int,
                            self.sub_namespaces@[j as int],
                        ));
                    }
                    prev
                },
                None => {
                    let ghost subs0 = self.sub_namespaces@;
                    let ghost name = aliases@[i as int]@;
                    let mut child = AliasNamespace::new();
                    let prev = child.create_rules(aliases, i + 1, new_rules, override_entries);
                    let key = aliases[i].clone();
                    proof {
                        lemma_subs_find_none_converse(subs_view(subs0), name);
                        lemma_subs_set_absent(subs_view(subs0), name, alias_ns_view(child));
                        lemma_subs_view_push(subs0, (key, child));
                    }
                    self.sub_namespaces.push((key, child));
                    prev
                },
            }
        }
    }
}

/// An absent name matches no entry.
pub proof fn lemma_subs_find_none_converse(s: Seq<(Seq<char>, NamespaceView)>, name: Seq<char>)
    requires
        subs_find(s, name) is None,
    ensures
        forall|k: int| 0 <= k < s.len() ==> s[k].0 != name,
    decreases s.len(),
{
    if s.len() > 0 {
        assert(s.first().0 != name);
        lemma_subs_find_none_converse(s.drop_first(), name);
        assert forall|k: int| 0 <= k < s.len() implies s[k].0 != name by {
            if k > 0 {
                assert(s.drop_first()[k - 1] == s[k]);
            } else {
                assert(s[0] == s.first());
            }
        }
    }
}

} // verus!
