use cl0::ast::{Action, AtomicCondition, Compound, Condition, PrimitiveCondition, PrimitiveEvent, ReactiveRule, Rule};
use cl0::lex_and_parse;
use cl0::node::Node;
use cl0::types::{ActivationStatus, ReactiveRuleWithArgs, RuleWithArgs};

fn parse(src: &str) -> Vec<Rule> {
    lex_and_parse(src).expect("source must parse")
}

fn var_condition(name: &str) -> Condition {
    Condition::Atomic(AtomicCondition::Primitive(PrimitiveCondition::Var(name.to_string())))
}

/// Test that a node can be initialized without any rules.
#[test]
fn node_init() {
    let node = Node::new_with_rules(None);
    let node_rules = node.get_rules(false);
    assert_eq!(node_rules.len(), 0);
}

/// Test that a node can be initialized with a set of rules.
#[test]
fn node_init_with_rule() {
    let rules = parse("#e => +a.");
    let node = Node::new_with_rules(Some(rules));
    let node_rules = node.get_rules(false);
    assert_eq!(node_rules.len(), 1);
}

/// Test that a node with no rules can have new rules added.
#[test]
fn node_init_with_rules_added() {
    let mut node = Node::new_with_rules(None);
    let more_rules: Vec<RuleWithArgs> = parse("#e => +a.")
        .into_iter()
        .filter_map(|r| {
            if let Rule::Reactive(rr) = r {
                Some(RuleWithArgs::Reactive(ReactiveRuleWithArgs::new(
                    rr,
                    ActivationStatus::True,
                    None,
                )))
            } else {
                None
            }
        })
        .collect();
    node.new_rules(&more_rules).unwrap();
    let node_rules = node.get_rules(false);
    assert_eq!(node_rules.len(), 1);
}

/// Test that a node can be initialized with rules and then extended.
#[test]
fn rule_added() {
    let rules = parse("#e => +a.");
    let mut node = Node::new_with_rules(Some(rules));
    let more_rules: Vec<RuleWithArgs> = parse("#f => +a.")
        .into_iter()
        .filter(|r| matches!(r, Rule::Reactive(_)))
        .filter_map(|r| {
            if let Rule::Reactive(rr) = r {
                Some(RuleWithArgs::Reactive(ReactiveRuleWithArgs::new(
                    rr,
                    ActivationStatus::True,
                    None,
                )))
            } else {
                None
            }
        })
        .collect();
    node.new_rules(&more_rules).unwrap();
    let node_rules = node.get_rules(false);
    assert_eq!(node_rules.len(), 2);
}

/// Test that rules sharing an event identifier share one handler.
#[test]
fn rule_added_same_name() {
    let rules = parse("#e => +a.");
    let mut node = Node::new_with_rules(Some(rules));
    let more_rules: Vec<RuleWithArgs> = parse("#e => +b.")
        .into_iter()
        .filter_map(|r| {
            if let Rule::Reactive(rr) = r {
                Some(RuleWithArgs::Reactive(ReactiveRuleWithArgs::new(
                    rr,
                    ActivationStatus::True,
                    None,
                )))
            } else {
                None
            }
        })
        .collect();
    node.new_rules(&more_rules).unwrap();
    let node_rules = node.get_rules(false);
    assert_eq!(node_rules.len(), 2);
}

/// A produced condition reads back true.
#[test]
fn process_condition_check1() {
    let rules = parse("=> +loaded.");
    let node = Node::new_with_rules(Some(rules));
    let condition = var_condition("loaded");
    let res = node.process_condition(&condition);
    assert!(res.is_ok());
    assert!(res.unwrap());
}

/// A never-stored condition is an error when coerced to a boolean.
#[test]
fn process_condition_check_error1() {
    let rules = parse("#e => +a.");
    let node = Node::new_with_rules(Some(rules));
    let condition = var_condition("loaded");
    let res = node.process_condition(&condition);
    assert!(res.is_err());
}

/// A consumed condition reads back false.
#[test]
fn process_condition_check2() {
    let rules = parse("=> -loaded.");
    let node = Node::new_with_rules(Some(rules));
    let condition = var_condition("loaded");
    let res = node.process_condition(&condition);
    assert!(res.is_ok());
    assert!(!res.unwrap());
}

/// A case rule firing a trigger runs the handler's rules.
#[test]
fn process_action_check1() {
    let rules = parse("#e => +loaded. => #e.");
    let node = Node::new_with_rules(Some(rules));
    let condition = var_condition("loaded");
    let res = node.process_condition(&condition);
    assert!(res.is_ok());
    assert!(res.unwrap());
}

/// An event nobody fires leaves its production unapplied.
#[test]
fn process_action_check2() {
    let rules = parse("#e => +loaded.");
    let node = Node::new_with_rules(Some(rules));
    let condition = var_condition("loaded");
    let res = node.process_condition(&condition);
    assert!(res.is_ok());
    assert!(!res.unwrap());
}

/// A condition that was never mentioned is an error.
#[test]
fn process_action_check_error1() {
    let rules = parse("#e => +not_loaded.");
    let node = Node::new_with_rules(Some(rules));
    let condition = var_condition("loaded");
    let res = node.process_condition(&condition);
    assert!(res.is_err());
}

/// A compound production registers its rules but does not fire them.
#[test]
fn process_complex_atomic_condition1() {
    let rules = parse("#e => +{#f => +loaded.}. => #e.");
    let node = Node::new_with_rules(Some(rules));
    let condition = var_condition("loaded");
    let res = node.process_condition(&condition);
    assert!(res.is_ok());
    assert!(!res.unwrap());
}

/// Firing the inner event after the compound production applies it.
#[test]
fn process_complex_atomic_condition2() {
    let rules = parse("#e => +{#f => +loaded.}. => #e. => #f.");
    let node = Node::new_with_rules(Some(rules));
    let condition = var_condition("loaded");
    let res = node.process_condition(&condition);
    assert!(res.is_ok());
    assert!(res.unwrap());
}

/// Producing an alias runs its bundle's case rules.
#[test]
fn process_complex_atomic_condition_alias1() {
    let rules = parse("{=> +loaded.} as r. => +r.");
    let node = Node::new_with_rules(Some(rules));
    let condition = var_condition("loaded");
    let res = node.process_condition(&condition);
    assert!(res.is_ok());
    assert!(res.unwrap());
}

/// The later of two alias productions wins.
#[test]
fn process_complex_atomic_condition_alias2() {
    let rules = parse("{=> +loaded.} as r1. {=> -loaded.} as r2. => +r1. => +r2.");
    let node = Node::new_with_rules(Some(rules));
    let condition = var_condition("loaded");
    let res = node.process_condition(&condition);
    assert!(res.is_ok());
    assert!(!res.unwrap());
}

/// An activated alias lets its trigger fire.
#[test]
fn process_complex_atomic_condition_alias3_1() {
    let rules = parse("=> +{#e => +action.} as r. => #e.");
    let node = Node::new_with_rules(Some(rules));
    let condition = var_condition("action");
    let res = node.process_condition(&condition);
    assert!(res.is_ok());
    assert!(res.unwrap());
}

/// A deactivated alias silences its trigger.
#[test]
fn process_complex_atomic_condition_alias3_2() {
    let rules = parse("=> +{#e => +action.} as r. => -r. => #e.");
    let node = Node::new_with_rules(Some(rules));
    let condition = var_condition("action");
    let res = node.process_condition(&condition);
    assert!(res.is_ok());
    assert!(!res.unwrap());
}

/// An alias that is only declared does not run its case rules.
#[test]
fn process_complex_atomic_condition_alias_err1() {
    let rules = parse("{=> +loaded.} as r.");
    let node = Node::new_with_rules(Some(rules));
    let condition = var_condition("loaded");
    let res = node.process_condition(&condition);
    assert!(res.is_ok());
    assert!(!res.unwrap());
}

/// Deactivating the alias before its event leaves the action unapplied.
#[test]
fn process_complex_atomic_condition_alias4() {
    let rules = parse("#e => +{#f => +loaded.} as r. => #e. => -r. => #f.");
    let node = Node::new_with_rules(Some(rules));
    let condition = var_condition("loaded");
    let res = node.process_condition(&condition);
    assert!(res.is_ok());
    assert!(!res.unwrap());
}

/// Reactivating the alias lets its event apply the action.
#[test]
fn process_complex_atomic_condition_alias5() {
    let rules = parse("#e => +{#f => +loaded.} as r. => #e. => +r. => #f.");
    let node = Node::new_with_rules(Some(rules));
    let condition = var_condition("loaded");
    let res = node.process_condition(&condition);
    assert!(res.is_ok());
    assert!(res.unwrap());
}

/// A primitive fact rule defaults to true.
#[test]
fn test_fact_primitive() {
    let rules = parse("loaded.");
    let node = Node::new_with_rules(Some(rules));
    let condition = var_condition("loaded");
    let res = node.process_condition(&condition);
    assert!(res.is_ok());
    assert!(res.unwrap());
}

/// A compound fact rule defaults to false.
#[test]
fn test_fact_compound() {
    let rules = parse("{#e => #a.} as r.");
    let node = Node::new_with_rules(Some(rules));
    let condition = AtomicCondition::Compound(Compound {
        rules: vec![Rule::Reactive(ReactiveRule::ECA {
            event: PrimitiveEvent::Trigger("e".to_string()),
            condition: None,
            action: Action::Primitive(PrimitiveEvent::Trigger("a".to_string())),
        })],
        alias: Some("r".to_string()),
    });
    let res = node.get_atomic_condition(&condition, None);
    assert!(res.is_ok());
    assert_eq!(res.unwrap(), ActivationStatus::False);
}

/// Consuming one rule through a namespace-qualified compound turns only
/// that rule off.
#[test]
fn test_fact_sub_compound1() {
    let rules = parse("=> +{#e => #a1. #e => #a2.} as r.");
    let mut node = Node::new_with_rules(Some(rules));
    let more_rules: Vec<RuleWithArgs> = parse("=> -r.{#e => #a2.}.")
        .into_iter()
        .filter_map(|r| {
            if let Rule::Case(cr) = r {
                Some(RuleWithArgs::Case(cr))
            } else {
                None
            }
        })
        .collect();

    let condition1 = AtomicCondition::Compound(Compound {
        rules: vec![Rule::Reactive(ReactiveRule::ECA {
            event: PrimitiveEvent::Trigger("e".to_string()),
            condition: None,
            action: Action::Primitive(PrimitiveEvent::Trigger("a1".to_string())),
        })],
        alias: Some("r".to_string()),
    });
    let condition2 = AtomicCondition::Compound(Compound {
        rules: vec![Rule::Reactive(ReactiveRule::ECA {
            event: PrimitiveEvent::Trigger("e".to_string()),
            condition: None,
            action: Action::Primitive(PrimitiveEvent::Trigger("a2".to_string())),
        })],
        alias: Some("r".to_string()),
    });

    let res = node.get_atomic_condition(&condition1, None);
    assert!(res.is_ok());
    assert_eq!(res.unwrap(), ActivationStatus::True);

    let res = node.get_atomic_condition(&condition2, None);
    assert!(res.is_ok());
    assert_eq!(res.unwrap(), ActivationStatus::True);

    node.new_rules(&more_rules).unwrap();

    let res = node.get_atomic_condition(&condition1, None);
    assert!(res.is_ok());
    assert_eq!(res.unwrap(), ActivationStatus::True);

    let res = node.get_atomic_condition(&condition2, None);
    assert!(res.is_ok());
    assert_eq!(res.unwrap(), ActivationStatus::False);
}

/// An unqualified compound consumption does not reach the alias.
#[test]
fn test_fact_sub_compound2() {
    let rules = parse("=> +{#e => #a1. #e => #a2.} as r.");
    let mut node = Node::new_with_rules(Some(rules));
    let more_rules: Vec<RuleWithArgs> = parse("=> -{#e => #a2.}.")
        .into_iter()
        .filter_map(|r| {
            if let Rule::Case(cr) = r {
                Some(RuleWithArgs::Case(cr))
            } else {
                None
            }
        })
        .collect();

    let condition1 = AtomicCondition::Compound(Compound {
        rules: vec![Rule::Reactive(ReactiveRule::ECA {
            event: PrimitiveEvent::Trigger("e".to_string()),
            condition: None,
            action: Action::Primitive(PrimitiveEvent::Trigger("a1".to_string())),
        })],
        alias: Some("r".to_string()),
    });
    let condition2 = AtomicCondition::Compound(Compound {
        rules: vec![Rule::Reactive(ReactiveRule::ECA {
            event: PrimitiveEvent::Trigger("e".to_string()),
            condition: None,
            action: Action::Primitive(PrimitiveEvent::Trigger("a2".to_string())),
        })],
        alias: Some("r".to_string()),
    });

    let res = node.get_atomic_condition(&condition1, None);
    assert!(res.is_ok());
    assert_eq!(res.unwrap(), ActivationStatus::True);

    let res = node.get_atomic_condition(&condition2, None);
    assert!(res.is_ok());
    assert_eq!(res.unwrap(), ActivationStatus::True);

    node.new_rules(&more_rules).unwrap();

    let res = node.get_atomic_condition(&condition1, None);
    assert!(res.is_ok());
    assert_eq!(res.unwrap(), ActivationStatus::True);

    let res = node.get_atomic_condition(&condition2, None);
    assert!(res.is_ok());
    assert_eq!(res.unwrap(), ActivationStatus::True);
}

/// A sequence of compound productions registers all three handlers.
#[test]
fn test_action_list_sequence_simple() {
    let rules = parse("=> +{#e1=>+a1.}; +{#e2=>+a2.}; +{#e3=>+a3.}.");
    let node = Node::new_with_rules(Some(rules));
    let node_rules = node.get_rules(false);
    assert_eq!(node_rules.len(), 3);
}

/// A parallel list of compound productions registers all three handlers.
#[test]
fn test_action_list_parallel_simple() {
    let rules = parse("=> +{#e1=>+a1.}, +{#e2=>+a2.}, +{#e3=>+a3.}.");
    let node = Node::new_with_rules(Some(rules));
    let node_rules = node.get_rules(false);
    assert_eq!(node_rules.len(), 3);
}

/// Mutually exclusive guarded rules: at least one action applies.
#[test]
fn test_action_list_parallel() {
    let rules = parse(
        "=> +{#e1: not (a2 or a3) => +a1.}. => +{#e2: not (a1 or a3) => +a2.}. => +{#e3: not (a1 or a2) => +a3.}.",
    );
    let mut node = Node::new_with_rules(Some(rules));
    let more_rules: Vec<RuleWithArgs> = parse("=> #e1, #e2, #e3.")
        .into_iter()
        .filter_map(|r| {
            if let Rule::Case(cr) = r {
                Some(RuleWithArgs::Case(cr))
            } else {
                None
            }
        })
        .collect();
    let r = node.new_rules(&more_rules);
    assert!(r.is_ok());

    let res1 = node.process_condition(&var_condition("a1")).unwrap();
    let res2 = node.process_condition(&var_condition("a2")).unwrap();
    let res3 = node.process_condition(&var_condition("a3")).unwrap();
    assert!(res1 || res2 || res3, "at least one action should be true");
}

/// An alternative of compound productions registers exactly one handler
/// as active.
#[test]
fn test_action_list_alternate_simple() {
    let rules = parse("=> +{#e1=>+a1.} alt +{#e2=>+a2.} alt +{#e3=>+a3.}.");
    let node = Node::new_with_rules(Some(rules));
    let node_rules = node.get_rules(false);
    assert_eq!(node_rules.len(), 1);
}
