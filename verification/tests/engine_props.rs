use cl0::ast::{Action, ActionList, AtomicCondition, Compound, Condition, PrimitiveCondition, Rule};
use cl0::errors::EngineError;
use cl0::lex_and_parse;
use cl0::lex_and_parse_compound;
use cl0::lex_and_parse_safe;
use cl0::node::Node;
use cl0::types::ActivationStatus;
use cl0::utils::{get_parts, overall_status_from_set};

fn parse(src: &str) -> Vec<Rule> {
    lex_and_parse(src).expect("source must parse")
}

fn var_condition(name: &str) -> Condition {
    Condition::Atomic(AtomicCondition::Primitive(PrimitiveCondition::Var(name.to_string())))
}

/// Printing a parsed rule and parsing the print yields the same rule.
fn assert_round_trip(src: &str) {
    let rules = parse(src);
    for rule in &rules {
        let printed = rule.to_text();
        let reparsed = parse(&printed);
        assert_eq!(reparsed.len(), 1, "round trip of {:?} via {:?}", src, printed);
        assert_eq!(&reparsed[0], rule, "round trip of {:?} via {:?}", src, printed);
    }
}

#[test]
fn round_trip_rule_forms() {
    assert_round_trip("#e: c => +a.");
    assert_round_trip("#e => +a.");
    assert_round_trip(": c => +a.");
    assert_round_trip("p -> c.");
    assert_round_trip("-> c.");
    assert_round_trip("p -o c.");
    assert_round_trip("-o c.");
    assert_round_trip("=> #a; #b.");
    assert_round_trip("c.");
}

#[test]
fn round_trip_compound_and_namespaces() {
    assert_round_trip("{ #e => +a. } as r.");
    assert_round_trip("{ a. b. }.");
    assert_round_trip("r.s.x.");
    assert_round_trip("=> +{#e => +a.} as r.");
    assert_round_trip("=> -r.{#e => #a2.}.");
}

#[test]
fn round_trip_conditions_and_actions() {
    assert_round_trip("#e: not (a or b) and c => +x.");
    assert_round_trip("#e: a and not b or c => +x.");
    assert_round_trip("=> +a; -b; #c.");
    assert_round_trip("=> +a, -b, #c.");
    assert_round_trip("=> +a alt -b alt #c.");
    assert_round_trip("=> #a par #b alt #c seq #d.");
}

#[test]
fn print_exact_text() {
    let rules = parse("#e: c => +a.");
    assert_eq!(rules[0].to_text(), "#e: c => +a.");
    let rules = parse("{=> +loaded.} as r.");
    assert_eq!(rules[0].to_text(), "{ => +loaded. } as r.");
    let rules = parse("p -o c.");
    assert_eq!(rules[0].to_text(), "p -o c.");
    let rules = parse("=> +a alt -b.");
    assert_eq!(rules[0].to_text(), "=> +a alt -b.");
}

#[test]
fn identifiers() {
    let rules = parse("#e: c => +a. : c => +a. x.");
    assert_eq!(rules[0].get_identifier(), Some("e".to_string()));
    assert_eq!(rules[1].get_identifier(), Some("".to_string()));
    assert_eq!(rules[2].get_identifier(), None);
}

/// A sequence starts (and here completes) its children in textual order:
/// the later write wins.
#[test]
fn sequence_order_later_write_wins() {
    let node = Node::new_with_rules(Some(parse("=> +loaded; -loaded.")));
    assert_eq!(node.process_condition(&var_condition("loaded")), Ok(false));

    let node = Node::new_with_rules(Some(parse("=> -loaded; +loaded.")));
    assert_eq!(node.process_condition(&var_condition("loaded")), Ok(true));
}

/// A parallel list also runs its children in textual order here.
#[test]
fn parallel_order_later_write_wins() {
    let node = Node::new_with_rules(Some(parse("=> +loaded, -loaded.")));
    assert_eq!(node.process_condition(&var_condition("loaded")), Ok(false));
}

/// Over many trials an alternative eventually selects every child.
#[test]
fn alternative_selects_every_child() {
    let mut seen = [false; 3];
    let mut k: usize = 0;
    while k < 300 {
        let node = Node::new_with_rules(Some(parse("=> +a1 alt +a2 alt +a3.")));
        let picks = [
            node.process_condition(&var_condition("a1")).unwrap(),
            node.process_condition(&var_condition("a2")).unwrap(),
            node.process_condition(&var_condition("a3")).unwrap(),
        ];
        let count = picks.iter().filter(|p| **p).count();
        assert_eq!(count, 1, "exactly one alternative child runs per trial");
        for i in 0..3 {
            if picks[i] {
                seen[i] = true;
            }
        }
        k += 1;
    }
    assert!(seen[0] && seen[1] && seen[2], "every child is eventually selected");
}

/// Exactly one of the mutually exclusive guarded rules applies.
#[test]
fn guarded_rules_exactly_one_applies() {
    let rules = parse(
        "=> +{#e1: not (a2 or a3) => +a1.}. => +{#e2: not (a1 or a3) => +a2.}. => +{#e3: not (a1 or a2) => +a3.}.",
    );
    let mut node = Node::new_with_rules(Some(rules));
    let more: Vec<cl0::types::RuleWithArgs> = parse("=> #e1, #e2, #e3.")
        .into_iter()
        .filter_map(|r| {
            if let Rule::Case(cr) = r {
                Some(cl0::types::RuleWithArgs::Case(cr))
            } else {
                None
            }
        })
        .collect();
    node.new_rules(&more).unwrap();
    let a1 = node.process_condition(&var_condition("a1")).unwrap();
    let a2 = node.process_condition(&var_condition("a2")).unwrap();
    let a3 = node.process_condition(&var_condition("a3")).unwrap();
    let count = [a1, a2, a3].iter().filter(|p| **p).count();
    assert_eq!(count, 1, "exactly one of the guarded actions applies");
}

#[test]
fn activation_status_coercions() {
    assert_eq!(ActivationStatus::True.as_option_bool(), Some(true));
    assert_eq!(ActivationStatus::False.as_option_bool(), Some(false));
    assert_eq!(ActivationStatus::Conflict.as_option_bool(), None);
    assert_eq!(ActivationStatus::True.to_bool(), Ok(true));
    assert_eq!(ActivationStatus::False.to_bool(), Ok(false));
    assert_eq!(ActivationStatus::Conflict.to_bool(), Err(EngineError::AmbiguousValue));
}

#[test]
fn overall_status_aggregation() {
    assert_eq!(overall_status_from_set(&vec![]), ActivationStatus::True);
    assert_eq!(
        overall_status_from_set(&vec![ActivationStatus::True, ActivationStatus::True]),
        ActivationStatus::True
    );
    assert_eq!(
        overall_status_from_set(&vec![ActivationStatus::True, ActivationStatus::False]),
        ActivationStatus::False
    );
    assert_eq!(
        overall_status_from_set(&vec![
            ActivationStatus::False,
            ActivationStatus::Conflict,
            ActivationStatus::True
        ]),
        ActivationStatus::Conflict
    );
}

#[test]
fn path_parts() {
    let path = vec!["r".to_string(), "s".to_string(), "t".to_string()];
    let (head, tail, full) = get_parts(path.clone());
    assert_eq!(head, "r".to_string());
    assert_eq!(tail, vec!["s".to_string(), "t".to_string()]);
    assert_eq!(full, path);
}

#[test]
fn error_variants() {
    // a trigger with no handler
    let mut node = Node::new_with_rules(None);
    let trigger = Action::Primitive(cl0::ast::PrimitiveEvent::Trigger("ghostly".to_string()));
    assert_eq!(node.process_action(&trigger), Err(EngineError::HandlerMissing));

    // an empty alternative
    let empty = Action::List(ActionList::Alternative(vec![]));
    assert_eq!(node.process_action(&empty), Err(EngineError::EmptyAlternative));

    // storing an ambiguous value
    let prim = AtomicCondition::Primitive(PrimitiveCondition::Var("x".to_string()));
    assert_eq!(
        node.store_atomic_condition(&prim, ActivationStatus::Conflict, None, true),
        Err(EngineError::ConflictAssignment)
    );

    // reading a compound from the main namespace
    let main_compound = AtomicCondition::Compound(Compound { rules: vec![], alias: None });
    assert_eq!(
        node.get_atomic_condition(&main_compound, None),
        Err(EngineError::MainNamespaceRead)
    );

    // reading a compound under a namespace nobody created
    let named = AtomicCondition::Compound(Compound {
        rules: vec![],
        alias: Some("missing".to_string()),
    });
    assert_eq!(
        node.get_atomic_condition(&named, None),
        Err(EngineError::NamespaceMissing)
    );
}

#[test]
fn safe_parse_surfaces() {
    assert!(lex_and_parse_safe("=> +loaded.").is_ok());
    assert!(lex_and_parse_safe("=> +loaded").is_err());
    let compound = lex_and_parse_compound("{ a. } as r").unwrap();
    assert_eq!(compound.alias, Some("r".to_string()));
    assert_eq!(compound.rules.len(), 1);
    assert!(lex_and_parse_compound("a.").is_err());
}

/// The empty-string identifier groups every guard-only rule under one
/// handler.
#[test]
fn ca_rules_share_one_handler() {
    let rules = parse("x. : x => +p. : x => +q.");
    let node = Node::new_with_rules(Some(rules));
    assert_eq!(node.event_handlers.len(), 1);
    assert_eq!(node.get_rules(false).len(), 2);
}

/// Every primitive variable mentioned anywhere starts out present, and
/// without fact or case rules it stays false.
#[test]
fn atomic_init_mentions_present() {
    let rules = parse("#e: p and not q => +r, -s.");
    let node = Node::new_with_rules(Some(rules));
    for name in ["p", "q", "r", "s"] {
        let got = node
            .get_atomic_condition(
                &AtomicCondition::Primitive(PrimitiveCondition::Var(name.to_string())),
                None,
            )
            .unwrap();
        assert_eq!(got, ActivationStatus::False, "variable {:?}", name);
    }
}
