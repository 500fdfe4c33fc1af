use cl0::ast::{Action, AtomicCondition, Compound, PrimitiveCondition, PrimitiveEvent, ReactiveRule, Rule};
use cl0::lexer::lexer;
use cl0::parser::compound_parser;

/// Assert that the parser succeeds on `src` and returns exactly `want`.
fn assert_parses_to(src: &str, want: Compound) {
    let tokens = lexer(src).expect("lexer errors");
    let got = compound_parser(&tokens).expect("expected parse success");
    assert_eq!(got, want);
}

/// Assert that the parser fails (or leaves unconsumed tokens).
fn assert_fails(src: &str) {
    let tokens = lexer(src).expect("lexer errors");
    assert!(compound_parser(&tokens).is_err(), "expected parse to fail on {:?}", src);
}

#[test]
fn create_valid_compound() {
    assert_parses_to(
        "{ #event => +a. }",
        Compound {
            rules: vec![Rule::Reactive(ReactiveRule::ECA {
                event: PrimitiveEvent::Trigger("event".to_string()),
                condition: None,
                action: Action::Primitive(PrimitiveEvent::Production(AtomicCondition::Primitive(
                    PrimitiveCondition::Var("a".to_string()),
                ))),
            })],
            alias: None,
        },
    );
}

#[test]
fn create_valid_compound_with_alias() {
    assert_parses_to(
        "{ #event => +a. } as alias",
        Compound {
            rules: vec![Rule::Reactive(ReactiveRule::ECA {
                event: PrimitiveEvent::Trigger("event".to_string()),
                condition: None,
                action: Action::Primitive(PrimitiveEvent::Production(AtomicCondition::Primitive(
                    PrimitiveCondition::Var("a".to_string()),
                ))),
            })],
            alias: Some("alias".to_string()),
        },
    );
}

#[test]
fn compound_empty_fail() {
    assert_fails("");
}
