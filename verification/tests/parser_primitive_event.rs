use cl0::ast::{AtomicCondition, PrimitiveCondition, PrimitiveEvent};
use cl0::lexer::lexer;
use cl0::parser::primitive_event_parser;

/// Assert that the parser succeeds on `src` and returns exactly `want`.
fn assert_parses_to(src: &str, want: PrimitiveEvent) {
    let tokens = lexer(src).expect("lexer errors");
    let got = primitive_event_parser(&tokens).expect("expected parse success");
    assert_eq!(got, want);
}

/// Assert that the parser fails (or leaves unconsumed tokens).
fn assert_fails(src: &str) {
    let tokens = lexer(src).expect("lexer errors");
    assert!(primitive_event_parser(&tokens).is_err(), "expected parse to fail on {:?}", src);
}

#[test]
fn create_valid_trigger() {
    assert_parses_to("#trigger", PrimitiveEvent::Trigger("trigger".to_string()));
}

#[test]
fn create_valid_trigger_fail() {
    assert_fails("#trigger #trigger");
}

#[test]
fn create_valid_production() {
    assert_parses_to(
        "+produce",
        PrimitiveEvent::Production(AtomicCondition::Primitive(PrimitiveCondition::Var(
            "produce".to_string(),
        ))),
    );
}

#[test]
fn create_valid_production_fail() {
    assert_fails("+produce +produce");
}

#[test]
fn create_valid_consumption() {
    assert_parses_to(
        "-consume",
        PrimitiveEvent::Consumption(AtomicCondition::Primitive(PrimitiveCondition::Var(
            "consume".to_string(),
        ))),
    );
}

#[test]
fn create_valid_consumption_production_fail() {
    assert_fails("-+consume");
}

#[test]
fn primitive_event_empty_fail() {
    assert_fails("");
}
