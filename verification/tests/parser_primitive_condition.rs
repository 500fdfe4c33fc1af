use cl0::ast::PrimitiveCondition;
use cl0::lexer::lexer;
use cl0::parser::primitive_condition_parser;

/// Assert that the parser succeeds on `src` and returns exactly `want`.
fn assert_parses_to(src: &str, want: PrimitiveCondition) {
    let tokens = lexer(src).expect("lexer errors");
    let got = primitive_condition_parser(&tokens).expect("expected parse success");
    assert_eq!(got, want);
}

/// Assert that the parser fails (or leaves unconsumed tokens).
fn assert_fails(src: &str) {
    let tokens = lexer(src).expect("lexer errors");
    assert!(primitive_condition_parser(&tokens).is_err(), "expected parse to fail on {:?}", src);
}

#[test]
fn primitive_condition_atomic_var() {
    assert_parses_to("foo", PrimitiveCondition::Var("foo".to_string()));
}

#[test]
fn primitive_condition_atomic_var_fail() {
    assert_fails("foo foo");
}
