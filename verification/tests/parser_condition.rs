use cl0::ast::{AtomicCondition, Condition, PrimitiveCondition};
use cl0::lexer::lexer;
use cl0::parser::condition_parser;

fn var(name: &str) -> Condition {
    Condition::Atomic(AtomicCondition::Primitive(PrimitiveCondition::Var(name.to_string())))
}

/// Assert that the parser succeeds on `src` and returns exactly `want`.
fn assert_parses_to(src: &str, want: Condition) {
    let tokens = lexer(src).expect("lexer errors");
    let got = condition_parser(&tokens).expect("expected parse success");
    assert_eq!(got, want);
}

/// Assert that the parser fails (or leaves unconsumed tokens).
fn assert_fails(src: &str) {
    let tokens = lexer(src).expect("lexer errors");
    assert!(condition_parser(&tokens).is_err(), "expected parse to fail on {:?}", src);
}

#[test]
fn create_valid_atomic_condition() {
    assert_parses_to("condition", var("condition"));
}

#[test]
fn create_valid_atomic_condition_fail() {
    assert_fails("condition condition");
}

#[test]
fn create_valid_not_condition() {
    assert_parses_to("not condition", Condition::Not(Box::new(var("condition"))));
}

#[test]
fn create_valid_not_condition_fail() {
    assert_fails("not condition not condition");
}

#[test]
fn create_valid_not_not_condition() {
    assert_parses_to(
        "not not condition",
        Condition::Not(Box::new(Condition::Not(Box::new(var("condition"))))),
    );
}

#[test]
fn create_valid_not_not_condition_fail() {
    assert_fails("not not condition condition");
}

#[test]
fn create_valid_parentheses_condition() {
    assert_parses_to("(condition)", Condition::Parentheses(Box::new(var("condition"))));
}

#[test]
fn create_valid_parentheses_condition_fail() {
    assert_fails("(condition)(condition)");
}

#[test]
fn create_complex_valid_parentheses_condition() {
    assert_parses_to(
        "(not condition)",
        Condition::Parentheses(Box::new(Condition::Not(Box::new(var("condition"))))),
    );
}

#[test]
fn create_valid_conjunction_condition() {
    assert_parses_to("a , b", Condition::Conjunction(vec![var("a"), var("b")]));
}

#[test]
fn create_valid_conjunction_condition_keyword() {
    assert_parses_to("a and b", Condition::Conjunction(vec![var("a"), var("b")]));
}

#[test]
fn create_valid_conjunction_condition_keyword_trailing() {
    assert_fails("a and b and");
}

#[test]
fn create_valid_conjunction_condition_keyword_leading() {
    assert_fails("and a and b");
}

#[test]
fn create_valid_disjunction_condition_keyword_trailing() {
    assert_fails("a or b or");
}

#[test]
fn create_valid_disjunction_condition_keyword_leading() {
    assert_fails("or a or b");
}

#[test]
fn create_valid_long_conjunction_condition() {
    assert_parses_to(
        "a , b, c , d,e",
        Condition::Conjunction(vec![var("a"), var("b"), var("c"), var("d"), var("e")]),
    );
}

#[test]
fn create_valid_disjunction_condition() {
    assert_parses_to("a ; b", Condition::Disjunction(vec![var("a"), var("b")]));
}

#[test]
fn create_valid_disjunction_condition_keyword() {
    assert_parses_to("a or b", Condition::Disjunction(vec![var("a"), var("b")]));
}

#[test]
fn create_valid_long_disjunction_condition() {
    assert_parses_to(
        "a ; b; c ; d;e",
        Condition::Disjunction(vec![var("a"), var("b"), var("c"), var("d"), var("e")]),
    );
}

#[test]
fn create_valid_order_ops_conjunction_disjunction_condition() {
    assert_parses_to(
        "a , b ; c , d; e, f",
        Condition::Disjunction(vec![
            Condition::Conjunction(vec![var("a"), var("b")]),
            Condition::Conjunction(vec![var("c"), var("d")]),
            Condition::Conjunction(vec![var("e"), var("f")]),
        ]),
    );
}

#[test]
fn create_valid_order_ops_parentheses_conjunction_disjunction_condition() {
    assert_parses_to(
        "(a ; b) , (c ; d), (e; f)",
        Condition::Conjunction(vec![
            Condition::Parentheses(Box::new(Condition::Disjunction(vec![var("a"), var("b")]))),
            Condition::Parentheses(Box::new(Condition::Disjunction(vec![var("c"), var("d")]))),
            Condition::Parentheses(Box::new(Condition::Disjunction(vec![var("e"), var("f")]))),
        ]),
    );
}

#[test]
fn create_not_with_parentheses_condition() {
    assert_parses_to(
        "not (condition)",
        Condition::Not(Box::new(Condition::Parentheses(Box::new(var("condition"))))),
    );
}

#[test]
fn create_not_with_parentheses_complex_condition() {
    assert_parses_to(
        "not a and b",
        Condition::Conjunction(vec![Condition::Not(Box::new(var("a"))), var("b")]),
    );
}

#[test]
fn create_not_with_parentheses_complex_condition2() {
    assert_parses_to(
        "a and not b",
        Condition::Conjunction(vec![var("a"), Condition::Not(Box::new(var("b")))]),
    );
}

#[test]
fn condition_empty_fail() {
    assert_fails("");
}
