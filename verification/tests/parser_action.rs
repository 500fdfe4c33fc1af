use cl0::ast::{Action, ActionList, AtomicCondition, PrimitiveCondition, PrimitiveEvent};
use cl0::lexer::lexer;
use cl0::parser::action_parser;

fn production(name: &str) -> Action {
    Action::Primitive(PrimitiveEvent::Production(AtomicCondition::Primitive(
        PrimitiveCondition::Var(name.to_string()),
    )))
}

fn consumption(name: &str) -> Action {
    Action::Primitive(PrimitiveEvent::Consumption(AtomicCondition::Primitive(
        PrimitiveCondition::Var(name.to_string()),
    )))
}

fn trigger(name: &str) -> Action {
    Action::Primitive(PrimitiveEvent::Trigger(name.to_string()))
}

/// Assert that the parser succeeds on `src` and returns exactly `want`.
fn assert_parses_to(src: &str, want: Action) {
    let tokens = lexer(src).expect("lexer errors");
    let got = action_parser(&tokens).expect("expected parse success");
    assert_eq!(got, want);
}

/// Assert that the parser fails (or leaves unconsumed tokens).
fn assert_fails(src: &str) {
    let tokens = lexer(src).expect("lexer errors");
    assert!(action_parser(&tokens).is_err(), "expected parse to fail on {:?}", src);
}

#[test]
fn action_create_valid_primitive_action() {
    assert_parses_to("+primitive", production("primitive"));
}

#[test]
fn action_create_valid_primitive_action_fail() {
    assert_fails("+primitive +primitive");
}

#[test]
fn action_simple_create_valid_list_action_seq() {
    assert_parses_to(
        "+a; #b",
        Action::List(ActionList::Sequence(vec![production("a"), trigger("b")])),
    );
}

#[test]
fn simple_create_valid_list_action_seq_trailing() {
    assert_parses_to(
        "+a; #b;",
        Action::List(ActionList::Sequence(vec![production("a"), trigger("b")])),
    );
}

#[test]
fn simple_create_valid_list_action_seq_keyword() {
    assert_parses_to(
        "+a seq #b",
        Action::List(ActionList::Sequence(vec![production("a"), trigger("b")])),
    );
}

#[test]
fn create_valid_list_action_seq() {
    assert_parses_to(
        "+a; #b;-c;-d;  #e; +f",
        Action::List(ActionList::Sequence(vec![
            production("a"),
            trigger("b"),
            consumption("c"),
            consumption("d"),
            trigger("e"),
            production("f"),
        ])),
    );
}

#[test]
fn simple_create_valid_list_action_par() {
    assert_parses_to(
        "+a, #b",
        Action::List(ActionList::Parallel(vec![production("a"), trigger("b")])),
    );
}

#[test]
fn simple_create_valid_list_action_par_keyword() {
    assert_parses_to(
        "+a par #b",
        Action::List(ActionList::Parallel(vec![production("a"), trigger("b")])),
    );
}

#[test]
fn create_valid_list_action_par() {
    assert_parses_to(
        "+a, #b,-c,-d,  #e, +f",
        Action::List(ActionList::Parallel(vec![
            production("a"),
            trigger("b"),
            consumption("c"),
            consumption("d"),
            trigger("e"),
            production("f"),
        ])),
    );
}

#[test]
fn simple_create_valid_list_action_alt() {
    assert_parses_to(
        "+a alt #b",
        Action::List(ActionList::Alternative(vec![production("a"), trigger("b")])),
    );
}

#[test]
fn create_valid_list_action_alt() {
    assert_parses_to(
        "+a alt #b alt -c alt -d alt  #e alt +f",
        Action::List(ActionList::Alternative(vec![
            production("a"),
            trigger("b"),
            consumption("c"),
            consumption("d"),
            trigger("e"),
            production("f"),
        ])),
    );
}

#[test]
fn create_valid_list_action_order_of_ops() {
    assert_parses_to(
        "#a par #b alt #c par #d seq #e par #f alt #g par #h",
        Action::List(ActionList::Sequence(vec![
            Action::List(ActionList::Alternative(vec![
                Action::List(ActionList::Parallel(vec![trigger("a"), trigger("b")])),
                Action::List(ActionList::Parallel(vec![trigger("c"), trigger("d")])),
            ])),
            Action::List(ActionList::Alternative(vec![
                Action::List(ActionList::Parallel(vec![trigger("e"), trigger("f")])),
                Action::List(ActionList::Parallel(vec![trigger("g"), trigger("h")])),
            ])),
        ])),
    );
}

#[test]
fn action_empty_fail() {
    assert_fails("");
}
