use cl0::ast::{AtomicCondition, Compound, FactRule, PrimitiveCondition, Rule};
use cl0::lexer::lexer;
use cl0::parser::atomic_condition_parser;

/// Assert that the parser succeeds on `src` and returns exactly `want`.
fn assert_parses_to(src: &str, want: AtomicCondition) {
    let tokens = lexer(src).expect("lexer errors");
    let got = atomic_condition_parser(&tokens).expect("expected parse success");
    assert_eq!(got, want);
}

/// Assert that the parser fails (or leaves unconsumed tokens).
fn assert_fails(src: &str) {
    let tokens = lexer(src).expect("lexer errors");
    assert!(atomic_condition_parser(&tokens).is_err(), "expected parse to fail on {:?}", src);
}

#[test]
fn atomic_condition_atomic_var() {
    assert_parses_to(
        "foo",
        AtomicCondition::Primitive(PrimitiveCondition::Var("foo".to_string())),
    );
}

#[test]
fn atomic_condition_atomic_var_fail() {
    assert_fails("foo foo");
}

#[test]
fn atomic_var_compound_with_alias() {
    assert_parses_to(
        "{ test. } as alias",
        AtomicCondition::Compound(Compound {
            rules: vec![Rule::Fact(FactRule {
                condition: AtomicCondition::Primitive(PrimitiveCondition::Var("test".to_string())),
            })],
            alias: Some("alias".to_string()),
        }),
    );
}

#[test]
fn atomic_var_sub_compound() {
    assert_parses_to(
        "r.{ test. }",
        AtomicCondition::SubCompound {
            namespace: "r".to_string(),
            condition: Box::new(AtomicCondition::Compound(Compound {
                rules: vec![Rule::Fact(FactRule {
                    condition: AtomicCondition::Primitive(PrimitiveCondition::Var(
                        "test".to_string(),
                    )),
                })],
                alias: None,
            })),
        },
    );
}

#[test]
fn atomic_var_sub_sub_compound() {
    assert_parses_to(
        "r.s.{ test. } as a",
        AtomicCondition::SubCompound {
            namespace: "r".to_string(),
            condition: Box::new(AtomicCondition::SubCompound {
                namespace: "s".to_string(),
                condition: Box::new(AtomicCondition::Compound(Compound {
                    rules: vec![Rule::Fact(FactRule {
                        condition: AtomicCondition::Primitive(PrimitiveCondition::Var(
                            "test".to_string(),
                        )),
                    })],
                    alias: Some("a".to_string()),
                })),
            }),
        },
    );
}
