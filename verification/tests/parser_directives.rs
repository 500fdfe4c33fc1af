use cl0::ast::{AtomicCondition, Compound, Directive, FactRule, PrimitiveCondition, Rule};
use cl0::lexer::lexer;
use cl0::parser::directive_parser;

/// Assert that the parser succeeds on `src` and returns exactly `want`.
fn assert_parses_to(src: &str, want: Directive) {
    let tokens = lexer(src).expect("lexer errors");
    let got = directive_parser(&tokens).expect("expected parse success");
    assert_eq!(got, want);
}

/// Assert that the parser fails (or leaves unconsumed tokens).
fn assert_fails(src: &str) {
    let tokens = lexer(src).expect("lexer errors");
    assert!(directive_parser(&tokens).is_err(), "expected parse to fail on {:?}", src);
}

#[test]
fn create_valid_directive_scale() {
    assert_parses_to(
        "@scale(4){f.}",
        Directive::Scale {
            number: 4,
            policy: Compound {
                rules: vec![Rule::Fact(FactRule {
                    condition: AtomicCondition::Primitive(PrimitiveCondition::Var(
                        "f".to_string(),
                    )),
                })],
                alias: None,
            },
        },
    );
}

#[test]
fn create_valid_directive_scale_fail() {
    assert_fails("@scale(test){f.}");
}

#[test]
fn directive_include() {
    assert_parses_to("@include(base)", Directive::Include("base".to_string()));
}

#[test]
fn directive_exclude() {
    assert_parses_to("@exclude(base)", Directive::Exclude("base".to_string()));
}

#[test]
fn directive_interleaving() {
    assert_parses_to("@interleaving", Directive::Interleaving);
}

#[test]
fn directive_external_var() {
    assert_parses_to("@external(x)", Directive::ExternalVar("x".to_string()));
}

#[test]
fn directive_external_event() {
    assert_parses_to(
        "@external(#boom)",
        Directive::ExternalEvent(cl0::ast::PrimitiveEvent::Trigger("boom".to_string())),
    );
}
