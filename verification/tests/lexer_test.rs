use cl0::lexer::lexer;
use cl0::token::Token;

#[test]
fn lexer_test_test_basic_lexer() {
    let input = "#click => a; b % comment here #";
    let tokens = lexer(input).unwrap();

    assert_eq!(
        tokens,
        vec![
            Token::Hash,
            Token::Descriptor("click".to_string()),
            Token::FatArrow,
            Token::Descriptor("a".to_string()),
            Token::Semicolon,
            Token::Descriptor("b".to_string()),
        ]
    );
}

#[test]
fn negate_condition() {
    let input = "not condition";
    let tokens = lexer(input).unwrap();

    assert_eq!(tokens, vec![Token::Not, Token::Descriptor("condition".to_string())]);
}

#[test]
fn dot_vs_endrule1() {
    let input = "not condition.";
    let tokens = lexer(input).unwrap();

    assert_eq!(
        tokens,
        vec![Token::Not, Token::Descriptor("condition".to_string()), Token::EndRule]
    );
}

#[test]
fn dot_vs_endrule2() {
    let input = "not condition.test";
    let tokens = lexer(input).unwrap();

    assert_eq!(
        tokens,
        vec![
            Token::Not,
            Token::Descriptor("condition".to_string()),
            Token::Dot,
            Token::Descriptor("test".to_string())
        ]
    );
}

#[test]
fn dot_vs_endrule3() {
    let input = "not condition. ";
    let tokens = lexer(input).unwrap();

    assert_eq!(
        tokens,
        vec![Token::Not, Token::Descriptor("condition".to_string()), Token::EndRule]
    );
}

#[test]
fn dot_vs_endrule4() {
    let input = "not condition.{";
    let tokens = lexer(input).unwrap();

    assert_eq!(
        tokens,
        vec![
            Token::Not,
            Token::Descriptor("condition".to_string()),
            Token::Dot,
            Token::LeftCBracket
        ]
    );
}

#[test]
fn lexer_rejects_oversized_number() {
    assert!(lexer("999").is_err());
}

#[test]
fn lexer_keywords_and_symbols() {
    let tokens = lexer("seq par alt and or as @ ( ) { } , : ; + - => -> -o 7").unwrap();
    assert_eq!(
        tokens,
        vec![
            Token::SeqKw,
            Token::Par,
            Token::Alt,
            Token::And,
            Token::Or,
            Token::As,
            Token::At,
            Token::LeftParenthesis,
            Token::RightParenthesis,
            Token::LeftCBracket,
            Token::RightCBracket,
            Token::Comma,
            Token::Colon,
            Token::Semicolon,
            Token::Plus,
            Token::Minus,
            Token::FatArrow,
            Token::ThinArrow,
            Token::DashO,
            Token::Number(7),
        ]
    );
}
