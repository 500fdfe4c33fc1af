//! Tokens of the surface language, produced by the lexer and consumed by
//! the parser.

use vstd::prelude::*;

verus! {

/// The token model: descriptors become `Seq<char>`.
pub enum TokenView {
    Hash,
    Colon,
    Semicolon,
    SeqKw,
    Par,
    Alt,
    LeftParenthesis,
    RightParenthesis,
    LeftCBracket,
    RightCBracket,
    Comma,
    And,
    Or,
    Not,
    Plus,
    Minus,
    Dot,
    EndRule,
    DashO,
    FatArrow,
    ThinArrow,
    Descriptor(Seq<char>),
    Number(u8),
    At,
    As,
}

/// A token.  A `.` followed by an alphanumeric character or `{` is a
/// qualified-name dot; any other `.` ends a rule.
#[derive(Debug, PartialEq, Eq)]
pub enum Token {
    /// `#`, marking an event name.
    Hash,
    /// `:`, introducing a guard condition.
    Colon,
    /// `;`, sequencing actions or separating disjuncts.
    Semicolon,
    /// The `seq` keyword.
    SeqKw,
    /// The `par` keyword.
    Par,
    /// The `alt` keyword.
    Alt,
    LeftParenthesis,
    RightParenthesis,
    LeftCBracket,
    RightCBracket,
    /// `,`, separating conjuncts or parallel actions.
    Comma,
    /// The `and` keyword.
    And,
    /// The `or` keyword.
    Or,
    /// The `not` keyword.
    Not,
    /// `+`, a production event.
    Plus,
    /// `-`, a consumption event.
    Minus,
    /// `.` used in a qualified name.
    Dot,
    /// `.` ending a rule.
    EndRule,
    /// `-o`, the linear-implication arrow.
    DashO,
    /// `=>`.
    FatArrow,
    /// `->`.
    ThinArrow,
    /// An identifier.
    Descriptor(String),
    /// An integer literal.
    Number(u8),
    /// `@`, starting a directive.
    At,
    /// The `as` keyword.
    As,
}

pub open spec fn token_view(t: Token) -> TokenView {
    match t {
        Token::Hash => TokenView::Hash,
        Token::Colon => TokenView::Colon,
        Token::Semicolon => TokenView::Semicolon,
        Token::SeqKw => TokenView::SeqKw,
        Token::Par => TokenView::Par,
        Token::Alt => TokenView::Alt,
        Token::LeftParenthesis => TokenView::LeftParenthesis,
        Token::RightParenthesis => TokenView::RightParenthesis,
        Token::LeftCBracket => TokenView::LeftCBracket,
        Token::RightCBracket => TokenView::RightCBracket,
        Token::Comma => TokenView::Comma,
        Token::And => TokenView::And,
        Token::Or => TokenView::Or,
        Token::Not => TokenView::Not,
        Token::Plus => TokenView::Plus,
        Token::Minus => TokenView::Minus,
        Token::Dot => TokenView::Dot,
        Token::EndRule => TokenView::EndRule,
        Token::DashO => TokenView::DashO,
        Token::FatArrow => TokenView::FatArrow,
        Token::ThinArrow => TokenView::ThinArrow,
        Token::Descriptor(s) => TokenView::Descriptor(s@),
        Token::Number(n) => TokenView::Number(n),
        Token::At => TokenView::At,
        Token::As => TokenView::As,
    }
}

impl View for Token {
    type V = TokenView;

    open spec fn view(&self) -> TokenView {
        token_view(*self)
    }
}

pub open spec fn tokens_view(s: Seq<Token>) -> Seq<TokenView> {
    Seq::new(s.len(), |i: int| token_view(s[i]))
}

pub proof fn lemma_tokens_view_push(s: Seq<Token>, x: Token)
    ensures
        tokens_view(s.push(x)) == tokens_view(s).push(token_view(x)),
{
    assert(tokens_view(s.push(x)) =~= tokens_view(s).push(token_view(x)));
}

impl Clone for Token {
    fn clone(&self) -> (res: Self)
        ensures
            res@ == self@,
    {
        match self {
            Token::Hash => Token::Hash,
            Token::Colon => Token::Colon,
            Token::Semicolon => Token::Semicolon,
            Token::SeqKw => Token::SeqKw,
            Token::Par => Token::Par,
            Token::Alt => Token::Alt,
            Token::LeftParenthesis => Token::LeftParenthesis,
            Token::RightParenthesis => Token::RightParenthesis,
            Token::LeftCBracket => Token::LeftCBracket,
            Token::RightCBracket => Token::RightCBracket,
            Token::Comma => Token::Comma,
            Token::And => Token::And,
            Token::Or => Token::Or,
            Token::Not => Token::Not,
            Token::Plus => Token::Plus,
            Token::Minus => Token::Minus,
            Token::Dot => Token::Dot,
            Token::EndRule => Token::EndRule,
            Token::DashO => Token::DashO,
            Token::FatArrow => Token::FatArrow,
            Token::ThinArrow => Token::ThinArrow,
            Token::Descriptor(s) => Token::Descriptor(s.clone()),
            Token::Number(n) => Token::Number(*n),
            Token::At => Token::At,
            Token::As => Token::As,
        }
    }
}

} // verus!
