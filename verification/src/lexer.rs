//! The lexer: turns source text into tokens.
//!
//! Multi-character symbols (`=>`, `->`, `-o`) take precedence over single
//! characters; a `.` followed by an alphanumeric character or `{` is a
//! qualified-name dot, otherwise it ends a rule; `%` starts a line
//! comment.  Identifier, digit and whitespace classes are the ASCII
//! ones, and the alphanumeric look-ahead of the dot rule is ASCII too.
//! `spec_lex` is the mathematical definition of the token stream, and
//! the executable `lexer` is proven to compute exactly it.

use vstd::prelude::*;

use crate::errors::LexError;
use crate::token::{Token, TokenView, lemma_tokens_view_push, tokens_view};

verus! {

// ---------------------------------------------------------------------
// Character classes.
// ---------------------------------------------------------------------

pub open spec fn is_space_char(c: char) -> bool {
    c == ' ' || c == '\t' || c == '\n' || c == '\r' || c == '\x0b' || c == '\x0c'
}

pub open spec fn is_digit_char(c: char) -> bool {
    48 <= c as u32 <= 57
}

pub open spec fn is_alpha_char(c: char) -> bool {
    (97 <= c as u32 <= 122) || (65 <= c as u32 <= 90)
}

pub open spec fn is_alnum_char(c: char) -> bool {
    is_digit_char(c) || is_alpha_char(c)
}

pub open spec fn is_ident_start_char(c: char) -> bool {
    is_alpha_char(c) || c == '_'
}

pub open spec fn is_ident_char(c: char) -> bool {
    is_alnum_char(c) || c == '_'
}

fn ex_is_space(c: char) -> (r: bool)
    ensures
        r == is_space_char(c),
{
    c == ' ' || c == '\t' || c == '\n' || c == '\r' || c == '\x0b' || c == '\x0c'
}

fn ex_is_digit(c: char) -> (r: bool)
    ensures
        r == is_digit_char(c),
{
    let u = c as u32;
    48 <= u && u <= 57
}

fn ex_is_alnum(c: char) -> (r: bool)
    ensures
        r == is_alnum_char(c),
{
    let u = c as u32;
    (48 <= u && u <= 57) || (97 <= u && u <= 122) || (65 <= u && u <= 90)
}

fn ex_is_ident_start(c: char) -> (r: bool)
    ensures
        r == is_ident_start_char(c),
{
    let u = c as u32;
    (97 <= u && u <= 122) || (65 <= u && u <= 90) || c == '_'
}

fn ex_is_ident(c: char) -> (r: bool)
    ensures
        r == is_ident_char(c),
{
    ex_is_alnum(c) || c == '_'
}

// ---------------------------------------------------------------------
// Trivia: whitespace and `%` line comments.
// ---------------------------------------------------------------------

/// The index of the next `'\n'` at or after `pos`, or the end of input.
pub open spec fn line_end(s: Seq<char>, pos: int) -> int
    decreases s.len() - pos,
{
    if pos < 0 {
        0
    } else if pos >= s.len() {
        s.len() as int
    } else if s[pos] == '\n' {
        pos
    } else {
        line_end(s, pos + 1)
    }
}

pub proof fn lemma_line_end_bounds(s: Seq<char>, pos: int)
    requires
        0 <= pos <= s.len(),
    ensures
        pos <= line_end(s, pos) <= s.len(),
    decreases s.len() - pos,
{
    if pos < s.len() && s[pos] != '\n' {
        lemma_line_end_bounds(s, pos + 1);
    }
}

/// The first position at or after `pos` that is neither whitespace nor
/// inside a `%` comment.
pub open spec fn skip_trivia(s: Seq<char>, pos: int) -> int
    decreases s.len() - pos,
    via skip_trivia_dec
{
    if pos < 0 {
        0
    } else if pos >= s.len() {
        s.len() as int
    } else if is_space_char(s[pos]) {
        skip_trivia(s, pos + 1)
    } else if s[pos] == '%' {
        skip_trivia(s, line_end(s, pos + 1))
    } else {
        pos
    }
}

#[via_fn]
proof fn skip_trivia_dec(s: Seq<char>, pos: int) {
    if 0 <= pos < s.len() && !is_space_char(s[pos]) && s[pos] == '%' {
        lemma_line_end_bounds(s, pos + 1);
    }
}

pub proof fn lemma_skip_trivia_bounds(s: Seq<char>, pos: int)
    requires
        0 <= pos <= s.len(),
    ensures
        pos <= skip_trivia(s, pos) <= s.len(),
    decreases s.len() - pos,
{
    if pos < s.len() {
        if is_space_char(s[pos]) {
            lemma_skip_trivia_bounds(s, pos + 1);
        } else if s[pos] == '%' {
            lemma_line_end_bounds(s, pos + 1);
            lemma_skip_trivia_bounds(s, line_end(s, pos + 1));
        }
    }
}

// ---------------------------------------------------------------------
// Single tokens.
// ---------------------------------------------------------------------

/// The end of the identifier run starting at `pos`.
pub open spec fn ident_end(s: Seq<char>, pos: int) -> int
    decreases s.len() - pos,
{
    if pos < 0 {
        0
    } else if pos >= s.len() {
        s.len() as int
    } else if is_ident_char(s[pos]) {
        ident_end(s, pos + 1)
    } else {
        pos
    }
}

pub proof fn lemma_ident_end_bounds(s: Seq<char>, pos: int)
    requires
        0 <= pos <= s.len(),
    ensures
        pos <= ident_end(s, pos) <= s.len(),
    decreases s.len() - pos,
{
    if pos < s.len() && is_ident_char(s[pos]) {
        lemma_ident_end_bounds(s, pos + 1);
    }
}

/// The end of the digit run starting at `pos`.
pub open spec fn digit_end(s: Seq<char>, pos: int) -> int
    decreases s.len() - pos,
{
    if pos < 0 {
        0
    } else if pos >= s.len() {
        s.len() as int
    } else if is_digit_char(s[pos]) {
        digit_end(s, pos + 1)
    } else {
        pos
    }
}

pub proof fn lemma_digit_end_bounds(s: Seq<char>, pos: int)
    requires
        0 <= pos <= s.len(),
    ensures
        pos <= digit_end(s, pos) <= s.len(),
    decreases s.len() - pos,
{
    if pos < s.len() && is_digit_char(s[pos]) {
        lemma_digit_end_bounds(s, pos + 1);
    }
}

/// The value of the decimal numeral in `s[from..to]`.
pub open spec fn numeral_value(s: Seq<char>, from: int, to: int) -> int
    decreases to - from,
{
    if to <= from {
        0
    } else {
        numeral_value(s, from, to - 1) * 10 + (s[to - 1] as u32 - 48)
    }
}

/// The keyword or descriptor for an identifier's text.
pub open spec fn ident_token(w: Seq<char>) -> TokenView {
    if w == "seq"@ {
        TokenView::SeqKw
    } else if w == "par"@ {
        TokenView::Par
    } else if w == "alt"@ {
        TokenView::Alt
    } else if w == "and"@ {
        TokenView::And
    } else if w == "or"@ {
        TokenView::Or
    } else if w == "not"@ {
        TokenView::Not
    } else if w == "as"@ {
        TokenView::As
    } else {
        TokenView::Descriptor(w)
    }
}

/// The token starting at `pos` (not trivia, `pos` in range), and the
/// position after it; `None` when no token starts there.
pub open spec fn next_token(s: Seq<char>, pos: int) -> Option<(TokenView, int)> {
    let c = s[pos];
    if c == '=' && pos + 1 < s.len() && s[pos + 1] == '>' {
        Some((TokenView::FatArrow, pos + 2))
    } else if c == '-' && pos + 1 < s.len() && s[pos + 1] == '>' {
        Some((TokenView::ThinArrow, pos + 2))
    } else if c == '-' && pos + 1 < s.len() && s[pos + 1] == 'o' {
        Some((TokenView::DashO, pos + 2))
    } else if c == '.' {
        if pos + 1 < s.len() && (is_alnum_char(s[pos + 1]) || s[pos + 1] == '{') {
            Some((TokenView::Dot, pos + 1))
        } else {
            Some((TokenView::EndRule, pos + 1))
        }
    } else if c == '#' {
        Some((TokenView::Hash, pos + 1))
    } else if c == ':' {
        Some((TokenView::Colon, pos + 1))
    } else if c == ';' {
        Some((TokenView::Semicolon, pos + 1))
    } else if c == '+' {
        Some((TokenView::Plus, pos + 1))
    } else if c == '-' {
        Some((TokenView::Minus, pos + 1))
    } else if c == '(' {
        Some((TokenView::LeftParenthesis, pos + 1))
    } else if c == ')' {
        Some((TokenView::RightParenthesis, pos + 1))
    } else if c == '{' {
        Some((TokenView::LeftCBracket, pos + 1))
    } else if c == '}' {
        Some((TokenView::RightCBracket, pos + 1))
    } else if c == ',' {
        Some((TokenView::Comma, pos + 1))
    } else if c == '@' {
        Some((TokenView::At, pos + 1))
    } else if c == '0' {
        Some((TokenView::Number(0), pos + 1))
    } else if is_digit_char(c) {
        let e = digit_end(s, pos);
        let v = numeral_value(s, pos, e);
        if v < 256 {
            Some((TokenView::Number(v as u8), e))
        } else {
            None
        }
    } else if is_ident_start_char(c) {
        let e = ident_end(s, pos);
        Some((ident_token(s.subrange(pos, e)), e))
    } else {
        None
    }
}

/// The token stream of `s` from `pos` on: trivia is skipped, then one
/// token is read and the rest follows.  `None` when some position admits
/// no token.
pub open spec fn spec_lex(s: Seq<char>, pos: int) -> Option<Seq<TokenView>>
    decreases s.len() - pos,
    via spec_lex_dec
{
    if pos < 0 {
        None
    } else {
        let p = skip_trivia(s, pos);
        if p >= s.len() {
            Some(Seq::empty())
        } else {
            match next_token(s, p) {
                None => None,
                Some((t, e)) => if p < e <= s.len() {
                    match spec_lex(s, e) {
                        None => None,
                        Some(rest) => Some(seq![t] + rest),
                    }
                } else {
                    None
                },
            }
        }
    }
}

#[via_fn]
proof fn spec_lex_dec(s: Seq<char>, pos: int) {
    if 0 <= pos <= s.len() {
        lemma_skip_trivia_bounds(s, pos);
    }
}

// ---------------------------------------------------------------------
// Executable lexing.
// ---------------------------------------------------------------------

/// Skip whitespace and comments from `pos`.
fn skip_trivia_exec(src: &str, n: usize, pos: usize) -> (r: usize)
    requires
        n == src@.len(),
        pos <= n,
    ensures
        r == skip_trivia(src@, pos as int),
        pos <= r <= n,
{
    proof {
        lemma_skip_trivia_bounds(src@, pos as int);
    }
    let mut cur: usize = pos;
    while cur < n
        invariant
            n == src@.len(),
            pos <= cur <= n,
            skip_trivia(src@, pos as int) == skip_trivia(src@, cur as int),
        decreases n - cur,
    {
        let c = src.get_char(cur);
        if ex_is_space(c) {
            cur = cur + 1;
        } else if c == '%' {
            proof {
                lemma_line_end_bounds(src@, cur as int + 1);
            }
            let mut q: usize = cur + 1;
            while q < n && src.get_char(q) != '\n'
                invariant
                    n == src@.len(),
                    pos <= cur < n,
                    src@[cur as int] == '%',
                    !is_space_char(src@[cur as int]),
                    skip_trivia(src@, pos as int) == skip_trivia(src@, cur as int),
                    cur + 1 <= q <= n,
                    line_end(src@, cur as int + 1) == line_end(src@, q as int),
                decreases n - q,
            {
                q = q + 1;
            }
            proof {
                lemma_skip_trivia_bounds(src@, q as int);
            }
            cur = q;
        } else {
            proof {
                assert(skip_trivia(src@, cur as int) == cur as int);
            }
            return cur;
        }
    }
    cur
}

/// Read the token starting at `pos`, which is not trivia.
fn next_token_exec(src: &str, n: usize, pos: usize) -> (r: Result<(Token, usize), LexError>)
    requires
        n == src@.len(),
        pos < n,
    ensures
        match r {
            Ok((t, e)) => next_token(src@, pos as int) == Some((t@, e as int)) && pos < e <= n,
            Err(_) => next_token(src@, pos as int) is None,
        },
{
    let c = src.get_char(pos);
    if c == '=' && pos + 1 < n && src.get_char(pos + 1) == '>' {
        Ok((Token::FatArrow, pos + 2))
    } else if c == '-' && pos + 1 < n && src.get_char(pos + 1) == '>' {
        Ok((Token::ThinArrow, pos + 2))
    } else if c == '-' && pos + 1 < n && src.get_char(pos + 1) == 'o' {
        Ok((Token::DashO, pos + 2))
    } else if c == '.' {
        if pos + 1 < n {
            let d = src.get_char(pos + 1);
            if ex_is_alnum(d) || d == '{' {
                Ok((Token::Dot, pos + 1))
            } else {
                Ok((Token::EndRule, pos + 1))
            }
        } else {
            Ok((Token::EndRule, pos + 1))
        }
    } else if c == '#' {
        Ok((Token::Hash, pos + 1))
    } else if c == ':' {
        Ok((Token::Colon, pos + 1))
    } else if c == ';' {
        Ok((Token::Semicolon, pos + 1))
    } else if c == '+' {
        Ok((Token::Plus, pos + 1))
    } else if c == '-' {
        Ok((Token::Minus, pos + 1))
    } else if c == '(' {
        Ok((Token::LeftParenthesis, pos + 1))
    } else if c == ')' {
        Ok((Token::RightParenthesis, pos + 1))
    } else if c == '{' {
        Ok((Token::LeftCBracket, pos + 1))
    } else if c == '}' {
        Ok((Token::RightCBracket, pos + 1))
    } else if c == ',' {
        Ok((Token::Comma, pos + 1))
    } else if c == '@' {
        Ok((Token::At, pos + 1))
    } else if c == '0' {
        Ok((Token::Number(0), pos + 1))
    } else if ex_is_digit(c) {
        proof {
            lemma_digit_end_bounds(src@, pos as int);
            lemma_digit_end_digits(src@, pos as int);
        }
        let mut e: usize = pos;
        let mut val: u32 = 0;
        let ghost whole = digit_end(src@, pos as int);
        while e < n && ex_is_digit(src.get_char(e))
            invariant
                n == src@.len(),
                pos < n,
                c == src@[pos as int],
                is_digit_char(c),
                c != '0',
                pos <= e <= n,
                digit_end(src@, pos as int) == digit_end(src@, e as int),
                e as int <= whole,
                whole == digit_end(src@, pos as int),
                forall|i: int| pos <= i < whole ==> is_digit_char(#[trigger] src@[i]),
                val <= 255,
                val == numeral_value(src@, pos as int, e as int),
            decreases n - e,
        {
            let d = src.get_char(e) as u32;
            let step = val * 10 + (d - 48);
            proof {
                lemma_digit_end_bounds(src@, e as int + 1);
                assert(digit_end(src@, e as int) == digit_end(src@, e as int + 1));
                assert((e as int) < whole);
            }
            if step > 255 {
                proof {
                    lemma_numeral_grows(src@, pos as int, e as int + 1, whole);
                    assert(numeral_value(src@, pos as int, e as int + 1) == val * 10 + (
                    src@.index(e as int) as u32 - 48));
                    assert(numeral_value(src@, pos as int, whole) > 255);
                    assert(next_token(src@, pos as int) is None);
                }
                return Err(LexError { at: pos });
            }
            val = step;
            e = e + 1;
        }
        proof {
            assert(digit_end(src@, e as int) == e as int);
            assert((e as int) == whole);
            assert(whole > pos);
        }
        Ok((Token::Number(val as u8), e))
    } else if ex_is_ident_start(c) {
        proof {
            lemma_ident_end_bounds(src@, pos as int);
        }
        let mut e: usize = pos;
        while e < n && ex_is_ident(src.get_char(e))
            invariant
                n == src@.len(),
                pos < n,
                c == src@[pos as int],
                is_ident_start_char(c),
                pos <= e <= n,
                ident_end(src@, pos as int) == ident_end(src@, e as int),
            decreases n - e,
        {
            e = e + 1;
        }
        proof {
            assert(ident_end(src@, e as int) == e as int);
        }
        let w = src.substring_char(pos, e);
        let word = w.to_owned();
        let t = if word.eq(&String::from_str("seq")) {
            Token::SeqKw
        } else if word.eq(&String::from_str("par")) {
            Token::Par
        } else if word.eq(&String::from_str("alt")) {
            Token::Alt
        } else if word.eq(&String::from_str("and")) {
            Token::And
        } else if word.eq(&String::from_str("or")) {
            Token::Or
        } else if word.eq(&String::from_str("not")) {
            Token::Not
        } else if word.eq(&String::from_str("as")) {
            Token::As
        } else {
            Token::Descriptor(word)
        };
        Ok((t, e))
    } else {
        Err(LexError { at: pos })
    }
}

/// Every character of a digit run is a digit.
proof fn lemma_digit_end_digits(s: Seq<char>, pos: int)
    requires
        0 <= pos <= s.len(),
    ensures
        forall|i: int| pos <= i < digit_end(s, pos) ==> is_digit_char(#[trigger] s[i]),
    decreases s.len() - pos,
{
    lemma_digit_end_bounds(s, pos);
    if pos < s.len() && is_digit_char(s[pos]) {
        lemma_digit_end_digits(s, pos + 1);
    }
}

/// A numeral's value does not shrink as the run extends over digits.
proof fn lemma_numeral_grows(s: Seq<char>, from: int, mid: int, to: int)
    requires
        from <= mid <= to,
        forall|i: int| from <= i < to ==> is_digit_char(#[trigger] s[i]),
    ensures
        numeral_value(s, from, to) >= numeral_value(s, from, mid),
    decreases to - mid,
{
    if mid < to {
        lemma_numeral_grows(s, from, mid, to - 1);
        lemma_numeral_nonneg(s, from, to - 1);
        let prev = numeral_value(s, from, to - 1);
        assert(numeral_value(s, from, to) == prev * 10 + (s[to - 1] as u32 - 48));
        assert(prev >= 0 ==> prev * 10 >= prev) by (nonlinear_arith);
        assert(is_digit_char(s[to - 1]));
    }
}

proof fn lemma_numeral_nonneg(s: Seq<char>, from: int, to: int)
    requires
        forall|i: int| from <= i < to ==> is_digit_char(#[trigger] s[i]),
    ensures
        numeral_value(s, from, to) >= 0,
    decreases to - from,
{
    if to > from {
        lemma_numeral_nonneg(s, from, to - 1);
        let prev = numeral_value(s, from, to - 1);
        assert(prev >= 0 ==> prev * 10 >= 0) by (nonlinear_arith);
        assert(is_digit_char(s[to - 1]));
    }
}

/// Lex the whole of `src`.  On success the tokens are exactly the token
/// stream `spec_lex` assigns to the text; on failure no token starts at
/// some position, or a numeral overflows.
pub fn lexer(src: &str) -> (r: Result<Vec<Token>, LexError>)
    ensures
        match r {
            Ok(toks) => spec_lex(src@, 0) == Some(tokens_view(toks@)),
            Err(_) => spec_lex(src@, 0) is None,
        },
{
    let n = src.unicode_len();
    let mut toks: Vec<Token> = Vec::new();
    let mut pos: usize = 0;
    loop
        invariant
            n == src@.len(),
            pos <= n,
            forall|rest: Seq<TokenView>|
                spec_lex(src@, pos as int) == Some(rest) ==> spec_lex(src@, 0) == Some(
                    tokens_view(toks@) + rest,
                ),
            spec_lex(src@, pos as int) is None ==> spec_lex(src@, 0) is None,
        decreases n - pos,
    {
        let p = skip_trivia_exec(src, n, pos);
        if p >= n {
            proof {
                assert(spec_lex(src@, pos as int) == Some(Seq::<TokenView>::empty()));
                assert(tokens_view(toks@) + Seq::<TokenView>::empty() =~= tokens_view(toks@));
            }
            return Ok(toks);
        }
        match next_token_exec(src, n, p) {
            Err(e) => {
                proof {
                    assert(spec_lex(src@, pos as int) is None);
                }
                return Err(e);
            },
            Ok((t, end)) => {
                let ghost old_toks = toks@;
                let ghost tv = t@;
                toks.push(t);
                proof {
                    lemma_tokens_view_push(old_toks, toks@.last());
                    assert(toks@.drop_last() =~= old_toks);
                    assert forall|rest: Seq<TokenView>|
                        spec_lex(src@, end as int) == Some(rest) implies spec_lex(src@, 0) == Some(
                        tokens_view(toks@) + rest,
                    ) by {
                        assert(spec_lex(src@, pos as int) == Some(seq![tv] + rest));
                        assert(tokens_view(old_toks) + (seq![tv] + rest) =~= tokens_view(old_toks).push(
                            tv,
                        ) + rest);
                    }
                }
                pos = end;
            },
        }
    }
}

/// The tokens of a spanned token vector.
pub open spec fn spanned_tokens(s: Seq<(Token, usize, usize)>) -> Seq<TokenView> {
    Seq::new(s.len(), |i: int| s[i].0@)
}

/// As `lexer`, also reporting each token's character span
/// `[start, end)`.  The tokens are exactly the token stream of the text;
/// spans are non-empty, within the text, and non-overlapping in order.
pub fn lexer_spanned(src: &str) -> (r: Result<Vec<(Token, usize, usize)>, LexError>)
    ensures
        match r {
            Ok(toks) => spec_lex(src@, 0) == Some(spanned_tokens(toks@)) && (forall|i: int|
                0 <= i < toks@.len() ==> (#[trigger] toks@[i]).1 < toks@[i].2 <= src@.len()) && (
            forall|i: int|
                0 <= i && i + 1 < toks@.len() ==> (#[trigger] toks@[i]).2 <= toks@[i + 1].1),
            Err(_) => spec_lex(src@, 0) is None,
        },
{
    let n = src.unicode_len();
    let mut toks: Vec<(Token, usize, usize)> = Vec::new();
    let mut pos: usize = 0;
    loop
        invariant
            n == src@.len(),
            pos <= n,
            forall|i: int| 0 <= i < toks@.len() ==> (#[trigger] toks@[i]).1 < toks@[i].2 <= n,
            forall|i: int|
                0 <= i && i + 1 < toks@.len() ==> (#[trigger] toks@[i]).2 <= toks@[i + 1].1,
            toks@.len() > 0 ==> toks@.last().2 <= pos,
            forall|rest: Seq<TokenView>|
                spec_lex(src@, pos as int) == Some(rest) ==> spec_lex(src@, 0) == Some(
                    spanned_tokens(toks@) + rest,
                ),
            spec_lex(src@, pos as int) is None ==> spec_lex(src@, 0) is None,
        decreases n - pos,
    {
        let p = skip_trivia_exec(src, n, pos);
        if p >= n {
            proof {
                assert(spec_lex(src@, pos as int) == Some(Seq::<TokenView>::empty()));
                assert(spanned_tokens(toks@) + Seq::<TokenView>::empty() =~= spanned_tokens(
                    toks@,
                ));
            }
            return Ok(toks);
        }
        match next_token_exec(src, n, p) {
            Err(e) => {
                proof {
                    assert(spec_lex(src@, pos as int) is None);
                }
                return Err(e);
            },
            Ok((t, end)) => {
                let ghost old_toks = toks@;
                let ghost tv = t@;
                toks.push((t, p, end));
                proof {
                    assert(spanned_tokens(toks@) =~= spanned_tokens(old_toks).push(tv));
                    assert forall|i: int|
                        0 <= i && i + 1 < toks@.len() implies (#[trigger] toks@[i]).2 <= toks@[i
                        + 1].1 by {
                        if i + 1 < toks@.len() - 1 {
                            assert(toks@[i] == old_toks[i]);
                            assert(toks@[i + 1] == old_toks[i + 1]);
                        } else {
                            assert(toks@[i] == old_toks[i]);
                            assert(old_toks[i] == old_toks.last());
                        }
                    }
                    assert forall|rest: Seq<TokenView>|
                        spec_lex(src@, end as int) == Some(rest) implies spec_lex(src@, 0) == Some(
                        spanned_tokens(toks@) + rest,
                    ) by {
                        assert(spec_lex(src@, pos as int) == Some(seq![tv] + rest));
                        assert(spanned_tokens(old_toks) + (seq![tv] + rest) =~= spanned_tokens(
                            old_toks,
                        ).push(tv) + rest);
                    }
                }
                pos = end;
            },
        }
    }
}

} // verus!
