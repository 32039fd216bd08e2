//! Writing tokens, and with them conditions, as source text.

use crate::ast::Expr;
use crate::token::{Token, TokenView};
use vstd::prelude::*;
use vstd::string::StringExecFns;

verus! {

/// The character that writes the digit `d`.
pub open spec fn digit_char(d: int) -> char
    recommends
        0 <= d <= 9,
{
    ('0' as int + d) as char
}

/// The digits that write a natural number in base ten, without leading
/// zeros.
pub open spec fn digits_of(n: nat) -> Seq<char>
    decreases n,
{
    if n < 10 {
        seq![digit_char(n as int)]
    } else {
        digits_of(n / 10).push(digit_char((n % 10) as int))
    }
}

/// The text of a number: its digits, after a minus sign if it is negative.
pub open spec fn number_text(n: int) -> Seq<char> {
    if n < 0 {
        seq!['-'] + digits_of((-n) as nat)
    } else {
        digits_of(n as nat)
    }
}

/// The text of a token.
pub open spec fn token_text(t: TokenView) -> Seq<char> {
    match t {
        TokenView::Keyword(word) => word,
        TokenView::Identifier(name) => name,
        TokenView::Number(n) => number_text(n),
        TokenView::Symbol(c) => seq![c],
        TokenView::Operator(sign) => sign,
    }
}

/// The text of a sequence of tokens: each token, with a space after it.
pub open spec fn tokens_text(ts: Seq<TokenView>) -> Seq<char>
    decreases ts.len(),
{
    if ts.len() == 0 {
        Seq::empty()
    } else {
        tokens_text(ts.drop_last()) + token_text(ts.last()) + seq![' ']
    }
}

/// Adds the digits of `n` to `out`.
fn push_digits(out: &mut String, n: u64)
    ensures
        final(out)@ == old(out)@ + digits_of(n as nat),
    decreases n,
{
    let ghost before = out@;
    if n >= 10 {
        push_digits(out, n / 10);
    }
    let d: u8 = (n % 10) as u8;
    out.push((48u8 + d) as char);
    assert(out@ =~= before + digits_of(n as nat));
}

/// Adds the text of a number to `out`.
fn push_number(out: &mut String, n: i64)
    ensures
        final(out)@ == old(out)@ + number_text(n as int),
{
    let ghost before = out@;
    if n < 0 {
        out.push('-');
        let magnitude: u64 = (-(n as i128)) as u64;
        push_digits(out, magnitude);
        assert(out@ =~= before + number_text(n as int));
    } else {
        push_digits(out, n as u64);
    }
}

/// Adds the text of a token to `out`.
fn push_token_text(out: &mut String, token: &Token)
    ensures
        final(out)@ == old(out)@ + token_text(token@),
{
    let ghost before = out@;
    match token {
        Token::Keyword(word) => out.append(word.as_str()),
        Token::Identifier(name) => out.append(name.as_str()),
        Token::Number(n) => push_number(out, *n),
        Token::Symbol(c) => {
            out.push(*c);
            assert(out@ =~= before + seq![*c]);
        },
        Token::Operator(sign) => out.append(sign.as_str()),
    }
}

/// The tokens as source text, with a space after each.
///
/// Lexed again, the text gives the tokens back if each of them is one that
/// the lexer can give: a reserved word as keyword, any other word as
/// identifier, a number that is not negative, and a symbol or an operator
/// of the language.
pub fn tokens_to_text(tokens: &Vec<Token>) -> (text: String)
    ensures
        text@ == tokens_text(tokens.deep_view()),
{
    let mut text = String::new();
    let mut i: usize = 0;
    assert(tokens.deep_view().take(0) =~= Seq::empty());
    while i < tokens.len()
        invariant
            i <= tokens.len(),
            text@ == tokens_text(tokens.deep_view().take(i as int)),
        decreases tokens.len() - i,
    {
        push_token_text(&mut text, &tokens[i]);
        text.push(' ');
        i += 1;
        proof {
            let done = tokens.deep_view().take(i as int);
            assert(done.drop_last() =~= tokens.deep_view().take(i - 1));
            assert(done.last() == tokens@[i - 1]@);
        }
    }
    assert(tokens.deep_view().take(i as int) =~= tokens.deep_view());
    text
}

impl Expr {
    /// The condition as source text: its tokens, with a space after each.
    pub fn to_text(&self) -> (text: String)
        ensures
            text@ == tokens_text(crate::unparse::expr_tokens(self@)),
    {
        let tokens = self.to_tokens();
        tokens_to_text(&tokens)
    }
}

} // verus!
