//! The lexer: from source text to the sequence of its tokens.

use crate::charclass::{
    digit, digit_value, ident_continue, ident_start, is_blank, is_digit, is_ident_continue, is_ident_start,
    whitespace,
};
use crate::text::{chars_of, text_of};
use crate::token::{
    is_keyword, is_operator_char, is_operator_pair, is_symbol, keyword, symbol, Token, TokenView,
};
use vstd::prelude::*;

verus! {

/// Why a text could not be lexed.
#[derive(Debug, PartialEq, Eq)]
pub enum LexError {
    /// A character that begins no token, with the number of characters
    /// that stand before it in the text.
    UnexpectedCharacter(char, usize),
    /// A run of digits whose value does not fit a 64-bit signed integer.
    InvalidNumberLiteral(String),
}

/// A lexing error as a mathematical value.
pub enum LexErrorView {
    UnexpectedCharacter(char, nat),
    InvalidNumberLiteral(Seq<char>),
}

impl View for LexError {
    type V = LexErrorView;

    open spec fn view(&self) -> LexErrorView {
        match self {
            LexError::UnexpectedCharacter(c, position) => LexErrorView::UnexpectedCharacter(
                *c,
                *position as nat,
            ),
            LexError::InvalidNumberLiteral(text) => LexErrorView::InvalidNumberLiteral(text@),
        }
    }
}

/// How many characters from `from` on, without a gap, may continue
/// an identifier.
pub open spec fn ident_run(s: Seq<char>, from: int) -> nat
    decreases s.len() - from,
{
    if 0 <= from < s.len() && ident_continue(s[from]) {
        1 + ident_run(s, from + 1)
    } else {
        0
    }
}

/// How many characters from `from` on, without a gap, are digits.
pub open spec fn digit_run(s: Seq<char>, from: int) -> nat
    decreases s.len() - from,
{
    if 0 <= from < s.len() && digit(s[from]) {
        1 + digit_run(s, from + 1)
    } else {
        0
    }
}

/// The number that a sequence of digits writes in base ten.
pub open spec fn decimal(digits: Seq<char>) -> nat
    decreases digits.len(),
{
    if digits.len() == 0 {
        0
    } else {
        (10 * decimal(digits.drop_last()) + digit_value(digits.last())) as nat
    }
}

/// The token that begins at `at`, a character that is not whitespace, and
/// the place where it ends. Each token is the longest that can begin there:
/// an identifier or a number takes every character that can continue it,
/// and two characters that form an operator together are never read apart.
pub open spec fn token_at(s: Seq<char>, at: int) -> Result<(TokenView, int), LexErrorView>
    recommends
        0 <= at < s.len(),
{
    let c = s[at];
    if ident_start(c) {
        let end = at + 1 + ident_run(s, at + 1);
        let word = s.subrange(at, end);
        if is_keyword(word) {
            Ok((TokenView::Keyword(word), end))
        } else {
            Ok((TokenView::Identifier(word), end))
        }
    } else if digit(c) {
        let end = at + 1 + digit_run(s, at + 1);
        let text = s.subrange(at, end);
        if decimal(text) <= i64::MAX {
            Ok((TokenView::Number(decimal(text) as int), end))
        } else {
            Err(LexErrorView::InvalidNumberLiteral(text))
        }
    } else if at + 1 < s.len() && is_operator_pair(c, s[at + 1]) {
        Ok((TokenView::Operator(s.subrange(at, at + 2)), at + 2))
    } else if is_operator_char(c) {
        Ok((TokenView::Operator(s.subrange(at, at + 1)), at + 1))
    } else if is_symbol(c) {
        Ok((TokenView::Symbol(c), at + 1))
    } else {
        Err(LexErrorView::UnexpectedCharacter(c, at as nat))
    }
}

/// `first`, then the tokens of `rest`; the error of `rest` where it is one.
pub open spec fn token_then(first: TokenView, rest: Result<Seq<TokenView>, LexErrorView>) -> Result<
    Seq<TokenView>,
    LexErrorView,
> {
    match rest {
        Ok(tokens) => Ok(seq![first] + tokens),
        Err(e) => Err(e),
    }
}

/// How many characters of the text stand at `at` or after it.
pub open spec fn left(s: Seq<char>, at: int) -> nat {
    if at < s.len() {
        (s.len() - at) as nat
    } else {
        0
    }
}

/// The tokens of the text from `at` on, or the first error met there.
pub open spec fn lex_from(s: Seq<char>, at: int) -> Result<Seq<TokenView>, LexErrorView>
    decreases left(s, at),
{
    if at < 0 || at >= s.len() {
        Ok(Seq::empty())
    } else if whitespace(s[at]) {
        lex_from(s, at + 1)
    } else {
        match token_at(s, at) {
            Ok((token, end)) => token_then(token, lex_from(s, end)),
            Err(e) => Err(e),
        }
    }
}

/// The tokens of a text, or the first error met in it.
pub open spec fn lexed(text: Seq<char>) -> Result<Seq<TokenView>, LexErrorView> {
    lex_from(text, 0)
}

/// `done`, then the tokens of `rest`; the error of `rest` where it is one.
pub open spec fn tokens_then(done: Seq<TokenView>, rest: Result<Seq<TokenView>, LexErrorView>) -> Result<
    Seq<TokenView>,
    LexErrorView,
> {
    match rest {
        Ok(tokens) => Ok(done + tokens),
        Err(e) => Err(e),
    }
}

/// The end of the run of identifier characters that begins at `from`.
fn scan_identifier(chars: &Vec<char>, from: usize) -> (end: usize)
    requires
        from <= chars.len(),
    ensures
        end == from + ident_run(chars@, from as int),
        end <= chars.len(),
{
    let mut end: usize = from;
    while end < chars.len() && is_ident_continue(chars[end])
        invariant
            from <= end <= chars.len(),
            ident_run(chars@, from as int) == (end - from) + ident_run(chars@, end as int),
        decreases chars.len() - end,
    {
        end += 1;
    }
    end
}

/// The end of the run of digits that begins at `from`.
fn scan_digits(chars: &Vec<char>, from: usize) -> (end: usize)
    requires
        from <= chars.len(),
    ensures
        end == from + digit_run(chars@, from as int),
        end <= chars.len(),
        forall|k: int| from <= k < end ==> digit(#[trigger] chars@[k]),
{
    let mut end: usize = from;
    while end < chars.len() && is_digit(chars[end])
        invariant
            from <= end <= chars.len(),
            digit_run(chars@, from as int) == (end - from) + digit_run(chars@, end as int),
            forall|k: int| from <= k < end ==> digit(#[trigger] chars@[k]),
        decreases chars.len() - end,
    {
        end += 1;
    }
    end
}

/// A sequence of digits writes at least what any of its beginnings writes.
proof fn lemma_decimal_grows(s: Seq<char>, from: int, mid: int, to: int)
    requires
        0 <= from <= mid <= to <= s.len(),
        forall|k: int| from <= k < to ==> digit(#[trigger] s[k]),
    ensures
        decimal(s.subrange(from, mid)) <= decimal(s.subrange(from, to)),
    decreases to - mid,
{
    if mid < to {
        lemma_decimal_grows(s, from, mid, to - 1);
        assert(s.subrange(from, to).drop_last() == s.subrange(from, to - 1));
    }
}

/// The value of the digits `chars[from..to]`, where a 64-bit signed integer
/// holds it.
fn number_value(chars: &Vec<char>, from: usize, to: usize) -> (value: Option<i64>)
    requires
        from <= to <= chars.len(),
        forall|k: int| from <= k < to ==> digit(#[trigger] chars@[k]),
    ensures
        match value {
            Some(n) => n == decimal(chars@.subrange(from as int, to as int)),
            None => decimal(chars@.subrange(from as int, to as int)) > i64::MAX,
        },
{
    let mut value: i64 = 0;
    let mut at: usize = from;
    while at < to
        invariant
            from <= at <= to <= chars.len(),
            forall|k: int| from <= k < to ==> digit(#[trigger] chars@[k]),
            0 <= value,
            value == decimal(chars@.subrange(from as int, at as int)),
        decreases to - at,
    {
        let c = chars[at];
        assert(digit(chars@[at as int]));
        let d: i64 = (c as u32 - '0' as u32) as i64;
        proof {
            assert(chars@.subrange(from as int, at + 1).drop_last() == chars@.subrange(
                from as int,
                at as int,
            ));
            lemma_decimal_grows(chars@, from as int, at + 1, to as int);
        }
        if value > (i64::MAX - d) / 10 {
            return None;
        }
        value = value * 10 + d;
        at += 1;
    }
    assert(chars@.subrange(from as int, at as int) == chars@.subrange(from as int, to as int));
    Some(value)
}

/// Splits a text into its tokens.
///
/// Whitespace separates tokens and is dropped. The first character that
/// begins no token, or the first number too large for a 64-bit signed
/// integer, ends the lexing with an error; no tokens are returned then.
pub fn lex(input: &str) -> (result: Result<Vec<Token>, LexError>)
    ensures
        match result {
            Ok(tokens) => lexed(input@) == Ok::<Seq<TokenView>, LexErrorView>(tokens.deep_view()),
            Err(e) => lexed(input@) == Err::<Seq<TokenView>, LexErrorView>(e@),
        },
{
    let chars = chars_of(input);
    let n = chars.len();
    let mut tokens: Vec<Token> = Vec::new();
    let mut at: usize = 0;
    assert(tokens.deep_view() + lex_from(chars@, 0)->Ok_0 =~= lex_from(chars@, 0)->Ok_0);
    while at < n
        invariant
            chars@ == input@,
            n == chars.len(),
            at <= n,
            tokens_then(tokens.deep_view(), lex_from(chars@, at as int)) == lexed(chars@),
        decreases n - at,
    {
        let c = chars[at];
        let ghost done = tokens.deep_view();
        let ghost here = token_at(chars@, at as int);
        if is_blank(c) {
            at += 1;
        } else {
            let end: usize;
            let token: Token;
            if is_ident_start(c) {
                end = scan_identifier(&chars, at + 1);
                let word = text_of(&chars, at, end);
                token = if keyword(word.as_str()) {
                    Token::Keyword(word)
                } else {
                    Token::Identifier(word)
                };
            } else if is_digit(c) {
                end = scan_digits(&chars, at + 1);
                match number_value(&chars, at, end) {
                    Some(value) => {
                        token = Token::Number(value);
                    },
                    None => {
                        return Err(LexError::InvalidNumberLiteral(text_of(&chars, at, end)));
                    },
                }
            } else if at + 1 < n && chars[at + 1] == '=' && (c == '=' || c == '!' || c == '>' || c
                == '<') {
                end = at + 2;
                token = Token::Operator(text_of(&chars, at, end));
            } else if c == '=' || c == '>' || c == '<' {
                end = at + 1;
                token = Token::Operator(text_of(&chars, at, end));
            } else if symbol(c) {
                end = at + 1;
                token = Token::Symbol(c);
            } else {
                return Err(LexError::UnexpectedCharacter(c, at));
            }
            assert(here == Ok::<(TokenView, int), LexErrorView>((token@, end as int)));
            tokens.push(token);
            at = end;
            proof {
                let rest = lex_from(chars@, end as int);
                assert(tokens.deep_view() =~= done.push(token@));
                if rest is Ok {
                    assert(done + (seq![token@] + rest->Ok_0) =~= done.push(token@) + rest->Ok_0);
                }
            }
        }
    }
    assert(tokens.deep_view() + Seq::<TokenView>::empty() =~= tokens.deep_view());
    Ok(tokens)
}

} // verus!
