//! The lexer and the writer of text undo each other: the text that writes
//! the tokens of a lexed text is lexed as the same tokens, and with them a
//! parsed condition is read back from the text that writes it.

use crate::ast::ExprView;
use crate::charclass::{digit, digit_value, ident_continue, ident_start, whitespace};
use crate::grammar::{condition, done};
use crate::lex_laws::{
    is_word, lemma_digit_run, lemma_digit_run_reaches, lemma_ident_run, lemma_ident_run_reaches,
    lemma_keyword_is_word,
};
use crate::lexer::{
    decimal, digit_run, ident_run, lex_from, lexed, token_at, LexErrorView,
};
use crate::render::{digit_char, digits_of, token_text, tokens_text};
use crate::round_trip::{lemma_canonical_round_trips, lemma_condition_reads};
use crate::token::{is_keyword, is_symbol, TokenView};
use crate::unparse::expr_tokens;
use vstd::prelude::*;

verus! {

/// The operators that the lexer gives.
pub open spec fn is_operator(sign: Seq<char>) -> bool {
    ||| sign == "=="@
    ||| sign == "!="@
    ||| sign == ">="@
    ||| sign == "<="@
    ||| sign == "="@
    ||| sign == ">"@
    ||| sign == "<"@
}

/// A token that the lexer can give: a reserved word as keyword, any other
/// word as identifier, a number that is not negative, and a symbol or an
/// operator of the language.
pub open spec fn lexable(t: TokenView) -> bool {
    match t {
        TokenView::Keyword(word) => is_keyword(word),
        TokenView::Identifier(name) => is_word(name) && !is_keyword(name),
        TokenView::Number(n) => 0 <= n <= i64::MAX,
        TokenView::Symbol(c) => is_symbol(c),
        TokenView::Operator(sign) => is_operator(sign),
    }
}

/// Every token of the sequence is one that the lexer can give.
pub open spec fn all_lexable(ts: Seq<TokenView>) -> bool {
    forall|i: int| 0 <= i < ts.len() ==> lexable(#[trigger] ts[i])
}

/// The digits of a number are digits, and write the number.
pub proof fn lemma_digits_of(n: nat)
    ensures
        digits_of(n).len() > 0,
        forall|i: int| 0 <= i < digits_of(n).len() ==> digit(#[trigger] digits_of(n)[i]),
        decimal(digits_of(n)) == n,
    decreases n,
{
    if n < 10 {
        let d = digits_of(n);
        assert(d.drop_last() =~= Seq::<char>::empty());
        assert(decimal(d.drop_last()) == 0);
        assert(digit_value(d.last()) == n);
    } else {
        lemma_digits_of(n / 10);
        let d = digits_of(n);
        assert(d.drop_last() =~= digits_of(n / 10));
        assert(digit_value(d.last()) == n % 10);
    }
}

/// A run of identifier characters does not depend on what stands before it.
proof fn lemma_ident_run_shift(p: Seq<char>, s: Seq<char>, from: int)
    requires
        0 <= from,
    ensures
        ident_run(p + s, p.len() + from) == ident_run(s, from),
    decreases s.len() - from,
{
    if from < s.len() {
        assert((p + s)[p.len() + from] == s[from]);
        if ident_continue(s[from]) {
            lemma_ident_run_shift(p, s, from + 1);
        }
    }
}

/// A run of digits does not depend on what stands before it.
proof fn lemma_digit_run_shift(p: Seq<char>, s: Seq<char>, from: int)
    requires
        0 <= from,
    ensures
        digit_run(p + s, p.len() + from) == digit_run(s, from),
    decreases s.len() - from,
{
    if from < s.len() {
        assert((p + s)[p.len() + from] == s[from]);
        if digit(s[from]) {
            lemma_digit_run_shift(p, s, from + 1);
        }
    }
}

/// A token does not depend on what stands before it.
proof fn lemma_token_at_shift(p: Seq<char>, s: Seq<char>, at: int)
    requires
        0 <= at < s.len(),
        token_at(s, at) is Ok,
    ensures
        token_at(p + s, p.len() + at) == Ok::<(TokenView, int), LexErrorView>(
            (token_at(s, at)->Ok_0.0, p.len() + token_at(s, at)->Ok_0.1),
        ),
{
    let t = p + s;
    let n = p.len() as int;
    assert(t[n + at] == s[at]);
    if at + 1 < s.len() {
        assert(t[n + at + 1] == s[at + 1]);
    }
    lemma_ident_run_shift(p, s, at + 1);
    lemma_digit_run_shift(p, s, at + 1);
    lemma_ident_run(s, at + 1);
    lemma_digit_run(s, at + 1);
    let word_end = at + 1 + ident_run(s, at + 1);
    let number_end = at + 1 + digit_run(s, at + 1);
    assert(t.subrange(n + at, n + word_end) =~= s.subrange(at, word_end));
    assert(t.subrange(n + at, n + number_end) =~= s.subrange(at, number_end));
    assert(t.subrange(n + at, n + at + 1) =~= s.subrange(at, at + 1));
    if at + 1 < s.len() {
        assert(t.subrange(n + at, n + at + 2) =~= s.subrange(at, at + 2));
    }
}

/// The tokens of a text do not depend on what stands before the place
/// where the lexing begins.
proof fn lemma_lex_from_shift(p: Seq<char>, s: Seq<char>, at: int)
    requires
        0 <= at,
        lex_from(s, at) is Ok,
    ensures
        lex_from(p + s, p.len() + at) == lex_from(s, at),
    decreases s.len() - at,
{
    if at < s.len() {
        assert((p + s)[p.len() + at] == s[at]);
        if whitespace(s[at]) {
            lemma_lex_from_shift(p, s, at + 1);
        } else {
            lemma_token_at_shift(p, s, at);
            lemma_ident_run(s, at + 1);
            lemma_digit_run(s, at + 1);
            lemma_lex_from_shift(p, s, token_at(s, at)->Ok_0.1);
        }
    }
}

/// The text of a sequence of tokens begins with the text of the first.
proof fn lemma_tokens_text_front(ts: Seq<TokenView>)
    requires
        ts.len() > 0,
    ensures
        tokens_text(ts) == token_text(ts[0]) + seq![' '] + tokens_text(ts.drop_first()),
    decreases ts.len(),
{
    if ts.len() == 1 {
        assert(ts.drop_last() =~= Seq::<TokenView>::empty());
        assert(ts.drop_first() =~= Seq::<TokenView>::empty());
        assert(tokens_text(ts) =~= token_text(ts[0]) + seq![' '] + tokens_text(ts.drop_first()));
    } else {
        lemma_tokens_text_front(ts.drop_last());
        assert(ts.drop_first().drop_last() =~= ts.drop_last().drop_first());
        assert(tokens_text(ts) =~= token_text(ts[0]) + seq![' '] + tokens_text(ts.drop_first()));
    }
}

/// A word followed by a space is lexed as that word.
proof fn lemma_first_word(word: Seq<char>, tail: Seq<char>)
    requires
        is_word(word),
    ensures
        ({
            let text = word + seq![' '] + tail;
            let token = if is_keyword(word) {
                TokenView::Keyword(word)
            } else {
                TokenView::Identifier(word)
            };
            !whitespace(text[0]) && token_at(text, 0) == Ok::<(TokenView, int), LexErrorView>(
                (token, word.len() as int),
            )
        }),
{
    let text = word + seq![' '] + tail;
    let n = word.len() as int;
    assert(text[0] == word[0]);
    assert(text[n] == ' ');
    assert forall|i: int| 1 <= i < n implies ident_continue(#[trigger] text[i]) by {
        assert(text[i] == word[i]);
    }
    lemma_ident_run_reaches(text, 1, n);
    assert(ident_run(text, n) == 0);
    assert(text.subrange(0, n) =~= word);
}

/// The digits of a number that fits, followed by a space, are lexed as that
/// number.
proof fn lemma_first_number(value: int, tail: Seq<char>)
    requires
        0 <= value <= i64::MAX,
    ensures
        ({
            let text = digits_of(value as nat) + seq![' '] + tail;
            !whitespace(text[0]) && token_at(text, 0) == Ok::<(TokenView, int), LexErrorView>(
                (TokenView::Number(value), digits_of(value as nat).len() as int),
            )
        }),
{
    let digits = digits_of(value as nat);
    let text = digits + seq![' '] + tail;
    let n = digits.len() as int;
    lemma_digits_of(value as nat);
    assert(text[0] == digits[0]);
    assert(text[n] == ' ');
    assert forall|i: int| 1 <= i < n implies digit(#[trigger] text[i]) by {
        assert(text[i] == digits[i]);
    }
    lemma_digit_run_reaches(text, 1, n);
    assert(digit_run(text, n) == 0);
    assert(text.subrange(0, n) =~= digits);
}

/// An operator followed by a space is lexed as that operator.
proof fn lemma_first_operator(sign: Seq<char>, tail: Seq<char>)
    requires
        is_operator(sign),
    ensures
        ({
            let text = sign + seq![' '] + tail;
            !whitespace(text[0]) && token_at(text, 0) == Ok::<(TokenView, int), LexErrorView>(
                (TokenView::Operator(sign), sign.len() as int),
            )
        }),
{
    reveal_strlit("==");
    reveal_strlit("!=");
    reveal_strlit(">=");
    reveal_strlit("<=");
    reveal_strlit("=");
    reveal_strlit(">");
    reveal_strlit("<");
    let text = sign + seq![' '] + tail;
    assert(text[0] == sign[0]);
    if sign.len() == 2 {
        assert(text[1] == sign[1]);
        assert(text.subrange(0, 2) =~= sign);
    } else {
        assert(text[1] == ' ');
        assert(text.subrange(0, 1) =~= sign);
    }
}

/// The text of a lexable token, followed by a space, is lexed as that
/// token.
proof fn lemma_first_token(t: TokenView, tail: Seq<char>)
    requires
        lexable(t),
    ensures
        ({
            let text = token_text(t) + seq![' '] + tail;
            !whitespace(text[0]) && token_at(text, 0) == Ok::<(TokenView, int), LexErrorView>(
                (t, token_text(t).len() as int),
            )
        }),
{
    let text = token_text(t) + seq![' '] + tail;
    match t {
        TokenView::Keyword(word) => {
            lemma_keyword_is_word(word);
            lemma_first_word(word, tail);
        },
        TokenView::Identifier(name) => {
            lemma_first_word(name, tail);
        },
        TokenView::Number(n) => {
            lemma_first_number(n, tail);
        },
        TokenView::Symbol(c) => {
            assert(text[0] == c);
            assert(text[1] == ' ');
        },
        TokenView::Operator(sign) => {
            lemma_first_operator(sign, tail);
        },
    }
}

/// The text that writes lexable tokens is lexed as those tokens.
pub proof fn lemma_text_is_lexed_back(ts: Seq<TokenView>)
    requires
        all_lexable(ts),
    ensures
        lexed(tokens_text(ts)) == Ok::<Seq<TokenView>, LexErrorView>(ts),
    decreases ts.len(),
{
    if ts.len() == 0 {
        assert(ts =~= Seq::<TokenView>::empty());
    } else {
        let first = ts[0];
        let others = ts.drop_first();
        let head = token_text(first) + seq![' '];
        let tail = tokens_text(others);
        let text = tokens_text(ts);
        let n = token_text(first).len() as int;
        lemma_tokens_text_front(ts);
        assert(all_lexable(others)) by {
            assert forall|i: int| 0 <= i < others.len() implies lexable(#[trigger] others[i]) by {
                assert(others[i] == ts[i + 1]);
            }
        }
        lemma_text_is_lexed_back(others);
        lemma_first_token(first, tail);
        assert(text[n] == ' ');
        assert(text == head + tail);
        lemma_lex_from_shift(head, tail, 0);
        assert(lex_from(text, n + 1) == Ok::<Seq<TokenView>, LexErrorView>(others));
        assert(lex_from(text, n) == lex_from(text, n + 1));
        assert(seq![first] + others =~= ts);
    }
}

/// Every token that the lexer gives is lexable.
pub proof fn lemma_lexed_is_lexable(s: Seq<char>, at: int)
    requires
        0 <= at,
        lex_from(s, at) is Ok,
    ensures
        all_lexable(lex_from(s, at)->Ok_0),
    decreases s.len() - at,
{
    if at < s.len() {
        if whitespace(s[at]) {
            lemma_lexed_is_lexable(s, at + 1);
        } else {
            let (token, end) = token_at(s, at)->Ok_0;
            lemma_ident_run(s, at + 1);
            lemma_digit_run(s, at + 1);
            lemma_lexed_is_lexable(s, end);
            let others = lex_from(s, end)->Ok_0;
            let all = seq![token] + others;
            assert(lexable(token)) by {
                lemma_token_at_is_lexable(s, at);
            }
            assert forall|i: int| 0 <= i < all.len() implies lexable(#[trigger] all[i]) by {
                if i > 0 {
                    assert(all[i] == others[i - 1]);
                }
            }
        }
    }
}

/// The token that begins at a place is lexable.
proof fn lemma_token_at_is_lexable(s: Seq<char>, at: int)
    requires
        0 <= at < s.len(),
        !whitespace(s[at]),
        token_at(s, at) is Ok,
    ensures
        lexable(token_at(s, at)->Ok_0.0),
{
    reveal_strlit("==");
    reveal_strlit("!=");
    reveal_strlit(">=");
    reveal_strlit("<=");
    reveal_strlit("=");
    reveal_strlit(">");
    reveal_strlit("<");
    lemma_ident_run(s, at + 1);
    let c = s[at];
    if ident_start(c) {
        let end = at + 1 + ident_run(s, at + 1);
        let word = s.subrange(at, end);
        assert(word[0] == s[at]);
        assert forall|i: int| 1 <= i < word.len() implies ident_continue(#[trigger] word[i]) by {
            assert(word[i] == s[at + i]);
        }
    } else if digit(c) {
    } else if at + 1 < s.len() && crate::token::is_operator_pair(c, s[at + 1]) {
        let sign = s.subrange(at, at + 2);
        assert(sign[0] == c && sign[1] == '=');
        assert(sign =~= seq![c, '=']);
        assert("=="@ =~= seq!['=', '=']);
        assert("!="@ =~= seq!['!', '=']);
        assert(">="@ =~= seq!['>', '=']);
        assert("<="@ =~= seq!['<', '=']);
    } else if crate::token::is_operator_char(c) {
        let sign = s.subrange(at, at + 1);
        assert(sign =~= seq![c]);
        assert("="@ =~= seq!['=']);
        assert(">"@ =~= seq!['>']);
        assert("<"@ =~= seq!['<']);
    }
}

/// Round trip of the lexer: the text that writes the tokens of a lexed
/// text is lexed as the same tokens.
pub proof fn lemma_lexed_text_round_trips(s: Seq<char>)
    requires
        lexed(s) is Ok,
    ensures
        lexed(tokens_text(lexed(s)->Ok_0)) == lexed(s),
{
    lemma_lexed_is_lexable(s, 0);
    lemma_text_is_lexed_back(lexed(s)->Ok_0);
}

/// Round trip of a condition through text: a condition parsed from the
/// tokens of a text, written back as text, is lexed as the tokens that
/// write it, and these are parsed as the same condition.
pub proof fn lemma_condition_text_round_trips(s: Seq<char>, pos: int)
    requires
        lexed(s) is Ok,
        0 <= pos,
        condition(lexed(s)->Ok_0, pos).result is Ok,
    ensures
        ({
            let e = condition(lexed(s)->Ok_0, pos).result->Ok_0;
            &&& lexed(tokens_text(expr_tokens(e))) == Ok::<Seq<TokenView>, LexErrorView>(
                expr_tokens(e),
            )
            &&& condition(expr_tokens(e), 0) == done(e, expr_tokens(e).len())
        }),
{
    let ts = lexed(s)->Ok_0;
    let step = condition(ts, pos);
    let e = step.result->Ok_0;
    let written = expr_tokens(e);
    lemma_lexed_is_lexable(s, 0);
    lemma_condition_reads(ts, pos);
    assert(all_lexable(written)) by {
        assert forall|i: int| 0 <= i < written.len() implies lexable(#[trigger] written[i]) by {
            assert(written[i] == ts.subrange(pos, pos + step.used)[i]);
            assert(written[i] == ts[pos + i]);
        }
    }
    lemma_text_is_lexed_back(written);
    lemma_canonical_round_trips(e);
}

} // verus!
