//! What holds of the lexer on every text.

use crate::charclass::{digit, ident_continue, ident_start, whitespace};
use crate::lexer::{
    decimal, digit_run, ident_run, lex_from, lexed, token_at, LexErrorView,
};
use crate::token::{is_keyword, is_operator_char, is_operator_pair, is_symbol, TokenView};
use vstd::prelude::*;

verus! {

/// A text in the shape of an identifier: it begins with a character that
/// opens an identifier, and goes on with characters that continue one.
/// (Whitespace is dropped before anything else is looked at, so a character
/// that opens an identifier is one that is no whitespace.)
pub open spec fn is_word(s: Seq<char>) -> bool {
    &&& s.len() > 0
    &&& !whitespace(s[0])
    &&& ident_start(s[0])
    &&& forall|i: int| 1 <= i < s.len() ==> ident_continue(#[trigger] s[i])
}

/// A character that begins no token and is no whitespace. The exclamation
/// mark begins one only before an equals sign.
pub open spec fn begins_nothing(c: char) -> bool {
    &&& !whitespace(c)
    &&& !ident_start(c)
    &&& !digit(c)
    &&& !is_operator_char(c)
    &&& !is_symbol(c)
}

/// A run of identifier characters ends at the end of the text or before a
/// character that does not continue an identifier, and not earlier.
pub proof fn lemma_ident_run(s: Seq<char>, from: int)
    requires
        0 <= from,
    ensures
        from + ident_run(s, from) <= s.len() || ident_run(s, from) == 0,
        forall|i: int| from <= i < from + ident_run(s, from) ==> ident_continue(#[trigger] s[i]),
        from + ident_run(s, from) < s.len() ==> !ident_continue(s[from + ident_run(s, from)]),
    decreases s.len() - from,
{
    if from < s.len() && ident_continue(s[from]) {
        lemma_ident_run(s, from + 1);
    }
}

/// A run of digits ends at the end of the text or before a character that
/// is no digit, and not earlier.
pub proof fn lemma_digit_run(s: Seq<char>, from: int)
    requires
        0 <= from,
    ensures
        from + digit_run(s, from) <= s.len() || digit_run(s, from) == 0,
        forall|i: int| from <= i < from + digit_run(s, from) ==> digit(#[trigger] s[i]),
        from + digit_run(s, from) < s.len() ==> !digit(s[from + digit_run(s, from)]),
    decreases s.len() - from,
{
    if from < s.len() && digit(s[from]) {
        lemma_digit_run(s, from + 1);
    }
}

/// Where every character up to `to` continues an identifier, the run
/// reaches `to`.
pub proof fn lemma_ident_run_reaches(s: Seq<char>, from: int, to: int)
    requires
        0 <= from <= to <= s.len(),
        forall|i: int| from <= i < to ==> ident_continue(#[trigger] s[i]),
    ensures
        ident_run(s, from) == (to - from) + ident_run(s, to),
    decreases to - from,
{
    if from < to {
        lemma_ident_run_reaches(s, from + 1, to);
    }
}

/// Where every character up to `to` is a digit, the run reaches `to`.
pub proof fn lemma_digit_run_reaches(s: Seq<char>, from: int, to: int)
    requires
        0 <= from <= to <= s.len(),
        forall|i: int| from <= i < to ==> digit(#[trigger] s[i]),
    ensures
        digit_run(s, from) == (to - from) + digit_run(s, to),
    decreases to - from,
{
    if from < to {
        lemma_digit_run_reaches(s, from + 1, to);
    }
}

/// Maximal munch: a token is the longest that can begin where it begins.
/// An identifier or a keyword ends where no character continues it, a
/// number where no digit follows, and a single operator character is
/// followed by nothing that would make a pair with it.
pub proof fn lemma_maximal_munch(s: Seq<char>, at: int)
    requires
        0 <= at < s.len(),
        token_at(s, at) is Ok,
    ensures
        ({
            let (token, end) = token_at(s, at)->Ok_0;
            &&& at < end <= s.len()
            &&& (token is Identifier || token is Keyword) ==> (end == s.len() || !ident_continue(
                s[end],
            ))
            &&& token is Number ==> (end == s.len() || !digit(s[end]))
            &&& (token is Operator && end == at + 1) ==> (end == s.len() || !is_operator_pair(
                s[at],
                s[end],
            ))
        }),
{
    lemma_ident_run(s, at + 1);
    lemma_digit_run(s, at + 1);
}

/// Keyword closure, first half: a text in the shape of an identifier is
/// one token, a keyword if it is one of the reserved words and an
/// identifier if it is any other.
pub proof fn lemma_word_is_one_token(s: Seq<char>)
    requires
        is_word(s),
    ensures
        is_keyword(s) ==> lexed(s) == Ok::<Seq<TokenView>, LexErrorView>(
            seq![TokenView::Keyword(s)],
        ),
        !is_keyword(s) ==> lexed(s) == Ok::<Seq<TokenView>, LexErrorView>(
            seq![TokenView::Identifier(s)],
        ),
{
    lemma_ident_run_reaches(s, 1, s.len() as int);
    assert(ident_run(s, s.len() as int) == 0);
    assert(s.subrange(0, s.len() as int) =~= s);
    assert(lex_from(s, s.len() as int) == Ok::<Seq<TokenView>, LexErrorView>(Seq::empty()));
    assert(seq![TokenView::Keyword(s)] + Seq::<TokenView>::empty() =~= seq![
        TokenView::Keyword(s),
    ]);
    assert(seq![TokenView::Identifier(s)] + Seq::<TokenView>::empty() =~= seq![
        TokenView::Identifier(s),
    ]);
}

/// Every reserved word has the shape of an identifier.
pub proof fn lemma_keyword_is_word(s: Seq<char>)
    requires
        is_keyword(s),
    ensures
        is_word(s),
{
    reveal_strlit("rule");
    reveal_strlit("if");
    reveal_strlit("then");
    reveal_strlit("in");
    reveal_strlit("and");
    reveal_strlit("or");
    reveal_strlit("not");
    reveal_strlit("delete");
    reveal_strlit("mask");
    reveal_strlit("notify");
    reveal_strlit("encrypt");
}

/// Keyword closure, second half: each of the reserved words is lexed as
/// one keyword.
pub proof fn lemma_keyword_is_one_token(s: Seq<char>)
    requires
        is_keyword(s),
    ensures
        lexed(s) == Ok::<Seq<TokenView>, LexErrorView>(seq![TokenView::Keyword(s)]),
{
    lemma_keyword_is_word(s);
    lemma_word_is_one_token(s);
}

/// The position given with an unexpected character is the number
/// of characters before it: after `k` characters of whitespace, a
/// character that begins no token, alone or with the one after it, is
/// the error, with the position `k`.
pub proof fn lemma_unexpected_after_whitespace(s: Seq<char>, k: int)
    requires
        0 <= k < s.len(),
        forall|i: int| 0 <= i < k ==> whitespace(#[trigger] s[i]),
        begins_nothing(s[k]),
        k + 1 < s.len() ==> !is_operator_pair(s[k], s[k + 1]),
    ensures
        lexed(s) == Err::<Seq<TokenView>, LexErrorView>(
            LexErrorView::UnexpectedCharacter(s[k], k as nat),
        ),
{
    lemma_skips_whitespace(s, 0, k);
}

/// Whitespace is skipped: the tokens from `from` on are those from `to` on
/// if only whitespace stands between the two.
pub proof fn lemma_skips_whitespace(s: Seq<char>, from: int, to: int)
    requires
        0 <= from <= to <= s.len(),
        forall|i: int| from <= i < to ==> whitespace(#[trigger] s[i]),
    ensures
        lex_from(s, from) == lex_from(s, to),
    decreases to - from,
{
    if from < to {
        lemma_skips_whitespace(s, from + 1, to);
    }
}

/// What an error of the lexer says is true of the text. An unexpected
/// character stands at the position given, and is neither whitespace
/// nor the beginning of a token. An invalid number literal is a run of
/// digits taken from the text, and it writes a number that a 64-bit signed
/// integer cannot hold.
pub proof fn lemma_error_is_justified(s: Seq<char>, at: int)
    requires
        0 <= at,
        lex_from(s, at) is Err,
    ensures
        match lex_from(s, at)->Err_0 {
            LexErrorView::UnexpectedCharacter(c, k) => {
                &&& at <= k < s.len()
                &&& s[k as int] == c
                &&& begins_nothing(c)
                &&& k + 1 < s.len() ==> !is_operator_pair(c, s[k as int + 1])
            },
            LexErrorView::InvalidNumberLiteral(text) => {
                &&& text.len() > 0
                &&& forall|i: int| 0 <= i < text.len() ==> digit(#[trigger] text[i])
                &&& decimal(text) > i64::MAX
                &&& exists|from: int|
                    at <= from && from + text.len() <= s.len() && #[trigger] s.subrange(
                        from,
                        from + text.len(),
                    ) == text
            },
        },
    decreases s.len() - at,
{
    if at < s.len() {
        if whitespace(s[at]) {
            lemma_error_is_justified(s, at + 1);
            match lex_from(s, at)->Err_0 {
                LexErrorView::InvalidNumberLiteral(text) => {
                    let from = choose|from: int|
                        at + 1 <= from && from + text.len() <= s.len() && #[trigger] s.subrange(
                            from,
                            from + text.len(),
                        ) == text;
                    assert(s.subrange(from, from + text.len()) == text);
                },
                _ => {},
            }
        } else {
            match token_at(s, at) {
                Ok((token, end)) => {
                    lemma_maximal_munch(s, at);
                    lemma_error_is_justified(s, end);
                    match lex_from(s, at)->Err_0 {
                        LexErrorView::InvalidNumberLiteral(text) => {
                            let from = choose|from: int|
                                end <= from && from + text.len() <= s.len()
                                    && #[trigger] s.subrange(from, from + text.len()) == text;
                            assert(s.subrange(from, from + text.len()) == text);
                        },
                        _ => {},
                    }
                },
                Err(LexErrorView::InvalidNumberLiteral(text)) => {
                    lemma_digit_run(s, at + 1);
                    let end = at + 1 + digit_run(s, at + 1);
                    assert(s.subrange(at, at + text.len()) == text);
                },
                Err(_) => {},
            }
        }
    }
}

/// A run of identifier characters is the same in a text and in its
/// beginning, if the beginning ends before a character that continues no
/// identifier.
proof fn lemma_ident_run_prefix(s: Seq<char>, k: int, from: int)
    requires
        0 <= from <= k < s.len(),
        !ident_continue(s[k]),
    ensures
        ident_run(s.take(k), from) == ident_run(s, from),
    decreases k - from,
{
    if from < k {
        assert(s.take(k)[from] == s[from]);
        lemma_ident_run_prefix(s, k, from + 1);
    }
}

/// A run of digits is the same in a text and in its beginning, if the
/// beginning ends before a character that is no digit.
proof fn lemma_digit_run_prefix(s: Seq<char>, k: int, from: int)
    requires
        0 <= from <= k < s.len(),
        !digit(s[k]),
    ensures
        digit_run(s.take(k), from) == digit_run(s, from),
    decreases k - from,
{
    if from < k {
        assert(s.take(k)[from] == s[from]);
        lemma_digit_run_prefix(s, k, from + 1);
    }
}

/// A token of the beginning of a text is a token of the text, if the
/// beginning ends before a character that continues nothing.
proof fn lemma_token_at_prefix(s: Seq<char>, k: int, at: int)
    requires
        0 <= at < k < s.len(),
        !ident_continue(s[k]),
        !digit(s[k]),
        s[k] != '=',
        token_at(s.take(k), at) is Ok,
    ensures
        token_at(s, at) == token_at(s.take(k), at),
        at < token_at(s, at)->Ok_0.1 <= k,
{
    let t = s.take(k);
    assert(t[at] == s[at]);
    if at + 1 < k {
        assert(t[at + 1] == s[at + 1]);
    }
    lemma_ident_run_prefix(s, k, at + 1);
    lemma_digit_run_prefix(s, k, at + 1);
    lemma_ident_run(t, at + 1);
    lemma_digit_run(t, at + 1);
    let word_end = at + 1 + ident_run(t, at + 1);
    let number_end = at + 1 + digit_run(t, at + 1);
    assert(t.subrange(at, word_end) =~= s.subrange(at, word_end));
    assert(t.subrange(at, number_end) =~= s.subrange(at, number_end));
    assert(t.subrange(at, at + 1) =~= s.subrange(at, at + 1));
    if at + 1 < k {
        assert(t.subrange(at, at + 2) =~= s.subrange(at, at + 2));
    }
}

/// From any place within a beginning that is lexed without error, the
/// lexing of the whole text ends with the character after the beginning.
proof fn lemma_unexpected_after_prefix(s: Seq<char>, k: int, at: int)
    requires
        0 <= at <= k < s.len(),
        lex_from(s.take(k), at) is Ok,
        begins_nothing(s[k]),
        !ident_continue(s[k]),
        k + 1 < s.len() ==> !is_operator_pair(s[k], s[k + 1]),
    ensures
        lex_from(s, at) == Err::<Seq<TokenView>, LexErrorView>(
            LexErrorView::UnexpectedCharacter(s[k], k as nat),
        ),
    decreases k - at,
{
    if at < k {
        assert(s.take(k)[at] == s[at]);
        if whitespace(s[at]) {
            lemma_unexpected_after_prefix(s, k, at + 1);
        } else {
            lemma_token_at_prefix(s, k, at);
            lemma_unexpected_after_prefix(s, k, token_at(s, at)->Ok_0.1);
        }
    }
}

/// The position given with an unexpected character is the number of
/// characters before it, whatever they are: where the `k` characters
/// before it are lexed without error, a character that neither begins a
/// token, alone or with the one after it, nor continues an identifier is
/// the error of the whole text, with the position `k`.
pub proof fn lemma_unexpected_character_position(s: Seq<char>, k: int)
    requires
        0 <= k < s.len(),
        lexed(s.take(k)) is Ok,
        begins_nothing(s[k]),
        !ident_continue(s[k]),
        k + 1 < s.len() ==> !is_operator_pair(s[k], s[k + 1]),
    ensures
        lexed(s) == Err::<Seq<TokenView>, LexErrorView>(
            LexErrorView::UnexpectedCharacter(s[k], k as nat),
        ),
{
    lemma_unexpected_after_prefix(s, k, 0);
}

/// The character `@` begins nothing and continues nothing: after any text
/// that is lexed without error it is the error, with the length of that
/// text as its position.
pub proof fn lemma_at_sign_position(s: Seq<char>, k: int)
    requires
        0 <= k < s.len(),
        lexed(s.take(k)) is Ok,
        s[k] == '@',
    ensures
        lexed(s) == Err::<Seq<TokenView>, LexErrorView>(
            LexErrorView::UnexpectedCharacter('@', k as nat),
        ),
{
    lemma_unexpected_character_position(s, k);
}

} // verus!
