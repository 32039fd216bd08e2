//! The lexical units of the rule language.

use crate::text::same_text;
use vstd::prelude::*;

verus! {

/// A lexical unit.
#[derive(Debug, PartialEq, Eq)]
pub enum Token {
    /// One of the reserved words.
    Keyword(String),
    /// A name that is not reserved.
    Identifier(String),
    /// An integer literal.
    Number(i64),
    /// A single punctuation character.
    Symbol(char),
    /// A comparison or assignment sign, one or two characters long.
    Operator(String),
}

/// A token as a mathematical value: its texts are sequences of characters.
pub enum TokenView {
    Keyword(Seq<char>),
    Identifier(Seq<char>),
    Number(int),
    Symbol(char),
    Operator(Seq<char>),
}

impl View for Token {
    type V = TokenView;

    open spec fn view(&self) -> TokenView {
        match self {
            Token::Keyword(word) => TokenView::Keyword(word@),
            Token::Identifier(name) => TokenView::Identifier(name@),
            Token::Number(n) => TokenView::Number(*n as int),
            Token::Symbol(c) => TokenView::Symbol(*c),
            Token::Operator(sign) => TokenView::Operator(sign@),
        }
    }
}

impl DeepView for Token {
    type V = TokenView;

    open spec fn deep_view(&self) -> TokenView {
        self.view()
    }
}

impl Clone for Token {
    fn clone(&self) -> (copy: Self)
        ensures
            copy == *self,
    {
        match self {
            Token::Keyword(word) => Token::Keyword(word.clone()),
            Token::Identifier(name) => Token::Identifier(name.clone()),
            Token::Number(n) => Token::Number(*n),
            Token::Symbol(c) => Token::Symbol(*c),
            Token::Operator(sign) => Token::Operator(sign.clone()),
        }
    }
}

/// The reserved words. The match is exact and sensitive to case.
pub open spec fn is_keyword(word: Seq<char>) -> bool {
    ||| word == "rule"@
    ||| word == "if"@
    ||| word == "then"@
    ||| word == "in"@
    ||| word == "and"@
    ||| word == "or"@
    ||| word == "not"@
    ||| word == "delete"@
    ||| word == "mask"@
    ||| word == "notify"@
    ||| word == "encrypt"@
}

/// The punctuation characters that are tokens by themselves.
pub open spec fn is_symbol(c: char) -> bool {
    ||| c == '{'
    ||| c == '}'
    ||| c == '('
    ||| c == ')'
    ||| c == '['
    ||| c == ']'
    ||| c == ','
    ||| c == '.'
    ||| c == ';'
}

/// The characters that are an operator by themselves.
pub open spec fn is_operator_char(c: char) -> bool {
    c == '=' || c == '>' || c == '<'
}

/// The pairs of characters that are one operator together.
pub open spec fn is_operator_pair(first: char, second: char) -> bool {
    second == '=' && (first == '=' || first == '!' || first == '>' || first == '<')
}

/// Whether a word is reserved.
pub fn keyword(word: &str) -> (reserved: bool)
    ensures
        reserved == is_keyword(word@),
{
    same_text(word, "rule") || same_text(word, "if") || same_text(word, "then") || same_text(
        word,
        "in",
    ) || same_text(word, "and") || same_text(word, "or") || same_text(word, "not") || same_text(
        word,
        "delete",
    ) || same_text(word, "mask") || same_text(word, "notify") || same_text(word, "encrypt")
}

/// Whether a character is a symbol of the language.
pub fn symbol(c: char) -> (yes: bool)
    ensures
        yes == is_symbol(c),
{
    c == '{' || c == '}' || c == '(' || c == ')' || c == '[' || c == ']' || c == ',' || c == '.'
        || c == ';'
}

} // verus!
