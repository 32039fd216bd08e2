//! Character classes of the rule language.
//!
//! ASCII characters are classified here, by comparison, so that everything
//! the grammar itself is written in (letters, digits, blanks, punctuation)
//! is classified by proof. Beyond ASCII the Unicode tables of the standard
//! library decide, and their answers are taken on trust under a name each.

use vstd::prelude::*;

verus! {

/// What `char::is_whitespace` answers: whether the character has the Unicode
/// property `White_Space`.
pub uninterp spec fn unicode_whitespace(c: char) -> bool;

/// What `char::is_alphabetic` answers: whether the character has the Unicode
/// property `Alphabetic`.
pub uninterp spec fn unicode_alphabetic(c: char) -> bool;

/// What `char::is_alphanumeric` answers: whether the character is alphabetic
/// or numeric in Unicode's sense.
pub uninterp spec fn unicode_alphanumeric(c: char) -> bool;

/// `char::is_whitespace` is a function of the character alone; nothing more
/// is claimed of it than that its answer is the one named above.
pub assume_specification[ char::is_whitespace ](c: char) -> (b: bool)
    ensures
        b == unicode_whitespace(c),
;

/// `char::is_alphabetic` is a function of the character alone; nothing more
/// is claimed of it than that its answer is the one named above.
pub assume_specification[ char::is_alphabetic ](c: char) -> (b: bool)
    ensures
        b == unicode_alphabetic(c),
;

/// `char::is_alphanumeric` is a function of the character alone; nothing more
/// is claimed of it than that its answer is the one named above.
pub assume_specification[ char::is_alphanumeric ](c: char) -> (b: bool)
    ensures
        b == unicode_alphanumeric(c),
;

/// The character lies in the ASCII range.
pub open spec fn ascii(c: char) -> bool {
    c <= '\u{7f}'
}

/// An ASCII letter.
pub open spec fn ascii_letter(c: char) -> bool {
    ('a' <= c && c <= 'z') || ('A' <= c && c <= 'Z')
}

/// An ASCII decimal digit, the only characters a number literal is made of.
pub open spec fn digit(c: char) -> bool {
    '0' <= c && c <= '9'
}

/// The value of a decimal digit.
pub open spec fn digit_value(c: char) -> int
    recommends
        digit(c),
{
    c as int - '0' as int
}

/// Whitespace: it separates tokens and never belongs to one.
pub open spec fn whitespace(c: char) -> bool {
    if ascii(c) {
        c == ' ' || ('\t' <= c && c <= '\r')
    } else {
        unicode_whitespace(c)
    }
}

/// A character that may open an identifier: a letter or an underscore.
pub open spec fn ident_start(c: char) -> bool {
    if ascii(c) {
        ascii_letter(c) || c == '_'
    } else {
        unicode_alphabetic(c)
    }
}

/// A character that may continue an identifier: a letter, a digit or
/// an underscore.
pub open spec fn ident_continue(c: char) -> bool {
    if ascii(c) {
        ascii_letter(c) || digit(c) || c == '_'
    } else {
        unicode_alphanumeric(c)
    }
}

/// Whether a character is whitespace.
pub fn is_blank(c: char) -> (b: bool)
    ensures
        b == whitespace(c),
{
    if c <= '\u{7f}' {
        c == ' ' || ('\t' <= c && c <= '\r')
    } else {
        c.is_whitespace()
    }
}

/// Whether a character is an ASCII decimal digit.
pub fn is_digit(c: char) -> (b: bool)
    ensures
        b == digit(c),
{
    '0' <= c && c <= '9'
}

/// Whether a character may open an identifier.
pub fn is_ident_start(c: char) -> (b: bool)
    ensures
        b == ident_start(c),
{
    if c <= '\u{7f}' {
        ('a' <= c && c <= 'z') || ('A' <= c && c <= 'Z') || c == '_'
    } else {
        c.is_alphabetic()
    }
}

/// Whether a character may continue an identifier.
pub fn is_ident_continue(c: char) -> (b: bool)
    ensures
        b == ident_continue(c),
{
    if c <= '\u{7f}' {
        ('a' <= c && c <= 'z') || ('A' <= c && c <= 'Z') || ('0' <= c && c <= '9') || c == '_'
    } else {
        c.is_alphanumeric()
    }
}

} // verus!
