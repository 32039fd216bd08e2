use rule_dsl::charclass::{is_blank, is_digit, is_ident_continue, is_ident_start};
use rule_dsl::text::{chars_of, text_of};
use rule_dsl::token::{keyword, symbol};
use rule_dsl::{lex, LexError, Token};

fn kw(s: &str) -> Token {
    Token::Keyword(s.to_string())
}

fn id(s: &str) -> Token {
    Token::Identifier(s.to_string())
}

fn op(s: &str) -> Token {
    Token::Operator(s.to_string())
}

#[test]
fn empty_text_has_no_tokens() {
    assert_eq!(lex(""), Ok(vec![]));
    assert_eq!(lex("  \t\r\n "), Ok(vec![]));
}

#[test]
fn reserved_words_are_keywords() {
    let words = [
        "rule", "if", "then", "in", "and", "or", "not", "delete", "mask", "notify", "encrypt",
    ];
    for w in words {
        assert_eq!(lex(w), Ok(vec![kw(w)]), "{w}");
        assert!(keyword(w));
    }
}

#[test]
fn keywords_are_case_sensitive() {
    assert_eq!(lex("Rule"), Ok(vec![id("Rule")]));
    assert_eq!(lex("IF"), Ok(vec![id("IF")]));
    assert_eq!(lex("Then"), Ok(vec![id("Then")]));
    assert_eq!(lex("maSk"), Ok(vec![id("maSk")]));
    assert!(!keyword("Rule"));
    assert!(!keyword("let"));
    assert!(!keyword(""));
}

#[test]
fn other_words_are_identifiers() {
    assert_eq!(lex("rules"), Ok(vec![id("rules")]));
    assert_eq!(lex("i"), Ok(vec![id("i")]));
    assert_eq!(lex("_"), Ok(vec![id("_")]));
    assert_eq!(lex("_x1"), Ok(vec![id("_x1")]));
    assert_eq!(lex("age_in_days"), Ok(vec![id("age_in_days")]));
    assert_eq!(lex("in_"), Ok(vec![id("in_")]));
}

#[test]
fn maximal_munch_of_identifiers() {
    assert_eq!(lex("delete123"), Ok(vec![id("delete123")]));
    assert_eq!(lex("notify_"), Ok(vec![id("notify_")]));
    assert_eq!(lex("ifthen"), Ok(vec![id("ifthen")]));
    assert_eq!(lex("if then"), Ok(vec![kw("if"), kw("then")]));
}

#[test]
fn a_number_ends_where_a_letter_begins() {
    assert_eq!(lex("12abc"), Ok(vec![Token::Number(12), id("abc")]));
    assert_eq!(lex("30days"), Ok(vec![Token::Number(30), id("days")]));
    assert_eq!(lex("4_2"), Ok(vec![Token::Number(4), id("_2")]));
}

#[test]
fn two_character_operators_are_one_token() {
    assert_eq!(lex("=="), Ok(vec![op("==")]));
    assert_eq!(lex("!="), Ok(vec![op("!=")]));
    assert_eq!(lex(">="), Ok(vec![op(">=")]));
    assert_eq!(lex("<="), Ok(vec![op("<=")]));
}

#[test]
fn one_character_operators() {
    assert_eq!(lex("="), Ok(vec![op("=")]));
    assert_eq!(lex(">"), Ok(vec![op(">")]));
    assert_eq!(lex("<"), Ok(vec![op("<")]));
    assert_eq!(lex("= ="), Ok(vec![op("="), op("=")]));
    assert_eq!(lex("==="), Ok(vec![op("=="), op("=")]));
    assert_eq!(lex(">=="), Ok(vec![op(">="), op("=")]));
    assert_eq!(lex("<>"), Ok(vec![op("<"), op(">")]));
    assert_eq!(lex("=>"), Ok(vec![op("="), op(">")]));
}

#[test]
fn a_lone_exclamation_mark_is_no_token() {
    assert_eq!(lex("!"), Err(LexError::UnexpectedCharacter('!', 0)));
    assert_eq!(lex("a ! b"), Err(LexError::UnexpectedCharacter('!', 2)));
    assert_eq!(lex("!>"), Err(LexError::UnexpectedCharacter('!', 0)));
}

#[test]
fn symbols_are_single_characters() {
    let expected: Vec<Token> = "{}()[],.;".chars().map(Token::Symbol).collect();
    assert_eq!(lex("{}()[],.;"), Ok(expected));
    for c in "{}()[],.;".chars() {
        assert!(symbol(c));
    }
    for c in "@#:+-*/=<>!a0 ".chars() {
        assert!(!symbol(c));
    }
}

#[test]
fn dotted_path_is_three_tokens() {
    assert_eq!(lex("user.age"), Ok(vec![id("user"), Token::Symbol('.'), id("age")]));
}

#[test]
fn numbers_are_read_in_base_ten() {
    assert_eq!(lex("0"), Ok(vec![Token::Number(0)]));
    assert_eq!(lex("18"), Ok(vec![Token::Number(18)]));
    assert_eq!(lex("007"), Ok(vec![Token::Number(7)]));
    assert_eq!(lex("1234567890"), Ok(vec![Token::Number(1234567890)]));
    assert_eq!(lex("1 2"), Ok(vec![Token::Number(1), Token::Number(2)]));
}

#[test]
fn the_largest_number_fits() {
    assert_eq!(lex("9223372036854775807"), Ok(vec![Token::Number(i64::MAX)]));
    assert_eq!(lex("0009223372036854775807"), Ok(vec![Token::Number(i64::MAX)]));
}

#[test]
fn a_number_too_large_is_an_error() {
    assert_eq!(
        lex("9223372036854775808"),
        Err(LexError::InvalidNumberLiteral("9223372036854775808".to_string()))
    );
    assert_eq!(
        lex("x > 99999999999999999999999999 days"),
        Err(LexError::InvalidNumberLiteral("99999999999999999999999999".to_string()))
    );
    assert_eq!(
        lex("10000000000000000000"),
        Err(LexError::InvalidNumberLiteral("10000000000000000000".to_string()))
    );
}

#[test]
fn a_minus_sign_is_no_token() {
    assert_eq!(lex("-5"), Err(LexError::UnexpectedCharacter('-', 0)));
}

#[test]
fn unexpected_character_reports_its_index() {
    assert_eq!(lex("@"), Err(LexError::UnexpectedCharacter('@', 0)));
    assert_eq!(lex("   @"), Err(LexError::UnexpectedCharacter('@', 3)));
    assert_eq!(lex("ab @"), Err(LexError::UnexpectedCharacter('@', 3)));
    assert_eq!(lex("a == 1 @ b"), Err(LexError::UnexpectedCharacter('@', 7)));
    assert_eq!(lex("a\n\t@"), Err(LexError::UnexpectedCharacter('@', 3)));
}

#[test]
fn positions_count_characters_not_bytes() {
    assert_eq!(lex("é @"), Err(LexError::UnexpectedCharacter('@', 2)));
    assert_eq!(lex("名前 == 1 #"), Err(LexError::UnexpectedCharacter('#', 8)));
}

#[test]
fn the_first_error_wins() {
    assert_eq!(lex("@ 99999999999999999999"), Err(LexError::UnexpectedCharacter('@', 0)));
    assert_eq!(
        lex("99999999999999999999 @"),
        Err(LexError::InvalidNumberLiteral("99999999999999999999".to_string()))
    );
}

#[test]
fn every_kind_of_whitespace_separates() {
    assert_eq!(lex("a\tb\nc\rd\u{0B}e\u{0C}f g"), Ok("abcdefg".chars().map(|c| id(&c.to_string())).collect()));
    assert_eq!(lex("a\u{00A0}b"), Ok(vec![id("a"), id("b")]));
    assert_eq!(lex("a\u{2003}b\u{3000}c\u{0085}d"), Ok(vec![id("a"), id("b"), id("c"), id("d")]));
}

#[test]
fn letters_beyond_ascii_make_identifiers() {
    assert_eq!(lex("größe"), Ok(vec![id("größe")]));
    assert_eq!(lex("名前"), Ok(vec![id("名前")]));
    assert_eq!(lex("x²"), Ok(vec![id("x²")]));
    assert_eq!(lex("a٣"), Ok(vec![id("a٣")]));
}

#[test]
fn a_digit_beyond_ascii_begins_no_token() {
    assert_eq!(lex("٣"), Err(LexError::UnexpectedCharacter('٣', 0)));
    assert_eq!(lex("²"), Err(LexError::UnexpectedCharacter('²', 0)));
}

#[test]
fn other_characters_beyond_ascii_are_unexpected() {
    assert_eq!(lex("a €"), Err(LexError::UnexpectedCharacter('€', 2)));
    assert_eq!(lex("💝"), Err(LexError::UnexpectedCharacter('💝', 0)));
}

#[test]
fn ascii_classes_are_those_of_the_standard_library() {
    for code in 0u8..128 {
        let c = code as char;
        assert_eq!(is_blank(c), c.is_whitespace(), "{code}");
        assert_eq!(is_ident_start(c), c.is_alphabetic() || c == '_', "{code}");
        assert_eq!(is_ident_continue(c), c.is_alphanumeric() || c == '_', "{code}");
        assert_eq!(is_digit(c), c.is_ascii_digit(), "{code}");
    }
}

#[test]
fn classes_beyond_ascii_are_those_of_the_standard_library() {
    for c in ['\u{80}', '\u{85}', '\u{A0}', 'é', 'ß', '٣', '²', '€', '\u{2028}', '名', '💝'] {
        assert_eq!(is_blank(c), c.is_whitespace());
        assert_eq!(is_ident_start(c), c.is_alphabetic());
        assert_eq!(is_ident_continue(c), c.is_alphanumeric());
        assert!(!is_digit(c));
    }
}

#[test]
fn characters_of_a_text() {
    assert_eq!(chars_of(""), Vec::<char>::new());
    assert_eq!(chars_of("aé名"), vec!['a', 'é', '名']);
}

#[test]
fn text_of_a_range_of_characters() {
    let chars = vec!['a', 'é', '名', 'z'];
    assert_eq!(text_of(&chars, 0, 4), "aé名z");
    assert_eq!(text_of(&chars, 1, 3), "é名");
    assert_eq!(text_of(&chars, 2, 2), "");
}

#[test]
fn a_whole_statement() {
    assert_eq!(
        lex("if record.age_in_days > 30 days then delete;"),
        Ok(vec![
            kw("if"),
            id("record"),
            Token::Symbol('.'),
            id("age_in_days"),
            op(">"),
            Token::Number(30),
            id("days"),
            kw("then"),
            kw("delete"),
            Token::Symbol(';'),
        ])
    );
}

#[test]
fn tokens_need_no_space_between_them() {
    let expected = vec![
        id("a"),
        op(">="),
        Token::Number(1),
        kw("and"),
        Token::Symbol('('),
        id("b"),
        op("<"),
        Token::Number(2),
        Token::Symbol(')'),
    ];
    assert_eq!(lex("a>=1and(b<2)"), Ok(expected));
}

#[test]
fn cloned_token_is_equal() {
    for t in [kw("if"), id("x"), Token::Number(5), Token::Symbol(';'), op("==")] {
        assert_eq!(t.clone(), t);
    }
}
