use rule_dsl::render::tokens_to_text;
use rule_dsl::{lex, parse, CompOp, Expr, Field, Operand, Parser, Token};

fn kw(s: &str) -> Token {
    Token::Keyword(s.to_string())
}

fn id(s: &str) -> Token {
    Token::Identifier(s.to_string())
}

fn op(s: &str) -> Token {
    Token::Operator(s.to_string())
}

fn field(path: &str) -> Field {
    Field { segments: path.split('.').map(|s| s.to_string()).collect() }
}

fn eq(name: &str, value: i64) -> Expr {
    Expr::Compare { left: Operand::Field(field(name)), op: CompOp::Eq, right: Operand::Number(value) }
}

fn or(a: Expr, b: Expr) -> Expr {
    Expr::Or(Box::new(a), Box::new(b))
}

fn and(a: Expr, b: Expr) -> Expr {
    Expr::And(Box::new(a), Box::new(b))
}

fn condition(text: &str) -> Expr {
    Parser::new(lex(text).unwrap()).parse_condition().unwrap()
}

const CONDITIONS: [&str; 14] = [
    "a == 1",
    "a != b",
    "30 > x",
    "record.age_in_days > 30 days",
    "7 days <= 2 weeks",
    "status in [open]",
    "user.role in [admin, owner, guest]",
    "a == 1 and b == 2 or c == 3",
    "a == 1 or b == 2 and c == 3",
    "a == 1 or b == 2 or c == 3 or d == 4",
    "not not a == 1",
    "not (a == 1 or b == 2) and not c in [x]",
    "((a == 1))",
    "(user.country == blocked_country) or user.failed_logins >= 5 and größe < 9223372036854775807",
];

#[test]
fn a_parsed_condition_is_read_back_from_its_tokens() {
    for text in CONDITIONS {
        let e = condition(text);
        let tokens = e.to_tokens();
        assert_eq!(tokens, lex(text).unwrap(), "{text}");
        let mut p = Parser::new(tokens);
        assert_eq!(p.parse_condition(), Ok(e.clone()), "{text}");
        assert_eq!(p.peek(), None, "{text}");
    }
}

#[test]
fn a_parsed_condition_is_read_back_from_its_text() {
    for text in CONDITIONS {
        let e = condition(text);
        let written = e.to_text();
        assert_eq!(lex(&written), Ok(e.to_tokens()), "{text}");
        assert_eq!(condition(&written), e, "{text}");
    }
}

#[test]
fn the_tokens_of_a_text_are_read_back_from_their_text() {
    for text in [
        "",
        "rule r { if age > 18 and country in [US,CA] then mask }",
        "rule  a{if(x.y==1)then delete;}rule b{}",
        "= == != >= <= > < { } ( ) [ ] , . ;",
        "名前 größe _ x1 007 0 9223372036854775807",
        "if then in and or not rule delete mask notify encrypt",
    ] {
        let tokens = lex(text).unwrap();
        assert_eq!(lex(&tokens_to_text(&tokens)), Ok(tokens), "{text}");
    }
}

#[test]
fn a_program_is_read_back_from_the_text_of_its_tokens() {
    let text = "rule r { if a == 1 then mask; if b in [x, y] or not c < 3 then notify }";
    let tokens = lex(text).unwrap();
    let written = tokens_to_text(&tokens);
    assert_eq!(parse(lex(&written).unwrap()), parse(tokens));
}

#[test]
fn the_text_of_a_condition() {
    assert_eq!(condition("a==1").to_text(), "a == 1 ");
    assert_eq!(condition("x.y in[p,q]").to_text(), "x . y in [ p , q ] ");
    assert_eq!(condition("not(a>=2 days)").to_text(), "not ( a >= 2 days ) ");
    assert_eq!(
        condition("a == 1 and b != 2 or c < 3").to_text(),
        "a == 1 and b != 2 or c < 3 "
    );
}

#[test]
fn the_tokens_of_a_condition() {
    assert_eq!(
        condition("not (a.b <= 5 days)").to_tokens(),
        vec![
            kw("not"),
            Token::Symbol('('),
            id("a"),
            Token::Symbol('.'),
            id("b"),
            op("<="),
            Token::Number(5),
            id("days"),
            Token::Symbol(')'),
        ]
    );
    assert_eq!(
        condition("s in [x, y]").to_tokens(),
        vec![
            id("s"),
            kw("in"),
            Token::Symbol('['),
            id("x"),
            Token::Symbol(','),
            id("y"),
            Token::Symbol(']'),
        ]
    );
}

#[test]
fn every_comparison_is_written_with_its_own_sign() {
    for (sign, operator) in [
        ("==", CompOp::Eq),
        ("!=", CompOp::Ne),
        (">", CompOp::Gt),
        ("<", CompOp::Lt),
        (">=", CompOp::Ge),
        ("<=", CompOp::Le),
    ] {
        let e = Expr::Compare {
            left: Operand::Number(1),
            op: operator,
            right: Operand::Number(2),
        };
        assert_eq!(operator.as_str(), sign);
        assert_eq!(e.to_tokens(), vec![Token::Number(1), op(sign), Token::Number(2)]);
        assert_eq!(e.to_text(), format!("1 {sign} 2 "));
    }
}

#[test]
fn the_text_of_numbers() {
    let text = |n: i64| tokens_to_text(&vec![Token::Number(n)]);
    assert_eq!(text(0), "0 ");
    assert_eq!(text(7), "7 ");
    assert_eq!(text(10), "10 ");
    assert_eq!(text(1234567890), "1234567890 ");
    assert_eq!(text(i64::MAX), "9223372036854775807 ");
    assert_eq!(text(-5), "-5 ");
    assert_eq!(text(-100), "-100 ");
    assert_eq!(text(i64::MIN), "-9223372036854775808 ");
}

#[test]
fn the_text_of_tokens() {
    assert_eq!(tokens_to_text(&vec![]), "");
    assert_eq!(
        tokens_to_text(&vec![kw("if"), id("x"), op(">="), Token::Number(3), Token::Symbol(';')]),
        "if x >= 3 ; "
    );
}

#[test]
fn a_negative_number_is_not_read_back() {
    let tokens = vec![id("a"), op("<"), Token::Number(-5)];
    assert!(lex(&tokens_to_text(&tokens)).is_err());
}

#[test]
fn a_condition_that_is_not_canonical_is_read_back_as_another() {
    let built = and(or(eq("a", 1), eq("b", 2)), eq("c", 3));
    assert_eq!(built.to_text(), "a == 1 or b == 2 and c == 3 ");
    let read = condition(&built.to_text());
    assert_eq!(read, or(eq("a", 1), and(eq("b", 2), eq("c", 3))));
    assert_ne!(read, built);
}

#[test]
fn a_group_keeps_a_looser_condition_in_its_place() {
    let built = and(Expr::Group(Box::new(or(eq("a", 1), eq("b", 2)))), eq("c", 3));
    assert_eq!(built.to_text(), "( a == 1 or b == 2 ) and c == 3 ");
    assert_eq!(condition(&built.to_text()), built);
}

#[test]
fn cloned_condition_is_equal() {
    for text in CONDITIONS {
        let e = condition(text);
        assert_eq!(e.clone(), e);
    }
    let f = field("a.b.c");
    assert_eq!(f.clone(), f);
    let o = Operand::Duration { value: 3, unit: "days".to_string() };
    assert_eq!(o.clone(), o);
}
