use rule_dsl::{
    lex, parse, Action, CompOp, Expr, Field, Operand, ParseError, Parser, Program, Rule,
    Statement, Token,
};

fn kw(s: &str) -> Token {
    Token::Keyword(s.to_string())
}

fn id(s: &str) -> Token {
    Token::Identifier(s.to_string())
}

fn field(path: &str) -> Field {
    Field { segments: path.split('.').map(|s| s.to_string()).collect() }
}

fn f(path: &str) -> Operand {
    Operand::Field(field(path))
}

fn n(value: i64) -> Operand {
    Operand::Number(value)
}

fn cmp(left: Operand, op: CompOp, right: Operand) -> Expr {
    Expr::Compare { left, op, right }
}

fn eq(name: &str, value: i64) -> Expr {
    cmp(f(name), CompOp::Eq, n(value))
}

fn or(a: Expr, b: Expr) -> Expr {
    Expr::Or(Box::new(a), Box::new(b))
}

fn and(a: Expr, b: Expr) -> Expr {
    Expr::And(Box::new(a), Box::new(b))
}

fn not(a: Expr) -> Expr {
    Expr::Not(Box::new(a))
}

fn group(a: Expr) -> Expr {
    Expr::Group(Box::new(a))
}

fn member(path: &str, set: &[&str]) -> Expr {
    Expr::In { field: field(path), set: set.iter().map(|s| s.to_string()).collect() }
}

fn parser(text: &str) -> Parser {
    Parser::new(lex(text).unwrap())
}

fn condition(text: &str) -> Result<Expr, ParseError> {
    parser(text).parse_condition()
}

fn program(text: &str) -> Result<Program, ParseError> {
    parse(lex(text).unwrap())
}

fn expected(what: &str, found: Token) -> ParseError {
    ParseError::ExpectedButFound { expected: what.to_string(), found }
}

#[test]
fn and_binds_tighter_than_or() {
    assert_eq!(condition("a == 1 and b == 2 or c == 3"), Ok(or(and(eq("a", 1), eq("b", 2)), eq("c", 3))));
    assert_eq!(condition("a == 1 or b == 2 and c == 3"), Ok(or(eq("a", 1), and(eq("b", 2), eq("c", 3)))));
}

#[test]
fn or_and_and_associate_to_the_left() {
    assert_eq!(
        condition("a == 1 or b == 2 or c == 3"),
        Ok(or(or(eq("a", 1), eq("b", 2)), eq("c", 3)))
    );
    assert_eq!(
        condition("a == 1 and b == 2 and c == 3 and d == 4"),
        Ok(and(and(and(eq("a", 1), eq("b", 2)), eq("c", 3)), eq("d", 4)))
    );
}

#[test]
fn a_bare_field_is_no_condition() {
    assert_eq!(condition("a and b or c"), Err(expected("comparison operator", kw("and"))));
    assert_eq!(condition("a"), Err(ParseError::UnexpectedEndOfInput));
}

#[test]
fn not_nests_to_the_right() {
    assert_eq!(condition("not not a == 1"), Ok(not(not(eq("a", 1)))));
    assert_eq!(condition("not a == 1"), Ok(not(eq("a", 1))));
}

#[test]
fn not_binds_tighter_than_and() {
    assert_eq!(condition("not a == 1 and b == 2"), Ok(and(not(eq("a", 1)), eq("b", 2))));
    assert_eq!(condition("a == 1 and not b == 2"), Ok(and(eq("a", 1), not(eq("b", 2)))));
    assert_eq!(
        condition("not a == 1 or not b == 2"),
        Ok(or(not(eq("a", 1)), not(eq("b", 2))))
    );
}

#[test]
fn a_number_with_a_unit_is_a_duration() {
    let mut p = parser("30 days");
    assert_eq!(p.parse_operand(), Ok(Operand::Duration { value: 30, unit: "days".to_string() }));
    assert_eq!(p.peek(), None);
}

#[test]
fn a_number_without_a_unit_is_a_number() {
    let mut p = parser("30 then");
    assert_eq!(p.parse_operand(), Ok(Operand::Number(30)));
    assert_eq!(p.peek(), Some(&kw("then")));
    let mut p = parser("30");
    assert_eq!(p.parse_operand(), Ok(Operand::Number(30)));
    assert_eq!(p.peek(), None);
    let mut p = parser("30 40");
    assert_eq!(p.parse_operand(), Ok(Operand::Number(30)));
    assert_eq!(p.peek(), Some(&Token::Number(40)));
}

#[test]
fn an_operand_may_be_a_field() {
    let mut p = parser("user.address.city ==");
    assert_eq!(p.parse_operand(), Ok(f("user.address.city")));
    assert_eq!(p.peek(), Some(&Token::Operator("==".to_string())));
}

#[test]
fn an_operand_cannot_be_a_keyword() {
    let mut p = parser("then");
    assert_eq!(p.parse_operand(), Err(expected("identifier", kw("then"))));
    let mut p = parser("");
    assert_eq!(p.parse_operand(), Err(ParseError::UnexpectedEndOfInput));
}

#[test]
fn field_followed_by_in_is_a_membership_test() {
    assert_eq!(condition("status in [open, closed]"), Ok(member("status", &["open", "closed"])));
    assert_eq!(condition("user.role in [admin]"), Ok(member("user.role", &["admin"])));
}

#[test]
fn field_followed_by_an_operator_is_a_comparison() {
    assert_eq!(condition("status == open"), Ok(cmp(f("status"), CompOp::Eq, f("open"))));
    assert_eq!(
        condition("user.country == blocked.country"),
        Ok(cmp(f("user.country"), CompOp::Eq, f("blocked.country")))
    );
}

#[test]
fn a_comparison_may_begin_with_a_number() {
    assert_eq!(condition("30 > x"), Ok(cmp(n(30), CompOp::Gt, f("x"))));
    assert_eq!(
        condition("30 days >= record.age"),
        Ok(cmp(
            Operand::Duration { value: 30, unit: "days".to_string() },
            CompOp::Ge,
            f("record.age")
        ))
    );
    assert_eq!(condition("1 == 1"), Ok(cmp(n(1), CompOp::Eq, n(1))));
}

#[test]
fn every_comparison_operator() {
    assert_eq!(condition("a == 1"), Ok(cmp(f("a"), CompOp::Eq, n(1))));
    assert_eq!(condition("a != 1"), Ok(cmp(f("a"), CompOp::Ne, n(1))));
    assert_eq!(condition("a > 1"), Ok(cmp(f("a"), CompOp::Gt, n(1))));
    assert_eq!(condition("a < 1"), Ok(cmp(f("a"), CompOp::Lt, n(1))));
    assert_eq!(condition("a >= 1"), Ok(cmp(f("a"), CompOp::Ge, n(1))));
    assert_eq!(condition("a <= 1"), Ok(cmp(f("a"), CompOp::Le, n(1))));
}

#[test]
fn a_single_equals_sign_is_no_comparison() {
    assert_eq!(
        condition("a = 1"),
        Err(expected("comparison operator", Token::Operator("=".to_string())))
    );
    let mut p = parser("=");
    assert_eq!(
        p.parse_comp_op(),
        Err(expected("comparison operator", Token::Operator("=".to_string())))
    );
    assert_eq!(p.peek(), Some(&Token::Operator("=".to_string())));
}

#[test]
fn parentheses_are_kept_as_a_group() {
    assert_eq!(condition("(a == 1)"), Ok(group(eq("a", 1))));
    assert_eq!(condition("((a == 1))"), Ok(group(group(eq("a", 1)))));
    assert_eq!(
        condition("a == 1 and (b == 2 or c == 3)"),
        Ok(and(eq("a", 1), group(or(eq("b", 2), eq("c", 3)))))
    );
    assert_eq!(condition("not (a == 1 or b == 2)"), Ok(not(group(or(eq("a", 1), eq("b", 2))))));
}

#[test]
fn an_open_group_is_an_error() {
    assert_eq!(condition("(a == 1"), Err(ParseError::UnexpectedEndOfInput));
    assert_eq!(condition("(a == 1 then"), Err(expected("')'", kw("then"))));
    assert_eq!(condition("()"), Err(expected("identifier", Token::Symbol(')'))));
}

#[test]
fn malformed_membership_lists() {
    assert_eq!(condition("a in"), Err(ParseError::UnexpectedEndOfInput));
    assert_eq!(condition("a in ["), Err(ParseError::UnexpectedEndOfInput));
    assert_eq!(condition("a in []"), Err(expected("identifier", Token::Symbol(']'))));
    assert_eq!(condition("a in [x"), Err(ParseError::UnexpectedEndOfInput));
    assert_eq!(condition("a in [x y]"), Err(expected("','", id("y"))));
    assert_eq!(condition("a in [x,]"), Err(expected("identifier", Token::Symbol(']'))));
    assert_eq!(condition("a in [1]"), Err(expected("identifier", Token::Number(1))));
    assert_eq!(condition("a in (x)"), Err(expected("'['", Token::Symbol('('))));
    assert_eq!(condition("a in [mask]"), Err(expected("identifier", kw("mask"))));
}

#[test]
fn a_number_cannot_be_tested_for_membership() {
    assert_eq!(condition("3 in [x]"), Err(expected("comparison operator", kw("in"))));
}

#[test]
fn malformed_fields() {
    assert_eq!(condition("a. == 1"), Err(expected("identifier", Token::Operator("==".to_string()))));
    assert_eq!(condition("a.3 == 1"), Err(expected("identifier", Token::Number(3))));
    assert_eq!(condition(".a == 1"), Err(expected("identifier", Token::Symbol('.'))));
    assert_eq!(condition("a."), Err(ParseError::UnexpectedEndOfInput));
}

#[test]
fn malformed_comparisons() {
    assert_eq!(condition("a =="), Err(ParseError::UnexpectedEndOfInput));
    assert_eq!(condition("a == then"), Err(expected("identifier", kw("then"))));
    assert_eq!(condition("a 1"), Err(expected("comparison operator", Token::Number(1))));
    assert_eq!(condition("a == 1 or"), Err(ParseError::UnexpectedEndOfInput));
    assert_eq!(condition("a == 1 and then"), Err(expected("identifier", kw("then"))));
    assert_eq!(condition("not"), Err(ParseError::UnexpectedEndOfInput));
}

#[test]
fn condition_stops_at_what_does_not_continue_it() {
    let mut p = parser("a == 1 then mask");
    assert_eq!(p.parse_condition(), Ok(eq("a", 1)));
    assert_eq!(p.peek(), Some(&kw("then")));
    let mut p = parser("a == 1 ) b");
    assert_eq!(p.parse_or(), Ok(eq("a", 1)));
    assert_eq!(p.peek(), Some(&Token::Symbol(')')));
    let mut p = parser("a == 1 b == 2");
    assert_eq!(
        p.parse_or(),
        Ok(cmp(f("a"), CompOp::Eq, Operand::Duration { value: 1, unit: "b".to_string() }))
    );
    assert_eq!(p.peek(), Some(&Token::Operator("==".to_string())));
    let mut p = parser("a == 1 or b == 2");
    assert_eq!(p.parse_and(), Ok(eq("a", 1)));
    assert_eq!(p.peek(), Some(&kw("or")));
    let mut p = parser("a == 1 and b == 2");
    assert_eq!(p.parse_not(), Ok(eq("a", 1)));
    assert_eq!(p.peek(), Some(&kw("and")));
    let mut p = parser("a == 1 and b == 2");
    assert_eq!(p.parse_predicate(), Ok(eq("a", 1)));
    assert_eq!(p.peek(), Some(&kw("and")));
}

#[test]
fn malformed_condition_names_the_unexpected_token() {
    assert_eq!(program("rule r { if then delete }"), Err(expected("identifier", kw("then"))));
}

#[test]
fn end_to_end() {
    assert_eq!(
        program("rule r { if age > 18 and country in [US,CA] then mask }"),
        Ok(Program {
            rules: vec![Rule {
                name: "r".to_string(),
                statements: vec![Statement {
                    condition: and(cmp(f("age"), CompOp::Gt, n(18)), member("country", &["US", "CA"])),
                    action: Action::Mask,
                }],
            }],
        })
    );
}

#[test]
fn two_rules_with_every_kind_of_condition() {
    let src = r#"
        rule delete_old_data {
            if record.age_in_days > 30 days then delete;
            if field in [ssn, credit_card] and not user.is_admin == 1 then mask
        }

        rule alert_weird {
            if (user.country == blocked_country) or user.failed_logins >= 5 then notify
        }
    "#;
    assert_eq!(
        program(src),
        Ok(Program {
            rules: vec![
                Rule {
                    name: "delete_old_data".to_string(),
                    statements: vec![
                        Statement {
                            condition: cmp(
                                f("record.age_in_days"),
                                CompOp::Gt,
                                Operand::Duration { value: 30, unit: "days".to_string() }
                            ),
                            action: Action::Delete,
                        },
                        Statement {
                            condition: and(
                                member("field", &["ssn", "credit_card"]),
                                not(cmp(f("user.is_admin"), CompOp::Eq, n(1)))
                            ),
                            action: Action::Mask,
                        },
                    ],
                },
                Rule {
                    name: "alert_weird".to_string(),
                    statements: vec![Statement {
                        condition: or(
                            group(cmp(f("user.country"), CompOp::Eq, f("blocked_country"))),
                            cmp(f("user.failed_logins"), CompOp::Ge, n(5))
                        ),
                        action: Action::Notify,
                    }],
                },
            ],
        })
    );
}

#[test]
fn empty_input_is_the_empty_program() {
    assert_eq!(parse(vec![]), Ok(Program { rules: vec![] }));
    assert_eq!(program("   "), Ok(Program { rules: vec![] }));
}

#[test]
fn a_rule_may_be_empty() {
    assert_eq!(
        program("rule a {} rule b {}"),
        Ok(Program {
            rules: vec![
                Rule { name: "a".to_string(), statements: vec![] },
                Rule { name: "b".to_string(), statements: vec![] },
            ],
        })
    );
}

#[test]
fn semicolons_between_statements_are_optional() {
    let with = program("rule r { if a == 1 then mask; if b == 2 then delete; }");
    let without = program("rule r { if a == 1 then mask if b == 2 then delete }");
    assert_eq!(with, without);
    assert_eq!(
        with,
        Ok(Program {
            rules: vec![Rule {
                name: "r".to_string(),
                statements: vec![
                    Statement { condition: eq("a", 1), action: Action::Mask },
                    Statement { condition: eq("b", 2), action: Action::Delete },
                ],
            }],
        })
    );
}

#[test]
fn a_second_semicolon_is_an_error() {
    assert_eq!(
        program("rule r { if a == 1 then mask;; }"),
        Err(expected("if", Token::Symbol(';')))
    );
    assert_eq!(program("rule r { ; }"), Err(expected("if", Token::Symbol(';'))));
}

#[test]
fn every_action() {
    for (word, action) in [
        ("delete", Action::Delete),
        ("mask", Action::Mask),
        ("notify", Action::Notify),
        ("encrypt", Action::Encrypt),
    ] {
        let mut p = parser(word);
        assert_eq!(p.parse_action(), Ok(action));
        assert_eq!(p.peek(), None);
    }
}

#[test]
fn what_is_no_action() {
    assert_eq!(program("rule r { if a == 1 then foo }"), Err(expected("action keyword", id("foo"))));
    assert_eq!(program("rule r { if a == 1 then if }"), Err(expected("action keyword", kw("if"))));
    assert_eq!(program("rule r { if a == 1 then }"), Err(expected("action keyword", Token::Symbol('}'))));
    assert_eq!(program("rule r { if a == 1 then"), Err(ParseError::UnexpectedEndOfInput));
}

#[test]
fn a_stray_token_at_program_scope() {
    assert_eq!(program("if"), Err(ParseError::UnexpectedToken(kw("if"))));
    assert_eq!(program("rule r {} then"), Err(ParseError::UnexpectedToken(kw("then"))));
    assert_eq!(program("rule r {} x"), Err(ParseError::UnexpectedToken(id("x"))));
    assert_eq!(program("rule r {} }"), Err(ParseError::UnexpectedToken(Token::Symbol('}'))));
    assert_eq!(program("42"), Err(ParseError::UnexpectedToken(Token::Number(42))));
}

#[test]
fn malformed_rule_headers() {
    assert_eq!(program("rule"), Err(ParseError::UnexpectedEndOfInput));
    assert_eq!(program("rule r"), Err(ParseError::UnexpectedEndOfInput));
    assert_eq!(program("rule r {"), Err(ParseError::UnexpectedEndOfInput));
    assert_eq!(program("rule { }"), Err(expected("identifier", Token::Symbol('{'))));
    assert_eq!(program("rule if { }"), Err(expected("identifier", kw("if"))));
    assert_eq!(program("rule r [ ]"), Err(expected("'{'", Token::Symbol('['))));
    assert_eq!(program("rule r { x }"), Err(expected("if", id("x"))));
}

#[test]
fn missing_then() {
    assert_eq!(program("rule r { if a == 1 mask }"), Err(expected("then", kw("mask"))));
    assert_eq!(program("rule r { if a == 1 }"), Err(expected("then", Token::Symbol('}'))));
}

#[test]
fn the_first_error_ends_the_parse() {
    assert_eq!(
        program("rule a { if x == 1 then mask } rule b { if then } rule c {"),
        Err(expected("identifier", kw("then")))
    );
}

#[test]
fn the_cursor_primitives() {
    let mut p = parser("rule r {");
    assert_eq!(p.peek(), Some(&kw("rule")));
    assert!(!p.match_keyword("if"));
    assert!(!p.match_symbol('{'));
    assert!(!p.match_op("=="));
    assert_eq!(p.peek(), Some(&kw("rule")));
    assert!(p.match_keyword("rule"));
    assert_eq!(p.advance(), Some(id("r")));
    assert!(p.match_symbol('{'));
    assert_eq!(p.peek(), None);
    assert_eq!(p.advance(), None);
    assert!(!p.match_symbol('{'));
    assert!(!p.match_keyword("rule"));
}

#[test]
fn match_op_takes_only_the_operator_asked_for() {
    let mut p = parser(">= 5");
    assert!(!p.match_op(">"));
    assert!(!p.match_op("=="));
    assert!(p.match_op(">="));
    assert!(!p.match_op(">="));
    assert_eq!(p.peek(), Some(&Token::Number(5)));
}

#[test]
fn expect_takes_the_token_even_when_it_is_wrong() {
    let mut p = parser("x y");
    assert_eq!(p.expect_symbol('{'), Err(expected("'{'", id("x"))));
    assert_eq!(p.peek(), Some(&id("y")));
    let mut p = parser("x y");
    assert_eq!(p.expect_keyword("rule"), Err(expected("rule", id("x"))));
    assert_eq!(p.peek(), Some(&id("y")));
    let mut p = parser("1 y");
    assert_eq!(p.expect_ident(), Err(expected("identifier", Token::Number(1))));
    assert_eq!(p.peek(), Some(&id("y")));
    let mut p = parser("x y");
    assert_eq!(p.expect_number(), Err(expected("number", id("x"))));
    assert_eq!(p.peek(), Some(&id("y")));
}

#[test]
fn expect_returns_what_it_finds() {
    let mut p = parser("x 7 { if");
    assert_eq!(p.expect_ident(), Ok("x".to_string()));
    assert_eq!(p.expect_number(), Ok(7));
    assert_eq!(p.expect_symbol('{'), Ok(()));
    assert_eq!(p.expect_keyword("if"), Ok(()));
    assert_eq!(p.expect_ident(), Err(ParseError::UnexpectedEndOfInput));
    assert_eq!(p.expect_number(), Err(ParseError::UnexpectedEndOfInput));
    assert_eq!(p.expect_symbol('{'), Err(ParseError::UnexpectedEndOfInput));
    assert_eq!(p.expect_keyword("if"), Err(ParseError::UnexpectedEndOfInput));
}

#[test]
fn unexpected_describes_the_token_at_the_cursor() {
    let mut p = parser("x");
    assert_eq!(p.unexpected("a sign"), expected("a sign", id("x")));
    assert_eq!(p.peek(), Some(&id("x")));
    p.advance();
    assert_eq!(p.unexpected("a sign"), ParseError::UnexpectedEndOfInput);
}

#[test]
fn parse_field_reads_every_segment() {
    let mut p = parser("a.b.c in");
    assert_eq!(p.parse_field(), Ok(field("a.b.c")));
    assert_eq!(p.peek(), Some(&kw("in")));
}

#[test]
fn parse_statement_and_rule_and_program_from_a_cursor() {
    let mut p = parser("if a == 1 then encrypt ; rule");
    assert_eq!(
        p.parse_statement(),
        Ok(Statement { condition: eq("a", 1), action: Action::Encrypt })
    );
    assert_eq!(p.peek(), Some(&Token::Symbol(';')));
    let mut p = parser("rule r { if a == 1 then encrypt } rule s {}");
    assert_eq!(
        p.parse_rule(),
        Ok(Rule {
            name: "r".to_string(),
            statements: vec![Statement { condition: eq("a", 1), action: Action::Encrypt }],
        })
    );
    assert_eq!(p.peek(), Some(&kw("rule")));
    assert_eq!(
        p.parse_program(),
        Ok(Program { rules: vec![Rule { name: "s".to_string(), statements: vec![] }] })
    );
    assert_eq!(p.peek(), None);
}

#[test]
fn negative_numbers_can_be_parsed_from_tokens() {
    let tokens = vec![id("a"), Token::Operator("<".to_string()), Token::Number(-5)];
    assert_eq!(Parser::new(tokens).parse_condition(), Ok(cmp(f("a"), CompOp::Lt, n(-5))));
}
