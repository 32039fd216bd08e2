//! The parser: from a sequence of tokens to the program that it writes.

use crate::ast::{
    names_view, Action, CompOp, Expr, Field, Operand, Program, Rule, Statement, StatementView,
};
use crate::grammar;
use crate::grammar::{after, rest, ParseErrorView, Step};
use crate::round_trip::lemma_condition_reads;
use crate::text::same_text;
use crate::token::{Token, TokenView};
use crate::unparse::canonical;
use crate::well_formed::{lemma_parsed_program_well_formed, program_well_formed};
use vstd::prelude::*;

verus! {

/// Why a sequence of tokens could not be parsed.
#[derive(Debug, PartialEq, Eq)]
pub enum ParseError {
    /// The tokens ended where a production still wanted one.
    UnexpectedEndOfInput,
    /// A token stands where no production begins.
    UnexpectedToken(Token),
    /// A token stands where another was expected, which `expected` describes.
    ExpectedButFound { expected: String, found: Token },
}

impl View for ParseError {
    type V = ParseErrorView;

    open spec fn view(&self) -> ParseErrorView {
        match self {
            ParseError::UnexpectedEndOfInput => ParseErrorView::UnexpectedEndOfInput,
            ParseError::UnexpectedToken(token) => ParseErrorView::UnexpectedToken(token@),
            ParseError::ExpectedButFound { expected, found } => ParseErrorView::ExpectedButFound {
                expected: expected@,
                found: found@,
            },
        }
    }
}

/// The result of a production as a mathematical value.
pub open spec fn result_view<T: View>(r: Result<T, ParseError>) -> Result<T::V, ParseErrorView> {
    match r {
        Ok(value) => Ok(value@),
        Err(e) => Err(e@),
    }
}

/// A cursor over a sequence of tokens. Each production of the grammar is a
/// method that reads from the cursor on and moves it past what it has read.
pub struct Parser {
    tokens: Vec<Token>,
    pos: usize,
}

impl Parser {
    /// The tokens that the parser reads.
    pub closed spec fn input(&self) -> Seq<TokenView> {
        self.tokens.deep_view()
    }

    /// The index of the token that will be read next.
    pub closed spec fn cursor(&self) -> int {
        self.pos as int
    }

    /// The parser has gone from `before` to `after` by the step `step`,
    /// and `r` is what the step yields.
    pub open spec fn stepped<T: View>(
        before: Parser,
        after: Parser,
        r: Result<T, ParseError>,
        step: Step<T::V>,
    ) -> bool {
        &&& after.input() == before.input()
        &&& after.cursor() == before.cursor() + step.used
        &&& result_view(r) == step.result
    }

    /// A parser at the first of `tokens`.
    pub fn new(tokens: Vec<Token>) -> (parser: Parser)
        ensures
            parser.input() == tokens.deep_view(),
            parser.cursor() == 0,
    {
        Parser { tokens, pos: 0 }
    }

    /// The token at the cursor, if there is one.
    pub fn peek(&self) -> (token: Option<&Token>)
        ensures
            token.deep_view() == grammar::peek(self.input(), self.cursor()),
    {
        if self.pos < self.tokens.len() {
            Some(&self.tokens[self.pos])
        } else {
            None
        }
    }

    /// Takes the token at the cursor, if there is one.
    pub fn advance(&mut self) -> (token: Option<Token>)
        ensures
            final(self).input() == old(self).input(),
            token.deep_view() == grammar::peek(old(self).input(), old(self).cursor()),
            final(self).cursor() == old(self).cursor() + (if token is Some {
                1int
            } else {
                0int
            }),
    {
        if self.pos < self.tokens.len() {
            let token = self.tokens[self.pos].clone();
            self.pos += 1;
            Some(token)
        } else {
            None
        }
    }

    /// Takes the token at the cursor, which has to be the symbol `ch`.
    pub fn expect_symbol(&mut self, ch: char) -> (r: Result<(), ParseError>)
        ensures
            Parser::stepped(
                *old(self),
                *final(self),
                r,
                grammar::expect_symbol(old(self).input(), old(self).cursor(), ch),
            ),
    {
        match self.advance() {
            None => Err(ParseError::UnexpectedEndOfInput),
            Some(Token::Symbol(c)) if c == ch => Ok(()),
            Some(found) => {
                let mut expected = String::new();
                expected.push('\'');
                expected.push(ch);
                expected.push('\'');
                assert(expected@ =~= grammar::quoted(ch));
                Err(ParseError::ExpectedButFound { expected, found })
            },
        }
    }

    /// Takes the token at the cursor, which has to be the keyword `kw`.
    pub fn expect_keyword(&mut self, kw: &str) -> (r: Result<(), ParseError>)
        ensures
            Parser::stepped(
                *old(self),
                *final(self),
                r,
                grammar::expect_keyword(old(self).input(), old(self).cursor(), kw@),
            ),
    {
        match self.advance() {
            None => Err(ParseError::UnexpectedEndOfInput),
            Some(found) => {
                let matches = match &found {
                    Token::Keyword(word) => same_text(word.as_str(), kw),
                    _ => false,
                };
                if matches {
                    Ok(())
                } else {
                    Err(ParseError::ExpectedButFound { expected: kw.to_owned(), found })
                }
            },
        }
    }

    /// Takes the token at the cursor if it is the keyword `kw`.
    pub fn match_keyword(&mut self, kw: &str) -> (matched: bool)
        ensures
            final(self).input() == old(self).input(),
            matched == (grammar::peek(old(self).input(), old(self).cursor()) == Some(
                TokenView::Keyword(kw@),
            )),
            final(self).cursor() == old(self).cursor() + (if matched {
                1int
            } else {
                0int
            }),
    {
        let matched = match self.peek() {
            Some(Token::Keyword(word)) => same_text(word.as_str(), kw),
            _ => false,
        };
        if matched {
            assert(self.input().len() == self.tokens.len());
            self.pos += 1;
        }
        matched
    }

    /// Takes the token at the cursor if it is the symbol `ch`.
    pub fn match_symbol(&mut self, ch: char) -> (matched: bool)
        ensures
            final(self).input() == old(self).input(),
            matched == (grammar::peek(old(self).input(), old(self).cursor()) == Some(
                TokenView::Symbol(ch),
            )),
            final(self).cursor() == old(self).cursor() + (if matched {
                1int
            } else {
                0int
            }),
    {
        let matched = match self.peek() {
            Some(Token::Symbol(c)) => *c == ch,
            _ => false,
        };
        if matched {
            assert(self.input().len() == self.tokens.len());
            self.pos += 1;
        }
        matched
    }

    /// Takes the token at the cursor if it is the operator `s`.
    pub fn match_op(&mut self, s: &str) -> (matched: bool)
        ensures
            final(self).input() == old(self).input(),
            matched == (grammar::peek(old(self).input(), old(self).cursor()) == Some(
                TokenView::Operator(s@),
            )),
            final(self).cursor() == old(self).cursor() + (if matched {
                1int
            } else {
                0int
            }),
    {
        let matched = match self.peek() {
            Some(Token::Operator(sign)) => same_text(sign.as_str(), s),
            _ => false,
        };
        if matched {
            assert(self.input().len() == self.tokens.len());
            self.pos += 1;
        }
        matched
    }

    /// Takes the token at the cursor, which has to be an identifier.
    pub fn expect_ident(&mut self) -> (r: Result<String, ParseError>)
        ensures
            Parser::stepped(
                *old(self),
                *final(self),
                r,
                grammar::expect_ident(old(self).input(), old(self).cursor()),
            ),
    {
        match self.advance() {
            None => Err(ParseError::UnexpectedEndOfInput),
            Some(Token::Identifier(name)) => Ok(name),
            Some(found) => Err(
                ParseError::ExpectedButFound { expected: "identifier".to_owned(), found },
            ),
        }
    }

    /// Takes the token at the cursor, which has to be a number.
    pub fn expect_number(&mut self) -> (r: Result<i64, ParseError>)
        ensures
            final(self).input() == old(self).input(),
            final(self).cursor() == old(self).cursor() + grammar::expect_number(
                old(self).input(),
                old(self).cursor(),
            ).used,
            match r {
                Ok(n) => grammar::expect_number(old(self).input(), old(self).cursor()).result
                    == Ok::<int, ParseErrorView>(n as int),
                Err(e) => grammar::expect_number(old(self).input(), old(self).cursor()).result
                    == Err::<int, ParseErrorView>(e@),
            },
    {
        match self.advance() {
            None => Err(ParseError::UnexpectedEndOfInput),
            Some(Token::Number(n)) => Ok(n),
            Some(found) => Err(ParseError::ExpectedButFound { expected: "number".to_owned(), found }),
        }
    }

    /// The error for what stands at the cursor where `expected` should.
    /// The cursor stays where it is.
    pub fn unexpected(&mut self, expected: &str) -> (e: ParseError)
        ensures
            *final(self) == *old(self),
            e@ == grammar::unexpected(old(self).input(), old(self).cursor(), expected@),
    {
        match self.peek() {
            Some(token) => ParseError::ExpectedButFound {
                expected: expected.to_owned(),
                found: token.clone(),
            },
            None => ParseError::UnexpectedEndOfInput,
        }
    }

    /// action := 'delete' | 'mask' | 'notify' | 'encrypt'
    pub fn parse_action(&mut self) -> (r: Result<Action, ParseError>)
        ensures
            Parser::stepped(
                *old(self),
                *final(self),
                r,
                grammar::action(old(self).input(), old(self).cursor()),
            ),
    {
        match self.advance() {
            None => Err(ParseError::UnexpectedEndOfInput),
            Some(found) => {
                let named = match &found {
                    Token::Keyword(word) => {
                        if same_text(word.as_str(), "delete") {
                            Some(Action::Delete)
                        } else if same_text(word.as_str(), "mask") {
                            Some(Action::Mask)
                        } else if same_text(word.as_str(), "notify") {
                            Some(Action::Notify)
                        } else if same_text(word.as_str(), "encrypt") {
                            Some(Action::Encrypt)
                        } else {
                            None
                        }
                    },
                    _ => None,
                };
                match named {
                    Some(action) => Ok(action),
                    None => Err(
                        ParseError::ExpectedButFound {
                            expected: "action keyword".to_owned(),
                            found,
                        },
                    ),
                }
            },
        }
    }

    /// comp_op := '==' | '!=' | '>=' | '<=' | '>' | '<'
    pub fn parse_comp_op(&mut self) -> (r: Result<CompOp, ParseError>)
        ensures
            Parser::stepped(
                *old(self),
                *final(self),
                r,
                grammar::comp_op(old(self).input(), old(self).cursor()),
            ),
    {
        if self.match_op("==") {
            return Ok(CompOp::Eq);
        }
        if self.match_op("!=") {
            return Ok(CompOp::Ne);
        }
        if self.match_op(">=") {
            return Ok(CompOp::Ge);
        }
        if self.match_op("<=") {
            return Ok(CompOp::Le);
        }
        if self.match_op(">") {
            return Ok(CompOp::Gt);
        }
        if self.match_op("<") {
            return Ok(CompOp::Lt);
        }
        Err(self.unexpected("comparison operator"))
    }

    /// field := IDENT ('.' IDENT)*
    #[verifier::loop_isolation(false)]
    pub fn parse_field(&mut self) -> (r: Result<Field, ParseError>)
        ensures
            Parser::stepped(
                *old(self),
                *final(self),
                r,
                grammar::field(old(self).input(), old(self).cursor()),
            ),
    {
        let ghost ts = self.input();
        let ghost start = self.cursor();
        let first = match self.expect_ident() {
            Ok(name) => name,
            Err(e) => {
                return Err(e);
            },
        };
        let ghost head = seq![first@];
        let mut segs: Vec<String> = Vec::new();
        segs.push(first);
        assert(names_view(segs@) =~= head);
        while self.match_symbol('.')
            invariant
                self.input() == ts,
                self.cursor() >= start + 1,
                after(
                    (self.cursor() - start - 1) as nat,
                    grammar::field_rest(ts, self.cursor(), names_view(segs@)),
                ) == grammar::field_rest(ts, start + 1, head),
            decreases rest(ts, self.cursor()),
        {
            let ghost so_far = names_view(segs@);
            match self.expect_ident() {
                Ok(name) => {
                    let ghost segment = name@;
                    segs.push(name);
                    assert(names_view(segs@) =~= so_far.push(segment));
                },
                Err(e) => {
                    return Err(e);
                },
            }
        }
        Ok(Field { segments: segs })
    }

    /// operand := NUMBER [IDENT] | field
    pub fn parse_operand(&mut self) -> (r: Result<Operand, ParseError>)
        ensures
            Parser::stepped(
                *old(self),
                *final(self),
                r,
                grammar::operand(old(self).input(), old(self).cursor()),
            ),
    {
        let starts_with_number = match self.peek() {
            Some(Token::Number(_)) => true,
            _ => false,
        };
        if starts_with_number {
            let n = match self.expect_number() {
                Ok(n) => n,
                Err(e) => {
                    return Err(e);
                },
            };
            let has_unit = match self.peek() {
                Some(Token::Identifier(_)) => true,
                _ => false,
            };
            if has_unit {
                match self.expect_ident() {
                    Ok(unit) => Ok(Operand::Duration { value: n, unit }),
                    Err(e) => Err(e),
                }
            } else {
                Ok(Operand::Number(n))
            }
        } else {
            match self.parse_field() {
                Ok(field) => Ok(Operand::Field(field)),
                Err(e) => Err(e),
            }
        }
    }

    /// IDENT (',' IDENT)* ']', the names of a membership test.
    fn parse_name_list(&mut self) -> (r: Result<Vec<String>, ParseError>)
        ensures
            final(self).input() == old(self).input(),
            final(self).cursor() == old(self).cursor() + grammar::name_list(
                old(self).input(),
                old(self).cursor(),
                Seq::empty(),
            ).used,
            match r {
                Ok(names) => grammar::name_list(
                    old(self).input(),
                    old(self).cursor(),
                    Seq::empty(),
                ).result == Ok::<Seq<Seq<char>>, ParseErrorView>(names_view(names@)),
                Err(e) => grammar::name_list(
                    old(self).input(),
                    old(self).cursor(),
                    Seq::empty(),
                ).result == Err::<Seq<Seq<char>>, ParseErrorView>(e@),
            },
    {
        let ghost ts = self.input();
        let ghost start = self.cursor();
        let mut list: Vec<String> = Vec::new();
        assert(names_view(list@) =~= Seq::empty());
        loop
            invariant_except_break
                after(
                    (self.cursor() - start) as nat,
                    grammar::name_list(ts, self.cursor(), names_view(list@)),
                ) == grammar::name_list(ts, start, Seq::empty()),
            invariant
                ts == old(self).input(),
                start == old(self).cursor(),
                self.input() == ts,
                self.cursor() >= start,
            ensures
                grammar::name_list(ts, start, Seq::empty()) == grammar::done(
                    names_view(list@),
                    (self.cursor() - start) as nat,
                ),
            decreases rest(ts, self.cursor()),
        {
            let ghost so_far = names_view(list@);
            match self.expect_ident() {
                Ok(name) => {
                    let ghost n = name@;
                    list.push(name);
                    assert(names_view(list@) =~= so_far.push(n));
                },
                Err(e) => {
                    return Err(e);
                },
            }
            if self.match_symbol(']') {
                break ;
            }
            match self.expect_symbol(',') {
                Ok(_) => {},
                Err(e) => {
                    return Err(e);
                },
            }
        }
        Ok(list)
    }

    /// predicate := '(' condition ')'
    ///            | field 'in' '[' IDENT (',' IDENT)* ']'
    ///            | operand comp_op operand
    ///
    /// To tell a membership test from a comparison, a field is read first.
    /// Unless `in` follows it, the cursor goes back to where the field began
    /// and a comparison is read from there.
    pub fn parse_predicate(&mut self) -> (r: Result<Expr, ParseError>)
        ensures
            Parser::stepped(
                *old(self),
                *final(self),
                r,
                grammar::predicate(old(self).input(), old(self).cursor()),
            ),
        decreases rest(old(self).input(), old(self).cursor()), 1nat,
    {
        reveal(grammar::comparison);
        reveal(grammar::membership);
        if self.match_symbol('(') {
            let inner = match self.parse_condition() {
                Ok(e) => e,
                Err(e) => {
                    return Err(e);
                },
            };
            match self.expect_symbol(')') {
                Ok(_) => {},
                Err(e) => {
                    return Err(e);
                },
            }
            return Ok(Expr::Group(Box::new(inner)));
        }
        let save = self.pos;
        match self.parse_field() {
            Ok(field) => {
                if self.match_keyword("in") {
                    match self.expect_symbol('[') {
                        Ok(_) => {},
                        Err(e) => {
                            return Err(e);
                        },
                    }
                    return match self.parse_name_list() {
                        Ok(list) => Ok(Expr::In { field, set: list }),
                        Err(e) => Err(e),
                    };
                }
            },
            Err(_) => {},
        }
        self.pos = save;
        let left = match self.parse_operand() {
            Ok(operand) => operand,
            Err(e) => {
                return Err(e);
            },
        };
        let op = match self.parse_comp_op() {
            Ok(op) => op,
            Err(e) => {
                return Err(e);
            },
        };
        let right = match self.parse_operand() {
            Ok(operand) => operand,
            Err(e) => {
                return Err(e);
            },
        };
        Ok(Expr::Compare { left, op, right })
    }

    /// not_expr := 'not' not_expr | predicate
    pub fn parse_not(&mut self) -> (r: Result<Expr, ParseError>)
        ensures
            Parser::stepped(
                *old(self),
                *final(self),
                r,
                grammar::not_expr(old(self).input(), old(self).cursor()),
            ),
        decreases rest(old(self).input(), old(self).cursor()), 2nat,
    {
        if self.match_keyword("not") {
            match self.parse_not() {
                Ok(inner) => Ok(Expr::Not(Box::new(inner))),
                Err(e) => Err(e),
            }
        } else {
            self.parse_predicate()
        }
    }

    /// and_expr := not_expr ('and' not_expr)*
    #[verifier::loop_isolation(false)]
    pub fn parse_and(&mut self) -> (r: Result<Expr, ParseError>)
        ensures
            Parser::stepped(
                *old(self),
                *final(self),
                r,
                grammar::and_expr(old(self).input(), old(self).cursor()),
            ),
        decreases rest(old(self).input(), old(self).cursor()), 4nat,
    {
        let ghost ts = self.input();
        let ghost start = self.cursor();
        let mut left = match self.parse_not() {
            Ok(e) => e,
            Err(e) => {
                return Err(e);
            },
        };
        while self.match_keyword("and")
            invariant
                self.input() == ts,
                self.cursor() >= start,
                after(
                    (self.cursor() - start) as nat,
                    grammar::and_rest(ts, self.cursor(), left@),
                ) == grammar::and_expr(ts, start),
            decreases rest(ts, self.cursor()),
        {
            let right = match self.parse_not() {
                Ok(e) => e,
                Err(e) => {
                    return Err(e);
                },
            };
            left = Expr::And(Box::new(left), Box::new(right));
        }
        Ok(left)
    }

    /// or_expr := and_expr ('or' and_expr)*
    #[verifier::loop_isolation(false)]
    pub fn parse_or(&mut self) -> (r: Result<Expr, ParseError>)
        ensures
            Parser::stepped(
                *old(self),
                *final(self),
                r,
                grammar::or_expr(old(self).input(), old(self).cursor()),
            ),
        decreases rest(old(self).input(), old(self).cursor()), 6nat,
    {
        let ghost ts = self.input();
        let ghost start = self.cursor();
        let mut left = match self.parse_and() {
            Ok(e) => e,
            Err(e) => {
                return Err(e);
            },
        };
        while self.match_keyword("or")
            invariant
                self.input() == ts,
                self.cursor() >= start,
                after(
                    (self.cursor() - start) as nat,
                    grammar::or_rest(ts, self.cursor(), left@),
                ) == grammar::or_expr(ts, start),
            decreases rest(ts, self.cursor()),
        {
            let right = match self.parse_and() {
                Ok(e) => e,
                Err(e) => {
                    return Err(e);
                },
            };
            left = Expr::Or(Box::new(left), Box::new(right));
        }
        Ok(left)
    }

    /// condition := or_expr
    ///
    /// The condition that is read is canonical: its fields and lists are not
    /// empty, and its connectives stand as the grammar nests them.
    pub fn parse_condition(&mut self) -> (r: Result<Expr, ParseError>)
        ensures
            Parser::stepped(
                *old(self),
                *final(self),
                r,
                grammar::condition(old(self).input(), old(self).cursor()),
            ),
            r is Ok ==> canonical(r->Ok_0@),
        decreases rest(old(self).input(), old(self).cursor()), 7nat,
    {
        proof {
            lemma_condition_reads(self.input(), self.cursor());
        }
        self.parse_or()
    }

    /// statement := 'if' condition 'then' action
    pub fn parse_statement(&mut self) -> (r: Result<Statement, ParseError>)
        ensures
            Parser::stepped(
                *old(self),
                *final(self),
                r,
                grammar::statement(old(self).input(), old(self).cursor()),
            ),
    {
        reveal(grammar::statement);
        match self.expect_keyword("if") {
            Ok(_) => {},
            Err(e) => {
                return Err(e);
            },
        }
        let condition = match self.parse_condition() {
            Ok(e) => e,
            Err(e) => {
                return Err(e);
            },
        };
        match self.expect_keyword("then") {
            Ok(_) => {},
            Err(e) => {
                return Err(e);
            },
        }
        match self.parse_action() {
            Ok(action) => Ok(Statement { condition, action }),
            Err(e) => Err(e),
        }
    }

    /// (statement [';'])* '}', the body of a rule.
    fn parse_statements(&mut self) -> (r: Result<Vec<Statement>, ParseError>)
        ensures
            final(self).input() == old(self).input(),
            final(self).cursor() == old(self).cursor() + grammar::statements(
                old(self).input(),
                old(self).cursor(),
                Seq::empty(),
            ).used,
            match r {
                Ok(list) => grammar::statements(
                    old(self).input(),
                    old(self).cursor(),
                    Seq::empty(),
                ).result == Ok::<Seq<StatementView>, ParseErrorView>(list.deep_view()),
                Err(e) => grammar::statements(
                    old(self).input(),
                    old(self).cursor(),
                    Seq::empty(),
                ).result == Err::<Seq<StatementView>, ParseErrorView>(e@),
            },
    {
        let ghost ts = self.input();
        let ghost start = self.cursor();
        let mut statements: Vec<Statement> = Vec::new();
        assert(statements.deep_view() =~= Seq::empty());
        loop
            invariant_except_break
                after(
                    (self.cursor() - start) as nat,
                    grammar::statements(ts, self.cursor(), statements.deep_view()),
                ) == grammar::statements(ts, start, Seq::empty()),
            invariant
                ts == old(self).input(),
                start == old(self).cursor(),
                self.input() == ts,
                self.cursor() >= start,
            ensures
                grammar::statements(ts, start, Seq::empty()) == grammar::done(
                    statements.deep_view(),
                    (self.cursor() - start) as nat,
                ),
            decreases rest(ts, self.cursor()),
        {
            if self.match_symbol('}') {
                break ;
            }
            let ghost so_far = statements.deep_view();
            proof {
                grammar::lemma_statement_takes(ts, self.cursor());
            }
            match self.parse_statement() {
                Ok(statement) => {
                    let ghost s = statement@;
                    statements.push(statement);
                    assert(statements.deep_view() =~= so_far.push(s));
                },
                Err(e) => {
                    return Err(e);
                },
            }
            let _ = self.match_symbol(';');
        }
        Ok(statements)
    }

    /// rule := 'rule' IDENT '{' (statement [';'])* '}'
    pub fn parse_rule(&mut self) -> (r: Result<Rule, ParseError>)
        ensures
            Parser::stepped(
                *old(self),
                *final(self),
                r,
                grammar::rule(old(self).input(), old(self).cursor()),
            ),
    {
        reveal(grammar::rule);
        match self.expect_keyword("rule") {
            Ok(_) => {},
            Err(e) => {
                return Err(e);
            },
        }
        let name = match self.expect_ident() {
            Ok(name) => name,
            Err(e) => {
                return Err(e);
            },
        };
        match self.expect_symbol('{') {
            Ok(_) => {},
            Err(e) => {
                return Err(e);
            },
        }
        match self.parse_statements() {
            Ok(statements) => Ok(Rule { name, statements }),
            Err(e) => Err(e),
        }
    }

    /// program := rule*
    ///
    /// The rules go on to the end of the input: a token that begins no rule
    /// is an error.
    pub fn parse_program(&mut self) -> (r: Result<Program, ParseError>)
        ensures
            Parser::stepped(
                *old(self),
                *final(self),
                r,
                grammar::program(old(self).input(), old(self).cursor()),
            ),
    {
        let ghost ts = self.input();
        let ghost start = self.cursor();
        let mut rules: Vec<Rule> = Vec::new();
        assert(rules.deep_view() =~= Seq::empty());
        loop
            invariant_except_break
                after(
                    (self.cursor() - start) as nat,
                    grammar::rules(ts, self.cursor(), rules.deep_view()),
                ) == grammar::rules(ts, start, Seq::empty()),
            invariant
                ts == old(self).input(),
                start == old(self).cursor(),
                self.input() == ts,
                self.cursor() >= start,
            ensures
                grammar::rules(ts, start, Seq::empty()) == grammar::done(
                    rules.deep_view(),
                    (self.cursor() - start) as nat,
                ),
            decreases rest(ts, self.cursor()),
        {
            match self.peek() {
                None => {
                    break ;
                },
                Some(token) => {
                    let begins_rule = match token {
                        Token::Keyword(word) => same_text(word.as_str(), "rule"),
                        _ => false,
                    };
                    if !begins_rule {
                        return Err(ParseError::UnexpectedToken(token.clone()));
                    }
                },
            }
            let ghost so_far = rules.deep_view();
            proof {
                grammar::lemma_rule_takes(ts, self.cursor());
            }
            match self.parse_rule() {
                Ok(rule) => {
                    let ghost v = rule@;
                    rules.push(rule);
                    assert(rules.deep_view() =~= so_far.push(v));
                },
                Err(e) => {
                    return Err(e);
                },
            }
        }
        Ok(Program { rules })
    }
}

/// Parses a whole sequence of tokens into the program that it writes.
///
/// The first token that fits no production, or the end of the tokens where
/// a production still wants one, ends the parse with an error; no part of a
/// program is returned then.
pub fn parse(tokens: Vec<Token>) -> (r: Result<Program, ParseError>)
    ensures
        result_view(r) == grammar::parsed(tokens.deep_view()),
        r is Ok ==> program_well_formed(r->Ok_0@),
{
    proof {
        lemma_parsed_program_well_formed(tokens.deep_view());
    }
    let mut parser = Parser::new(tokens);
    parser.parse_program()
}

} // verus!
