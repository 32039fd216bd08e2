//! The grammar of the rule language, as functions on a sequence of tokens.
//!
//! ```text
//! program    := rule*
//! rule       := 'rule' IDENT '{' (statement [';'])* '}'
//! statement  := 'if' condition 'then' action
//! condition  := or_expr
//! or_expr    := and_expr ('or' and_expr)*
//! and_expr   := not_expr ('and' not_expr)*
//! not_expr   := 'not' not_expr | predicate
//! predicate  := '(' condition ')'
//!             | field 'in' '[' IDENT (',' IDENT)* ']'
//!             | operand comp_op operand
//! operand    := NUMBER [IDENT] | field
//! field      := IDENT ('.' IDENT)*
//! ```
//!
//! Each production is a function of the tokens and of the place where it
//! starts. It says what the production yields there, or which error ends the
//! parse, and how many tokens it has taken by then.

use crate::ast::{Action, CompOp, ExprView, OperandView, RuleView, StatementView};
use crate::token::TokenView;
use vstd::prelude::*;

verus! {

/// Why a sequence of tokens could not be parsed, as a mathematical value.
pub enum ParseErrorView {
    UnexpectedEndOfInput,
    UnexpectedToken(TokenView),
    ExpectedButFound { expected: Seq<char>, found: TokenView },
}

/// What a production yields, and how many tokens it has taken: on success
/// the tokens of what it yields, on failure those up to where it gave up.
pub struct Step<T> {
    pub result: Result<T, ParseErrorView>,
    pub used: nat,
}

/// A production that yields `value` after `used` tokens.
pub open spec fn done<T>(value: T, used: nat) -> Step<T> {
    Step { result: Ok(value), used }
}

/// A production that fails with `error` after `used` tokens.
pub open spec fn failed<T>(error: ParseErrorView, used: nat) -> Step<T> {
    Step { result: Err(error), used }
}

/// `step`, reached after `used` tokens that were taken before it.
pub open spec fn after<T>(used: nat, step: Step<T>) -> Step<T> {
    Step { result: step.result, used: used + step.used }
}

/// How many tokens stand at `pos` or after it.
pub open spec fn rest(ts: Seq<TokenView>, pos: int) -> nat {
    if pos < ts.len() {
        (ts.len() - pos) as nat
    } else {
        0
    }
}

/// The token at `pos`, if there is one.
pub open spec fn peek(ts: Seq<TokenView>, pos: int) -> Option<TokenView> {
    if 0 <= pos < ts.len() {
        Some(ts[pos])
    } else {
        None
    }
}

/// How a symbol is named in an error: the character between two quotes.
pub open spec fn quoted(c: char) -> Seq<char> {
    seq!['\'', c, '\'']
}

/// The symbol `c`. Any token in its place is taken, and is an error if it is
/// another one.
pub open spec fn expect_symbol(ts: Seq<TokenView>, pos: int, c: char) -> Step<()> {
    match peek(ts, pos) {
        None => failed(ParseErrorView::UnexpectedEndOfInput, 0),
        Some(t) => if t == TokenView::Symbol(c) {
            done((), 1)
        } else {
            failed(ParseErrorView::ExpectedButFound { expected: quoted(c), found: t }, 1)
        },
    }
}

/// The keyword `word`. Any token in its place is taken, and is an error if it
/// is another one.
pub open spec fn expect_keyword(ts: Seq<TokenView>, pos: int, word: Seq<char>) -> Step<()> {
    match peek(ts, pos) {
        None => failed(ParseErrorView::UnexpectedEndOfInput, 0),
        Some(t) => if t == TokenView::Keyword(word) {
            done((), 1)
        } else {
            failed(ParseErrorView::ExpectedButFound { expected: word, found: t }, 1)
        },
    }
}

/// An identifier. Any token in its place is taken, and is an error if it is
/// none.
pub open spec fn expect_ident(ts: Seq<TokenView>, pos: int) -> Step<Seq<char>> {
    match peek(ts, pos) {
        None => failed(ParseErrorView::UnexpectedEndOfInput, 0),
        Some(TokenView::Identifier(name)) => done(name, 1),
        Some(t) => failed(
            ParseErrorView::ExpectedButFound { expected: "identifier"@, found: t },
            1,
        ),
    }
}

/// A number. Any token in its place is taken, and is an error if it is none.
pub open spec fn expect_number(ts: Seq<TokenView>, pos: int) -> Step<int> {
    match peek(ts, pos) {
        None => failed(ParseErrorView::UnexpectedEndOfInput, 0),
        Some(TokenView::Number(n)) => done(n, 1),
        Some(t) => failed(ParseErrorView::ExpectedButFound { expected: "number"@, found: t }, 1),
    }
}

/// The error for a token, or the end of the input, that stands where
/// `expected` should.
pub open spec fn unexpected(ts: Seq<TokenView>, pos: int, expected: Seq<char>) -> ParseErrorView {
    match peek(ts, pos) {
        None => ParseErrorView::UnexpectedEndOfInput,
        Some(t) => ParseErrorView::ExpectedButFound { expected, found: t },
    }
}

/// The action that a keyword names.
pub open spec fn action_of(word: Seq<char>) -> Option<Action> {
    if word == "delete"@ {
        Some(Action::Delete)
    } else if word == "mask"@ {
        Some(Action::Mask)
    } else if word == "notify"@ {
        Some(Action::Notify)
    } else if word == "encrypt"@ {
        Some(Action::Encrypt)
    } else {
        None
    }
}

/// The comparison that an operator writes. The sign `=` alone writes none.
pub open spec fn comparison_of(sign: Seq<char>) -> Option<CompOp> {
    if sign == "=="@ {
        Some(CompOp::Eq)
    } else if sign == "!="@ {
        Some(CompOp::Ne)
    } else if sign == ">="@ {
        Some(CompOp::Ge)
    } else if sign == "<="@ {
        Some(CompOp::Le)
    } else if sign == ">"@ {
        Some(CompOp::Gt)
    } else if sign == "<"@ {
        Some(CompOp::Lt)
    } else {
        None
    }
}

/// action := 'delete' | 'mask' | 'notify' | 'encrypt'
///
/// Any token in its place is taken, and is an error if it names no action.
pub open spec fn action(ts: Seq<TokenView>, pos: int) -> Step<Action> {
    match peek(ts, pos) {
        None => failed(ParseErrorView::UnexpectedEndOfInput, 0),
        Some(t) => if t is Keyword && action_of(t->Keyword_0) is Some {
            done(action_of(t->Keyword_0)->Some_0, 1)
        } else {
            failed(ParseErrorView::ExpectedButFound { expected: "action keyword"@, found: t }, 1)
        },
    }
}

/// comp_op := '==' | '!=' | '>=' | '<=' | '>' | '<'
///
/// A token that writes no comparison is an error and is not taken.
pub open spec fn comp_op(ts: Seq<TokenView>, pos: int) -> Step<CompOp> {
    match peek(ts, pos) {
        Some(TokenView::Operator(sign)) => if comparison_of(sign) is Some {
            done(comparison_of(sign)->Some_0, 1)
        } else {
            failed(unexpected(ts, pos, "comparison operator"@), 0)
        },
        _ => failed(unexpected(ts, pos, "comparison operator"@), 0),
    }
}

/// ('.' IDENT)*, added to the segments read so far.
pub open spec fn field_rest(ts: Seq<TokenView>, pos: int, segments: Seq<Seq<char>>) -> Step<
    Seq<Seq<char>>,
>
    decreases rest(ts, pos),
{
    if peek(ts, pos) == Some(TokenView::Symbol('.')) {
        let name = expect_ident(ts, pos + 1);
        match name.result {
            Err(e) => failed(e, 1 + name.used),
            Ok(segment) => after(2, field_rest(ts, pos + 2, segments.push(segment))),
        }
    } else {
        done(segments, 0)
    }
}

/// field := IDENT ('.' IDENT)*
pub open spec fn field(ts: Seq<TokenView>, pos: int) -> Step<Seq<Seq<char>>> {
    let name = expect_ident(ts, pos);
    match name.result {
        Err(e) => failed(e, name.used),
        Ok(segment) => after(1, field_rest(ts, pos + 1, seq![segment])),
    }
}

/// operand := NUMBER [IDENT] | field
///
/// An identifier right after a number is its unit: the two are a duration.
pub open spec fn operand(ts: Seq<TokenView>, pos: int) -> Step<OperandView> {
    match peek(ts, pos) {
        Some(TokenView::Number(value)) => match peek(ts, pos + 1) {
            Some(TokenView::Identifier(unit)) => done(OperandView::Duration { value, unit }, 2),
            _ => done(OperandView::Number(value), 1),
        },
        _ => {
            let path = field(ts, pos);
            match path.result {
                Err(e) => failed(e, path.used),
                Ok(segments) => done(OperandView::Field(segments), path.used),
            }
        },
    }
}

/// operand comp_op operand
#[verifier::opaque]
pub open spec fn comparison(ts: Seq<TokenView>, pos: int) -> Step<ExprView> {
    let left = operand(ts, pos);
    match left.result {
        Err(e) => failed(e, left.used),
        Ok(l) => {
            let op = comp_op(ts, pos + left.used);
            match op.result {
                Err(e) => failed(e, left.used + op.used),
                Ok(o) => {
                    let right = operand(ts, pos + left.used + 1);
                    match right.result {
                        Err(e) => failed(e, left.used + 1 + right.used),
                        Ok(r) => done(
                            ExprView::Compare { left: l, op: o, right: r },
                            left.used + 1 + right.used,
                        ),
                    }
                },
            }
        },
    }
}

/// IDENT (',' IDENT)* ']', added to the names read so far.
pub open spec fn name_list(ts: Seq<TokenView>, pos: int, names: Seq<Seq<char>>) -> Step<
    Seq<Seq<char>>,
>
    decreases rest(ts, pos),
{
    let name = expect_ident(ts, pos);
    match name.result {
        Err(e) => failed(e, name.used),
        Ok(n) => if peek(ts, pos + 1) == Some(TokenView::Symbol(']')) {
            done(names.push(n), 2)
        } else {
            let comma = expect_symbol(ts, pos + 1, ',');
            match comma.result {
                Err(e) => failed(e, 1 + comma.used),
                Ok(_) => after(2, name_list(ts, pos + 2, names.push(n))),
            }
        },
    }
}

/// '[' IDENT (',' IDENT)* ']', the list that `in` is followed by.
#[verifier::opaque]
pub open spec fn membership(ts: Seq<TokenView>, pos: int, path: Seq<Seq<char>>) -> Step<ExprView> {
    let open = expect_symbol(ts, pos, '[');
    match open.result {
        Err(e) => failed(e, open.used),
        Ok(_) => {
            let names = name_list(ts, pos + 1, Seq::empty());
            match names.result {
                Err(e) => failed(e, 1 + names.used),
                Ok(set) => done(ExprView::In { field: path, set }, 1 + names.used),
            }
        },
    }
}

/// or_expr := and_expr ('or' and_expr)*
///
/// The operands are joined from the left: `a or b or c` is `(a or b) or c`.
pub open spec fn or_expr(ts: Seq<TokenView>, pos: int) -> Step<ExprView>
    decreases rest(ts, pos), 6nat,
{
    let first = and_expr(ts, pos);
    match first.result {
        Err(e) => failed(e, first.used),
        Ok(left) => after(first.used, or_rest(ts, pos + first.used, left)),
    }
}

/// ('or' and_expr)*, joined to the condition read so far.
pub open spec fn or_rest(ts: Seq<TokenView>, pos: int, left: ExprView) -> Step<ExprView>
    decreases rest(ts, pos), 5nat,
{
    if peek(ts, pos) == Some(TokenView::Keyword("or"@)) {
        let next = and_expr(ts, pos + 1);
        match next.result {
            Err(e) => failed(e, 1 + next.used),
            Ok(right) => after(
                1 + next.used,
                or_rest(ts, pos + 1 + next.used, ExprView::Or(Box::new(left), Box::new(right))),
            ),
        }
    } else {
        done(left, 0)
    }
}

/// and_expr := not_expr ('and' not_expr)*
///
/// The operands are joined from the left, and `and` binds more tightly
/// than `or`.
pub open spec fn and_expr(ts: Seq<TokenView>, pos: int) -> Step<ExprView>
    decreases rest(ts, pos), 4nat,
{
    let first = not_expr(ts, pos);
    match first.result {
        Err(e) => failed(e, first.used),
        Ok(left) => after(first.used, and_rest(ts, pos + first.used, left)),
    }
}

/// ('and' not_expr)*, joined to the condition read so far.
pub open spec fn and_rest(ts: Seq<TokenView>, pos: int, left: ExprView) -> Step<ExprView>
    decreases rest(ts, pos), 3nat,
{
    if peek(ts, pos) == Some(TokenView::Keyword("and"@)) {
        let next = not_expr(ts, pos + 1);
        match next.result {
            Err(e) => failed(e, 1 + next.used),
            Ok(right) => after(
                1 + next.used,
                and_rest(ts, pos + 1 + next.used, ExprView::And(Box::new(left), Box::new(right))),
            ),
        }
    } else {
        done(left, 0)
    }
}

/// not_expr := 'not' not_expr | predicate
pub open spec fn not_expr(ts: Seq<TokenView>, pos: int) -> Step<ExprView>
    decreases rest(ts, pos), 2nat,
{
    if peek(ts, pos) == Some(TokenView::Keyword("not"@)) {
        let inner = not_expr(ts, pos + 1);
        match inner.result {
            Err(e) => failed(e, 1 + inner.used),
            Ok(e) => done(ExprView::Not(Box::new(e)), 1 + inner.used),
        }
    } else {
        predicate(ts, pos)
    }
}

/// predicate := '(' condition ')'
///            | field 'in' '[' IDENT (',' IDENT)* ']'
///            | operand comp_op operand
///
/// A field is tried first. Where one is read and `in` follows it, the
/// predicate is a membership test. Otherwise the attempt is given up, and
/// the predicate is read as a comparison from where the attempt began.
pub open spec fn predicate(ts: Seq<TokenView>, pos: int) -> Step<ExprView>
    decreases rest(ts, pos), 1nat,
{
    if peek(ts, pos) == Some(TokenView::Symbol('(')) {
        let inner = or_expr(ts, pos + 1);
        match inner.result {
            Err(e) => failed(e, 1 + inner.used),
            Ok(e) => {
                let close = expect_symbol(ts, pos + 1 + inner.used, ')');
                match close.result {
                    Err(err) => failed(err, 1 + inner.used + close.used),
                    Ok(_) => done(ExprView::Group(Box::new(e)), 1 + inner.used + 1),
                }
            },
        }
    } else {
        let path = field(ts, pos);
        if path.result is Ok && peek(ts, pos + path.used) == Some(TokenView::Keyword("in"@)) {
            after(path.used + 1, membership(ts, pos + path.used + 1, path.result->Ok_0))
        } else {
            comparison(ts, pos)
        }
    }
}

/// condition := or_expr
pub open spec fn condition(ts: Seq<TokenView>, pos: int) -> Step<ExprView> {
    or_expr(ts, pos)
}

/// statement := 'if' condition 'then' action
#[verifier::opaque]
pub open spec fn statement(ts: Seq<TokenView>, pos: int) -> Step<StatementView> {
    let start = expect_keyword(ts, pos, "if"@);
    match start.result {
        Err(e) => failed(e, start.used),
        Ok(_) => {
            let cond = condition(ts, pos + 1);
            match cond.result {
                Err(e) => failed(e, 1 + cond.used),
                Ok(c) => {
                    let word = expect_keyword(ts, pos + 1 + cond.used, "then"@);
                    match word.result {
                        Err(e) => failed(e, 1 + cond.used + word.used),
                        Ok(_) => {
                            let act = action(ts, pos + 1 + cond.used + 1);
                            match act.result {
                                Err(e) => failed(e, 1 + cond.used + 1 + act.used),
                                Ok(a) => done(
                                    StatementView { condition: c, action: a },
                                    1 + cond.used + 1 + act.used,
                                ),
                            }
                        },
                    }
                },
            }
        },
    }
}

/// A statement that is read begins at a token and takes it.
pub proof fn lemma_statement_takes(ts: Seq<TokenView>, pos: int)
    ensures
        statement(ts, pos).result is Ok ==> 0 <= pos < ts.len() && statement(ts, pos).used >= 1,
{
    reveal(statement);
}

/// How many tokens an optional `;` at `pos` takes.
pub open spec fn semicolon(ts: Seq<TokenView>, pos: int) -> nat {
    if peek(ts, pos) == Some(TokenView::Symbol(';')) {
        1
    } else {
        0
    }
}

/// (statement [';'])* '}', added to the statements read so far.
pub open spec fn statements(ts: Seq<TokenView>, pos: int, list: Seq<StatementView>) -> Step<
    Seq<StatementView>,
>
    decreases rest(ts, pos),
    via statements_end
{
    if peek(ts, pos) == Some(TokenView::Symbol('}')) {
        done(list, 1)
    } else {
        let next = statement(ts, pos);
        match next.result {
            Err(e) => failed(e, next.used),
            Ok(s) => {
                let used = next.used + semicolon(ts, pos + next.used);
                after(used, statements(ts, pos + used, list.push(s)))
            },
        }
    }
}

#[via_fn]
proof fn statements_end(ts: Seq<TokenView>, pos: int, list: Seq<StatementView>) {
    lemma_statement_takes(ts, pos);
}

/// rule := 'rule' IDENT '{' (statement [';'])* '}'
#[verifier::opaque]
pub open spec fn rule(ts: Seq<TokenView>, pos: int) -> Step<RuleView> {
    let start = expect_keyword(ts, pos, "rule"@);
    match start.result {
        Err(e) => failed(e, start.used),
        Ok(_) => {
            let name = expect_ident(ts, pos + 1);
            match name.result {
                Err(e) => failed(e, 1 + name.used),
                Ok(n) => {
                    let open = expect_symbol(ts, pos + 2, '{');
                    match open.result {
                        Err(e) => failed(e, 2 + open.used),
                        Ok(_) => {
                            let body = statements(ts, pos + 3, Seq::empty());
                            match body.result {
                                Err(e) => failed(e, 3 + body.used),
                                Ok(list) => done(
                                    RuleView { name: n, statements: list },
                                    3 + body.used,
                                ),
                            }
                        },
                    }
                },
            }
        },
    }
}

/// A rule that is read begins at a token and takes it.
pub proof fn lemma_rule_takes(ts: Seq<TokenView>, pos: int)
    ensures
        rule(ts, pos).result is Ok ==> 0 <= pos < ts.len() && rule(ts, pos).used >= 1,
{
    reveal(rule);
}

/// rule*, added to the rules read so far, up to the end of the input.
/// A token that does not begin a rule is an error and is not taken.
pub open spec fn rules(ts: Seq<TokenView>, pos: int, list: Seq<RuleView>) -> Step<Seq<RuleView>>
    decreases rest(ts, pos),
    via rules_end
{
    match peek(ts, pos) {
        None => done(list, 0),
        Some(t) => if t == TokenView::Keyword("rule"@) {
            let next = rule(ts, pos);
            match next.result {
                Err(e) => failed(e, next.used),
                Ok(r) => after(next.used, rules(ts, pos + next.used, list.push(r))),
            }
        } else {
            failed(ParseErrorView::UnexpectedToken(t), 0)
        },
    }
}

#[via_fn]
proof fn rules_end(ts: Seq<TokenView>, pos: int, list: Seq<RuleView>) {
    lemma_rule_takes(ts, pos);
}

/// program := rule*
pub open spec fn program(ts: Seq<TokenView>, pos: int) -> Step<Seq<RuleView>> {
    rules(ts, pos, Seq::empty())
}

/// The program that a whole sequence of tokens writes, or the first error
/// met in it.
pub open spec fn parsed(ts: Seq<TokenView>) -> Result<Seq<RuleView>, ParseErrorView> {
    program(ts, 0).result
}

} // verus!
