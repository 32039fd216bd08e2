//! Writing a condition back as the tokens that the parser reads it from.

use crate::ast::{names_view, CompOp, Expr, ExprView, Operand, OperandView};
use crate::token::{Token, TokenView};
use vstd::prelude::*;

verus! {

/// The operator that writes a comparison.
pub open spec fn sign_of(op: CompOp) -> Seq<char> {
    match op {
        CompOp::Eq => "=="@,
        CompOp::Ne => "!="@,
        CompOp::Gt => ">"@,
        CompOp::Lt => "<"@,
        CompOp::Ge => ">="@,
        CompOp::Le => "<="@,
    }
}

/// The names as identifiers, with the symbol `sep` between each two.
pub open spec fn separated(names: Seq<Seq<char>>, sep: char) -> Seq<TokenView> {
    Seq::new(
        if names.len() == 0 {
            0
        } else {
            (2 * names.len() - 1) as nat
        },
        |i: int|
            if i % 2 == 0 {
                TokenView::Identifier(names[i / 2])
            } else {
                TokenView::Symbol(sep)
            },
    )
}

/// The tokens that write an operand.
pub open spec fn operand_tokens(o: OperandView) -> Seq<TokenView> {
    match o {
        OperandView::Number(n) => seq![TokenView::Number(n)],
        OperandView::Duration { value, unit } => seq![
            TokenView::Number(value),
            TokenView::Identifier(unit),
        ],
        OperandView::Field(path) => separated(path, '.'),
    }
}

/// The tokens that write a condition. A group is written with its
/// parentheses; nothing else is put in parentheses.
pub open spec fn expr_tokens(e: ExprView) -> Seq<TokenView>
    decreases e,
{
    match e {
        ExprView::Or(left, right) => expr_tokens(*left) + seq![TokenView::Keyword("or"@)]
            + expr_tokens(*right),
        ExprView::And(left, right) => expr_tokens(*left) + seq![TokenView::Keyword("and"@)]
            + expr_tokens(*right),
        ExprView::Not(inner) => seq![TokenView::Keyword("not"@)] + expr_tokens(*inner),
        ExprView::Group(inner) => seq![TokenView::Symbol('(')] + expr_tokens(*inner)
            + seq![TokenView::Symbol(')')],
        ExprView::Compare { left, op, right } => operand_tokens(left) + seq![
            TokenView::Operator(sign_of(op)),
        ] + operand_tokens(right),
        ExprView::In { field, set } => separated(field, '.') + seq![
            TokenView::Keyword("in"@),
            TokenView::Symbol('['),
        ] + separated(set, ',') + seq![TokenView::Symbol(']')],
    }
}

/// A predicate: a condition that stands under no connective.
pub open spec fn is_predicate(e: ExprView) -> bool {
    e is Group || e is Compare || e is In
}

/// A condition that can stand under `not` without parentheses.
pub open spec fn binds_as_not(e: ExprView) -> bool {
    e is Not || is_predicate(e)
}

/// A condition that can stand under `and` without parentheses.
pub open spec fn binds_as_and(e: ExprView) -> bool {
    e is And || binds_as_not(e)
}

/// An operand whose field, if it is one, has a segment.
pub open spec fn operand_well_formed(o: OperandView) -> bool {
    o is Field ==> o->Field_0.len() > 0
}

/// The shape of the conditions that the parser builds. Fields and lists are
/// not empty, and every operand of a connective binds at least as tightly
/// as its place asks: `or` and `and` lean to the left, and what is looser
/// stands inside a group.
pub open spec fn canonical(e: ExprView) -> bool
    decreases e,
{
    match e {
        ExprView::Or(left, right) => canonical(*left) && canonical(*right) && binds_as_and(*right),
        ExprView::And(left, right) => canonical(*left) && canonical(*right) && binds_as_and(*left)
            && binds_as_not(*right),
        ExprView::Not(inner) => canonical(*inner) && binds_as_not(*inner),
        ExprView::Group(inner) => canonical(*inner),
        ExprView::Compare { left, op, right } => operand_well_formed(left) && operand_well_formed(
            right,
        ),
        ExprView::In { field, set } => field.len() > 0 && set.len() > 0,
    }
}

/// The token `next`, or the end of the input, ends the operand: read
/// after it, it would not be taken for a part of it.
pub open spec fn ends_operand(o: OperandView, next: Option<TokenView>) -> bool {
    match o {
        OperandView::Number(_) => !(next is Some && next->Some_0 is Identifier),
        OperandView::Duration { .. } => true,
        OperandView::Field(_) => next != Some(TokenView::Symbol('.')),
    }
}

/// The token `next`, or the end of the input, ends the last operand of the
/// condition.
pub open spec fn ends_last_operand(e: ExprView, next: Option<TokenView>) -> bool
    decreases e,
{
    match e {
        ExprView::Or(_, right) => ends_last_operand(*right, next),
        ExprView::And(_, right) => ends_last_operand(*right, next),
        ExprView::Not(inner) => ends_last_operand(*inner, next),
        ExprView::Group(_) => true,
        ExprView::Compare { left, op, right } => ends_operand(right, next),
        ExprView::In { .. } => true,
    }
}

/// The token `next`, or the end of the input, ends the condition: read
/// after it, it would neither go on with its last operand nor join another
/// condition to it.
pub open spec fn ends_condition(e: ExprView, next: Option<TokenView>) -> bool {
    &&& ends_last_operand(e, next)
    &&& next != Some(TokenView::Keyword("and"@))
    &&& next != Some(TokenView::Keyword("or"@))
}

/// Adds one token to `out`.
fn push_token(out: &mut Vec<Token>, token: Token)
    ensures
        final(out).deep_view() == old(out).deep_view().push(token@),
{
    let ghost before = out.deep_view();
    out.push(token);
    assert(out.deep_view() =~= before.push(token@));
}

/// Adds the names to `out` as identifiers, with the symbol `sep` between
/// each two.
fn write_names(names: &Vec<String>, sep: char, out: &mut Vec<Token>)
    ensures
        final(out).deep_view() == old(out).deep_view() + separated(names_view(names@), sep),
{
    let ghost before = out.deep_view();
    let ghost all = separated(names_view(names@), sep);
    let mut i: usize = 0;
    assert(out.deep_view() =~= before + all.take(0));
    while i < names.len()
        invariant
            i <= names.len(),
            all == separated(names_view(names@), sep),
            out.deep_view() == before + all.take(
                if i == 0 {
                    0
                } else {
                    2 * i - 1
                },
            ),
        decreases names.len() - i,
    {
        let ghost k = i as int;
        let ghost so_far = out.deep_view();
        if i > 0 {
            push_token(out, Token::Symbol(sep));
        }
        push_token(out, Token::Identifier(names[i].clone()));
        i += 1;
        proof {
            assert(all[2 * k] == TokenView::Identifier(names@[k]@));
            if k > 0 {
                assert(all[2 * k - 1] == TokenView::Symbol(sep));
                assert(all.take(2 * k + 1) =~= all.take(2 * k - 1).push(all[2 * k - 1]).push(
                    all[2 * k],
                ));
            } else {
                assert(all.take(1) =~= all.take(0).push(all[0]));
            }
            assert(out.deep_view() =~= before + all.take(2 * k + 1));
        }
    }
    assert(all.take(all.len() as int) =~= all);
}

/// Adds the tokens that write the operand to `out`.
fn write_operand(o: &Operand, out: &mut Vec<Token>)
    ensures
        final(out).deep_view() == old(out).deep_view() + operand_tokens(o@),
{
    let ghost before = out.deep_view();
    match o {
        Operand::Number(n) => {
            push_token(out, Token::Number(*n));
            assert(out.deep_view() =~= before + operand_tokens(o@));
        },
        Operand::Duration { value, unit } => {
            push_token(out, Token::Number(*value));
            push_token(out, Token::Identifier(unit.clone()));
            assert(out.deep_view() =~= before + operand_tokens(o@));
        },
        Operand::Field(field) => {
            write_names(&field.segments, '.', out);
        },
    }
}

/// Adds the tokens that write the condition to `out`.
fn write_expr(e: &Expr, out: &mut Vec<Token>)
    ensures
        final(out).deep_view() == old(out).deep_view() + expr_tokens(e@),
    decreases e,
{
    let ghost before = out.deep_view();
    match e {
        Expr::Or(left, right) => {
            write_expr(left, out);
            push_token(out, Token::Keyword("or".to_owned()));
            write_expr(right, out);
            assert(out.deep_view() =~= before + (expr_tokens(left@) + seq![
                TokenView::Keyword("or"@),
            ] + expr_tokens(right@)));
        },
        Expr::And(left, right) => {
            write_expr(left, out);
            push_token(out, Token::Keyword("and".to_owned()));
            write_expr(right, out);
            assert(out.deep_view() =~= before + (expr_tokens(left@) + seq![
                TokenView::Keyword("and"@),
            ] + expr_tokens(right@)));
        },
        Expr::Not(inner) => {
            push_token(out, Token::Keyword("not".to_owned()));
            write_expr(inner, out);
            assert(out.deep_view() =~= before + (seq![TokenView::Keyword("not"@)] + expr_tokens(
                inner@,
            )));
        },
        Expr::Group(inner) => {
            push_token(out, Token::Symbol('('));
            write_expr(inner, out);
            push_token(out, Token::Symbol(')'));
            assert(out.deep_view() =~= before + (seq![TokenView::Symbol('(')] + expr_tokens(
                inner@,
            ) + seq![TokenView::Symbol(')')]));
        },
        Expr::Compare { left, op, right } => {
            write_operand(left, out);
            push_token(out, Token::Operator(op.as_str().to_owned()));
            write_operand(right, out);
            assert(out.deep_view() =~= before + (operand_tokens(left@) + seq![
                TokenView::Operator(sign_of(*op)),
            ] + operand_tokens(right@)));
        },
        Expr::In { field, set } => {
            write_names(&field.segments, '.', out);
            push_token(out, Token::Keyword("in".to_owned()));
            push_token(out, Token::Symbol('['));
            write_names(set, ',', out);
            push_token(out, Token::Symbol(']'));
            assert(out.deep_view() =~= before + (separated(field@, '.') + seq![
                TokenView::Keyword("in"@),
                TokenView::Symbol('['),
            ] + separated(names_view(set@), ',') + seq![TokenView::Symbol(']')]));
        },
    }
}

impl CompOp {
    /// The operator that writes the comparison.
    pub fn as_str(&self) -> (text: &'static str)
        ensures
            text@ == sign_of(*self),
    {
        match self {
            CompOp::Eq => "==",
            CompOp::Ne => "!=",
            CompOp::Gt => ">",
            CompOp::Lt => "<",
            CompOp::Ge => ">=",
            CompOp::Le => "<=",
        }
    }
}

impl Expr {
    /// The tokens that write the condition. Parsed again, they give the
    /// condition back if it is canonical, as every parsed condition is.
    pub fn to_tokens(&self) -> (tokens: Vec<Token>)
        ensures
            tokens.deep_view() == expr_tokens(self@),
    {
        let mut tokens: Vec<Token> = Vec::new();
        assert(tokens.deep_view() =~= Seq::empty());
        write_expr(self, &mut tokens);
        assert(Seq::<TokenView>::empty() + expr_tokens(self@) =~= expr_tokens(self@));
        tokens
    }
}

} // verus!
