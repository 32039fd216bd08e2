//! The parser and the writer of conditions undo each other: what the parser
//! reads is what its result writes, and what a canonical condition writes
//! is read back as that condition.

use crate::ast::{ExprView, OperandView};
use crate::grammar::{
    after, and_expr, and_rest, comp_op, comparison, condition, done, expect_ident, expect_symbol, field,
    field_rest, membership, name_list, not_expr, operand, or_expr, or_rest, peek, predicate, rest,
    Step,
};
use crate::token::TokenView;
use crate::unparse::{
    binds_as_and, binds_as_not, canonical, ends_condition, ends_last_operand, ends_operand,
    expr_tokens, is_predicate, operand_tokens, operand_well_formed, separated, sign_of,
};
use vstd::prelude::*;

verus! {

/// The `used` tokens from `pos` on are `tokens`.
pub open spec fn reads(ts: Seq<TokenView>, pos: int, used: nat, tokens: Seq<TokenView>) -> bool {
    &&& 0 <= pos
    &&& pos + used <= ts.len()
    &&& ts.subrange(pos, pos + used) == tokens
}

/// The step has yielded a canonical condition, and the tokens that it has
/// taken from `pos` on are those that write the condition.
pub open spec fn reads_condition(ts: Seq<TokenView>, pos: int, step: Step<ExprView>) -> bool {
    &&& step.result is Ok
    &&& canonical(step.result->Ok_0)
    &&& reads(ts, pos, step.used, expr_tokens(step.result->Ok_0))
}

/// One more name is written as a separator and an identifier more.
proof fn lemma_separated_push(names: Seq<Seq<char>>, name: Seq<char>, sep: char)
    requires
        names.len() > 0,
    ensures
        separated(names.push(name), sep) == separated(names, sep) + seq![
            TokenView::Symbol(sep),
            TokenView::Identifier(name),
        ],
{
    assert(separated(names.push(name), sep) =~= separated(names, sep) + seq![
        TokenView::Symbol(sep),
        TokenView::Identifier(name),
    ]);
}

/// A single name is written as one identifier.
proof fn lemma_separated_one(name: Seq<char>, sep: char)
    ensures
        separated(seq![name], sep) == seq![TokenView::Identifier(name)],
{
    assert(separated(seq![name], sep) =~= seq![TokenView::Identifier(name)]);
}

/// The segments after the first are read from the tokens that write them.
proof fn lemma_field_rest_reads(ts: Seq<TokenView>, pos: int, segments: Seq<Seq<char>>, start: int)
    requires
        0 <= start <= pos <= ts.len(),
        segments.len() > 0,
        ts.subrange(start, pos) == separated(segments, '.'),
    ensures
        field_rest(ts, pos, segments).result is Ok ==> {
            let step = field_rest(ts, pos, segments);
            &&& step.result->Ok_0.len() > 0
            &&& reads(ts, start, (pos - start + step.used) as nat, separated(step.result->Ok_0, '.'))
        },
    decreases rest(ts, pos),
{
    if peek(ts, pos) == Some(TokenView::Symbol('.')) {
        let name = expect_ident(ts, pos + 1);
        if name.result is Ok {
            let segment = name.result->Ok_0;
            lemma_separated_push(segments, segment, '.');
            assert(ts.subrange(start, pos + 2) =~= ts.subrange(start, pos) + seq![
                TokenView::Symbol('.'),
                TokenView::Identifier(segment),
            ]);
            lemma_field_rest_reads(ts, pos + 2, segments.push(segment), start);
        }
    } else {
        assert(ts.subrange(start, pos + 0) == ts.subrange(start, pos));
    }
}

/// A field that is read is not empty, and is read from the tokens that
/// write it.
pub proof fn lemma_field_reads(ts: Seq<TokenView>, pos: int)
    requires
        0 <= pos,
    ensures
        field(ts, pos).result is Ok ==> {
            &&& field(ts, pos).result->Ok_0.len() > 0
            &&& reads(ts, pos, field(ts, pos).used, separated(field(ts, pos).result->Ok_0, '.'))
        },
{
    let name = expect_ident(ts, pos);
    if name.result is Ok {
        lemma_separated_one(name.result->Ok_0, '.');
        assert(ts.subrange(pos, pos + 1) =~= seq![TokenView::Identifier(name.result->Ok_0)]);
        lemma_field_rest_reads(ts, pos + 1, seq![name.result->Ok_0], pos);
    }
}

/// An operand that is read is well formed, and is read from the tokens that
/// write it.
pub proof fn lemma_operand_reads(ts: Seq<TokenView>, pos: int)
    requires
        0 <= pos,
    ensures
        operand(ts, pos).result is Ok ==> {
            &&& operand_well_formed(operand(ts, pos).result->Ok_0)
            &&& reads(ts, pos, operand(ts, pos).used, operand_tokens(operand(ts, pos).result->Ok_0))
        },
{
    match peek(ts, pos) {
        Some(TokenView::Number(value)) => {
            match peek(ts, pos + 1) {
                Some(TokenView::Identifier(unit)) => {
                    assert(ts.subrange(pos, pos + 2) =~= seq![
                        TokenView::Number(value),
                        TokenView::Identifier(unit),
                    ]);
                },
                _ => {
                    assert(ts.subrange(pos, pos + 1) =~= seq![TokenView::Number(value)]);
                },
            }
        },
        _ => {
            lemma_field_reads(ts, pos);
        },
    }
}

/// A comparison that is read is canonical, and is read from the tokens that
/// write it.
pub proof fn lemma_comparison_reads(ts: Seq<TokenView>, pos: int)
    requires
        0 <= pos,
    ensures
        comparison(ts, pos).result is Ok ==> reads_condition(ts, pos, comparison(ts, pos))
            && comparison(ts, pos).result->Ok_0 is Compare,
{
    reveal(comparison);
    let left = operand(ts, pos);
    lemma_operand_reads(ts, pos);
    if left.result is Ok {
        let op = comp_op(ts, pos + left.used);
        if op.result is Ok {
            let right = operand(ts, pos + left.used + 1);
            lemma_operand_reads(ts, pos + left.used + 1);
            if right.result is Ok {
                let end = pos + left.used + 1 + right.used;
                assert(ts.subrange(pos, end) =~= ts.subrange(pos, pos + left.used) + seq![
                    TokenView::Operator(sign_of(op.result->Ok_0)),
                ] + ts.subrange(pos + left.used + 1, end));
            }
        }
    }
}

/// The names of a list are read from the tokens that write them.
proof fn lemma_name_list_reads(ts: Seq<TokenView>, pos: int, names: Seq<Seq<char>>, start: int)
    requires
        0 <= start <= pos <= ts.len(),
        names.len() == 0 ==> start == pos,
        names.len() > 0 ==> ts.subrange(start, pos) == separated(names, ',') + seq![
            TokenView::Symbol(','),
        ],
    ensures
        name_list(ts, pos, names).result is Ok ==> {
            let step = name_list(ts, pos, names);
            &&& step.result->Ok_0.len() > 0
            &&& reads(
                ts,
                start,
                (pos - start + step.used) as nat,
                separated(step.result->Ok_0, ',') + seq![TokenView::Symbol(']')],
            )
        },
    decreases rest(ts, pos),
{
    let name = expect_ident(ts, pos);
    if name.result is Ok {
        let n = name.result->Ok_0;
        let longer = names.push(n);
        if names.len() == 0 {
            assert(longer =~= seq![n]);
            lemma_separated_one(n, ',');
            assert(ts.subrange(start, pos + 1) =~= separated(longer, ','));
        } else {
            lemma_separated_push(names, n, ',');
            assert(ts.subrange(start, pos + 1) =~= ts.subrange(start, pos) + seq![
                TokenView::Identifier(n),
            ]);
            assert(ts.subrange(start, pos + 1) =~= separated(longer, ','));
        }
        if peek(ts, pos + 1) == Some(TokenView::Symbol(']')) {
            assert(ts.subrange(start, pos + 2) =~= ts.subrange(start, pos + 1) + seq![
                TokenView::Symbol(']'),
            ]);
        } else {
            let comma = expect_symbol(ts, pos + 1, ',');
            if comma.result is Ok {
                assert(ts.subrange(start, pos + 2) =~= ts.subrange(start, pos + 1) + seq![
                    TokenView::Symbol(','),
                ]);
                lemma_name_list_reads(ts, pos + 2, longer, start);
            }
        }
    }
}

/// A list of names that is read is not empty, and is read from the tokens
/// that write it between its brackets.
pub proof fn lemma_membership_reads(ts: Seq<TokenView>, pos: int, path: Seq<Seq<char>>)
    requires
        0 <= pos,
    ensures
        membership(ts, pos, path).result is Ok ==> {
            let step = membership(ts, pos, path);
            &&& step.result->Ok_0 is In
            &&& step.result->Ok_0->In_field == path
            &&& step.result->Ok_0->In_set.len() > 0
            &&& reads(
                ts,
                pos,
                step.used,
                seq![TokenView::Symbol('[')] + separated(step.result->Ok_0->In_set, ',') + seq![
                    TokenView::Symbol(']'),
                ],
            )
        },
{
    reveal(membership);
    let open = expect_symbol(ts, pos, '[');
    if open.result is Ok {
        let names = name_list(ts, pos + 1, Seq::empty());
        if names.result is Ok {
            lemma_name_list_reads(ts, pos + 1, Seq::empty(), pos + 1);
            let end = pos + 1 + names.used;
            let set = names.result->Ok_0;
            let inner = ts.subrange(pos + 1, end);
            assert(inner == separated(set, ',') + seq![TokenView::Symbol(']')]);
            assert(ts.subrange(pos, end) =~= seq![TokenView::Symbol('[')] + inner);
            assert(seq![TokenView::Symbol('[')] + inner =~= seq![TokenView::Symbol('[')]
                + separated(set, ',') + seq![TokenView::Symbol(']')]);
        }
    }
}

/// A membership test that is read is canonical, and is read from the tokens
/// that write it.
proof fn lemma_membership_test_reads(ts: Seq<TokenView>, pos: int)
    requires
        0 <= pos,
        field(ts, pos).result is Ok,
        peek(ts, pos + field(ts, pos).used) == Some(TokenView::Keyword("in"@)),
    ensures
        ({
            let path = field(ts, pos);
            let step = after(
                path.used + 1,
                membership(ts, pos + path.used + 1, path.result->Ok_0),
            );
            step.result is Ok ==> reads_condition(ts, pos, step) && step.result->Ok_0 is In
        }),
{
    let path = field(ts, pos);
    lemma_field_reads(ts, pos);
    let list = membership(ts, pos + path.used + 1, path.result->Ok_0);
    lemma_membership_reads(ts, pos + path.used + 1, path.result->Ok_0);
    if list.result is Ok {
        let set = list.result->Ok_0->In_set;
        let end = pos + path.used + 1 + list.used;
        let head = ts.subrange(pos, pos + path.used);
        let tail = ts.subrange(pos + path.used + 1, end);
        assert(ts.subrange(pos, end) =~= head + seq![TokenView::Keyword("in"@)] + tail);
        assert(head + seq![TokenView::Keyword("in"@)] + tail =~= separated(
            path.result->Ok_0,
            '.',
        ) + seq![TokenView::Keyword("in"@), TokenView::Symbol('[')] + separated(set, ',') + seq![
            TokenView::Symbol(']'),
        ]);
    }
}

/// What `or_expr` yields is canonical and is read from what writes it.
proof fn lemma_or_expr_reads(ts: Seq<TokenView>, pos: int)
    requires
        0 <= pos,
    ensures
        or_expr(ts, pos).result is Ok ==> reads_condition(ts, pos, or_expr(ts, pos)),
    decreases rest(ts, pos), 6nat,
{
    let first = and_expr(ts, pos);
    lemma_and_expr_reads(ts, pos);
    if first.result is Ok {
        lemma_or_rest_reads(ts, pos + first.used, first.result->Ok_0, pos);
    }
}

/// What `or_rest` joins to a condition is read from what writes it.
proof fn lemma_or_rest_reads(ts: Seq<TokenView>, pos: int, left: ExprView, start: int)
    requires
        0 <= start <= pos <= ts.len(),
        canonical(left),
        ts.subrange(start, pos) == expr_tokens(left),
    ensures
        or_rest(ts, pos, left).result is Ok ==> {
            let step = or_rest(ts, pos, left);
            &&& canonical(step.result->Ok_0)
            &&& reads(ts, start, (pos - start + step.used) as nat, expr_tokens(step.result->Ok_0))
        },
    decreases rest(ts, pos), 5nat,
{
    if peek(ts, pos) == Some(TokenView::Keyword("or"@)) {
        let next = and_expr(ts, pos + 1);
        lemma_and_expr_reads(ts, pos + 1);
        if next.result is Ok {
            let end = pos + 1 + next.used;
            let joined = ExprView::Or(Box::new(left), Box::new(next.result->Ok_0));
            assert(ts.subrange(start, end) =~= ts.subrange(start, pos) + seq![
                TokenView::Keyword("or"@),
            ] + ts.subrange(pos + 1, end));
            lemma_or_rest_reads(ts, end, joined, start);
        }
    } else {
        assert(ts.subrange(start, pos + 0) == ts.subrange(start, pos));
    }
}

/// What `and_expr` yields is canonical, binds as `and` does, and is read
/// from what writes it.
proof fn lemma_and_expr_reads(ts: Seq<TokenView>, pos: int)
    requires
        0 <= pos,
    ensures
        and_expr(ts, pos).result is Ok ==> reads_condition(ts, pos, and_expr(ts, pos))
            && binds_as_and(and_expr(ts, pos).result->Ok_0),
    decreases rest(ts, pos), 4nat,
{
    let first = not_expr(ts, pos);
    lemma_not_expr_reads(ts, pos);
    if first.result is Ok {
        lemma_and_rest_reads(ts, pos + first.used, first.result->Ok_0, pos);
    }
}

/// What `and_rest` joins to a condition is read from what writes it.
proof fn lemma_and_rest_reads(ts: Seq<TokenView>, pos: int, left: ExprView, start: int)
    requires
        0 <= start <= pos <= ts.len(),
        canonical(left),
        binds_as_and(left),
        ts.subrange(start, pos) == expr_tokens(left),
    ensures
        and_rest(ts, pos, left).result is Ok ==> {
            let step = and_rest(ts, pos, left);
            &&& canonical(step.result->Ok_0)
            &&& binds_as_and(step.result->Ok_0)
            &&& reads(ts, start, (pos - start + step.used) as nat, expr_tokens(step.result->Ok_0))
        },
    decreases rest(ts, pos), 3nat,
{
    if peek(ts, pos) == Some(TokenView::Keyword("and"@)) {
        let next = not_expr(ts, pos + 1);
        lemma_not_expr_reads(ts, pos + 1);
        if next.result is Ok {
            let end = pos + 1 + next.used;
            let joined = ExprView::And(Box::new(left), Box::new(next.result->Ok_0));
            assert(ts.subrange(start, end) =~= ts.subrange(start, pos) + seq![
                TokenView::Keyword("and"@),
            ] + ts.subrange(pos + 1, end));
            lemma_and_rest_reads(ts, end, joined, start);
        }
    } else {
        assert(ts.subrange(start, pos + 0) == ts.subrange(start, pos));
    }
}

/// What `not_expr` yields is canonical, binds as `not` does, and is read
/// from what writes it.
proof fn lemma_not_expr_reads(ts: Seq<TokenView>, pos: int)
    requires
        0 <= pos,
    ensures
        not_expr(ts, pos).result is Ok ==> reads_condition(ts, pos, not_expr(ts, pos))
            && binds_as_not(not_expr(ts, pos).result->Ok_0),
    decreases rest(ts, pos), 2nat,
{
    if peek(ts, pos) == Some(TokenView::Keyword("not"@)) {
        let inner = not_expr(ts, pos + 1);
        lemma_not_expr_reads(ts, pos + 1);
        if inner.result is Ok {
            let end = pos + 1 + inner.used;
            assert(ts.subrange(pos, end) =~= seq![TokenView::Keyword("not"@)] + ts.subrange(
                pos + 1,
                end,
            ));
        }
    } else {
        lemma_predicate_reads(ts, pos);
    }
}

/// What `predicate` yields is a canonical predicate and is read from what
/// writes it.
proof fn lemma_predicate_reads(ts: Seq<TokenView>, pos: int)
    requires
        0 <= pos,
    ensures
        predicate(ts, pos).result is Ok ==> reads_condition(ts, pos, predicate(ts, pos))
            && is_predicate(predicate(ts, pos).result->Ok_0),
    decreases rest(ts, pos), 1nat,
{
    if peek(ts, pos) == Some(TokenView::Symbol('(')) {
        let inner = or_expr(ts, pos + 1);
        lemma_or_expr_reads(ts, pos + 1);
        if inner.result is Ok {
            let close = expect_symbol(ts, pos + 1 + inner.used, ')');
            if close.result is Ok {
                let end = pos + 1 + inner.used + 1;
                assert(ts.subrange(pos, end) =~= seq![TokenView::Symbol('(')] + ts.subrange(
                    pos + 1,
                    end - 1,
                ) + seq![TokenView::Symbol(')')]);
            }
        }
    } else {
        let path = field(ts, pos);
        if path.result is Ok && peek(ts, pos + path.used) == Some(TokenView::Keyword("in"@)) {
            lemma_membership_test_reads(ts, pos);
        } else {
            lemma_comparison_reads(ts, pos);
        }
    }
}

/// What the parser reads is what its result writes: a condition that is
/// parsed is canonical, and the tokens that the parser has taken for it are
/// the tokens that write it.
pub proof fn lemma_condition_reads(ts: Seq<TokenView>, pos: int)
    requires
        0 <= pos,
    ensures
        condition(ts, pos).result is Ok ==> reads_condition(ts, pos, condition(ts, pos)),
{
    lemma_or_expr_reads(ts, pos);
}

/// Tokens that are read as `a` followed by `b` are read as `a`, and then
/// as `b`.
proof fn lemma_reads_split(ts: Seq<TokenView>, pos: int, a: Seq<TokenView>, b: Seq<TokenView>)
    requires
        reads(ts, pos, (a + b).len(), a + b),
    ensures
        reads(ts, pos, a.len(), a),
        reads(ts, pos + a.len(), b.len(), b),
{
    let whole = ts.subrange(pos, pos + (a + b).len());
    assert(ts.subrange(pos, pos + a.len()) =~= whole.subrange(0, a.len() as int));
    assert(whole.subrange(0, a.len() as int) =~= a);
    assert(ts.subrange(pos + a.len(), pos + a.len() + b.len()) =~= whole.subrange(
        a.len() as int,
        (a + b).len() as int,
    ));
    assert(whole.subrange(a.len() as int, (a + b).len() as int) =~= b);
}

/// Each comparison is read back from its own sign.
proof fn lemma_sign_is_read_back(op: crate::ast::CompOp)
    ensures
        crate::grammar::comparison_of(sign_of(op)) == Some(op),
{
    reveal_strlit("==");
    reveal_strlit("!=");
    reveal_strlit(">=");
    reveal_strlit("<=");
    reveal_strlit(">");
    reveal_strlit("<");
    assert("=="@[0] == '=' && "!="@[0] == '!' && ">="@[0] == '>' && "<="@[0] == '<');
    assert(">"@.len() == 1 && "<"@.len() == 1 && ">"@[0] == '>' && "<"@[0] == '<');
}

/// A token that is neither an identifier nor a dot ends every operand.
proof fn lemma_ends_last_operand(e: ExprView, next: TokenView)
    requires
        !(next is Identifier),
        next != TokenView::Symbol('.'),
    ensures
        ends_last_operand(e, Some(next)),
    decreases e,
{
    match e {
        ExprView::Or(_, right) => lemma_ends_last_operand(*right, next),
        ExprView::And(_, right) => lemma_ends_last_operand(*right, next),
        ExprView::Not(inner) => lemma_ends_last_operand(*inner, next),
        _ => {},
    }
}

/// The segments after the first `k` are read back from what writes them.
proof fn lemma_field_rest_reparses(
    ts: Seq<TokenView>,
    start: int,
    path: Seq<Seq<char>>,
    k: int,
)
    requires
        1 <= k <= path.len(),
        reads(ts, start, separated(path, '.').len(), separated(path, '.')),
        peek(ts, start + separated(path, '.').len()) != Some(TokenView::Symbol('.')),
    ensures
        field_rest(ts, start + 2 * k - 1, path.take(k)) == done(
            path,
            (2 * (path.len() - k)) as nat,
        ),
    decreases path.len() - k,
{
    let written = separated(path, '.');
    let pos = start + 2 * k - 1;
    if k == path.len() {
        assert(path.take(k) =~= path);
    } else {
        assert(ts[pos] == ts.subrange(start, start + written.len())[2 * k - 1]);
        assert(ts[pos + 1] == ts.subrange(start, start + written.len())[2 * k]);
        assert(written[2 * k] == TokenView::Identifier(path[k]));
        assert(path.take(k).push(path[k]) =~= path.take(k + 1));
        lemma_field_rest_reparses(ts, start, path, k + 1);
    }
}

/// A field is read back from the tokens that write it, where no dot
/// follows them.
pub proof fn lemma_field_reparses(ts: Seq<TokenView>, pos: int, path: Seq<Seq<char>>)
    requires
        path.len() > 0,
        reads(ts, pos, separated(path, '.').len(), separated(path, '.')),
        peek(ts, pos + separated(path, '.').len()) != Some(TokenView::Symbol('.')),
    ensures
        field(ts, pos) == done(path, separated(path, '.').len()),
{
    let written = separated(path, '.');
    assert(ts[pos] == ts.subrange(pos, pos + written.len())[0]);
    assert(written[0] == TokenView::Identifier(path[0]));
    assert(path.take(1) =~= seq![path[0]]);
    lemma_field_rest_reparses(ts, pos, path, 1);
}

/// An operand is read back from the tokens that write it, where what
/// follows them ends it.
pub proof fn lemma_operand_reparses(ts: Seq<TokenView>, pos: int, o: OperandView)
    requires
        operand_well_formed(o),
        reads(ts, pos, operand_tokens(o).len(), operand_tokens(o)),
        ends_operand(o, peek(ts, pos + operand_tokens(o).len())),
    ensures
        operand(ts, pos) == done(o, operand_tokens(o).len()),
{
    let written = operand_tokens(o);
    assert(ts[pos] == ts.subrange(pos, pos + written.len())[0]);
    match o {
        OperandView::Number(n) => {},
        OperandView::Duration { value, unit } => {
            assert(ts[pos + 1] == ts.subrange(pos, pos + written.len())[1]);
        },
        OperandView::Field(path) => {
            assert(written[0] == TokenView::Identifier(path[0]));
            lemma_field_reparses(ts, pos, path);
        },
    }
}

/// A comparison is read back from the tokens that write it, where what
/// follows them ends its right operand.
pub proof fn lemma_comparison_reparses(ts: Seq<TokenView>, pos: int, e: ExprView)
    requires
        e is Compare,
        canonical(e),
        reads(ts, pos, expr_tokens(e).len(), expr_tokens(e)),
        ends_last_operand(e, peek(ts, pos + expr_tokens(e).len())),
    ensures
        comparison(ts, pos) == done(e, expr_tokens(e).len()),
        predicate(ts, pos) == done(e, expr_tokens(e).len()),
{
    reveal(comparison);
    let left = e->Compare_left;
    let op = e->Compare_op;
    let right = e->Compare_right;
    let l = operand_tokens(left);
    let sign = seq![TokenView::Operator(sign_of(op))];
    let r = operand_tokens(right);
    assert(expr_tokens(e) == l + sign + r);
    lemma_reads_split(ts, pos, l + sign, r);
    lemma_reads_split(ts, pos, l, sign);
    assert(ts[pos + l.len()] == ts.subrange(pos + l.len(), pos + l.len() + 1)[0]);
    assert(ts[pos] == ts.subrange(pos, pos + l.len())[0]);
    lemma_operand_reparses(ts, pos, left);
    lemma_sign_is_read_back(op);
    lemma_operand_reparses(ts, pos + l.len() + 1, right);
    match left {
        OperandView::Field(path) => {
            assert(l[0] == TokenView::Identifier(path[0]));
            lemma_field_reparses(ts, pos, path);
        },
        _ => {},
    }
}

/// The names after the first `k` are read back from what writes them.
proof fn lemma_name_list_reparses(ts: Seq<TokenView>, start: int, set: Seq<Seq<char>>, k: int)
    requires
        0 <= k < set.len(),
        reads(
            ts,
            start,
            (separated(set, ',') + seq![TokenView::Symbol(']')]).len(),
            separated(set, ',') + seq![TokenView::Symbol(']')],
        ),
    ensures
        name_list(ts, start + 2 * k, set.take(k)) == done(set, (2 * (set.len() - k)) as nat),
    decreases set.len() - k,
{
    let written = separated(set, ',') + seq![TokenView::Symbol(']')];
    let pos = start + 2 * k;
    assert(ts[pos] == ts.subrange(start, start + written.len())[2 * k]);
    assert(ts[pos + 1] == ts.subrange(start, start + written.len())[2 * k + 1]);
    assert(written[2 * k] == TokenView::Identifier(set[k]));
    assert(set.take(k).push(set[k]) =~= set.take(k + 1));
    if k + 1 == set.len() {
        assert(set.take(k + 1) =~= set);
        assert(written[2 * k + 1] == TokenView::Symbol(']'));
    } else {
        assert(written[2 * k + 1] == TokenView::Symbol(','));
        lemma_name_list_reparses(ts, start, set, k + 1);
    }
}

/// A membership test is read back from the tokens that write it.
pub proof fn lemma_membership_test_reparses(ts: Seq<TokenView>, pos: int, e: ExprView)
    requires
        e is In,
        canonical(e),
        reads(ts, pos, expr_tokens(e).len(), expr_tokens(e)),
    ensures
        predicate(ts, pos) == done(e, expr_tokens(e).len()),
{
    reveal(membership);
    let path = e->In_field;
    let set = e->In_set;
    let p = separated(path, '.');
    let mid = seq![TokenView::Keyword("in"@), TokenView::Symbol('[')];
    let list = separated(set, ',') + seq![TokenView::Symbol(']')];
    assert(expr_tokens(e) =~= p + mid + list);
    lemma_reads_split(ts, pos, p + mid, list);
    lemma_reads_split(ts, pos, p, mid);
    assert(ts[pos] == ts.subrange(pos, pos + p.len())[0]);
    assert(p[0] == TokenView::Identifier(path[0]));
    assert(ts[pos + p.len()] == ts.subrange(pos + p.len(), pos + p.len() + 2)[0]);
    assert(ts[pos + p.len() + 1] == ts.subrange(pos + p.len(), pos + p.len() + 2)[1]);
    lemma_field_reparses(ts, pos, path);
    assert(set.take(0) =~= Seq::<Seq<char>>::empty());
    lemma_name_list_reparses(ts, pos + p.len() + 2, set, 0);
}

/// A canonical predicate is read back by `predicate`.
proof fn lemma_predicate_reparses(ts: Seq<TokenView>, pos: int, e: ExprView)
    requires
        canonical(e),
        is_predicate(e),
        reads(ts, pos, expr_tokens(e).len(), expr_tokens(e)),
        ends_last_operand(e, peek(ts, pos + expr_tokens(e).len())),
    ensures
        predicate(ts, pos) == done(e, expr_tokens(e).len()),
        peek(ts, pos) != Some(TokenView::Keyword("not"@)),
    decreases e, 0nat,
{
    let written = expr_tokens(e);
    assert(ts[pos] == ts.subrange(pos, pos + written.len())[0]);
    match e {
        ExprView::Group(inner) => {
            let open = seq![TokenView::Symbol('(')];
            let body = expr_tokens(*inner);
            let close = seq![TokenView::Symbol(')')];
            assert(written == open + body + close);
            lemma_reads_split(ts, pos, open + body, close);
            lemma_reads_split(ts, pos, open, body);
            let end = pos + 1 + body.len();
            assert(ts[end] == ts.subrange(end, end + 1)[0]);
            lemma_ends_last_operand(*inner, TokenView::Symbol(')'));
            lemma_or_level_reparses(ts, pos + 1, *inner);
        },
        ExprView::Compare { left, op, right } => {
            lemma_comparison_reparses(ts, pos, e);
            assert(written[0] == operand_tokens(left)[0]);
            if left is Field {
                assert(operand_tokens(left)[0] == TokenView::Identifier(left->Field_0[0]));
            }
        },
        ExprView::In { field, set } => {
            lemma_membership_test_reparses(ts, pos, e);
            assert(written[0] == separated(field, '.')[0]);
            assert(separated(field, '.')[0] == TokenView::Identifier(field[0]));
        },
        _ => {},
    }
}

/// A canonical condition that binds as `not` does is read back by
/// `not_expr`.
proof fn lemma_not_level_reparses(ts: Seq<TokenView>, pos: int, e: ExprView)
    requires
        canonical(e),
        binds_as_not(e),
        reads(ts, pos, expr_tokens(e).len(), expr_tokens(e)),
        ends_last_operand(e, peek(ts, pos + expr_tokens(e).len())),
    ensures
        not_expr(ts, pos) == done(e, expr_tokens(e).len()),
    decreases e, 1nat,
{
    match e {
        ExprView::Not(inner) => {
            let word = seq![TokenView::Keyword("not"@)];
            assert(expr_tokens(e) == word + expr_tokens(*inner));
            lemma_reads_split(ts, pos, word, expr_tokens(*inner));
            assert(ts[pos] == ts.subrange(pos, pos + 1)[0]);
            lemma_not_level_reparses(ts, pos + 1, *inner);
        },
        _ => {
            lemma_predicate_reparses(ts, pos, e);
        },
    }
}

/// A canonical condition that binds as `and` does is read by `and_expr` as
/// the left operand of what follows it.
proof fn lemma_and_level_reparses(ts: Seq<TokenView>, pos: int, e: ExprView)
    requires
        canonical(e),
        binds_as_and(e),
        reads(ts, pos, expr_tokens(e).len(), expr_tokens(e)),
        ends_last_operand(e, peek(ts, pos + expr_tokens(e).len())),
    ensures
        and_expr(ts, pos) == after(
            expr_tokens(e).len(),
            and_rest(ts, pos + expr_tokens(e).len(), e),
        ),
    decreases e, 2nat,
{
    match e {
        ExprView::And(left, right) => {
            let l = expr_tokens(*left);
            let word = seq![TokenView::Keyword("and"@)];
            let r = expr_tokens(*right);
            assert(expr_tokens(e) == l + word + r);
            lemma_reads_split(ts, pos, l + word, r);
            lemma_reads_split(ts, pos, l, word);
            assert(ts[pos + l.len()] == ts.subrange(pos + l.len(), pos + l.len() + 1)[0]);
            lemma_ends_last_operand(*left, TokenView::Keyword("and"@));
            lemma_and_level_reparses(ts, pos, *left);
            lemma_not_level_reparses(ts, pos + l.len() + 1, *right);
        },
        _ => {
            lemma_not_level_reparses(ts, pos, e);
        },
    }
}

/// A canonical condition is read by `or_expr` as the left operand of what
/// follows it, if no `and` follows it.
proof fn lemma_or_level_reparses(ts: Seq<TokenView>, pos: int, e: ExprView)
    requires
        canonical(e),
        reads(ts, pos, expr_tokens(e).len(), expr_tokens(e)),
        ends_last_operand(e, peek(ts, pos + expr_tokens(e).len())),
        peek(ts, pos + expr_tokens(e).len()) != Some(TokenView::Keyword("and"@)),
    ensures
        or_expr(ts, pos) == after(expr_tokens(e).len(), or_rest(ts, pos + expr_tokens(e).len(), e)),
    decreases e, 3nat,
{
    match e {
        ExprView::Or(left, right) => {
            let l = expr_tokens(*left);
            let word = seq![TokenView::Keyword("or"@)];
            let r = expr_tokens(*right);
            assert(expr_tokens(e) == l + word + r);
            lemma_reads_split(ts, pos, l + word, r);
            lemma_reads_split(ts, pos, l, word);
            assert(ts[pos + l.len()] == ts.subrange(pos + l.len(), pos + l.len() + 1)[0]);
            lemma_ends_last_operand(*left, TokenView::Keyword("or"@));
            assert("or"@ != "and"@) by {
                reveal_strlit("or");
                reveal_strlit("and");
                assert("or"@.len() == 2 && "and"@.len() == 3);
            }
            lemma_or_level_reparses(ts, pos, *left);
            lemma_and_level_reparses(ts, pos + l.len() + 1, *right);
        },
        _ => {
            lemma_and_level_reparses(ts, pos, e);
        },
    }
}

/// What a canonical condition writes is read back as that condition,
/// wherever the tokens stand, if what follows them ends the condition.
pub proof fn lemma_condition_reparses(ts: Seq<TokenView>, pos: int, e: ExprView)
    requires
        canonical(e),
        reads(ts, pos, expr_tokens(e).len(), expr_tokens(e)),
        ends_condition(e, peek(ts, pos + expr_tokens(e).len())),
    ensures
        condition(ts, pos) == done(e, expr_tokens(e).len()),
{
    lemma_or_level_reparses(ts, pos, e);
}

/// Round trip: a condition that has been parsed, written back as tokens
/// and parsed again, is the same condition, and the second parse takes
/// all the tokens.
pub proof fn lemma_parsed_condition_round_trips(ts: Seq<TokenView>, pos: int)
    requires
        0 <= pos,
        condition(ts, pos).result is Ok,
    ensures
        ({
            let e = condition(ts, pos).result->Ok_0;
            condition(expr_tokens(e), 0) == done(e, expr_tokens(e).len())
        }),
{
    lemma_condition_reads(ts, pos);
    let e = condition(ts, pos).result->Ok_0;
    let written = expr_tokens(e);
    assert(written.subrange(0, 0int + written.len()) =~= written);
    lemma_canonical_round_trips(e);
}

/// Round trip: every canonical condition is read back from the tokens that
/// write it.
pub proof fn lemma_canonical_round_trips(e: ExprView)
    requires
        canonical(e),
    ensures
        condition(expr_tokens(e), 0) == done(e, expr_tokens(e).len()),
{
    let written = expr_tokens(e);
    assert(written.subrange(0, 0int + written.len()) =~= written);
    lemma_ends_at_the_end(e);
    lemma_condition_reparses(written, 0, e);
}

/// The end of the input ends every operand.
proof fn lemma_ends_at_the_end(e: ExprView)
    ensures
        ends_last_operand(e, None),
    decreases e,
{
    match e {
        ExprView::Or(_, right) => lemma_ends_at_the_end(*right),
        ExprView::And(_, right) => lemma_ends_at_the_end(*right),
        ExprView::Not(inner) => lemma_ends_at_the_end(*inner),
        _ => {},
    }
}

} // verus!
