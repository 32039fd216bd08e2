//! What holds of every program that the parser returns: its shape, and
//! that it is written by all the tokens.

use crate::ast::{RuleView, StatementView};
use crate::grammar::{
    lemma_rule_takes, lemma_statement_takes, parsed, peek, program, rest, rule, rules, semicolon,
    statement, statements,
};
use crate::round_trip::lemma_condition_reads;
use crate::token::TokenView;
use crate::unparse::canonical;
use vstd::prelude::*;

verus! {

/// Every condition of the statements is canonical: its fields and lists
/// are not empty, and its connectives stand as the grammar nests them.
pub open spec fn statements_well_formed(list: Seq<StatementView>) -> bool {
    forall|i: int| 0 <= i < list.len() ==> canonical(#[trigger] list[i].condition)
}

/// Every rule of the program holds well-formed statements only.
pub open spec fn program_well_formed(list: Seq<RuleView>) -> bool {
    forall|i: int| 0 <= i < list.len() ==> statements_well_formed(#[trigger] list[i].statements)
}

/// The condition of a statement that is read is canonical, and the
/// statement ends within the tokens.
pub proof fn lemma_statement_well_formed(ts: Seq<TokenView>, pos: int)
    requires
        0 <= pos,
    ensures
        statement(ts, pos).result is Ok ==> canonical(statement(ts, pos).result->Ok_0.condition)
            && pos + statement(ts, pos).used <= ts.len(),
{
    reveal(statement);
    lemma_condition_reads(ts, pos + 1);
}

proof fn lemma_statements_well_formed(ts: Seq<TokenView>, pos: int, list: Seq<StatementView>)
    requires
        0 <= pos,
        statements_well_formed(list),
    ensures
        statements(ts, pos, list).result is Ok ==> statements_well_formed(
            statements(ts, pos, list).result->Ok_0,
        ) && pos + statements(ts, pos, list).used <= ts.len(),
    decreases rest(ts, pos),
{
    if peek(ts, pos) != Some(TokenView::Symbol('}')) {
        let next = statement(ts, pos);
        lemma_statement_well_formed(ts, pos);
        lemma_statement_takes(ts, pos);
        if next.result is Ok {
            let used = next.used + semicolon(ts, pos + next.used);
            lemma_statements_well_formed(ts, pos + used, list.push(next.result->Ok_0));
        }
    }
}

/// The statements of a rule that is read are well formed, and the rule
/// ends within the tokens.
pub proof fn lemma_rule_well_formed(ts: Seq<TokenView>, pos: int)
    requires
        0 <= pos,
    ensures
        rule(ts, pos).result is Ok ==> statements_well_formed(
            rule(ts, pos).result->Ok_0.statements,
        ) && pos + rule(ts, pos).used <= ts.len(),
{
    reveal(rule);
    lemma_statements_well_formed(ts, pos + 3, Seq::empty());
}

proof fn lemma_rules_well_formed(ts: Seq<TokenView>, pos: int, list: Seq<RuleView>)
    requires
        0 <= pos <= ts.len(),
        program_well_formed(list),
    ensures
        rules(ts, pos, list).result is Ok ==> program_well_formed(
            rules(ts, pos, list).result->Ok_0,
        ) && pos + rules(ts, pos, list).used == ts.len(),
    decreases rest(ts, pos),
{
    if peek(ts, pos) == Some(TokenView::Keyword("rule"@)) {
        let next = rule(ts, pos);
        lemma_rule_well_formed(ts, pos);
        lemma_rule_takes(ts, pos);
        if next.result is Ok {
            lemma_rules_well_formed(ts, pos + next.used, list.push(next.result->Ok_0));
        }
    }
}

/// Every program that is parsed is well formed: no field and no list of
/// names in it is empty, and every condition is canonical.
pub proof fn lemma_parsed_program_well_formed(ts: Seq<TokenView>)
    ensures
        parsed(ts) is Ok ==> program_well_formed(parsed(ts)->Ok_0),
{
    lemma_rules_well_formed(ts, 0, Seq::empty());
}

/// A parse that succeeds ends at the end of the input: the program takes
/// every token.
pub proof fn lemma_parsed_program_takes_all(ts: Seq<TokenView>)
    ensures
        parsed(ts) is Ok ==> program(ts, 0).used == ts.len(),
{
    lemma_rules_well_formed(ts, 0, Seq::empty());
}

} // verus!
