//! The syntax tree of the rule language: plain data, owned from the root down.

use vstd::prelude::*;

verus! {

/// What a statement does to a record that meets its condition.
#[derive(Debug, Clone, Copy, PartialEq, Eq, Structural)]
pub enum Action {
    Delete,
    Mask,
    Notify,
    Encrypt,
}

/// A comparison between two operands.
#[derive(Debug, Clone, Copy, PartialEq, Eq, Structural)]
pub enum CompOp {
    Eq,
    Ne,
    Gt,
    Lt,
    Ge,
    Le,
}

/// A dotted path to an attribute of a record, such as `user.age`.
/// It has at least one segment.
#[derive(Debug, PartialEq, Eq)]
pub struct Field {
    pub segments: Vec<String>,
}

/// One side of a comparison.
#[derive(Debug, PartialEq, Eq)]
pub enum Operand {
    /// A bare number.
    Number(i64),
    /// A number with the unit that follows it, such as `30 days`.
    Duration { value: i64, unit: String },
    /// The value of a field.
    Field(Field),
}

/// A condition. Every node owns its children: the structure is a tree.
#[derive(Debug, PartialEq, Eq)]
pub enum Expr {
    Or(Box<Expr>, Box<Expr>),
    And(Box<Expr>, Box<Expr>),
    Not(Box<Expr>),
    /// A condition that the source wrote in parentheses.
    Group(Box<Expr>),
    Compare { left: Operand, op: CompOp, right: Operand },
    /// Membership of a field's value in a list of names, which is not empty.
    In { field: Field, set: Vec<String> },
}

/// `if` condition `then` action.
#[derive(Debug, PartialEq, Eq)]
pub struct Statement {
    pub condition: Expr,
    pub action: Action,
}

/// A named list of statements.
#[derive(Debug, PartialEq, Eq)]
pub struct Rule {
    pub name: String,
    pub statements: Vec<Statement>,
}

/// The rules of a source text, in the order in which it declares them.
#[derive(Debug, PartialEq, Eq)]
pub struct Program {
    pub rules: Vec<Rule>,
}

/// A list of names as a mathematical value.
pub open spec fn names_view(names: Seq<String>) -> Seq<Seq<char>> {
    Seq::new(names.len(), |i: int| names[i]@)
}

/// An operand as a mathematical value. A field is the sequence of its
/// segments.
pub enum OperandView {
    Number(int),
    Duration { value: int, unit: Seq<char> },
    Field(Seq<Seq<char>>),
}

/// A condition as a mathematical value.
pub enum ExprView {
    Or(Box<ExprView>, Box<ExprView>),
    And(Box<ExprView>, Box<ExprView>),
    Not(Box<ExprView>),
    Group(Box<ExprView>),
    Compare { left: OperandView, op: CompOp, right: OperandView },
    In { field: Seq<Seq<char>>, set: Seq<Seq<char>> },
}

/// A statement as a mathematical value.
pub struct StatementView {
    pub condition: ExprView,
    pub action: Action,
}

/// A rule as a mathematical value.
pub struct RuleView {
    pub name: Seq<char>,
    pub statements: Seq<StatementView>,
}

impl View for Action {
    type V = Action;

    open spec fn view(&self) -> Action {
        *self
    }
}

impl View for CompOp {
    type V = CompOp;

    open spec fn view(&self) -> CompOp {
        *self
    }
}

impl View for Field {
    type V = Seq<Seq<char>>;

    open spec fn view(&self) -> Seq<Seq<char>> {
        names_view(self.segments@)
    }
}

impl View for Operand {
    type V = OperandView;

    open spec fn view(&self) -> OperandView {
        match self {
            Operand::Number(n) => OperandView::Number(*n as int),
            Operand::Duration { value, unit } => OperandView::Duration {
                value: *value as int,
                unit: unit@,
            },
            Operand::Field(field) => OperandView::Field(field@),
        }
    }
}

/// The mathematical value of a condition, node by node.
pub open spec fn expr_view(e: Expr) -> ExprView
    decreases e,
{
    match e {
        Expr::Or(left, right) => ExprView::Or(
            Box::new(expr_view(*left)),
            Box::new(expr_view(*right)),
        ),
        Expr::And(left, right) => ExprView::And(
            Box::new(expr_view(*left)),
            Box::new(expr_view(*right)),
        ),
        Expr::Not(inner) => ExprView::Not(Box::new(expr_view(*inner))),
        Expr::Group(inner) => ExprView::Group(Box::new(expr_view(*inner))),
        Expr::Compare { left, op, right } => ExprView::Compare { left: left@, op: op, right: right@ },
        Expr::In { field, set } => ExprView::In { field: field@, set: names_view(set@) },
    }
}

impl View for Expr {
    type V = ExprView;

    open spec fn view(&self) -> ExprView {
        expr_view(*self)
    }
}

impl View for Statement {
    type V = StatementView;

    open spec fn view(&self) -> StatementView {
        StatementView { condition: self.condition@, action: self.action }
    }
}

impl DeepView for Statement {
    type V = StatementView;

    open spec fn deep_view(&self) -> StatementView {
        self.view()
    }
}

impl View for Rule {
    type V = RuleView;

    open spec fn view(&self) -> RuleView {
        RuleView { name: self.name@, statements: self.statements.deep_view() }
    }
}

impl DeepView for Rule {
    type V = RuleView;

    open spec fn deep_view(&self) -> RuleView {
        self.view()
    }
}

impl View for Program {
    type V = Seq<RuleView>;

    open spec fn view(&self) -> Seq<RuleView> {
        self.rules.deep_view()
    }
}

/// A copy of a list of names.
fn clone_names(names: &Vec<String>) -> (copy: Vec<String>)
    ensures
        copy@ == names@,
{
    let mut copy: Vec<String> = Vec::new();
    let mut i: usize = 0;
    while i < names.len()
        invariant
            i <= names.len(),
            copy@ == names@.take(i as int),
        decreases names.len() - i,
    {
        copy.push(names[i].clone());
        i += 1;
        assert(copy@ =~= names@.take(i as int));
    }
    assert(names@.take(i as int) =~= names@);
    copy
}

impl Clone for Field {
    fn clone(&self) -> (copy: Self)
        ensures
            copy@ == self@,
    {
        Field { segments: clone_names(&self.segments) }
    }
}

impl Clone for Operand {
    fn clone(&self) -> (copy: Self)
        ensures
            copy@ == self@,
    {
        match self {
            Operand::Number(n) => Operand::Number(*n),
            Operand::Duration { value, unit } => Operand::Duration {
                value: *value,
                unit: unit.clone(),
            },
            Operand::Field(field) => Operand::Field(field.clone()),
        }
    }
}

/// A copy of a condition, node by node.
fn clone_expr(e: &Expr) -> (copy: Expr)
    ensures
        copy@ == e@,
    decreases e,
{
    match e {
        Expr::Or(left, right) => Expr::Or(Box::new(clone_expr(left)), Box::new(clone_expr(right))),
        Expr::And(left, right) => Expr::And(
            Box::new(clone_expr(left)),
            Box::new(clone_expr(right)),
        ),
        Expr::Not(inner) => Expr::Not(Box::new(clone_expr(inner))),
        Expr::Group(inner) => Expr::Group(Box::new(clone_expr(inner))),
        Expr::Compare { left, op, right } => Expr::Compare {
            left: left.clone(),
            op: *op,
            right: right.clone(),
        },
        Expr::In { field, set } => Expr::In { field: field.clone(), set: clone_names(set) },
    }
}

impl Clone for Expr {
    fn clone(&self) -> (copy: Self)
        ensures
            copy@ == self@,
    {
        clone_expr(self)
    }
}

} // verus!
