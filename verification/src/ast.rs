//! The syntax tree: expressions and statements.

use crate::token::{Identifier, IdentifierView, Token, TokenView};
use vstd::prelude::*;

verus! {

/// A value written out in the source.
pub enum LiteralValue {
    /// The contents of a string, between its quotes.
    String(String),
    /// The digits of a number as they were written.
    Number(String),
    Boolean(bool),
    Nil,
}

/// The mathematical content of a [`LiteralValue`].
pub enum LiteralView {
    String(Seq<char>),
    Number(Seq<char>),
    Boolean(bool),
    Nil,
}

impl View for LiteralValue {
    type V = LiteralView;

    open spec fn view(&self) -> LiteralView {
        match *self {
            LiteralValue::String(text) => LiteralView::String(text@),
            LiteralValue::Number(digits) => LiteralView::Number(digits@),
            LiteralValue::Boolean(b) => LiteralView::Boolean(b),
            LiteralValue::Nil => LiteralView::Nil,
        }
    }
}

/// Two operands and the operator between them; both are always evaluated.
pub struct Binary {
    pub left: Box<Expr>,
    pub operator: Box<Token>,
    pub right: Box<Expr>,
}

/// `and` or `or` between two operands; the right one is evaluated only
/// when the left one does not decide.
pub struct Logical {
    pub left: Box<Expr>,
    pub operator: Box<Token>,
    pub right: Box<Expr>,
}

/// An expression in parentheses.
pub struct Grouping {
    pub expression: Box<Expr>,
}

pub struct Literal {
    pub value: LiteralValue,
}

/// `!` or `-` before an operand.
pub struct Unary {
    pub operator: Box<Token>,
    pub right: Box<Expr>,
}

/// A variable read by its name.
pub struct Variable {
    pub token: Box<Identifier>,
}

/// A new value for a variable that exists.
pub struct Assignment {
    pub name: Box<Identifier>,
    pub value: Box<Expr>,
}

pub enum Expr {
    Binary(Binary),
    Grouping(Grouping),
    Literal(Literal),
    Unary(Unary),
    Variable(Variable),
    Assignment(Assignment),
    Logical(Logical),
}

/// The mathematical content of an [`Expr`].
#[allow(inconsistent_fields)]
pub enum ExprView {
    Binary { left: Box<ExprView>, operator: TokenView, right: Box<ExprView> },
    Grouping { expression: Box<ExprView> },
    Literal { value: LiteralView },
    Unary { operator: TokenView, right: Box<ExprView> },
    Variable { token: IdentifierView },
    Assignment { name: IdentifierView, value: Box<ExprView> },
    Logical { left: Box<ExprView>, operator: TokenView, right: Box<ExprView> },
}

impl Expr {
    pub open spec fn view(&self) -> ExprView
        decreases self,
    {
        match *self {
            Expr::Binary(it) => ExprView::Binary {
                left: Box::new(it.left@),
                operator: it.operator@,
                right: Box::new(it.right@),
            },
            Expr::Grouping(it) => ExprView::Grouping { expression: Box::new(it.expression@) },
            Expr::Literal(it) => ExprView::Literal { value: it.value@ },
            Expr::Unary(it) => ExprView::Unary { operator: it.operator@, right: Box::new(it.right@) },
            Expr::Variable(it) => ExprView::Variable { token: it.token@ },
            Expr::Assignment(it) => ExprView::Assignment {
                name: it.name@,
                value: Box::new(it.value@),
            },
            Expr::Logical(it) => ExprView::Logical {
                left: Box::new(it.left@),
                operator: it.operator@,
                right: Box::new(it.right@),
            },
        }
    }
}

/// An expression evaluated for its effect.
pub struct ExpressionStatement {
    pub expression: Box<Expr>,
}

/// An expression evaluated and shown.
pub struct PrintStatement {
    pub expression: Box<Expr>,
}

/// A new variable in the current scope, with its first value.
pub struct VariableStatement {
    pub name: Box<Identifier>,
    pub value: Box<Expr>,
}

/// Statements run in order in a scope of their own.
pub struct BlockStatement {
    pub statements: Vec<Statement>,
}

pub struct IfStatement {
    pub condition: Box<Expr>,
    pub then_branch: Box<Statement>,
    pub else_branch: Option<Box<Statement>>,
}

pub struct WhileStatement {
    pub condition: Box<Expr>,
    pub body: Box<Statement>,
}

pub enum Statement {
    Expression(ExpressionStatement),
    Print(PrintStatement),
    Variable(VariableStatement),
    Block(BlockStatement),
    If(IfStatement),
    While(WhileStatement),
}

/// The mathematical content of a [`Statement`].
#[allow(inconsistent_fields)]
pub enum StatementView {
    Expression { expression: ExprView },
    Print { expression: ExprView },
    Variable { name: IdentifierView, value: ExprView },
    Block { statements: Seq<StatementView> },
    If { condition: ExprView, then_branch: Box<StatementView>, else_branch: Option<Box<StatementView>> },
    While { condition: ExprView, body: Box<StatementView> },
}

impl Statement {
    pub open spec fn view(&self) -> StatementView
        decreases self,
    {
        match *self {
            Statement::Expression(it) => StatementView::Expression { expression: it.expression@ },
            Statement::Print(it) => StatementView::Print { expression: it.expression@ },
            Statement::Variable(it) => StatementView::Variable { name: it.name@, value: it.value@ },
            Statement::Block(it) => StatementView::Block {
                statements: Seq::new(
                    it.statements@.len(),
                    |i: int|
                        if 0 <= i < it.statements@.len() {
                            it.statements@[i]@
                        } else {
                            StatementView::Block { statements: Seq::empty() }
                        },
                ),
            },
            Statement::If(it) => StatementView::If {
                condition: it.condition@,
                then_branch: Box::new(it.then_branch@),
                else_branch: match it.else_branch {
                    Some(other) => Some(Box::new(other@)),
                    None => None,
                },
            },
            Statement::While(it) => StatementView::While {
                condition: it.condition@,
                body: Box::new(it.body@),
            },
        }
    }
}

/// The contents of a list of statements.
pub open spec fn statement_views(statements: Seq<Statement>) -> Seq<StatementView> {
    statements.map_values(|statement: Statement| statement@)
}

} // verus!
