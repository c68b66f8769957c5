//! Syntax trees written out as text, in prefix notation.

use crate::ast::{
    Assignment, Binary, Expr, ExprView, Grouping, Literal, LiteralValue, LiteralView, Logical,
    Statement, StatementView, Unary, Variable,
};
use crate::token::TokenView;
use vstd::prelude::*;
use vstd::string::*;

verus! {

/// How a literal is written in a dump: a string by its contents, a number
/// by its digits as the source had them, `true`, `false`, `nil`.
pub open spec fn printed_literal(value: LiteralView) -> Seq<char> {
    match value {
        LiteralView::String(text) => text,
        LiteralView::Number(digits) => digits,
        LiteralView::Boolean(b) => if b {
            "true"@
        } else {
            "false"@
        },
        LiteralView::Nil => "nil"@,
    }
}

/// An operator before its two operands, in parentheses.
pub open spec fn printed_pair(operator: TokenView, left: Seq<char>, right: Seq<char>) -> Seq<char> {
    "("@ + operator.lexeme() + " "@ + left + " "@ + right + ")"@
}

/// How an expression is written in a dump, in prefix notation.
pub open spec fn printed(expression: ExprView) -> Seq<char>
    decreases expression,
{
    match expression {
        ExprView::Binary { left, operator, right } => printed_pair(
            operator,
            printed(*left),
            printed(*right),
        ),
        ExprView::Logical { left, operator, right } => printed_pair(
            operator,
            printed(*left),
            printed(*right),
        ),
        ExprView::Unary { operator, right } => "("@ + operator.lexeme() + " "@ + printed(*right)
            + ")"@,
        ExprView::Grouping { expression } => "(group "@ + printed(*expression) + ")"@,
        ExprView::Literal { value } => printed_literal(value),
        ExprView::Variable { token } => token.value,
        ExprView::Assignment { name, value } => name.value + " = "@ + printed(*value),
    }
}

/// How a statement is written in a dump.
pub open spec fn printed_statement(statement: StatementView) -> Seq<char>
    decreases statement, 0nat,
{
    match statement {
        StatementView::Expression { expression } => printed(expression),
        StatementView::Print { expression } => "print "@ + printed(expression),
        StatementView::Variable { name, value } => name.value + "="@ + printed(value),
        StatementView::Block { statements } => "{"@ + printed_items(statements, statements.len())
            + "}"@,
        StatementView::If { condition, then_branch, else_branch } => "(if "@ + printed(condition)
            + " "@ + printed_statement(*then_branch) + match else_branch {
            Some(other) => " "@ + printed_statement(*other),
            None => Seq::empty(),
        } + ")"@,
        StatementView::While { condition, body } => "(while "@ + printed(condition) + " "@
            + printed_statement(*body) + ")"@,
    }
}

/// The first `count` statements of a block, each closed by a semicolon and
/// a line feed.
pub open spec fn printed_items(statements: Seq<StatementView>, count: nat) -> Seq<char>
    decreases statements, count,
{
    if count == 0 || count > statements.len() {
        Seq::empty()
    } else {
        printed_items(statements, (count - 1) as nat) + printed_statement(statements[count - 1])
            + ";\n"@
    }
}

/// Writes syntax trees out in prefix notation.
pub struct AstPrinter;

impl AstPrinter {
    /// `name = value`
    pub fn visit_assignment(&mut self, assignment: &Assignment) -> (text: String)
        ensures
            text@ == assignment.name@.value + " = "@ + printed(assignment.value.view()),
        decreases assignment,
    {
        let mut text = assignment.name.to_string();
        text.append(" = ");
        let value = self.visit_expression(&*assignment.value);
        text.append(value.as_str());
        text
    }

    /// `(op left right)`
    pub fn visit_binary(&mut self, binary: &Binary) -> (text: String)
        ensures
            text@ == printed_pair(
                binary.operator@,
                printed(binary.left.view()),
                printed(binary.right.view()),
            ),
        decreases binary,
    {
        let mut text = String::from_str("(");
        let operator = binary.operator.lexeme();
        text.append(operator.as_str());
        text.append(" ");
        let left = self.visit_expression(&*binary.left);
        text.append(left.as_str());
        text.append(" ");
        let right = self.visit_expression(&*binary.right);
        text.append(right.as_str());
        text.append(")");
        text
    }

    /// `(op left right)`
    pub fn visit_logical(&mut self, logical: &Logical) -> (text: String)
        ensures
            text@ == printed_pair(
                logical.operator@,
                printed(logical.left.view()),
                printed(logical.right.view()),
            ),
        decreases logical,
    {
        let mut text = String::from_str("(");
        let operator = logical.operator.lexeme();
        text.append(operator.as_str());
        text.append(" ");
        let left = self.visit_expression(&*logical.left);
        text.append(left.as_str());
        text.append(" ");
        let right = self.visit_expression(&*logical.right);
        text.append(right.as_str());
        text.append(")");
        text
    }

    /// The name of the variable.
    pub fn visit_variable(&mut self, variable: &Variable) -> (text: String)
        ensures
            text@ == variable.token@.value,
    {
        variable.token.to_string()
    }

    /// `(group inner)`
    pub fn visit_grouping(&mut self, grouping: &Grouping) -> (text: String)
        ensures
            text@ == "(group "@ + printed(grouping.expression.view()) + ")"@,
        decreases grouping,
    {
        let mut text = String::from_str("(group ");
        let inner = self.visit_expression(&*grouping.expression);
        text.append(inner.as_str());
        text.append(")");
        text
    }

    /// The literal as it is written.
    pub fn visit_literal(&mut self, literal: &Literal) -> (text: String)
        ensures
            text@ == printed_literal(literal.value@),
    {
        match &literal.value {
            LiteralValue::String(text) => text.clone(),
            LiteralValue::Number(digits) => digits.clone(),
            LiteralValue::Boolean(b) => if *b {
                String::from_str("true")
            } else {
                String::from_str("false")
            },
            LiteralValue::Nil => String::from_str("nil"),
        }
    }

    /// `(op right)`
    pub fn visit_unary(&mut self, unary: &Unary) -> (text: String)
        ensures
            text@ == "("@ + unary.operator@.lexeme() + " "@ + printed(unary.right.view()) + ")"@,
        decreases unary,
    {
        let mut text = String::from_str("(");
        let operator = unary.operator.lexeme();
        text.append(operator.as_str());
        text.append(" ");
        let right = self.visit_expression(&*unary.right);
        text.append(right.as_str());
        text.append(")");
        text
    }

    /// Writes an expression out.
    pub fn visit_expression(&mut self, expression: &Expr) -> (text: String)
        ensures
            text@ == printed(expression.view()),
        decreases expression,
    {
        match expression {
            Expr::Binary(it) => self.visit_binary(it),
            Expr::Grouping(it) => self.visit_grouping(it),
            Expr::Literal(it) => self.visit_literal(it),
            Expr::Unary(it) => self.visit_unary(it),
            Expr::Variable(it) => self.visit_variable(it),
            Expr::Assignment(it) => self.visit_assignment(it),
            Expr::Logical(it) => self.visit_logical(it),
        }
    }

    /// Writes a statement out: an expression statement as its expression,
    /// `print expression`, `name=initializer`, a block as `{` then each
    /// statement with `;` and a line feed behind it then `}`,
    /// `(if condition then else)`, `(while condition body)`.
    pub fn visit_statement(&mut self, statement: &Statement) -> (text: String)
        ensures
            text@ == printed_statement(statement.view()),
        decreases statement,
    {
        match statement {
            Statement::Expression(it) => self.visit_expression(&*it.expression),
            Statement::Print(it) => {
                let mut text = String::from_str("print ");
                let expression = self.visit_expression(&*it.expression);
                text.append(expression.as_str());
                text
            },
            Statement::Variable(it) => {
                let mut text = it.name.to_string();
                text.append("=");
                let value = self.visit_expression(&*it.value);
                text.append(value.as_str());
                text
            },
            Statement::Block(it) => {
                let ghost items = statement.view()->Block_statements;
                let mut text = String::from_str("{");
                let mut i: usize = 0;
                while i < it.statements.len()
                    invariant
                        i <= it.statements@.len(),
                        items.len() == it.statements@.len(),
                        forall|k: int|
                            0 <= k < items.len() ==> items[k] == (#[trigger] it.statements@[k]).view(),
                        text@ == "{"@ + printed_items(items, i as nat),
                        forall|k: int|
                            0 <= k < it.statements@.len() ==> decreases_to!(statement => it.statements@[k]),
                    decreases it.statements@.len() - i,
                {
                    let inner = self.visit_statement(&it.statements[i]);
                    text.append(inner.as_str());
                    text.append(";\n");
                    i = i + 1;
                    assert(text@ =~= "{"@ + printed_items(items, i as nat));
                }
                text.append("}");
                text
            },
            Statement::If(it) => {
                let mut text = String::from_str("(if ");
                let condition = self.visit_expression(&*it.condition);
                text.append(condition.as_str());
                text.append(" ");
                let then_branch = self.visit_statement(&*it.then_branch);
                text.append(then_branch.as_str());
                match &it.else_branch {
                    Some(other) => {
                        text.append(" ");
                        let else_branch = self.visit_statement(&**other);
                        text.append(else_branch.as_str());
                        assert(text@ =~= "(if "@ + printed(it.condition.view()) + " "@
                            + printed_statement(it.then_branch.view()) + (" "@ + printed_statement(
                            other.view(),
                        )));
                    },
                    None => {
                        assert(text@ =~= "(if "@ + printed(it.condition.view()) + " "@
                            + printed_statement(it.then_branch.view()) + Seq::<char>::empty());
                    },
                }
                text.append(")");
                text
            },
            Statement::While(it) => {
                let mut text = String::from_str("(while ");
                let condition = self.visit_expression(&*it.condition);
                text.append(condition.as_str());
                text.append(" ");
                let body = self.visit_statement(&*it.body);
                text.append(body.as_str());
                text.append(")");
                text
            },
        }
    }
}

} // verus!
