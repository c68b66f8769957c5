//! The machine runs a program in small steps. What it has still to do lies
//! on a stack of tasks, the values it has computed and not yet used on a
//! stack of values. A step takes the top task and does it, which may put
//! new tasks on the stack. Where a step needs what only the host can give
//! (the number that a literal writes, the result of arithmetic, the writing
//! of a number) the machine asks for it and takes the answer with the next
//! step.

use crate::ast::{
    BlockStatement, Expr, IfStatement, LiteralValue, Logical, Statement, WhileStatement,
};
use crate::environment::EnvironmentView;
use crate::number::{below, is_zero, negated, same};
use crate::token::{Identifier, Token, TokenView};
use crate::value::{RuntimeErrorView, ValueView};
use vstd::prelude::*;

verus! {

/// The arithmetic that the host does for the machine.
#[derive(Clone, Copy, Debug, PartialEq, Eq, Structural)]
pub enum Operation {
    Add,
    Subtract,
    Multiply,
    Divide,
}

/// The operators that the machine tells apart.
#[derive(Clone, Copy, Debug, PartialEq, Eq, Structural)]
pub enum Operator {
    Minus,
    Slash,
    Star,
    Plus,
    Greater,
    GreaterEqual,
    Less,
    LessEqual,
    BangEqual,
    EqualEqual,
    Bang,
    Or,
    Other,
}

/// The operator that a token stands for.
pub open spec fn operator_of(token: TokenView) -> Operator {
    match token {
        TokenView::Minus { .. } => Operator::Minus,
        TokenView::Slash { .. } => Operator::Slash,
        TokenView::Star { .. } => Operator::Star,
        TokenView::Plus { .. } => Operator::Plus,
        TokenView::Greater { .. } => Operator::Greater,
        TokenView::GreaterEqual { .. } => Operator::GreaterEqual,
        TokenView::Less { .. } => Operator::Less,
        TokenView::LessEqual { .. } => Operator::LessEqual,
        TokenView::BangEqual { .. } => Operator::BangEqual,
        TokenView::EqualEqual { .. } => Operator::EqualEqual,
        TokenView::Bang { .. } => Operator::Bang,
        TokenView::Or { .. } => Operator::Or,
        _ => Operator::Other,
    }
}

/// One thing that the machine has still to do.
#[derive(Clone, Copy)]
pub enum Task<'a> {
    /// Evaluate the expression and put its value on the values.
    Evaluate(&'a Expr),
    /// Apply the unary operator to the top value.
    Unary(&'a Token),
    /// Apply the binary operator to the two top values, the right operand
    /// on top.
    Binary(&'a Token),
    /// With the value of the left operand on top, decide whether it is the
    /// value of the whole or the right operand is evaluated in its place.
    Choose(&'a Logical),
    /// Assign the top value to the variable and leave it as the value of
    /// the assignment.
    Store(&'a Identifier),
    /// Run the statement.
    Execute(&'a Statement),
    /// Run the statements of the block from the given one on.
    Sequence(&'a BlockStatement, usize),
    /// Drop the top value.
    Discard,
    /// Print the top value.
    Show,
    /// Bind the name to the top value in the innermost scope.
    Define(&'a Identifier),
    /// With the value of the condition on top, run the branch it selects.
    Branch(&'a IfStatement),
    /// With the value of the condition on top, run the body and come back
    /// here, or go on behind the loop.
    Loop(&'a WhileStatement),
    /// Close the innermost scope.
    Leave,
}

/// The kinds of error whose text may hold the writing of a number.
#[derive(Clone, Copy, Debug, PartialEq, Eq, Structural)]
pub enum Complaint {
    Argument,
    ZeroDivision,
}

/// What the machine waits for.
pub enum WaitingView {
    /// Nothing: the next step does the top task.
    Nothing,
    /// A number, which becomes the top value.
    Number,
    /// The writing of a number that is to be printed.
    PrintText,
    /// The writing of a number that the text of an error holds between
    /// `before` and `after`.
    ErrorText { complaint: Complaint, before: Seq<char>, after: Seq<char> },
}

/// What the host hands to a step.
pub enum ReplyView {
    /// Nothing: the machine had asked for nothing.
    Nothing,
    Number(u64),
    Text(Seq<char>),
}

/// What a step asks of the host, or tells it.
pub enum ActionView {
    /// Nothing; the machine has more to do.
    Continue,
    /// The number that these digits write.
    Parse(Seq<char>),
    /// The result of the operation on the two numbers, the left one first.
    Calculate(Operation, u64, u64),
    /// The writing of the number.
    Format(u64),
    /// A line to print.
    Print(Seq<char>),
    /// Nothing is left to do.
    Done,
    /// The program stopped with an error.
    Failed(RuntimeErrorView),
}

/// A run of the machine, as contracts see it.
pub struct RunView<'a> {
    pub tasks: Seq<Task<'a>>,
    pub values: Seq<ValueView>,
    pub waiting: WaitingView,
}

/// The state after a step, and what the step asks or tells.
pub struct Stepped<'a> {
    pub environment: EnvironmentView,
    pub run: RunView<'a>,
    pub action: ActionView,
}

/// The top value; `nil` where there is none.
pub open spec fn top(values: Seq<ValueView>) -> ValueView {
    if values.len() > 0 {
        values.last()
    } else {
        ValueView::Nil
    }
}

/// The values without the top one.
pub open spec fn pop(values: Seq<ValueView>) -> Seq<ValueView> {
    if values.len() > 0 {
        values.drop_last()
    } else {
        values
    }
}

/// A step that asks nothing of the host.
pub open spec fn proceed<'a>(
    environment: EnvironmentView,
    tasks: Seq<Task<'a>>,
    values: Seq<ValueView>,
) -> Stepped<'a> {
    Stepped {
        environment,
        run: RunView { tasks, values, waiting: WaitingView::Nothing },
        action: ActionView::Continue,
    }
}

/// A step that asks the host for something and waits for it.
pub open spec fn ask<'a>(
    environment: EnvironmentView,
    tasks: Seq<Task<'a>>,
    values: Seq<ValueView>,
    waiting: WaitingView,
    action: ActionView,
) -> Stepped<'a> {
    Stepped { environment, run: RunView { tasks, values, waiting }, action }
}

/// The scopes after every scope that the tasks would still close has been
/// closed.
pub open spec fn unwound<'a>(environment: EnvironmentView, tasks: Seq<Task<'a>>) -> EnvironmentView
    decreases tasks.len(),
{
    if tasks.len() == 0 {
        environment
    } else {
        unwound(
            if tasks.last() is Leave {
                environment.leave()
            } else {
                environment
            },
            tasks.drop_last(),
        )
    }
}

/// A step that stops the program: the scopes that blocks opened are
/// closed, and nothing is left to do.
pub open spec fn fail<'a>(
    environment: EnvironmentView,
    tasks: Seq<Task<'a>>,
    error: RuntimeErrorView,
) -> Stepped<'a> {
    Stepped {
        environment: unwound(environment, tasks),
        run: RunView { tasks: Seq::empty(), values: Seq::empty(), waiting: WaitingView::Nothing },
        action: ActionView::Failed(error),
    }
}

/// The error of a kind with a text.
pub open spec fn complaint_error(complaint: Complaint, text: Seq<char>) -> RuntimeErrorView {
    match complaint {
        Complaint::Argument => RuntimeErrorView::ArgumentError(text),
        Complaint::ZeroDivision => RuntimeErrorView::ZeroDivision(text),
    }
}

/// A step that stops the program with an error whose text shows `value`
/// between `before` and `after`. Where the value is a number the machine
/// first asks for its writing.
pub open spec fn complain<'a>(
    environment: EnvironmentView,
    tasks: Seq<Task<'a>>,
    complaint: Complaint,
    before: Seq<char>,
    value: ValueView,
    after: Seq<char>,
) -> Stepped<'a> {
    match value {
        ValueView::Number(bits) => ask(
            environment,
            tasks,
            Seq::empty(),
            WaitingView::ErrorText { complaint, before, after },
            ActionView::Format(bits),
        ),
        _ => fail(
            environment,
            tasks,
            complaint_error(complaint, before + value.shown(Seq::empty()) + after),
        ),
    }
}

/// Evaluating a literal: a number is asked of the host by its digits, the
/// others are values as they stand.
pub open spec fn visit_literal<'a>(
    environment: EnvironmentView,
    tasks: Seq<Task<'a>>,
    values: Seq<ValueView>,
    literal: LiteralValue,
) -> Stepped<'a> {
    match literal {
        LiteralValue::Number(digits) => ask(
            environment,
            tasks,
            values,
            WaitingView::Number,
            ActionView::Parse(digits@),
        ),
        LiteralValue::String(text) => proceed(
            environment,
            tasks,
            values.push(ValueView::String(text@)),
        ),
        LiteralValue::Boolean(b) => proceed(environment, tasks, values.push(ValueView::Boolean(b))),
        LiteralValue::Nil => proceed(environment, tasks, values.push(ValueView::Nil)),
    }
}

/// Evaluating an expression: a literal and a variable give their value at
/// once; the others put their operands on the tasks, the one evaluated
/// first on top, and below them what is done with the values.
pub open spec fn evaluate<'a>(
    environment: EnvironmentView,
    tasks: Seq<Task<'a>>,
    values: Seq<ValueView>,
    expression: &'a Expr,
) -> Stepped<'a> {
    match *expression {
        Expr::Literal(it) => visit_literal(environment, tasks, values, it.value),
        Expr::Grouping(it) => proceed(
            environment,
            tasks.push(Task::Evaluate(&*it.expression)),
            values,
        ),
        Expr::Unary(it) => proceed(
            environment,
            tasks.push(Task::Unary(&*it.operator)).push(Task::Evaluate(&*it.right)),
            values,
        ),
        Expr::Binary(it) => proceed(
            environment,
            tasks.push(Task::Binary(&*it.operator)).push(Task::Evaluate(&*it.right)).push(
                Task::Evaluate(&*it.left),
            ),
            values,
        ),
        Expr::Logical(it) => proceed(
            environment,
            tasks.push(Task::Choose(&it)).push(Task::Evaluate(&*it.left)),
            values,
        ),
        Expr::Variable(it) => match environment.get(it.token.value@) {
            Ok(value) => proceed(environment, tasks, values.push(value)),
            Err(error) => fail(environment, tasks, error),
        },
        Expr::Assignment(it) => proceed(
            environment,
            tasks.push(Task::Store(&*it.name)).push(Task::Evaluate(&*it.value)),
            values,
        ),
    }
}

/// Applying `-` or `!` to the top value.
pub open spec fn apply_unary<'a>(
    environment: EnvironmentView,
    tasks: Seq<Task<'a>>,
    values: Seq<ValueView>,
    operator: TokenView,
) -> Stepped<'a> {
    let operand = top(values);
    match operator_of(operator) {
        Operator::Minus => match operand {
            ValueView::Number(bits) => proceed(
                environment,
                tasks,
                pop(values).push(ValueView::Number(negated(bits))),
            ),
            _ => fail(
                environment,
                tasks,
                RuntimeErrorView::ArgumentError(
                    "Expected number, but got "@ + operand.shown(Seq::empty()),
                ),
            ),
        },
        Operator::Bang => proceed(
            environment,
            tasks,
            pop(values).push(ValueView::Boolean(!operand.truthy())),
        ),
        _ => fail(
            environment,
            tasks,
            RuntimeErrorView::UnknownOperatorError(
                "Unknown unary operator: "@ + operator.lexeme(),
            ),
        ),
    }
}

/// Whether `left` is below `right`; only numbers are below one another.
pub open spec fn value_below(left: ValueView, right: ValueView) -> bool {
    match (left, right) {
        (ValueView::Number(l), ValueView::Number(r)) => below(l, r),
        _ => false,
    }
}

/// Whether `left` is below or equal to `right`; only numbers are.
pub open spec fn value_at_most(left: ValueView, right: ValueView) -> bool {
    match (left, right) {
        (ValueView::Number(l), ValueView::Number(r)) => below(l, r) || same(l, r),
        _ => false,
    }
}

/// The error text for two operands that an operator does not take, up to
/// the right one.
pub open spec fn invalid_operands(symbol: Seq<char>, left: ValueView) -> Seq<char> {
    "Invalid operands for "@ + symbol + ": "@ + left.shown(Seq::empty()) + " and "@
}

/// `-`, `*` and `/` on the two top values: on two numbers the host is
/// asked for the result, but a division by zero stops the program; other
/// operands stop it too.
pub open spec fn arithmetic<'a>(
    environment: EnvironmentView,
    tasks: Seq<Task<'a>>,
    rest: Seq<ValueView>,
    operation: Operation,
    symbol: Seq<char>,
    left: ValueView,
    right: ValueView,
) -> Stepped<'a> {
    match (left, right) {
        (ValueView::Number(l), ValueView::Number(r)) => if operation == Operation::Divide
            && is_zero(r) {
            complain(
                environment,
                tasks,
                Complaint::ZeroDivision,
                "Cannot divide "@,
                left,
                " by zero"@,
            )
        } else {
            ask(
                environment,
                tasks,
                rest,
                WaitingView::Number,
                ActionView::Calculate(operation, l, r),
            )
        },
        (ValueView::Number(_), _) => complain(
            environment,
            tasks,
            Complaint::Argument,
            "Expected number, but got "@,
            right,
            Seq::empty(),
        ),
        _ => complain(
            environment,
            tasks,
            Complaint::Argument,
            invalid_operands(symbol, left),
            right,
            Seq::empty(),
        ),
    }
}

/// `+` on the two top values: the sum of two numbers, asked of the host,
/// or two strings joined; other operands stop the program.
pub open spec fn plus<'a>(
    environment: EnvironmentView,
    tasks: Seq<Task<'a>>,
    rest: Seq<ValueView>,
    left: ValueView,
    right: ValueView,
) -> Stepped<'a> {
    match (left, right) {
        (ValueView::String(l), ValueView::String(r)) => proceed(
            environment,
            tasks,
            rest.push(ValueView::String(l + r)),
        ),
        (ValueView::String(_), _) => complain(
            environment,
            tasks,
            Complaint::Argument,
            "Expected string, but got "@,
            right,
            Seq::empty(),
        ),
        _ => arithmetic(environment, tasks, rest, Operation::Add, "+"@, left, right),
    }
}

/// Applying a binary operator to the two top values, the right operand on
/// top.
pub open spec fn apply_binary<'a>(
    environment: EnvironmentView,
    tasks: Seq<Task<'a>>,
    values: Seq<ValueView>,
    operator: TokenView,
) -> Stepped<'a> {
    let right = top(values);
    let left = top(pop(values));
    let rest = pop(pop(values));
    let truth = |b: bool| proceed(environment, tasks, rest.push(ValueView::Boolean(b)));
    match operator_of(operator) {
        Operator::Minus => arithmetic(
            environment,
            tasks,
            rest,
            Operation::Subtract,
            "-"@,
            left,
            right,
        ),
        Operator::Slash => arithmetic(environment, tasks, rest, Operation::Divide, "/"@, left, right),
        Operator::Star => arithmetic(
            environment,
            tasks,
            rest,
            Operation::Multiply,
            "*"@,
            left,
            right,
        ),
        Operator::Plus => plus(environment, tasks, rest, left, right),
        Operator::Greater => truth(value_below(right, left)),
        Operator::GreaterEqual => truth(value_at_most(right, left)),
        Operator::Less => truth(value_below(left, right)),
        Operator::LessEqual => truth(value_at_most(left, right)),
        Operator::BangEqual => truth(!left.equals(right)),
        Operator::EqualEqual => truth(left.equals(right)),
        _ => fail(
            environment,
            tasks,
            RuntimeErrorView::UnknownOperatorError(
                "Unknown binary operator: "@ + operator.lexeme(),
            ),
        ),
    }
}

/// Whether the value of the left operand of a logical operator is the value
/// of the whole: for `or` when it is true, for `and` when it is not.
pub open spec fn decides(operator: TokenView, left: ValueView) -> bool {
    if operator_of(operator) == Operator::Or {
        left.truthy()
    } else {
        !left.truthy()
    }
}

/// With the value of the left operand on top: it stays if it decides, else
/// the right operand is evaluated in its place.
pub open spec fn settle<'a>(
    environment: EnvironmentView,
    tasks: Seq<Task<'a>>,
    values: Seq<ValueView>,
    logical: &'a Logical,
) -> Stepped<'a> {
    if decides(logical.operator@, top(values)) {
        proceed(environment, tasks, values)
    } else {
        proceed(environment, tasks.push(Task::Evaluate(&*logical.right)), pop(values))
    }
}

/// Assigning the top value, which stays as the value of the assignment. A
/// name that no scope binds stops the program.
pub open spec fn store<'a>(
    environment: EnvironmentView,
    tasks: Seq<Task<'a>>,
    values: Seq<ValueView>,
    name: Seq<char>,
) -> Stepped<'a> {
    match environment.get(name) {
        Ok(_) => proceed(environment.assign(name, top(values)), tasks, values),
        Err(error) => fail(environment, tasks, error),
    }
}

/// Running a statement: its expression is put on the tasks, and below it
/// what is done with the value. A block opens a scope and puts its closing
/// below its statements.
pub open spec fn execute<'a>(
    environment: EnvironmentView,
    tasks: Seq<Task<'a>>,
    values: Seq<ValueView>,
    statement: &'a Statement,
) -> Stepped<'a> {
    match *statement {
        Statement::Expression(it) => proceed(
            environment,
            tasks.push(Task::Discard).push(Task::Evaluate(&*it.expression)),
            values,
        ),
        Statement::Print(it) => proceed(
            environment,
            tasks.push(Task::Show).push(Task::Evaluate(&*it.expression)),
            values,
        ),
        Statement::Variable(it) => proceed(
            environment,
            tasks.push(Task::Define(&*it.name)).push(Task::Evaluate(&*it.value)),
            values,
        ),
        Statement::Block(it) => proceed(
            environment.enter(),
            tasks.push(Task::Leave).push(Task::Sequence(&it, 0)),
            values,
        ),
        Statement::If(it) => proceed(
            environment,
            tasks.push(Task::Branch(&it)).push(Task::Evaluate(&*it.condition)),
            values,
        ),
        Statement::While(it) => proceed(
            environment,
            tasks.push(Task::Loop(&it)).push(Task::Evaluate(&*it.condition)),
            values,
        ),
    }
}

/// Running the statements of a block from the one at `index` on.
pub open spec fn sequence<'a>(
    environment: EnvironmentView,
    tasks: Seq<Task<'a>>,
    values: Seq<ValueView>,
    block: &'a BlockStatement,
    index: usize,
) -> Stepped<'a> {
    if index < block.statements@.len() {
        proceed(
            environment,
            tasks.push(Task::Sequence(block, (index + 1) as usize)).push(
                Task::Execute(&block.statements@[index as int]),
            ),
            values,
        )
    } else {
        proceed(environment, tasks, values)
    }
}

/// Printing the top value; the writing of a number is asked of the host
/// first.
pub open spec fn show<'a>(
    environment: EnvironmentView,
    tasks: Seq<Task<'a>>,
    values: Seq<ValueView>,
) -> Stepped<'a> {
    match top(values) {
        ValueView::Number(bits) => ask(
            environment,
            tasks,
            pop(values),
            WaitingView::PrintText,
            ActionView::Format(bits),
        ),
        other => ask(
            environment,
            tasks,
            pop(values),
            WaitingView::Nothing,
            ActionView::Print(other.shown(Seq::empty())),
        ),
    }
}

/// With the value of the condition on top: the branch it selects is run.
pub open spec fn branch<'a>(
    environment: EnvironmentView,
    tasks: Seq<Task<'a>>,
    values: Seq<ValueView>,
    conditional: &'a IfStatement,
) -> Stepped<'a> {
    if top(values).truthy() {
        proceed(environment, tasks.push(Task::Execute(&*conditional.then_branch)), pop(values))
    } else {
        match conditional.else_branch {
            Some(other) => proceed(environment, tasks.push(Task::Execute(&*other)), pop(values)),
            None => proceed(environment, tasks, pop(values)),
        }
    }
}

/// With the value of the condition on top: if it is true the body is run,
/// then the condition is evaluated again, and the loop decides again.
pub open spec fn repeat<'a>(
    environment: EnvironmentView,
    tasks: Seq<Task<'a>>,
    values: Seq<ValueView>,
    looping: &'a WhileStatement,
) -> Stepped<'a> {
    if top(values).truthy() {
        proceed(
            environment,
            tasks.push(Task::Loop(looping)).push(Task::Evaluate(&*looping.condition)).push(
                Task::Execute(&*looping.body),
            ),
            pop(values),
        )
    } else {
        proceed(environment, tasks, pop(values))
    }
}

/// Doing one task, with `tasks` the tasks below it.
pub open spec fn perform<'a>(
    environment: EnvironmentView,
    tasks: Seq<Task<'a>>,
    values: Seq<ValueView>,
    task: Task<'a>,
) -> Stepped<'a> {
    match task {
        Task::Evaluate(expression) => evaluate(environment, tasks, values, expression),
        Task::Unary(operator) => apply_unary(environment, tasks, values, operator@),
        Task::Binary(operator) => apply_binary(environment, tasks, values, operator@),
        Task::Choose(logical) => settle(environment, tasks, values, logical),
        Task::Store(name) => store(environment, tasks, values, name.value@),
        Task::Execute(statement) => execute(environment, tasks, values, statement),
        Task::Sequence(block, index) => sequence(environment, tasks, values, block, index),
        Task::Discard => proceed(environment, tasks, pop(values)),
        Task::Show => show(environment, tasks, values),
        Task::Define(name) => proceed(
            environment.define(name.value@, top(values)),
            tasks,
            pop(values),
        ),
        Task::Branch(conditional) => branch(environment, tasks, values, conditional),
        Task::Loop(looping) => repeat(environment, tasks, values, looping),
        Task::Leave => proceed(environment.leave(), tasks, values),
    }
}

/// The error for a reply that is not what the machine asked for.
pub open spec fn unanswered() -> RuntimeErrorView {
    RuntimeErrorView::ArgumentError("The host did not answer the machine's request"@)
}

/// Taking the host's reply to what the machine asked. A reply of another
/// kind stops the program.
pub open spec fn receive<'a>(
    environment: EnvironmentView,
    run: RunView<'a>,
    reply: ReplyView,
) -> Stepped<'a> {
    match (run.waiting, reply) {
        (WaitingView::Number, ReplyView::Number(bits)) => proceed(
            environment,
            run.tasks,
            run.values.push(ValueView::Number(bits)),
        ),
        (WaitingView::PrintText, ReplyView::Text(text)) => ask(
            environment,
            run.tasks,
            run.values,
            WaitingView::Nothing,
            ActionView::Print(text),
        ),
        (WaitingView::ErrorText { complaint, before, after }, ReplyView::Text(text)) => fail(
            environment,
            run.tasks,
            complaint_error(complaint, before + text + after),
        ),
        _ => fail(environment, run.tasks, unanswered()),
    }
}

/// One step of the machine. While it waits, the step takes the reply; when
/// nothing is left to do, it says so and changes nothing; else it does the
/// top task, and the reply is not looked at.
pub open spec fn step<'a>(
    environment: EnvironmentView,
    run: RunView<'a>,
    reply: ReplyView,
) -> Stepped<'a> {
    if !(run.waiting is Nothing) {
        receive(environment, run, reply)
    } else if run.tasks.len() == 0 {
        Stepped { environment, run, action: ActionView::Done }
    } else {
        perform(environment, run.tasks.drop_last(), run.values, run.tasks.last())
    }
}

} // verus!
