//! The machine: the code that does the steps, held to what `machine` says a
//! step is.

use crate::ast::{
    BlockStatement, Expr, IfStatement, LiteralValue, Logical, Statement, WhileStatement,
};
use crate::environment::{Environment, EnvironmentView};
use crate::machine::{
    apply_binary, apply_unary, arithmetic, branch, complain, complaint_error, evaluate, execute,
    fail, invalid_operands, operator_of, perform, plus, pop, receive, repeat, sequence, settle,
    show, step, store, top, unwound, value_at_most, value_below, visit_literal, ActionView,
    Complaint, Operation, Operator, ReplyView, RunView, Stepped, Task, WaitingView,
};
use crate::number::{equal, less, negate, zero};
use crate::token::{Identifier, Token};
use crate::value::{value_views, RuntimeError, Value};
use vstd::prelude::*;
use vstd::string::*;

verus! {

/// What the host hands to a step: the answer to what the step before asked
/// for, or nothing where it asked for nothing.
#[derive(Debug)]
pub enum Reply {
    Nothing,
    Number(u64),
    Text(String),
}

impl View for Reply {
    type V = ReplyView;

    open spec fn view(&self) -> ReplyView {
        match *self {
            Reply::Nothing => ReplyView::Nothing,
            Reply::Number(bits) => ReplyView::Number(bits),
            Reply::Text(text) => ReplyView::Text(text@),
        }
    }
}

/// What a step asks of the host, or tells it.
#[derive(Debug)]
pub enum Action {
    /// Nothing; the machine has more to do.
    Continue,
    /// The number that these digits write.
    Parse(String),
    /// The result of the operation on the two numbers, the left one first.
    Calculate(Operation, u64, u64),
    /// The writing of the number.
    Format(u64),
    /// A line to print.
    Print(String),
    /// Nothing is left to do.
    Done,
    /// The program stopped with an error.
    Failed(RuntimeError),
}

impl View for Action {
    type V = ActionView;

    open spec fn view(&self) -> ActionView {
        match *self {
            Action::Continue => ActionView::Continue,
            Action::Parse(digits) => ActionView::Parse(digits@),
            Action::Calculate(operation, left, right) => ActionView::Calculate(
                operation,
                left,
                right,
            ),
            Action::Format(bits) => ActionView::Format(bits),
            Action::Print(line) => ActionView::Print(line@),
            Action::Done => ActionView::Done,
            Action::Failed(error) => ActionView::Failed(error@),
        }
    }
}

/// What a run waits for.
pub enum Waiting {
    Nothing,
    Number,
    PrintText,
    ErrorText { complaint: Complaint, before: String, after: String },
}

impl View for Waiting {
    type V = WaitingView;

    open spec fn view(&self) -> WaitingView {
        match *self {
            Waiting::Nothing => WaitingView::Nothing,
            Waiting::Number => WaitingView::Number,
            Waiting::PrintText => WaitingView::PrintText,
            Waiting::ErrorText { complaint, before, after } => WaitingView::ErrorText {
                complaint,
                before: before@,
                after: after@,
            },
        }
    }
}

/// The work of running one statement or evaluating one expression: the
/// tasks still to do and the values computed and not yet used.
pub struct Run<'a> {
    tasks: Vec<Task<'a>>,
    values: Vec<Value>,
    waiting: Waiting,
}

/// The operator that `token` stands for.
fn operator(token: &Token) -> (operator: Operator)
    ensures
        operator == operator_of(token@),
{
    match token {
        Token::Minus { .. } => Operator::Minus,
        Token::Slash { .. } => Operator::Slash,
        Token::Star { .. } => Operator::Star,
        Token::Plus { .. } => Operator::Plus,
        Token::Greater { .. } => Operator::Greater,
        Token::GreaterEqual { .. } => Operator::GreaterEqual,
        Token::Less { .. } => Operator::Less,
        Token::LessEqual { .. } => Operator::LessEqual,
        Token::BangEqual { .. } => Operator::BangEqual,
        Token::EqualEqual { .. } => Operator::EqualEqual,
        Token::Bang { .. } => Operator::Bang,
        Token::Or { .. } => Operator::Or,
        _ => Operator::Other,
    }
}

/// Whether `left` is below `right`.
fn is_below(left: &Value, right: &Value) -> (yes: bool)
    ensures
        yes == value_below(left@, right@),
{
    match (left, right) {
        (Value::Number(l), Value::Number(r)) => less(*l, *r),
        _ => false,
    }
}

/// Whether `left` is below or equal to `right`.
fn is_at_most(left: &Value, right: &Value) -> (yes: bool)
    ensures
        yes == value_at_most(left@, right@),
{
    match (left, right) {
        (Value::Number(l), Value::Number(r)) => less(*l, *r) || equal(*l, *r),
        _ => false,
    }
}

/// The error of a kind with a text.
fn complaint(kind: Complaint, text: String) -> (error: RuntimeError)
    ensures
        error@ == complaint_error(kind, text@),
{
    match kind {
        Complaint::Argument => RuntimeError::ArgumentError(text),
        Complaint::ZeroDivision => RuntimeError::ZeroDivision(text),
    }
}

impl<'a> Run<'a> {
    pub closed spec fn view(&self) -> RunView<'a> {
        RunView { tasks: self.tasks@, values: value_views(self.values@), waiting: self.waiting@ }
    }

    /// The run of one statement.
    pub fn statement(statement: &'a Statement) -> (run: Run<'a>)
        ensures
            run@ == (RunView {
                tasks: seq![Task::Execute(statement)],
                values: Seq::empty(),
                waiting: WaitingView::Nothing,
            }),
    {
        let mut tasks: Vec<Task<'a>> = Vec::new();
        tasks.push(Task::Execute(statement));
        let run = Run { tasks, values: Vec::new(), waiting: Waiting::Nothing };
        assert(run@.tasks =~= seq![Task::Execute(statement)]);
        assert(run@.values =~= Seq::empty());
        run
    }

    /// The run that evaluates one expression; its value is the result of
    /// the run.
    pub fn expression(expression: &'a Expr) -> (run: Run<'a>)
        ensures
            run@ == (RunView {
                tasks: seq![Task::Evaluate(expression)],
                values: Seq::empty(),
                waiting: WaitingView::Nothing,
            }),
    {
        let mut tasks: Vec<Task<'a>> = Vec::new();
        tasks.push(Task::Evaluate(expression));
        let run = Run { tasks, values: Vec::new(), waiting: Waiting::Nothing };
        assert(run@.tasks =~= seq![Task::Evaluate(expression)]);
        assert(run@.values =~= Seq::empty());
        run
    }

    /// The top value, if there is one: when the run of an expression is
    /// done, the value of the expression.
    pub fn result(&self) -> (value: Option<Value>)
        ensures
            match value {
                Some(v) => self@.values.len() > 0 && v@ == self@.values.last(),
                None => self@.values.len() == 0,
            },
    {
        if self.values.len() > 0 {
            Some(self.values[self.values.len() - 1].clone())
        } else {
            None
        }
    }

    /// Takes the top value off the values; `nil` where there is none.
    fn take(&mut self) -> (value: Value)
        ensures
            value@ == top(old(self)@.values),
            final(self)@ == (RunView { values: pop(old(self)@.values), ..old(self)@ }),
    {
        match self.values.pop() {
            Some(value) => {
                assert(value_views(self.values@) =~= value_views(old(self).values@).drop_last());
                value
            },
            None => Value::Nil,
        }
    }

    /// Puts a value on the values.
    fn put(&mut self, value: Value)
        ensures
            final(self)@ == (RunView { values: old(self)@.values.push(value@), ..old(self)@ }),
    {
        self.values.push(value);
        assert(value_views(self.values@) =~= value_views(old(self).values@).push(value@));
    }

    /// Puts a task on the tasks.
    fn schedule(&mut self, task: Task<'a>)
        ensures
            final(self)@ == (RunView { tasks: old(self)@.tasks.push(task), ..old(self)@ }),
    {
        self.tasks.push(task);
    }

    /// Whether the top value counts as true.
    fn truthy(&self) -> (yes: bool)
        ensures
            yes == top(self@.values).truthy(),
    {
        if self.values.len() > 0 {
            self.values[self.values.len() - 1].truthy()
        } else {
            false
        }
    }
}

/// The machine that runs programs. It holds what lasts from one statement
/// to the next: the scopes with their variables.
pub struct Vm {
    environment: Environment,
}

/// What a step left behind, put together as the contracts of the steps speak of it.
pub open spec fn outcome<'a>(vm: Vm, run: Run<'a>, action: Action) -> Stepped<'a> {
    Stepped { environment: vm@, run: run@, action: action@ }
}

impl Vm {
    pub closed spec fn view(&self) -> EnvironmentView {
        self.environment@
    }

    /// A machine with an empty global scope.
    pub fn new() -> (vm: Vm)
        ensures
            vm@.well_formed(),
            vm@ == (EnvironmentView { bindings: Seq::empty(), marks: Seq::empty() }),
    {
        Vm { environment: Environment::new_global() }
    }

    /// The scopes of the machine.
    pub fn environment(&self) -> (environment: &Environment)
        ensures
            environment@ == self@,
    {
        &self.environment
    }

    /// Whether a value counts as true: everything does but `nil` and
    /// `false`.
    pub fn truthy(&self, value: &Value) -> (yes: bool)
        ensures
            yes == value@.truthy(),
    {
        value.truthy()
    }

    /// Does one step of `run`. `reply` answers what the step before asked
    /// for.
    pub fn step<'a>(&mut self, run: &mut Run<'a>, reply: Reply) -> (action: Action)
        requires
            old(self)@.well_formed(),
        ensures
            final(self)@.well_formed(),
            outcome(*final(self), *final(run), action) == step(old(self)@, old(run)@, reply@),
    {
        match run.waiting {
            Waiting::Nothing => {},
            _ => {
                return self.receive(run, reply);
            },
        }
        match run.tasks.pop() {
            None => Action::Done,
            Some(task) => self.perform(run, task),
        }
    }

    /// Takes the reply to what the run asked for.
    fn receive<'a>(&mut self, run: &mut Run<'a>, reply: Reply) -> (action: Action)
        requires
            old(self)@.well_formed(),
        ensures
            final(self)@.well_formed(),
            outcome(*final(self), *final(run), action) == receive(old(self)@, old(run)@, reply@),
    {
        let mut waiting = Waiting::Nothing;
        core::mem::swap(&mut run.waiting, &mut waiting);
        match (waiting, reply) {
            (Waiting::Number, Reply::Number(bits)) => {
                run.put(Value::Number(bits));
                Action::Continue
            },
            (Waiting::PrintText, Reply::Text(text)) => Action::Print(text),
            (Waiting::ErrorText { complaint: kind, before, after }, Reply::Text(text)) => {
                let mut message = before;
                message.append(text.as_str());
                message.append(after.as_str());
                self.fail(run, complaint(kind, message))
            },
            _ => self.fail(
                run,
                RuntimeError::ArgumentError(
                    String::from_str("The host did not answer the machine's request"),
                ),
            ),
        }
    }

    /// Stops the program: closes the scopes that its blocks had opened and
    /// drops what was left to do.
    fn fail<'a>(&mut self, run: &mut Run<'a>, error: RuntimeError) -> (action: Action)
        requires
            old(self)@.well_formed(),
        ensures
            final(self)@.well_formed(),
            outcome(*final(self), *final(run), action) == fail(
                old(self)@,
                old(run)@.tasks,
                error@,
            ),
    {
        loop
            invariant
                self@.well_formed(),
                unwound(self@, run@.tasks) == unwound(old(self)@, old(run)@.tasks),
            ensures
                self@.well_formed(),
                run@.tasks.len() == 0,
                self@ == unwound(old(self)@, old(run)@.tasks),
            decreases run@.tasks.len(),
        {
            match run.tasks.pop() {
                Some(Task::Leave) => {
                    self.environment.leave();
                },
                Some(_) => {},
                None => {
                    break ;
                },
            }
        }
        run.values.clear();
        run.waiting = Waiting::Nothing;
        assert(run@.tasks =~= Seq::empty());
        assert(run@.values =~= Seq::empty());
        Action::Failed(error)
    }

    /// Stops the program with an error whose text shows `value` between
    /// `before` and `after`.
    fn complain<'a>(
        &mut self,
        run: &mut Run<'a>,
        kind: Complaint,
        before: String,
        value: &Value,
        after: &str,
    ) -> (action: Action)
        requires
            old(self)@.well_formed(),
            old(run)@.waiting is Nothing,
        ensures
            final(self)@.well_formed(),
            outcome(*final(self), *final(run), action) == complain(
                old(self)@,
                old(run)@.tasks,
                kind,
                before@,
                value@,
                after@,
            ),
    {
        match value {
            Value::Number(bits) => {
                run.values.clear();
                run.waiting = Waiting::ErrorText {
                    complaint: kind,
                    before,
                    after: String::from_str(after),
                };
                assert(run@.values =~= Seq::empty());
                Action::Format(*bits)
            },
            _ => {
                let mut message = before;
                let shown = value.to_string("");
                message.append(shown.as_str());
                message.append(after);
                proof {
                    reveal_strlit("");
                    assert(""@ =~= Seq::<char>::empty());
                }
                self.fail(run, complaint(kind, message))
            },
        }
    }

    /// Does one task.
    fn perform<'a>(&mut self, run: &mut Run<'a>, task: Task<'a>) -> (action: Action)
        requires
            old(self)@.well_formed(),
            old(run)@.waiting is Nothing,
        ensures
            final(self)@.well_formed(),
            outcome(*final(self), *final(run), action) == perform(
                old(self)@,
                old(run)@.tasks,
                old(run)@.values,
                task,
            ),
    {
        match task {
            Task::Evaluate(expression) => self.evaluate(run, expression),
            Task::Unary(operator) => self.visit_unary(run, operator),
            Task::Binary(operator) => self.visit_binary(run, operator),
            Task::Choose(logical) => self.visit_logical(run, logical),
            Task::Store(name) => self.visit_assignment(run, name),
            Task::Execute(statement) => self.visit_statement(run, statement),
            Task::Sequence(block, index) => self.execute_block(run, block, index),
            Task::Discard => {
                run.take();
                Action::Continue
            },
            Task::Show => self.show(run),
            Task::Define(name) => {
                let value = run.take();
                self.environment.define(name.value.clone(), value);
                Action::Continue
            },
            Task::Branch(conditional) => self.branch(run, conditional),
            Task::Loop(looping) => self.repeat(run, looping),
            Task::Leave => {
                self.environment.leave();
                Action::Continue
            },
        }
    }

    /// Evaluates a literal.
    fn visit_literal<'a>(&mut self, run: &mut Run<'a>, literal: &'a LiteralValue) -> (action:
        Action)
        requires
            old(run)@.waiting is Nothing,
        ensures
            outcome(*final(self), *final(run), action) == visit_literal(
                old(self)@,
                old(run)@.tasks,
                old(run)@.values,
                *literal,
            ),
    {
        match literal {
            LiteralValue::Number(digits) => {
                run.waiting = Waiting::Number;
                Action::Parse(digits.clone())
            },
            LiteralValue::String(text) => {
                run.put(Value::String(text.clone()));
                Action::Continue
            },
            LiteralValue::Boolean(b) => {
                run.put(Value::Boolean(*b));
                Action::Continue
            },
            LiteralValue::Nil => {
                run.put(Value::Nil);
                Action::Continue
            },
        }
    }

    /// Reads a variable.
    fn visit_variable<'a>(&mut self, run: &mut Run<'a>, name: &'a Identifier) -> (action: Action)
        requires
            old(self)@.well_formed(),
            old(run)@.waiting is Nothing,
        ensures
            final(self)@.well_formed(),
            outcome(*final(self), *final(run), action) == match old(self)@.get(name.value@) {
                Ok(value) => crate::machine::proceed(
                    old(self)@,
                    old(run)@.tasks,
                    old(run)@.values.push(value),
                ),
                Err(error) => fail(old(self)@, old(run)@.tasks, error),
            },
    {
        match self.environment.get(name.value.as_str()) {
            Ok(value) => {
                run.put(value);
                Action::Continue
            },
            Err(error) => self.fail(run, error),
        }
    }

    /// Starts on an expression.
    fn evaluate<'a>(&mut self, run: &mut Run<'a>, expression: &'a Expr) -> (action: Action)
        requires
            old(self)@.well_formed(),
            old(run)@.waiting is Nothing,
        ensures
            final(self)@.well_formed(),
            outcome(*final(self), *final(run), action) == evaluate(
                old(self)@,
                old(run)@.tasks,
                old(run)@.values,
                expression,
            ),
    {
        match expression {
            Expr::Literal(it) => self.visit_literal(run, &it.value),
            Expr::Grouping(it) => {
                run.schedule(Task::Evaluate(&*it.expression));
                Action::Continue
            },
            Expr::Unary(it) => {
                run.schedule(Task::Unary(&*it.operator));
                run.schedule(Task::Evaluate(&*it.right));
                Action::Continue
            },
            Expr::Binary(it) => {
                run.schedule(Task::Binary(&*it.operator));
                run.schedule(Task::Evaluate(&*it.right));
                run.schedule(Task::Evaluate(&*it.left));
                Action::Continue
            },
            Expr::Logical(it) => {
                run.schedule(Task::Choose(it));
                run.schedule(Task::Evaluate(&*it.left));
                Action::Continue
            },
            Expr::Variable(it) => self.visit_variable(run, &*it.token),
            Expr::Assignment(it) => {
                run.schedule(Task::Store(&*it.name));
                run.schedule(Task::Evaluate(&*it.value));
                Action::Continue
            },
        }
    }

    /// Applies a unary operator to the top value.
    fn visit_unary<'a>(&mut self, run: &mut Run<'a>, token: &'a Token) -> (action: Action)
        requires
            old(self)@.well_formed(),
            old(run)@.waiting is Nothing,
        ensures
            final(self)@.well_formed(),
            outcome(*final(self), *final(run), action) == apply_unary(
                old(self)@,
                old(run)@.tasks,
                old(run)@.values,
                token@,
            ),
    {
        let operand = run.take();
        match operator(token) {
            Operator::Minus => match operand {
                Value::Number(bits) => {
                    run.put(Value::Number(negate(bits)));
                    Action::Continue
                },
                other => {
                    let mut message = String::from_str("Expected number, but got ");
                    let shown = other.to_string("");
                    message.append(shown.as_str());
                    proof {
                        reveal_strlit("");
                        assert(""@ =~= Seq::<char>::empty());
                    }
                    self.fail(run, RuntimeError::ArgumentError(message))
                },
            },
            Operator::Bang => {
                run.put(Value::Boolean(!operand.truthy()));
                Action::Continue
            },
            _ => {
                let mut message = String::from_str("Unknown unary operator: ");
                let lexeme = token.lexeme();
                message.append(lexeme.as_str());
                self.fail(run, RuntimeError::UnknownOperatorError(message))
            },
        }
    }

    /// `-`, `*`, `/`, and `+` where no string stands on the left.
    fn arithmetic<'a>(
        &mut self,
        run: &mut Run<'a>,
        operation: Operation,
        symbol: &str,
        left: Value,
        right: Value,
    ) -> (action: Action)
        requires
            old(self)@.well_formed(),
            old(run)@.waiting is Nothing,
        ensures
            final(self)@.well_formed(),
            outcome(*final(self), *final(run), action) == arithmetic(
                old(self)@,
                old(run)@.tasks,
                old(run)@.values,
                operation,
                symbol@,
                left@,
                right@,
            ),
    {
        match (&left, &right) {
            (Value::Number(l), Value::Number(r)) => {
                let divides = match operation {
                    Operation::Divide => true,
                    _ => false,
                };
                if divides && zero(*r) {
                    self.complain(
                        run,
                        Complaint::ZeroDivision,
                        String::from_str("Cannot divide "),
                        &left,
                        " by zero",
                    )
                } else {
                    run.waiting = Waiting::Number;
                    Action::Calculate(operation, *l, *r)
                }
            },
            (Value::Number(_), _) => {
                proof {
                    reveal_strlit("");
                    assert(""@ =~= Seq::<char>::empty());
                }
                self.complain(
                    run,
                    Complaint::Argument,
                    String::from_str("Expected number, but got "),
                    &right,
                    "",
                )
            },
            _ => {
                let mut before = String::from_str("Invalid operands for ");
                before.append(symbol);
                before.append(": ");
                let shown = left.to_string("");
                before.append(shown.as_str());
                before.append(" and ");
                proof {
                    reveal_strlit("");
                    assert(""@ =~= Seq::<char>::empty());
                    assert(before@ =~= invalid_operands(symbol@, left@));
                }
                self.complain(run, Complaint::Argument, before, &right, "")
            },
        }
    }

    /// Applies a binary operator to the two top values.
    fn visit_binary<'a>(&mut self, run: &mut Run<'a>, token: &'a Token) -> (action: Action)
        requires
            old(self)@.well_formed(),
            old(run)@.waiting is Nothing,
        ensures
            final(self)@.well_formed(),
            outcome(*final(self), *final(run), action) == apply_binary(
                old(self)@,
                old(run)@.tasks,
                old(run)@.values,
                token@,
            ),
    {
        let right = run.take();
        let left = run.take();
        let truth = match operator(token) {
            Operator::Minus => {
                return self.arithmetic(run, Operation::Subtract, "-", left, right);
            },
            Operator::Slash => {
                return self.arithmetic(run, Operation::Divide, "/", left, right);
            },
            Operator::Star => {
                return self.arithmetic(run, Operation::Multiply, "*", left, right);
            },
            Operator::Plus => {
                return self.plus(run, left, right);
            },
            Operator::Greater => is_below(&right, &left),
            Operator::GreaterEqual => is_at_most(&right, &left),
            Operator::Less => is_below(&left, &right),
            Operator::LessEqual => is_at_most(&left, &right),
            Operator::BangEqual => !left.eq(&right),
            Operator::EqualEqual => left.eq(&right),
            _ => {
                let mut message = String::from_str("Unknown binary operator: ");
                let lexeme = token.lexeme();
                message.append(lexeme.as_str());
                return self.fail(run, RuntimeError::UnknownOperatorError(message));
            },
        };
        run.put(Value::Boolean(truth));
        Action::Continue
    }

    /// `+` on two values.
    fn plus<'a>(&mut self, run: &mut Run<'a>, left: Value, right: Value) -> (action: Action)
        requires
            old(self)@.well_formed(),
            old(run)@.waiting is Nothing,
        ensures
            final(self)@.well_formed(),
            outcome(*final(self), *final(run), action) == plus(
                old(self)@,
                old(run)@.tasks,
                old(run)@.values,
                left@,
                right@,
            ),
    {
        match left {
            Value::String(l) => match right {
                Value::String(r) => {
                    let mut joined = l;
                    joined.append(r.as_str());
                    run.put(Value::String(joined));
                    Action::Continue
                },
                other => {
                    proof {
                        reveal_strlit("");
                        assert(""@ =~= Seq::<char>::empty());
                    }
                    self.complain(
                        run,
                        Complaint::Argument,
                        String::from_str("Expected string, but got "),
                        &other,
                        "",
                    )
                },
            },
            other => self.arithmetic(run, Operation::Add, "+", other, right),
        }
    }

    /// Decides a logical operator on the value of its left operand.
    fn visit_logical<'a>(&mut self, run: &mut Run<'a>, logical: &'a Logical) -> (action: Action)
        requires
            old(run)@.waiting is Nothing,
        ensures
            outcome(*final(self), *final(run), action) == settle(
                old(self)@,
                old(run)@.tasks,
                old(run)@.values,
                logical,
            ),
    {
        let truthy = run.truthy();
        let stays = match operator(&*logical.operator) {
            Operator::Or => truthy,
            _ => !truthy,
        };
        if !stays {
            run.take();
            run.schedule(Task::Evaluate(&*logical.right));
        }
        Action::Continue
    }

    /// Assigns the top value to a variable.
    fn visit_assignment<'a>(&mut self, run: &mut Run<'a>, name: &'a Identifier) -> (action:
        Action)
        requires
            old(self)@.well_formed(),
            old(run)@.waiting is Nothing,
        ensures
            final(self)@.well_formed(),
            outcome(*final(self), *final(run), action) == store(
                old(self)@,
                old(run)@.tasks,
                old(run)@.values,
                name.value@,
            ),
    {
        let value = match run.result() {
            Some(value) => value,
            None => Value::Nil,
        };
        match self.environment.assign(name.value.as_str(), value) {
            Ok(_) => Action::Continue,
            Err(error) => self.fail(run, error),
        }
    }

    /// Starts on a statement.
    fn visit_statement<'a>(&mut self, run: &mut Run<'a>, statement: &'a Statement) -> (action:
        Action)
        requires
            old(self)@.well_formed(),
            old(run)@.waiting is Nothing,
        ensures
            final(self)@.well_formed(),
            outcome(*final(self), *final(run), action) == execute(
                old(self)@,
                old(run)@.tasks,
                old(run)@.values,
                statement,
            ),
    {
        match statement {
            Statement::Expression(it) => {
                run.schedule(Task::Discard);
                run.schedule(Task::Evaluate(&*it.expression));
            },
            Statement::Print(it) => {
                run.schedule(Task::Show);
                run.schedule(Task::Evaluate(&*it.expression));
            },
            Statement::Variable(it) => {
                run.schedule(Task::Define(&*it.name));
                run.schedule(Task::Evaluate(&*it.value));
            },
            Statement::Block(it) => {
                self.environment.enter();
                run.schedule(Task::Leave);
                run.schedule(Task::Sequence(it, 0));
            },
            Statement::If(it) => {
                run.schedule(Task::Branch(it));
                run.schedule(Task::Evaluate(&*it.condition));
            },
            Statement::While(it) => {
                run.schedule(Task::Loop(it));
                run.schedule(Task::Evaluate(&*it.condition));
            },
        }
        Action::Continue
    }

    /// Goes on in a block, with the statement at `index`.
    fn execute_block<'a>(
        &mut self,
        run: &mut Run<'a>,
        block: &'a BlockStatement,
        index: usize,
    ) -> (action: Action)
        requires
            old(run)@.waiting is Nothing,
        ensures
            outcome(*final(self), *final(run), action) == sequence(
                old(self)@,
                old(run)@.tasks,
                old(run)@.values,
                block,
                index,
            ),
    {
        if index < block.statements.len() {
            run.schedule(Task::Sequence(block, index + 1));
            run.schedule(Task::Execute(&block.statements[index]));
        }
        Action::Continue
    }

    /// Prints the top value.
    fn show<'a>(&mut self, run: &mut Run<'a>) -> (action: Action)
        requires
            old(run)@.waiting is Nothing,
        ensures
            outcome(*final(self), *final(run), action) == show(
                old(self)@,
                old(run)@.tasks,
                old(run)@.values,
            ),
    {
        match run.take() {
            Value::Number(bits) => {
                run.waiting = Waiting::PrintText;
                Action::Format(bits)
            },
            other => {
                proof {
                    reveal_strlit("");
                    assert(""@ =~= Seq::<char>::empty());
                }
                Action::Print(other.to_string(""))
            },
        }
    }

    /// Takes a branch of a conditional.
    fn branch<'a>(&mut self, run: &mut Run<'a>, conditional: &'a IfStatement) -> (action: Action)
        requires
            old(run)@.waiting is Nothing,
        ensures
            outcome(*final(self), *final(run), action) == branch(
                old(self)@,
                old(run)@.tasks,
                old(run)@.values,
                conditional,
            ),
    {
        let condition = run.take();
        if condition.truthy() {
            run.schedule(Task::Execute(&*conditional.then_branch));
        } else {
            match &conditional.else_branch {
                Some(other) => {
                    run.schedule(Task::Execute(&**other));
                },
                None => {},
            }
        }
        Action::Continue
    }

    /// Goes round a loop once more, or leaves it.
    fn repeat<'a>(&mut self, run: &mut Run<'a>, looping: &'a WhileStatement) -> (action: Action)
        requires
            old(run)@.waiting is Nothing,
        ensures
            outcome(*final(self), *final(run), action) == repeat(
                old(self)@,
                old(run)@.tasks,
                old(run)@.values,
                looping,
            ),
    {
        let condition = run.take();
        if condition.truthy() {
            run.schedule(Task::Loop(looping));
            run.schedule(Task::Evaluate(&*looping.condition));
            run.schedule(Task::Execute(&*looping.body));
        }
        Action::Continue
    }
}

} // verus!
