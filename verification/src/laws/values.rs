use crate::ast::{Expr, LiteralValue, Logical};
use crate::environment::{position, undefined, EnvironmentView};
use crate::laws::run_steps;
use crate::machine::{
    decides, evaluate, fail, operator_of, perform, proceed, step, unwound, ActionView, Operator,
    ReplyView, RunView, Task, WaitingView,
};
use crate::meaning::{meaning, Meaning};
use crate::number::{is_nan, is_zero};
use crate::token::{Identifier, Token};
use crate::value::{RuntimeErrorView, ValueView};
use vstd::prelude::*;

verus! {

/// A NaN is equal to nothing, itself included: `==` on it gives false and
/// `!=` true, whatever stands on the other side.
pub proof fn law_nan_equals_nothing(nan: u64, other: ValueView)
    requires
        is_nan(nan),
    ensures
        !ValueView::Number(nan).equals(ValueView::Number(nan)),
        !ValueView::Number(nan).equals(other),
        !other.equals(ValueView::Number(nan)),
{
}

/// Equality of values is symmetric, and reflexive on everything but a NaN.
pub proof fn law_equality(left: ValueView, right: ValueView)
    ensures
        left.equals(right) == right.equals(left),
        !(left matches ValueView::Number(bits) && is_nan(bits)) ==> left.equals(left),
{
}

/// Reading a name that no scope binds stops the program with
/// `UndefinedVariable`, and so does assigning to it; the scopes that blocks
/// had opened are closed and no binding is changed.
pub proof fn law_undefined_variable<'a>(
    environment: EnvironmentView,
    tasks: Seq<Task<'a>>,
    values: Seq<ValueView>,
    variable: &'a Expr,
    name: &'a Identifier,
)
    requires
        position(environment.bindings, name.value@, 0).is_none(),
        *variable matches Expr::Variable(it) && it.token.value@ == name.value@,
    ensures
        evaluate(environment, tasks, values, variable) == fail(
            environment,
            tasks,
            undefined(name.value@),
        ),
        perform(environment, tasks, values, Task::Store(name)) == fail(
            environment,
            tasks,
            undefined(name.value@),
        ),
        undefined(name.value@) is UndefinedVariable,
{
}

/// Dividing a number by zero, of either sign, stops the program with
/// `ZeroDivision`: the machine asks for the writing of the dividend, and
/// the step that takes it fails with "Cannot divide <dividend> by zero".
pub proof fn law_division_by_zero<'a>(
    environment: EnvironmentView,
    tasks: Seq<Task<'a>>,
    values: Seq<ValueView>,
    slash: &'a Token,
    dividend: u64,
    divisor: u64,
    writing: Seq<char>,
)
    requires
        operator_of(slash@) == Operator::Slash,
        is_zero(divisor),
        values.len() >= 2,
        values[values.len() - 2] == ValueView::Number(dividend),
        values.last() == ValueView::Number(divisor),
    ensures
        ({
            let asked = perform(environment, tasks, values, Task::Binary(slash));
            let told = step(asked.environment, asked.run, ReplyView::Text(writing));
            &&& asked.action == ActionView::Format(dividend)
            &&& asked.environment == environment
            &&& told == fail(
                environment,
                tasks,
                RuntimeErrorView::ZeroDivision("Cannot divide "@ + writing + " by zero"@),
            )
        }),
{
}

/// Dividing by what is no number stops the program with `ArgumentError`,
/// at once.
pub proof fn law_division_by_no_number<'a>(
    environment: EnvironmentView,
    tasks: Seq<Task<'a>>,
    values: Seq<ValueView>,
    slash: &'a Token,
)
    requires
        operator_of(slash@) == Operator::Slash,
        values.len() >= 2,
        !(values.last() is Number),
    ensures
        ({
            let stopped = perform(environment, tasks, values, Task::Binary(slash));
            &&& stopped.action matches ActionView::Failed(error) && error is ArgumentError
            &&& stopped.run.tasks.len() == 0
            &&& stopped.environment == unwound(environment, tasks)
        }),
{
}

/// Where the left operand of `and` is not true, or that of `or` is true,
/// the right operand is never put on the tasks: the step that decides
/// leaves the tasks below the operator, the values and the scopes as they
/// are, and the value of the left operand is the value of the whole.
pub proof fn law_short_circuit<'a>(
    environment: EnvironmentView,
    tasks: Seq<Task<'a>>,
    values: Seq<ValueView>,
    logical: &'a Logical,
)
    requires
        values.len() > 0,
        if operator_of(logical.operator@) == Operator::Or {
            values.last().truthy()
        } else {
            !values.last().truthy()
        },
    ensures
        perform(environment, tasks, values, Task::Choose(logical)) == proceed(
            environment,
            tasks,
            values,
        ),
{
}

/// `false and X` and `true or X` are evaluated in three steps that ask the
/// host for nothing, whatever `X` is: they leave the value of the left
/// operand on the values and `X` on no task.
pub proof fn law_short_circuit_of_literals<'a>(
    environment: EnvironmentView,
    tasks: Seq<Task<'a>>,
    values: Seq<ValueView>,
    expression: &'a Expr,
    replies: Seq<ReplyView>,
)
    requires
        replies.len() == 3,
        *expression matches Expr::Logical(it) && (*it.left matches Expr::Literal(left)
            && left.value matches LiteralValue::Boolean(b) && b == (operator_of(it.operator@)
            == Operator::Or)),
    ensures
        ({
            let start = RunView {
                tasks: tasks.push(Task::Evaluate(expression)),
                values,
                waiting: WaitingView::Nothing,
            };
            let b = operator_of(expression->Logical_0.operator@) == Operator::Or;
            run_steps(environment, start, replies) == proceed(
                environment,
                tasks,
                values.push(ValueView::Boolean(b)),
            )
        }),
{
    let start = RunView {
        tasks: tasks.push(Task::Evaluate(expression)),
        values,
        waiting: WaitingView::Nothing,
    };
    let logical = expression->Logical_0;
    let b = operator_of(logical.operator@) == Operator::Or;
    let none = replies.subrange(0, 0);
    let one = replies.subrange(0, 1);
    let two = replies.subrange(0, 2);
    assert(one.drop_last() =~= none);
    assert(two.drop_last() =~= one);
    assert(replies.drop_last() =~= two);
    let s0 = run_steps(environment, start, none);
    assert(s0.run == start && s0.environment == environment);
    let s1 = run_steps(environment, start, one);
    assert(start.tasks.drop_last() =~= tasks);
    assert(s1 == proceed(
        environment,
        tasks.push(Task::Choose(&logical)).push(Task::Evaluate(&*logical.left)),
        values,
    ));
    let s2 = run_steps(environment, start, two);
    assert(s1.run.tasks.drop_last() =~= tasks.push(Task::Choose(&logical)));
    assert(s2 == proceed(
        environment,
        tasks.push(Task::Choose(&logical)),
        values.push(ValueView::Boolean(b)),
    ));
    assert(s2.run.tasks.drop_last() =~= tasks);
}

/// Where the left operand of `and` comes to a value that is not true, or
/// that of `or` to one that is true, the whole comes to what the left
/// operand comes to, whatever the right operand is: it is not evaluated.
pub proof fn law_short_circuit_meaning(
    host: spec_fn(ActionView) -> ReplyView,
    environment: EnvironmentView,
    expression: &Expr,
)
    requires
        *expression matches Expr::Logical(it) && (meaning(
            host,
            environment,
            &*it.left,
        ) matches Meaning::Value { value, .. } && decides(it.operator@, value)),
    ensures
        meaning(host, environment, expression) == meaning(
            host,
            environment,
            &*expression->Logical_0.left,
        ),
{
}

} // verus!
