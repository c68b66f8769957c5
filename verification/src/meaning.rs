//! What an expression means, told in one piece: the value it comes to and
//! the scopes it leaves behind, or the error it stops with. The machine
//! reaches the same in steps; `law_evaluation` says so.

use crate::ast::{BlockStatement, Expr, Statement};
use crate::environment::EnvironmentView;
use crate::machine::{
    apply_binary, apply_unary, decides, evaluate, fail, proceed, show, step, store, top, unwound,
    ActionView, ReplyView, RunView, Stepped, Task, WaitingView,
};
use crate::value::{RuntimeErrorView, ValueView};
use vstd::prelude::*;

verus! {

/// What the evaluation of an expression comes to.
pub enum Meaning {
    /// A value, and the scopes as the evaluation left them.
    Value { environment: EnvironmentView, value: ValueView },
    /// An error, and the scopes as they were when it arose.
    Stopped { environment: EnvironmentView, error: RuntimeErrorView },
}

/// A step, and behind it the step that takes the host's reply if the first
/// one asked for something.
pub open spec fn answered<'a>(host: spec_fn(ActionView) -> ReplyView, first: Stepped<'a>) -> Stepped<
    'a,
> {
    if first.run.waiting is Nothing {
        first
    } else {
        step(first.environment, first.run, host(first.action))
    }
}

/// What a step on nothing but its operands has come to.
pub open spec fn settled<'a>(after: Stepped<'a>) -> Meaning {
    match after.action {
        ActionView::Failed(error) => Meaning::Stopped { environment: after.environment, error },
        _ => Meaning::Value { environment: after.environment, value: top(after.run.values) },
    }
}

/// What an expression comes to in the scopes `environment`, with a host
/// that replies to each request as `host` says: a literal and a variable
/// give their value; a group is its inside; the operand of a unary operator
/// is evaluated, then the operator applied; of a binary operator the left
/// operand is evaluated first, the right one in the scopes that the left
/// one left, then the operator applied; of a logical operator the right
/// operand is evaluated only where the left one does not decide; the value
/// of an assignment is evaluated, then stored. The first error ends it.
pub open spec fn meaning(
    host: spec_fn(ActionView) -> ReplyView,
    environment: EnvironmentView,
    expression: &Expr,
) -> Meaning
    decreases expression,
{
    let nothing = Seq::<Task>::empty();
    match *expression {
        Expr::Literal(_) => settled(
            answered(host, evaluate(environment, nothing, Seq::empty(), expression)),
        ),
        Expr::Variable(_) => settled(evaluate(environment, nothing, Seq::empty(), expression)),
        Expr::Grouping(it) => meaning(host, environment, &*it.expression),
        Expr::Unary(it) => match meaning(host, environment, &*it.right) {
            Meaning::Value { environment: then, value } => settled(
                apply_unary(then, nothing, seq![value], it.operator@),
            ),
            stopped => stopped,
        },
        Expr::Binary(it) => match meaning(host, environment, &*it.left) {
            Meaning::Value { environment: first, value: left } => match meaning(
                host,
                first,
                &*it.right,
            ) {
                Meaning::Value { environment: then, value: right } => settled(
                    answered(host, apply_binary(then, nothing, seq![left, right], it.operator@)),
                ),
                stopped => stopped,
            },
            stopped => stopped,
        },
        Expr::Logical(it) => match meaning(host, environment, &*it.left) {
            Meaning::Value { environment: then, value } => if decides(it.operator@, value) {
                Meaning::Value { environment: then, value }
            } else {
                meaning(host, then, &*it.right)
            },
            stopped => stopped,
        },
        Expr::Assignment(it) => match meaning(host, environment, &*it.value) {
            Meaning::Value { environment: then, value } => settled(
                store(then, nothing, seq![value], it.name.value@),
            ),
            stopped => stopped,
        },
    }
}

/// The state after `count` more steps, the host replying to each step as
/// `host` says.
pub open spec fn run_with<'a>(
    host: spec_fn(ActionView) -> ReplyView,
    from: Stepped<'a>,
    count: nat,
) -> Stepped<'a>
    decreases count,
{
    if count == 0 {
        from
    } else {
        let before = run_with(host, from, (count - 1) as nat);
        step(before.environment, before.run, host(before.action))
    }
}

/// What the machine has come to when it has done with an expression: the
/// value lies on the values and the tasks behind the expression are left
/// to do, or the program has stopped.
pub open spec fn reached<'a>(meaning: Meaning, rest: Seq<Task<'a>>, values: Seq<ValueView>) -> Stepped<
    'a,
> {
    match meaning {
        Meaning::Value { environment, value } => proceed(environment, rest, values.push(value)),
        Meaning::Stopped { environment, error } => fail(environment, rest, error),
    }
}

/// Steps after steps are steps.
pub proof fn lemma_run_with_joined<'a>(
    host: spec_fn(ActionView) -> ReplyView,
    from: Stepped<'a>,
    first: nat,
    then: nat,
)
    ensures
        run_with(host, from, first + then) == run_with(host, run_with(host, from, first), then),
    decreases then,
{
    if then > 0 {
        lemma_run_with_joined(host, from, first, (then - 1) as nat);
    }
}

/// One step, seen as a run.
pub proof fn lemma_run_with_one<'a>(host: spec_fn(ActionView) -> ReplyView, from: Stepped<'a>)
    ensures
        run_with(host, from, 1) == step(from.environment, from.run, host(from.action)),
{
    assert(run_with(host, from, 0) == from);
}

/// The lines that the steps of a run tell the host to print, in their
/// order.
pub open spec fn printed_with<'a>(
    host: spec_fn(ActionView) -> ReplyView,
    from: Stepped<'a>,
    count: nat,
) -> Seq<Seq<char>>
    decreases count,
{
    if count == 0 {
        Seq::empty()
    } else {
        printed_with(host, from, (count - 1) as nat) + match run_with(host, from, count).action {
            ActionView::Print(line) => seq![line],
            _ => Seq::empty(),
        }
    }
}

/// The lines of steps after steps are the lines of the first steps, then
/// those of the others.
pub proof fn lemma_printed_with_joined<'a>(
    host: spec_fn(ActionView) -> ReplyView,
    from: Stepped<'a>,
    first: nat,
    then: nat,
)
    ensures
        printed_with(host, from, first + then) == printed_with(host, from, first) + printed_with(
            host,
            run_with(host, from, first),
            then,
        ),
    decreases then,
{
    let middle = run_with(host, from, first);
    if then == 0 {
        assert(printed_with(host, from, first) + printed_with(host, middle, 0) =~= printed_with(
            host,
            from,
            first,
        ));
    } else {
        lemma_printed_with_joined(host, from, first, (then - 1) as nat);
        lemma_run_with_joined(host, from, first, then);
        let last = match run_with(host, from, first + then).action {
            ActionView::Print(line) => seq![line],
            _ => Seq::empty(),
        };
        assert(printed_with(host, from, first + then) =~= printed_with(host, from, first) + (
        printed_with(host, middle, (then - 1) as nat) + last));
    }
}

/// The line of one step.
pub proof fn lemma_printed_with_one<'a>(host: spec_fn(ActionView) -> ReplyView, from: Stepped<'a>)
    ensures
        printed_with(host, from, 1) == match step(
            from.environment,
            from.run,
            host(from.action),
        ).action {
            ActionView::Print(line) => seq![line],
            _ => Seq::<Seq<char>>::empty(),
        },
{
    lemma_run_with_one(host, from);
    assert(printed_with(host, from, 0) =~= Seq::<Seq<char>>::empty());
    let last = match run_with(host, from, 1).action {
        ActionView::Print(line) => seq![line],
        _ => Seq::<Seq<char>>::empty(),
    };
    assert(Seq::<Seq<char>>::empty() + last =~= last);
}

/// A program that stops with tasks on top that close no scope leaves the
/// scopes that it would leave without them.
pub proof fn lemma_fail_below<'a>(
    environment: EnvironmentView,
    rest: Seq<Task<'a>>,
    above: Seq<Task<'a>>,
    error: RuntimeErrorView,
)
    requires
        forall|i: int| 0 <= i < above.len() ==> !(#[trigger] above[i] is Leave),
    ensures
        fail(environment, rest + above, error) == fail(environment, rest, error),
    decreases above.len(),
{
    if above.len() == 0 {
        assert(rest + above =~= rest);
    } else {
        assert((rest + above).drop_last() =~= rest + above.drop_last());
        assert((rest + above).last() == above[above.len() - 1]);
        lemma_fail_below(environment, rest, above.drop_last(), error);
    }
}

/// Applying a unary operator with other values and tasks below comes to
/// what applying it on its operand alone comes to.
pub proof fn lemma_unary_framed<'a>(
    environment: EnvironmentView,
    rest: Seq<Task<'a>>,
    values: Seq<ValueView>,
    operand: ValueView,
    operator: &'a crate::token::Token,
)
    ensures
        apply_unary(environment, rest, values.push(operand), operator@) == reached(
            settled(apply_unary(environment, Seq::empty(), seq![operand], operator@)),
            rest,
            values,
        ),
{
    assert(values.push(operand).drop_last() =~= values);
    assert(seq![operand].drop_last() =~= Seq::<ValueView>::empty());
    let small = apply_unary(environment, Seq::<Task<'a>>::empty(), seq![operand], operator@);
    assert(small.action is Failed ==> small.environment == environment);
}

/// Applying a binary operator, and taking the host's reply where it asks
/// for something, comes with other values and tasks below to what it comes
/// to on its operands alone.
pub proof fn lemma_binary_framed<'a>(
    host: spec_fn(ActionView) -> ReplyView,
    environment: EnvironmentView,
    rest: Seq<Task<'a>>,
    values: Seq<ValueView>,
    left: ValueView,
    right: ValueView,
    operator: &'a crate::token::Token,
)
    ensures
        answered(
            host,
            apply_binary(environment, rest, values.push(left).push(right), operator@),
        ) == reached(
            settled(
                answered(
                    host,
                    apply_binary(environment, Seq::empty(), seq![left, right], operator@),
                ),
            ),
            rest,
            values,
        ),
{
    let all = values.push(left).push(right);
    assert(all.drop_last() =~= values.push(left));
    assert(all.drop_last().drop_last() =~= values);
    let pair = seq![left, right];
    assert(pair.drop_last() =~= seq![left]);
    assert(pair.drop_last().drop_last() =~= Seq::<ValueView>::empty());
    assert(values.push(left).last() == left);
    assert(seq![left].last() == left);
    assert(unwound(environment, Seq::<Task<'a>>::empty()) == environment);
    let nothing = Seq::<ValueView>::empty();
    assert forall|value: ValueView| #[trigger] nothing.push(value).last() == value by {}
}

/// Storing a value with other values and tasks below comes to what storing
/// it alone comes to.
pub proof fn lemma_store_framed<'a>(
    environment: EnvironmentView,
    rest: Seq<Task<'a>>,
    values: Seq<ValueView>,
    value: ValueView,
    name: Seq<char>,
)
    ensures
        store(environment, rest, values.push(value), name) == reached(
            settled(store(environment, Seq::empty(), seq![value], name)),
            rest,
            values,
        ),
{
    assert(unwound(environment, Seq::<Task<'a>>::empty()) == environment);
}

/// The line that an action tells to print, if it tells one.
pub open spec fn line_of(action: ActionView) -> Seq<Seq<char>> {
    match action {
        ActionView::Print(line) => seq![line],
        _ => Seq::empty(),
    }
}

/// One step behind `done` steps.
pub proof fn lemma_one_more<'a>(
    host: spec_fn(ActionView) -> ReplyView,
    from: Stepped<'a>,
    done: nat,
)
    ensures
        ({
            let before = run_with(host, from, done);
            let after = step(before.environment, before.run, host(before.action));
            &&& run_with(host, from, done + 1) == after
            &&& printed_with(host, from, done + 1) == printed_with(host, from, done) + line_of(
                after.action,
            )
        }),
{
    lemma_run_with_joined(host, from, done, 1);
    lemma_printed_with_joined(host, from, done, 1);
    lemma_run_with_one(host, run_with(host, from, done));
    lemma_printed_with_one(host, run_with(host, from, done));
}

/// `more` steps behind `done` steps.
pub proof fn lemma_more<'a>(
    host: spec_fn(ActionView) -> ReplyView,
    from: Stepped<'a>,
    done: nat,
    more: nat,
)
    ensures
        run_with(host, from, done + more) == run_with(host, run_with(host, from, done), more),
        printed_with(host, from, done + more) == printed_with(host, from, done) + printed_with(
            host,
            run_with(host, from, done),
            more,
        ),
{
    lemma_run_with_joined(host, from, done, more);
    lemma_printed_with_joined(host, from, done, more);
}

/// The machine comes to what the expression means: from a state in which
/// the expression is the top task, after the number of steps that this
/// function returns, the value of the expression lies on top of the values
/// that were there, the scopes are those that the meaning gives, and the
/// tasks below are left to do; or, where the expression stops with an
/// error, the program has stopped with that error. The host replies to
/// every request as `host` says, and is told to print nothing.
pub proof fn law_evaluation<'a>(
    host: spec_fn(ActionView) -> ReplyView,
    from: Stepped<'a>,
    rest: Seq<Task<'a>>,
    values: Seq<ValueView>,
    expression: &'a Expr,
) -> (count: nat)
    requires
        from.run == (RunView {
            tasks: rest.push(Task::Evaluate(expression)),
            values,
            waiting: WaitingView::Nothing,
        }),
    ensures
        count > 0,
        run_with(host, from, count) == reached(
            meaning(host, from.environment, expression),
            rest,
            values,
        ),
        printed_with(host, from, count) == Seq::<Seq<char>>::empty(),
    decreases expression,
{
    let environment = from.environment;
    let nothing = Seq::<Task<'a>>::empty();
    let silent = Seq::<Seq<char>>::empty();
    assert(from.run.tasks.drop_last() =~= rest);
    assert(run_with(host, from, 0) == from);
    assert(printed_with(host, from, 0) =~= silent);
    lemma_one_more(host, from, 0);
    let first = run_with(host, from, 1);
    assert(first == evaluate(environment, rest, values, expression));
    assert(unwound(environment, nothing) == environment);
    assert(silent + silent =~= silent);
    match *expression {
        Expr::Literal(it) => {
            let small = evaluate(environment, nothing, Seq::empty(), expression);
            if first.run.waiting is Nothing {
                assert(small.run.values.last() == first.run.values.last());
                1
            } else {
                lemma_one_more(host, from, 1);
                let empty = Seq::<ValueView>::empty();
                assert forall|value: ValueView| #[trigger] empty.push(value).last() == value by {}
                2
            }
        },
        Expr::Variable(it) => {
            let empty = Seq::<ValueView>::empty();
            assert forall|value: ValueView| #[trigger] empty.push(value).last() == value by {}
            1
        },
        Expr::Grouping(it) => {
            let inner = law_evaluation(host, first, rest, values, &*it.expression);
            lemma_more(host, from, 1, inner);
            1 + inner
        },
        Expr::Unary(it) => {
            let below = rest.push(Task::Unary(&*it.operator));
            let inner = law_evaluation(host, first, below, values, &*it.right);
            lemma_more(host, from, 1, inner);
            match meaning(host, environment, &*it.right) {
                Meaning::Value { environment: scopes, value } => {
                    lemma_one_more(host, from, 1 + inner);
                    assert(below.drop_last() =~= rest);
                    lemma_unary_framed(scopes, rest, values, value, &*it.operator);
                    1 + inner + 1
                },
                Meaning::Stopped { environment: scopes, error } => {
                    let above = seq![Task::Unary(&*it.operator)];
                    assert(rest + above =~= below);
                    lemma_fail_below(scopes, rest, above, error);
                    1 + inner
                },
            }
        },
        Expr::Binary(it) => {
            let below_left = rest.push(Task::Binary(&*it.operator)).push(Task::Evaluate(&*it.right));
            let below_right = rest.push(Task::Binary(&*it.operator));
            let left_steps = law_evaluation(host, first, below_left, values, &*it.left);
            lemma_more(host, from, 1, left_steps);
            match meaning(host, environment, &*it.left) {
                Meaning::Value { environment: scopes, value: left } => {
                    let between = run_with(host, from, 1 + left_steps);
                    let right_steps = law_evaluation(
                        host,
                        between,
                        below_right,
                        values.push(left),
                        &*it.right,
                    );
                    lemma_more(host, from, 1 + left_steps, right_steps);
                    match meaning(host, scopes, &*it.right) {
                        Meaning::Value { environment: then, value: right } => {
                            lemma_one_more(host, from, 1 + left_steps + right_steps);
                            assert(below_right.drop_last() =~= rest);
                            let applied = run_with(host, from, 1 + left_steps + right_steps + 1);
                            assert(applied == apply_binary(
                                then,
                                rest,
                                values.push(left).push(right),
                                it.operator@,
                            ));
                            lemma_binary_framed(
                                host,
                                then,
                                rest,
                                values,
                                left,
                                right,
                                &*it.operator,
                            );
                            if applied.run.waiting is Nothing {
                                1 + left_steps + right_steps + 1
                            } else {
                                lemma_one_more(host, from, 1 + left_steps + right_steps + 1);
                                1 + left_steps + right_steps + 2
                            }
                        },
                        Meaning::Stopped { environment: then, error } => {
                            let above = seq![Task::Binary(&*it.operator)];
                            assert(rest + above =~= below_right);
                            lemma_fail_below(then, rest, above, error);
                            1 + left_steps + right_steps
                        },
                    }
                },
                Meaning::Stopped { environment: scopes, error } => {
                    let above = seq![Task::Binary(&*it.operator), Task::Evaluate(&*it.right)];
                    assert(rest + above =~= below_left);
                    lemma_fail_below(scopes, rest, above, error);
                    1 + left_steps
                },
            }
        },
        Expr::Logical(it) => {
            let below = rest.push(Task::Choose(&it));
            let left_steps = law_evaluation(host, first, below, values, &*it.left);
            lemma_more(host, from, 1, left_steps);
            match meaning(host, environment, &*it.left) {
                Meaning::Value { environment: scopes, value } => {
                    lemma_one_more(host, from, 1 + left_steps);
                    assert(below.drop_last() =~= rest);
                    assert(values.push(value).drop_last() =~= values);
                    if decides(it.operator@, value) {
                        1 + left_steps + 1
                    } else {
                        let decided = run_with(host, from, 1 + left_steps + 1);
                        let right_steps = law_evaluation(host, decided, rest, values, &*it.right);
                        lemma_more(host, from, 1 + left_steps + 1, right_steps);
                        1 + left_steps + 1 + right_steps
                    }
                },
                Meaning::Stopped { environment: scopes, error } => {
                    let above = seq![Task::Choose(&it)];
                    assert(rest + above =~= below);
                    lemma_fail_below(scopes, rest, above, error);
                    1 + left_steps
                },
            }
        },
        Expr::Assignment(it) => {
            let below = rest.push(Task::Store(&*it.name));
            let inner = law_evaluation(host, first, below, values, &*it.value);
            lemma_more(host, from, 1, inner);
            match meaning(host, environment, &*it.value) {
                Meaning::Value { environment: scopes, value } => {
                    lemma_one_more(host, from, 1 + inner);
                    assert(below.drop_last() =~= rest);
                    lemma_store_framed(scopes, rest, values, value, it.name.value@);
                    1 + inner + 1
                },
                Meaning::Stopped { environment: scopes, error } => {
                    let above = seq![Task::Store(&*it.name)];
                    assert(rest + above =~= below);
                    lemma_fail_below(scopes, rest, above, error);
                    1 + inner
                },
            }
        },
    }
}

/// What running a statement comes to.
pub enum Executed {
    /// The statement has run to its end: the scopes as it left them and the
    /// lines it printed.
    Finished { environment: EnvironmentView, printed: Seq<Seq<char>> },
    /// The statement stopped with an error: the scopes as the statements
    /// around it find them, the blocks inside closed, and the lines printed
    /// before.
    Stopped { environment: EnvironmentView, printed: Seq<Seq<char>>, error: RuntimeErrorView },
}

impl Executed {
    /// The same with `lines` printed before.
    pub open spec fn after(self, lines: Seq<Seq<char>>) -> Executed {
        match self {
            Executed::Finished { environment, printed } => Executed::Finished {
                environment,
                printed: lines + printed,
            },
            Executed::Stopped { environment, printed, error } => Executed::Stopped {
                environment,
                printed: lines + printed,
                error,
            },
        }
    }

    /// The same with the innermost scope closed.
    pub open spec fn left(self) -> Executed {
        match self {
            Executed::Finished { environment, printed } => Executed::Finished {
                environment: environment.leave(),
                printed,
            },
            Executed::Stopped { environment, printed, error } => Executed::Stopped {
                environment: environment.leave(),
                printed,
                error,
            },
        }
    }
}

/// An expression that stopped, as a statement that stopped.
pub open spec fn stopped(environment: EnvironmentView, error: RuntimeErrorView) -> Executed {
    Executed::Stopped { environment, printed: Seq::empty(), error }
}

/// A statement that printed nothing.
pub open spec fn finished(environment: EnvironmentView) -> Executed {
    Executed::Finished { environment, printed: Seq::empty() }
}

/// Printing a value: the host is asked for the writing of a number.
pub open spec fn printing(
    host: spec_fn(ActionView) -> ReplyView,
    environment: EnvironmentView,
    value: ValueView,
) -> Executed {
    let told = answered(host, show(environment, Seq::<Task>::empty(), seq![value]));
    match told.action {
        ActionView::Failed(error) => stopped(environment, error),
        action => Executed::Finished { environment, printed: line_of(action) },
    }
}

/// What a statement comes to in the scopes `environment`, if every loop in
/// it ends within `fuel` rounds: an expression statement evaluates its
/// expression; a print statement prints the value; a declaration binds the
/// value in the innermost scope; a block runs its statements in a scope of
/// its own, which is closed however the block ends; a conditional runs the
/// branch that its condition selects; a loop evaluates its condition and,
/// as long as that is true, runs its body and starts again. The first
/// error ends it.
pub open spec fn execution(
    host: spec_fn(ActionView) -> ReplyView,
    environment: EnvironmentView,
    statement: &Statement,
    fuel: nat,
) -> Option<Executed>
    decreases fuel, statement, 0nat,
{
    match *statement {
        Statement::Expression(it) => match meaning(host, environment, &*it.expression) {
            Meaning::Value { environment: then, value } => Some(finished(then)),
            Meaning::Stopped { environment: then, error } => Some(stopped(then, error)),
        },
        Statement::Print(it) => match meaning(host, environment, &*it.expression) {
            Meaning::Value { environment: then, value } => Some(printing(host, then, value)),
            Meaning::Stopped { environment: then, error } => Some(stopped(then, error)),
        },
        Statement::Variable(it) => match meaning(host, environment, &*it.value) {
            Meaning::Value { environment: then, value } => Some(
                finished(then.define(it.name.value@, value)),
            ),
            Meaning::Stopped { environment: then, error } => Some(stopped(then, error)),
        },
        Statement::Block(it) => match items(host, environment.enter(), &it, 0, fuel) {
            Some(inside) => Some(inside.left()),
            None => None,
        },
        Statement::If(it) => match meaning(host, environment, &*it.condition) {
            Meaning::Value { environment: then, value } => if value.truthy() {
                execution(host, then, &*it.then_branch, fuel)
            } else {
                match it.else_branch {
                    Some(other) => execution(host, then, &*other, fuel),
                    None => Some(finished(then)),
                }
            },
            Meaning::Stopped { environment: then, error } => Some(stopped(then, error)),
        },
        Statement::While(it) => match meaning(host, environment, &*it.condition) {
            Meaning::Value { environment: then, value } => if !value.truthy() {
                Some(finished(then))
            } else if fuel == 0 {
                None
            } else {
                match execution(host, then, &*it.body, fuel) {
                    Some(Executed::Finished { environment: next, printed }) => match execution(
                        host,
                        next,
                        statement,
                        (fuel - 1) as nat,
                    ) {
                        Some(again) => Some(again.after(printed)),
                        None => None,
                    },
                    other => other,
                }
            },
            Meaning::Stopped { environment: then, error } => Some(stopped(then, error)),
        },
    }
}

/// What the statements of a block from the one at `index` on come to, one
/// after the other.
pub open spec fn items(
    host: spec_fn(ActionView) -> ReplyView,
    environment: EnvironmentView,
    block: &BlockStatement,
    index: nat,
    fuel: nat,
) -> Option<Executed>
    decreases fuel, block, block.statements@.len() - index,
{
    if index >= block.statements@.len() {
        Some(finished(environment))
    } else {
        match execution(host, environment, &block.statements@[index as int], fuel) {
            Some(Executed::Finished { environment: next, printed }) => match items(
                host,
                next,
                block,
                index + 1,
                fuel,
            ) {
                Some(rest) => Some(rest.after(printed)),
                None => None,
            },
            other => other,
        }
    }
}

/// Whether the machine has come to what a statement comes to: the tasks
/// behind the statement are left to do and the values are as they were, or
/// the program has stopped.
pub open spec fn arrived<'a>(
    executed: Executed,
    rest: Seq<Task<'a>>,
    values: Seq<ValueView>,
    end: Stepped<'a>,
) -> bool {
    match executed {
        Executed::Finished { environment, printed } => {
            &&& end.environment == environment
            &&& end.run == (RunView { tasks: rest, values, waiting: WaitingView::Nothing })
            &&& !(end.action is Failed)
        },
        Executed::Stopped { environment, printed, error } => end == fail(environment, rest, error),
    }
}

/// The lines that a statement printed.
pub open spec fn lines(executed: Executed) -> Seq<Seq<char>> {
    match executed {
        Executed::Finished { environment, printed } => printed,
        Executed::Stopped { environment, printed, error } => printed,
    }
}

/// From states that differ in nothing but what the last step told, the
/// machine goes the same way, if it waits for no reply.
pub proof fn lemma_same_run<'a>(
    host: spec_fn(ActionView) -> ReplyView,
    one: Stepped<'a>,
    other: Stepped<'a>,
    count: nat,
)
    requires
        one.environment == other.environment,
        one.run == other.run,
        one.run.waiting is Nothing,
        count > 0,
    ensures
        run_with(host, one, count) == run_with(host, other, count),
        printed_with(host, one, count) == printed_with(host, other, count),
    decreases count,
{
    if count == 1 {
        lemma_one_more(host, one, 0);
        lemma_one_more(host, other, 0);
        assert(run_with(host, one, 0) == one);
        assert(run_with(host, other, 0) == other);
        assert(printed_with(host, one, 0) =~= printed_with(host, other, 0));
    } else {
        lemma_same_run(host, one, other, (count - 1) as nat);
    }
}

/// Printing a value with other values and tasks below comes to what
/// printing it alone comes to, and tells the same line.
pub proof fn lemma_show_framed<'a>(
    host: spec_fn(ActionView) -> ReplyView,
    environment: EnvironmentView,
    rest: Seq<Task<'a>>,
    values: Seq<ValueView>,
    value: ValueView,
)
    ensures
        ({
            let told = answered(host, show(environment, rest, values.push(value)));
            &&& arrived(printing(host, environment, value), rest, values, told)
            &&& line_of(told.action) == lines(printing(host, environment, value))
            &&& show(environment, rest, values.push(value)).run.waiting is Nothing || line_of(
                show(environment, rest, values.push(value)).action,
            ) == Seq::<Seq<char>>::empty()
        }),
{
    assert(values.push(value).drop_last() =~= values);
    assert(unwound(environment, Seq::<Task<'a>>::empty()) == environment);
}

/// The machine comes to what the statement comes to: from a state in
/// which the statement is the top task, after the number of steps that
/// this function returns, the scopes are those that `execution` gives, the
/// tasks below and the values are as they were, and the lines that the
/// steps told to print are those that `execution` gives, in their order;
/// or, where the statement stops with an error, the program has stopped
/// with that error, the lines before it printed.
pub proof fn law_execution<'a>(
    host: spec_fn(ActionView) -> ReplyView,
    from: Stepped<'a>,
    rest: Seq<Task<'a>>,
    values: Seq<ValueView>,
    statement: &'a Statement,
    fuel: nat,
) -> (count: nat)
    requires
        from.run == (RunView {
            tasks: rest.push(Task::Execute(statement)),
            values,
            waiting: WaitingView::Nothing,
        }),
        execution(host, from.environment, statement, fuel) is Some,
    ensures
        count > 0,
        arrived(
            execution(host, from.environment, statement, fuel)->0,
            rest,
            values,
            run_with(host, from, count),
        ),
        printed_with(host, from, count) == lines(
            execution(host, from.environment, statement, fuel)->0,
        ),
    decreases fuel, statement, 1nat,
{
    let environment = from.environment;
    let silent = Seq::<Seq<char>>::empty();
    assert(from.run.tasks.drop_last() =~= rest);
    assert(run_with(host, from, 0) == from);
    assert(printed_with(host, from, 0) =~= silent);
    lemma_one_more(host, from, 0);
    let first = run_with(host, from, 1);
    assert(silent + silent =~= silent);
    match *statement {
        Statement::Expression(it) => {
            let below = rest.push(Task::Discard);
            let inner = law_evaluation(host, first, below, values, &*it.expression);
            lemma_more(host, from, 1, inner);
            match meaning(host, environment, &*it.expression) {
                Meaning::Value { environment: then, value } => {
                    lemma_one_more(host, from, 1 + inner);
                    assert(below.drop_last() =~= rest);
                    assert(values.push(value).drop_last() =~= values);
                    1 + inner + 1
                },
                Meaning::Stopped { environment: then, error } => {
                    let above = seq![Task::Discard];
                    assert(rest + above =~= below);
                    lemma_fail_below(then, rest, above, error);
                    1 + inner
                },
            }
        },
        Statement::Print(it) => {
            let below = rest.push(Task::Show);
            let inner = law_evaluation(host, first, below, values, &*it.expression);
            lemma_more(host, from, 1, inner);
            match meaning(host, environment, &*it.expression) {
                Meaning::Value { environment: then, value } => {
                    lemma_one_more(host, from, 1 + inner);
                    assert(below.drop_last() =~= rest);
                    lemma_show_framed(host, then, rest, values, value);
                    let shown = run_with(host, from, 1 + inner + 1);
                    assert(shown == show(then, rest, values.push(value)));
                    if shown.run.waiting is Nothing {
                        assert(silent + line_of(shown.action) =~= line_of(shown.action));
                        1 + inner + 1
                    } else {
                        lemma_one_more(host, from, 1 + inner + 1);
                        let told = run_with(host, from, 1 + inner + 2);
                        assert(silent + line_of(told.action) =~= line_of(told.action));
                        1 + inner + 2
                    }
                },
                Meaning::Stopped { environment: then, error } => {
                    let above = seq![Task::Show];
                    assert(rest + above =~= below);
                    lemma_fail_below(then, rest, above, error);
                    1 + inner
                },
            }
        },
        Statement::Variable(it) => {
            let below = rest.push(Task::Define(&*it.name));
            let inner = law_evaluation(host, first, below, values, &*it.value);
            lemma_more(host, from, 1, inner);
            match meaning(host, environment, &*it.value) {
                Meaning::Value { environment: then, value } => {
                    lemma_one_more(host, from, 1 + inner);
                    assert(below.drop_last() =~= rest);
                    assert(values.push(value).drop_last() =~= values);
                    1 + inner + 1
                },
                Meaning::Stopped { environment: then, error } => {
                    let above = seq![Task::Define(&*it.name)];
                    assert(rest + above =~= below);
                    lemma_fail_below(then, rest, above, error);
                    1 + inner
                },
            }
        },
        Statement::Block(it) => {
            let below = rest.push(Task::Leave);
            let inner = law_items(host, first, below, values, &it, 0, fuel);
            lemma_more(host, from, 1, inner);
            assert(below.drop_last() =~= rest);
            match items(host, environment.enter(), &it, 0, fuel)->0 {
                Executed::Finished { environment: then, printed } => {
                    lemma_one_more(host, from, 1 + inner);
                    assert(printed + silent =~= printed);
                    1 + inner + 1
                },
                Executed::Stopped { environment: then, printed, error } => { 1 + inner },
            }
        },
        Statement::If(it) => lemma_conditional(host, from, rest, values, statement, fuel),
        Statement::While(it) => lemma_loop(host, from, rest, values, statement, fuel),
    }
}

/// The machine comes to what a conditional comes to.
proof fn lemma_conditional<'a>(
    host: spec_fn(ActionView) -> ReplyView,
    from: Stepped<'a>,
    rest: Seq<Task<'a>>,
    values: Seq<ValueView>,
    statement: &'a Statement,
    fuel: nat,
) -> (count: nat)
    requires
        *statement is If,
        from.run == (RunView {
            tasks: rest.push(Task::Execute(statement)),
            values,
            waiting: WaitingView::Nothing,
        }),
        execution(host, from.environment, statement, fuel) is Some,
    ensures
        count > 0,
        arrived(
            execution(host, from.environment, statement, fuel)->0,
            rest,
            values,
            run_with(host, from, count),
        ),
        printed_with(host, from, count) == lines(
            execution(host, from.environment, statement, fuel)->0,
        ),
    decreases fuel, statement, 0nat,
{
    let environment = from.environment;
    let silent = Seq::<Seq<char>>::empty();
    assert(from.run.tasks.drop_last() =~= rest);
    assert(run_with(host, from, 0) == from);
    assert(printed_with(host, from, 0) =~= silent);
    lemma_one_more(host, from, 0);
    let first = run_with(host, from, 1);
    assert(silent + silent =~= silent);
    match *statement {
        Statement::If(it) => {
            let below = rest.push(Task::Branch(&it));
            let inner = law_evaluation(host, first, below, values, &*it.condition);
            lemma_more(host, from, 1, inner);
            match meaning(host, environment, &*it.condition) {
                Meaning::Value { environment: then, value } => {
                    lemma_one_more(host, from, 1 + inner);
                    assert(below.drop_last() =~= rest);
                    assert(values.push(value).drop_last() =~= values);
                    let chosen = run_with(host, from, 1 + inner + 1);
                    if value.truthy() {
                        let branch = law_execution(
                            host,
                            chosen,
                            rest,
                            values,
                            &*it.then_branch,
                            fuel,
                        );
                        lemma_more(host, from, 1 + inner + 1, branch);
                        assert(silent + printed_with(host, chosen, branch) =~= printed_with(
                            host,
                            chosen,
                            branch,
                        ));
                        1 + inner + 1 + branch
                    } else {
                        match it.else_branch {
                            Some(other) => {
                                let branch = law_execution(
                                    host,
                                    chosen,
                                    rest,
                                    values,
                                    &*other,
                                    fuel,
                                );
                                lemma_more(host, from, 1 + inner + 1, branch);
                                assert(silent + printed_with(host, chosen, branch)
                                    =~= printed_with(host, chosen, branch));
                                1 + inner + 1 + branch
                            },
                            None => { 1 + inner + 1 },
                        }
                    }
                },
                Meaning::Stopped { environment: then, error } => {
                    let above = seq![Task::Branch(&it)];
                    assert(rest + above =~= below);
                    lemma_fail_below(then, rest, above, error);
                    1 + inner
                },
            }
        },
        _ => { 1 },
    }
}

/// The machine comes to what a loop comes to.
proof fn lemma_loop<'a>(
    host: spec_fn(ActionView) -> ReplyView,
    from: Stepped<'a>,
    rest: Seq<Task<'a>>,
    values: Seq<ValueView>,
    statement: &'a Statement,
    fuel: nat,
) -> (count: nat)
    requires
        *statement is While,
        from.run == (RunView {
            tasks: rest.push(Task::Execute(statement)),
            values,
            waiting: WaitingView::Nothing,
        }),
        execution(host, from.environment, statement, fuel) is Some,
    ensures
        count > 0,
        arrived(
            execution(host, from.environment, statement, fuel)->0,
            rest,
            values,
            run_with(host, from, count),
        ),
        printed_with(host, from, count) == lines(
            execution(host, from.environment, statement, fuel)->0,
        ),
    decreases fuel, statement, 0nat,
{
    let environment = from.environment;
    let silent = Seq::<Seq<char>>::empty();
    assert(from.run.tasks.drop_last() =~= rest);
    assert(run_with(host, from, 0) == from);
    assert(printed_with(host, from, 0) =~= silent);
    lemma_one_more(host, from, 0);
    let first = run_with(host, from, 1);
    assert(silent + silent =~= silent);
    match *statement {
        Statement::While(it) => {
            let below = rest.push(Task::Loop(&it));
            let inner = law_evaluation(host, first, below, values, &*it.condition);
            lemma_more(host, from, 1, inner);
            match meaning(host, environment, &*it.condition) {
                Meaning::Value { environment: then, value } => {
                    lemma_one_more(host, from, 1 + inner);
                    assert(below.drop_last() =~= rest);
                    assert(values.push(value).drop_last() =~= values);
                    let decided = run_with(host, from, 1 + inner + 1);
                    if !value.truthy() {
                        1 + inner + 1
                    } else {
                        let around = below.push(Task::Evaluate(&*it.condition));
                        let body = law_execution(host, decided, around, values, &*it.body, fuel);
                        lemma_more(host, from, 1 + inner + 1, body);
                        let back = run_with(host, from, 1 + inner + 1 + body);
                        assert(silent + printed_with(host, decided, body) =~= printed_with(
                            host,
                            decided,
                            body,
                        ));
                        match execution(host, then, &*it.body, fuel)->0 {
                            Executed::Finished { environment: next, printed } => {
                                let again = Stepped {
                                    environment: next,
                                    run: RunView {
                                        tasks: rest.push(Task::Execute(statement)),
                                        values,
                                        waiting: WaitingView::Nothing,
                                    },
                                    action: ActionView::Continue,
                                };
                                let round = law_execution(
                                    host,
                                    again,
                                    rest,
                                    values,
                                    statement,
                                    (fuel - 1) as nat,
                                );
                                lemma_one_more(host, again, 0);
                                assert(run_with(host, again, 0) == again);
                                assert(printed_with(host, again, 0) =~= silent);
                                assert(again.run.tasks.drop_last() =~= rest);
                                let entered = run_with(host, again, 1);
                                assert(entered.run == back.run);
                                assert(entered.environment == back.environment);
                                assert(round > 1);
                                lemma_more(host, again, 1, (round - 1) as nat);
                                lemma_same_run(host, entered, back, (round - 1) as nat);
                                lemma_more(host, from, 1 + inner + 1 + body, (round - 1) as nat);
                                assert(silent + printed_with(host, entered, (round - 1) as nat)
                                    =~= printed_with(host, entered, (round - 1) as nat));
                                1 + inner + 1 + body + (round - 1) as nat
                            },
                            Executed::Stopped { environment: next, printed, error } => {
                                let above = seq![Task::Loop(&it), Task::Evaluate(&*it.condition)];
                                assert(rest + above =~= around);
                                lemma_fail_below(next, rest, above, error);
                                1 + inner + 1 + body
                            },
                        }
                    }
                },
                Meaning::Stopped { environment: then, error } => {
                    let above = seq![Task::Loop(&it)];
                    assert(rest + above =~= below);
                    lemma_fail_below(then, rest, above, error);
                    1 + inner
                },
            }
        },
        _ => { 1 },
    }
}

/// The machine comes to what the statements of a block come to, from the
/// one at `index` on.
pub proof fn law_items<'a>(
    host: spec_fn(ActionView) -> ReplyView,
    from: Stepped<'a>,
    rest: Seq<Task<'a>>,
    values: Seq<ValueView>,
    block: &'a BlockStatement,
    index: usize,
    fuel: nat,
) -> (count: nat)
    requires
        from.run == (RunView {
            tasks: rest.push(Task::Sequence(block, index)),
            values,
            waiting: WaitingView::Nothing,
        }),
        items(host, from.environment, block, index as nat, fuel) is Some,
    ensures
        count > 0,
        arrived(
            items(host, from.environment, block, index as nat, fuel)->0,
            rest,
            values,
            run_with(host, from, count),
        ),
        printed_with(host, from, count) == lines(
            items(host, from.environment, block, index as nat, fuel)->0,
        ),
    decreases fuel, block, block.statements@.len() - index,
{
    let environment = from.environment;
    let silent = Seq::<Seq<char>>::empty();
    assert(from.run.tasks.drop_last() =~= rest);
    assert(run_with(host, from, 0) == from);
    assert(printed_with(host, from, 0) =~= silent);
    lemma_one_more(host, from, 0);
    let first = run_with(host, from, 1);
    assert(silent + silent =~= silent);
    if index < block.statements@.len() {
        assert(block.statements.len() == block.statements@.len());
        let below = rest.push(Task::Sequence(block, (index + 1) as usize));
        let one = law_execution(
            host,
            first,
            below,
            values,
            &block.statements@[index as int],
            fuel,
        );
        lemma_more(host, from, 1, one);
        let between = run_with(host, from, 1 + one);
        assert(silent + printed_with(host, first, one) =~= printed_with(host, first, one));
        match execution(host, environment, &block.statements@[index as int], fuel)->0 {
            Executed::Finished { environment: next, printed } => {
                let others = law_items(
                    host,
                    between,
                    rest,
                    values,
                    block,
                    (index + 1) as usize,
                    fuel,
                );
                lemma_more(host, from, 1 + one, others);
                1 + one + others
            },
            Executed::Stopped { environment: next, printed, error } => {
                let above = seq![Task::Sequence(block, (index + 1) as usize)];
                assert(rest + above =~= below);
                lemma_fail_below(next, rest, above, error);
                1 + one
            },
        }
    } else {
        1
    }
}

} // verus!
