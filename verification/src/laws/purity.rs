use crate::ast::Expr;
use crate::environment::EnvironmentView;
use crate::laws::{fresh, run_steps};
use crate::machine::{step, unwound, ActionView, ReplyView, RunView, Task};
use crate::meaning::{meaning, Meaning};
use vstd::prelude::*;

verus! {

/// An expression without side effects: one that holds no assignment.
pub open spec fn pure(expression: &Expr) -> bool
    decreases expression,
{
    match *expression {
        Expr::Literal(_) => true,
        Expr::Variable(_) => true,
        Expr::Grouping(it) => pure(&*it.expression),
        Expr::Unary(it) => pure(&*it.right),
        Expr::Binary(it) => pure(&*it.left) && pure(&*it.right),
        Expr::Logical(it) => pure(&*it.left) && pure(&*it.right),
        Expr::Assignment(_) => false,
    }
}

/// A task that the evaluation of an expression without side effects puts on
/// the tasks.
pub open spec fn pure_task<'a>(task: Task<'a>) -> bool {
    match task {
        Task::Evaluate(expression) => pure(expression),
        Task::Unary(_) => true,
        Task::Binary(_) => true,
        Task::Choose(logical) => pure(&*logical.right),
        _ => false,
    }
}

/// A run all of whose tasks are such tasks.
pub open spec fn pure_run<'a>(run: RunView<'a>) -> bool {
    forall|i: int| 0 <= i < run.tasks.len() ==> pure_task(#[trigger] run.tasks[i])
}

/// Where no task closes a scope, stopping the program leaves the scopes as
/// they are.
pub proof fn lemma_unwound_pure<'a>(environment: EnvironmentView, tasks: Seq<Task<'a>>)
    requires
        forall|i: int| 0 <= i < tasks.len() ==> !(#[trigger] tasks[i] is Leave),
    ensures
        unwound(environment, tasks) == environment,
    decreases tasks.len(),
{
    if tasks.len() > 0 {
        assert(!(tasks[tasks.len() - 1] is Leave));
        lemma_unwound_pure(environment, tasks.drop_last());
    }
}

/// A step of a run without side effects leaves the scopes and their
/// bindings exactly as they are, and the run stays without side effects.
pub proof fn law_pure_step<'a>(environment: EnvironmentView, run: RunView<'a>, reply: ReplyView)
    requires
        pure_run(run),
    ensures
        step(environment, run, reply).environment == environment,
        pure_run(step(environment, run, reply).run),
{
    let after = step(environment, run, reply);
    assert forall|i: int| 0 <= i < run.tasks.len() implies !(#[trigger] run.tasks[i] is Leave) by {
        assert(pure_task(run.tasks[i]));
    }
    lemma_unwound_pure(environment, run.tasks);
    if run.waiting is Nothing && run.tasks.len() > 0 {
        let below = run.tasks.drop_last();
        let task = run.tasks.last();
        assert(pure_task(task));
        assert forall|i: int| 0 <= i < below.len() implies pure_task(#[trigger] below[i]) && !(
        below[i] is Leave) by {
            assert(below[i] == run.tasks[i]);
            assert(pure_task(run.tasks[i]));
        }
        lemma_unwound_pure(environment, below);
        match task {
            Task::Evaluate(expression) => {
                match *expression {
                    Expr::Grouping(it) => {
                        lemma_pure_pushed(below, seq![Task::Evaluate(&*it.expression)]);
                        assert(after.run.tasks =~= below + seq![Task::Evaluate(&*it.expression)]);
                    },
                    Expr::Unary(it) => {
                        let added = seq![Task::Unary(&*it.operator), Task::Evaluate(&*it.right)];
                        lemma_pure_pushed(below, added);
                        assert(after.run.tasks =~= below + added);
                    },
                    Expr::Binary(it) => {
                        let added = seq![
                            Task::Binary(&*it.operator),
                            Task::Evaluate(&*it.right),
                            Task::Evaluate(&*it.left),
                        ];
                        lemma_pure_pushed(below, added);
                        assert(after.run.tasks =~= below + added);
                    },
                    Expr::Logical(it) => {
                        let added = seq![Task::Choose(&it), Task::Evaluate(&*it.left)];
                        lemma_pure_pushed(below, added);
                        assert(after.run.tasks =~= below + added);
                    },
                    _ => {},
                }
            },
            Task::Choose(logical) => {
                lemma_pure_pushed(below, seq![Task::Evaluate(&*logical.right)]);
                assert(below.push(Task::Evaluate(&*logical.right)) =~= below + seq![
                    Task::Evaluate(&*logical.right),
                ]);
            },
            _ => {},
        }
    }
}

/// Tasks without side effects on tasks without side effects are tasks
/// without side effects.
pub proof fn lemma_pure_pushed<'a>(below: Seq<Task<'a>>, added: Seq<Task<'a>>)
    requires
        forall|i: int| 0 <= i < below.len() ==> pure_task(#[trigger] below[i]),
        forall|i: int| 0 <= i < added.len() ==> pure_task(#[trigger] added[i]),
    ensures
        forall|i: int| 0 <= i < (below + added).len() ==> pure_task(#[trigger] (below + added)[i]),
{
    assert forall|i: int| 0 <= i < (below + added).len() implies pure_task(
        #[trigger] (below + added)[i],
    ) by {
        if i < below.len() {
            assert((below + added)[i] == below[i]);
        } else {
            assert((below + added)[i] == added[i - below.len()]);
        }
    }
}

/// The evaluation of an expression without side effects never changes a
/// scope or a binding, whatever the host replies and however far the
/// evaluation has come.
pub proof fn law_pure_evaluation_keeps_environment<'a>(
    environment: EnvironmentView,
    expression: &'a Expr,
    replies: Seq<ReplyView>,
)
    requires
        pure(expression),
    ensures
        run_steps(environment, fresh(Task::Evaluate(expression)), replies).environment
            == environment,
        pure_run(run_steps(environment, fresh(Task::Evaluate(expression)), replies).run),
    decreases replies.len(),
{
    let start = fresh(Task::Evaluate(expression));
    if replies.len() > 0 {
        law_pure_evaluation_keeps_environment(environment, expression, replies.drop_last());
        let before = run_steps(environment, start, replies.drop_last());
        law_pure_step(before.environment, before.run, replies.last());
    }
}

/// Two evaluations of an expression without side effects, one after the
/// other in the same scopes, to which the host gives the same replies, go
/// through the same states and end with the same value: the first leaves
/// the scopes as it found them, so the second starts where the first
/// started.
pub proof fn law_pure_evaluation_repeats<'a>(
    environment: EnvironmentView,
    expression: &'a Expr,
    replies: Seq<ReplyView>,
)
    requires
        pure(expression),
    ensures
        ({
            let first = run_steps(environment, fresh(Task::Evaluate(expression)), replies);
            let second = run_steps(
                first.environment,
                fresh(Task::Evaluate(expression)),
                replies,
            );
            second == first
        }),
{
    law_pure_evaluation_keeps_environment(environment, expression, replies);
}

/// What an expression without side effects comes to, it comes to in the
/// scopes it was evaluated in: they are the same behind it, bindings and
/// values, whether it gives a value or stops. So a second evaluation finds
/// what the first one found, and comes to the same.
pub proof fn law_pure_meaning(
    host: spec_fn(ActionView) -> ReplyView,
    environment: EnvironmentView,
    expression: &Expr,
)
    requires
        pure(expression),
    ensures
        match meaning(host, environment, expression) {
            Meaning::Value { environment: then, value } => then == environment,
            Meaning::Stopped { environment: then, error } => then == environment,
        },
    decreases expression,
{
    let nothing = Seq::<Task>::empty();
    assert(unwound(environment, nothing) == environment);
    match *expression {
        Expr::Grouping(it) => {
            law_pure_meaning(host, environment, &*it.expression);
        },
        Expr::Unary(it) => {
            law_pure_meaning(host, environment, &*it.right);
        },
        Expr::Binary(it) => {
            law_pure_meaning(host, environment, &*it.left);
            law_pure_meaning(host, environment, &*it.right);
        },
        Expr::Logical(it) => {
            law_pure_meaning(host, environment, &*it.left);
            law_pure_meaning(host, environment, &*it.right);
        },
        _ => {},
    }
}

} // verus!
