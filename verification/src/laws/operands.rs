use crate::ast::{Expr, Statement};
use crate::environment::EnvironmentView;
use crate::laws::{fresh, run_steps};
use crate::machine::{evaluate, execute, step, ReplyView, RunView, Task};
use crate::value::ValueView;
use vstd::prelude::*;

verus! {

/// How many values a task takes off the values.
pub open spec fn takes<'a>(task: Task<'a>) -> nat {
    match task {
        Task::Binary(_) => 2,
        Task::Unary(_) => 1,
        Task::Choose(_) => 1,
        Task::Store(_) => 1,
        Task::Discard => 1,
        Task::Show => 1,
        Task::Define(_) => 1,
        Task::Branch(_) => 1,
        Task::Loop(_) => 1,
        _ => 0,
    }
}

/// How many values a task has put on the values when it and all that it
/// put on the tasks is done.
pub open spec fn gives<'a>(task: Task<'a>) -> nat {
    match task {
        Task::Evaluate(_) => 1,
        Task::Unary(_) => 1,
        Task::Binary(_) => 1,
        Task::Choose(_) => 1,
        Task::Store(_) => 1,
        _ => 0,
    }
}

/// Whether every task, from the top one down, will find the values it
/// takes, when `have` values are there now.
pub open spec fn supplied<'a>(tasks: Seq<Task<'a>>, have: int) -> bool
    decreases tasks.len(),
{
    tasks.len() == 0 || (have >= takes(tasks.last()) && supplied(
        tasks.drop_last(),
        have - takes(tasks.last()) + gives(tasks.last()),
    ))
}

/// A run in which no task will lack a value: the number that the run waits
/// for counts as there. A run that waits for the text of an error has
/// nothing more to do but to stop.
pub open spec fn in_order<'a>(run: RunView<'a>) -> bool {
    run.waiting is ErrorText || supplied(
        run.tasks,
        run.values.len() + if run.waiting is Number {
            1int
        } else {
            0int
        },
    )
}

/// Tasks that together take nothing and give `more` values, put on tasks
/// that are supplied once those values are there, are supplied.
proof fn lemma_supplied_pushed<'a>(
    below: Seq<Task<'a>>,
    added: Seq<Task<'a>>,
    have: int,
    more: int,
)
    requires
        added.len() <= 3,
        supplied(below, have + more),
        supplied(added, have),
        more == (if added.len() > 0 {
            gives(added[added.len() - 1]) - takes(added[added.len() - 1])
        } else {
            0
        }) + (if added.len() > 1 {
            gives(added[added.len() - 2]) - takes(added[added.len() - 2])
        } else {
            0
        }) + (if added.len() > 2 {
            gives(added[added.len() - 3]) - takes(added[added.len() - 3])
        } else {
            0
        }),
    ensures
        supplied(below + added, have),
    decreases added.len(),
{
    if added.len() == 0 {
        assert(below + added =~= below);
    } else {
        let top_task = added.last();
        let shorter = added.drop_last();
        assert((below + added).drop_last() =~= below + shorter);
        assert((below + added).last() == top_task);
        let next = have - takes(top_task) + gives(top_task);
        lemma_supplied_pushed(below, shorter, next, more - (gives(top_task) - takes(top_task)));
    }
}

/// A run that begins with one statement or one expression is in order.
pub proof fn law_fresh_run_in_order<'a>(task: Task<'a>)
    requires
        task is Execute || task is Evaluate,
    ensures
        in_order(fresh(task)),
{
    let run = fresh(task);
    assert(run.tasks.drop_last().len() == 0);
    assert(supplied(run.tasks.drop_last(), gives(task) as int));
}

/// Starting on an expression leaves a run in order.
proof fn lemma_values_evaluate<'a>(
    environment: EnvironmentView,
    below: Seq<Task<'a>>,
    values: Seq<ValueView>,
    expression: &'a Expr,
)
    requires
        supplied(below, values.len() as int + 1),
    ensures
        in_order(evaluate(environment, below, values, expression).run),
{
    let after = evaluate(environment, below, values, expression);
    let have = values.len() as int;
    let none = Seq::<Task<'a>>::empty();
    assert(supplied(none, 0));
    match *expression {
        Expr::Grouping(it) => {
            let added = seq![Task::Evaluate(&*it.expression)];
            lemma_supplied_few(added, have);
            lemma_supplied_pushed(below, added, have, 1);
            assert(after.run.tasks =~= below + added);
        },
        Expr::Unary(it) => {
            let added = seq![Task::Unary(&*it.operator), Task::Evaluate(&*it.right)];
            lemma_supplied_few(added, have);
            lemma_supplied_pushed(below, added, have, 1);
            assert(after.run.tasks =~= below + added);
        },
        Expr::Binary(it) => {
            let added = seq![
                Task::Binary(&*it.operator),
                Task::Evaluate(&*it.right),
                Task::Evaluate(&*it.left),
            ];
            lemma_supplied_few(added, have);
            lemma_supplied_pushed(below, added, have, 1);
            assert(after.run.tasks =~= below + added);
        },
        Expr::Logical(it) => {
            let added = seq![Task::Choose(&it), Task::Evaluate(&*it.left)];
            lemma_supplied_few(added, have);
            lemma_supplied_pushed(below, added, have, 1);
            assert(after.run.tasks =~= below + added);
        },
        Expr::Assignment(it) => {
            let added = seq![Task::Store(&*it.name), Task::Evaluate(&*it.value)];
            lemma_supplied_few(added, have);
            lemma_supplied_pushed(below, added, have, 1);
            assert(after.run.tasks =~= below + added);
        },
        _ => {},
    }
}

/// Starting on a statement leaves a run in order.
proof fn lemma_values_execute<'a>(
    environment: EnvironmentView,
    below: Seq<Task<'a>>,
    values: Seq<ValueView>,
    statement: &'a Statement,
)
    requires
        supplied(below, values.len() as int),
    ensures
        in_order(execute(environment, below, values, statement).run),
{
    let after = execute(environment, below, values, statement);
    let have = values.len() as int;
    match *statement {
        Statement::Expression(it) => {
            let added = seq![Task::Discard, Task::Evaluate(&*it.expression)];
            lemma_supplied_few(added, have);
            lemma_supplied_pushed(below, added, have, 0);
            assert(after.run.tasks =~= below + added);
        },
        Statement::Print(it) => {
            let added = seq![Task::Show, Task::Evaluate(&*it.expression)];
            lemma_supplied_few(added, have);
            lemma_supplied_pushed(below, added, have, 0);
            assert(after.run.tasks =~= below + added);
        },
        Statement::Variable(it) => {
            let added = seq![Task::Define(&*it.name), Task::Evaluate(&*it.value)];
            lemma_supplied_few(added, have);
            lemma_supplied_pushed(below, added, have, 0);
            assert(after.run.tasks =~= below + added);
        },
        Statement::Block(it) => {
            let added = seq![Task::Leave, Task::Sequence(&it, 0)];
            lemma_supplied_few(added, have);
            lemma_supplied_pushed(below, added, have, 0);
            assert(after.run.tasks =~= below + added);
        },
        Statement::If(it) => {
            let added = seq![Task::Branch(&it), Task::Evaluate(&*it.condition)];
            lemma_supplied_few(added, have);
            lemma_supplied_pushed(below, added, have, 0);
            assert(after.run.tasks =~= below + added);
        },
        Statement::While(it) => {
            let added = seq![Task::Loop(&it), Task::Evaluate(&*it.condition)];
            lemma_supplied_few(added, have);
            lemma_supplied_pushed(below, added, have, 0);
            assert(after.run.tasks =~= below + added);
        },
    }
}

/// In a run that is in order the top task finds the values it takes, and
/// the step leaves a run that is in order: the machine never reaches for a
/// value that is not there.
pub proof fn law_values_are_there<'a>(
    environment: EnvironmentView,
    run: RunView<'a>,
    reply: ReplyView,
)
    requires
        in_order(run),
    ensures
        run.waiting is Nothing && run.tasks.len() > 0 ==> run.values.len() >= takes(
            run.tasks.last(),
        ),
        in_order(step(environment, run, reply).run),
{
    let after = step(environment, run, reply);
    let none = Seq::<Task<'a>>::empty();
    assert(supplied(none, 0));
    if !(run.waiting is Nothing) {
    } else if run.tasks.len() > 0 {
        let below = run.tasks.drop_last();
        let task = run.tasks.last();
        let have = run.values.len() as int;
        let next = have - takes(task) + gives(task);
        assert(supplied(below, next));
        assert(below + none =~= below);
        match task {
            Task::Evaluate(expression) => {
                lemma_values_evaluate(environment, below, run.values, expression);
            },
            Task::Choose(logical) => {
                let added = seq![Task::Evaluate(&*logical.right)];
                lemma_supplied_few(added, have - 1);
                lemma_supplied_pushed(below, added, have - 1, 1);
                assert(below.push(Task::Evaluate(&*logical.right)) =~= below + added);
            },
            Task::Execute(statement) => {
                lemma_values_execute(environment, below, run.values, statement);
            },
            Task::Sequence(block, index) => {
                if index < block.statements@.len() {
                    let added = seq![
                        Task::Sequence(block, (index + 1) as usize),
                        Task::Execute(&block.statements@[index as int]),
                    ];
                    lemma_supplied_few(added, have);
                    lemma_supplied_pushed(below, added, have, 0);
                    assert(after.run.tasks =~= below + added);
                }
            },
            Task::Branch(conditional) => {
                let then = seq![Task::Execute(&*conditional.then_branch)];
                lemma_supplied_few(then, have - 1);
                lemma_supplied_pushed(below, then, have - 1, 0);
                assert(below.push(Task::Execute(&*conditional.then_branch)) =~= below + then);
                match conditional.else_branch {
                    Some(other) => {
                        let otherwise = seq![Task::Execute(&*other)];
                        lemma_supplied_few(otherwise, have - 1);
                        lemma_supplied_pushed(below, otherwise, have - 1, 0);
                        assert(below.push(Task::Execute(&*other)) =~= below + otherwise);
                    },
                    None => {},
                }
            },
            Task::Loop(looping) => {
                let added = seq![
                    Task::Loop(looping),
                    Task::Evaluate(&*looping.condition),
                    Task::Execute(&*looping.body),
                ];
                lemma_supplied_few(added, have - 1);
                lemma_supplied_pushed(below, added, have - 1, 0);
                assert(after.run.tasks =~= below + added || after.run.tasks == below);
            },
            _ => {},
        }
    }
}

/// Up to three tasks are supplied when each finds what it takes.
proof fn lemma_supplied_few<'a>(tasks: Seq<Task<'a>>, have: int)
    requires
        0 < tasks.len() <= 3,
        have >= takes(tasks.last()),
        tasks.len() > 1 ==> have - takes(tasks.last()) + gives(tasks.last()) >= takes(
            tasks[tasks.len() - 2],
        ),
        tasks.len() > 2 ==> have - takes(tasks.last()) + gives(tasks.last()) - takes(
            tasks[tasks.len() - 2],
        ) + gives(tasks[tasks.len() - 2]) >= takes(tasks[0]),
    ensures
        supplied(tasks, have),
{
    reveal_with_fuel(supplied, 4);
    let two = tasks.drop_last();
    if two.len() > 0 {
        let one = two.drop_last();
        assert(two.last() == tasks[tasks.len() - 2]);
        if one.len() > 0 {
            assert(one.last() == tasks[0]);
            assert(one.drop_last().len() == 0);
        }
    }
}

/// However far a run that began with one statement or one expression has
/// come, it is in order.
pub proof fn law_runs_stay_in_order<'a>(
    environment: EnvironmentView,
    task: Task<'a>,
    replies: Seq<ReplyView>,
)
    requires
        task is Execute || task is Evaluate,
    ensures
        in_order(run_steps(environment, fresh(task), replies).run),
    decreases replies.len(),
{
    law_fresh_run_in_order(task);
    if replies.len() > 0 {
        law_runs_stay_in_order(environment, task, replies.drop_last());
        let before = run_steps(environment, fresh(task), replies.drop_last());
        law_values_are_there(before.environment, before.run, replies.last());
    }
}

} // verus!
