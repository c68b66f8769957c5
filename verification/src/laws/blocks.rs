use crate::ast::{Expr, Statement};
use crate::environment::{
    lemma_assign_well_formed, lemma_define_well_formed, lemma_enter_well_formed,
    lemma_leave_well_formed, lemma_position, EnvironmentView,
};
use crate::laws::run_steps;
use crate::machine::{perform, step, top, unwound, ReplyView, RunView, Stepped, Task, WaitingView};
use crate::value::ValueView;
use vstd::prelude::*;

verus! {

/// How many of the tasks close a scope.
pub open spec fn leaves<'a>(tasks: Seq<Task<'a>>) -> nat
    decreases tasks.len(),
{
    if tasks.len() == 0 {
        0
    } else {
        leaves(tasks.drop_last()) + if tasks.last() is Leave {
            1nat
        } else {
            0nat
        }
    }
}

/// The scopes and the names of `outer` are still there in `now`, each in
/// its place; what `now` has more lies above them.
pub open spec fn keeps(outer: EnvironmentView, now: EnvironmentView) -> bool {
    &&& outer.marks.len() <= now.marks.len()
    &&& now.marks.subrange(0, outer.marks.len() as int) == outer.marks
    &&& outer.bindings.len() <= now.bindings.len()
    &&& now.names().subrange(0, outer.bindings.len() as int) == outer.names()
}

/// The same scopes with the same names in them; the values may differ.
pub open spec fn same_shape(one: EnvironmentView, other: EnvironmentView) -> bool {
    one.marks == other.marks && one.names() == other.names()
}

/// The machine is inside a block that was entered in the scopes `outer`
/// with the tasks `rest` waiting behind it: the closing of the block lies
/// right on `rest`, the scope of the block is open on those of `outer`, and
/// every scope above it has its closing among the tasks above.
pub open spec fn inside<'a>(
    outer: EnvironmentView,
    rest: Seq<Task<'a>>,
    environment: EnvironmentView,
    tasks: Seq<Task<'a>>,
) -> bool {
    &&& environment.well_formed()
    &&& tasks.len() > rest.len()
    &&& tasks.subrange(0, rest.len() as int + 1) == rest.push(Task::Leave)
    &&& keeps(outer, environment)
    &&& environment.marks.len() == outer.marks.len() + 1 + leaves(
        tasks.subrange(rest.len() as int + 1, tasks.len() as int),
    )
    &&& environment.marks[outer.marks.len() as int] == outer.bindings.len()
}

/// The closings among two lists of tasks, one on the other.
pub proof fn lemma_leaves_joined<'a>(below: Seq<Task<'a>>, above: Seq<Task<'a>>)
    ensures
        leaves(below + above) == leaves(below) + leaves(above),
    decreases above.len(),
{
    if above.len() == 0 {
        assert(below + above =~= below);
    } else {
        lemma_leaves_joined(below, above.drop_last());
        assert((below + above).drop_last() =~= below + above.drop_last());
    }
}

/// Closing the scopes of the same tasks in scopes of the same shape gives
/// scopes of the same shape.
pub proof fn lemma_unwound_same_shape<'a>(
    one: EnvironmentView,
    other: EnvironmentView,
    tasks: Seq<Task<'a>>,
)
    requires
        same_shape(one, other),
        one.well_formed(),
        other.well_formed(),
    ensures
        same_shape(unwound(one, tasks), unwound(other, tasks)),
    decreases tasks.len(),
{
    if tasks.len() > 0 {
        if tasks.last() is Leave {
            lemma_leave_well_formed(one);
            lemma_leave_well_formed(other);
            assert(one.bindings.len() == one.names().len());
            assert(other.bindings.len() == other.names().len());
            if one.marks.len() > 0 {
                let mark = one.marks.last() as int;
                assert(one.leave().names() =~= one.names().subrange(0, mark));
                assert(other.leave().names() =~= other.names().subrange(0, mark));
            }
            lemma_unwound_same_shape(one.leave(), other.leave(), tasks.drop_last());
        } else {
            lemma_unwound_same_shape(one, other, tasks.drop_last());
        }
    }
}

/// Leaving the scope of the block itself gives back the scopes of `outer`,
/// with the names they had.
pub proof fn lemma_leave_block(outer: EnvironmentView, environment: EnvironmentView)
    requires
        environment.well_formed(),
        keeps(outer, environment),
        environment.marks.len() == outer.marks.len() + 1,
        environment.marks[outer.marks.len() as int] == outer.bindings.len(),
    ensures
        same_shape(outer, environment.leave()),
        environment.leave().well_formed(),
{
    let left = environment.leave();
    lemma_leave_well_formed(environment);
    assert(left.marks =~= environment.marks.subrange(0, outer.marks.len() as int));
    assert(left.names() =~= environment.names().subrange(0, outer.bindings.len() as int));
}

/// Leaving a scope above that of the block keeps what `outer` had.
pub proof fn lemma_leave_inner(outer: EnvironmentView, environment: EnvironmentView)
    requires
        environment.well_formed(),
        keeps(outer, environment),
        environment.marks.len() > outer.marks.len() + 1,
        environment.marks[outer.marks.len() as int] == outer.bindings.len(),
    ensures
        keeps(outer, environment.leave()),
        environment.leave().well_formed(),
        environment.leave().marks.len() == environment.marks.len() - 1,
        environment.leave().marks[outer.marks.len() as int] == outer.bindings.len(),
{
    let left = environment.leave();
    let mark = environment.marks.last();
    assert(environment.marks[outer.marks.len() as int] <= environment.marks[environment.marks.len()
        - 1]);
    assert(left.marks.subrange(0, outer.marks.len() as int) =~= environment.marks.subrange(
        0,
        outer.marks.len() as int,
    ));
    assert(left.names().subrange(0, outer.bindings.len() as int) =~= environment.names().subrange(
        0,
        outer.bindings.len() as int,
    ));
    lemma_leave_well_formed(environment);
}

/// When the program stops inside the block, closing the scopes that are
/// open gives the scopes that stopping it before the block would have
/// given, with the same names.
pub proof fn lemma_unwound_inside<'a>(
    outer: EnvironmentView,
    rest: Seq<Task<'a>>,
    environment: EnvironmentView,
    tasks: Seq<Task<'a>>,
)
    requires
        outer.well_formed(),
        inside(outer, rest, environment, tasks),
    ensures
        same_shape(unwound(outer, rest), unwound(environment, tasks)),
    decreases tasks.len(),
{
    let base = rest.len() as int + 1;
    let above = tasks.subrange(base, tasks.len() as int);
    let below = tasks.drop_last();
    assert(tasks.subrange(0, base)[base - 1] == rest.push(Task::Leave)[base - 1]);
    if tasks.len() == base {
        assert(above =~= Seq::<Task<'a>>::empty());
        assert(tasks.last() is Leave);
        assert(below =~= rest);
        lemma_leave_block(outer, environment);
        lemma_unwound_same_shape(outer, environment.leave(), rest);
    } else {
        assert(above.drop_last() =~= below.subrange(base, below.len() as int));
        assert(above.last() == tasks.last());
        assert(below.subrange(0, base) =~= tasks.subrange(0, base));
        if tasks.last() is Leave {
            lemma_leave_inner(outer, environment);
            lemma_unwound_inside(outer, rest, environment.leave(), below);
        } else {
            lemma_unwound_inside(outer, rest, environment, below);
        }
    }
}

/// Entering a block puts the machine inside it.
pub proof fn law_block_opens<'a>(
    outer: EnvironmentView,
    rest: Seq<Task<'a>>,
    values: Seq<ValueView>,
    block: &'a Statement,
)
    requires
        outer.well_formed(),
        *block is Block,
    ensures
        ({
            let entered = perform(outer, rest, values, Task::Execute(block));
            inside(outer, rest, entered.environment, entered.run.tasks)
        }),
{
    let entered = perform(outer, rest, values, Task::Execute(block));
    let tasks = entered.run.tasks;
    let above = tasks.subrange(rest.len() as int + 1, tasks.len() as int);
    assert(tasks.subrange(0, rest.len() as int + 1) =~= rest.push(Task::Leave));
    assert(above.drop_last() =~= Seq::<Task<'a>>::empty());
    assert(leaves(above.drop_last()) == 0);
    assert(!(above.last() is Leave));
    let now = entered.environment;
    lemma_enter_well_formed(outer);
    assert(now.marks.subrange(0, outer.marks.len() as int) =~= outer.marks);
    assert(now.names().subrange(0, outer.bindings.len() as int) =~= outer.names());
}

/// The block has been left: the tasks behind it are what is left to do, and
/// the scopes are those of `outer` with the names they had.
pub open spec fn left_block<'a>(
    outer: EnvironmentView,
    rest: Seq<Task<'a>>,
    after: Stepped<'a>,
) -> bool {
    &&& after.run.tasks == rest
    &&& after.environment.well_formed()
    &&& same_shape(outer, after.environment)
}

/// The program has stopped: nothing is left to do, and the scopes are those
/// that stopping it before the block would have left, with the same names.
pub open spec fn stopped_in_block<'a>(
    outer: EnvironmentView,
    rest: Seq<Task<'a>>,
    after: Stepped<'a>,
) -> bool {
    &&& after.action is Failed
    &&& after.run.tasks.len() == 0
    &&& same_shape(unwound(outer, rest), after.environment)
}

/// The tasks of an unfinished block with other tasks in the place of the
/// top one are the tasks of an unfinished block, if the closings among them
/// still match the scopes.
proof fn lemma_inside_replaced<'a>(
    outer: EnvironmentView,
    rest: Seq<Task<'a>>,
    environment: EnvironmentView,
    tasks: Seq<Task<'a>>,
    now: EnvironmentView,
    added: Seq<Task<'a>>,
)
    requires
        inside(outer, rest, environment, tasks),
        tasks.len() > rest.len() + 1,
        now.well_formed(),
        keeps(outer, now),
        now.marks[outer.marks.len() as int] == outer.bindings.len(),
        now.marks.len() + (if tasks.last() is Leave {
            1int
        } else {
            0int
        }) == environment.marks.len() + leaves(added),
    ensures
        inside(outer, rest, now, tasks.drop_last() + added),
{
    let base = rest.len() as int + 1;
    let below = tasks.drop_last();
    let next = below + added;
    let above = tasks.subrange(base, tasks.len() as int);
    assert(next.subrange(0, base) =~= tasks.subrange(0, base));
    assert(above.drop_last() =~= below.subrange(base, below.len() as int));
    assert(above.last() == tasks.last());
    assert(next.subrange(base, next.len() as int) =~= below.subrange(base, below.len() as int)
        + added);
    lemma_leaves_joined(below.subrange(base, below.len() as int), added);
}

/// Binding a name in the innermost scope, or assigning to a name, keeps
/// what `outer` had while a scope is open above it.
proof fn lemma_bindings_kept(
    outer: EnvironmentView,
    environment: EnvironmentView,
    name: Seq<char>,
    value: ValueView,
)
    requires
        outer.well_formed(),
        environment.well_formed(),
        keeps(outer, environment),
        environment.marks.len() > outer.marks.len(),
        environment.marks[outer.marks.len() as int] == outer.bindings.len(),
    ensures
        keeps(outer, environment.define(name, value)),
        environment.define(name, value).well_formed(),
        environment.define(name, value).marks == environment.marks,
        keeps(outer, environment.assign(name, value)),
        environment.assign(name, value).well_formed(),
        environment.assign(name, value).marks == environment.marks,
{
    let floor = environment.floor();
    assert(environment.marks[outer.marks.len() as int] <= environment.marks[environment.marks.len()
        - 1]);
    lemma_position(environment.bindings, name, floor);
    lemma_position(environment.bindings, name, 0);
    lemma_define_well_formed(environment, name, value);
    lemma_assign_well_formed(environment, name, value);
    let defined = environment.define(name, value);
    let assigned = environment.assign(name, value);
    assert(defined.names().subrange(0, outer.bindings.len() as int) =~= environment.names().subrange(
        0,
        outer.bindings.len() as int,
    ));
    assert(assigned.names() =~= environment.names());
}

/// While the machine is inside a block, a step leaves it inside the block,
/// or leaves the block, or stops the program. The scopes of `outer` and
/// the names in them are there all the while, and when the block is left
/// or the program stops nothing else is: the block has neither added a
/// binding to the scopes around it nor taken one away.
pub proof fn law_block_step<'a>(
    outer: EnvironmentView,
    rest: Seq<Task<'a>>,
    environment: EnvironmentView,
    run: RunView<'a>,
    reply: ReplyView,
)
    requires
        outer.well_formed(),
        inside(outer, rest, environment, run.tasks),
    ensures
        ({
            let after = step(environment, run, reply);
            ||| inside(outer, rest, after.environment, after.run.tasks)
            ||| left_block(outer, rest, after)
            ||| stopped_in_block(outer, rest, after)
        }),
{
    let after = step(environment, run, reply);
    let base = rest.len() as int + 1;
    let tasks = run.tasks;
    let below = tasks.drop_last();
    let top_task = tasks.last();
    assert(tasks.subrange(0, base)[base - 1] == rest.push(Task::Leave)[base - 1]);
    lemma_unwound_inside(outer, rest, environment, tasks);
    if !(run.waiting is Nothing) {
    } else if tasks.len() == base {
        assert(top_task is Leave);
        assert(below =~= rest);
        assert(tasks.subrange(base, tasks.len() as int) =~= Seq::<Task<'a>>::empty());
        lemma_leave_block(outer, environment);
    } else {
        let none = Seq::<Task<'a>>::empty();
        assert(below + none =~= below);
        if top_task is Leave {
            lemma_leave_inner(outer, environment);
            lemma_inside_replaced(outer, rest, environment, tasks, environment.leave(), none);
        } else {
            lemma_inside_replaced(outer, rest, environment, tasks, environment, none);
            lemma_unwound_inside(outer, rest, environment, below);
            match top_task {
                Task::Evaluate(expression) => {
                    match *expression {
                        Expr::Grouping(it) => {
                            let added = seq![Task::Evaluate(&*it.expression)];
                            lemma_leaves_few(added);
                            lemma_inside_replaced(outer, rest, environment, tasks, environment, added);
                            assert(after.run.tasks =~= below + added);
                        },
                        Expr::Unary(it) => {
                            let added = seq![
                                Task::Unary(&*it.operator),
                                Task::Evaluate(&*it.right),
                            ];
                            lemma_leaves_few(added);
                            lemma_inside_replaced(outer, rest, environment, tasks, environment, added);
                            assert(after.run.tasks =~= below + added);
                        },
                        Expr::Binary(it) => {
                            let added = seq![
                                Task::Binary(&*it.operator),
                                Task::Evaluate(&*it.right),
                                Task::Evaluate(&*it.left),
                            ];
                            lemma_leaves_few(added);
                            lemma_inside_replaced(outer, rest, environment, tasks, environment, added);
                            assert(after.run.tasks =~= below + added);
                        },
                        Expr::Logical(it) => {
                            let added = seq![Task::Choose(&it), Task::Evaluate(&*it.left)];
                            lemma_leaves_few(added);
                            lemma_inside_replaced(outer, rest, environment, tasks, environment, added);
                            assert(after.run.tasks =~= below + added);
                        },
                        Expr::Assignment(it) => {
                            let added = seq![Task::Store(&*it.name), Task::Evaluate(&*it.value)];
                            lemma_leaves_few(added);
                            lemma_inside_replaced(outer, rest, environment, tasks, environment, added);
                            assert(after.run.tasks =~= below + added);
                        },
                        _ => {},
                    }
                },
                Task::Choose(logical) => {
                    let added = seq![Task::Evaluate(&*logical.right)];
                    lemma_leaves_few(added);
                    lemma_inside_replaced(outer, rest, environment, tasks, environment, added);
                    assert(below.push(Task::Evaluate(&*logical.right)) =~= below + added);
                },
                Task::Store(name) => {
                    lemma_bindings_kept(outer, environment, name.value@, top(run.values));
                    lemma_inside_replaced(
                        outer,
                        rest,
                        environment,
                        tasks,
                        environment.assign(name.value@, top(run.values)),
                        none,
                    );
                },
                Task::Define(name) => {
                    lemma_bindings_kept(outer, environment, name.value@, top(run.values));
                    lemma_inside_replaced(
                        outer,
                        rest,
                        environment,
                        tasks,
                        environment.define(name.value@, top(run.values)),
                        none,
                    );
                },
                Task::Execute(statement) => {
                    match *statement {
                        Statement::Expression(it) => {
                            let added = seq![Task::Discard, Task::Evaluate(&*it.expression)];
                            lemma_leaves_few(added);
                            lemma_inside_replaced(outer, rest, environment, tasks, environment, added);
                            assert(after.run.tasks =~= below + added);
                        },
                        Statement::Print(it) => {
                            let added = seq![Task::Show, Task::Evaluate(&*it.expression)];
                            lemma_leaves_few(added);
                            lemma_inside_replaced(outer, rest, environment, tasks, environment, added);
                            assert(after.run.tasks =~= below + added);
                        },
                        Statement::Variable(it) => {
                            let added = seq![Task::Define(&*it.name), Task::Evaluate(&*it.value)];
                            lemma_leaves_few(added);
                            lemma_inside_replaced(outer, rest, environment, tasks, environment, added);
                            assert(after.run.tasks =~= below + added);
                        },
                        Statement::Block(it) => {
                            let added = seq![Task::Leave, Task::Sequence(&it, 0)];
                            lemma_leaves_few(added);
                            let entered = environment.enter();
                            assert(entered.marks.subrange(0, outer.marks.len() as int)
                                =~= environment.marks.subrange(0, outer.marks.len() as int));
                            assert(entered.names() =~= environment.names());
                            lemma_enter_well_formed(environment);
                            lemma_inside_replaced(outer, rest, environment, tasks, entered, added);
                            assert(after.run.tasks =~= below + added);
                        },
                        Statement::If(it) => {
                            let added = seq![Task::Branch(&it), Task::Evaluate(&*it.condition)];
                            lemma_leaves_few(added);
                            lemma_inside_replaced(outer, rest, environment, tasks, environment, added);
                            assert(after.run.tasks =~= below + added);
                        },
                        Statement::While(it) => {
                            let added = seq![Task::Loop(&it), Task::Evaluate(&*it.condition)];
                            lemma_leaves_few(added);
                            lemma_inside_replaced(outer, rest, environment, tasks, environment, added);
                            assert(after.run.tasks =~= below + added);
                        },
                    }
                },
                Task::Sequence(block, index) => {
                    if index < block.statements@.len() {
                        let added = seq![
                            Task::Sequence(block, (index + 1) as usize),
                            Task::Execute(&block.statements@[index as int]),
                        ];
                        lemma_leaves_few(added);
                        lemma_inside_replaced(outer, rest, environment, tasks, environment, added);
                        assert(after.run.tasks =~= below + added);
                    }
                },
                Task::Branch(conditional) => {
                    let then = seq![Task::Execute(&*conditional.then_branch)];
                    lemma_leaves_few(then);
                    lemma_inside_replaced(outer, rest, environment, tasks, environment, then);
                    assert(below.push(Task::Execute(&*conditional.then_branch)) =~= below + then);
                    match conditional.else_branch {
                        Some(other) => {
                            let otherwise = seq![Task::Execute(&*other)];
                            lemma_leaves_few(otherwise);
                            lemma_inside_replaced(
                                outer,
                                rest,
                                environment,
                                tasks,
                                environment,
                                otherwise,
                            );
                            assert(below.push(Task::Execute(&*other)) =~= below + otherwise);
                        },
                        None => {},
                    }
                },
                Task::Loop(looping) => {
                    let added = seq![
                        Task::Loop(looping),
                        Task::Evaluate(&*looping.condition),
                        Task::Execute(&*looping.body),
                    ];
                    lemma_leaves_few(added);
                    lemma_inside_replaced(outer, rest, environment, tasks, environment, added);
                    assert(after.run.tasks =~= below + added || after.run.tasks == below);
                },
                _ => {},
            }
        }
    }
}

/// The closings among up to three tasks.
proof fn lemma_leaves_few<'a>(tasks: Seq<Task<'a>>)
    requires
        tasks.len() <= 3,
    ensures
        leaves(tasks) == (if tasks.len() > 0 && tasks[0] is Leave {
            1int
        } else {
            0int
        }) + (if tasks.len() > 1 && tasks[1] is Leave {
            1int
        } else {
            0int
        }) + (if tasks.len() > 2 && tasks[2] is Leave {
            1int
        } else {
            0int
        }),
{
    reveal_with_fuel(leaves, 4);
    if tasks.len() > 0 {
        let two = tasks.drop_last();
        if two.len() > 0 {
            let one = two.drop_last();
            if one.len() > 0 {
                assert(one.drop_last().len() == 0);
            }
        }
    }
}

/// From the step that enters a block on, whatever the host replies: as
/// long as the block goes on, the scopes around it and the names in them
/// are there; and once it has been left, or the program has stopped in it,
/// the scopes are those that were there before the block, with the same
/// names bound in them, and what is left to do is what was left to do
/// behind the block.
pub proof fn law_block_keeps_enclosing_scopes<'a>(
    outer: EnvironmentView,
    rest: Seq<Task<'a>>,
    values: Seq<ValueView>,
    block: &'a Statement,
    replies: Seq<ReplyView>,
)
    requires
        outer.well_formed(),
        *block is Block,
        replies.len() > 0,
    ensures
        ({
            let start = RunView {
                tasks: rest.push(Task::Execute(block)),
                values,
                waiting: WaitingView::Nothing,
            };
            let now = run_steps(outer, start, replies);
            ||| inside(outer, rest, now.environment, now.run.tasks)
            ||| exists|count: int|
                0 < count <= replies.len() && {
                    let then = #[trigger] run_steps(outer, start, replies.subrange(0, count));
                    left_block(outer, rest, then) || stopped_in_block(outer, rest, then)
                }
        }),
    decreases replies.len(),
{
    let start = RunView {
        tasks: rest.push(Task::Execute(block)),
        values,
        waiting: WaitingView::Nothing,
    };
    let now = run_steps(outer, start, replies);
    let earlier = replies.drop_last();
    assert(replies.subrange(0, replies.len() as int) =~= replies);
    if earlier.len() == 0 {
        assert(start.tasks.drop_last() =~= rest);
        assert(run_steps(outer, start, earlier).run == start);
        law_block_opens(outer, rest, values, block);
    } else {
        law_block_keeps_enclosing_scopes(outer, rest, values, block, earlier);
        let before = run_steps(outer, start, earlier);
        if inside(outer, rest, before.environment, before.run.tasks) {
            law_block_step(outer, rest, before.environment, before.run, replies.last());
            if !inside(outer, rest, now.environment, now.run.tasks) {
                assert(left_block(outer, rest, run_steps(outer, start, replies.subrange(0, replies.len() as int)))
                    || stopped_in_block(outer, rest, run_steps(outer, start, replies.subrange(0, replies.len() as int))));
            }
        } else {
            let count = choose|count: int|
                0 < count <= earlier.len() && {
                    let then = #[trigger] run_steps(outer, start, earlier.subrange(0, count));
                    left_block(outer, rest, then) || stopped_in_block(outer, rest, then)
                };
            assert(earlier.subrange(0, count) =~= replies.subrange(0, count));
        }
    }
}

} // verus!
