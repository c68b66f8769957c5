use crate::ast::{BlockStatement, Expr, Statement};
use crate::environment::{
    lemma_assign_well_formed, lemma_define_well_formed, lemma_enter_well_formed,
    lemma_leave_well_formed, lemma_position, EnvironmentView,
};
use crate::laws::blocks::same_shape;
use crate::machine::{unwound, ActionView, ReplyView, Task};
use crate::meaning::{execution, items, meaning, Executed, Meaning};
use vstd::prelude::*;

verus! {

/// The scopes of `before` are those of `after`, and the names bound in
/// `before` are bound in `after` in the same places; `after` may bind more
/// names in its innermost scope.
pub open spec fn grown(before: EnvironmentView, after: EnvironmentView) -> bool {
    &&& after.marks == before.marks
    &&& before.bindings.len() <= after.bindings.len()
    &&& after.names().subrange(0, before.bindings.len() as int) == before.names()
}

/// The scopes that the meaning of an expression leaves.
pub open spec fn scopes_of(meaning: Meaning) -> EnvironmentView {
    match meaning {
        Meaning::Value { environment, value } => environment,
        Meaning::Stopped { environment, error } => environment,
    }
}

/// The scopes that a statement leaves.
pub open spec fn scopes_after(executed: Executed) -> EnvironmentView {
    match executed {
        Executed::Finished { environment, printed } => environment,
        Executed::Stopped { environment, printed, error } => environment,
    }
}

/// An expression binds no name and forgets none: it leaves the scopes it
/// found, with the names they had. Only values may have changed, by
/// assignment.
pub proof fn law_expression_keeps_names(
    host: spec_fn(ActionView) -> ReplyView,
    environment: EnvironmentView,
    expression: &Expr,
)
    requires
        environment.well_formed(),
    ensures
        same_shape(environment, scopes_of(meaning(host, environment, expression))),
        scopes_of(meaning(host, environment, expression)).well_formed(),
    decreases expression,
{
    let nothing = Seq::<Task>::empty();
    assert(unwound(environment, nothing) == environment);
    match *expression {
        Expr::Grouping(it) => {
            law_expression_keeps_names(host, environment, &*it.expression);
        },
        Expr::Unary(it) => {
            law_expression_keeps_names(host, environment, &*it.right);
            let then = scopes_of(meaning(host, environment, &*it.right));
            assert(unwound(then, nothing) == then);
        },
        Expr::Binary(it) => {
            law_expression_keeps_names(host, environment, &*it.left);
            let first = scopes_of(meaning(host, environment, &*it.left));
            law_expression_keeps_names(host, first, &*it.right);
            let then = scopes_of(meaning(host, first, &*it.right));
            assert(unwound(then, nothing) == then);
        },
        Expr::Logical(it) => {
            law_expression_keeps_names(host, environment, &*it.left);
            let first = scopes_of(meaning(host, environment, &*it.left));
            law_expression_keeps_names(host, first, &*it.right);
        },
        Expr::Assignment(it) => {
            law_expression_keeps_names(host, environment, &*it.value);
            let then = scopes_of(meaning(host, environment, &*it.value));
            assert(unwound(then, nothing) == then);
            match meaning(host, environment, &*it.value) {
                Meaning::Value { environment: scopes, value } => {
                    lemma_assign_well_formed(scopes, it.name.value@, value);
                    lemma_position(scopes.bindings, it.name.value@, 0);
                    assert(scopes.assign(it.name.value@, value).names() =~= scopes.names());
                },
                _ => {},
            }
        },
        _ => {},
    }
}

/// A statement leaves the scopes it found, and in all of them but the
/// innermost the names it found; in the innermost it may have declared
/// more. A block leaves the innermost as it found it too: what it declares
/// it declares in a scope of its own, which is closed when the block ends,
/// however it ends.
pub proof fn law_statement_keeps_scopes(
    host: spec_fn(ActionView) -> ReplyView,
    environment: EnvironmentView,
    statement: &Statement,
    fuel: nat,
)
    requires
        environment.well_formed(),
        execution(host, environment, statement, fuel) is Some,
    ensures
        grown(environment, scopes_after(execution(host, environment, statement, fuel)->0)),
        scopes_after(execution(host, environment, statement, fuel)->0).well_formed(),
        *statement is Block ==> same_shape(
            environment,
            scopes_after(execution(host, environment, statement, fuel)->0),
        ),
    decreases fuel, statement, 0nat,
{
    let nothing = Seq::<Task>::empty();
    assert(environment.names().subrange(0, environment.bindings.len() as int)
        =~= environment.names());
    match *statement {
        Statement::Expression(it) => {
            law_expression_keeps_names(host, environment, &*it.expression);
            lemma_same_shape_grown(
                environment,
                scopes_of(meaning(host, environment, &*it.expression)),
            );
        },
        Statement::Print(it) => {
            law_expression_keeps_names(host, environment, &*it.expression);
            lemma_same_shape_grown(
                environment,
                scopes_of(meaning(host, environment, &*it.expression)),
            );
        },
        Statement::Variable(it) => {
            law_expression_keeps_names(host, environment, &*it.value);
            let then = scopes_of(meaning(host, environment, &*it.value));
            lemma_same_shape_grown(environment, then);
            match meaning(host, environment, &*it.value) {
                Meaning::Value { environment: scopes, value } => {
                    lemma_define_well_formed(scopes, it.name.value@, value);
                    lemma_position(scopes.bindings, it.name.value@, scopes.floor());
                    let defined = scopes.define(it.name.value@, value);
                    assert(defined.names().subrange(0, scopes.bindings.len() as int)
                        =~= scopes.names());
                    assert(defined.names().subrange(0, environment.bindings.len() as int)
                        =~= environment.names());
                },
                _ => {},
            }
        },
        Statement::Block(it) => {
            lemma_enter_well_formed(environment);
            let entered = environment.enter();
            law_items_keep_scopes(host, entered, &it, 0, fuel);
            let inside = scopes_after(items(host, entered, &it, 0, fuel)->0);
            lemma_leave_well_formed(inside);
            assert(inside.leave().marks =~= environment.marks);
            assert(inside.leave().names() =~= environment.names());
        },
        Statement::If(it) => {
            law_expression_keeps_names(host, environment, &*it.condition);
            let then = scopes_of(meaning(host, environment, &*it.condition));
            lemma_same_shape_grown(environment, then);
            match meaning(host, environment, &*it.condition) {
                Meaning::Value { environment: scopes, value } => {
                    if value.truthy() {
                        law_statement_keeps_scopes(host, scopes, &*it.then_branch, fuel);
                        lemma_grown_twice(
                            environment,
                            scopes,
                            scopes_after(execution(host, scopes, &*it.then_branch, fuel)->0),
                        );
                    } else {
                        match it.else_branch {
                            Some(other) => {
                                law_statement_keeps_scopes(host, scopes, &*other, fuel);
                                lemma_grown_twice(
                                    environment,
                                    scopes,
                                    scopes_after(execution(host, scopes, &*other, fuel)->0),
                                );
                            },
                            None => {},
                        }
                    }
                },
                _ => {},
            }
        },
        Statement::While(it) => {
            law_expression_keeps_names(host, environment, &*it.condition);
            let then = scopes_of(meaning(host, environment, &*it.condition));
            lemma_same_shape_grown(environment, then);
            match meaning(host, environment, &*it.condition) {
                Meaning::Value { environment: scopes, value } => {
                    if value.truthy() {
                        law_statement_keeps_scopes(host, scopes, &*it.body, fuel);
                        let body = execution(host, scopes, &*it.body, fuel)->0;
                        lemma_grown_twice(environment, scopes, scopes_after(body));
                        match body {
                            Executed::Finished { environment: next, printed } => {
                                law_statement_keeps_scopes(
                                    host,
                                    next,
                                    statement,
                                    (fuel - 1) as nat,
                                );
                                lemma_grown_twice(
                                    environment,
                                    next,
                                    scopes_after(
                                        execution(host, next, statement, (fuel - 1) as nat)->0,
                                    ),
                                );
                            },
                            _ => {},
                        }
                    }
                },
                _ => {},
            }
        },
    }
}

/// The statements of a block leave the scopes they found, and in all of
/// them but the innermost the names they found.
pub proof fn law_items_keep_scopes(
    host: spec_fn(ActionView) -> ReplyView,
    environment: EnvironmentView,
    block: &BlockStatement,
    index: nat,
    fuel: nat,
)
    requires
        environment.well_formed(),
        items(host, environment, block, index, fuel) is Some,
    ensures
        grown(environment, scopes_after(items(host, environment, block, index, fuel)->0)),
        scopes_after(items(host, environment, block, index, fuel)->0).well_formed(),
    decreases fuel, block, block.statements@.len() - index,
{
    assert(environment.names().subrange(0, environment.bindings.len() as int)
        =~= environment.names());
    if index < block.statements@.len() {
        law_statement_keeps_scopes(host, environment, &block.statements@[index as int], fuel);
        match execution(host, environment, &block.statements@[index as int], fuel)->0 {
            Executed::Finished { environment: next, printed } => {
                law_items_keep_scopes(host, next, block, index + 1, fuel);
                lemma_grown_twice(
                    environment,
                    next,
                    scopes_after(items(host, next, block, index + 1, fuel)->0),
                );
            },
            _ => {},
        }
    }
}

/// Scopes of the same shape have grown by nothing.
proof fn lemma_same_shape_grown(before: EnvironmentView, after: EnvironmentView)
    requires
        same_shape(before, after),
    ensures
        grown(before, after),
{
    assert(before.bindings.len() == before.names().len());
    assert(after.bindings.len() == after.names().len());
    assert(after.names().subrange(0, before.bindings.len() as int) =~= before.names());
}

/// Scopes that have grown twice have grown.
proof fn lemma_grown_twice(
    before: EnvironmentView,
    between: EnvironmentView,
    after: EnvironmentView,
)
    requires
        grown(before, between),
        grown(between, after),
    ensures
        grown(before, after),
{
    assert(after.names().subrange(0, before.bindings.len() as int) =~= between.names().subrange(
        0,
        before.bindings.len() as int,
    ));
}

} // verus!
