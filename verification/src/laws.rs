//! What follows from the contracts: laws of values, of expressions without
//! side effects, of blocks and their scopes, and of the order on the
//! machine's stacks.

pub mod blocks;
pub mod operands;
pub mod purity;
pub mod scopes;
pub mod values;

use crate::environment::EnvironmentView;
use crate::machine::{step, ActionView, ReplyView, RunView, Stepped, Task, WaitingView};
use vstd::prelude::*;

verus! {

/// The state after the machine has taken the replies one by one, a step for
/// each, and what the last step asked or told.
pub open spec fn run_steps<'a>(
    environment: EnvironmentView,
    run: RunView<'a>,
    replies: Seq<ReplyView>,
) -> Stepped<'a>
    decreases replies.len(),
{
    if replies.len() == 0 {
        Stepped { environment, run, action: ActionView::Continue }
    } else {
        let before = run_steps(environment, run, replies.drop_last());
        step(before.environment, before.run, replies.last())
    }
}

/// A run that has nothing on its stacks but one task.
pub open spec fn fresh<'a>(task: Task<'a>) -> RunView<'a> {
    RunView { tasks: seq![task], values: Seq::empty(), waiting: WaitingView::Nothing }
}

} // verus!
