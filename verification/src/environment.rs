//! The scopes of a running program and the variables bound in them.

use crate::value::{RuntimeError, RuntimeErrorView, Value, ValueView};
use vstd::prelude::*;
use vstd::string::*;

verus! {

/// A name with the value it is bound to.
pub struct Binding {
    pub name: String,
    pub value: Value,
}

/// The mathematical content of a [`Binding`].
pub struct BindingView {
    pub name: Seq<char>,
    pub value: ValueView,
}

impl View for Binding {
    type V = BindingView;

    open spec fn view(&self) -> BindingView {
        BindingView { name: self.name@, value: self.value@ }
    }
}

/// The bindings of a list, as contracts see them.
pub open spec fn binding_views(bindings: Seq<Binding>) -> Seq<BindingView> {
    bindings.map_values(|binding: Binding| binding@)
}

/// A chain of scopes, as contracts see it: the bindings of all scopes in
/// the order the scopes were opened, the global scope first, and for each
/// scope but the global one the number of bindings that were there when it
/// was opened, which is where its own begin.
pub struct EnvironmentView {
    pub bindings: Seq<BindingView>,
    pub marks: Seq<nat>,
}

/// The index of the last binding of `name` at or above `floor`.
pub open spec fn position(bindings: Seq<BindingView>, name: Seq<char>, floor: nat) -> Option<nat>
    decreases bindings.len(),
{
    if bindings.len() <= floor {
        None
    } else if bindings.last().name == name {
        Some((bindings.len() - 1) as nat)
    } else {
        position(bindings.drop_last(), name, floor)
    }
}

/// The error for a name that no scope binds.
pub open spec fn undefined(name: Seq<char>) -> RuntimeErrorView {
    RuntimeErrorView::UndefinedVariable(name + " variable is not defined"@)
}

/// Whether a scope begins above the binding at `low` and not above the one
/// at `high`: the two bindings lie in different scopes.
pub open spec fn separated(marks: Seq<nat>, low: int, high: int) -> bool {
    exists|k: int| 0 <= k < marks.len() && low < #[trigger] marks[k] <= high
}

impl EnvironmentView {
    /// Every scope begins inside the bindings, none before an older one,
    /// and no scope binds a name twice.
    pub open spec fn well_formed(self) -> bool {
        &&& forall|i: int| 0 <= i < self.marks.len() ==> #[trigger] self.marks[i] <= self.bindings.len()
        &&& forall|i: int, j: int|
            #![trigger self.marks[i], self.marks[j]]
            0 <= i <= j < self.marks.len() ==> self.marks[i] <= self.marks[j]
        &&& forall|i: int, j: int|
            #![trigger self.bindings[i], self.bindings[j]]
            0 <= i < j < self.bindings.len() && self.bindings[i].name == self.bindings[j].name
                ==> separated(self.marks, i, j)
    }

    /// Where the bindings of the innermost scope begin.
    pub open spec fn floor(self) -> nat {
        if self.marks.len() > 0 {
            self.marks.last()
        } else {
            0
        }
    }

    /// The value of `name`: that of its binding in the innermost scope that
    /// has one.
    pub open spec fn get(self, name: Seq<char>) -> Result<ValueView, RuntimeErrorView> {
        match position(self.bindings, name, 0) {
            Some(i) => Ok(self.bindings[i as int].value),
            None => Err(undefined(name)),
        }
    }

    /// The chain with `value` in the place of the value of `name`, in the
    /// innermost scope that binds it; the chain as it is if none does.
    pub open spec fn assign(self, name: Seq<char>, value: ValueView) -> EnvironmentView {
        match position(self.bindings, name, 0) {
            Some(i) => EnvironmentView {
                bindings: self.bindings.update(i as int, BindingView { name, value }),
                marks: self.marks,
            },
            None => self,
        }
    }

    /// The chain with `name` bound to `value` in the innermost scope: in the
    /// place of its binding there, or as a new last binding.
    pub open spec fn define(self, name: Seq<char>, value: ValueView) -> EnvironmentView {
        match position(self.bindings, name, self.floor()) {
            Some(i) => EnvironmentView {
                bindings: self.bindings.update(i as int, BindingView { name, value }),
                marks: self.marks,
            },
            None => EnvironmentView {
                bindings: self.bindings.push(BindingView { name, value }),
                marks: self.marks,
            },
        }
    }

    /// The chain with a new, empty innermost scope.
    pub open spec fn enter(self) -> EnvironmentView {
        EnvironmentView { bindings: self.bindings, marks: self.marks.push(self.bindings.len()) }
    }

    /// The chain without its innermost scope; the global scope stays.
    pub open spec fn leave(self) -> EnvironmentView {
        if self.marks.len() > 0 {
            EnvironmentView {
                bindings: self.bindings.subrange(0, self.marks.last() as int),
                marks: self.marks.drop_last(),
            }
        } else {
            self
        }
    }

    /// The names of all bindings, in their order.
    pub open spec fn names(self) -> Seq<Seq<char>> {
        self.bindings.map_values(|binding: BindingView| binding.name)
    }
}

/// The lexical scopes of a running program. A name is looked up from the
/// innermost scope outwards; a declaration binds in the innermost scope.
pub struct Environment {
    bindings: Vec<Binding>,
    marks: Vec<usize>,
}

impl View for Environment {
    type V = EnvironmentView;

    closed spec fn view(&self) -> EnvironmentView {
        EnvironmentView {
            bindings: binding_views(self.bindings@),
            marks: self.marks@.map_values(|mark: usize| mark as nat),
        }
    }
}

/// What `position` says of the index it gives.
pub proof fn lemma_position(bindings: Seq<BindingView>, name: Seq<char>, floor: nat)
    ensures
        match position(bindings, name, floor) {
            Some(i) => floor <= i < bindings.len() && bindings[i as int].name == name && forall|
                j: int,
            |
                i < j < bindings.len() ==> (#[trigger] bindings[j]).name != name,
            None => forall|j: int| floor <= j < bindings.len() ==> (#[trigger] bindings[j]).name != name,
        },
    decreases bindings.len(),
{
    if bindings.len() > floor && bindings.last().name != name {
        let shorter = bindings.drop_last();
        lemma_position(shorter, name, floor);
        assert forall|j: int| 0 <= j < shorter.len() implies shorter[j] == bindings[j] by {}
        match position(shorter, name, floor) {
            Some(i) => {
                assert forall|j: int| i < j < bindings.len() implies (#[trigger] bindings[j]).name
                    != name by {
                    if j < shorter.len() {
                        assert(shorter[j] == bindings[j]);
                    }
                }
            },
            None => {
                assert forall|j: int| floor <= j < bindings.len() implies (
                #[trigger] bindings[j]).name != name by {
                    if j < shorter.len() {
                        assert(shorter[j] == bindings[j]);
                    }
                }
            },
        }
    }
}

/// Opening a scope keeps the scopes well formed.
pub proof fn lemma_enter_well_formed(environment: EnvironmentView)
    requires
        environment.well_formed(),
    ensures
        environment.enter().well_formed(),
{
    let entered = environment.enter();
    assert forall|i: int, j: int| 0 <= i <= j < entered.marks.len() implies entered.marks[i]
        <= entered.marks[j] by {
        if j < environment.marks.len() {
            assert(environment.marks[i] <= environment.marks[j]);
        } else if i < environment.marks.len() {
            assert(environment.marks[i] <= environment.bindings.len());
        }
    }
    assert forall|i: int, j: int|
        #![trigger entered.bindings[i], entered.bindings[j]]
        0 <= i < j < entered.bindings.len() && entered.bindings[i].name
            == entered.bindings[j].name implies separated(entered.marks, i, j) by {
        assert(separated(environment.marks, i, j));
        let k = choose|k: int|
            0 <= k < environment.marks.len() && i < #[trigger] environment.marks[k] <= j;
        assert(entered.marks[k] == environment.marks[k]);
    }
}

/// Closing a scope keeps the scopes well formed.
pub proof fn lemma_leave_well_formed(environment: EnvironmentView)
    requires
        environment.well_formed(),
    ensures
        environment.leave().well_formed(),
{
    let left = environment.leave();
    if environment.marks.len() > 0 {
        let last = environment.marks.len() - 1;
        assert forall|i: int, j: int| 0 <= i <= j < left.marks.len() implies left.marks[i]
            <= left.marks[j] by {
            assert(environment.marks[i] <= environment.marks[j]);
        }
        assert forall|i: int| 0 <= i < left.marks.len() implies #[trigger] left.marks[i]
            <= left.bindings.len() by {
            assert(environment.marks[i] <= environment.marks[last]);
        }
        assert forall|i: int, j: int|
            #![trigger left.bindings[i], left.bindings[j]]
            0 <= i < j < left.bindings.len() && left.bindings[i].name
                == left.bindings[j].name implies separated(left.marks, i, j) by {
            assert(left.bindings[i] == environment.bindings[i]);
            assert(left.bindings[j] == environment.bindings[j]);
            assert(separated(environment.marks, i, j));
            let k = choose|k: int|
                0 <= k < environment.marks.len() && i < #[trigger] environment.marks[k] <= j;
            assert(k != last);
            assert(left.marks[k] == environment.marks[k]);
        }
    }
}

/// Binding a name in the innermost scope keeps the scopes well formed.
pub proof fn lemma_define_well_formed(
    environment: EnvironmentView,
    name: Seq<char>,
    value: ValueView,
)
    requires
        environment.well_formed(),
    ensures
        environment.define(name, value).well_formed(),
        environment.define(name, value).marks == environment.marks,
{
    let defined = environment.define(name, value);
    let floor = environment.floor();
    lemma_position(environment.bindings, name, floor);
    if environment.marks.len() > 0 {
        assert(environment.marks[environment.marks.len() - 1] <= environment.bindings.len());
    }
    assert forall|i: int, j: int|
        #![trigger defined.bindings[i], defined.bindings[j]]
        0 <= i < j < defined.bindings.len() && defined.bindings[i].name
            == defined.bindings[j].name implies separated(defined.marks, i, j) by {
        if j < environment.bindings.len() {
            assert(environment.bindings[i].name == defined.bindings[i].name);
            assert(environment.bindings[j].name == defined.bindings[j].name);
            assert(separated(environment.marks, i, j));
        } else {
            assert(environment.bindings[i].name == name);
            assert(i < floor);
            assert(environment.marks.len() > 0);
            assert(i < environment.marks[environment.marks.len() - 1] <= j);
        }
    }
}

/// Assigning to a name keeps the scopes well formed.
pub proof fn lemma_assign_well_formed(
    environment: EnvironmentView,
    name: Seq<char>,
    value: ValueView,
)
    requires
        environment.well_formed(),
    ensures
        environment.assign(name, value).well_formed(),
        environment.assign(name, value).marks == environment.marks,
{
    let assigned = environment.assign(name, value);
    lemma_position(environment.bindings, name, 0);
    assert forall|i: int, j: int|
        #![trigger assigned.bindings[i], assigned.bindings[j]]
        0 <= i < j < assigned.bindings.len() && assigned.bindings[i].name
            == assigned.bindings[j].name implies separated(assigned.marks, i, j) by {
        assert(environment.bindings[i].name == assigned.bindings[i].name);
        assert(environment.bindings[j].name == assigned.bindings[j].name);
        assert(separated(environment.marks, i, j));
    }
}

impl Environment {
    /// A scope inside `enclosing`, or a global scope if there is none.
    pub fn new(enclosing: Option<Box<Environment>>) -> (environment: Environment)
        requires
            enclosing matches Some(outer) ==> outer@.well_formed(),
        ensures
            environment@.well_formed(),
            environment@ == match enclosing {
                Some(outer) => outer@.enter(),
                None => EnvironmentView { bindings: Seq::empty(), marks: Seq::empty() },
            },
    {
        match enclosing {
            Some(outer) => {
                let mut environment = *outer;
                environment.enter();
                environment
            },
            None => {
                let environment = Environment { bindings: Vec::new(), marks: Vec::new() };
                assert(environment@.bindings =~= Seq::empty());
                assert(environment@.marks =~= Seq::empty());
                environment
            },
        }
    }

    /// An empty global scope.
    pub fn new_global() -> (environment: Environment)
        ensures
            environment@.well_formed(),
            environment@ == (EnvironmentView { bindings: Seq::empty(), marks: Seq::empty() }),
    {
        Environment::new(None)
    }

    /// Opens a scope.
    pub fn enter(&mut self)
        requires
            old(self)@.well_formed(),
        ensures
            final(self)@.well_formed(),
            final(self)@ == old(self)@.enter(),
    {
        self.marks.push(self.bindings.len());
        assert(self@.marks =~= old(self)@.marks.push(old(self)@.bindings.len()));
        proof {
            lemma_enter_well_formed(old(self)@);
        }
    }

    /// Closes the innermost scope and forgets its bindings.
    pub fn leave(&mut self)
        requires
            old(self)@.well_formed(),
        ensures
            final(self)@.well_formed(),
            final(self)@ == old(self)@.leave(),
    {
        proof {
            lemma_leave_well_formed(self@);
        }
        match self.marks.pop() {
            Some(mark) => {
                assert(mark == old(self)@.marks.last());
                self.bindings.truncate(mark);
                assert(self@.marks =~= old(self)@.marks.drop_last());
                assert(self@.bindings =~= old(self)@.bindings.subrange(0, mark as int));
            },
            None => {},
        }
    }

    /// The index of the last binding of `name` at or above `floor`.
    fn find(&self, name: &String, floor: usize) -> (index: Option<usize>)
        ensures
            match index {
                Some(i) => position(self@.bindings, name@, floor as nat) == Some(i as nat),
                None => position(self@.bindings, name@, floor as nat).is_none(),
            },
    {
        let ghost all = self@.bindings;
        let mut i: usize = self.bindings.len();
        assert(all.subrange(0, i as int) =~= all);
        while i > floor
            invariant
                i <= self.bindings@.len(),
                all == self@.bindings,
                position(all, name@, floor as nat) == position(
                    all.subrange(0, i as int),
                    name@,
                    floor as nat,
                ),
            decreases i,
        {
            let ghost upto = all.subrange(0, i as int);
            i = i - 1;
            assert(upto.drop_last() =~= all.subrange(0, i as int));
            assert(upto.last() == self.bindings@[i as int]@);
            if self.bindings[i].name.eq(name) {
                return Some(i);
            }
        }
        None
    }

    /// Binds `name` to `value` in the innermost scope; a binding of the name
    /// that is there already gets the new value.
    pub fn define(&mut self, name: String, value: Value)
        requires
            old(self)@.well_formed(),
        ensures
            final(self)@.well_formed(),
            final(self)@ == old(self)@.define(name@, value@),
    {
        let floor = if self.marks.len() > 0 {
            self.marks[self.marks.len() - 1]
        } else {
            0
        };
        proof {
            assert(floor == self@.floor());
            lemma_position(self@.bindings, name@, floor as nat);
            lemma_define_well_formed(self@, name@, value@);
        }
        match self.find(&name, floor) {
            Some(i) => {
                self.bindings.set(i, Binding { name, value });
                assert(self@.bindings =~= old(self)@.bindings.update(
                    i as int,
                    BindingView { name: name@, value: value@ },
                ));
                assert(self@.marks == old(self)@.marks);
            },
            None => {
                self.bindings.push(Binding { name, value });
                assert(self@.bindings =~= old(self)@.bindings.push(
                    BindingView { name: name@, value: value@ },
                ));
                assert(self@.marks == old(self)@.marks);
            },
        }
    }

    /// The value of `name` in the innermost scope that binds it.
    pub fn get(&self, name: &str) -> (result: Result<Value, RuntimeError>)
        ensures
            match result {
                Ok(value) => self@.get(name@) == Ok::<ValueView, RuntimeErrorView>(value@),
                Err(error) => self@.get(name@) == Err::<ValueView, RuntimeErrorView>(error@),
            },
    {
        let key = String::from_str(name);
        proof {
            lemma_position(self@.bindings, name@, 0);
        }
        match self.find(&key, 0) {
            Some(i) => Ok(self.bindings[i].value.clone()),
            None => Err(undefined_variable(name)),
        }
    }

    /// Gives the variable `name` a new value, in the innermost scope that
    /// binds it.
    pub fn assign(&mut self, name: &str, value: Value) -> (result: Result<(), RuntimeError>)
        requires
            old(self)@.well_formed(),
        ensures
            final(self)@.well_formed(),
            final(self)@ == old(self)@.assign(name@, value@),
            match result {
                Ok(_) => old(self)@.get(name@) is Ok,
                Err(error) => old(self)@.get(name@) == Err::<ValueView, RuntimeErrorView>(error@),
            },
    {
        let key = String::from_str(name);
        proof {
            lemma_position(self@.bindings, name@, 0);
            lemma_assign_well_formed(self@, name@, value@);
        }
        match self.find(&key, 0) {
            Some(i) => {
                self.bindings.set(i, Binding { name: key, value });
                assert(self@.bindings =~= old(self)@.bindings.update(
                    i as int,
                    BindingView { name: name@, value: value@ },
                ));
                assert(self@.marks == old(self)@.marks);
                Ok(())
            },
            None => Err(undefined_variable(name)),
        }
    }

    /// How many scopes are open inside the global one.
    pub fn depth(&self) -> (depth: usize)
        ensures
            depth == self@.marks.len(),
    {
        self.marks.len()
    }
}

/// The error for a name that no scope binds.
pub fn undefined_variable(name: &str) -> (error: RuntimeError)
    ensures
        error@ == undefined(name@),
{
    let mut text = String::from_str(name);
    text.append(" variable is not defined");
    RuntimeError::UndefinedVariable(text)
}

} // verus!
