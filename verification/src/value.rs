//! The values of the language and the errors a program can stop with.

use crate::number::{equal, same};
use vstd::prelude::*;
use vstd::string::*;

verus! {

/// What an expression evaluates to. A number is held as the 64 bits of its
/// binary64 form.
#[derive(Debug)]
pub enum Value {
    Number(u64),
    String(String),
    Boolean(bool),
    Nil,
}

/// The mathematical content of a [`Value`].
pub enum ValueView {
    Number(u64),
    String(Seq<char>),
    Boolean(bool),
    Nil,
}

impl View for Value {
    type V = ValueView;

    open spec fn view(&self) -> ValueView {
        match *self {
            Value::Number(bits) => ValueView::Number(bits),
            Value::String(text) => ValueView::String(text@),
            Value::Boolean(b) => ValueView::Boolean(b),
            Value::Nil => ValueView::Nil,
        }
    }
}

impl ValueView {
    /// Everything is true but `nil` and `false`.
    pub open spec fn truthy(self) -> bool {
        match self {
            ValueView::Nil => false,
            ValueView::Boolean(b) => b,
            _ => true,
        }
    }

    /// Two values are equal when they are of one kind and hold the same:
    /// numbers by the equality of numbers, the others by what they are.
    pub open spec fn equals(self, other: ValueView) -> bool {
        match (self, other) {
            (ValueView::Number(l), ValueView::Number(r)) => same(l, r),
            (ValueView::String(l), ValueView::String(r)) => l == r,
            (ValueView::Boolean(l), ValueView::Boolean(r)) => l == r,
            (ValueView::Nil, ValueView::Nil) => true,
            _ => false,
        }
    }

    /// How a value is shown, given the writing of the number if it is one:
    /// a string by its contents, a boolean as `true` or `false`, `nil` as
    /// `nil`.
    pub open spec fn shown(self, number: Seq<char>) -> Seq<char> {
        match self {
            ValueView::Number(_) => number,
            ValueView::String(text) => text,
            ValueView::Boolean(b) => if b {
                "true"@
            } else {
                "false"@
            },
            ValueView::Nil => "nil"@,
        }
    }
}

impl Clone for Value {
    fn clone(&self) -> (copy: Value)
        ensures
            copy@ == self@,
    {
        match self {
            Value::Number(bits) => Value::Number(*bits),
            Value::String(text) => Value::String(text.clone()),
            Value::Boolean(b) => Value::Boolean(*b),
            Value::Nil => Value::Nil,
        }
    }
}

impl PartialEq for Value {
    fn eq(&self, other: &Value) -> (yes: bool) {
        match (self, other) {
            (Value::Number(l), Value::Number(r)) => equal(*l, *r),
            (Value::String(l), Value::String(r)) => l.eq(r),
            (Value::Boolean(l), Value::Boolean(r)) => *l == *r,
            (Value::Nil, Value::Nil) => true,
            _ => false,
        }
    }
}

impl vstd::std_specs::cmp::PartialEqSpecImpl for Value {
    open spec fn obeys_eq_spec() -> bool {
        true
    }

    open spec fn eq_spec(&self, other: &Value) -> bool {
        self@.equals(other@)
    }
}

impl Value {
    /// Whether the value counts as true.
    pub fn truthy(&self) -> (yes: bool)
        ensures
            yes == self@.truthy(),
    {
        match self {
            Value::Nil => false,
            Value::Boolean(b) => *b,
            _ => true,
        }
    }

    /// How the value is shown; `number` is the writing of the number if the
    /// value is one, and is not looked at if it is not.
    pub fn to_string(&self, number: &str) -> (text: String)
        ensures
            text@ == self@.shown(number@),
    {
        match self {
            Value::Number(_) => String::from_str(number),
            Value::String(text) => text.clone(),
            Value::Boolean(b) => if *b {
                String::from_str("true")
            } else {
                String::from_str("false")
            },
            Value::Nil => String::from_str("nil"),
        }
    }
}

/// Why a program stopped.
#[derive(Debug)]
pub enum RuntimeError {
    /// An operand is not of a kind that the operator takes.
    ArgumentError(String),
    /// The operator is none that the machine knows in this place.
    UnknownOperatorError(String),
    /// The divisor is zero.
    ZeroDivision(String),
    /// No variable of the name is in scope.
    UndefinedVariable(String),
}

/// The mathematical content of a [`RuntimeError`].
pub enum RuntimeErrorView {
    ArgumentError(Seq<char>),
    UnknownOperatorError(Seq<char>),
    ZeroDivision(Seq<char>),
    UndefinedVariable(Seq<char>),
}

impl View for RuntimeError {
    type V = RuntimeErrorView;

    open spec fn view(&self) -> RuntimeErrorView {
        match *self {
            RuntimeError::ArgumentError(text) => RuntimeErrorView::ArgumentError(text@),
            RuntimeError::UnknownOperatorError(text) => RuntimeErrorView::UnknownOperatorError(text@),
            RuntimeError::ZeroDivision(text) => RuntimeErrorView::ZeroDivision(text@),
            RuntimeError::UndefinedVariable(text) => RuntimeErrorView::UndefinedVariable(text@),
        }
    }
}

impl RuntimeErrorView {
    /// The text of the error.
    pub open spec fn message(self) -> Seq<char> {
        match self {
            RuntimeErrorView::ArgumentError(text) => text,
            RuntimeErrorView::UnknownOperatorError(text) => text,
            RuntimeErrorView::ZeroDivision(text) => text,
            RuntimeErrorView::UndefinedVariable(text) => text,
        }
    }
}

impl RuntimeError {
    /// The text of the error.
    pub fn to_string(&self) -> (text: String)
        ensures
            text@ == self@.message(),
    {
        match self {
            RuntimeError::ArgumentError(text) => text.clone(),
            RuntimeError::UnknownOperatorError(text) => text.clone(),
            RuntimeError::ZeroDivision(text) => text.clone(),
            RuntimeError::UndefinedVariable(text) => text.clone(),
        }
    }
}

impl Clone for RuntimeError {
    fn clone(&self) -> (copy: RuntimeError)
        ensures
            copy@ == self@,
    {
        match self {
            RuntimeError::ArgumentError(text) => RuntimeError::ArgumentError(text.clone()),
            RuntimeError::UnknownOperatorError(text) => RuntimeError::UnknownOperatorError(
                text.clone(),
            ),
            RuntimeError::ZeroDivision(text) => RuntimeError::ZeroDivision(text.clone()),
            RuntimeError::UndefinedVariable(text) => RuntimeError::UndefinedVariable(text.clone()),
        }
    }
}

/// The values of a list, as contracts see them.
pub open spec fn value_views(values: Seq<Value>) -> Seq<ValueView> {
    values.map_values(|value: Value| value@)
}

} // verus!
