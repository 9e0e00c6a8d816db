//! Runtime values and their mathematical model.

use crate::error::EvalError;
use vstd::prelude::*;

verus! {

/// A value that evaluation produces or consumes.
#[derive(Debug, PartialEq, Eq)]
#[allow(inconsistent_fields)]
pub enum Variable {
    /// A non-negative integer.
    Number { value: usize },
    /// A piece of text.
    Text { value: String },
    /// A value on its way out of the function that returned it.
    Return { value: Box<Variable> },
    /// The absence of a value.
    Unit {},
}

/// The mathematical model of a [`Variable`].
pub enum Value {
    Number(int),
    Text(Seq<char>),
    Return(Box<Value>),
    Unit,
}

/// The model of `v`.
pub open spec fn value_of(v: Variable) -> Value
    decreases v,
{
    match v {
        Variable::Number { value } => Value::Number(value as int),
        Variable::Text { value } => Value::Text(value@),
        Variable::Return { value } => Value::Return(Box::new(value_of(*value))),
        Variable::Unit {  } => Value::Unit,
    }
}

impl View for Variable {
    type V = Value;

    open spec fn view(&self) -> Value {
        value_of(*self)
    }
}

/// The model of an optional value.
pub open spec fn value_of_opt(v: Option<Variable>) -> Option<Value> {
    match v {
        Some(x) => Some(x@),
        None => None,
    }
}

/// The model of an evaluation result.
pub open spec fn result_of(r: Result<Option<Variable>, EvalError>) -> Result<
    Option<Value>,
    EvalError,
> {
    match r {
        Ok(v) => Ok(value_of_opt(v)),
        Err(e) => Err(e),
    }
}

impl Value {
    /// The truth of a value as a condition: the number one and nothing else.
    pub open spec fn truthy(self) -> bool {
        self == Value::Number(1)
    }

    /// The number that stands for a truth value.
    pub open spec fn of_bool(b: bool) -> Value {
        Value::Number(if b { 1 } else { 0 })
    }
}

impl Clone for Variable {
    fn clone(&self) -> (r: Variable)
        ensures
            r@ == self@,
        decreases self,
    {
        match self {
            Variable::Number { value } => Variable::Number { value: *value },
            Variable::Text { value } => Variable::Text { value: value.clone() },
            Variable::Return { value } => {
                let inner: Variable = (**value).clone();
                Variable::Return { value: Box::new(inner) }
            },
            Variable::Unit {  } => Variable::Unit {  },
        }
    }
}

impl Variable {
    /// Structural equality: values of different kinds are never equal, values
    /// of one kind are equal when what they hold is equal.
    pub fn same_as(&self, other: &Variable) -> (r: bool)
        ensures
            r == (self@ == other@),
        decreases self,
    {
        match (self, other) {
            (Variable::Number { value: a }, Variable::Number { value: b }) => *a == *b,
            (Variable::Text { value: a }, Variable::Text { value: b }) => *a == *b,
            (Variable::Return { value: a }, Variable::Return { value: b }) => a.same_as(b),
            (Variable::Unit {  }, Variable::Unit {  }) => true,
            _ => false,
        }
    }

    /// Whether the value counts as true in a condition.
    pub fn is_true(&self) -> (r: bool)
        ensures
            r == self@.truthy(),
    {
        match self {
            Variable::Number { value } => *value == 1,
            _ => false,
        }
    }
}

} // verus!
