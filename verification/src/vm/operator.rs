//! The operations of the language on values, and small steps of the
//! evaluator that touch no state.

use crate::error::EvalError;

use crate::node::{syntax_of_all, texts_of, Node, NodeKind};
use crate::permission::{permission_of, Permission};
use crate::variable::{result_of, value_of_opt, Value, Variable};
use crate::vm::model::{
    binary,
    call_result,
    combine,
    find_function,
    holds,
    initial_value,
    permissions_of,
    stops,
};
use vstd::prelude::*;

verus! {

/// The number that stands for a truth value.
pub fn truth_value(b: bool) -> (r: Variable)
    ensures
        r@ == Value::of_bool(b),
{
    if b {
        Variable::Number { value: 1 }
    } else {
        Variable::Number { value: 0 }
    }
}

/// The number that a value holds; a value of another kind is a type mismatch.
pub fn number_of(v: &Variable) -> (r: Result<usize, EvalError>)
    ensures
        match r {
            Ok(n) => v@ == Value::Number(n as int),
            Err(e) => e == EvalError::TypeMismatch && !(v@ is Number),
        },
{
    match v {
        Variable::Number { value } => Ok(*value),
        _ => Err(EvalError::TypeMismatch),
    }
}

/// Applies an arithmetic operation or a comparison to two values.
pub fn apply(kind: NodeKind, a: &Variable, b: &Variable) -> (r: Result<
    Option<Variable>,
    EvalError,
>)
    ensures
        result_of(r) == binary(kind, a@, b@),
{
    match kind {
        NodeKind::EQ => Ok(Some(truth_value(a.same_as(b)))),
        NodeKind::NE => Ok(Some(truth_value(!a.same_as(b)))),
        NodeKind::ASSIGN => Ok(None),
        _ => {
            let x: usize = match number_of(a) {
                Ok(n) => n,
                Err(e) => {
                    return Err(e);
                },
            };
            let y: usize = match number_of(b) {
                Ok(n) => n,
                Err(e) => {
                    return Err(e);
                },
            };
            match kind {
                NodeKind::ADD => match x.checked_add(y) {
                    Some(n) => Ok(Some(Variable::Number { value: n })),
                    None => Err(EvalError::ArithmeticOverflow),
                },
                NodeKind::SUB => if x >= y {
                    Ok(Some(Variable::Number { value: x - y }))
                } else {
                    Err(EvalError::ArithmeticUnderflow)
                },
                NodeKind::MUL => match x.checked_mul(y) {
                    Some(n) => Ok(Some(Variable::Number { value: n })),
                    None => Err(EvalError::ArithmeticOverflow),
                },
                NodeKind::DIV => if y == 0 {
                    Err(EvalError::DivisionByZero)
                } else {
                    Ok(Some(Variable::Number { value: x / y }))
                },
                NodeKind::LT => Ok(Some(truth_value(x < y))),
                _ => Ok(Some(truth_value(x <= y))),
            }
        },
    }
}

/// Applies a binary operation to two operands that may lack a value.
pub fn apply_to_operands(kind: NodeKind, a: &Option<Variable>, b: &Option<Variable>) -> (r:
    Result<Option<Variable>, EvalError>)
    ensures
        result_of(r) == combine(kind, value_of_opt(*a), value_of_opt(*b)),
{
    match (a, b) {
        (Some(x), Some(y)) => apply(kind, x, y),
        _ => Err(EvalError::TypeMismatch),
    }
}

/// Whether a result ends the statement sequence or loop that produced it.
pub fn is_stopping(r: &Result<Option<Variable>, EvalError>) -> (b: bool)
    ensures
        b == stops(result_of(*r)),
{
    match r {
        Err(_) => true,
        Ok(Some(Variable::Return { .. })) => true,
        _ => false,
    }
}

/// The result of an `if` from the result of the branch it took: an error
/// or a returning value passes, anything else is dropped.
pub fn branch_result(r: Result<Option<Variable>, EvalError>) -> (out: Result<
    Option<Variable>,
    EvalError,
>)
    ensures
        result_of(out) == (if stops(result_of(r)) {
            result_of(r)
        } else {
            Ok(None)
        }),
{
    if is_stopping(&r) {
        r
    } else {
        Ok(None)
    }
}

/// Whether the value of a condition counts as true.
pub fn condition_holds(v: &Option<Variable>) -> (b: bool)
    ensures
        b == holds(value_of_opt(*v)),
{
    match v {
        Some(x) => x.is_true(),
        None => false,
    }
}

/// The result of a call from the result of the called function's body.
pub fn unwrap_return(r: Result<Option<Variable>, EvalError>) -> (out: Result<
    Option<Variable>,
    EvalError,
>)
    ensures
        result_of(out) == call_result(result_of(r)),
{
    match r {
        Err(e) => Err(e),
        Ok(Some(Variable::Return { value })) => Ok(Some(*value)),
        Ok(_) => Ok(Some(Variable::Unit {  })),
    }
}

/// The value that a variable of the named type starts with.
pub fn default_value(var_type: &String) -> (r: Option<Variable>)
    ensures
        value_of_opt(r) == initial_value(var_type@),
{
    if *var_type == String::from_str("num") {
        Some(Variable::Number { value: 0 })
    } else if *var_type == String::from_str("String") {
        Some(Variable::Text { value: String::new() })
    } else {
        None
    }
}

/// Reads a list of capability tokens; one unknown token fails the list.
pub fn parse_permissions(tokens: &Vec<String>) -> (r: Option<Vec<Permission>>)
    ensures
        match r {
            Some(v) => permissions_of(texts_of(*tokens)) == Some(v@),
            None => permissions_of(texts_of(*tokens)) is None,
        },
{
    let ghost texts = texts_of(*tokens);
    let mut out: Vec<Permission> = Vec::new();
    let mut i: usize = 0;
    while i < tokens.len()
        invariant
            i <= tokens.len(),
            texts == texts_of(*tokens),
            out.len() == i,
            forall|j: int|
                0 <= j < i ==> permission_of(#[trigger] texts[j]) == Some(
                    out[j],
                ),
        decreases tokens.len() - i,
    {
        match Permission::from_string(&tokens[i]) {
            Some(p) => {
                out.push(p);
            },
            None => {
                assert(permission_of(texts[i as int]) is None);
                return None;
            },
        }
        i = i + 1;
    }
    assert(out@ =~= permissions_of(texts).unwrap());
    Some(out)
}

/// The place in the function table of the first function named `name`.
pub fn find(functions: &Vec<Box<Node>>, name: &String) -> (r: Option<usize>)
    ensures
        match r {
            Some(i) => {
                &&& i < functions.len()
                &&& *functions[i as int] is Function
                &&& find_function(syntax_of_all(*functions), name@, 0) == Some(
                    syntax_of_all((*functions[i as int])->body),
                )
            },
            None => find_function(syntax_of_all(*functions), name@, 0) is None,
        },
{
    let ghost table = syntax_of_all(*functions);
    let mut i: usize = 0;
    while i < functions.len()
        invariant
            i <= functions.len(),
            table == syntax_of_all(*functions),
            find_function(table, name@, 0) == find_function(table, name@, i as int),
        decreases functions.len() - i,
    {
        assert(table[i as int] == functions[i as int]@);
        match &*functions[i] {
            Node::Function { name: n, body, args } => {
                if *n == *name {
                    return Some(i);
                }
            },
            _ => {},
        }
        i = i + 1;
    }
    None
}

} // verus!
