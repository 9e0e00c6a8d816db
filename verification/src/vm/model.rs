//! The meaning of a program: evaluation as a mathematical function.
//!
//! The host's handlers are the one thing the model cannot compute. Their
//! answers are taken from an oracle, a function from the number of answers
//! received so far to the next answer. The evaluator is correct for every
//! oracle that agrees with the answers it actually received.

use crate::error::EvalError;
use crate::external_function::{ExternalFuncStatus, Reply, Verdict};
use crate::node::{NodeKind, Syntax};
use crate::permission::{permission_of, Permission};
use crate::variable::Value;
use crate::vm::scope::{assigned, defined, resolve, Frame, Local};
use vstd::prelude::*;

verus! {

/// One consultation of a handler: which handler, what it was handed, and what
/// it answered.
pub struct ExternalCall {
    pub handler: int,
    pub name: Seq<char>,
    pub args: Seq<Value>,
    pub accept: Seq<Permission>,
    pub reject: Seq<Permission>,
    pub reply: Reply,
}

/// What evaluation changes: the frame stack, innermost frame last, and the
/// record of the handlers consulted so far.
pub struct Machine {
    pub frames: Seq<Frame>,
    pub calls: Seq<ExternalCall>,
}

/// What evaluation reads and never changes: the script's functions, the number
/// of handlers, and the limit on loop iterations and on call depth.
pub struct Program {
    pub functions: Seq<Syntax>,
    pub handlers: nat,
    pub limit: nat,
}

/// The result of an evaluation and the machine it leaves.
pub struct Outcome {
    pub result: Result<Option<Value>, EvalError>,
    pub machine: Machine,
}

/// The answers of the handlers, by the number of answers given before.
pub type Oracle = spec_fn(int) -> Reply;

/// The oracle gives the answers that the record holds.
pub open spec fn agrees(o: Oracle, calls: Seq<ExternalCall>) -> bool {
    forall|i: int| 0 <= i < calls.len() ==> o(i) == (#[trigger] calls[i]).reply
}

/// The record `after` begins with the record `before`.
pub open spec fn extends(after: Seq<ExternalCall>, before: Seq<ExternalCall>) -> bool {
    &&& before.len() <= after.len()
    &&& forall|i: int| 0 <= i < before.len() ==> (#[trigger] before[i]) == after[i]
}

/// Evaluation ended without a value.
pub open spec fn nothing(m: Machine) -> Outcome {
    Outcome { result: Ok(None), machine: m }
}

/// Evaluation ended with the value `v`.
pub open spec fn value(v: Value, m: Machine) -> Outcome {
    Outcome { result: Ok(Some(v)), machine: m }
}

/// Evaluation was abandoned with the error `e`.
pub open spec fn failure(e: EvalError, m: Machine) -> Outcome {
    Outcome { result: Err(e), machine: m }
}

/// The result is a value on its way out of a function.
pub open spec fn returning(r: Result<Option<Value>, EvalError>) -> bool {
    r matches Ok(Some(Value::Return(_)))
}

/// The result ends the statement sequence or loop that produced it.
pub open spec fn stops(r: Result<Option<Value>, EvalError>) -> bool {
    r is Err || returning(r)
}

/// The value of a condition as a truth value; no value counts as false.
pub open spec fn holds(v: Option<Value>) -> bool {
    match v {
        Some(x) => x.truthy(),
        None => false,
    }
}

/// The body of the first function named `name` at or after place `i`.
pub open spec fn find_function(functions: Seq<Syntax>, name: Seq<char>, i: int) -> Option<
    Seq<Syntax>,
>
    decreases functions.len() - i,
{
    if i < 0 || i >= functions.len() {
        None
    } else {
        match functions[i] {
            Syntax::Function { name: n, body, params } => if n == name {
                Some(body)
            } else {
                find_function(functions, name, i + 1)
            },
            _ => find_function(functions, name, i + 1),
        }
    }
}

/// The result of an arithmetic operation or comparison on two values.
/// Numbers are the non-negative integers that fit the machine word.
pub open spec fn binary(kind: NodeKind, a: Value, b: Value) -> Result<Option<Value>, EvalError> {
    match kind {
        NodeKind::EQ => Ok(Some(Value::of_bool(a == b))),
        NodeKind::NE => Ok(Some(Value::of_bool(a != b))),
        NodeKind::ASSIGN => Ok(None),
        _ => match (a, b) {
            (Value::Number(x), Value::Number(y)) => match kind {
                NodeKind::ADD => if x + y <= usize::MAX {
                    Ok(Some(Value::Number(x + y)))
                } else {
                    Err(EvalError::ArithmeticOverflow)
                },
                NodeKind::SUB => if x >= y {
                    Ok(Some(Value::Number(x - y)))
                } else {
                    Err(EvalError::ArithmeticUnderflow)
                },
                NodeKind::MUL => if x * y <= usize::MAX {
                    Ok(Some(Value::Number(x * y)))
                } else {
                    Err(EvalError::ArithmeticOverflow)
                },
                NodeKind::DIV => if y == 0 {
                    Err(EvalError::DivisionByZero)
                } else {
                    Ok(Some(Value::Number(x / y)))
                },
                NodeKind::LT => Ok(Some(Value::of_bool(x < y))),
                _ => Ok(Some(Value::of_bool(x <= y))),
            },
            _ => Err(EvalError::TypeMismatch),
        },
    }
}

/// The result of a binary operation on two operands, either of which may
/// have produced no value.
pub open spec fn combine(kind: NodeKind, a: Option<Value>, b: Option<Value>) -> Result<
    Option<Value>,
    EvalError,
> {
    match (a, b) {
        (Some(x), Some(y)) => binary(kind, x, y),
        _ => Err(EvalError::TypeMismatch),
    }
}

/// The value a variable of the named type starts with.
pub open spec fn initial_value(var_type: Seq<char>) -> Option<Value> {
    if var_type == "num"@ {
        Some(Value::Number(0))
    } else if var_type == "String"@ {
        Some(Value::Text(Seq::empty()))
    } else {
        None
    }
}

/// The capabilities that a list of tokens names, if each names one.
pub open spec fn permissions_of(tokens: Seq<Seq<char>>) -> Option<Seq<Permission>> {
    if forall|i: int| 0 <= i < tokens.len() ==> permission_of(#[trigger] tokens[i]) is Some {
        Some(Seq::new(tokens.len(), |i: int| permission_of(tokens[i]).unwrap()))
    } else {
        None
    }
}

/// The frame that a block opens. An annotation replaces the permissions in
/// force; without one the block has those of the frame `top` around it.
pub open spec fn block_frame(permission: Option<Box<Syntax>>, top: Frame) -> Result<
    Frame,
    EvalError,
> {
    match permission {
        Some(b) => match *b {
            Syntax::Permission { accept, reject } => match (
                permissions_of(accept),
                permissions_of(reject),
            ) {
                (Some(a), Some(r)) => Ok(
                    Frame { accept: a, reject: r, variables: Map::empty(), is_split: false },
                ),
                _ => Err(EvalError::UnknownPermission),
            },
            _ => Ok(inherited_frame(top, false)),
        },
        None => Ok(inherited_frame(top, false)),
    }
}

/// An empty frame with the permissions of `top`.
pub open spec fn inherited_frame(top: Frame, is_split: bool) -> Frame {
    Frame { accept: top.accept, reject: top.reject, variables: Map::empty(), is_split }
}

/// The frame in which `run` evaluates a function: every capability granted,
/// none denied, and a call boundary.
pub open spec fn root_frame() -> Frame {
    Frame {
        accept: seq![Permission::Administrator, Permission::StdIo],
        reject: Seq::empty(),
        variables: Map::empty(),
        is_split: true,
    }
}

impl Machine {
    /// The machine with `frame` as its new innermost frame.
    pub open spec fn push(self, frame: Frame) -> Machine {
        Machine { frames: self.frames.push(frame), ..self }
    }

    /// The machine without its innermost frame.
    pub open spec fn pop(self) -> Machine {
        Machine { frames: self.frames.drop_last(), ..self }
    }

    /// The machine after one more handler was consulted.
    pub open spec fn consulted(self, call: ExternalCall) -> Machine {
        Machine { calls: self.calls.push(call), ..self }
    }
}

/// The outcome with the innermost frame of its machine removed.
pub open spec fn leave(r: Outcome) -> Outcome {
    Outcome { result: r.result, machine: r.machine.pop() }
}

/// The result of a call from the result of the called function's body: the
/// returned value unwrapped, or the unit value if nothing was returned.
pub open spec fn call_result(r: Result<Option<Value>, EvalError>) -> Result<
    Option<Value>,
    EvalError,
> {
    match r {
        Err(e) => Err(e),
        Ok(Some(Value::Return(v))) => Ok(Some(*v)),
        Ok(_) => Ok(Some(Value::Unit)),
    }
}

/// The machine after handler `k` was asked for `name` and gave the oracle's
/// next answer: the record has one entry more, which says what the handler
/// was handed, the permissions of the innermost frame among it.
pub open spec fn consult(
    m: Machine,
    k: int,
    name: Seq<char>,
    args: Seq<Value>,
    o: Oracle,
) -> Machine {
    m.consulted(
        ExternalCall {
            handler: k,
            name,
            args,
            accept: m.frames.last().accept,
            reject: m.frames.last().reject,
            reply: o(m.calls.len() as int),
        },
    )
}

/// Asks the handlers from handler `k` on, in order, until one decides.
pub open spec fn dispatch(
    p: Program,
    name: Seq<char>,
    args: Seq<Value>,
    m: Machine,
    k: int,
    o: Oracle,
) -> Outcome
    decreases p.handlers - k,
{
    if k < 0 || k >= p.handlers {
        failure(EvalError::UndefinedFunction, m)
    } else {
        match o(m.calls.len() as int).verdict() {
            Verdict::Done(r) => Outcome { result: r, machine: consult(m, k, name, args, o) },
            Verdict::Next => dispatch(p, name, args, consult(m, k, name, args, o), k + 1, o),
        }
    }
}

/// The values of the arguments of a call, or the error that one of them gave,
/// and the machine that their evaluation left.
pub struct Arguments {
    pub result: Result<Seq<Value>, EvalError>,
    pub machine: Machine,
}

/// Evaluates `node` on machine `m`, with room for `depth` nested script calls.
/// The first error ends the evaluation; the machine is then as the error
/// found it, but for the frames of blocks and calls, which are always left.
pub open spec fn eval(p: Program, node: Syntax, m: Machine, depth: nat, o: Oracle) -> Outcome
    decreases depth, node, p.limit + 2,
{
    match node {
        // A literal is its own value.
        Syntax::Text { value: v } => value(Value::Text(v), m),
        Syntax::Number { value: v } => value(Value::Number(v), m),
        // A name is the value of the variable it means.
        Syntax::Lvar { name } => match resolve(m.frames, name) {
            Some(i) => value(m.frames[i].variables[name].value, m),
            None => failure(EvalError::UnboundVariable, m),
        },
        // A definition puts a variable into the innermost frame.
        Syntax::Define { name, var_type } => match initial_value(var_type) {
            Some(v) => nothing(
                Machine {
                    frames: defined(m.frames, Local { name, value: v, initialized: false }),
                    ..m
                },
            ),
            None => failure(EvalError::UnknownType, m),
        },
        // A return wraps the value of its operand, which must have one.
        Syntax::Return { expr } => {
            let r = eval(p, *expr, m, depth, o);
            match r.result {
                Err(_) => r,
                Ok(None) => failure(EvalError::TypeMismatch, r.machine),
                Ok(Some(v)) => value(Value::Return(Box::new(v)), r.machine),
            }
        },
        // An assignment evaluates its right side only; the left side must be
        // a name. A right side without a value assigns nothing.
        Syntax::Operator { kind, lhs, rhs } => if kind == NodeKind::ASSIGN {
            match *lhs {
                Syntax::Lvar { name } => {
                    let r = eval(p, *rhs, m, depth, o);
                    match r.result {
                        Err(_) => r,
                        Ok(None) => r,
                        Ok(Some(v)) => match resolve(r.machine.frames, name) {
                            Some(i) => nothing(
                                Machine {
                                    frames: assigned(r.machine.frames, i, name, v),
                                    ..r.machine
                                },
                            ),
                            None => failure(EvalError::UnboundVariable, r.machine),
                        },
                    }
                },
                _ => failure(EvalError::TypeMismatch, m),
            }
        } else {
            // Any other operation evaluates the left side, then the right.
            let a = eval(p, *lhs, m, depth, o);
            if a.result is Err {
                a
            } else {
                let b = eval(p, *rhs, a.machine, depth, o);
                if b.result is Err {
                    b
                } else {
                    Outcome {
                        result: combine(kind, a.result->Ok_0, b.result->Ok_0),
                        machine: b.machine,
                    }
                }
            }
        },
        // A conditional takes the first branch if the condition is the
        // number one, the second if it is any other value, and none if it
        // has no value.
        Syntax::If { condition, stmt, else_stmt } => {
            let c = eval(p, *condition, m, depth, o);
            match c.result {
                Err(_) => c,
                Ok(None) => c,
                Ok(Some(v)) => if v.truthy() {
                    branch(eval(p, *stmt, c.machine, depth, o))
                } else {
                    match else_stmt {
                        Some(e) => branch(eval(p, *e, c.machine, depth, o)),
                        None => nothing(c.machine),
                    }
                },
            }
        },
        // A loop may run as often as the limit says.
        Syntax::While { condition, stmt } => eval_loop(p, node, m, depth, p.limit, o),
        Syntax::For { init, condition, update, stmt } => match init {
            Some(i) => {
                let r = eval(p, *i, m, depth, o);
                if r.result is Err {
                    r
                } else {
                    eval_loop(p, node, r.machine, depth, p.limit, o)
                }
            },
            None => eval_loop(p, node, m, depth, p.limit, o),
        },
        // A block runs its statements in a frame of its own.
        Syntax::Block { stmts, permission } => match block_frame(permission, m.frames.last()) {
            Ok(frame) => leave(eval_seq(p, stmts, 0, m.push(frame), depth, o)),
            Err(e) => failure(e, m),
        },
        // A call evaluates its arguments in the caller's frame. Then a
        // function of the script runs in a frame behind a call boundary,
        // with the caller's permissions; any other name goes to the handlers.
        Syntax::Call { name, args } => {
            let a = eval_args(p, args, 0, Seq::empty(), m, depth, o);
            match a.result {
                Err(e) => failure(e, a.machine),
                Ok(values) => match find_function(p.functions, name, 0) {
                    Some(body) => if depth == 0 {
                        failure(EvalError::LimitExceeded, a.machine)
                    } else {
                        let r = leave(
                            eval_seq(
                                p,
                                body,
                                0,
                                a.machine.push(inherited_frame(a.machine.frames.last(), true)),
                                (depth - 1) as nat,
                                o,
                            ),
                        );
                        Outcome { result: call_result(r.result), machine: r.machine }
                    },
                    None => dispatch(p, name, values, a.machine, 0, o),
                },
            }
        },
        // What is no statement and no expression does nothing.
        _ => nothing(m),
    }
}

/// The outcome of an `if` from the outcome of the branch it took: an error
/// or a returning value passes, anything else is dropped.
pub open spec fn branch(r: Outcome) -> Outcome {
    if stops(r.result) {
        r
    } else {
        nothing(r.machine)
    }
}

/// Evaluates the statements from statement `i` on, in order, until one stops
/// the sequence.
pub open spec fn eval_seq(
    p: Program,
    stmts: Seq<Syntax>,
    i: int,
    m: Machine,
    depth: nat,
    o: Oracle,
) -> Outcome
    decreases depth, stmts, stmts.len() - i,
{
    if i < 0 || i >= stmts.len() {
        nothing(m)
    } else {
        let r = eval(p, stmts[i], m, depth, o);
        if stops(r.result) {
            r
        } else {
            eval_seq(p, stmts, i + 1, r.machine, depth, o)
        }
    }
}

/// Evaluates the arguments from argument `i` on, left to right.
pub open spec fn eval_args(
    p: Program,
    args: Seq<Syntax>,
    i: int,
    acc: Seq<Value>,
    m: Machine,
    depth: nat,
    o: Oracle,
) -> Arguments
    decreases depth, args, args.len() - i,
{
    if i < 0 || i >= args.len() {
        Arguments { result: Ok(acc), machine: m }
    } else {
        let r = eval(p, args[i], m, depth, o);
        match r.result {
            Err(e) => Arguments { result: Err(e), machine: r.machine },
            Ok(Some(v)) => eval_args(p, args, i + 1, acc.push(v), r.machine, depth, o),
            Ok(None) => eval_args(p, args, i + 1, acc, r.machine, depth, o),
        }
    }
}

/// The condition of a loop, if it has one.
pub open spec fn loop_condition(node: Syntax) -> Option<Box<Syntax>> {
    match node {
        Syntax::While { condition, stmt } => Some(condition),
        Syntax::For { init, condition, update, stmt } => condition,
        _ => None,
    }
}

/// The step that a loop takes after its body, if it has one.
pub open spec fn loop_update(node: Syntax) -> Option<Box<Syntax>> {
    match node {
        Syntax::For { init, condition, update, stmt } => update,
        _ => None,
    }
}

/// The body of a loop.
pub open spec fn loop_body(node: Syntax) -> Syntax {
    match node {
        Syntax::While { condition, stmt } => *stmt,
        Syntax::For { init, condition, update, stmt } => *stmt,
        _ => Syntax::Empty,
    }
}

/// Runs the loop `node` from the test of its condition, with `left`
/// iterations to go before the limit. A missing condition is true; a condition
/// without a value is false.
pub open spec fn eval_loop(
    p: Program,
    node: Syntax,
    m: Machine,
    depth: nat,
    left: nat,
    o: Oracle,
) -> Outcome
    decreases depth, node, left + 1,
{
    if !(node is While || node is For) || left > p.limit {
        nothing(m)
    } else {
        let c = match loop_condition(node) {
            Some(c) => eval(p, *c, m, depth, o),
            None => value(Value::Number(1), m),
        };
        if c.result is Err {
            c
        } else if !holds(c.result->Ok_0) {
            nothing(c.machine)
        } else if left == 0 {
            failure(EvalError::LimitExceeded, c.machine)
        } else {
            let b = eval(p, loop_body(node), c.machine, depth, o);
            if stops(b.result) {
                b
            } else {
                let u = match loop_update(node) {
                    Some(u) => eval(p, *u, b.machine, depth, o),
                    None => b,
                };
                if u.result is Err {
                    u
                } else {
                    eval_loop(p, node, u.machine, depth, (left - 1) as nat, o)
                }
            }
        }
    }
}

/// Runs the function named `name` in a frame of its own. A name that the
/// script does not define gives the unit value.
pub open spec fn run(p: Program, name: Seq<char>, m: Machine, o: Oracle) -> Outcome {
    match find_function(p.functions, name, 0) {
        Some(body) => {
            let r = leave(eval_seq(p, body, 0, m.push(root_frame()), p.limit, o));
            Outcome { result: call_result(r.result), machine: r.machine }
        },
        None => value(Value::Unit, m),
    }
}

/// The record `after` continues the record `before`, so that an oracle that
/// agrees with the one agrees with the other; and whatever the handlers would
/// have answered beyond `after`, the model's outcome is `out`.
pub open spec fn follows<T>(
    before: Seq<ExternalCall>,
    after: Seq<ExternalCall>,
    model: spec_fn(Oracle) -> T,
    out: T,
) -> bool {
    &&& extends(after, before)
    &&& forall|o: Oracle| #[trigger] agrees(o, after) ==> agrees(o, before) && model(o) == out
}

/// The record `now` continues the record `before`, and for every oracle that
/// agrees with it what is left to do gives what the whole was to give: the
/// model `whole`, started at `before`, comes to the same as the model `rest`,
/// started at `now`.
pub open spec fn resumes<T>(
    before: Seq<ExternalCall>,
    now: Seq<ExternalCall>,
    whole: spec_fn(Oracle) -> T,
    rest: spec_fn(Oracle) -> T,
) -> bool {
    &&& extends(now, before)
    &&& forall|o: Oracle| #[trigger] agrees(o, now) ==> agrees(o, before) && whole(o) == rest(o)
}

/// The oracle that answers as a record says, and "not found" beyond it.
pub open spec fn replay(calls: Seq<ExternalCall>) -> Oracle {
    |i: int|
        if 0 <= i < calls.len() {
            calls[i].reply
        } else {
            Reply { status: ExternalFuncStatus::NOTFOUND, value: None }
        }
}

/// Every record has an oracle that agrees with it.
pub proof fn lemma_replay_agrees(calls: Seq<ExternalCall>)
    ensures
        agrees(replay(calls), calls),
{
}

} // verus!
