//! The evaluator: each step of the model as executable code, proved to give
//! the model's outcome.

use crate::error::EvalError;
use crate::external_function::{Decision, ExternalFunction};
use crate::node::{syntax_of_all, syntax_of_opt, Node, NodeKind};
use crate::variable::{result_of, Value, Variable};
use crate::vm::model::{
    agrees,
    block_frame,
    dispatch,
    eval,
    eval_args,
    eval_loop,
    eval_seq,
    follows,
    resumes,
    inherited_frame,
    Arguments,
    ExternalCall,
    Machine,
    Oracle,
    Outcome,
    Program,
};
use crate::vm::operator::{
    apply_to_operands,
    branch_result,
    condition_holds,
    default_value,
    find,
    is_stopping,
    parse_permissions,
    unwrap_return,
};
use crate::vm::scope::{
    copy_permissions,
    define_local,
    frames_of,
    locate,
    store,
    Block,
    Frame,
    LocalVariable,
    VariableStatus,
};
use vstd::prelude::*;

verus! {

/// The models of a list of values.
pub open spec fn values_of(v: Seq<Variable>) -> Seq<Value> {
    Seq::new(v.len(), |i: int| v[i]@)
}

/// What the evaluator reads and never changes: the function table, the
/// handlers in the order in which they are asked, and the limit.
pub struct Script<'a, H> {
    pub functions: &'a Vec<Box<Node>>,
    pub handlers: &'a Vec<H>,
    pub limit: usize,
}

impl<'a, H> Script<'a, H> {
    /// The program that the script is.
    pub open spec fn program(&self) -> Program {
        Program {
            functions: syntax_of_all(*self.functions),
            handlers: self.handlers.len() as nat,
            limit: self.limit as nat,
        }
    }
}

/// The machine that a frame stack and a record of consultations make up.
pub open spec fn machine_of(blocks: Vec<Block>, calls: Seq<ExternalCall>) -> Machine {
    Machine { frames: frames_of(blocks@), calls }
}

/// The outcome that a result and the state it left make up.
pub open spec fn outcome_of(
    r: Result<Option<Variable>, EvalError>,
    blocks: Vec<Block>,
    calls: Seq<ExternalCall>,
) -> Outcome {
    Outcome { result: result_of(r), machine: machine_of(blocks, calls) }
}

/// Pushing a frame onto the stack pushes its model onto the model.
pub proof fn lemma_frames_push(blocks: Seq<Block>, b: Block)
    ensures
        frames_of(blocks.push(b)) == frames_of(blocks).push(b@),
{
    assert(frames_of(blocks.push(b)) =~= frames_of(blocks).push(b@));
}

/// Dropping the innermost frame drops its model from the model.
pub proof fn lemma_frames_pop(blocks: Seq<Block>)
    requires
        blocks.len() > 0,
    ensures
        frames_of(blocks.drop_last()) == frames_of(blocks).drop_last(),
        frames_of(blocks).last() == blocks.last()@,
{
    assert(frames_of(blocks.drop_last()) =~= frames_of(blocks).drop_last());
}

/// Asks the handlers in order for the call of `name`, until one decides.
pub(crate) fn dispatch_from<H: ExternalFunction>(
    script: &Script<H>,
    blocks: &Vec<Block>,
    calls: &mut Ghost<Seq<ExternalCall>>,
    name: &String,
    args: &Vec<Variable>,
) -> (r: Result<Option<Variable>, EvalError>)
    requires
        blocks.len() > 0,
    ensures
        follows(
            old(calls)@,
            final(calls)@,
            |o: Oracle| dispatch(
                script.program(),
                name@,
                values_of(args@),
                machine_of(*blocks, old(calls)@),
                0,
                o,
            ),
            outcome_of(r, *blocks, final(calls)@),
        ),
{
    let ghost p = script.program();
    let ghost m0 = machine_of(*blocks, calls@);
    let top: usize = blocks.len() - 1;
    proof {
        lemma_frames_pop(blocks@);
    }
    let mut k: usize = 0;
    while k < script.handlers.len()
        invariant
            k <= script.handlers.len(),
            top == blocks.len() - 1,
            p == script.program(),
            m0 == machine_of(*blocks, old(calls)@),
            m0.frames.last() == blocks[top as int]@,
            resumes(
                m0.calls,
                calls@,
                |o: Oracle| dispatch(p, name@, values_of(args@), m0, 0, o),
                |o: Oracle|
                    dispatch(
                        p,
                        name@,
                        values_of(args@),
                        machine_of(*blocks, calls@),
                        k as int,
                        o,
                    ),
            ),
        decreases script.handlers.len() - k,
    {
        let answer = script.handlers[k].call(name, args, &blocks[top].accept, &blocks[top].reject);
        let ghost before = calls@;
        *calls = Ghost(
            before.push(
                ExternalCall {
                    handler: k as int,
                    name: name@,
                    args: values_of(args@),
                    accept: blocks[top as int].accept@,
                    reject: blocks[top as int].reject@,
                    reply: answer@,
                },
            ),
        );
        assert forall|o: Oracle| #[trigger] agrees(o, calls@) implies agrees(o, before) && o(
            before.len() as int,
        ) == answer@ by {
            assert(calls@[before.len() as int].reply == answer@);
            assert forall|i: int| 0 <= i < before.len() implies o(i) == (
            #[trigger] before[i]).reply by {
                assert(calls@[i] == before[i]);
            }
        }
        match answer.decide() {
            Decision::Done(r) => {
                return r;
            },
            Decision::Next => {},
        }
        k = k + 1;
    }
    Err(EvalError::UndefinedFunction)
}

/// The frame that a block opens on top of `top`.
pub(crate) fn open_block(permission: &Option<Box<Node>>, top: &Block) -> (r: Result<
    Block,
    EvalError,
>)
    ensures
        match r {
            Ok(b) => block_frame(syntax_of_opt(*permission), top@) == Ok::<Frame, EvalError>(b@),
            Err(e) => block_frame(syntax_of_opt(*permission), top@) == Err::<Frame, EvalError>(e),
        },
{
    match permission {
        Some(b) => match &**b {
            Node::Permission { accept, reject } => {
                match (parse_permissions(accept), parse_permissions(reject)) {
                    (Some(a), Some(r)) => Ok(Block::new(a, r, false)),
                    _ => Err(EvalError::UnknownPermission),
                }
            },
            _ => Ok(inherit(top, false)),
        },
        None => Ok(inherit(top, false)),
    }
}

/// An empty frame with the permissions of `top`.
pub(crate) fn inherit(top: &Block, is_split: bool) -> (r: Block)
    ensures
        r@ == inherited_frame(top@, is_split),
{
    Block::new(copy_permissions(&top.accept), copy_permissions(&top.reject), is_split)
}

/// Evaluates one node against the frame stack.
pub(crate) fn eval_node<H: ExternalFunction>(
    script: &Script<H>,
    blocks: &mut Vec<Block>,
    calls: &mut Ghost<Seq<ExternalCall>>,
    node: &Node,
    depth: usize,
) -> (r: Result<Option<Variable>, EvalError>)
    requires
        old(blocks).len() > 0,
    ensures
        final(blocks).len() == old(blocks).len(),
        follows(
            old(calls)@,
            final(calls)@,
            |o: Oracle| eval(
                script.program(),
                node@,
                machine_of(*old(blocks), old(calls)@),
                depth as nat,
                o,
            ),
            outcome_of(r, *final(blocks), final(calls)@),
        ),
    decreases depth, node, 1nat,
{
    match node {
        Node::Text { value } => Ok(Some(Variable::Text { value: value.clone() })),
        Node::Number { value } => Ok(Some(Variable::Number { value: *value })),
        Node::Lvar { value } => match locate(blocks, value) {
            Some((i, j)) => Ok(Some(blocks[i].variables[j].value.clone())),
            None => Err(EvalError::UnboundVariable),
        },
        Node::Define { name, var_type } => match default_value(var_type) {
            Some(value) => {
                let status = VariableStatus::default();
                define_local(blocks, LocalVariable { name: name.clone(), value, status });
                Ok(None)
            },
            None => Err(EvalError::UnknownType),
        },
        Node::Return { lhs } => match eval_node(script, blocks, calls, lhs, depth) {
            Err(e) => Err(e),
            Ok(None) => Err(EvalError::TypeMismatch),
            Ok(Some(v)) => Ok(Some(Variable::Return { value: Box::new(v) })),
        },
        Node::Operator { .. } => eval_operator(script, blocks, calls, node, depth),
        Node::If { .. } => eval_if(script, blocks, calls, node, depth),
        Node::While { .. } => run_loop(script, blocks, calls, node, depth),
        Node::For { init, .. } => {
            match init {
                Some(i) => {
                    match eval_node(script, blocks, calls, i, depth) {
                        Err(e) => {
                            return Err(e);
                        },
                        Ok(_) => {},
                    }
                },
                None => {},
            }
            run_loop(script, blocks, calls, node, depth)
        },
        Node::Block { .. } => eval_block(script, blocks, calls, node, depth),
        Node::Call { .. } => eval_call(script, blocks, calls, node, depth),
        Node::Function { .. } => Ok(None),
        Node::Permission { .. } => Ok(None),
        Node::Empty => Ok(None),
    }
}

/// Evaluates an assignment, an arithmetic operation or a comparison.
pub(crate) fn eval_operator<H: ExternalFunction>(
    script: &Script<H>,
    blocks: &mut Vec<Block>,
    calls: &mut Ghost<Seq<ExternalCall>>,
    node: &Node,
    depth: usize,
) -> (r: Result<Option<Variable>, EvalError>)
    requires
        old(blocks).len() > 0,
        node is Operator,
    ensures
        final(blocks).len() == old(blocks).len(),
        follows(
            old(calls)@,
            final(calls)@,
            |o: Oracle| eval(
                script.program(),
                node@,
                machine_of(*old(blocks), old(calls)@),
                depth as nat,
                o,
            ),
            outcome_of(r, *final(blocks), final(calls)@),
        ),
    decreases depth, node, 0nat,
{
    match node {
        Node::Operator { kind, lhs, rhs } => {
            if *kind == NodeKind::ASSIGN {
                let name = match &**lhs {
                    Node::Lvar { value } => value,
                    _ => {
                        return Err(EvalError::TypeMismatch);
                    },
                };
                match eval_node(script, blocks, calls, rhs, depth) {
                    Err(e) => Err(e),
                    Ok(None) => Ok(None),
                    Ok(Some(v)) => match locate(blocks, name) {
                        Some((i, j)) => {
                            store(blocks, i, j, v);
                            Ok(None)
                        },
                        None => Err(EvalError::UnboundVariable),
                    },
                }
            } else {
                let a = match eval_node(script, blocks, calls, lhs, depth) {
                    Err(e) => {
                        return Err(e);
                    },
                    Ok(a) => a,
                };
                let b = match eval_node(script, blocks, calls, rhs, depth) {
                    Err(e) => {
                        return Err(e);
                    },
                    Ok(b) => b,
                };
                apply_to_operands(*kind, &a, &b)
            }
        },
        _ => Ok(None),
    }
}

/// Evaluates a conditional.
pub(crate) fn eval_if<H: ExternalFunction>(
    script: &Script<H>,
    blocks: &mut Vec<Block>,
    calls: &mut Ghost<Seq<ExternalCall>>,
    node: &Node,
    depth: usize,
) -> (r: Result<Option<Variable>, EvalError>)
    requires
        old(blocks).len() > 0,
        node is If,
    ensures
        final(blocks).len() == old(blocks).len(),
        follows(
            old(calls)@,
            final(calls)@,
            |o: Oracle| eval(
                script.program(),
                node@,
                machine_of(*old(blocks), old(calls)@),
                depth as nat,
                o,
            ),
            outcome_of(r, *final(blocks), final(calls)@),
        ),
    decreases depth, node, 0nat,
{
    match node {
        Node::If { condition, stmt, else_stmt } => {
            let c = match eval_node(script, blocks, calls, condition, depth) {
                Err(e) => {
                    return Err(e);
                },
                Ok(None) => {
                    return Ok(None);
                },
                Ok(Some(c)) => c,
            };
            let taken: &Node = if c.is_true() {
                stmt
            } else {
                match else_stmt {
                    Some(e) => e,
                    None => {
                        return Ok(None);
                    },
                }
            };
            branch_result(eval_node(script, blocks, calls, taken, depth))
        },
        _ => Ok(None),
    }
}

/// Runs a loop from the test of its condition.
pub(crate) fn run_loop<H: ExternalFunction>(
    script: &Script<H>,
    blocks: &mut Vec<Block>,
    calls: &mut Ghost<Seq<ExternalCall>>,
    node: &Node,
    depth: usize,
) -> (r: Result<Option<Variable>, EvalError>)
    requires
        old(blocks).len() > 0,
        node is While || node is For,
    ensures
        final(blocks).len() == old(blocks).len(),
        follows(
            old(calls)@,
            final(calls)@,
            |o: Oracle| eval_loop(
                script.program(),
                node@,
                machine_of(*old(blocks), old(calls)@),
                depth as nat,
                script.limit as nat,
                o,
            ),
            outcome_of(r, *final(blocks), final(calls)@),
        ),
    decreases depth, node, 0nat,
{
    let ghost p = script.program();
    let ghost m0 = machine_of(*blocks, calls@);
    let mut left: usize = script.limit;
    loop
        invariant
            left <= script.limit,
            node is While || node is For,
            blocks.len() == old(blocks).len(),
            blocks.len() > 0,
            p == script.program(),
            m0 == machine_of(*old(blocks), old(calls)@),
            resumes(
                m0.calls,
                calls@,
                |o: Oracle| eval_loop(p, node@, m0, depth as nat, script.limit as nat, o),
                |o: Oracle|
                    eval_loop(
                        p,
                        node@,
                        machine_of(*blocks, calls@),
                        depth as nat,
                        left as nat,
                        o,
                    ),
            ),
        decreases left,
    {
        let condition: Option<&Node> = match node {
            Node::While { condition, .. } => Some(condition),
            Node::For { condition: Some(c), .. } => Some(c),
            _ => None,
        };
        let c = match condition {
            Some(n) => match eval_node(script, blocks, calls, n, depth) {
                Err(e) => {
                    return Err(e);
                },
                Ok(c) => c,
            },
            None => Some(Variable::Number { value: 1 }),
        };
        if !condition_holds(&c) {
            return Ok(None);
        }
        if left == 0 {
            return Err(EvalError::LimitExceeded);
        }
        let body: &Node = match node {
            Node::While { stmt, .. } => stmt,
            Node::For { stmt, .. } => stmt,
            _ => node,
        };
        let b = eval_node(script, blocks, calls, body, depth);
        if is_stopping(&b) {
            return b;
        }
        match node {
            Node::For { update: Some(u), .. } => {
                match eval_node(script, blocks, calls, u, depth) {
                    Err(e) => {
                        return Err(e);
                    },
                    Ok(_) => {},
                }
            },
            _ => {},
        }
        left = left - 1;
    }
}

/// Evaluates statements in order until one stops the sequence.
pub(crate) fn run_seq<H: ExternalFunction>(
    script: &Script<H>,
    blocks: &mut Vec<Block>,
    calls: &mut Ghost<Seq<ExternalCall>>,
    stmts: &Vec<Box<Node>>,
    depth: usize,
) -> (r: Result<Option<Variable>, EvalError>)
    requires
        old(blocks).len() > 0,
    ensures
        final(blocks).len() == old(blocks).len(),
        follows(
            old(calls)@,
            final(calls)@,
            |o: Oracle| eval_seq(
                script.program(),
                syntax_of_all(*stmts),
                0,
                machine_of(*old(blocks), old(calls)@),
                depth as nat,
                o,
            ),
            outcome_of(r, *final(blocks), final(calls)@),
        ),
    decreases depth, stmts, 0nat,
{
    let ghost p = script.program();
    let ghost m0 = machine_of(*blocks, calls@);
    let ghost body = syntax_of_all(*stmts);
    let mut i: usize = 0;
    while i < stmts.len()
        invariant
            i <= stmts.len(),
            blocks.len() == old(blocks).len(),
            blocks.len() > 0,
            p == script.program(),
            m0 == machine_of(*old(blocks), old(calls)@),
            body == syntax_of_all(*stmts),
            resumes(
                m0.calls,
                calls@,
                |o: Oracle| eval_seq(p, body, 0, m0, depth as nat, o),
                |o: Oracle|
                    eval_seq(p, body, i as int, machine_of(*blocks, calls@), depth as nat, o),
            ),
        decreases stmts.len() - i,
    {
        assert(body[i as int] == stmts[i as int]@);
        let r = eval_node(script, blocks, calls, &stmts[i], depth);
        if is_stopping(&r) {
            return r;
        }
        i = i + 1;
    }
    Ok(None)
}

/// Evaluates a block in a frame of its own, which is gone when it returns.
pub(crate) fn eval_block<H: ExternalFunction>(
    script: &Script<H>,
    blocks: &mut Vec<Block>,
    calls: &mut Ghost<Seq<ExternalCall>>,
    node: &Node,
    depth: usize,
) -> (r: Result<Option<Variable>, EvalError>)
    requires
        old(blocks).len() > 0,
        node is Block,
    ensures
        final(blocks).len() == old(blocks).len(),
        follows(
            old(calls)@,
            final(calls)@,
            |o: Oracle| eval(
                script.program(),
                node@,
                machine_of(*old(blocks), old(calls)@),
                depth as nat,
                o,
            ),
            outcome_of(r, *final(blocks), final(calls)@),
        ),
    decreases depth, node, 0nat,
{
    match node {
        Node::Block { stmts, permission } => {
            proof {
                lemma_frames_pop(blocks@);
            }
            let frame = match open_block(permission, &blocks[blocks.len() - 1]) {
                Ok(b) => b,
                Err(e) => {
                    return Err(e);
                },
            };
            proof {
                lemma_frames_push(blocks@, frame);
            }
            blocks.push(frame);
            let r = run_seq(script, blocks, calls, stmts, depth);
            proof {
                lemma_frames_pop(blocks@);
            }
            blocks.pop();
            r
        },
        _ => Ok(None),
    }
}

/// Evaluates the arguments of a call, left to right.
pub(crate) fn eval_arguments<H: ExternalFunction>(
    script: &Script<H>,
    blocks: &mut Vec<Block>,
    calls: &mut Ghost<Seq<ExternalCall>>,
    args: &Vec<Box<Node>>,
    depth: usize,
) -> (r: Result<Vec<Variable>, EvalError>)
    requires
        old(blocks).len() > 0,
    ensures
        final(blocks).len() == old(blocks).len(),
        follows(
            old(calls)@,
            final(calls)@,
            |o: Oracle| eval_args(
                script.program(),
                syntax_of_all(*args),
                0,
                Seq::empty(),
                machine_of(*old(blocks), old(calls)@),
                depth as nat,
                o,
            ),
            (Arguments {
                result: match r {
                    Ok(v) => Ok(values_of(v@)),
                    Err(e) => Err(e),
                },
                machine: machine_of(*final(blocks), final(calls)@),
            }),
        ),
    decreases depth, args, 0nat,
{
    let ghost p = script.program();
    let ghost m0 = machine_of(*blocks, calls@);
    let ghost list = syntax_of_all(*args);
    let mut values: Vec<Variable> = Vec::new();
    let mut i: usize = 0;
    assert(values_of(values@) =~= Seq::<Value>::empty());
    while i < args.len()
        invariant
            i <= args.len(),
            blocks.len() == old(blocks).len(),
            blocks.len() > 0,
            p == script.program(),
            m0 == machine_of(*old(blocks), old(calls)@),
            list == syntax_of_all(*args),
            resumes(
                m0.calls,
                calls@,
                |o: Oracle| eval_args(p, list, 0, Seq::empty(), m0, depth as nat, o),
                |o: Oracle|
                    eval_args(
                        p,
                        list,
                        i as int,
                        values_of(values@),
                        machine_of(*blocks, calls@),
                        depth as nat,
                        o,
                    ),
            ),
        decreases args.len() - i,
    {
        let ghost before = values_of(values@);
        assert(list[i as int] == args[i as int]@);
        match eval_node(script, blocks, calls, &args[i], depth) {
            Err(e) => {
                return Err(e);
            },
            Ok(Some(v)) => {
                values.push(v);
                assert(values_of(values@) =~= before.push(v@));
            },
            Ok(None) => {},
        }
        i = i + 1;
    }
    Ok(values)
}

/// Evaluates a call: a script function if the name is one, else the handlers.
pub(crate) fn eval_call<H: ExternalFunction>(
    script: &Script<H>,
    blocks: &mut Vec<Block>,
    calls: &mut Ghost<Seq<ExternalCall>>,
    node: &Node,
    depth: usize,
) -> (r: Result<Option<Variable>, EvalError>)
    requires
        old(blocks).len() > 0,
        node is Call,
    ensures
        final(blocks).len() == old(blocks).len(),
        follows(
            old(calls)@,
            final(calls)@,
            |o: Oracle| eval(
                script.program(),
                node@,
                machine_of(*old(blocks), old(calls)@),
                depth as nat,
                o,
            ),
            outcome_of(r, *final(blocks), final(calls)@),
        ),
    decreases depth, node, 0nat,
{
    match node {
        Node::Call { name, args } => {
            let values = match eval_arguments(script, blocks, calls, args, depth) {
                Err(e) => {
                    return Err(e);
                },
                Ok(v) => v,
            };
            match find(script.functions, name) {
                Some(at) => {
                    if depth == 0 {
                        return Err(EvalError::LimitExceeded);
                    }
                    proof {
                        lemma_frames_pop(blocks@);
                    }
                    let frame = inherit(&blocks[blocks.len() - 1], true);
                    proof {
                        lemma_frames_push(blocks@, frame);
                    }
                    blocks.push(frame);
                    let r = match &*script.functions[at] {
                        Node::Function { body, .. } => run_seq(
                            script,
                            blocks,
                            calls,
                            body,
                            depth - 1,
                        ),
                        _ => Ok(None),
                    };
                    proof {
                        lemma_frames_pop(blocks@);
                    }
                    blocks.pop();
                    unwrap_return(r)
                },
                None => dispatch_from(script, blocks, calls, name, &values),
            }
        },
        _ => Ok(None),
    }
}

} // verus!
