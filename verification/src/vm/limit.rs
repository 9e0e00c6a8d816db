//! The limit on loops and on nested calls bounds evaluation and does not
//! change what a program means.

use crate::error::EvalError;
use crate::node::{NodeKind, Syntax};
use crate::variable::Value;
use crate::vm::model::{
    block_frame,
    consult,
    dispatch,
    eval,
    eval_args,
    eval_loop,
    eval_seq,
    find_function,
    holds,
    inherited_frame,
    loop_body,
    loop_condition,
    loop_update,
    stops,
    value,
    Machine,
    Oracle,
    Program,
};
use vstd::prelude::*;

verus! {

/// Program `q` is program `p` with a limit that is at least as large.
pub open spec fn roomier(q: Program, p: Program) -> bool {
    &&& q.functions == p.functions
    &&& q.handlers == p.handlers
    &&& q.limit >= p.limit
}

/// The result is not that the limit was exceeded.
pub open spec fn within<T>(r: Result<T, EvalError>) -> bool {
    r != Err::<T, EvalError>(EvalError::LimitExceeded)
}

/// The handlers are asked alike under every limit.
pub proof fn lemma_dispatch_any_limit(
    p: Program,
    q: Program,
    name: Seq<char>,
    args: Seq<Value>,
    m: Machine,
    k: int,
    o: Oracle,
)
    requires
        roomier(q, p),
    ensures
        dispatch(q, name, args, m, k, o) == dispatch(p, name, args, m, k, o),
    decreases p.handlers - k,
{
    if 0 <= k < p.handlers && o(m.calls.len() as int).verdict() is Next {
        lemma_dispatch_any_limit(p, q, name, args, consult(m, k, name, args, o), k + 1, o);
    }
}

/// The limit is a bound and nothing else: an evaluation that stays within
/// the limit has the same outcome under every larger limit and with room for
/// more nested calls. So the outcome of every evaluation that does not end
/// with the limit exceeded is the outcome that the language gives it.
pub proof fn lemma_limit_is_a_bound(
    p: Program,
    q: Program,
    node: Syntax,
    m: Machine,
    depth: nat,
    deeper: nat,
    o: Oracle,
)
    requires
        roomier(q, p),
        depth <= deeper,
        within(eval(p, node, m, depth, o).result),
    ensures
        eval(q, node, m, deeper, o) == eval(p, node, m, depth, o),
    decreases depth, node, p.limit + 2,
{
    match node {
        Syntax::Return { expr } => {
            lemma_limit_is_a_bound(p, q, *expr, m, depth, deeper, o);
        },
        Syntax::Operator { kind, lhs, rhs } => {
            if kind == NodeKind::ASSIGN {
                if *lhs is Lvar {
                    lemma_limit_is_a_bound(p, q, *rhs, m, depth, deeper, o);
                }
            } else {
                let a = eval(p, *lhs, m, depth, o);
                lemma_limit_is_a_bound(p, q, *lhs, m, depth, deeper, o);
                if a.result is Ok {
                    lemma_limit_is_a_bound(p, q, *rhs, a.machine, depth, deeper, o);
                }
            }
        },
        Syntax::If { condition, stmt, else_stmt } => {
            let c = eval(p, *condition, m, depth, o);
            lemma_limit_is_a_bound(p, q, *condition, m, depth, deeper, o);
            if let Ok(Some(v)) = c.result {
                if v.truthy() {
                    lemma_limit_is_a_bound(p, q, *stmt, c.machine, depth, deeper, o);
                } else if let Some(e) = else_stmt {
                    lemma_limit_is_a_bound(p, q, *e, c.machine, depth, deeper, o);
                }
            }
        },
        Syntax::While { condition, stmt } => {
            lemma_loop_limit_is_a_bound(p, q, node, m, depth, deeper, p.limit, q.limit, o);
        },
        Syntax::For { init, condition, update, stmt } => {
            match init {
                Some(i) => {
                    let r = eval(p, *i, m, depth, o);
                    lemma_limit_is_a_bound(p, q, *i, m, depth, deeper, o);
                    if r.result is Ok {
                        lemma_loop_limit_is_a_bound(
                            p,
                            q,
                            node,
                            r.machine,
                            depth,
                            deeper,
                            p.limit,
                            q.limit,
                            o,
                        );
                    }
                },
                None => {
                    lemma_loop_limit_is_a_bound(p, q, node, m, depth, deeper, p.limit, q.limit, o);
                },
            }
        },
        Syntax::Block { stmts, permission } => {
            if let Ok(frame) = block_frame(permission, m.frames.last()) {
                lemma_seq_limit_is_a_bound(p, q, stmts, 0, m.push(frame), depth, deeper, o);
            }
        },
        Syntax::Call { name, args } => {
            let a = eval_args(p, args, 0, Seq::empty(), m, depth, o);
            lemma_args_limit_is_a_bound(p, q, args, 0, Seq::empty(), m, depth, deeper, o);
            if let Ok(values) = a.result {
                match find_function(p.functions, name, 0) {
                    Some(body) => {
                        let pushed = a.machine.push(inherited_frame(a.machine.frames.last(), true));
                        lemma_seq_limit_is_a_bound(
                            p,
                            q,
                            body,
                            0,
                            pushed,
                            (depth - 1) as nat,
                            (deeper - 1) as nat,
                            o,
                        );
                    },
                    None => {
                        lemma_dispatch_any_limit(p, q, name, values, a.machine, 0, o);
                    },
                }
            }
        },
        _ => {},
    }
}

/// The same of a statement sequence.
pub proof fn lemma_seq_limit_is_a_bound(
    p: Program,
    q: Program,
    stmts: Seq<Syntax>,
    i: int,
    m: Machine,
    depth: nat,
    deeper: nat,
    o: Oracle,
)
    requires
        roomier(q, p),
        depth <= deeper,
        within(eval_seq(p, stmts, i, m, depth, o).result),
    ensures
        eval_seq(q, stmts, i, m, deeper, o) == eval_seq(p, stmts, i, m, depth, o),
    decreases depth, stmts, stmts.len() - i,
{
    if 0 <= i < stmts.len() {
        let r = eval(p, stmts[i], m, depth, o);
        lemma_limit_is_a_bound(p, q, stmts[i], m, depth, deeper, o);
        if !stops(r.result) {
            lemma_seq_limit_is_a_bound(p, q, stmts, i + 1, r.machine, depth, deeper, o);
        }
    }
}

/// The same of the arguments of a call.
pub proof fn lemma_args_limit_is_a_bound(
    p: Program,
    q: Program,
    args: Seq<Syntax>,
    i: int,
    acc: Seq<Value>,
    m: Machine,
    depth: nat,
    deeper: nat,
    o: Oracle,
)
    requires
        roomier(q, p),
        depth <= deeper,
        within(eval_args(p, args, i, acc, m, depth, o).result),
    ensures
        eval_args(q, args, i, acc, m, deeper, o) == eval_args(p, args, i, acc, m, depth, o),
    decreases depth, args, args.len() - i,
{
    if 0 <= i < args.len() {
        let r = eval(p, args[i], m, depth, o);
        lemma_limit_is_a_bound(p, q, args[i], m, depth, deeper, o);
        match r.result {
            Err(_) => {},
            Ok(Some(v)) => {
                lemma_args_limit_is_a_bound(
                    p,
                    q,
                    args,
                    i + 1,
                    acc.push(v),
                    r.machine,
                    depth,
                    deeper,
                    o,
                );
            },
            Ok(None) => {
                lemma_args_limit_is_a_bound(p, q, args, i + 1, acc, r.machine, depth, deeper, o);
            },
        }
    }
}

/// The same of a loop: with more iterations to go it comes to the same.
pub proof fn lemma_loop_limit_is_a_bound(
    p: Program,
    q: Program,
    node: Syntax,
    m: Machine,
    depth: nat,
    deeper: nat,
    left: nat,
    more: nat,
    o: Oracle,
)
    requires
        roomier(q, p),
        depth <= deeper,
        left <= more,
        left <= p.limit,
        more <= q.limit,
        node is While || node is For,
        within(eval_loop(p, node, m, depth, left, o).result),
    ensures
        eval_loop(q, node, m, deeper, more, o) == eval_loop(p, node, m, depth, left, o),
    decreases depth, node, left + 1,
{
    let c = match loop_condition(node) {
        Some(c) => {
            lemma_limit_is_a_bound(p, q, *c, m, depth, deeper, o);
            eval(p, *c, m, depth, o)
        },
        None => value(Value::Number(1), m),
    };
    if c.result is Ok && holds(c.result->Ok_0) {
        let b = eval(p, loop_body(node), c.machine, depth, o);
        lemma_limit_is_a_bound(p, q, loop_body(node), c.machine, depth, deeper, o);
        if !stops(b.result) {
            let u = match loop_update(node) {
                Some(u) => {
                    lemma_limit_is_a_bound(p, q, *u, b.machine, depth, deeper, o);
                    eval(p, *u, b.machine, depth, o)
                },
                None => b,
            };
            if u.result is Ok {
                lemma_loop_limit_is_a_bound(
                    p,
                    q,
                    node,
                    u.machine,
                    depth,
                    deeper,
                    (left - 1) as nat,
                    (more - 1) as nat,
                    o,
                );
            }
        }
    }
}

} // verus!
