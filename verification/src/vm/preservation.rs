//! What every evaluation leaves as it found it: the frames of the stack, their
//! permissions and their names, and everything below a call boundary.

use crate::node::{NodeKind, Syntax};
use crate::variable::Value;
use crate::vm::model::{
    block_frame,
    consult,
    dispatch,
    eval,
    eval_args,
    eval_loop,
    eval_seq,
    extends,
    find_function,
    holds,
    inherited_frame,
    initial_value,
    loop_body,
    loop_condition,
    loop_update,
    stops,
    value,
    Machine,
    Oracle,
    Program,
};
use crate::vm::scope::{assigned, defined, resolve, resolve_from, Frame, Local};
use vstd::prelude::*;

verus! {

/// Two frames have the same permissions, are both call boundaries or both
/// not, and hold variables of the same names.
pub open spec fn same_scope(a: Frame, b: Frame) -> bool {
    &&& a.accept == b.accept
    &&& a.reject == b.reject
    &&& a.is_split == b.is_split
    &&& a.variables.dom() == b.variables.dom()
}

/// Frame `b` is frame `a` with, at most, more names defined.
pub open spec fn widened(a: Frame, b: Frame) -> bool {
    &&& a.accept == b.accept
    &&& a.reject == b.reject
    &&& a.is_split == b.is_split
    &&& a.variables.dom().subset_of(b.variables.dom())
}

/// Every frame of `after` has the scope of the frame of `before` in its place.
pub open spec fn same_scopes(before: Seq<Frame>, after: Seq<Frame>) -> bool {
    &&& after.len() == before.len()
    &&& forall|i: int| 0 <= i < before.len() ==> same_scope(before[i], #[trigger] after[i])
}

/// Every frame below a call boundary of `before` is in `after` as it was.
pub open spec fn isolated(before: Seq<Frame>, after: Seq<Frame>) -> bool {
    forall|i: int, k: int|
        0 <= i < k < before.len() && (#[trigger] before[k]).is_split ==> #[trigger] after[i]
            == before[i]
}

/// The stack `after` is the stack `before` but for the values of variables
/// that can be reached from the innermost frame, and for names newly defined
/// in the innermost frame.
pub open spec fn kept(before: Seq<Frame>, after: Seq<Frame>) -> bool {
    &&& after.len() == before.len()
    &&& forall|i: int| 0 <= i < before.len() - 1 ==> same_scope(before[i], #[trigger] after[i])
    &&& before.len() > 0 ==> widened(before.last(), after.last())
    &&& isolated(before, after)
}

/// A stack is kept by doing nothing, and keeping is transitive.
pub proof fn lemma_kept_chain(a: Seq<Frame>, b: Seq<Frame>, c: Seq<Frame>)
    requires
        kept(a, b),
        kept(b, c),
    ensures
        kept(a, c),
        kept(a, a),
{
    assert forall|i: int| 0 <= i < a.len() - 1 implies same_scope(a[i], #[trigger] c[i]) by {
        assert(same_scope(a[i], b[i]));
        assert(same_scope(b[i], c[i]));
    }
    assert forall|i: int, k: int|
        0 <= i < k < a.len() && (#[trigger] a[k]).is_split implies #[trigger] c[i] == a[i] by {
        assert(b[i] == a[i]);
        if k < a.len() - 1 {
            assert(same_scope(a[k], b[k]));
        }
        assert(b[k].is_split);
        assert(c[i] == b[i]);
    }
}

/// The search for a name does not go below a call boundary.
pub proof fn lemma_boundary_ends_search(frames: Seq<Frame>, name: Seq<char>, from: int, k: int)
    requires
        0 <= k <= from,
        k < frames.len(),
        frames[k].is_split,
    ensures
        resolve_from(frames, name, from) matches Some(i) ==> i >= k,
    decreases from + 1,
{
    if from < frames.len() && !frames[from].variables.contains_key(name) && !frames[from].is_split {
        lemma_boundary_ends_search(frames, name, from - 1, k);
    }
}

/// Defining a variable keeps the stack.
pub proof fn lemma_defined_kept(frames: Seq<Frame>, var: Local)
    ensures
        kept(frames, defined(frames, var)),
{
}

/// Assigning to a variable that is found keeps the stack, scope by scope.
pub proof fn lemma_assigned_kept(frames: Seq<Frame>, name: Seq<char>, value: Value)
    requires
        resolve(frames, name) is Some,
    ensures
        same_scopes(frames, assigned(frames, resolve(frames, name).unwrap(), name, value)),
        kept(frames, assigned(frames, resolve(frames, name).unwrap(), name, value)),
{
    let i = resolve(frames, name).unwrap();
    lemma_resolve_holds(frames, name, frames.len() - 1);
    let after = assigned(frames, i, name, value);
    assert(after[i].variables.dom() =~= frames[i].variables.dom());
    assert forall|j: int, k: int|
        0 <= j < k < frames.len() && (#[trigger] frames[k]).is_split implies #[trigger] after[j]
            == frames[j] by {
        lemma_boundary_ends_search(frames, name, frames.len() - 1, k);
    }
}

/// The frame in which a name is found is a frame of the stack, at or below
/// the frame where the search began, and holds the name.
pub proof fn lemma_resolve_holds(frames: Seq<Frame>, name: Seq<char>, from: int)
    ensures
        match resolve_from(frames, name, from) {
            Some(i) => 0 <= i <= from && i < frames.len() && frames[i].variables.contains_key(
                name,
            ),
            None => true,
        },
    decreases from + 1,
{
    if 0 <= from < frames.len() && !frames[from].variables.contains_key(name)
        && !frames[from].is_split {
        lemma_resolve_holds(frames, name, from - 1);
    }
}

/// Where a name is found depends on the scopes of the frames alone.
pub proof fn lemma_resolve_by_scope(a: Seq<Frame>, b: Seq<Frame>, name: Seq<char>, from: int)
    requires
        same_scopes(a, b),
    ensures
        resolve_from(a, name, from) == resolve_from(b, name, from),
    decreases from + 1,
{
    if 0 <= from < a.len() {
        assert(same_scope(a[from], b[from]));
        assert(a[from].variables.contains_key(name) == b[from].variables.dom().contains(name));
        if !a[from].variables.contains_key(name) && !a[from].is_split {
            lemma_resolve_by_scope(a, b, name, from - 1);
        }
    }
}

/// Asking the handlers changes no frame and only adds to the record.
pub proof fn lemma_dispatch_keeps(
    p: Program,
    name: Seq<char>,
    args: Seq<Value>,
    m: Machine,
    k: int,
    o: Oracle,
)
    ensures
        dispatch(p, name, args, m, k, o).machine.frames == m.frames,
        extends(dispatch(p, name, args, m, k, o).machine.calls, m.calls),
    decreases p.handlers - k,
{
    if 0 <= k < p.handlers {
        let reply = o(m.calls.len() as int);
        let after = consult(m, k, name, args, o);
        assert(extends(after.calls, m.calls));
        if reply.verdict() is Next {
            lemma_dispatch_keeps(p, name, args, after, k + 1, o);
        }
    }
}

/// What evaluation leaves of the machine it started on: the stack is kept and
/// the record is continued.
pub open spec fn preserved(before: Machine, after: Machine) -> bool {
    &&& kept(before.frames, after.frames)
    &&& extends(after.calls, before.calls)
}

/// Preservation is transitive.
pub proof fn lemma_preserved_chain(a: Machine, b: Machine, c: Machine)
    requires
        preserved(a, b),
        preserved(b, c),
    ensures
        preserved(a, c),
{
    lemma_kept_chain(a.frames, b.frames, c.frames);
}

/// A frame pushed for a block or a call, and popped after what ran in it,
/// leaves every frame below with the scope it had.
pub proof fn lemma_leave_scopes(m: Machine, frame: Frame, inner: Machine)
    requires
        m.frames.len() > 0,
        preserved(m.push(frame), inner),
    ensures
        same_scopes(m.frames, inner.pop().frames),
        preserved(m, inner.pop()),
        frame.is_split ==> inner.pop().frames == m.frames,
{
    let pushed = m.push(frame).frames;
    let after = inner.pop().frames;
    assert forall|i: int| 0 <= i < m.frames.len() implies same_scope(
        m.frames[i],
        #[trigger] after[i],
    ) by {
        assert(same_scope(pushed[i], inner.frames[i]));
    }
    assert forall|i: int, k: int|
        0 <= i < k < m.frames.len() && (#[trigger] m.frames[k]).is_split implies #[trigger] after[i]
            == m.frames[i] by {
        assert(pushed[k].is_split);
        assert(inner.frames[i] == pushed[i]);
    }
    if frame.is_split {
        let top = m.frames.len() as int;
        assert(pushed[top].is_split);
        assert forall|i: int| 0 <= i < m.frames.len() implies after[i] == m.frames[i] by {
            assert(inner.frames[i] == pushed[i]);
        }
        assert(after =~= m.frames);
    }
}

/// Evaluating a node keeps the stack and continues the record.
pub proof fn lemma_eval_preserves(p: Program, node: Syntax, m: Machine, depth: nat, o: Oracle)
    requires
        m.frames.len() > 0,
    ensures
        preserved(m, eval(p, node, m, depth, o).machine),
        node is Block ==> same_scopes(
            m.frames,
            eval(p, node, m, depth, o).machine.frames,
        ),
    decreases depth, node, p.limit + 2,
{
    lemma_kept_chain(m.frames, m.frames, m.frames);
    match node {
        Syntax::Define { name, var_type } => {
            if let Some(v) = initial_value(var_type) {
                lemma_defined_kept(m.frames, Local { name, value: v, initialized: false });
            }
        },
        Syntax::Return { expr } => {
            lemma_eval_preserves(p, *expr, m, depth, o);
        },
        Syntax::Operator { kind, lhs, rhs } => {
            if kind == NodeKind::ASSIGN {
                if let Syntax::Lvar { name } = *lhs {
                    lemma_eval_preserves(p, *rhs, m, depth, o);
                    let r = eval(p, *rhs, m, depth, o);
                    if let Ok(Some(v)) = r.result {
                        if resolve(r.machine.frames, name) is Some {
                            lemma_assigned_kept(r.machine.frames, name, v);
                            let i = resolve(r.machine.frames, name).unwrap();
                            lemma_kept_chain(
                                m.frames,
                                r.machine.frames,
                                assigned(r.machine.frames, i, name, v),
                            );
                        }
                    }
                }
            } else {
                lemma_eval_preserves(p, *lhs, m, depth, o);
                let a = eval(p, *lhs, m, depth, o);
                if a.result is Ok {
                    lemma_eval_preserves(p, *rhs, a.machine, depth, o);
                    lemma_preserved_chain(m, a.machine, eval(p, *rhs, a.machine, depth, o).machine);
                }
            }
        },
        Syntax::If { condition, stmt, else_stmt } => {
            lemma_eval_preserves(p, *condition, m, depth, o);
            let c = eval(p, *condition, m, depth, o);
            if let Ok(Some(v)) = c.result {
                if v.truthy() {
                    lemma_eval_preserves(p, *stmt, c.machine, depth, o);
                    let s = eval(p, *stmt, c.machine, depth, o);
                    lemma_preserved_chain(m, c.machine, s.machine);
                } else if let Some(e) = else_stmt {
                    lemma_eval_preserves(p, *e, c.machine, depth, o);
                    lemma_preserved_chain(m, c.machine, eval(p, *e, c.machine, depth, o).machine);
                }
            }
        },
        Syntax::While { condition, stmt } => {
            lemma_eval_loop_preserves(p, node, m, depth, p.limit, o);
        },
        Syntax::For { init, condition, update, stmt } => {
            match init {
                Some(i) => {
                    lemma_eval_preserves(p, *i, m, depth, o);
                    let r = eval(p, *i, m, depth, o);
                    if r.result is Ok {
                        lemma_eval_loop_preserves(p, node, r.machine, depth, p.limit, o);
                        lemma_preserved_chain(
                            m,
                            r.machine,
                            eval_loop(p, node, r.machine, depth, p.limit, o).machine,
                        );
                    }
                },
                None => {
                    lemma_eval_loop_preserves(p, node, m, depth, p.limit, o);
                },
            }
        },
        Syntax::Block { stmts, permission } => {
            if let Ok(frame) = block_frame(permission, m.frames.last()) {
                lemma_eval_seq_preserves(p, stmts, 0, m.push(frame), depth, o);
                lemma_leave_scopes(
                    m,
                    frame,
                    eval_seq(p, stmts, 0, m.push(frame), depth, o).machine,
                );
            } else {
                assert(same_scopes(m.frames, m.frames));
            }
        },
        Syntax::Call { name, args } => {
            lemma_eval_args_preserves(p, args, 0, Seq::empty(), m, depth, o);
            let a = eval_args(p, args, 0, Seq::empty(), m, depth, o);
            if let Ok(values) = a.result {
                match find_function(p.functions, name, 0) {
                    Some(body) => {
                        if depth > 0 {
                            let frame = inherited_frame(a.machine.frames.last(), true);
                            let inner = eval_seq(
                                p,
                                body,
                                0,
                                a.machine.push(frame),
                                (depth - 1) as nat,
                                o,
                            ).machine;
                            lemma_eval_seq_preserves(
                                p,
                                body,
                                0,
                                a.machine.push(frame),
                                (depth - 1) as nat,
                                o,
                            );
                            lemma_leave_scopes(a.machine, frame, inner);
                            lemma_preserved_chain(m, a.machine, inner.pop());
                        }
                    },
                    None => {
                        lemma_dispatch_keeps(p, name, values, a.machine, 0, o);
                    },
                }
            }
        },
        _ => {},
    }
}

/// Evaluating a statement sequence keeps the stack and continues the record.
pub proof fn lemma_eval_seq_preserves(
    p: Program,
    stmts: Seq<Syntax>,
    i: int,
    m: Machine,
    depth: nat,
    o: Oracle,
)
    requires
        m.frames.len() > 0,
    ensures
        preserved(m, eval_seq(p, stmts, i, m, depth, o).machine),
    decreases depth, stmts, stmts.len() - i,
{
    lemma_kept_chain(m.frames, m.frames, m.frames);
    if 0 <= i < stmts.len() {
        lemma_eval_preserves(p, stmts[i], m, depth, o);
        let r = eval(p, stmts[i], m, depth, o);
        if !stops(r.result) {
            lemma_eval_seq_preserves(p, stmts, i + 1, r.machine, depth, o);
            let rest = eval_seq(p, stmts, i + 1, r.machine, depth, o);
            lemma_preserved_chain(m, r.machine, rest.machine);
        }
    }
}

/// Evaluating arguments keeps the stack and continues the record.
pub proof fn lemma_eval_args_preserves(
    p: Program,
    args: Seq<Syntax>,
    i: int,
    acc: Seq<Value>,
    m: Machine,
    depth: nat,
    o: Oracle,
)
    requires
        m.frames.len() > 0,
    ensures
        preserved(m, eval_args(p, args, i, acc, m, depth, o).machine),
    decreases depth, args, args.len() - i,
{
    lemma_kept_chain(m.frames, m.frames, m.frames);
    if 0 <= i < args.len() {
        lemma_eval_preserves(p, args[i], m, depth, o);
        let r = eval(p, args[i], m, depth, o);
        match r.result {
            Err(_) => {},
            Ok(Some(v)) => {
                lemma_eval_args_preserves(p, args, i + 1, acc.push(v), r.machine, depth, o);
                lemma_preserved_chain(
                    m,
                    r.machine,
                    eval_args(p, args, i + 1, acc.push(v), r.machine, depth, o).machine,
                );
            },
            Ok(None) => {
                lemma_eval_args_preserves(p, args, i + 1, acc, r.machine, depth, o);
                lemma_preserved_chain(
                    m,
                    r.machine,
                    eval_args(p, args, i + 1, acc, r.machine, depth, o).machine,
                );
            },
        }
    }
}

/// Running a loop keeps the stack and continues the record.
pub proof fn lemma_eval_loop_preserves(
    p: Program,
    node: Syntax,
    m: Machine,
    depth: nat,
    left: nat,
    o: Oracle,
)
    requires
        m.frames.len() > 0,
    ensures
        preserved(m, eval_loop(p, node, m, depth, left, o).machine),
    decreases depth, node, left + 1,
{
    lemma_kept_chain(m.frames, m.frames, m.frames);
    if (node is While || node is For) && left <= p.limit {
        let c = match loop_condition(node) {
            Some(c) => {
                lemma_eval_preserves(p, *c, m, depth, o);
                eval(p, *c, m, depth, o)
            },
            None => value(Value::Number(1), m),
        };
        if c.result is Ok && holds(c.result->Ok_0) && left > 0 {
            lemma_eval_preserves(p, loop_body(node), c.machine, depth, o);
            let b = eval(p, loop_body(node), c.machine, depth, o);
            lemma_preserved_chain(m, c.machine, b.machine);
            if !stops(b.result) {
                let u = match loop_update(node) {
                    Some(u) => {
                        lemma_eval_preserves(p, *u, b.machine, depth, o);
                        eval(p, *u, b.machine, depth, o)
                    },
                    None => b,
                };
                lemma_preserved_chain(m, b.machine, u.machine);
                if u.result is Ok {
                    lemma_eval_loop_preserves(p, node, u.machine, depth, (left - 1) as nat, o);
                    lemma_preserved_chain(
                        m,
                        u.machine,
                        eval_loop(p, node, u.machine, depth, (left - 1) as nat, o).machine,
                    );
                }
            }
        }
    }
}

} // verus!
