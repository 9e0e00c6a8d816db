//! The rules of scoping, of permissions and of dispatch, as theorems about
//! the model.

use crate::error::EvalError;
use crate::external_function::{ExternalFuncStatus, Verdict};
use crate::node::Syntax;
use crate::permission::Permission;
use crate::variable::Value;
use crate::vm::model::{
    block_frame,
    call_result,
    consult,
    dispatch,
    eval,
    eval_args,
    eval_seq,
    extends,
    find_function,
    inherited_frame,
    permissions_of,
    root_frame,
    run,
    stops,
    ExternalCall,
    Machine,
    Oracle,
    Program,
};
use crate::vm::preservation::{
    lemma_boundary_ends_search,
    lemma_eval_args_preserves,
    lemma_eval_preserves,
    lemma_eval_seq_preserves,
    lemma_leave_scopes,
    lemma_resolve_by_scope,
    same_scope,
};
use crate::vm::scope::{defined, resolve, resolve_from, Frame, Local};
use vstd::prelude::*;

verus! {

/// Block scoping: what a block defines is gone when the block has exited.
/// After a block every name is found in the frame in which it was found
/// before, or is not found as it was not found before.
pub proof fn lemma_block_scoping(
    p: Program,
    node: Syntax,
    m: Machine,
    depth: nat,
    o: Oracle,
    name: Seq<char>,
)
    requires
        node is Block,
        m.frames.len() > 0,
    ensures
        eval(p, node, m, depth, o).machine.frames.len() == m.frames.len(),
        resolve(eval(p, node, m, depth, o).machine.frames, name) == resolve(m.frames, name),
{
    lemma_eval_preserves(p, node, m, depth, o);
    lemma_resolve_by_scope(
        m.frames,
        eval(p, node, m, depth, o).machine.frames,
        name,
        m.frames.len() - 1,
    );
}

/// Call isolation, on entry: in the frame that a call opens no name of the
/// caller is found.
pub proof fn lemma_call_hides_caller(frames: Seq<Frame>, name: Seq<char>)
    requires
        frames.len() > 0,
    ensures
        resolve(frames.push(inherited_frame(frames.last(), true)), name) is None,
{
}

/// Call isolation, throughout: a name is never found below the innermost
/// call boundary, however many blocks were opened above it.
pub proof fn lemma_call_isolation(frames: Seq<Frame>, name: Seq<char>, k: int)
    requires
        0 <= k < frames.len(),
        frames[k].is_split,
    ensures
        resolve(frames, name) matches Some(i) ==> i >= k,
{
    lemma_boundary_ends_search(frames, name, frames.len() - 1, k);
}

/// A name defined in the innermost frame is found there, whatever the frames
/// below hold: a function that defines a name of its caller has its own.
pub proof fn lemma_defined_is_found(frames: Seq<Frame>, var: Local)
    requires
        frames.len() > 0,
    ensures
        resolve(defined(frames, var), var.name) == Some(frames.len() - 1),
        defined(frames, var).last().variables[var.name] == var,
{
}

/// Nested blocks see the enclosing locals of their call: a name held by a
/// frame is found, in that frame or in one above it, as long as no frame
/// above it began a call.
pub proof fn lemma_block_sees_enclosing(frames: Seq<Frame>, name: Seq<char>, j: int)
    requires
        0 <= j < frames.len(),
        frames[j].variables.contains_key(name),
        forall|k: int| j < k < frames.len() ==> !(#[trigger] frames[k]).is_split,
    ensures
        resolve(frames, name) matches Some(i) && i >= j,
{
    lemma_search_reaches(frames, name, frames.len() - 1, j);
}

/// The search from frame `from` reaches frame `j` unless it ends above it.
pub proof fn lemma_search_reaches(frames: Seq<Frame>, name: Seq<char>, from: int, j: int)
    requires
        0 <= j <= from < frames.len(),
        frames[j].variables.contains_key(name),
        forall|k: int| j < k < frames.len() ==> !(#[trigger] frames[k]).is_split,
    ensures
        resolve_from(frames, name, from) matches Some(i) && i >= j,
    decreases from - j,
{
    if from > j && !frames[from].variables.contains_key(name) {
        assert(!frames[from].is_split);
        lemma_search_reaches(frames, name, from - 1, j);
    }
}

/// A block that was opened without variables of its own finds every name
/// where the frames around it find it.
pub proof fn lemma_block_sees_through(frames: Seq<Frame>, name: Seq<char>)
    requires
        frames.len() > 0,
    ensures
        resolve(frames.push(inherited_frame(frames.last(), false)), name) == resolve(frames, name),
{
    let pushed = frames.push(inherited_frame(frames.last(), false));
    lemma_search_same_below(frames, pushed, name, frames.len() - 1);
}

/// Two stacks that agree up to frame `from` find a name from there alike.
pub proof fn lemma_search_same_below(a: Seq<Frame>, b: Seq<Frame>, name: Seq<char>, from: int)
    requires
        from < a.len() <= b.len(),
        forall|i: int| 0 <= i <= from ==> a[i] == b[i],
    ensures
        resolve_from(a, name, from) == resolve_from(b, name, from),
    decreases from + 1,
{
    if from >= 0 && !a[from].variables.contains_key(name) && !a[from].is_split {
        lemma_search_same_below(a, b, name, from - 1);
    }
}

/// A function cannot change its caller: a call of a script function leaves
/// every frame as the evaluation of its arguments left it.
pub proof fn lemma_call_leaves_caller(
    p: Program,
    name: Seq<char>,
    args: Seq<Syntax>,
    m: Machine,
    depth: nat,
    o: Oracle,
)
    requires
        m.frames.len() > 0,
        find_function(p.functions, name, 0) is Some,
    ensures
        eval(p, Syntax::Call { name, args }, m, depth, o).machine.frames == eval_args(
            p,
            args,
            0,
            Seq::empty(),
            m,
            depth,
            o,
        ).machine.frames,
{
    let a = eval_args(p, args, 0, Seq::empty(), m, depth, o);
    lemma_eval_args_preserves(p, args, 0, Seq::empty(), m, depth, o);
    if a.result is Ok && depth > 0 {
        let body = find_function(p.functions, name, 0).unwrap();
        let frame = inherited_frame(a.machine.frames.last(), true);
        lemma_eval_seq_preserves(p, body, 0, a.machine.push(frame), (depth - 1) as nat, o);
        lemma_leave_scopes(
            a.machine,
            frame,
            eval_seq(p, body, 0, a.machine.push(frame), (depth - 1) as nat, o).machine,
        );
    }
}

/// A run leaves the frame stack exactly as it found it, whether it ended
/// with a value or with an error.
pub proof fn lemma_run_restores(p: Program, name: Seq<char>, m: Machine, o: Oracle)
    ensures
        run(p, name, m, o).machine.frames == m.frames,
        extends(run(p, name, m, o).machine.calls, m.calls),
{
    if let Some(body) = find_function(p.functions, name, 0) {
        let pushed = m.push(root_frame());
        let inner = eval_seq(p, body, 0, pushed, p.limit, o).machine;
        lemma_eval_seq_preserves(p, body, 0, pushed, p.limit, o);
        assert forall|i: int| 0 <= i < m.frames.len() implies inner.frames[i] == m.frames[i] by {
            assert(pushed.frames[m.frames.len() as int].is_split);
            assert(inner.frames[i] == pushed.frames[i]);
        }
        assert(inner.pop().frames =~= m.frames);
    }
}

/// Running a name that the script does not define gives the unit value and
/// changes nothing.
pub proof fn lemma_run_unknown(p: Program, name: Seq<char>, m: Machine, o: Oracle)
    requires
        find_function(p.functions, name, 0) is None,
    ensures
        run(p, name, m, o).result == Ok::<Option<Value>, EvalError>(Some(Value::Unit)),
        run(p, name, m, o).machine == m,
{
}

/// Permission override, on entry: an annotated block has exactly the
/// annotation's permissions, whatever is in force around it.
pub proof fn lemma_annotation_replaces(
    accept: Seq<Seq<char>>,
    reject: Seq<Seq<char>>,
    top: Frame,
    other: Frame,
)
    ensures
        block_frame(Some(Box::new(Syntax::Permission { accept, reject })), top) == block_frame(
            Some(Box::new(Syntax::Permission { accept, reject })),
            other,
        ),
        block_frame(Some(Box::new(Syntax::Permission { accept, reject })), top) matches Ok(f) ==> {
            &&& permissions_of(accept) == Some(f.accept)
            &&& permissions_of(reject) == Some(f.reject)
            &&& f.variables == Map::<Seq<char>, Local>::empty()
            &&& !f.is_split
        },
        block_frame(Some(Box::new(Syntax::Permission { accept, reject })), top) is Err <==> (
        permissions_of(accept) is None || permissions_of(reject) is None),
{
}

/// Permission override, inheritance: a block without an annotation, and a
/// call, have the permissions of the frame around them.
pub proof fn lemma_block_inherits(top: Frame)
    ensures
        block_frame(None, top) matches Ok(f) && f.accept == top.accept && f.reject == top.reject
            && !f.is_split,
        inherited_frame(top, true).accept == top.accept,
        inherited_frame(top, true).reject == top.reject,
{
}

/// Permission override, while active and on exit: evaluation changes the
/// permissions of no frame. So the pair that a block was opened with is in
/// force for each of its statements, and when the block has exited the pair
/// of the frame around it is in force again.
pub proof fn lemma_permissions_fixed(
    p: Program,
    node: Syntax,
    m: Machine,
    depth: nat,
    o: Oracle,
    i: int,
)
    requires
        0 <= i < m.frames.len(),
    ensures
        eval(p, node, m, depth, o).machine.frames.len() == m.frames.len(),
        eval(p, node, m, depth, o).machine.frames[i].accept == m.frames[i].accept,
        eval(p, node, m, depth, o).machine.frames[i].reject == m.frames[i].reject,
        eval(p, node, m, depth, o).machine.frames[i].is_split == m.frames[i].is_split,
{
    lemma_eval_preserves(p, node, m, depth, o);
    let after = eval(p, node, m, depth, o).machine.frames;
    if i < m.frames.len() - 1 {
        assert(same_scope(m.frames[i], after[i]));
    }
}

/// The machine on which statement `k` of a sequence starts when the sequence
/// starts on `m`, if the sequence gets that far.
pub open spec fn reached(
    p: Program,
    stmts: Seq<Syntax>,
    k: nat,
    m: Machine,
    depth: nat,
    o: Oracle,
) -> Option<Machine>
    decreases k,
{
    if k == 0 {
        Some(m)
    } else {
        match reached(p, stmts, (k - 1) as nat, m, depth, o) {
            Some(before) => {
                let r = eval(p, stmts[k - 1], before, depth, o);
                if k > stmts.len() || stops(r.result) {
                    None
                } else {
                    Some(r.machine)
                }
            },
            None => None,
        }
    }
}

/// From the machine on which one of its statements starts, a sequence comes
/// to what it comes to from its start.
pub proof fn lemma_reached_resumes(
    p: Program,
    stmts: Seq<Syntax>,
    k: nat,
    m: Machine,
    depth: nat,
    o: Oracle,
)
    ensures
        reached(p, stmts, k, m, depth, o) matches Some(at) ==> k <= stmts.len() && eval_seq(
            p,
            stmts,
            k as int,
            at,
            depth,
            o,
        ) == eval_seq(p, stmts, 0, m, depth, o),
    decreases k,
{
    if k > 0 {
        lemma_reached_resumes(p, stmts, (k - 1) as nat, m, depth, o);
    }
}

/// Permission override, while active: each statement of a sequence starts
/// with the stack that the sequence started with, frame by frame with the
/// same permissions. So every statement of a block finds in force the pair
/// that the block was opened with.
pub proof fn lemma_pair_in_force(
    p: Program,
    stmts: Seq<Syntax>,
    k: nat,
    m: Machine,
    depth: nat,
    o: Oracle,
    i: int,
)
    requires
        0 <= i < m.frames.len(),
    ensures
        reached(p, stmts, k, m, depth, o) matches Some(at) ==> {
            &&& at.frames.len() == m.frames.len()
            &&& at.frames[i].accept == m.frames[i].accept
            &&& at.frames[i].reject == m.frames[i].reject
            &&& at.frames[i].is_split == m.frames[i].is_split
        },
    decreases k,
{
    if k > 0 {
        lemma_pair_in_force(p, stmts, (k - 1) as nat, m, depth, o, i);
        if let Some(before) = reached(p, stmts, (k - 1) as nat, m, depth, o) {
            lemma_permissions_fixed(p, stmts[k - 1], before, depth, o, i);
        }
    }
}

/// Dispatch precedence, the script first: a call of a name that the script
/// defines is a run of that function's body in a frame of its own, and asks
/// no handler for the name.
pub proof fn lemma_script_function_first(
    p: Program,
    name: Seq<char>,
    args: Seq<Syntax>,
    m: Machine,
    depth: nat,
    o: Oracle,
)
    requires
        find_function(p.functions, name, 0) is Some,
        eval_args(p, args, 0, Seq::empty(), m, depth, o).result is Ok,
        depth > 0,
    ensures
        ({
            let a = eval_args(p, args, 0, Seq::empty(), m, depth, o).machine;
            let body = eval_seq(
                p,
                find_function(p.functions, name, 0).unwrap(),
                0,
                a.push(inherited_frame(a.frames.last(), true)),
                (depth - 1) as nat,
                o,
            );
            let out = eval(p, Syntax::Call { name, args }, m, depth, o);
            &&& out.result == call_result(body.result)
            &&& out.machine.calls == body.machine.calls
        }),
{
}

/// Dispatch precedence, the handlers in order: the handlers are asked from
/// the first on, each with the same name, arguments and permissions. Every
/// answer but the last is "not found". The last answer decides; if it too is
/// "not found", every handler was asked and the function is undefined.
pub proof fn lemma_dispatch_order(
    p: Program,
    name: Seq<char>,
    args: Seq<Value>,
    m: Machine,
    k: int,
    o: Oracle,
)
    requires
        0 <= k <= p.handlers,
    ensures
        ({
            let out = dispatch(p, name, args, m, k, o);
            let asked = out.machine.calls.len() - m.calls.len();
            &&& out.machine.frames == m.frames
            &&& extends(out.machine.calls, m.calls)
            &&& 0 <= asked <= p.handlers - k
            &&& forall|j: int|
                0 <= j < asked ==> #[trigger] out.machine.calls[m.calls.len() + j]
                    == (ExternalCall {
                    handler: k + j,
                    name,
                    args,
                    accept: m.frames.last().accept,
                    reject: m.frames.last().reject,
                    reply: o(m.calls.len() + j),
                })
            &&& forall|j: int|
                0 <= j < asked - 1 ==> (#[trigger] o(m.calls.len() + j)).status
                    == ExternalFuncStatus::NOTFOUND
            &&& if asked > 0 && o(m.calls.len() + asked - 1).status
                != ExternalFuncStatus::NOTFOUND {
                Verdict::Done(out.result) == o(m.calls.len() + asked - 1).verdict()
            } else {
                asked == p.handlers - k && out.result == Err::<Option<Value>, EvalError>(
                    EvalError::UndefinedFunction,
                )
            }
        }),
    decreases p.handlers - k,
{
    if k < p.handlers {
        let reply = o(m.calls.len() as int);
        let after = consult(m, k, name, args, o);
        assert(extends(after.calls, m.calls));
        if reply.verdict() is Next {
            lemma_dispatch_order(p, name, args, after, k + 1, o);
            let out = dispatch(p, name, args, after, k + 1, o);
            let asked = out.machine.calls.len() - m.calls.len();
            assert forall|j: int| 0 <= j < asked implies #[trigger] out.machine.calls[m.calls.len()
                + j] == (ExternalCall {
                handler: k + j,
                name,
                args,
                accept: m.frames.last().accept,
                reject: m.frames.last().reject,
                reply: o(m.calls.len() + j),
            }) by {
                if j == 0 {
                    assert(out.machine.calls[m.calls.len() as int] == after.calls.subrange(
                        0,
                        after.calls.len() as int,
                    )[m.calls.len() as int]);
                } else {
                    assert(out.machine.calls[after.calls.len() + (j - 1)]
                        == out.machine.calls[m.calls.len() + j]);
                }
            }
            assert forall|j: int| 0 <= j < asked - 1 implies (#[trigger] o(
                m.calls.len() + j,
            )).status == ExternalFuncStatus::NOTFOUND by {
                if j > 0 {
                    assert(o(after.calls.len() + (j - 1)).status == ExternalFuncStatus::NOTFOUND);
                }
            }
        } else {
            let out = dispatch(p, name, args, m, k, o);
            assert(out.machine == after);
        }
    }
}

} // verus!
