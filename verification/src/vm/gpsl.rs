//! The runtime that hosts hold: a program, its handlers and a frame stack.

use crate::error::EvalError;
use crate::external_function::ExternalFunction;
use crate::node::{syntax_of_all, Node, Syntax};
use crate::permission::Permission;
use crate::variable::{result_of, Value, Variable};
use crate::vm::evaluator::{
    eval_node,
    lemma_frames_pop,
    lemma_frames_push,
    machine_of,
    run_seq,
    Script,
};
use crate::vm::laws::lemma_run_restores;
use crate::vm::model::{
    eval,
    follows,
    initial_value,
    lemma_replay_agrees,
    replay,
    root_frame,
    run,
    ExternalCall,
    Machine,
    Oracle,
    Outcome,
    Program,
};
use crate::vm::operator::{default_value, find, number_of, unwrap_return};
use crate::vm::preservation::{lemma_eval_preserves, preserved};
use crate::vm::scope::{
    assigned,
    define_local,
    defined,
    frames_of,
    last_named,
    lemma_locals_replaced,
    locals_of,
    locate,
    resolve,
    rewritten,
    store,
    visible,
    Block,
    Frame,
    Local,
    LocalVariable,
    VariableStatus,
};
use vstd::prelude::*;

verus! {

/// The runtime: a program, its handlers, and the frame stack that
/// evaluation works on.
pub struct GPSL<H> {
    /// The script's functions; of two with one name the first counts.
    pub functions: Option<Vec<Box<Node>>>,
    /// Reserved; evaluation neither reads nor writes it.
    pub global_variables: Vec<Variable>,
    /// The frame stack, innermost frame last.
    pub blocks: Vec<Block>,
    /// The handlers, in the order in which they are asked.
    pub external_func: Vec<H>,
    /// The most iterations that one loop may run, and the most script calls
    /// that may be nested.
    pub limit: usize,
    /// The record of every consultation of a handler so far.
    pub calls: Ghost<Seq<ExternalCall>>,
}

/// The model of a function table that may be missing.
pub open spec fn table_of(functions: Option<Vec<Box<Node>>>) -> Seq<Syntax> {
    match functions {
        Some(f) => syntax_of_all(f),
        None => Seq::empty(),
    }
}

/// The frame and the place in it of the variable that `name` means.
pub open spec fn site(blocks: Seq<Block>, name: Seq<char>) -> (int, int) {
    let i = resolve(frames_of(blocks), name).unwrap();
    (i, last_named(blocks[i].variables@, name).unwrap())
}

impl<H: ExternalFunction> GPSL<H> {
    /// What evaluation reads of the runtime.
    pub open spec fn program(&self) -> Program {
        Program {
            functions: table_of(self.functions),
            handlers: self.external_func.len() as nat,
            limit: self.limit as nat,
        }
    }

    /// What evaluation changes of the runtime.
    pub open spec fn machine(&self) -> Machine {
        machine_of(self.blocks, self.calls@)
    }

    /// Evaluation left the program, the handlers and the limit as they were.
    pub open spec fn same_program(&self, other: &GPSL<H>) -> bool {
        &&& self.functions == other.functions
        &&& self.external_func == other.external_func
        &&& self.limit == other.limit
        &&& self.global_variables == other.global_variables
    }

    /// A runtime for the given functions and handlers, with an empty frame
    /// stack and the largest limit.
    pub fn new(functions: Option<Vec<Box<Node>>>, external_func: Vec<H>) -> (r: GPSL<H>)
        ensures
            r.functions == functions,
            r.external_func == external_func,
            r.global_variables@.len() == 0,
            r.blocks@.len() == 0,
            r.limit == usize::MAX,
            r.calls@.len() == 0,
    {
        GPSL {
            functions,
            global_variables: Vec::new(),
            blocks: Vec::new(),
            external_func,
            limit: usize::MAX,
            calls: Ghost(Seq::empty()),
        }
    }

    /// The number that a value holds.
    pub fn extract_number(node: Variable) -> (r: Result<usize, EvalError>)
        ensures
            match r {
                Ok(n) => node@ == Value::Number(n as int),
                Err(e) => e == EvalError::TypeMismatch && !(node@ is Number),
            },
    {
        number_of(&node)
    }

    /// Adds an empty frame on top of the stack.
    pub fn push_frame(
        &mut self,
        accept: Vec<Permission>,
        reject: Vec<Permission>,
        is_call_boundary: bool,
    )
        ensures
            final(self).same_program(old(self)),
            final(self).calls@ == old(self).calls@,
            final(self).blocks.len() == old(self).blocks.len() + 1,
            final(self).machine() == old(self).machine().push(
                Frame {
                    accept: accept@,
                    reject: reject@,
                    variables: Map::empty(),
                    is_split: is_call_boundary,
                },
            ),
    {
        let frame = Block::new(accept, reject, is_call_boundary);
        proof {
            lemma_frames_push(self.blocks@, frame);
        }
        self.blocks.push(frame);
    }

    /// Removes the innermost frame and hands it back. The last frame is never
    /// removed: with fewer than two frames the stack stays as it is.
    pub fn pop_frame(&mut self) -> (r: Option<Block>)
        ensures
            final(self).same_program(old(self)),
            final(self).calls@ == old(self).calls@,
            match r {
                Some(b) => {
                    &&& old(self).blocks.len() >= 2
                    &&& final(self).blocks.len() == old(self).blocks.len() - 1
                    &&& b@ == old(self).machine().frames.last()
                    &&& final(self).machine() == old(self).machine().pop()
                },
                None => old(self).blocks.len() < 2 && final(self).blocks == old(self).blocks,
            },
    {
        if self.blocks.len() < 2 {
            None
        } else {
            proof {
                lemma_frames_pop(self.blocks@);
            }
            self.blocks.pop()
        }
    }

    /// A copy of the variable that `name` means, seen from the innermost frame.
    pub fn get_local_var(&self, name: &String) -> (r: Option<LocalVariable>)
        ensures
            match r {
                Some(v) => visible(self.machine().frames, name@) == Some(v@),
                None => visible(self.machine().frames, name@) is None,
            },
    {
        match locate(&self.blocks, name) {
            Some((i, j)) => Some(self.blocks[i].variables[j].clone()),
            None => None,
        }
    }

    /// The variable that `name` means, to be changed in place. Whatever the
    /// caller writes into it is what the frame then holds at its place;
    /// nothing else changes.
    pub fn get_local_var_mut(&mut self, name: &String) -> (r: Option<&mut LocalVariable>)
        ensures
            match r {
                Some(v) => {
                    &&& visible(old(self).machine().frames, name@) == Some(v@)
                    &&& final(self).same_program(old(self))
                    &&& final(self).calls@ == old(self).calls@
                    &&& final(self).blocks.len() == old(self).blocks.len()
                    &&& forall|k: int|
                        0 <= k < old(self).blocks.len() && k != site(old(self).blocks@, name@).0
                            ==> final(self).blocks[k] == old(self).blocks[k]
                    &&& ({
                        let (i, j) = site(old(self).blocks@, name@);
                        &&& final(self).blocks[i].accept == old(self).blocks[i].accept
                        &&& final(self).blocks[i].reject == old(self).blocks[i].reject
                        &&& final(self).blocks[i].is_split == old(self).blocks[i].is_split
                        &&& final(self).blocks[i].variables@ == old(
                            self,
                        ).blocks[i].variables@.update(j, *final(v))
                    })
                    &&& final(v).name@ == name@ ==> final(self).machine().frames == rewritten(
                        old(self).machine().frames,
                        resolve(old(self).machine().frames, name@).unwrap(),
                        final(v)@,
                    )
                },
                None => {
                    &&& visible(old(self).machine().frames, name@) is None
                    &&& *final(self) == *old(self)
                },
            },
    {
        match locate(&self.blocks, name) {
            Some((i, j)) => {
                let ghost before = self.blocks@;
                let v = &mut self.blocks[i].variables[j];
                proof {
                    let vars = before[i as int].variables@;
                    assert forall|x: LocalVariable| x.name@ == name@ implies locals_of(
                        #[trigger] vars.update(j as int, x),
                    ) == locals_of(vars).insert(name@, x@) by {
                        lemma_locals_replaced(vars, j as int, x);
                    }
                }
                Some(v)
            },
            None => None,
        }
    }

    /// Defines a variable of the named type in the innermost frame, with the
    /// type's initial value and not yet initialized. A variable of that name
    /// in the same frame is replaced.
    pub fn define(&mut self, name: String, var_type: &String) -> (r: Result<(), EvalError>)
        requires
            old(self).blocks.len() > 0,
        ensures
            final(self).same_program(old(self)),
            final(self).calls@ == old(self).calls@,
            final(self).blocks.len() == old(self).blocks.len(),
            match r {
                Ok(_) => {
                    &&& initial_value(var_type@) is Some
                    &&& final(self).machine().frames == defined(
                        old(self).machine().frames,
                        Local {
                            name: name@,
                            value: initial_value(var_type@).unwrap(),
                            initialized: false,
                        },
                    )
                },
                Err(e) => {
                    &&& e == EvalError::UnknownType
                    &&& initial_value(var_type@) is None
                    &&& final(self).blocks == old(self).blocks
                },
            },
    {
        match default_value(var_type) {
            Some(v) => {
                define_local(
                    &mut self.blocks,
                    LocalVariable { name, value: v, status: VariableStatus::default() },
                );
                Ok(())
            },
            None => Err(EvalError::UnknownType),
        }
    }

    /// Gives the variable that `name` means a value and marks it initialized.
    pub fn assign(&mut self, name: &String, value: Variable) -> (r: Result<(), EvalError>)
        ensures
            final(self).same_program(old(self)),
            final(self).calls@ == old(self).calls@,
            final(self).blocks.len() == old(self).blocks.len(),
            match r {
                Ok(_) => {
                    &&& resolve(old(self).machine().frames, name@) is Some
                    &&& final(self).machine().frames == assigned(
                        old(self).machine().frames,
                        resolve(old(self).machine().frames, name@).unwrap(),
                        name@,
                        value@,
                    )
                },
                Err(e) => {
                    &&& e == EvalError::UnboundVariable
                    &&& resolve(old(self).machine().frames, name@) is None
                    &&& final(self).blocks == old(self).blocks
                },
            },
    {
        match locate(&self.blocks, name) {
            Some((i, j)) => {
                store(&mut self.blocks, i, j, value);
                Ok(())
            },
            None => Err(EvalError::UnboundVariable),
        }
    }

    /// Evaluates `node` against the frame stack, with the handlers for the
    /// calls that the script does not define. The result and the machine
    /// afterwards are those of the model, for every oracle that answers as
    /// the handlers did. Whatever they answered, the stack has the frames it
    /// had, with their permissions; only values of variables that can be
    /// reached from the innermost frame, and the names defined in that frame,
    /// may differ.
    pub fn evaluate(&mut self, node: Box<Node>) -> (r: Result<Option<Variable>, EvalError>)
        requires
            old(self).blocks.len() > 0,
        ensures
            final(self).same_program(old(self)),
            final(self).blocks.len() == old(self).blocks.len(),
            preserved(old(self).machine(), final(self).machine()),
            follows(
                old(self).calls@,
                final(self).calls@,
                |o: Oracle|
                    eval(
                        old(self).program(),
                        node@,
                        old(self).machine(),
                        old(self).limit as nat,
                        o,
                    ),
                Outcome { result: result_of(r), machine: final(self).machine() },
            ),
    {
        let ghost p = self.program();
        let ghost m0 = self.machine();
        let empty: Vec<Box<Node>> = Vec::new();
        let table: &Vec<Box<Node>> = match &self.functions {
            Some(f) => f,
            None => &empty,
        };
        assert(syntax_of_all(*table) =~= table_of(self.functions));
        let script = Script { functions: table, handlers: &self.external_func, limit: self.limit };
        let r = eval_node(&script, &mut self.blocks, &mut self.calls, &node, self.limit);
        proof {
            lemma_replay_agrees(self.calls@);
            lemma_eval_preserves(p, node@, m0, self.limit as nat, replay(self.calls@));
        }
        r
    }

    /// Runs the function named `function_name` in a frame of its own, in which
    /// every permission is granted, and gives what it returned, or the unit
    /// value if it returned nothing. A name that the script does not define
    /// gives the unit value as well. The arguments are not used. The frame
    /// stack is afterwards what it was before, whether the run ended with a
    /// value or with an error.
    pub fn run(&mut self, function_name: String, function_args: Vec<Box<Node>>) -> (r: Result<
        Variable,
        EvalError,
    >)
        ensures
            final(self).same_program(old(self)),
            final(self).blocks.len() == old(self).blocks.len(),
            final(self).machine().frames == old(self).machine().frames,
            follows(
                old(self).calls@,
                final(self).calls@,
                |o: Oracle| run(old(self).program(), function_name@, old(self).machine(), o),
                Outcome {
                    result: match r {
                        Ok(v) => Ok(Some(v@)),
                        Err(e) => Err(e),
                    },
                    machine: final(self).machine(),
                },
            ),
    {
        let empty: Vec<Box<Node>> = Vec::new();
        let table: &Vec<Box<Node>> = match &self.functions {
            Some(f) => f,
            None => &empty,
        };
        assert(syntax_of_all(*table) =~= table_of(self.functions));
        let ghost p = self.program();
        let ghost m0 = self.machine();
        match find(table, &function_name) {
            Some(at) => {
                let mut accept: Vec<Permission> = Vec::new();
                accept.push(Permission::Administrator);
                accept.push(Permission::StdIo);
                let frame = Block::new(accept, Vec::new(), true);
                proof {
                    assert(frame@ =~= root_frame()) by {
                        assert(frame@.accept =~= root_frame().accept);
                        assert(frame@.reject =~= root_frame().reject);
                    }
                    lemma_frames_push(self.blocks@, frame);
                }
                self.blocks.push(frame);
                let r = match &*table[at] {
                    Node::Function { body, .. } => {
                        let script = Script {
                            functions: table,
                            handlers: &self.external_func,
                            limit: self.limit,
                        };
                        run_seq(&script, &mut self.blocks, &mut self.calls, body, self.limit)
                    },
                    _ => Ok(None),
                };
                proof {
                    lemma_frames_pop(self.blocks@);
                }
                self.blocks.pop();
                proof {
                    lemma_replay_agrees(self.calls@);
                    lemma_run_restores(p, function_name@, m0, replay(self.calls@));
                }
                match unwrap_return(r) {
                    Ok(Some(v)) => Ok(v),
                    Ok(None) => Ok(Variable::Unit {  }),
                    Err(e) => Err(e),
                }
            },
            None => Ok(Variable::Unit {  }),
        }
    }
}

} // verus!
