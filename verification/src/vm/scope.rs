//! Frames, local variables and the rules by which a name is found.

use crate::permission::Permission;
use crate::variable::{Value, Variable};
use vstd::prelude::*;

verus! {

/// Whether a variable has been assigned since it was defined.
#[derive(Clone, Copy, Debug, PartialEq, Eq, Structural)]
pub struct VariableStatus {
    pub initialized: bool,
}

impl VariableStatus {
    /// The status of a variable that was defined and not yet assigned.
    pub fn default() -> (r: VariableStatus)
        ensures
            !r.initialized,
    {
        VariableStatus { initialized: false }
    }
}

/// A local variable: its name, its current value and its status.
#[derive(Debug, PartialEq, Eq)]
pub struct LocalVariable {
    pub name: String,
    pub value: Variable,
    pub status: VariableStatus,
}

/// The mathematical model of a [`LocalVariable`].
pub struct Local {
    pub name: Seq<char>,
    pub value: Value,
    pub initialized: bool,
}

impl View for LocalVariable {
    type V = Local;

    open spec fn view(&self) -> Local {
        Local { name: self.name@, value: self.value@, initialized: self.status.initialized }
    }
}

impl Clone for LocalVariable {
    fn clone(&self) -> (r: LocalVariable)
        ensures
            r@ == self@,
    {
        LocalVariable {
            name: self.name.clone(),
            value: self.value.clone(),
            status: self.status,
        }
    }
}

/// A frame: the permissions in force, the variables defined in it, and whether
/// it began a function call. Of two variables of one name the later one counts.
#[derive(Debug, PartialEq, Eq)]
pub struct Block {
    pub accept: Vec<Permission>,
    pub reject: Vec<Permission>,
    pub variables: Vec<LocalVariable>,
    pub is_split: bool,
}

/// The mathematical model of a [`Block`].
pub struct Frame {
    pub accept: Seq<Permission>,
    pub reject: Seq<Permission>,
    pub variables: Map<Seq<char>, Local>,
    pub is_split: bool,
}

/// The variables of a frame by name; a later entry overrides an earlier one.
pub open spec fn locals_of(s: Seq<LocalVariable>) -> Map<Seq<char>, Local>
    decreases s.len(),
{
    if s.len() == 0 {
        Map::empty()
    } else {
        locals_of(s.drop_last()).insert(s.last().name@, s.last()@)
    }
}

impl View for Block {
    type V = Frame;

    open spec fn view(&self) -> Frame {
        Frame {
            accept: self.accept@,
            reject: self.reject@,
            variables: locals_of(self.variables@),
            is_split: self.is_split,
        }
    }
}

/// The model of a frame stack; the innermost frame is the last.
pub open spec fn frames_of(blocks: Seq<Block>) -> Seq<Frame> {
    Seq::new(blocks.len(), |i: int| blocks[i]@)
}

/// No entry of `s` from index `from` on has the name `name`.
pub open spec fn absent_from(s: Seq<LocalVariable>, name: Seq<char>, from: int) -> bool {
    forall|j: int| from <= j < s.len() ==> (#[trigger] s[j]).name@ != name
}

/// The place of the entry that counts for `name`: the last of that name.
pub open spec fn last_named(s: Seq<LocalVariable>, name: Seq<char>) -> Option<int>
    decreases s.len(),
{
    if s.len() == 0 {
        None
    } else if s.last().name@ == name {
        Some(s.len() - 1)
    } else {
        last_named(s.drop_last(), name)
    }
}

/// The last entry of a name is the one that no later entry of the name
/// follows.
pub proof fn lemma_last_named(s: Seq<LocalVariable>, name: Seq<char>, i: int)
    requires
        absent_from(s, name, i + 1),
        -1 <= i < s.len(),
        i >= 0 ==> s[i].name@ == name,
    ensures
        last_named(s, name) == (if i >= 0 {
            Some(i)
        } else {
            None
        }),
    decreases s.len(),
{
    if s.len() > 0 && i < s.len() - 1 {
        let t = s.drop_last();
        assert(s.last().name@ != name);
        assert(absent_from(t, name, i + 1)) by {
            assert forall|j: int| i + 1 <= j < t.len() implies (#[trigger] t[j]).name@ != name by {
                assert(t[j] == s[j]);
            }
        }
        lemma_last_named(t, name, i);
    }
}

/// An entry that no later entry overrides is the one the frame's map holds.
pub proof fn lemma_locals_found(s: Seq<LocalVariable>, name: Seq<char>, i: int)
    requires
        0 <= i < s.len(),
        s[i].name@ == name,
        absent_from(s, name, i + 1),
    ensures
        locals_of(s).contains_key(name),
        locals_of(s)[name] == s[i]@,
    decreases s.len(),
{
    if i < s.len() - 1 {
        assert(s.last().name@ != name);
        let t = s.drop_last();
        assert(absent_from(t, name, i + 1)) by {
            assert forall|j: int| i + 1 <= j < t.len() implies (#[trigger] t[j]).name@ != name by {
                assert(t[j] == s[j]);
            }
        }
        lemma_locals_found(t, name, i);
    }
}

/// A name that no entry has is not in the frame's map.
pub proof fn lemma_locals_absent(s: Seq<LocalVariable>, name: Seq<char>)
    requires
        absent_from(s, name, 0),
    ensures
        !locals_of(s).contains_key(name),
    decreases s.len(),
{
    if s.len() > 0 {
        let t = s.drop_last();
        assert(s.last().name@ != name);
        assert(absent_from(t, name, 0)) by {
            assert forall|j: int| 0 <= j < t.len() implies (#[trigger] t[j]).name@ != name by {
                assert(t[j] == s[j]);
            }
        }
        lemma_locals_absent(t, name);
    }
}

/// Replacing the entry that counts for a name by another of the same name
/// changes the frame's map at that name and nowhere else.
pub proof fn lemma_locals_replaced(s: Seq<LocalVariable>, i: int, x: LocalVariable)
    requires
        0 <= i < s.len(),
        s[i].name@ == x.name@,
        absent_from(s, x.name@, i + 1),
    ensures
        locals_of(s.update(i, x)) == locals_of(s).insert(x.name@, x@),
    decreases s.len(),
{
    let u = s.update(i, x);
    if i == s.len() - 1 {
        assert(u.drop_last() == s.drop_last());
        assert(locals_of(s).insert(x.name@, x@) == locals_of(s.drop_last()).insert(x.name@, x@));
    } else {
        let t = s.drop_last();
        assert(s.last().name@ != x.name@);
        assert(absent_from(t, x.name@, i + 1)) by {
            assert forall|j: int| i + 1 <= j < t.len() implies (#[trigger] t[j]).name@
                != x.name@ by {
                assert(t[j] == s[j]);
            }
        }
        lemma_locals_replaced(t, i, x);
        assert(u.drop_last() == t.update(i, x));
        assert(u.last() == s.last());
        assert(locals_of(t).insert(x.name@, x@).insert(s.last().name@, s.last()@) == locals_of(
            t,
        ).insert(s.last().name@, s.last()@).insert(x.name@, x@));
    }
}

/// Two lists of variables that agree entry by entry make the same map.
pub proof fn lemma_locals_alike(a: Seq<LocalVariable>, b: Seq<LocalVariable>)
    requires
        a.len() == b.len(),
        forall|i: int| 0 <= i < a.len() ==> (#[trigger] a[i])@ == b[i]@,
    ensures
        locals_of(a) == locals_of(b),
    decreases a.len(),
{
    if a.len() > 0 {
        assert(a.last()@ == b.last()@);
        assert forall|i: int| 0 <= i < a.drop_last().len() implies (#[trigger] a.drop_last()[i])@
            == b.drop_last()[i]@ by {
            assert(a[i]@ == b[i]@);
        }
        lemma_locals_alike(a.drop_last(), b.drop_last());
    }
}

impl Clone for Block {
    /// A copy of the frame with copies of its variables.
    fn clone(&self) -> (r: Block)
        ensures
            r@ == self@,
    {
        let mut variables: Vec<LocalVariable> = Vec::new();
        let mut i: usize = 0;
        while i < self.variables.len()
            invariant
                i <= self.variables.len(),
                variables.len() == i,
                forall|j: int| 0 <= j < i ==> (#[trigger] variables[j])@ == self.variables[j]@,
            decreases self.variables.len() - i,
        {
            variables.push(self.variables[i].clone());
            i = i + 1;
        }
        proof {
            lemma_locals_alike(variables@, self.variables@);
        }
        Block {
            accept: copy_permissions(&self.accept),
            reject: copy_permissions(&self.reject),
            variables,
            is_split: self.is_split,
        }
    }
}

/// A copy of a list of capabilities.
pub fn copy_permissions(v: &Vec<Permission>) -> (r: Vec<Permission>)
    ensures
        r@ == v@,
{
    let mut out: Vec<Permission> = Vec::new();
    let mut i: usize = 0;
    while i < v.len()
        invariant
            i <= v.len(),
            out@ == v@.take(i as int),
        decreases v.len() - i,
    {
        out.push(v[i]);
        assert(out@ =~= v@.take(i + 1));
        i = i + 1;
    }
    assert(v@.take(v.len() as int) =~= v@);
    out
}

impl Block {
    /// A frame with the given permissions and no variables.
    pub fn new(accept: Vec<Permission>, reject: Vec<Permission>, is_split: bool) -> (r: Block)
        ensures
            r@ == (Frame {
                accept: accept@,
                reject: reject@,
                variables: Map::empty(),
                is_split,
            }),
    {
        Block { accept, reject, variables: Vec::new(), is_split }
    }

    /// The place of the entry that counts for `name`, if the frame has one.
    pub fn position(&self, name: &String) -> (r: Option<usize>)
        ensures
            r is Some <==> self@.variables.contains_key(name@),
            match r {
                Some(i) => {
                    &&& last_named(self.variables@, name@) == Some(i as int)
                    &&& i < self.variables.len()
                    &&& self.variables[i as int].name@ == name@
                    &&& absent_from(self.variables@, name@, i + 1)
                    &&& self@.variables[name@] == self.variables[i as int]@
                },
                None => {
                    &&& last_named(self.variables@, name@) is None
                    &&& absent_from(self.variables@, name@, 0)
                },
            },
    {
        let mut i: usize = self.variables.len();
        while i > 0
            invariant
                i <= self.variables.len(),
                absent_from(self.variables@, name@, i as int),
            decreases i,
        {
            i = i - 1;
            if self.variables[i].name == *name {
                proof {
                    lemma_locals_found(self.variables@, name@, i as int);
                    lemma_last_named(self.variables@, name@, i as int);
                }
                return Some(i);
            }
        }
        proof {
            lemma_locals_absent(self.variables@, name@);
            lemma_last_named(self.variables@, name@, -1);
        }
        None
    }

    /// Puts `var` into the frame under its name, in place of an earlier
    /// variable of that name if there is one.
    pub fn put(&mut self, var: LocalVariable)
        ensures
            final(self)@ == (Frame {
                variables: old(self)@.variables.insert(var.name@, var@),
                ..old(self)@
            }),
    {
        match self.position(&var.name) {
            Some(i) => {
                proof {
                    lemma_locals_replaced(self.variables@, i as int, var);
                }
                self.variables[i] = var;
            },
            None => {
                proof {
                    assert(self.variables@.push(var).drop_last() == self.variables@);
                }
                self.variables.push(var);
            },
        }
    }
}

/// The frame in which `name` is found when the search starts at frame `i` and
/// goes outward: the first frame that holds the name, where no frame before
/// it began a call. A frame that began a call is searched, and ends the search.
pub open spec fn resolve_from(frames: Seq<Frame>, name: Seq<char>, i: int) -> Option<int>
    decreases i + 1,
{
    if i < 0 || i >= frames.len() {
        None
    } else if frames[i].variables.contains_key(name) {
        Some(i)
    } else if frames[i].is_split {
        None
    } else {
        resolve_from(frames, name, i - 1)
    }
}

/// The frame in which `name` is found from the innermost frame.
pub open spec fn resolve(frames: Seq<Frame>, name: Seq<char>) -> Option<int> {
    resolve_from(frames, name, frames.len() - 1)
}

/// The variable that `name` means, if it is visible.
pub open spec fn visible(frames: Seq<Frame>, name: Seq<char>) -> Option<Local> {
    match resolve(frames, name) {
        Some(i) => Some(frames[i].variables[name]),
        None => None,
    }
}

/// The stack with `var` put into its innermost frame; an empty stack stays.
pub open spec fn defined(frames: Seq<Frame>, var: Local) -> Seq<Frame> {
    if frames.len() == 0 {
        frames
    } else {
        frames.update(
            frames.len() - 1,
            (Frame {
                variables: frames.last().variables.insert(var.name, var),
                ..frames.last()
            }),
        )
    }
}

/// The stack with `var` in frame `i` in place of the variable of its name.
pub open spec fn rewritten(frames: Seq<Frame>, i: int, var: Local) -> Seq<Frame> {
    frames.update(
        i,
        (Frame { variables: frames[i].variables.insert(var.name, var), ..frames[i] }),
    )
}

/// The stack after `name`, found in frame `i`, was given the value `value`.
pub open spec fn assigned(frames: Seq<Frame>, i: int, name: Seq<char>, value: Value) -> Seq<
    Frame,
> {
    frames.update(
        i,
        (Frame {
            variables: frames[i].variables.insert(
                name,
                Local { name: frames[i].variables[name].name, value, initialized: true },
            ),
            ..frames[i]
        }),
    )
}

/// Finds the frame and the place in it of the variable that `name` means.
pub fn locate(blocks: &Vec<Block>, name: &String) -> (r: Option<(usize, usize)>)
    ensures
        match r {
            Some((i, j)) => {
                &&& resolve(frames_of(blocks@), name@) == Some(i as int)
                &&& i < blocks.len()
                &&& last_named(blocks[i as int].variables@, name@) == Some(j as int)
                &&& j < blocks[i as int].variables.len()
                &&& blocks[i as int].variables[j as int].name@ == name@
                &&& absent_from(blocks[i as int].variables@, name@, j + 1)
                &&& blocks[i as int]@.variables[name@] == blocks[i as int].variables[j as int]@
            },
            None => resolve(frames_of(blocks@), name@) is None,
        },
{
    let ghost frames = frames_of(blocks@);
    let mut i: usize = blocks.len();
    while i > 0
        invariant
            i <= blocks.len(),
            frames == frames_of(blocks@),
            resolve(frames, name@) == resolve_from(frames, name@, i - 1),
        decreases i,
    {
        i = i - 1;
        match blocks[i].position(name) {
            Some(j) => {
                return Some((i, j));
            },
            None => {
                if blocks[i].is_split {
                    return None;
                }
            },
        }
    }
    None
}

/// Puts a variable into the innermost frame.
pub fn define_local(blocks: &mut Vec<Block>, var: LocalVariable)
    requires
        old(blocks).len() > 0,
    ensures
        final(blocks).len() == old(blocks).len(),
        frames_of(final(blocks)@) == defined(frames_of(old(blocks)@), var@),
{
    let top: usize = blocks.len() - 1;
    blocks[top].put(var);
    assert(frames_of(blocks@) =~= defined(frames_of(old(blocks)@), var@));
}

/// Gives the variable at place `j` of frame `i` the value `value` and marks it
/// as initialized.
pub fn store(blocks: &mut Vec<Block>, i: usize, j: usize, value: Variable)
    requires
        i < old(blocks).len(),
        j < old(blocks)[i as int].variables.len(),
        absent_from(
            old(blocks)[i as int].variables@,
            old(blocks)[i as int].variables[j as int].name@,
            j + 1,
        ),
    ensures
        final(blocks).len() == old(blocks).len(),
        frames_of(final(blocks)@) == assigned(
            frames_of(old(blocks)@),
            i as int,
            old(blocks)[i as int].variables[j as int].name@,
            value@,
        ),
{
    let ghost before = blocks[i as int].variables@;
    let ghost name = before[j as int].name@;
    proof {
        lemma_locals_found(before, name, j as int);
    }
    blocks[i].variables[j].value = value;
    blocks[i].variables[j].status.initialized = true;
    proof {
        let after = blocks[i as int].variables@;
        assert(after == before.update(j as int, after[j as int]));
        lemma_locals_replaced(before, j as int, after[j as int]);
        assert(frames_of(blocks@) =~= assigned(frames_of(old(blocks)@), i as int, name, value@));
    }
}

} // verus!
