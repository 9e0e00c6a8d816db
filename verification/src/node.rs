//! The program representation: an immutable syntax tree.

use vstd::prelude::*;

verus! {

/// The kind of a binary operation.
#[derive(Clone, Copy, Debug, PartialEq, Eq, Structural)]
#[allow(non_camel_case_types)]
pub enum NodeKind {
    ADD,
    SUB,
    MUL,
    DIV,
    ASSIGN,
    EQ,
    NE,
    LT,
    LE,
}

/// A node of the syntax tree.
#[derive(Debug, PartialEq, Eq)]
#[allow(inconsistent_fields)]
pub enum Node {
    Call { name: String, args: Vec<Box<Node>> },
    Text { value: String },
    Number { value: usize },
    Operator { kind: NodeKind, lhs: Box<Node>, rhs: Box<Node> },
    Lvar { value: String },
    Return { lhs: Box<Node> },
    If { condition: Box<Node>, stmt: Box<Node>, else_stmt: Option<Box<Node>> },
    While { condition: Box<Node>, stmt: Box<Node> },
    For {
        init: Option<Box<Node>>,
        condition: Option<Box<Node>>,
        update: Option<Box<Node>>,
        stmt: Box<Node>,
    },
    Block { stmts: Vec<Box<Node>>, permission: Option<Box<Node>> },
    Define { name: String, var_type: String },
    Function { name: String, body: Vec<Box<Node>>, args: Vec<Box<Node>> },
    Permission { accept: Vec<String>, reject: Vec<String> },
    Empty,
}

/// The mathematical model of a [`Node`]: the same tree over sequences.
#[allow(inconsistent_fields)]
pub enum Syntax {
    Call { name: Seq<char>, args: Seq<Syntax> },
    Text { value: Seq<char> },
    Number { value: int },
    Operator { kind: NodeKind, lhs: Box<Syntax>, rhs: Box<Syntax> },
    Lvar { name: Seq<char> },
    Return { expr: Box<Syntax> },
    If { condition: Box<Syntax>, stmt: Box<Syntax>, else_stmt: Option<Box<Syntax>> },
    While { condition: Box<Syntax>, stmt: Box<Syntax> },
    For {
        init: Option<Box<Syntax>>,
        condition: Option<Box<Syntax>>,
        update: Option<Box<Syntax>>,
        stmt: Box<Syntax>,
    },
    Block { stmts: Seq<Syntax>, permission: Option<Box<Syntax>> },
    Define { name: Seq<char>, var_type: Seq<char> },
    Function { name: Seq<char>, body: Seq<Syntax>, params: Seq<Syntax> },
    Permission { accept: Seq<Seq<char>>, reject: Seq<Seq<char>> },
    Empty,
}

/// The model of a list of children.
pub open spec fn syntax_of_all(v: Vec<Box<Node>>) -> Seq<Syntax>
    decreases v,
{
    Seq::new(
        v.len() as nat,
        |i: int|
            if 0 <= i < v.len() {
                syntax_of(*v[i])
            } else {
                Syntax::Empty
            },
    )
}

/// The texts of a list of strings.
pub open spec fn texts_of(v: Vec<String>) -> Seq<Seq<char>> {
    Seq::new(v.len() as nat, |i: int| v[i]@)
}

/// The model of `n`.
pub open spec fn syntax_of(n: Node) -> Syntax
    decreases n,
{
    match n {
        Node::Call { name, args } => Syntax::Call { name: name@, args: syntax_of_all(args) },
        Node::Text { value } => Syntax::Text { value: value@ },
        Node::Number { value } => Syntax::Number { value: value as int },
        Node::Operator { kind, lhs, rhs } => Syntax::Operator {
            kind,
            lhs: Box::new(syntax_of(*lhs)),
            rhs: Box::new(syntax_of(*rhs)),
        },
        Node::Lvar { value } => Syntax::Lvar { name: value@ },
        Node::Return { lhs } => Syntax::Return { expr: Box::new(syntax_of(*lhs)) },
        Node::If { condition, stmt, else_stmt } => Syntax::If {
            condition: Box::new(syntax_of(*condition)),
            stmt: Box::new(syntax_of(*stmt)),
            else_stmt: match else_stmt {
                Some(b) => Some(Box::new(syntax_of(*b))),
                None => None,
            },
        },
        Node::While { condition, stmt } => Syntax::While {
            condition: Box::new(syntax_of(*condition)),
            stmt: Box::new(syntax_of(*stmt)),
        },
        Node::For { init, condition, update, stmt } => Syntax::For {
            init: match init {
                Some(b) => Some(Box::new(syntax_of(*b))),
                None => None,
            },
            condition: match condition {
                Some(b) => Some(Box::new(syntax_of(*b))),
                None => None,
            },
            update: match update {
                Some(b) => Some(Box::new(syntax_of(*b))),
                None => None,
            },
            stmt: Box::new(syntax_of(*stmt)),
        },
        Node::Block { stmts, permission } => Syntax::Block {
            stmts: syntax_of_all(stmts),
            permission: match permission {
                Some(b) => Some(Box::new(syntax_of(*b))),
                None => None,
            },
        },
        Node::Define { name, var_type } => Syntax::Define { name: name@, var_type: var_type@ },
        Node::Function { name, body, args } => Syntax::Function {
            name: name@,
            body: syntax_of_all(body),
            params: syntax_of_all(args),
        },
        Node::Permission { accept, reject } => Syntax::Permission {
            accept: texts_of(accept),
            reject: texts_of(reject),
        },
        Node::Empty => Syntax::Empty,
    }
}

/// The model of an optional child.
pub open spec fn syntax_of_opt(n: Option<Box<Node>>) -> Option<Box<Syntax>> {
    match n {
        Some(b) => Some(Box::new(syntax_of(*b))),
        None => None,
    }
}

impl View for Node {
    type V = Syntax;

    open spec fn view(&self) -> Syntax {
        syntax_of(*self)
    }
}

/// A copy of a list of strings.
fn copy_texts(v: &Vec<String>) -> (r: Vec<String>)
    ensures
        texts_of(r) == texts_of(*v),
{
    let mut out: Vec<String> = Vec::new();
    let mut i: usize = 0;
    while i < v.len()
        invariant
            i <= v.len(),
            out.len() == i,
            forall|j: int| 0 <= j < i ==> out[j]@ == v[j]@,
        decreases v.len() - i,
    {
        out.push(v[i].clone());
        i = i + 1;
    }
    assert(texts_of(out) =~= texts_of(*v));
    out
}

/// A copy of a list of children.
fn copy_all(v: &Vec<Box<Node>>) -> (r: Vec<Box<Node>>)
    ensures
        syntax_of_all(r) == syntax_of_all(*v),
    decreases v,
{
    let mut out: Vec<Box<Node>> = Vec::new();
    let mut i: usize = 0;
    while i < v.len()
        invariant
            i <= v.len(),
            out.len() == i,
            forall|j: int| 0 <= j < i ==> out[j]@ == v[j]@,
        decreases v.len() - i,
    {
        let child: Node = (*v[i]).clone();
        out.push(Box::new(child));
        i = i + 1;
    }
    assert(syntax_of_all(out) =~= syntax_of_all(*v));
    out
}

/// A copy of an optional child.
fn copy_opt(n: &Option<Box<Node>>) -> (r: Option<Box<Node>>)
    ensures
        syntax_of_opt(r) == syntax_of_opt(*n),
    decreases n,
{
    match n {
        Some(b) => {
            let child: Node = (**b).clone();
            Some(Box::new(child))
        },
        None => None,
    }
}

impl Clone for Node {
    /// A copy of the whole tree.
    fn clone(&self) -> (r: Node)
        ensures
            r@ == self@,
        decreases self,
    {
        match self {
            Node::Call { name, args } => Node::Call { name: name.clone(), args: copy_all(args) },
            Node::Text { value } => Node::Text { value: value.clone() },
            Node::Number { value } => Node::Number { value: *value },
            Node::Operator { kind, lhs, rhs } => {
                let l: Node = (**lhs).clone();
                let r: Node = (**rhs).clone();
                Node::Operator { kind: *kind, lhs: Box::new(l), rhs: Box::new(r) }
            },
            Node::Lvar { value } => Node::Lvar { value: value.clone() },
            Node::Return { lhs } => {
                let l: Node = (**lhs).clone();
                Node::Return { lhs: Box::new(l) }
            },
            Node::If { condition, stmt, else_stmt } => {
                let c: Node = (**condition).clone();
                let s: Node = (**stmt).clone();
                Node::If {
                    condition: Box::new(c),
                    stmt: Box::new(s),
                    else_stmt: copy_opt(else_stmt),
                }
            },
            Node::While { condition, stmt } => {
                let c: Node = (**condition).clone();
                let s: Node = (**stmt).clone();
                Node::While { condition: Box::new(c), stmt: Box::new(s) }
            },
            Node::For { init, condition, update, stmt } => {
                let s: Node = (**stmt).clone();
                Node::For {
                    init: copy_opt(init),
                    condition: copy_opt(condition),
                    update: copy_opt(update),
                    stmt: Box::new(s),
                }
            },
            Node::Block { stmts, permission } => Node::Block {
                stmts: copy_all(stmts),
                permission: copy_opt(permission),
            },
            Node::Define { name, var_type } => Node::Define {
                name: name.clone(),
                var_type: var_type.clone(),
            },
            Node::Function { name, body, args } => Node::Function {
                name: name.clone(),
                body: copy_all(body),
                args: copy_all(args),
            },
            Node::Permission { accept, reject } => Node::Permission {
                accept: copy_texts(accept),
                reject: copy_texts(reject),
            },
            Node::Empty => Node::Empty,
        }
    }
}

} // verus!
