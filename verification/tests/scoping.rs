use gpsl::error::EvalError;
use gpsl::external_function::{ExternalFuncReturn, ExternalFuncStatus, ExternalFunction};
use gpsl::node::{Node, NodeKind};
use gpsl::permission::Permission;
use gpsl::variable::Variable;
use gpsl::vm::gpsl::GPSL;
use std::cell::RefCell;

/// A handler that serves one name with a fixed answer and records each call.
struct Handler {
    serves: &'static str,
    status: ExternalFuncStatus,
    value: Option<usize>,
    seen: RefCell<Vec<(String, Vec<Variable>, Vec<Permission>, Vec<Permission>)>>,
}

impl Handler {
    fn new(serves: &'static str, status: ExternalFuncStatus, value: Option<usize>) -> Handler {
        Handler { serves, status, value, seen: RefCell::new(vec![]) }
    }
}

impl ExternalFunction for Handler {
    fn call(
        &self,
        name: &String,
        args: &Vec<Variable>,
        accept: &Vec<Permission>,
        reject: &Vec<Permission>,
    ) -> ExternalFuncReturn {
        self.seen.borrow_mut().push((name.clone(), args.clone(), accept.clone(), reject.clone()));
        if name == self.serves {
            ExternalFuncReturn {
                status: self.status,
                value: self.value.map(|value| Variable::Number { value }),
            }
        } else {
            ExternalFuncReturn { status: ExternalFuncStatus::NOTFOUND, value: None }
        }
    }
}

fn n(value: usize) -> Variable {
    Variable::Number { value }
}

fn num(value: usize) -> Box<Node> {
    Box::new(Node::Number { value })
}

fn text(s: &str) -> Box<Node> {
    Box::new(Node::Text { value: s.to_string() })
}

fn var(name: &str) -> Box<Node> {
    Box::new(Node::Lvar { value: name.to_string() })
}

fn define(name: &str, var_type: &str) -> Box<Node> {
    Box::new(Node::Define { name: name.to_string(), var_type: var_type.to_string() })
}

fn op(kind: NodeKind, lhs: Box<Node>, rhs: Box<Node>) -> Box<Node> {
    Box::new(Node::Operator { kind, lhs, rhs })
}

fn assign(name: &str, rhs: Box<Node>) -> Box<Node> {
    op(NodeKind::ASSIGN, var(name), rhs)
}

fn ret(lhs: Box<Node>) -> Box<Node> {
    Box::new(Node::Return { lhs })
}

fn call(name: &str, args: Vec<Box<Node>>) -> Box<Node> {
    Box::new(Node::Call { name: name.to_string(), args })
}

fn block(stmts: Vec<Box<Node>>) -> Box<Node> {
    Box::new(Node::Block { stmts, permission: None })
}

fn block_with(accept: &[&str], reject: &[&str], stmts: Vec<Box<Node>>) -> Box<Node> {
    let permission = Node::Permission {
        accept: accept.iter().map(|s| s.to_string()).collect(),
        reject: reject.iter().map(|s| s.to_string()).collect(),
    };
    Box::new(Node::Block { stmts, permission: Some(Box::new(permission)) })
}

fn if_else(condition: Box<Node>, stmt: Box<Node>, else_stmt: Option<Box<Node>>) -> Box<Node> {
    Box::new(Node::If { condition, stmt, else_stmt })
}

fn while_do(condition: Box<Node>, stmt: Box<Node>) -> Box<Node> {
    Box::new(Node::While { condition, stmt })
}

fn for_do(
    init: Option<Box<Node>>,
    condition: Option<Box<Node>>,
    update: Option<Box<Node>>,
    stmt: Box<Node>,
) -> Box<Node> {
    Box::new(Node::For { init, condition, update, stmt })
}

fn function(name: &str, body: Vec<Box<Node>>) -> Box<Node> {
    Box::new(Node::Function { name: name.to_string(), body, args: vec![] })
}

/// A runtime over the given functions and handlers.
fn runtime(functions: Vec<Box<Node>>, handlers: Vec<Handler>) -> GPSL<Handler> {
    GPSL::new(Some(functions), handlers)
}

/// Runs `body` as the function `main`.
fn run_main(body: Vec<Box<Node>>) -> Result<Variable, EvalError> {
    runtime(vec![function("main", body)], vec![]).run("main".to_string(), vec![])
}

fn all() -> Vec<Permission> {
    vec![Permission::Administrator, Permission::StdIo]
}

#[test]
fn round_trip_through_a_variable() {
    let r = run_main(vec![define("x", "num"), assign("x", num(7)), ret(var("x"))]);
    assert_eq!(r, Ok(n(7)));
}

#[test]
fn assignment_marks_the_variable_initialized() {
    let mut g = runtime(vec![], vec![]);
    g.push_frame(all(), vec![], true);
    assert_eq!(g.evaluate(define("x", "num")), Ok(None));
    let before = g.get_local_var(&"x".to_string()).unwrap();
    assert_eq!(before.name, "x");
    assert_eq!(before.value, n(0));
    assert!(!before.status.initialized);
    assert_eq!(g.evaluate(assign("x", num(7))), Ok(None));
    let after = g.get_local_var(&"x".to_string()).unwrap();
    assert_eq!(after.value, n(7));
    assert!(after.status.initialized);
    assert_eq!(g.evaluate(ret(var("x"))), Ok(Some(Variable::Return { value: Box::new(n(7)) })));
}

#[test]
fn a_text_variable_starts_empty() {
    let r = run_main(vec![define("s", "String"), ret(var("s"))]);
    assert_eq!(r, Ok(Variable::Text { value: String::new() }));
}

#[test]
fn the_statements_of_a_function_share_one_frame() {
    let r = run_main(vec![
        define("a", "num"),
        define("b", "num"),
        assign("a", num(2)),
        assign("b", op(NodeKind::ADD, var("a"), num(3))),
        ret(op(NodeKind::MUL, var("a"), var("b"))),
    ]);
    assert_eq!(r, Ok(n(10)));
}

#[test]
fn a_variable_of_a_block_is_gone_after_the_block() {
    let r = run_main(vec![block(vec![define("x", "num"), assign("x", num(1))]), ret(var("x"))]);
    assert_eq!(r, Err(EvalError::UnboundVariable));
}

#[test]
fn a_variable_of_a_block_cannot_be_assigned_after_the_block() {
    let r = run_main(vec![block(vec![define("x", "num")]), assign("x", num(1))]);
    assert_eq!(r, Err(EvalError::UnboundVariable));
}

#[test]
fn a_block_leaves_the_frame_stack_as_it_was() {
    let mut g = runtime(vec![], vec![]);
    g.push_frame(all(), vec![], true);
    let node = block(vec![define("x", "num"), block(vec![define("y", "num")])]);
    assert_eq!(g.evaluate(node), Ok(None));
    assert_eq!(g.blocks.len(), 1);
    assert!(g.get_local_var(&"x".to_string()).is_none());
    assert!(g.get_local_var(&"y".to_string()).is_none());
}

#[test]
fn a_block_sees_and_changes_the_locals_around_it() {
    let r = run_main(vec![
        define("x", "num"),
        assign("x", num(1)),
        block(vec![block(vec![assign("x", op(NodeKind::ADD, var("x"), num(41)))])]),
        ret(var("x")),
    ]);
    assert_eq!(r, Ok(n(42)));
}

#[test]
fn a_block_can_shadow_a_name_for_its_own_time() {
    let r = run_main(vec![
        define("x", "num"),
        assign("x", num(1)),
        block(vec![define("x", "num"), assign("x", num(2))]),
        ret(var("x")),
    ]);
    assert_eq!(r, Ok(n(1)));
}

#[test]
fn the_shadowing_name_is_the_one_read_inside() {
    let r = run_main(vec![
        define("x", "num"),
        assign("x", num(1)),
        block(vec![define("x", "num"), assign("x", num(2)), ret(var("x"))]),
    ]);
    assert_eq!(r, Ok(n(2)));
}

#[test]
fn redefining_a_name_in_one_frame_replaces_it() {
    let mut g = runtime(vec![], vec![]);
    g.push_frame(all(), vec![], true);
    assert_eq!(g.evaluate(define("x", "num")), Ok(None));
    assert_eq!(g.evaluate(assign("x", num(9))), Ok(None));
    assert_eq!(g.evaluate(define("x", "String")), Ok(None));
    let x = g.get_local_var(&"x".to_string()).unwrap();
    assert_eq!(x.value, Variable::Text { value: String::new() });
    assert!(!x.status.initialized);
    assert_eq!(g.blocks[0].variables.len(), 1);
}

#[test]
fn a_function_does_not_see_its_callers_locals() {
    let functions = vec![
        function("main", vec![define("x", "num"), assign("x", num(5)), ret(call("peek", vec![]))]),
        function("peek", vec![ret(var("x"))]),
    ];
    let mut g = runtime(functions, vec![]);
    assert_eq!(g.run("main".to_string(), vec![]), Err(EvalError::UnboundVariable));
}

#[test]
fn a_function_cannot_assign_its_callers_locals() {
    let functions = vec![
        function("main", vec![define("x", "num"), call("poke", vec![]), ret(var("x"))]),
        function("poke", vec![assign("x", num(1))]),
    ];
    let mut g = runtime(functions, vec![]);
    assert_eq!(g.run("main".to_string(), vec![]), Err(EvalError::UnboundVariable));
}

#[test]
fn a_function_that_defines_the_name_has_its_own() {
    let functions = vec![
        function(
            "main",
            vec![
                define("x", "num"),
                assign("x", num(5)),
                define("y", "num"),
                assign("y", call("own", vec![])),
                ret(op(NodeKind::ADD, var("x"), var("y"))),
            ],
        ),
        function("own", vec![define("x", "num"), assign("x", num(100)), ret(var("x"))]),
    ];
    let mut g = runtime(functions, vec![]);
    assert_eq!(g.run("main".to_string(), vec![]), Ok(n(105)));
}

#[test]
fn a_block_inside_a_function_does_not_reach_the_caller() {
    let functions = vec![
        function("main", vec![define("x", "num"), ret(call("deep", vec![]))]),
        function("deep", vec![block(vec![block(vec![ret(var("x"))])])]),
    ];
    let mut g = runtime(functions, vec![]);
    assert_eq!(g.run("main".to_string(), vec![]), Err(EvalError::UnboundVariable));
}

#[test]
fn arguments_are_evaluated_in_the_callers_scope() {
    let functions = vec![
        function(
            "main",
            vec![define("x", "num"), assign("x", num(4)), ret(call("seven", vec![var("x")]))],
        ),
        function("seven", vec![ret(num(7))]),
    ];
    let mut g = runtime(functions, vec![]);
    assert_eq!(g.run("main".to_string(), vec![]), Ok(n(7)));
}

#[test]
fn a_failing_argument_fails_the_call() {
    let functions = vec![
        function("main", vec![ret(call("seven", vec![var("missing")]))]),
        function("seven", vec![ret(num(7))]),
    ];
    let mut g = runtime(functions, vec![]);
    assert_eq!(g.run("main".to_string(), vec![]), Err(EvalError::UnboundVariable));
}

#[test]
fn reading_an_unknown_name_fails() {
    assert_eq!(run_main(vec![ret(var("nope"))]), Err(EvalError::UnboundVariable));
}

#[test]
fn assigning_an_unknown_name_fails() {
    assert_eq!(run_main(vec![assign("nope", num(1))]), Err(EvalError::UnboundVariable));
}

#[test]
fn assigning_to_what_is_no_variable_fails() {
    let r = run_main(vec![op(NodeKind::ASSIGN, num(1), num(2))]);
    assert_eq!(r, Err(EvalError::TypeMismatch));
}

#[test]
fn assigning_nothing_leaves_the_variable() {
    let mut g = runtime(vec![], vec![]);
    g.push_frame(all(), vec![], true);
    assert_eq!(g.evaluate(define("x", "num")), Ok(None));
    assert_eq!(g.evaluate(assign("x", define("y", "num"))), Ok(None));
    let x = g.get_local_var(&"x".to_string()).unwrap();
    assert_eq!(x.value, n(0));
    assert!(!x.status.initialized);
}

#[test]
fn a_definition_of_an_unknown_type_fails() {
    assert_eq!(run_main(vec![define("x", "float")]), Err(EvalError::UnknownType));
}

#[test]
fn define_puts_the_variable_in_the_innermost_frame() {
    let mut g = runtime(vec![], vec![]);
    g.push_frame(all(), vec![], true);
    g.push_frame(all(), vec![], false);
    assert_eq!(g.define("x".to_string(), &"num".to_string()), Ok(()));
    assert_eq!(g.blocks[0].variables.len(), 0);
    assert_eq!(g.blocks[1].variables.len(), 1);
    assert_eq!(g.define("y".to_string(), &"void".to_string()), Err(EvalError::UnknownType));
    assert_eq!(g.blocks[1].variables.len(), 1);
}

#[test]
fn assign_reaches_outward_up_to_the_call_boundary() {
    let mut g = runtime(vec![], vec![]);
    g.push_frame(all(), vec![], true);
    assert_eq!(g.define("outer".to_string(), &"num".to_string()), Ok(()));
    g.push_frame(all(), vec![], true);
    assert_eq!(g.define("mine".to_string(), &"num".to_string()), Ok(()));
    g.push_frame(all(), vec![], false);
    assert_eq!(g.assign(&"mine".to_string(), n(3)), Ok(()));
    assert_eq!(g.assign(&"outer".to_string(), n(3)), Err(EvalError::UnboundVariable));
    assert_eq!(g.blocks[1].variables[0].value, n(3));
    assert!(g.blocks[1].variables[0].status.initialized);
    assert_eq!(g.blocks[0].variables[0].value, n(0));
    assert!(g.get_local_var(&"outer".to_string()).is_none());
    assert_eq!(g.get_local_var(&"mine".to_string()).unwrap().value, n(3));
}

#[test]
fn a_variable_in_the_boundary_frame_itself_is_found() {
    let mut g = runtime(vec![], vec![]);
    g.push_frame(all(), vec![], false);
    assert_eq!(g.define("below".to_string(), &"num".to_string()), Ok(()));
    g.push_frame(all(), vec![], true);
    assert_eq!(g.define("at".to_string(), &"num".to_string()), Ok(()));
    assert!(g.get_local_var(&"at".to_string()).is_some());
    assert!(g.get_local_var(&"below".to_string()).is_none());
}

#[test]
fn a_variable_can_be_changed_in_place() {
    let mut g = runtime(vec![], vec![]);
    g.push_frame(all(), vec![], true);
    assert_eq!(g.define("x".to_string(), &"num".to_string()), Ok(()));
    g.push_frame(all(), vec![], false);
    {
        let x = g.get_local_var_mut(&"x".to_string()).unwrap();
        x.value = n(11);
        x.status.initialized = true;
    }
    assert!(g.get_local_var_mut(&"y".to_string()).is_none());
    assert_eq!(g.evaluate(var("x")), Ok(Some(n(11))));
    assert!(g.get_local_var(&"x".to_string()).unwrap().status.initialized);
}

#[test]
fn the_last_frame_is_never_popped() {
    let mut g = runtime(vec![], vec![]);
    assert!(g.pop_frame().is_none());
    g.push_frame(all(), vec![], true);
    assert!(g.pop_frame().is_none());
    assert_eq!(g.blocks.len(), 1);
    g.push_frame(vec![Permission::StdIo], vec![Permission::Administrator], false);
    let top = g.pop_frame().unwrap();
    assert_eq!(top.accept, vec![Permission::StdIo]);
    assert_eq!(top.reject, vec![Permission::Administrator]);
    assert!(!top.is_split);
    assert_eq!(g.blocks.len(), 1);
}

#[test]
fn a_new_runtime_is_empty() {
    let g = runtime(vec![], vec![]);
    assert!(g.blocks.is_empty());
    assert!(g.global_variables.is_empty());
    assert_eq!(g.limit, usize::MAX);
    assert_eq!(g.functions, Some(vec![]));
}

#[test]
fn literals_evaluate_to_themselves() {
    let mut g = runtime(vec![], vec![]);
    g.push_frame(all(), vec![], true);
    assert_eq!(g.evaluate(num(0)), Ok(Some(n(0))));
    assert_eq!(g.evaluate(text("hi")), Ok(Some(Variable::Text { value: "hi".to_string() })));
}

#[test]
fn nodes_that_are_no_statements_give_nothing() {
    let mut g = runtime(vec![], vec![]);
    g.push_frame(all(), vec![], true);
    assert_eq!(g.evaluate(Box::new(Node::Empty)), Ok(None));
    assert_eq!(g.evaluate(function("f", vec![ret(num(1))])), Ok(None));
    let permission = Node::Permission { accept: vec!["Bogus".to_string()], reject: vec![] };
    assert_eq!(g.evaluate(Box::new(permission)), Ok(None));
}
