use gpsl::error::EvalError;
use gpsl::external_function::{ExternalFuncReturn, ExternalFuncStatus, ExternalFunction};
use gpsl::node::{Node, NodeKind};
use gpsl::permission::Permission;
use gpsl::variable::Variable;
use gpsl::vm::gpsl::GPSL;
use std::cell::RefCell;

/// A handler that serves one name with a fixed answer and records each call.
struct Handler {
    serves: &'static str,
    status: ExternalFuncStatus,
    value: Option<usize>,
    seen: RefCell<Vec<(String, Vec<Variable>, Vec<Permission>, Vec<Permission>)>>,
}

impl Handler {
    fn new(serves: &'static str, status: ExternalFuncStatus, value: Option<usize>) -> Handler {
        Handler { serves, status, value, seen: RefCell::new(vec![]) }
    }
}

impl ExternalFunction for Handler {
    fn call(
        &self,
        name: &String,
        args: &Vec<Variable>,
        accept: &Vec<Permission>,
        reject: &Vec<Permission>,
    ) -> ExternalFuncReturn {
        self.seen.borrow_mut().push((name.clone(), args.clone(), accept.clone(), reject.clone()));
        if name == self.serves {
            ExternalFuncReturn {
                status: self.status,
                value: self.value.map(|value| Variable::Number { value }),
            }
        } else {
            ExternalFuncReturn { status: ExternalFuncStatus::NOTFOUND, value: None }
        }
    }
}

fn n(value: usize) -> Variable {
    Variable::Number { value }
}

fn num(value: usize) -> Box<Node> {
    Box::new(Node::Number { value })
}

fn text(s: &str) -> Box<Node> {
    Box::new(Node::Text { value: s.to_string() })
}

fn var(name: &str) -> Box<Node> {
    Box::new(Node::Lvar { value: name.to_string() })
}

fn define(name: &str, var_type: &str) -> Box<Node> {
    Box::new(Node::Define { name: name.to_string(), var_type: var_type.to_string() })
}

fn op(kind: NodeKind, lhs: Box<Node>, rhs: Box<Node>) -> Box<Node> {
    Box::new(Node::Operator { kind, lhs, rhs })
}

fn assign(name: &str, rhs: Box<Node>) -> Box<Node> {
    op(NodeKind::ASSIGN, var(name), rhs)
}

fn ret(lhs: Box<Node>) -> Box<Node> {
    Box::new(Node::Return { lhs })
}

fn call(name: &str, args: Vec<Box<Node>>) -> Box<Node> {
    Box::new(Node::Call { name: name.to_string(), args })
}

fn block(stmts: Vec<Box<Node>>) -> Box<Node> {
    Box::new(Node::Block { stmts, permission: None })
}

fn block_with(accept: &[&str], reject: &[&str], stmts: Vec<Box<Node>>) -> Box<Node> {
    let permission = Node::Permission {
        accept: accept.iter().map(|s| s.to_string()).collect(),
        reject: reject.iter().map(|s| s.to_string()).collect(),
    };
    Box::new(Node::Block { stmts, permission: Some(Box::new(permission)) })
}

fn if_else(condition: Box<Node>, stmt: Box<Node>, else_stmt: Option<Box<Node>>) -> Box<Node> {
    Box::new(Node::If { condition, stmt, else_stmt })
}

fn while_do(condition: Box<Node>, stmt: Box<Node>) -> Box<Node> {
    Box::new(Node::While { condition, stmt })
}

fn for_do(
    init: Option<Box<Node>>,
    condition: Option<Box<Node>>,
    update: Option<Box<Node>>,
    stmt: Box<Node>,
) -> Box<Node> {
    Box::new(Node::For { init, condition, update, stmt })
}

fn function(name: &str, body: Vec<Box<Node>>) -> Box<Node> {
    Box::new(Node::Function { name: name.to_string(), body, args: vec![] })
}

/// A runtime over the given functions and handlers.
fn runtime(functions: Vec<Box<Node>>, handlers: Vec<Handler>) -> GPSL<Handler> {
    GPSL::new(Some(functions), handlers)
}

/// Runs `body` as the function `main`.
fn run_main(body: Vec<Box<Node>>) -> Result<Variable, EvalError> {
    runtime(vec![function("main", body)], vec![]).run("main".to_string(), vec![])
}

use ExternalFuncStatus::{ERROR, NOTFOUND, REJECTED, SUCCESS};

fn names(h: &Handler) -> Vec<String> {
    h.seen.borrow().iter().map(|c| c.0.clone()).collect()
}

fn main_calls(name: &str, args: Vec<Box<Node>>) -> Vec<Box<Node>> {
    vec![function("main", vec![ret(call(name, args))])]
}

#[test]
fn a_script_function_is_preferred_to_a_handler() {
    let mut functions = main_calls("f", vec![]);
    functions.push(function("f", vec![ret(num(1))]));
    let mut g = runtime(functions, vec![Handler::new("f", SUCCESS, Some(2))]);
    assert_eq!(g.run("main".to_string(), vec![]), Ok(n(1)));
    assert!(g.external_func[0].seen.borrow().is_empty());
}

#[test]
fn of_two_script_functions_of_one_name_the_first_counts() {
    let functions = vec![function("main", vec![ret(num(1))]), function("main", vec![ret(num(2))])];
    let mut g = runtime(functions, vec![]);
    assert_eq!(g.run("main".to_string(), vec![]), Ok(n(1)));
}

#[test]
fn a_name_the_script_lacks_goes_to_the_handlers() {
    let mut g = runtime(main_calls("f", vec![]), vec![Handler::new("f", SUCCESS, Some(2))]);
    assert_eq!(g.run("main".to_string(), vec![]), Ok(n(2)));
    assert_eq!(names(&g.external_func[0]), vec!["f"]);
}

#[test]
fn handlers_are_asked_in_registration_order() {
    let handlers = vec![
        Handler::new("a", SUCCESS, Some(1)),
        Handler::new("b", SUCCESS, Some(2)),
        Handler::new("c", SUCCESS, Some(3)),
    ];
    let mut g = runtime(main_calls("b", vec![]), handlers);
    assert_eq!(g.run("main".to_string(), vec![]), Ok(n(2)));
    assert_eq!(names(&g.external_func[0]), vec!["b"]);
    assert_eq!(names(&g.external_func[1]), vec!["b"]);
    assert!(names(&g.external_func[2]).is_empty());
}

#[test]
fn the_first_handler_that_succeeds_wins() {
    let handlers = vec![Handler::new("f", SUCCESS, Some(1)), Handler::new("f", SUCCESS, Some(2))];
    let mut g = runtime(main_calls("f", vec![]), handlers);
    assert_eq!(g.run("main".to_string(), vec![]), Ok(n(1)));
    assert!(names(&g.external_func[1]).is_empty());
}

#[test]
fn a_rejection_stops_the_dispatch() {
    let handlers = vec![Handler::new("f", REJECTED, Some(1)), Handler::new("f", SUCCESS, Some(2))];
    let mut g = runtime(main_calls("f", vec![]), handlers);
    assert_eq!(g.run("main".to_string(), vec![]), Err(EvalError::PermissionRejected));
    assert!(names(&g.external_func[1]).is_empty());
}

#[test]
fn a_failure_stops_the_dispatch() {
    let handlers = vec![Handler::new("f", ERROR, None), Handler::new("f", SUCCESS, Some(2))];
    let mut g = runtime(main_calls("f", vec![]), handlers);
    assert_eq!(g.run("main".to_string(), vec![]), Err(EvalError::ExternalError));
    assert!(names(&g.external_func[1]).is_empty());
}

#[test]
fn not_found_passes_the_call_on() {
    let handlers = vec![Handler::new("f", NOTFOUND, Some(1)), Handler::new("f", REJECTED, None)];
    let mut g = runtime(main_calls("f", vec![]), handlers);
    assert_eq!(g.run("main".to_string(), vec![]), Err(EvalError::PermissionRejected));
    assert_eq!(names(&g.external_func[0]), vec!["f"]);
    assert_eq!(names(&g.external_func[1]), vec!["f"]);
}

#[test]
fn a_name_that_nobody_knows_is_undefined() {
    let handlers = vec![Handler::new("a", SUCCESS, None), Handler::new("b", SUCCESS, None)];
    let mut g = runtime(main_calls("f", vec![]), handlers);
    assert_eq!(g.run("main".to_string(), vec![]), Err(EvalError::UndefinedFunction));
    assert_eq!(names(&g.external_func[0]), vec!["f"]);
    assert_eq!(names(&g.external_func[1]), vec!["f"]);
}

#[test]
fn without_handlers_every_unknown_name_is_undefined() {
    let mut g = runtime(main_calls("f", vec![]), vec![]);
    assert_eq!(g.run("main".to_string(), vec![]), Err(EvalError::UndefinedFunction));
}

#[test]
fn success_without_a_value_gives_the_unit_value() {
    let mut g = runtime(main_calls("f", vec![]), vec![Handler::new("f", SUCCESS, None)]);
    assert_eq!(g.run("main".to_string(), vec![]), Ok(Variable::Unit {}));
}

#[test]
fn a_call_without_a_return_gives_the_unit_value() {
    let functions = vec![
        function(
            "main",
            vec![define("x", "num"), assign("x", call("quiet", vec![])), ret(var("x"))],
        ),
        function("quiet", vec![define("y", "num")]),
    ];
    let mut g = runtime(functions, vec![]);
    assert_eq!(g.run("main".to_string(), vec![]), Ok(Variable::Unit {}));
}

#[test]
fn a_call_unwraps_the_returned_value() {
    let mut g = runtime(vec![function("f", vec![ret(num(3))])], vec![]);
    g.push_frame(vec![], vec![], true);
    assert_eq!(g.evaluate(call("f", vec![])), Ok(Some(n(3))));
    assert_eq!(g.blocks.len(), 1);
}

#[test]
fn a_handler_gets_the_arguments_in_order() {
    let args = vec![num(1), op(NodeKind::ADD, num(1), num(1)), text("three")];
    let mut g = runtime(main_calls("f", args), vec![Handler::new("f", SUCCESS, None)]);
    assert_eq!(g.run("main".to_string(), vec![]), Ok(Variable::Unit {}));
    let seen = g.external_func[0].seen.borrow();
    assert_eq!(seen.len(), 1);
    assert_eq!(seen[0].1, vec![n(1), n(2), Variable::Text { value: "three".to_string() }]);
}

#[test]
fn an_argument_without_a_value_is_left_out() {
    let args = vec![num(1), define("x", "num"), num(3)];
    let mut g = runtime(main_calls("f", args), vec![Handler::new("f", SUCCESS, None)]);
    assert_eq!(g.run("main".to_string(), vec![]), Ok(Variable::Unit {}));
    assert_eq!(g.external_func[0].seen.borrow()[0].1, vec![n(1), n(3)]);
}

#[test]
fn arguments_are_evaluated_before_the_name_is_looked_up() {
    let args = vec![op(NodeKind::DIV, num(1), num(0))];
    let mut g = runtime(main_calls("nobody", args), vec![Handler::new("f", SUCCESS, None)]);
    assert_eq!(g.run("main".to_string(), vec![]), Err(EvalError::DivisionByZero));
    assert!(g.external_func[0].seen.borrow().is_empty());
}

#[test]
fn a_call_as_argument_is_dispatched_first() {
    let args = vec![call("inner", vec![])];
    let handlers =
        vec![Handler::new("inner", SUCCESS, Some(5)), Handler::new("outer", SUCCESS, Some(6))];
    let mut g = runtime(main_calls("outer", args), handlers);
    assert_eq!(g.run("main".to_string(), vec![]), Ok(n(6)));
    assert_eq!(names(&g.external_func[0]), vec!["inner", "outer"]);
    assert_eq!(g.external_func[1].seen.borrow()[0].1, vec![n(5)]);
}

fn pairs(h: &Handler) -> Vec<(Vec<Permission>, Vec<Permission>)> {
    h.seen.borrow().iter().map(|c| (c.2.clone(), c.3.clone())).collect()
}

#[test]
fn run_grants_every_permission() {
    let mut g = runtime(main_calls("f", vec![]), vec![Handler::new("f", SUCCESS, None)]);
    assert_eq!(g.run("main".to_string(), vec![]), Ok(Variable::Unit {}));
    assert_eq!(
        pairs(&g.external_func[0]),
        vec![(vec![Permission::Administrator, Permission::StdIo], vec![])]
    );
}

#[test]
fn an_annotated_block_has_exactly_its_annotation() {
    let body = vec![
        call("f", vec![]),
        block_with(&["StdIo"], &["Administrator"], vec![call("f", vec![])]),
        call("f", vec![]),
    ];
    let mut g = runtime(vec![function("main", body)], vec![Handler::new("f", SUCCESS, None)]);
    assert_eq!(g.run("main".to_string(), vec![]), Ok(Variable::Unit {}));
    let all = (vec![Permission::Administrator, Permission::StdIo], vec![]);
    let narrow = (vec![Permission::StdIo], vec![Permission::Administrator]);
    assert_eq!(pairs(&g.external_func[0]), vec![all.clone(), narrow, all]);
}

#[test]
fn an_annotation_replaces_and_never_merges() {
    let body = vec![block_with(
        &["StdIo"],
        &[],
        vec![
            block_with(&["Administrator"], &["StdIo"], vec![call("f", vec![])]),
            call("f", vec![]),
        ],
    )];
    let mut g = runtime(vec![function("main", body)], vec![Handler::new("f", SUCCESS, None)]);
    assert_eq!(g.run("main".to_string(), vec![]), Ok(Variable::Unit {}));
    assert_eq!(
        pairs(&g.external_func[0]),
        vec![
            (vec![Permission::Administrator], vec![Permission::StdIo]),
            (vec![Permission::StdIo], vec![]),
        ]
    );
}

#[test]
fn an_empty_annotation_grants_nothing() {
    let body = vec![block_with(&[], &[], vec![call("f", vec![])])];
    let mut g = runtime(vec![function("main", body)], vec![Handler::new("f", SUCCESS, None)]);
    assert_eq!(g.run("main".to_string(), vec![]), Ok(Variable::Unit {}));
    assert_eq!(pairs(&g.external_func[0]), vec![(vec![], vec![])]);
}

#[test]
fn a_block_without_annotation_inherits_the_pair_around_it() {
    let body = vec![block_with(
        &["StdIo"],
        &["Administrator"],
        vec![block(vec![block(vec![call("f", vec![])])])],
    )];
    let mut g = runtime(vec![function("main", body)], vec![Handler::new("f", SUCCESS, None)]);
    assert_eq!(g.run("main".to_string(), vec![]), Ok(Variable::Unit {}));
    assert_eq!(
        pairs(&g.external_func[0]),
        vec![(vec![Permission::StdIo], vec![Permission::Administrator])]
    );
}

#[test]
fn a_called_function_inherits_the_callers_pair() {
    let functions = vec![
        function(
            "main",
            vec![block_with(&["StdIo"], &[], vec![call("inner", vec![])]), call("inner", vec![])],
        ),
        function("inner", vec![call("f", vec![])]),
    ];
    let mut g = runtime(functions, vec![Handler::new("f", SUCCESS, None)]);
    assert_eq!(g.run("main".to_string(), vec![]), Ok(Variable::Unit {}));
    assert_eq!(
        pairs(&g.external_func[0]),
        vec![
            (vec![Permission::StdIo], vec![]),
            (vec![Permission::Administrator, Permission::StdIo], vec![]),
        ]
    );
}

#[test]
fn a_callee_can_narrow_its_own_permissions_only() {
    let functions = vec![
        function("main", vec![call("inner", vec![]), call("f", vec![])]),
        function("inner", vec![block_with(&[], &["StdIo"], vec![call("f", vec![])])]),
    ];
    let mut g = runtime(functions, vec![Handler::new("f", SUCCESS, None)]);
    assert_eq!(g.run("main".to_string(), vec![]), Ok(Variable::Unit {}));
    assert_eq!(
        pairs(&g.external_func[0]),
        vec![
            (vec![], vec![Permission::StdIo]),
            (vec![Permission::Administrator, Permission::StdIo], vec![]),
        ]
    );
}

#[test]
fn the_pair_is_restored_after_an_error_in_the_block() {
    let failing = block_with(&["StdIo"], &[], vec![op(NodeKind::DIV, num(1), num(0))]);
    let mut g = runtime(vec![], vec![Handler::new("f", SUCCESS, None)]);
    g.push_frame(vec![Permission::Administrator], vec![Permission::StdIo], true);
    assert_eq!(g.evaluate(failing), Err(EvalError::DivisionByZero));
    assert_eq!(g.blocks.len(), 1);
    assert_eq!(g.evaluate(call("f", vec![])), Ok(Some(Variable::Unit {})));
    assert_eq!(
        pairs(&g.external_func[0]),
        vec![(vec![Permission::Administrator], vec![Permission::StdIo])]
    );
}

#[test]
fn an_unknown_token_in_an_annotation_fails_the_block() {
    let mut g = runtime(vec![], vec![Handler::new("f", SUCCESS, None)]);
    g.push_frame(vec![], vec![], true);
    let bad = block_with(&["StdIo", "Root"], &[], vec![call("f", vec![])]);
    assert_eq!(g.evaluate(bad), Err(EvalError::UnknownPermission));
    let bad = block_with(&[], &["stdio"], vec![call("f", vec![])]);
    assert_eq!(g.evaluate(bad), Err(EvalError::UnknownPermission));
    assert_eq!(g.blocks.len(), 1);
    assert!(g.external_func[0].seen.borrow().is_empty());
}

#[test]
fn a_permission_slot_that_holds_no_annotation_inherits() {
    let odd = Box::new(Node::Block { stmts: vec![call("f", vec![])], permission: Some(num(1)) });
    let mut g = runtime(vec![], vec![Handler::new("f", SUCCESS, None)]);
    g.push_frame(vec![Permission::StdIo], vec![], true);
    assert_eq!(g.evaluate(odd), Ok(None));
    assert_eq!(pairs(&g.external_func[0]), vec![(vec![Permission::StdIo], vec![])]);
}
