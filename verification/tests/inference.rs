use meson_analyzer::ast::{
    AssignmentOperator, BinaryOperator, Function, Kwarg, Location, Node, NodeData,
    PositionalArgument, Tree, Type,
};
use meson_analyzer::diag::DiagKind;
use meson_analyzer::infer::infer_types;
use meson_analyzer::registry::Registry;

fn loc() -> Location {
    Location {
        file: "meson.build".to_string(),
        start_line: 1,
        end_line: 1,
        start_column: 0,
        end_column: 0,
    }
}

fn node(data: NodeData, parent: Option<usize>) -> Node {
    Node { location: loc(), parent, data, types: vec![] }
}

fn names(t: &Tree, i: usize) -> Vec<String> {
    t.nodes[i].types.iter().map(|x| x.name.clone()).collect()
}

fn ty(name: &str) -> Type {
    Type::new(name.to_string())
}

fn tys(list: &[&str]) -> Vec<Type> {
    list.iter().map(|n| ty(n)).collect()
}

fn simple_fn(name: &str, returns: &[&str], params: Vec<PositionalArgument>, kws: Vec<Kwarg>) -> Function {
    Function::new(name.to_string(), tys(returns), params, kws)
}

fn pos(name: &str, opt: bool, varargs: bool, types: &[&str]) -> PositionalArgument {
    PositionalArgument { name: name.to_string(), opt, varargs, types: tys(types) }
}

#[test]
fn literal_nodes_have_fixed_types() {
    let mut t = Tree {
        nodes: vec![
            node(NodeData::BooleanLiteral(true), None),
            node(NodeData::StringLiteral("x".to_string()), None),
            node(NodeData::NumberLiteral(3), None),
        ],
    };
    let reg = Registry::new();
    let diags = infer_types(&mut t, &reg);
    assert!(diags.is_empty());
    assert_eq!(names(&t, 0), vec!["bool"]);
    assert_eq!(names(&t, 1), vec!["str"]);
    assert_eq!(names(&t, 2), vec!["int"]);
}

#[test]
fn conditional_unions_branch_types() {
    // branches infer to {str} and {int}; the conditional must infer to {str, int}
    let mut t = Tree {
        nodes: vec![
            node(NodeData::BooleanLiteral(true), Some(3)),
            node(NodeData::StringLiteral("a".to_string()), Some(3)),
            node(NodeData::NumberLiteral(1), Some(3)),
            node(NodeData::ConditionalExpression(vec![0], vec![1], vec![2]), None),
        ],
    };
    let reg = Registry::new();
    let diags = infer_types(&mut t, &reg);
    assert!(diags.is_empty());
    assert_eq!(names(&t, 3), vec!["str", "int"]);
}

#[test]
fn conditional_with_equal_branches_dedups() {
    let mut t = Tree {
        nodes: vec![
            node(NodeData::BooleanLiteral(true), Some(3)),
            node(NodeData::StringLiteral("a".to_string()), Some(3)),
            node(NodeData::StringLiteral("b".to_string()), Some(3)),
            node(NodeData::ConditionalExpression(vec![0], vec![1], vec![2]), None),
        ],
    };
    let reg = Registry::new();
    infer_types(&mut t, &reg);
    assert_eq!(names(&t, 3), vec!["str"]);
}

#[test]
fn rerunning_inference_is_idempotent() {
    let mut t = Tree {
        nodes: vec![
            node(NodeData::Identifier("x".to_string()), Some(2)),
            node(NodeData::NumberLiteral(7), Some(2)),
            node(
                NodeData::AssignmentStatement(0, AssignmentOperator::Assign, 1),
                None,
            ),
            node(NodeData::BooleanLiteral(false), Some(5)),
            node(NodeData::StringLiteral("y".to_string()), Some(5)),
            node(NodeData::BinaryExpression(3, BinaryOperator::EqualTo, 4), None),
        ],
    };
    let reg = Registry::new();
    let d1 = infer_types(&mut t, &reg);
    let first: Vec<Vec<String>> = (0..t.nodes.len()).map(|i| names(&t, i)).collect();
    let d2 = infer_types(&mut t, &reg);
    let second: Vec<Vec<String>> = (0..t.nodes.len()).map(|i| names(&t, i)).collect();
    assert_eq!(first, second);
    assert_eq!(d1.len(), d2.len());
    for (a, b) in d1.iter().zip(d2.iter()) {
        assert_eq!(a.kind, b.kind);
    }
}

#[test]
fn assignment_widens_target() {
    let mut t = Tree {
        nodes: vec![
            node(NodeData::Identifier("x".to_string()), Some(2)),
            node(NodeData::NumberLiteral(7), Some(2)),
            node(
                NodeData::AssignmentStatement(0, AssignmentOperator::Assign, 1),
                None,
            ),
        ],
    };
    let reg = Registry::new();
    let diags = infer_types(&mut t, &reg);
    assert!(diags.is_empty());
    assert_eq!(names(&t, 0), vec!["int"]);
    assert!(names(&t, 2).is_empty());
}

#[test]
fn arithmetic_yields_int() {
    let mut t = Tree {
        nodes: vec![
            node(NodeData::NumberLiteral(1), Some(2)),
            node(NodeData::NumberLiteral(2), Some(2)),
            node(NodeData::BinaryExpression(0, BinaryOperator::Add, 1), None),
        ],
    };
    let reg = Registry::new();
    let diags = infer_types(&mut t, &reg);
    assert!(diags.is_empty());
    assert_eq!(names(&t, 2), vec!["int"]);
}

#[test]
fn string_concatenation_yields_str() {
    let mut t = Tree {
        nodes: vec![
            node(NodeData::StringLiteral("a".to_string()), Some(2)),
            node(NodeData::StringLiteral("b".to_string()), Some(2)),
            node(NodeData::BinaryExpression(0, BinaryOperator::Add, 1), None),
        ],
    };
    let reg = Registry::new();
    let diags = infer_types(&mut t, &reg);
    assert!(diags.is_empty());
    assert_eq!(names(&t, 2), vec!["str"]);
}

#[test]
fn comparison_yields_bool_regardless_of_operands() {
    let mut t = Tree {
        nodes: vec![
            node(NodeData::StringLiteral("a".to_string()), Some(2)),
            node(NodeData::NumberLiteral(1), Some(2)),
            node(
                NodeData::BinaryExpression(0, BinaryOperator::EqualTo, 1),
                None,
            ),
        ],
    };
    let reg = Registry::new();
    let diags = infer_types(&mut t, &reg);
    assert!(diags.is_empty());
    assert_eq!(names(&t, 2), vec!["bool"]);
}

#[test]
fn operator_mismatch_empties_node_and_reports() {
    let mut t = Tree {
        nodes: vec![
            node(NodeData::StringLiteral("a".to_string()), Some(2)),
            node(NodeData::BooleanLiteral(true), Some(2)),
            node(NodeData::BinaryExpression(0, BinaryOperator::Sub, 1), None),
        ],
    };
    let reg = Registry::new();
    let diags = infer_types(&mut t, &reg);
    assert_eq!(diags.len(), 1);
    assert_eq!(diags[0].kind, DiagKind::OperatorTypeMismatch);
    assert!(names(&t, 2).is_empty());
}

#[test]
fn call_node_takes_signature_return_types() {
    // run_command('echo', 'hi') as a tree: binds, no diagnostics
    let mut reg = Registry::new();
    reg.register_function(simple_fn(
        "run_command",
        &["str"],
        vec![pos("name", false, false, &["str"]), pos("args", false, true, &["str"])],
        vec![],
    ))
    .unwrap();
    let mut t = Tree {
        nodes: vec![
            node(NodeData::StringLiteral("echo".to_string()), Some(2)),
            node(NodeData::StringLiteral("hi".to_string()), Some(2)),
            node(NodeData::ArgumentList(vec![0, 1]), Some(3)),
            node(NodeData::FunctionCall("run_command".to_string(), 2), None),
        ],
    };
    let diags = infer_types(&mut t, &reg);
    assert!(diags.is_empty());
    assert_eq!(names(&t, 3), vec!["str"]);
}

#[test]
fn call_arity_failure_reported_at_node() {
    let mut reg = Registry::new();
    reg.register_function(simple_fn(
        "run_command",
        &["str"],
        vec![pos("name", false, false, &["str"])],
        vec![],
    ))
    .unwrap();
    let mut t = Tree {
        nodes: vec![
            node(NodeData::ArgumentList(vec![]), Some(1)),
            node(NodeData::FunctionCall("run_command".to_string(), 0), None),
        ],
    };
    let diags = infer_types(&mut t, &reg);
    assert_eq!(diags.len(), 1);
    assert_eq!(diags[0].kind, DiagKind::TooFewArguments);
    assert!(names(&t, 1).is_empty());
}

#[test]
fn unknown_function_reported_and_analysis_continues() {
    let reg = Registry::new();
    let mut t = Tree {
        nodes: vec![
            node(NodeData::ArgumentList(vec![]), Some(1)),
            node(NodeData::FunctionCall("nope".to_string(), 0), Some(3)),
            node(NodeData::NumberLiteral(1), Some(3)),
            node(NodeData::BuildDefinition(vec![1, 2]), None),
        ],
    };
    let diags = infer_types(&mut t, &reg);
    assert_eq!(diags.len(), 1);
    assert_eq!(diags[0].kind, DiagKind::UnknownCallable);
    assert!(names(&t, 1).is_empty());
    // the sibling is still inferred
    assert_eq!(names(&t, 2), vec!["int"]);
}

#[test]
fn method_call_resolves_on_receiver_type() {
    // foo.get() where foo's type set is {str} resolves via (str, "get")
    let mut reg = Registry::new();
    reg.register_method(meson_analyzer::ast::Method::new(
        ty("str"),
        simple_fn("get", &["str"], vec![], vec![]),
    ))
    .unwrap();
    let mut t = Tree {
        nodes: vec![
            node(NodeData::StringLiteral("foo".to_string()), Some(2)),
            node(NodeData::ArgumentList(vec![]), Some(2)),
            node(NodeData::MethodCall(0, "get".to_string(), 1), None),
        ],
    };
    let diags = infer_types(&mut t, &reg);
    assert!(diags.is_empty());
    assert_eq!(names(&t, 2), vec!["str"]);
}

#[test]
fn unregistered_method_is_unknown_callable() {
    // no (str, "get") method: UnknownCallable and the node's type set stays empty
    let reg = Registry::new();
    let mut t = Tree {
        nodes: vec![
            node(NodeData::StringLiteral("foo".to_string()), Some(2)),
            node(NodeData::ArgumentList(vec![]), Some(2)),
            node(NodeData::MethodCall(0, "get".to_string(), 1), None),
        ],
    };
    let diags = infer_types(&mut t, &reg);
    assert_eq!(diags.len(), 1);
    assert_eq!(diags[0].kind, DiagKind::UnknownCallable);
    assert!(names(&t, 2).is_empty());
}

#[test]
fn keyword_argument_nodes_bind_by_name() {
    let mut reg = Registry::new();
    reg.register_function(Function::new(
        "custom_target".to_string(),
        tys(&["str"]),
        vec![],
        vec![Kwarg { name: "output".to_string(), opt: false, types: tys(&["str"]) }],
    ))
    .unwrap();
    let mut t = Tree {
        nodes: vec![
            node(NodeData::StringLiteral("a.c".to_string()), Some(1)),
            node(NodeData::KeywordArgument("output".to_string(), 0), Some(2)),
            node(NodeData::ArgumentList(vec![1]), Some(3)),
            node(NodeData::FunctionCall("custom_target".to_string(), 2), None),
        ],
    };
    let diags = infer_types(&mut t, &reg);
    assert!(diags.is_empty());
    assert_eq!(names(&t, 3), vec!["str"]);
}

#[test]
fn diagnostics_carry_node_locations() {
    let reg = Registry::new();
    let mut t = Tree {
        nodes: vec![
            node(NodeData::ArgumentList(vec![]), Some(1)),
            node(NodeData::FunctionCall("nope".to_string(), 0), None),
        ],
    };
    let diags = infer_types(&mut t, &reg);
    assert_eq!(diags.len(), 1);
    assert_eq!(diags[0].location.file, "meson.build");
    assert_eq!(diags[0].location.start_line, 1);
}
