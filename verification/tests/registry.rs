use meson_analyzer::ast::{Function, Method, Type};
use meson_analyzer::diag::DiagKind;
use meson_analyzer::registry::Registry;

fn f(name: &str) -> Function {
    Function::new(name.to_string(), vec![], vec![], vec![])
}

fn m(receiver: &str, name: &str) -> Method {
    Method::new(Type::new(receiver.to_string()), f(name))
}

#[test]
fn register_then_lookup_function() {
    let mut reg = Registry::new();
    reg.register_function(f("project")).unwrap();
    let found = reg.lookup_function(&"project".to_string()).unwrap();
    assert_eq!(found.name, "project");
    assert!(reg.lookup_function(&"executable".to_string()).is_none());
}

#[test]
fn duplicate_function_is_rejected() {
    let mut reg = Registry::new();
    reg.register_function(f("project")).unwrap();
    let r = reg.register_function(f("project"));
    assert_eq!(r.unwrap_err(), DiagKind::DuplicateSignature);
}

#[test]
fn register_then_lookup_method() {
    let mut reg = Registry::new();
    reg.register_method(m("str", "strip")).unwrap();
    let found = reg
        .lookup_method(&Type::new("str".to_string()), &"strip".to_string())
        .unwrap();
    assert_eq!(found.function.name, "strip");
}

#[test]
fn method_receiver_must_match_exactly() {
    let mut reg = Registry::new();
    reg.register_method(m("str", "strip")).unwrap();
    assert!(reg
        .lookup_method(&Type::new("int".to_string()), &"strip".to_string())
        .is_none());
    assert!(reg
        .lookup_method(&Type::new("str".to_string()), &"split".to_string())
        .is_none());
}

#[test]
fn same_method_name_on_two_receivers_is_allowed() {
    let mut reg = Registry::new();
    reg.register_method(m("str", "to_lower")).unwrap();
    reg.register_method(m("int", "to_lower")).unwrap();
    let r = reg.register_method(m("str", "to_lower"));
    assert_eq!(r.unwrap_err(), DiagKind::DuplicateSignature);
}

#[test]
fn method_equality_follows_receiver_and_function() {
    assert!(m("str", "strip") == m("str", "strip"));
    assert!(m("str", "strip") != m("int", "strip"));
    assert!(m("str", "strip") != m("str", "split"));
}
