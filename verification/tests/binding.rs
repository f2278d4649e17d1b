use meson_analyzer::ast::{Function, Kwarg, PositionalArgument, Type};
use meson_analyzer::binder::{bind, KeywordEntry};
use meson_analyzer::diag::DiagKind;

fn ty(name: &str) -> Type {
    Type::new(name.to_string())
}

fn tys(names: &[&str]) -> Vec<Type> {
    names.iter().map(|n| ty(n)).collect()
}

fn pos(name: &str, opt: bool, varargs: bool, types: &[&str]) -> PositionalArgument {
    PositionalArgument { name: name.to_string(), opt, varargs, types: tys(types) }
}

fn kw(name: &str, opt: bool, types: &[&str]) -> Kwarg {
    Kwarg { name: name.to_string(), opt, types: tys(types) }
}

fn entry(name: &str, types: &[&str]) -> KeywordEntry {
    KeywordEntry { name: name.to_string(), types: tys(types) }
}

/// `run_command(name: string, *args: string, check: bool = optional)`
fn run_command() -> Function {
    Function::new(
        "run_command".to_string(),
        tys(&["str"]),
        vec![pos("name", false, false, &["str"]), pos("args", false, true, &["str"])],
        vec![kw("check", true, &["bool"])],
    )
}

#[test]
fn arity_bounds_with_varargs() {
    let f = run_command();
    assert_eq!(f.min_pos_args, 1);
    assert_eq!(f.max_pos_args, None);
}

#[test]
fn arity_bounds_bounded() {
    let f = Function::new(
        "configure".to_string(),
        vec![],
        vec![pos("input", false, false, &[]), pos("extra", true, false, &[])],
        vec![],
    );
    assert_eq!(f.min_pos_args, 1);
    assert_eq!(f.max_pos_args, Some(2));
    assert!(f.min_pos_args <= f.max_pos_args.unwrap());
}

#[test]
fn min_arity_call_binds() {
    let f = run_command();
    let b = bind(&f, &vec![tys(&["str"])], &vec![]).unwrap();
    assert_eq!(b.positional_params, vec![0]);
    assert!(b.keyword_params.is_empty());
    assert_eq!(b.return_types.len(), 1);
    assert_eq!(b.return_types[0].name, "str");
}

#[test]
fn varargs_absorbs_trailing_arguments() {
    // run_command('echo', 'hi') binds with args = ['hi'] and no diagnostics
    let f = run_command();
    let b = bind(&f, &vec![tys(&["str"]), tys(&["str"])], &vec![]).unwrap();
    assert_eq!(b.positional_params, vec![0, 1]);
    let b3 = bind(&f, &vec![tys(&["str"]), tys(&["str"]), tys(&["str"])], &vec![]).unwrap();
    assert_eq!(b3.positional_params, vec![0, 1, 1]);
}

#[test]
fn empty_call_too_few_arguments() {
    // run_command() fails TooFewArguments
    let f = run_command();
    let r = bind(&f, &vec![], &vec![]);
    assert_eq!(r.unwrap_err(), DiagKind::TooFewArguments);
}

#[test]
fn unknown_keyword_rejected() {
    // run_command('echo', bogus: 1) fails UnknownKeyword
    let f = run_command();
    let r = bind(&f, &vec![tys(&["str"])], &vec![entry("bogus", &["int"])]);
    assert_eq!(r.unwrap_err(), DiagKind::UnknownKeyword);
}

#[test]
fn one_over_maximum_too_many_arguments() {
    let f = Function::new(
        "configure".to_string(),
        vec![],
        vec![pos("input", false, false, &[])],
        vec![],
    );
    assert_eq!(f.max_pos_args, Some(1));
    let r = bind(&f, &vec![tys(&["str"]), tys(&["str"])], &vec![]);
    assert_eq!(r.unwrap_err(), DiagKind::TooManyArguments);
}

#[test]
fn missing_required_keyword_rejected() {
    let f = Function::new(
        "custom_target".to_string(),
        vec![],
        vec![],
        vec![kw("output", false, &["str"])],
    );
    let r = bind(&f, &vec![], &vec![]);
    assert_eq!(r.unwrap_err(), DiagKind::MissingRequiredKeyword);
}

#[test]
fn required_keyword_supplied_binds() {
    let f = Function::new(
        "custom_target".to_string(),
        tys(&["str"]),
        vec![],
        vec![kw("output", false, &["str"])],
    );
    let b = bind(&f, &vec![], &vec![entry("output", &["str"])]).unwrap();
    assert_eq!(b.keyword_params, vec![0]);
}

#[test]
fn positional_type_mismatch_rejected() {
    let f = Function::new(
        "configure".to_string(),
        vec![],
        vec![pos("input", false, false, &["int"])],
        vec![],
    );
    let r = bind(&f, &vec![tys(&["str"])], &vec![]);
    assert_eq!(r.unwrap_err(), DiagKind::TypeMismatch);
}

#[test]
fn keyword_type_mismatch_rejected() {
    let f = Function::new(
        "custom_target".to_string(),
        vec![],
        vec![],
        vec![kw("output", false, &["str"])],
    );
    let r = bind(&f, &vec![], &vec![entry("output", &["bool"])]);
    assert_eq!(r.unwrap_err(), DiagKind::TypeMismatch);
}

#[test]
fn empty_allowed_set_accepts_any_type() {
    let f = Function::new(
        "message".to_string(),
        vec![],
        vec![pos("text", false, false, &[])],
        vec![],
    );
    assert!(bind(&f, &vec![tys(&["dict"])], &vec![]).is_ok());
}

#[test]
fn union_typed_argument_accepted_on_overlap() {
    let f = Function::new(
        "configure".to_string(),
        vec![],
        vec![pos("input", false, false, &["int"])],
        vec![],
    );
    // argument may be str or int; the overlap with {int} suffices
    assert!(bind(&f, &vec![tys(&["str", "int"])], &vec![]).is_ok());
}

#[test]
fn type_identity_is_name_equality() {
    assert!(ty("str") == ty("str"));
    assert!(ty("str") != ty("int"));
}

#[test]
fn signature_equality_ignores_keyword_map() {
    let a = run_command();
    let b = run_command();
    assert!(a == b);
    let c = Function::new(
        "run_target".to_string(),
        tys(&["str"]),
        vec![pos("name", false, false, &["str"]), pos("args", false, true, &["str"])],
        vec![kw("check", true, &["bool"])],
    );
    assert!(a != c);
}
