use lib::env::Env;
use lib::value::Value;

#[test]
fn resolves_through_lexical_scope() {
    let mut env = Env::new();
    env.define("x", Value::Int(1), false).unwrap();
    env.push_scope();
    // Outer binding is visible in the inner scope.
    assert_eq!(env.lookup("x"), Some(Value::Int(1)));
    // A new inner binding shadows it without conflict.
    env.define("x", Value::Int(2), false).unwrap();
    assert_eq!(env.lookup("x"), Some(Value::Int(2)));
    env.pop_scope();
    // The shadow does not leak out.
    assert_eq!(env.lookup("x"), Some(Value::Int(1)));
}

#[test]
fn immutable_rebind_in_same_scope_is_refused() {
    let mut env = Env::new();
    env.define("x", Value::Int(1), false).unwrap();
    let err = env.define("x", Value::Int(2), false).unwrap_err();
    assert!(err.contains("immutable"), "{err}");
}

#[test]
fn mutable_rebind_is_allowed() {
    let mut env = Env::new();
    env.define("x", Value::Int(1), true).unwrap();
    env.define("x", Value::Int(2), false).unwrap();
    assert_eq!(env.lookup("x"), Some(Value::Int(2)));
}

#[test]
fn unknown_name_resolves_to_none() {
    let env = Env::new();
    assert_eq!(env.lookup("nope"), None);
}

#[test]
fn a_mutable_rebinding_stays_mutable() {
    let mut env = Env::new();
    env.define("x", Value::Int(1), true).unwrap();
    env.define("x", Value::Int(2), false).unwrap();
    env.define("x", Value::Int(3), false).unwrap();
    assert_eq!(env.lookup("x"), Some(Value::Int(3)));
}

#[test]
fn the_refusal_message_names_the_binding() {
    let mut env = Env::new();
    env.define("total", Value::Bool(true), false).unwrap();
    let err = env.define("total", Value::Bool(false), true).unwrap_err();
    assert_eq!(
        err,
        "cannot rebind `total`: it is immutable (declare it with `let mut` to allow rebinding)"
    );
    assert_eq!(env.lookup("total"), Some(Value::Bool(true)));
}

#[test]
fn inner_bindings_are_discarded_with_their_scope() {
    let mut env = Env::new();
    env.push_scope();
    env.define("y", Value::Text("inner".to_string()), false).unwrap();
    assert_eq!(env.lookup("y"), Some(Value::Text("inner".to_string())));
    env.pop_scope();
    assert_eq!(env.lookup("y"), None);
}

#[test]
fn many_definitions_inside_a_scope_all_vanish_when_it_is_left() {
    let mut env = Env::new();
    env.define("x", Value::Int(1), false).unwrap();
    env.push_scope();
    env.define("x", Value::Int(2), true).unwrap();
    env.define("x", Value::Int(3), true).unwrap();
    env.define("y", Value::Bool(true), false).unwrap();
    assert!(env.define("y", Value::Bool(false), false).is_err());
    assert_eq!(env.lookup("x"), Some(Value::Int(3)));
    env.pop_scope();
    assert_eq!(env.lookup("x"), Some(Value::Int(1)));
    assert_eq!(env.lookup("y"), None);
}
