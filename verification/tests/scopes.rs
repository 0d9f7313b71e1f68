use hul::value::{is_truthy, new_value_ref, Environment, Value};

#[test]
fn define_then_get() {
    let mut env = Environment::new();
    env.define(0, "x".to_string(), Value::Boolean(true));
    assert_eq!(env.get(0, "x"), Ok(Value::Boolean(true)));
    env.define(0, "x".to_string(), Value::Nil);
    assert_eq!(env.get(0, "x"), Ok(Value::Nil));
}

#[test]
fn get_undefined_fails() {
    let env = Environment::new();
    assert_eq!(env.get(0, "nope"), Err("Undefined variable 'nope'".to_string()));
}

#[test]
fn assign_needs_a_binding() {
    let mut env = Environment::new();
    assert_eq!(env.assign(0, "y", Value::Nil), Err("Undefined variable 'y'".to_string()));
    env.define(0, "y".to_string(), Value::Nil);
    assert_eq!(env.assign(0, "y", Value::String("set".to_string())), Ok(()));
    assert_eq!(env.get(0, "y"), Ok(Value::String("set".to_string())));
}

#[test]
fn inner_scope_shadows_and_assigns_outward() {
    let mut env = Environment::new();
    env.define(0, "x".to_string(), Value::Boolean(true));
    env.define(0, "z".to_string(), Value::Boolean(false));
    let inner = env.new_with_parent(0);
    assert_eq!(inner, 1);
    // seen through the inner scope
    assert_eq!(env.get(inner, "x"), Ok(Value::Boolean(true)));
    // shadowing leaves the outer binding alone
    env.define(inner, "x".to_string(), Value::Nil);
    assert_eq!(env.get(inner, "x"), Ok(Value::Nil));
    assert_eq!(env.get(0, "x"), Ok(Value::Boolean(true)));
    // assignment goes to the nearest binding
    assert_eq!(env.assign(inner, "z", Value::Boolean(true)), Ok(()));
    assert_eq!(env.get(0, "z"), Ok(Value::Boolean(true)));
    // the inner scope's names stay inside it
    env.define(inner, "w".to_string(), Value::Nil);
    assert_eq!(env.get(0, "w"), Err("Undefined variable 'w'".to_string()));
}

#[test]
fn truthiness_table() {
    assert!(!is_truthy(&Value::Nil));
    assert!(!is_truthy(&Value::Boolean(false)));
    assert!(is_truthy(&Value::Boolean(true)));
    assert!(!is_truthy(&Value::Number(0.0f64.to_bits())));
    assert!(!is_truthy(&Value::Number((-0.0f64).to_bits())));
    assert!(is_truthy(&Value::Number(1.0f64.to_bits())));
    assert!(is_truthy(&Value::Number(f64::NAN.to_bits())));
    assert!(!is_truthy(&Value::String(String::new())));
    assert!(is_truthy(&Value::String("hi".to_string())));
    assert!(is_truthy(&Value::Function(0)));
}

#[test]
fn value_ref_holds_the_value() {
    assert_eq!(new_value_ref(Value::Boolean(true)), Value::Boolean(true));
}
