use ilox::environment::{undefined_variable, Environment};
use ilox::value::{RuntimeError, Value};

fn number(value: f64) -> Value {
    Value::Number(value.to_bits())
}

#[test]
fn test_defining_global_variables() {
    let mut env = Environment::new(None);
    env.define("x".to_string(), number(42.0));
    env.define("y".to_string(), Value::String("Hello".to_string()));

    assert_eq!(env.get("x").unwrap(), number(42.0));
    assert_eq!(env.get("y").unwrap(), Value::String("Hello".to_string()));
}

#[test]
fn test_getting_variables_from_enclosing_environments() {
    let mut parent_env = Environment::new(None);
    parent_env.define("x".to_string(), number(42.0));
    parent_env.define("y".to_string(), Value::String("Hello".to_string()));

    let child_env = Environment::new(Some(Box::new(parent_env)));

    assert_eq!(child_env.get("x").unwrap(), number(42.0));
    assert_eq!(child_env.get("y").unwrap(), Value::String("Hello".to_string()));
    assert!(child_env.get("z").is_err());
}

#[test]
fn test_assigning_variables_for_enclosing_environments() {
    let mut parent_env = Environment::new(None);
    parent_env.define("x".to_string(), number(42.0));
    parent_env.define("y".to_string(), Value::String("Hello".to_string()));

    let mut child_env = Environment::new(Some(Box::new(parent_env)));
    child_env.assign("x", number(100.0)).unwrap();

    assert_eq!(child_env.get("x").unwrap(), number(100.0));
    assert_eq!(child_env.get("y").unwrap(), Value::String("Hello".to_string()));
    assert!(child_env.get("z").is_err());
}

#[test]
fn a_second_declaration_in_one_scope_overwrites() {
    let mut env = Environment::new_global();
    env.define("x".to_string(), number(1.0));
    env.define("x".to_string(), number(2.0));
    assert_eq!(env.get("x").unwrap(), number(2.0));
    env.enter();
    assert_eq!(env.depth(), 1);
    env.define("x".to_string(), number(3.0));
    env.define("x".to_string(), number(4.0));
    assert_eq!(env.get("x").unwrap(), number(4.0));
    env.leave();
    assert_eq!(env.depth(), 0);
    assert_eq!(env.get("x").unwrap(), number(2.0));
    env.leave();
    assert_eq!(env.get("x").unwrap(), number(2.0));
}

#[test]
fn assignment_changes_the_nearest_binding_only() {
    let mut env = Environment::new_global();
    env.define("x".to_string(), number(1.0));
    env.enter();
    env.define("x".to_string(), number(2.0));
    env.assign("x", number(3.0)).unwrap();
    assert_eq!(env.get("x").unwrap(), number(3.0));
    env.leave();
    assert_eq!(env.get("x").unwrap(), number(1.0));
}

#[test]
fn undefined_names_give_the_error_with_their_name() {
    let mut env = Environment::new_global();
    match env.get("ghost") {
        Err(RuntimeError::UndefinedVariable(text)) => assert_eq!(text, "ghost variable is not defined"),
        other => panic!("unexpected {:?}", other),
    }
    match env.assign("ghost", Value::Nil) {
        Err(RuntimeError::UndefinedVariable(text)) => assert_eq!(text, "ghost variable is not defined"),
        other => panic!("unexpected {:?}", other),
    }
    assert_eq!(undefined_variable("a").to_string(), "a variable is not defined");
    assert!(env.get("ghost").is_err());
}
