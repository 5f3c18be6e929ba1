use lisp_core::interpretator::{Interpretator, Scope};
use lisp_core::nodes::Value;

#[test]
fn test_interpretator_scope() {
    let mut scope = Scope::new(None);
    scope.set("a".to_string(), Value::Number("1".to_string()));
    assert!(scope.get("a") == Some(&Value::Number("1".to_string())));
    assert!(scope.get("b").is_none());
}

#[test]
fn test_interpretator_scope_parent() {
    let mut parent = Scope::new(None);
    parent.set("a".to_string(), Value::Number("1".to_string()));
    let scope = Scope::new(Some(&parent));
    assert!(scope.get("a") == Some(&Value::Number("1".to_string())));
    assert!(scope.get("b").is_none());
}

#[test]
fn test_interpretator_scope_parent_parent() {
    let mut parent = Scope::new(None);
    parent.set("a".to_string(), Value::Number("1".to_string()));
    let mut parent2 = Scope::new(Some(&parent));
    parent2.set("b".to_string(), Value::Number("2".to_string()));
    let scope = Scope::new(Some(&parent2));
    assert!(scope.get("a") == Some(&Value::Number("1".to_string())));
    assert!(scope.get("b") == Some(&Value::Number("2".to_string())));
    assert!(scope.get("c").is_none());
}

#[test]
fn test_interpretator_redefining_parent_scope_variable() {
    let mut parent = Scope::new(None);
    parent.set("a".to_string(), Value::Number("1".to_string()));
    let mut scope = Scope::new(Some(&parent));
    scope.set("a".to_string(), Value::Number("2".to_string()));
    assert!(scope.get("a") == Some(&Value::Number("2".to_string())));
    assert!(parent.get("a") == Some(&Value::Number("1".to_string())));
}

#[test]
fn test_interpretator_initialize_without_global_scope() {
    let mut interpretator = Interpretator::new(None);
    interpretator
        .global_scope
        .set("a".to_string(), Value::Number("1".to_string()));
    assert!(interpretator.global_scope.get("a").unwrap() == &Value::Number("1".to_string()));
}

#[test]
fn test_scope_set_overwrites_in_place() {
    let mut scope = Scope::new(None);
    scope.set("a".to_string(), Value::Number("1".to_string()));
    scope.set("a".to_string(), Value::String("two".to_string()));
    assert!(scope.get("a") == Some(&Value::String("two".to_string())));
}
