use lisp_core::interpretator::{Interpretator, InterpretatorError, RunError, Scope};
use lisp_core::lexer::LexerError;
use lisp_core::nodes::{
    Function, NativeCallback, NativeFunction, Node, UserDefinedFunction, Value,
};
use lisp_core::parser::ParserError;

fn run_msg(r: Result<Value, RunError>) -> String {
    match r {
        Err(RunError::Interpretator(InterpretatorError::EvaluationError(m))) => m,
        _ => panic!("expected an evaluation error"),
    }
}

#[test]
fn test_interpretator_error_message() {
    let e = InterpretatorError::EvaluationError("x is not defined".to_string());
    assert_eq!(e.message(), "EvaluationError: x is not defined".to_string());
    let c = InterpretatorError::CastError("failed to cast a to number".to_string());
    assert_eq!(c.message(), "CastError: failed to cast a to number".to_string());
}

#[test]
fn test_run_empty_source_is_null() {
    let mut it = Interpretator::new(None);
    assert!(it.run(String::new()).unwrap() == Value::Null);
}

#[test]
fn test_run_program_ends_with_sentinel_null() {
    // a parsed program always ends with the end-of-input node, whose value
    // is what the program evaluation returns
    let mut it = Interpretator::new(None);
    assert!(it.run("1 2 3".to_string()).unwrap() == Value::Null);
}

#[test]
fn test_program_node_returns_last_value() {
    let scope = Scope::new(None);
    let program = Node::Program(vec![
        Node::Atom(Value::Number("1".to_string())),
        Node::Atom(Value::Number("2".to_string())),
        Node::Atom(Value::Number("3".to_string())),
    ]);
    assert!(program.evaluate(&scope) == Ok(Value::Number("3".to_string())));
}

#[test]
fn test_run_atom_of_scalar_is_unchanged() {
    let scope = Scope::new(None);
    let node = Node::Atom(Value::Number("7.5".to_string()));
    assert!(node.evaluate(&scope) == Ok(Value::Number("7.5".to_string())));
}

#[test]
fn test_run_undefined_call_reports_name() {
    let mut it = Interpretator::new(None);
    let msg = run_msg(it.run("(bogus 1 2)".to_string()));
    assert_eq!(msg, "bogus is not defined".to_string());
}

#[test]
fn test_run_undefined_variable_reports_name() {
    let mut it = Interpretator::new(None);
    let msg = run_msg(it.run("nope".to_string()));
    assert_eq!(msg, "nope is not defined".to_string());
}

#[test]
fn test_run_calling_a_number_is_not_a_function() {
    let mut it = Interpretator::new(None);
    it.global_scope
        .set("n".to_string(), Value::Number("1".to_string()));
    let msg = run_msg(it.run("(n)".to_string()));
    assert_eq!(msg, "n is not a function".to_string());
}

#[test]
fn test_run_arity_mismatch_names_both_counts() {
    let mut it = Interpretator::new(None);
    let f = UserDefinedFunction {
        args: vec!["x".to_string(), "y".to_string()],
        body: vec![Node::Variable("x".to_string())],
    };
    it.global_scope.set(
        "f".to_string(),
        Value::Function(Function::UserDefined(f)),
    );
    let msg = run_msg(it.run("(f 1 2 3)".to_string()));
    assert_eq!(msg, "Function f takes 2 arguments, but 3 were given".to_string());
}

#[test]
fn test_run_user_defined_function_binds_arguments() {
    let mut it = Interpretator::new(None);
    let second = UserDefinedFunction {
        args: vec!["x".to_string(), "y".to_string()],
        body: vec![Node::Variable("y".to_string())],
    };
    it.global_scope.set(
        "second".to_string(),
        Value::Function(Function::UserDefined(second)),
    );
    let call = Node::FunctionCall(
        "second".to_string(),
        vec![
            Node::Atom(Value::Number("1".to_string())),
            Node::Atom(Value::Number("2".to_string())),
        ],
    );
    assert!(call.evaluate(&it.global_scope) == Ok(Value::Number("2".to_string())));
}

#[test]
fn test_run_call_scope_does_not_leak_into_global() {
    let mut it = Interpretator::new(None);
    it.global_scope
        .set("x".to_string(), Value::Number("1".to_string()));
    let f = UserDefinedFunction {
        args: vec!["x".to_string()],
        body: vec![Node::Variable("x".to_string())],
    };
    it.global_scope
        .set("f".to_string(), Value::Function(Function::UserDefined(f)));
    let call = Node::FunctionCall(
        "f".to_string(),
        vec![Node::Atom(Value::Number("2".to_string()))],
    );
    assert!(call.evaluate(&it.global_scope) == Ok(Value::Number("2".to_string())));
    assert!(it.global_scope.get("x") == Some(&Value::Number("1".to_string())));
}

#[test]
fn test_run_function_body_sees_global_scope() {
    let mut it = Interpretator::new(None);
    it.global_scope
        .set("g".to_string(), Value::String("outer".to_string()));
    let f = UserDefinedFunction {
        args: vec![],
        body: vec![Node::Variable("g".to_string())],
    };
    it.global_scope
        .set("f".to_string(), Value::Function(Function::UserDefined(f)));
    let call = Node::FunctionCall("f".to_string(), vec![]);
    assert!(call.evaluate(&it.global_scope) == Ok(Value::String("outer".to_string())));
}

#[test]
fn test_run_empty_body_returns_null() {
    let mut it = Interpretator::new(None);
    let f = UserDefinedFunction { args: vec![], body: vec![] };
    it.global_scope
        .set("f".to_string(), Value::Function(Function::UserDefined(f)));
    let call = Node::FunctionCall("f".to_string(), vec![]);
    assert!(call.evaluate(&it.global_scope) == Ok(Value::Null));
}

#[test]
fn test_run_native_function_receives_arguments() {
    let mut it = Interpretator::new(None);
    let first = NativeFunction {
        name: "first".to_string(),
        args: vec!["a".to_string(), "b".to_string()],
        func: NativeCallback::new(|args: Vec<Value>| Ok(args[0].clone())),
    };
    it.global_scope.set(
        "first".to_string(),
        Value::Function(Function::Native(first)),
    );
    let call = Node::FunctionCall(
        "first".to_string(),
        vec![
            Node::Atom(Value::Number("42".to_string())),
            Node::Atom(Value::Number("7".to_string())),
        ],
    );
    assert!(call.evaluate(&it.global_scope) == Ok(Value::Number("42".to_string())));
}

#[test]
fn test_run_native_function_error_propagates() {
    let mut it = Interpretator::new(None);
    let boom = NativeFunction {
        name: "boom".to_string(),
        args: vec![],
        func: NativeCallback::new(|_args: Vec<Value>| Err("boom failed".to_string())),
    };
    it.global_scope
        .set("boom".to_string(), Value::Function(Function::Native(boom)));
    let msg = run_msg(it.run("(boom)".to_string()));
    assert_eq!(msg, "boom failed".to_string());
}

#[test]
fn test_run_native_arity_checked_before_callback() {
    let mut it = Interpretator::new(None);
    let boom = NativeFunction {
        name: "boom".to_string(),
        args: vec!["a".to_string()],
        func: NativeCallback::new(|_args: Vec<Value>| Err("boom failed".to_string())),
    };
    it.global_scope
        .set("boom".to_string(), Value::Function(Function::Native(boom)));
    let msg = run_msg(it.run("(boom)".to_string()));
    assert_eq!(msg, "Function boom takes 1 arguments, but 0 were given".to_string());
}

#[test]
fn test_run_list_literal_forces_elements() {
    let mut it = Interpretator::new(None);
    it.global_scope
        .set("x".to_string(), Value::Number("9".to_string()));
    let literal = Node::Atom(Value::List(vec![
        Node::Atom(Value::Number("1".to_string())),
        Node::Variable("x".to_string()),
    ]));
    assert!(
        literal.evaluate(&it.global_scope)
            == Ok(Value::List(vec![
                Node::Atom(Value::Number("1".to_string())),
                Node::Atom(Value::Number("9".to_string())),
            ]))
    );
}

#[test]
fn test_run_list_with_undefined_variable_fails() {
    let mut it = Interpretator::new(None);
    let msg = run_msg(it.run("[zzz]".to_string()));
    assert_eq!(msg, "zzz is not defined".to_string());
}

#[test]
fn test_run_recursion_hits_depth_limit() {
    let mut it = Interpretator::new(None);
    let f = UserDefinedFunction {
        args: vec![],
        body: vec![Node::FunctionCall("f".to_string(), vec![])],
    };
    it.global_scope
        .set("f".to_string(), Value::Function(Function::UserDefined(f)));
    let msg = run_msg(it.run("(f)".to_string()));
    assert_eq!(msg, "evaluation depth limit exceeded".to_string());
}

#[test]
fn test_run_global_scope_survives_failed_call() {
    let mut it = Interpretator::new(None);
    it.global_scope
        .set("a".to_string(), Value::Number("1".to_string()));
    assert!(it.run("(bogus)".to_string()).is_err());
    assert!(it.global_scope.get("a") == Some(&Value::Number("1".to_string())));
}

#[test]
fn test_run_lexer_error_comes_out_of_run() {
    let mut it = Interpretator::new(None);
    assert!(matches!(
        it.run("\"hello".to_string()),
        Err(RunError::Lexer(LexerError::UnclosedString(_)))
    ));
    assert!(matches!(
        it.run("1.2.3".to_string()),
        Err(RunError::Lexer(LexerError::InvalidNumber(_)))
    ));
}

#[test]
fn test_run_parser_error_comes_out_of_run() {
    let mut it = Interpretator::new(None);
    assert!(matches!(
        it.run("(foo".to_string()),
        Err(RunError::Parser(ParserError::UnexpectedEndOfFile))
    ));
}

#[test]
fn test_value_evaluate_scalar_identity() {
    let scope = Scope::new(None);
    let v = Value::String("abc".to_string());
    assert!(v.evaluate(&scope) == Ok(Value::String("abc".to_string())));
    let b = Value::Boolean(false);
    assert!(b.evaluate(&scope) == Ok(Value::Boolean(false)));
}

#[test]
fn test_value_evaluate_table_forces_values() {
    let mut scope = Scope::new(None);
    scope.set("x".to_string(), Value::Number("3".to_string()));
    let table = Value::Table(vec![(
        "k".to_string(),
        Value::List(vec![Node::Variable("x".to_string())]),
    )]);
    let forced = table.evaluate(&scope).unwrap();
    assert!(
        forced
            == Value::Table(vec![(
                "k".to_string(),
                Value::List(vec![Node::Atom(Value::Number("3".to_string()))]),
            )])
    );
}
