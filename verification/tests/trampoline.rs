use lambda_trampoline::{
    eval_with_trampoline, Context, EvalError, Expr, Step, Trampoline, Value,
};

fn var(name: &str) -> Expr {
    Expr::Var(name.to_string())
}

fn abs(param: &str, body: Expr) -> Expr {
    Expr::Abs(param.to_string(), Box::new(body))
}

fn app(function: Expr, argument: Expr) -> Expr {
    Expr::App(Box::new(function), Box::new(argument))
}

fn identity(name: &str) -> Expr {
    abs(name, var(name))
}

fn identity_value(name: &str) -> Value {
    Value::VClosure(Context::new(), name.to_string(), Box::new(var(name)))
}

fn completed(trampoline: Trampoline) -> Result<Value, EvalError> {
    match trampoline {
        Trampoline::Complete(result) => result,
        Trampoline::Continue(_) => panic!("a step is still pending"),
    }
}

fn pending(trampoline: Trampoline) -> Step {
    match trampoline {
        Trampoline::Continue(step) => step,
        Trampoline::Complete(_) => panic!("no step is pending"),
    }
}

#[test]
fn variable_completes_at_once() {
    let mut context = Context::new();
    context.insert("x".to_string(), identity_value("a"));
    assert_eq!(
        completed(eval_with_trampoline(var("x"), context.clone())),
        Ok(identity_value("a"))
    );
    assert_eq!(
        completed(eval_with_trampoline(var("y"), context)),
        Err(EvalError::UnboundVariable("y".to_string()))
    );
}

#[test]
fn abstraction_completes_at_once() {
    let mut context = Context::new();
    context.insert("x".to_string(), identity_value("a"));
    assert_eq!(
        completed(eval_with_trampoline(abs("p", var("x")), context.clone())),
        Ok(Value::VClosure(context, "p".to_string(), Box::new(var("x"))))
    );
}

#[test]
fn application_is_put_off() {
    let mut context = Context::new();
    context.insert("x".to_string(), identity_value("a"));
    let step = pending(eval_with_trampoline(app(var("f"), identity("y")), context.clone()));
    assert_eq!(step.function, var("f"));
    assert_eq!(step.argument, identity("y"));
    assert_eq!(step.context, context);
}

#[test]
fn application_of_unbound_names_is_put_off_too() {
    let trampoline = eval_with_trampoline(app(var("f"), var("a")), Context::new());
    assert!(matches!(trampoline, Trampoline::Continue(_)));
    assert_eq!(
        trampoline.run(),
        Err(EvalError::UnboundVariable("f".to_string()))
    );
}

#[test]
fn run_of_a_complete_trampoline_returns_what_it_holds() {
    assert_eq!(
        Trampoline::Complete(Ok(identity_value("a"))).run(),
        Ok(identity_value("a"))
    );
    assert_eq!(
        Trampoline::Complete(Err(EvalError::UnboundVariable("x".to_string()))).run(),
        Err(EvalError::UnboundVariable("x".to_string()))
    );
    assert_eq!(
        Trampoline::Complete(Ok(identity_value("a"))).run_bounded(0),
        Some(Ok(identity_value("a")))
    );
}

#[test]
fn invoke_yields_the_trampoline_of_the_body() {
    let term = app(abs("x", app(var("x"), var("x"))), identity("y"));
    let step = pending(eval_with_trampoline(term, Context::new()));
    let next = pending(step.invoke());
    let mut inner = Context::new();
    inner.insert("x".to_string(), identity_value("y"));
    assert_eq!(next.function, var("x"));
    assert_eq!(next.argument, var("x"));
    assert_eq!(next.context, inner);
    assert_eq!(completed(next.invoke()), Ok(identity_value("y")));
}

#[test]
fn invoke_completes_where_the_body_needs_no_call() {
    let step = pending(eval_with_trampoline(app(identity("x"), identity("y")), Context::new()));
    assert_eq!(completed(step.invoke()), Ok(identity_value("y")));
}

#[test]
fn invoke_completes_with_the_fault_of_the_function() {
    let step = pending(eval_with_trampoline(app(var("f"), var("a")), Context::new()));
    assert_eq!(
        completed(step.invoke()),
        Err(EvalError::UnboundVariable("f".to_string()))
    );
}

#[test]
fn invoke_completes_with_the_fault_of_the_argument() {
    let step = pending(eval_with_trampoline(app(identity("x"), var("a")), Context::new()));
    assert_eq!(
        completed(step.invoke()),
        Err(EvalError::UnboundVariable("a".to_string()))
    );
}

#[test]
fn invoke_extends_the_context_of_the_closure() {
    let mut context = Context::new();
    context.insert("caller".to_string(), identity_value("c"));
    let function = app(abs("k", abs("p", app(var("p"), var("k")))), identity("a"));
    let step = Step { function, argument: identity("b"), context };
    let next = pending(step.invoke());
    let mut expected = Context::new();
    expected.insert("caller".to_string(), identity_value("c"));
    let mut captured = expected.clone();
    captured.insert("k".to_string(), Value::VClosure(expected.clone(), "a".to_string(), Box::new(var("a"))));
    let mut inner = captured.clone();
    inner.insert("p".to_string(), Value::VClosure(expected, "b".to_string(), Box::new(var("b"))));
    assert_eq!(next.context, inner);
    assert_eq!(next.function, var("p"));
    assert_eq!(next.argument, var("k"));
}

#[test]
fn invoke_bounded_needs_fuel_for_the_nested_runs_only() {
    let flat = pending(eval_with_trampoline(app(identity("x"), identity("y")), Context::new()));
    assert_eq!(
        flat.invoke_bounded(0).map(completed),
        Some(Ok(identity_value("y")))
    );

    let nested = app(app(identity("x"), identity("y")), identity("z"));
    let step = pending(eval_with_trampoline(nested.clone(), Context::new()));
    assert!(step.invoke_bounded(0).is_none());
    let step = pending(eval_with_trampoline(nested, Context::new()));
    assert_eq!(
        step.invoke_bounded(1).map(completed),
        Some(Ok(identity_value("z")))
    );
}

#[test]
fn invoke_bounded_stops_in_the_argument_too() {
    let nested = app(identity("x"), app(identity("y"), identity("z")));
    let step = pending(eval_with_trampoline(nested.clone(), Context::new()));
    assert!(step.invoke_bounded(0).is_none());
    let step = pending(eval_with_trampoline(nested, Context::new()));
    assert_eq!(
        step.invoke_bounded(1).map(completed),
        Some(Ok(identity_value("z")))
    );
}

#[test]
fn run_bounded_counts_each_step() {
    let mut term = var("x");
    for _ in 0..10 {
        term = app(abs("x", term), var("z"));
    }
    let mut context = Context::new();
    context.insert("z".to_string(), identity_value("i"));
    assert_eq!(
        eval_with_trampoline(term.clone(), context.clone()).run_bounded(9),
        None
    );
    assert_eq!(
        eval_with_trampoline(term, context).run_bounded(10),
        Some(Ok(identity_value("i")))
    );
}

#[test]
fn terms_compare_by_shape_and_names() {
    assert_eq!(var("x"), var("x"));
    assert_ne!(var("x"), var("y"));
    assert_ne!(var("x"), identity("x"));
    assert_eq!(identity("x"), identity("x"));
    assert_ne!(identity("x"), identity("y"));
    assert_ne!(abs("x", var("x")), abs("x", var("y")));
    assert_eq!(app(var("f"), var("a")), app(var("f"), var("a")));
    assert_ne!(app(var("f"), var("a")), app(var("a"), var("f")));
    assert_ne!(app(var("f"), var("a")), abs("f", var("a")));
    assert_ne!(app(var("f"), var("a")), var("f"));
}

#[test]
fn clone_of_a_term_is_equal() {
    let term = app(abs("x", app(var("x"), var("y"))), identity("z"));
    assert_eq!(term.clone(), term);
}
