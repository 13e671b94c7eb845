use lambda_trampoline::{Context, EvalError, Expr, Value};

fn closure(context: Context, param: &str, body: &str) -> Value {
    Value::VClosure(context, param.to_string(), Box::new(Expr::Var(body.to_string())))
}

fn plain(name: &str) -> Value {
    closure(Context::new(), name, name)
}

#[test]
fn new_context_binds_nothing() {
    let context = Context::new();
    assert_eq!(context.get(&"x".to_string()), None);
    assert_eq!(context.get(&String::new()), None);
    assert_eq!(context, Context::new());
}

#[test]
fn insert_binds_the_name() {
    let mut context = Context::new();
    context.insert("x".to_string(), plain("a"));
    assert_eq!(context.get(&"x".to_string()), Some(&plain("a")));
    assert_eq!(context.get(&"y".to_string()), None);
    assert_eq!(context.get(&"".to_string()), None);
    assert_eq!(context.get(&"xx".to_string()), None);
}

#[test]
fn insert_leaves_other_names_bound() {
    let mut context = Context::new();
    context.insert("x".to_string(), plain("a"));
    context.insert("y".to_string(), plain("b"));
    context.insert("z".to_string(), plain("c"));
    assert_eq!(context.get(&"x".to_string()), Some(&plain("a")));
    assert_eq!(context.get(&"y".to_string()), Some(&plain("b")));
    assert_eq!(context.get(&"z".to_string()), Some(&plain("c")));
}

#[test]
fn insert_of_a_bound_name_replaces_its_value() {
    let mut context = Context::new();
    context.insert("x".to_string(), plain("a"));
    context.insert("y".to_string(), plain("b"));
    context.insert("x".to_string(), plain("c"));
    assert_eq!(context.get(&"x".to_string()), Some(&plain("c")));
    assert_eq!(context.get(&"y".to_string()), Some(&plain("b")));

    let mut direct = Context::new();
    direct.insert("x".to_string(), plain("c"));
    direct.insert("y".to_string(), plain("b"));
    assert_eq!(context, direct);
}

#[test]
fn empty_name_is_a_name_like_any_other() {
    let mut context = Context::new();
    context.insert(String::new(), plain("a"));
    assert_eq!(context.get(&String::new()), Some(&plain("a")));
    assert_eq!(context.get(&" ".to_string()), None);
}

#[test]
fn context_equality_ignores_the_order_of_insertion() {
    let mut left = Context::new();
    left.insert("x".to_string(), plain("a"));
    left.insert("y".to_string(), plain("b"));
    let mut right = Context::new();
    right.insert("y".to_string(), plain("b"));
    right.insert("x".to_string(), plain("a"));
    assert_eq!(left, right);
    assert_eq!(right, left);
}

#[test]
fn contexts_with_different_values_differ() {
    let mut left = Context::new();
    left.insert("x".to_string(), plain("a"));
    let mut right = Context::new();
    right.insert("x".to_string(), plain("b"));
    assert_ne!(left, right);
}

#[test]
fn contexts_with_different_names_differ() {
    let mut left = Context::new();
    left.insert("x".to_string(), plain("a"));
    let mut right = Context::new();
    right.insert("y".to_string(), plain("a"));
    assert_ne!(left, right);
    assert_ne!(left, Context::new());
    assert_ne!(Context::new(), left);

    let mut more = left.clone();
    more.insert("y".to_string(), plain("a"));
    assert_ne!(left, more);
    assert_ne!(more, left);
    assert_ne!(right, more);
}

#[test]
fn clone_of_a_context_is_equal_and_independent() {
    let mut context = Context::new();
    context.insert("x".to_string(), plain("a"));
    let copy = context.clone();
    assert_eq!(copy, context);
    context.insert("x".to_string(), plain("b"));
    assert_eq!(copy.get(&"x".to_string()), Some(&plain("a")));
    assert_eq!(context.get(&"x".to_string()), Some(&plain("b")));
    assert_ne!(copy, context);
}

#[test]
fn values_compare_by_parameter_body_and_bindings() {
    let mut bound = Context::new();
    bound.insert("k".to_string(), plain("a"));
    let value = closure(bound.clone(), "p", "q");
    assert_eq!(value, closure(bound.clone(), "p", "q"));
    assert_eq!(value, value.clone());
    assert_ne!(value, closure(bound.clone(), "r", "q"));
    assert_ne!(value, closure(bound.clone(), "p", "r"));
    assert_ne!(value, closure(Context::new(), "p", "q"));

    let mut other = Context::new();
    other.insert("k".to_string(), plain("b"));
    assert_ne!(value, closure(other, "p", "q"));
}

#[test]
fn nested_values_compare_through_their_contexts() {
    let mut inner_left = Context::new();
    inner_left.insert("a".to_string(), plain("u"));
    inner_left.insert("b".to_string(), plain("v"));
    let mut inner_right = Context::new();
    inner_right.insert("b".to_string(), plain("v"));
    inner_right.insert("a".to_string(), plain("u"));

    let mut left = Context::new();
    left.insert("f".to_string(), closure(inner_left, "p", "q"));
    let mut right = Context::new();
    right.insert("f".to_string(), closure(inner_right.clone(), "p", "q"));
    assert_eq!(left, right);

    inner_right.insert("b".to_string(), plain("w"));
    let mut changed = Context::new();
    changed.insert("f".to_string(), closure(inner_right, "p", "q"));
    assert_ne!(left, changed);
}

#[test]
fn errors_compare_by_the_name_they_carry() {
    let error = EvalError::UnboundVariable("x".to_string());
    assert_eq!(error, EvalError::UnboundVariable("x".to_string()));
    assert_eq!(error, error.clone());
    assert_ne!(error, EvalError::UnboundVariable("y".to_string()));
}
