use shallot::{evaluate, Environment, Expression, Number, Symbol};

fn number(n: i64) -> Expression {
    Expression::Number(Number(n))
}

#[test]
fn get_reads_what_set_wrote() {
    let mut env = Environment::default();
    assert!(env.get(&Symbol("a".to_owned())).is_none());
    env.set(Symbol("a".to_owned()), number(1));
    assert!(*env.get(&Symbol("a".to_owned())).unwrap() == number(1));
    env.set(Symbol("a".to_owned()), number(2));
    assert!(*env.get(&Symbol("a".to_owned())).unwrap() == number(2));
    assert!(env.get(&Symbol("b".to_owned())).is_none());
}

#[test]
fn copies_are_independent_in_both_directions() {
    let mut original = Environment::default();
    original.set(Symbol("a".to_owned()), number(1));
    let mut copy = original.clone();
    original.set(Symbol("b".to_owned()), number(2));
    copy.set(Symbol("c".to_owned()), number(3));
    copy.set(Symbol("a".to_owned()), number(9));
    assert!(original.get(&Symbol("c".to_owned())).is_none());
    assert!(copy.get(&Symbol("b".to_owned())).is_none());
    assert!(*original.get(&Symbol("a".to_owned())).unwrap() == number(1));
    assert!(*copy.get(&Symbol("a".to_owned())).unwrap() == number(9));
}

#[test]
fn the_root_environment_is_mutated_in_place() {
    let mut env = Environment::default();
    shallot::set_environment(&mut env);
    evaluate("(define ' counter 1)", &mut env).unwrap();
    evaluate("(define ' counter (+ counter 1))", &mut env).unwrap();
    assert!(evaluate("counter", &mut env).unwrap() == number(2));
}

#[test]
fn rendering_lists_bindings_sorted_and_aligned() {
    let mut env = Environment::default();
    env.set(Symbol("b".to_owned()), number(2));
    env.set(Symbol("aa".to_owned()), number(1));
    let listing = env.render();
    assert!(listing.as_str() == "aa -> 1\n b -> 2");
}

#[test]
fn rendering_an_empty_scope_is_empty() {
    let env = Environment::default();
    assert!(env.render().as_str() == "");
}

#[test]
fn symbol_length_helpers_agree_with_the_name() {
    let s = Symbol("abc".to_owned());
    assert!(s.len() == 3);
    assert!(!s.is_empty());
    let empty = Symbol(String::new());
    assert!(empty.len() == 0);
    assert!(empty.is_empty());
}

#[test]
fn errors_describe_their_derivation() {
    let mut env = Environment::default();
    let e = evaluate("zzz", &mut env).unwrap_err();
    let text = e.describe();
    assert!(text.contains("zzz"));
    assert!(text.contains("unbound"));
}
