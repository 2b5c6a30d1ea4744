use shallot::{
    evaluate, set_environment, Environment, ErrorKind, Expression, Lambda, Number, Symbol,
    ToAndFrom, TypeError,
};

fn fresh_env() -> Environment {
    let mut env = Environment::default();
    set_environment(&mut env);
    env
}

fn eval_ok(input: &str, env: &mut Environment) -> Expression {
    match evaluate(input, env) {
        Ok(value) => value,
        Err(e) => panic!("evaluation failed: {}", e.describe()),
    }
}

fn eval_err(input: &str, env: &mut Environment) -> shallot::Error {
    match evaluate(input, env) {
        Ok(_) => panic!("evaluation unexpectedly succeeded"),
        Err(e) => e,
    }
}

fn number(n: i64) -> Expression {
    Expression::Number(Number(n))
}

fn empty_list() -> Expression {
    Expression::null()
}

#[test]
fn numbers_evaluate_to_themselves() {
    let mut env = fresh_env();
    assert!(eval_ok("42", &mut env) == number(42));
    assert!(eval_ok("-17", &mut env) == number(-17));
    assert!(eval_ok("0", &mut env) == number(0));
}

#[test]
fn numbers_self_evaluate_in_any_environment() {
    let mut empty = Environment::default();
    assert!(eval_ok("5", &mut empty) == number(5));
    let mut rich = fresh_env();
    assert!(eval_ok("5", &mut rich) == number(5));
}

#[test]
fn unbound_symbol_fails_naming_it() {
    let mut env = Environment::default();
    let e = eval_err("zzz", &mut env);
    assert!(matches!(e.kind, ErrorKind::Unbound(ref name) if name == "zzz"));
}

#[test]
fn addition_sums_all_arguments() {
    let mut env = fresh_env();
    assert!(eval_ok("(+ 1 2 3)", &mut env) == number(6));
    assert!(eval_ok("(+)", &mut env) == number(0));
    assert!(eval_ok("(+ 7)", &mut env) == number(7));
}

#[test]
fn subtraction_takes_the_rest_from_the_first() {
    let mut env = fresh_env();
    assert!(eval_ok("(- 10 1 2)", &mut env) == number(7));
    assert!(eval_ok("(- 5)", &mut env) == number(5));
    let e = eval_err("(-)", &mut env);
    assert!(matches!(e.kind, ErrorKind::Insufficient(_)));
}

#[test]
fn multiplication_multiplies_all_arguments() {
    let mut env = fresh_env();
    assert!(eval_ok("(* 2 3 4)", &mut env) == number(24));
    assert!(eval_ok("(*)", &mut env) == number(1));
}

#[test]
fn division_divides_the_first_by_the_product_of_the_rest() {
    let mut env = fresh_env();
    assert!(eval_ok("(/ 20 2 5)", &mut env) == number(2));
    assert!(eval_ok("(/ -7 2)", &mut env) == number(-3));
    assert!(eval_ok("(/ 7 -2)", &mut env) == number(-3));
    let e = eval_err("(/ 1 0)", &mut env);
    assert!(matches!(e.kind, ErrorKind::DivisionByZero));
    let e = eval_err("(/)", &mut env);
    assert!(matches!(e.kind, ErrorKind::Insufficient(_)));
}

#[test]
fn arithmetic_overflow_is_an_error() {
    let mut env = fresh_env();
    let e = eval_err("(+ 9223372036854775807 1)", &mut env);
    assert!(matches!(e.kind, ErrorKind::Overflow));
    let e = eval_err("(- -9223372036854775808 1)", &mut env);
    assert!(matches!(e.kind, ErrorKind::Overflow));
    let e = eval_err("(/ -9223372036854775808 -1)", &mut env);
    assert!(matches!(e.kind, ErrorKind::Overflow));
}

#[test]
fn arithmetic_refuses_non_numbers() {
    let mut env = fresh_env();
    let e = eval_err("(+ 1 ' a)", &mut env);
    assert!(matches!(e.kind, ErrorKind::Type(t) if t.expected == "number" && t.got == "symbol"));
}

#[test]
fn le_is_truthy_on_non_decreasing_numbers() {
    let mut env = fresh_env();
    assert!(eval_ok("(\u{2264} 1 2 2 3)", &mut env) == number(1));
    assert!(eval_ok("(\u{2264} 1 3 2)", &mut env) == empty_list());
    assert!(eval_ok("(\u{2264} 5)", &mut env) == number(1));
    let e = eval_err("(\u{2264})", &mut env);
    assert!(matches!(e.kind, ErrorKind::Insufficient(_)));
}

#[test]
fn equality_is_truthy_on_pairwise_equal_arguments() {
    let mut env = fresh_env();
    assert!(eval_ok("(= 1 1 1)", &mut env) == number(1));
    assert!(eval_ok("(= 1 2)", &mut env) == empty_list());
    assert!(eval_ok("(=)", &mut env) == number(1));
    assert!(eval_ok("(= 7)", &mut env) == number(1));
    assert!(eval_ok("(= (list 1 2) (list 1 2))", &mut env) == number(1));
    assert!(eval_ok("(= + +)", &mut env) == number(1));
    assert!(eval_ok("(= + -)", &mut env) == empty_list());
}

#[test]
fn list_collects_its_evaluated_arguments() {
    let mut env = fresh_env();
    let value = eval_ok("(list (+ 1 2) 4)", &mut env);
    let expected = Expression::List(shallot::List(vec![number(3), number(4)]));
    assert!(value == expected);
}

#[test]
fn a_list_indexes_itself_when_called() {
    let mut env = fresh_env();
    assert!(eval_ok("((list 10 20 30) 1)", &mut env) == number(20));
    let e = eval_err("((list 10) 3)", &mut env);
    assert!(matches!(e.kind, ErrorKind::IndexRange(1, 3)));
    let e = eval_err("((list 10) x)", &mut env);
    assert!(matches!(e.kind, ErrorKind::IndexType("symbol")));
    let e = eval_err("((list 10))", &mut env);
    assert!(matches!(e.kind, ErrorKind::IndexArity));
}

#[test]
fn define_binds_in_the_callers_environment() {
    let mut env = fresh_env();
    assert!(eval_ok("(define ' x 5)", &mut env) == number(5));
    assert!(eval_ok("x", &mut env) == number(5));
    assert!(eval_ok("(+ x 1)", &mut env) == number(6));
}

#[test]
fn define_validates_before_binding() {
    let mut env = fresh_env();
    let e = eval_err("(define 1 5)", &mut env);
    assert!(matches!(e.kind, ErrorKind::Type(t) if t.expected == "symbol" && t.got == "number"));
    let e = eval_err("(define ' x)", &mut env);
    assert!(matches!(e.kind, ErrorKind::DefineArity));
    let e = eval_err("x", &mut env);
    assert!(matches!(e.kind, ErrorKind::Unbound(_)));
}

#[test]
fn quote_returns_its_argument_unevaluated() {
    let mut env = fresh_env();
    let quoted = eval_ok("(list ' zzz (+ 1 2))", &mut env);
    let expected = Expression::List(shallot::List(vec![
        Expression::Symbol(Symbol("zzz".to_owned())),
        number(3),
    ]));
    assert!(quoted == expected);
    // Reached under another name, the quote builtin insists on one argument.
    let quote_builtin = eval_ok("'", &mut env);
    env.set(Symbol("q".to_owned()), quote_builtin);
    let e = eval_err("(q a b)", &mut env);
    assert!(matches!(e.kind, ErrorKind::QuoteArity));
    assert!(eval_ok("(q zzz)", &mut env) == Expression::Symbol(Symbol("zzz".to_owned())));
}

#[test]
fn cond_picks_the_first_truthy_pair() {
    let mut env = fresh_env();
    assert!(eval_ok("(cond (list) 1 (list) 2 99)", &mut env) == number(99));
    assert!(eval_ok("(cond (list) 1 (list) 2)", &mut env) == empty_list());
    assert!(eval_ok("(cond 1 7 2 8)", &mut env) == number(7));
    assert!(eval_ok("(cond (list) 7 2 8)", &mut env) == number(8));
    assert!(eval_ok("(cond)", &mut env) == empty_list());
}

#[test]
fn cond_evaluates_conditions_in_the_callers_environment() {
    let mut env = fresh_env();
    eval_ok("(define ' flag (list))", &mut env);
    assert!(eval_ok("(cond flag 1 99)", &mut env) == number(99));
}

#[test]
fn lambda_applies_to_evaluated_arguments() {
    let mut env = fresh_env();
    eval_ok("(define ' add2 (\u{3bb} (a b) (+ a b)))", &mut env);
    assert!(eval_ok("(add2 1 2)", &mut env) == number(3));
    assert!(eval_ok("(add2 (+ 1 2) 4)", &mut env) == number(7));
}

#[test]
fn partial_application_curries() {
    let mut env = fresh_env();
    eval_ok("(define ' f (\u{3bb} (a b) (+ a b)))", &mut env);
    let curried = eval_ok("(f 1)", &mut env);
    match &curried {
        Expression::Lambda(Lambda { parameters, .. }) => {
            assert!(parameters.len() == 1);
            assert!(parameters[0].0 == "b");
        },
        _ => panic!("partial application did not yield a lambda"),
    }
    eval_ok("(define ' f1 (f 1))", &mut env);
    assert!(eval_ok("(f1 2)", &mut env) == number(3));
}

#[test]
fn too_many_arguments_fail() {
    let mut env = fresh_env();
    eval_ok("(define ' f (\u{3bb} (a) a))", &mut env);
    let e = eval_err("(f 1 2)", &mut env);
    assert!(matches!(e.kind, ErrorKind::TooManyArguments));
}

#[test]
fn macros_receive_arguments_unevaluated() {
    let mut env = fresh_env();
    // A macro never touches its argument: even one that would fail to
    // evaluate is accepted unseen.
    eval_ok("(define ' h (\u{3bc} (x) 7))", &mut env);
    assert!(eval_ok("(h (+ 1 2))", &mut env) == number(7));
    assert!(eval_ok("(h (this would fail))", &mut env) == number(7));
}

#[test]
fn macro_keeps_the_literal_argument() {
    let mut env = fresh_env();
    // g rebuilds a quote around its unevaluated argument, so its expansion
    // hands the literal argument expression back: applying g to (+ 1 2)
    // returns the list (+ 1 2) itself, unevaluated.
    env.set(
        Symbol("qq".to_owned()),
        Expression::Symbol(Symbol("'".to_owned())),
    );
    eval_ok("(define ' g (\u{3bc} (x) (list qq x)))", &mut env);
    let literal = eval_ok("(g (+ 1 2))", &mut env);
    let expected = Expression::List(shallot::List(vec![
        Expression::Symbol(Symbol("+".to_owned())),
        number(1),
        number(2),
    ]));
    assert!(literal == expected);
    assert!(literal != number(3));
    // The analogous lambda evaluates the argument first.
    eval_ok("(define ' l (\u{3bb} (x) (list x)))", &mut env);
    let evaluated = eval_ok("(l (+ 1 2))", &mut env);
    assert!(evaluated == Expression::List(shallot::List(vec![number(3)])));
}

#[test]
fn a_curried_macro_keeps_its_early_arguments() {
    let mut env = fresh_env();
    eval_ok("(define ' m (\u{3bc} (a b) 9))", &mut env);
    let curried = eval_ok("(m 1)", &mut env);
    match &curried {
        Expression::Macro(shallot::Macro { parameters, .. }) => {
            assert!(parameters.len() == 1);
            assert!(parameters[0].0 == "b");
        },
        _ => panic!("partial application did not yield a macro"),
    }
    eval_ok("(define ' m1 (m 1))", &mut env);
    assert!(eval_ok("(m1 2)", &mut env) == number(9));
}

#[test]
fn a_lambda_does_not_see_bindings_made_after_capture() {
    let mut env = fresh_env();
    eval_ok("(define ' f (\u{3bb} (ignored) later))", &mut env);
    eval_ok("(define ' later 7)", &mut env);
    let e = eval_err("(f 0)", &mut env);
    assert!(matches!(e.kind, ErrorKind::Unbound(ref name) if name == "later"));
}

#[test]
fn a_lambda_sees_bindings_made_before_capture() {
    let mut env = fresh_env();
    eval_ok("(define ' early 7)", &mut env);
    eval_ok("(define ' f (\u{3bb} (ignored) early))", &mut env);
    assert!(eval_ok("(f 0)", &mut env) == number(7));
}

#[test]
fn calling_a_number_fails() {
    let mut env = fresh_env();
    let e = eval_err("(1 2)", &mut env);
    assert!(matches!(e.kind, ErrorKind::NotCallable("number")));
}

#[test]
fn an_empty_list_is_not_callable() {
    let mut env = fresh_env();
    let e = eval_err("()", &mut env);
    assert!(matches!(e.kind, ErrorKind::EmptyCall));
}

#[test]
fn the_quote_prefix_rewrites_inside_lists() {
    let mut env = fresh_env();
    assert!(eval_ok("(list ' x)", &mut env) == Expression::List(shallot::List(vec![
        Expression::Symbol(Symbol("x".to_owned())),
    ])));
}

#[test]
fn a_single_argument_builtin_insists_on_one_argument() {
    let mut env = fresh_env();
    env.set(
        Symbol("first".to_owned()),
        Expression::BuiltinFunction(shallot::BuiltinFunction::new_wrapped(
            "first",
            shallot::Op::Add,
        )),
    );
    assert!(eval_ok("(first 5)", &mut env) == number(5));
    let e = eval_err("(first 1 2)", &mut env);
    assert!(matches!(e.kind, ErrorKind::SingleArgument("first")));
}

#[test]
fn conversions_carry_atoms_in_and_out() {
    let e = Expression::from(Number(3));
    let back: Result<&Number, TypeError> = e.try_into_atom();
    assert!(matches!(back, Ok(Number(3))));
    let wrong: Result<&Symbol, TypeError> = e.try_into_atom();
    match wrong {
        Err(t) => {
            assert!(t.expected == "symbol");
            assert!(t.got == "number");
        },
        Ok(_) => panic!("a number converted into a symbol"),
    }
}

#[test]
fn evaluation_threads_the_environment_through_arguments() {
    let mut env = fresh_env();
    assert!(eval_ok("(+ (define ' y 4) y)", &mut env) == number(8));
}
