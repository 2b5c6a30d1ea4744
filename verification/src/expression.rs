//! The expression tree: the tagged union over the atom kinds of
//! [`crate::atoms`], together with deep copying.

use vstd::prelude::*;

use crate::atoms::{BuiltinFunction, BuiltinMacro, Lambda, List, Macro, Number, Symbol};
use crate::environment::Environment;
use crate::errors::{Error, TypeError};
use crate::semantics::{is_truthy_spec, kind_label, null_val, Val};

verus! {

/// The character for one decimal digit.
pub open spec fn digit_char(d: nat) -> char {
    if d == 0 {
        '0'
    } else if d == 1 {
        '1'
    } else if d == 2 {
        '2'
    } else if d == 3 {
        '3'
    } else if d == 4 {
        '4'
    } else if d == 5 {
        '5'
    } else if d == 6 {
        '6'
    } else if d == 7 {
        '7'
    } else if d == 8 {
        '8'
    } else {
        '9'
    }
}

/// The decimal rendering of a natural number.
pub open spec fn dec_str(n: nat) -> Seq<char>
    decreases n,
{
    if n < 10 {
        seq![digit_char(n)]
    } else {
        dec_str(n / 10).push(digit_char(n % 10))
    }
}

/// The decimal rendering of an integer: a minus sign for negative values.
pub open spec fn int_str(v: int) -> Seq<char> {
    if v < 0 {
        seq!['-'] + dec_str((-v) as nat)
    } else {
        dec_str(v as nat)
    }
}

/// The one-character text of a decimal digit.
fn digit_str(d: u64) -> (r: &'static str)
    requires
        d < 10,
    ensures
        r@ == seq![digit_char(d as nat)],
{
    proof {
        reveal_strlit("0");
        reveal_strlit("1");
        reveal_strlit("2");
        reveal_strlit("3");
        reveal_strlit("4");
        reveal_strlit("5");
        reveal_strlit("6");
        reveal_strlit("7");
        reveal_strlit("8");
        reveal_strlit("9");
    }
    let r: &'static str = if d == 0 {
        "0"
    } else if d == 1 {
        "1"
    } else if d == 2 {
        "2"
    } else if d == 3 {
        "3"
    } else if d == 4 {
        "4"
    } else if d == 5 {
        "5"
    } else if d == 6 {
        "6"
    } else if d == 7 {
        "7"
    } else if d == 8 {
        "8"
    } else {
        "9"
    };
    proof {
        assert(r@ =~= seq![digit_char(d as nat)]);
    }
    r
}

/// The decimal text of an unsigned number.
pub fn u64_to_string(n: u64) -> (r: String)
    ensures
        r@ == dec_str(n as nat),
    decreases n,
{
    if n < 10 {
        String::from_str(digit_str(n))
    } else {
        let mut s = u64_to_string(n / 10);
        s.append(digit_str(n % 10));
        proof {
            assert(s@ =~= dec_str((n / 10) as nat).push(digit_char((n % 10) as nat)));
        }
        s
    }
}

/// The decimal text of a signed number.
pub fn i64_to_string(n: i64) -> (r: String)
    ensures
        r@ == int_str(n as int),
{
    if n >= 0 {
        let r = u64_to_string(n as u64);
        r
    } else {
        let magnitude: u64 = if n == i64::MIN {
            9223372036854775808u64
        } else {
            (-n) as u64
        };
        let mut s = String::from_str("-");
        let digits = u64_to_string(magnitude);
        s.append(digits.as_str());
        proof {
            reveal_strlit("-");
            assert(s@ =~= seq!['-'] + dec_str(magnitude as nat));
        }
        s
    }
}

/// An expression: the closed variant set over the atom kinds.
#[derive(Debug)]
pub enum Expression {
    /// A name.
    Symbol(Symbol),
    /// A 64-bit signed integer.
    Number(Number),
    /// An ordered sequence of expressions.
    List(List),
    /// A native function.
    BuiltinFunction(BuiltinFunction),
    /// A native macro.
    BuiltinMacro(BuiltinMacro),
    /// A user-defined function.
    Lambda(Lambda),
    /// A user-defined macro.
    Macro(Macro),
}

impl View for Expression {
    type V = Val;

    open spec fn view(&self) -> Val {
        crate::semantics::expr_view(*self)
    }
}

/// Deep copy of a vector of expressions, element by element.
pub fn clone_expressions(v: &[Expression]) -> (r: Vec<Expression>)
    ensures
        r@.len() == v@.len(),
        forall|i: int| 0 <= i < v@.len() ==> r@[i]@ == #[trigger] v@[i]@,
    decreases v@,
{
    let n = v.len();
    let mut r: Vec<Expression> = Vec::new();
    let mut i: usize = 0;
    while i < n
        invariant
            n == v@.len(),
            i <= n,
            r@.len() == i,
            forall|j: int| 0 <= j < i ==> r@[j]@ == #[trigger] v@[j]@,
        decreases n - i,
    {
        r.push(v[i].clone());
        i = i + 1;
    }
    r
}

/// Copy of a vector of symbols, element by element.
pub fn clone_symbols(v: &[Symbol]) -> (r: Vec<Symbol>)
    ensures
        r@.len() == v@.len(),
        forall|i: int| 0 <= i < v@.len() ==> r@[i]@ == #[trigger] v@[i]@,
{
    let n = v.len();
    let mut r: Vec<Symbol> = Vec::new();
    let mut i: usize = 0;
    while i < n
        invariant
            n == v@.len(),
            i <= n,
            r@.len() == i,
            forall|j: int| 0 <= j < i ==> r@[j]@ == #[trigger] v@[j]@,
        decreases n - i,
    {
        r.push(v[i].clone());
        i = i + 1;
    }
    r
}

/// Deep copy of a vector of bindings, element by element.
pub fn clone_bindings(v: &Vec<(Symbol, Expression)>) -> (r: Vec<(Symbol, Expression)>)
    ensures
        r@.len() == v@.len(),
        forall|i: int| 0 <= i < v@.len() ==> #[trigger] r@[i].0@ == v@[i].0@ && r@[i].1@ == v@[i].1@,
    decreases v@,
{
    let n = v.len();
    let mut r: Vec<(Symbol, Expression)> = Vec::new();
    let mut i: usize = 0;
    while i < n
        invariant
            n == v@.len(),
            i <= n,
            r@.len() == i,
            forall|j: int| 0 <= j < i ==> #[trigger] r@[j].0@ == v@[j].0@ && r@[j].1@ == v@[j].1@,
        decreases n - i,
    {
        let name = v[i].0.clone();
        let value = v[i].1.clone();
        r.push((name, value));
        i = i + 1;
    }
    r
}

impl Clone for Expression {
    fn clone(&self) -> (r: Self)
        ensures
            r@ == self@,
        decreases self,
    {
        match self {
            Expression::Symbol(s) => Expression::Symbol(s.clone()),
            Expression::Number(n) => Expression::Number(Number(n.0)),
            Expression::List(l) => {
                let v2 = clone_expressions(l.0.as_slice());
                proof {
                    broadcast use crate::semantics::view_axioms;

                    assert forall|i: int|
                        0 <= i < l.0@.len() implies crate::semantics::exprs_view(v2@)[i]
                        == crate::semantics::exprs_view(l.0@)[i] by {}
                    assert(crate::semantics::exprs_view(v2@) =~= crate::semantics::exprs_view(
                        l.0@,
                    ));
                }
                Expression::List(List(v2))
            },
            Expression::BuiltinFunction(b) => Expression::BuiltinFunction(*b),
            Expression::BuiltinMacro(b) => Expression::BuiltinMacro(*b),
            Expression::Lambda(lm) => {
                let r = Expression::Lambda(Lambda {
                    parameters: clone_symbols(lm.parameters.as_slice()),
                    value: Box::new((*lm.value).clone()),
                    env: lm.env.duplicate(),
                });
                proof {
                    broadcast use crate::semantics::view_axioms;
                    assert(r@ =~~= self@);
                }
                r
            },
            Expression::Macro(mc) => {
                let r = Expression::Macro(Macro {
                    parameters: clone_symbols(mc.parameters.as_slice()),
                    value: Box::new((*mc.value).clone()),
                    env: mc.env.duplicate(),
                });
                proof {
                    broadcast use crate::semantics::view_axioms;
                    assert(r@ =~~= self@);
                }
                r
            },
        }
    }
}

impl Expression {
    /// The empty list: the falsy value.
    pub fn null() -> (r: Expression)
        ensures
            r@ == null_val(),
    {
        let v: Vec<Expression> = Vec::new();
        let r = Expression::List(List(v));
        proof {
            assert(r is List);
            assert(r->List_0.0@.len() == 0);
            assert(crate::semantics::exprs_view(r->List_0.0@) =~= Seq::empty());
            assert(crate::semantics::expr_view(r) is List);
            assert(r@ =~= null_val());
        }
        r
    }

    /// This expression as a list, or a type error naming both kinds.
    pub fn as_list(&self) -> (r: Result<&List, TypeError>)
        ensures
            match r {
                Ok(l) => self@ is List && l@ == self@,
                Err(t) => !(self@ is List) && t@ == ("list"@, kind_label(self@)),
            },
    {
        match self {
            Expression::List(l) => Ok(l),
            _ => Err(TypeError { expected: "list", got: self.variant() }),
        }
    }

    /// This expression as a symbol, or a type error naming both kinds.
    pub fn as_symbol(&self) -> (r: Result<&Symbol, TypeError>)
        ensures
            match r {
                Ok(s) => self@ is Symbol && self@ == (Val::Symbol { name: s@ }),
                Err(t) => !(self@ is Symbol) && t@ == ("symbol"@, kind_label(self@)),
            },
    {
        match self {
            Expression::Symbol(s) => Ok(s),
            _ => Err(TypeError { expected: "symbol", got: self.variant() }),
        }
    }

    /// This expression as a number, or a type error naming both kinds.
    pub fn as_number(&self) -> (r: Result<&Number, TypeError>)
        ensures
            match r {
                Ok(n) => self@ is Number && self@ == (Val::Number { value: n@ }),
                Err(t) => !(self@ is Number) && t@ == ("number"@, kind_label(self@)),
            },
    {
        match self {
            Expression::Number(n) => Ok(n),
            _ => Err(TypeError { expected: "number", got: self.variant() }),
        }
    }

    /// Whether this expression is truthy: everything but the empty list is.
    pub fn is_truthy(&self) -> (r: bool)
        ensures
            r == is_truthy_spec(self@),
    {
        match self {
            Expression::List(l) => {
                let r = l.0.len() != 0;
                proof {
                    broadcast use crate::semantics::view_axioms;

                    assert(crate::semantics::exprs_view(l.0@).len() == l.0@.len());
                }
                r
            },
            _ => true,
        }
    }

    /// The fixed label of this expression's kind.
    pub fn variant(&self) -> (r: &'static str)
        ensures
            r@ == kind_label(self@),
    {
        match self {
            Expression::Symbol(_) => "symbol",
            Expression::Number(_) => "number",
            Expression::List(_) => "list",
            Expression::BuiltinFunction(_) => "builtin function",
            Expression::BuiltinMacro(_) => "builtin macro",
            Expression::Lambda(_) => "lambda",
            Expression::Macro(_) => "macro",
        }
    }
}

/// Whether two expressions are equal in the language's sense: numbers by
/// value, symbols by name, lists elementwise, builtins by name identity,
/// and user-defined callables by parameters, body and captured scope.
pub fn expr_eq(a: &Expression, b: &Expression) -> (r: bool)
    ensures
        r == crate::semantics::val_eq(a@, b@),
    decreases a,
{
    match (a, b) {
        (Expression::Symbol(x), Expression::Symbol(y)) => x.0 == y.0,
        (Expression::Number(x), Expression::Number(y)) => x.0 == y.0,
        (Expression::List(x), Expression::List(y)) => exprs_eq(&x.0, &y.0),
        (Expression::BuiltinFunction(x), Expression::BuiltinFunction(y)) => crate::token::str_eq(
            x.name,
            y.name,
        ),
        (Expression::BuiltinMacro(x), Expression::BuiltinMacro(y)) => crate::token::str_eq(
            x.name,
            y.name,
        ),
        (Expression::Lambda(x), Expression::Lambda(y)) => {
            symbols_eq(&x.parameters, &y.parameters) && expr_eq(&x.value, &y.value) && bindings_eq(
                &x.env.entries,
                &y.env.entries,
            )
        },
        (Expression::Macro(x), Expression::Macro(y)) => {
            symbols_eq(&x.parameters, &y.parameters) && expr_eq(&x.value, &y.value) && bindings_eq(
                &x.env.entries,
                &y.env.entries,
            )
        },
        _ => false,
    }
}

/// Whether two expression vectors are equal elementwise under [`expr_eq`].
fn exprs_eq(x: &Vec<Expression>, y: &Vec<Expression>) -> (r: bool)
    ensures
        r == crate::semantics::items_eq(
            crate::semantics::exprs_view(x@),
            crate::semantics::exprs_view(y@),
        ),
    decreases x@,
{
    broadcast use crate::semantics::view_axioms;

    let ghost xs = crate::semantics::exprs_view(x@);
    let ghost ys = crate::semantics::exprs_view(y@);
    let n = x.len();
    if y.len() != n {
        return false;
    }
    let mut i: usize = 0;
    while i < n
        invariant
            n == x@.len(),
            n == y@.len(),
            xs == crate::semantics::exprs_view(x@),
            ys == crate::semantics::exprs_view(y@),
            i <= n,
            forall|j: int| 0 <= j < i ==> crate::semantics::val_eq(#[trigger] xs[j], ys[j]),
        decreases n - i,
    {
        proof {
            broadcast use crate::semantics::view_axioms;

            assert(xs[i as int] == x@[i as int]@);
            assert(ys[i as int] == y@[i as int]@);
        }
        if !expr_eq(&x[i], &y[i]) {
            return false;
        }
        i = i + 1;
    }
    true
}

/// Whether two parameter lists carry the same names in the same order.
fn symbols_eq(x: &Vec<Symbol>, y: &Vec<Symbol>) -> (r: bool)
    ensures
        r == (crate::semantics::params_view(x@) == crate::semantics::params_view(y@)),
{
    let ghost xs = crate::semantics::params_view(x@);
    let ghost ys = crate::semantics::params_view(y@);
    let n = x.len();
    if y.len() != n {
        proof {
            assert(xs.len() != ys.len());
        }
        return false;
    }
    let mut i: usize = 0;
    while i < n
        invariant
            n == x@.len(),
            n == y@.len(),
            xs == crate::semantics::params_view(x@),
            ys == crate::semantics::params_view(y@),
            i <= n,
            forall|j: int| 0 <= j < i ==> #[trigger] xs[j] == ys[j],
        decreases n - i,
    {
        if !crate::token::str_eq(x[i].0.as_str(), y[i].0.as_str()) {
            proof {
                assert(xs[i as int] != ys[i as int]);
            }
            return false;
        }
        i = i + 1;
    }
    proof {
        assert(xs =~= ys);
    }
    true
}

/// Whether two binding lists are equal name for name and, under
/// [`expr_eq`], value for value.
fn bindings_eq(x: &Vec<(Symbol, Expression)>, y: &Vec<(Symbol, Expression)>) -> (r: bool)
    ensures
        r == crate::semantics::env_eq_at(
            crate::semantics::env_view(x@),
            crate::semantics::env_view(y@),
        ),
    decreases x@,
{
    broadcast use crate::semantics::view_axioms;

    let ghost xs = crate::semantics::env_view(x@);
    let ghost ys = crate::semantics::env_view(y@);
    let n = x.len();
    if y.len() != n {
        return false;
    }
    let mut i: usize = 0;
    while i < n
        invariant
            n == x@.len(),
            n == y@.len(),
            xs == crate::semantics::env_view(x@),
            ys == crate::semantics::env_view(y@),
            i <= n,
            forall|j: int| 0 <= j < i ==> (#[trigger] xs[j]).0 == ys[j].0
                && crate::semantics::val_eq(xs[j].1, ys[j].1),
        decreases n - i,
    {
        proof {
            broadcast use crate::semantics::view_axioms;

            assert(xs[i as int] == (x@[i as int].0@, x@[i as int].1@));
            assert(ys[i as int] == (y@[i as int].0@, y@[i as int].1@));
        }
        if !crate::token::str_eq(x[i].0.0.as_str(), y[i].0.0.as_str()) {
            return false;
        }
        if !expr_eq(&x[i].1, &y[i].1) {
            return false;
        }
        i = i + 1;
    }
    true
}

/// Evaluates argument expressions left to right, threading the caller's
/// environment, and stops at the first failure, tagging it with the
/// 1-based index of the argument.
pub fn eval_arguments(arguments: &[Expression], env: &mut Environment, fuel: u64) -> (r: Result<
    Vec<Expression>,
    Error,
>)
    ensures
        ({
            let s = crate::semantics::eval_args_spec(
                crate::semantics::exprs_view(arguments@),
                old(env)@,
                fuel as nat,
            );
            &&& final(env)@ == s.env
            &&& match r {
                Ok(v) => s.outcome == Ok::<Seq<Val>, crate::semantics::Fault>(
                    crate::semantics::exprs_view(v@),
                ),
                Err(e) => s.outcome == Err::<Seq<Val>, crate::semantics::Fault>(e@),
            }
        }),
    decreases fuel, 0int,
{
    broadcast use crate::semantics::view_axioms;

    let ghost s = crate::semantics::exprs_view(arguments@);
    if fuel == 0 {
        return Err(Error::new(crate::errors::ErrorKind::OutOfFuel));
    }
    if arguments.len() == 0 {
        let r: Vec<Expression> = Vec::new();
        proof {
            assert(crate::semantics::exprs_view(r@) =~= Seq::<Val>::empty());
        }
        return Ok(r);
    }
    proof {
        assert(s[0] == arguments@[0]@);
    }
    let head = match arguments[0].eval(env, fuel - 1) {
        Ok(head) => head,
        Err(e) => {
            return Err(e.framed(String::from_str("argument number 1")));
        },
    };
    let rest = vstd::slice::slice_subrange(arguments, 1, arguments.len());
    proof {
        assert(crate::semantics::exprs_view(rest@) =~= s.skip(1));
    }
    match eval_arguments(rest, env, fuel - 1) {
        Ok(mut values) => {
            let ghost tail = crate::semantics::exprs_view(values@);
            values.insert(0, head);
            proof {
                assert(crate::semantics::exprs_view(values@) =~= seq![head@] + tail);
            }
            Ok(values)
        },
        Err(e) => Err(e),
    }
}

impl Expression {
    /// Reduces this expression to a value against the environment: a list
    /// applies its evaluated head to the rest of its elements, a symbol is
    /// looked up, and everything else evaluates to itself. One unit of fuel
    /// bounds each step of the reduction.
    pub fn eval(&self, env: &mut Environment, fuel: u64) -> (r: Result<Expression, Error>)
        ensures
            ({
                let s = crate::semantics::eval_spec(self@, old(env)@, fuel as nat);
                &&& final(env)@ == s.env
                &&& match r {
                    Ok(v) => s.outcome == Ok::<Val, crate::semantics::Fault>(v@),
                    Err(e) => s.outcome == Err::<Val, crate::semantics::Fault>(e@),
                }
            }),
        decreases fuel, 0int,
    {
        broadcast use crate::semantics::view_axioms;

        if fuel == 0 {
            return Err(Error::new(crate::errors::ErrorKind::OutOfFuel));
        }
        match self {
            Expression::List(l) => {
                proof {
                    assert(crate::semantics::exprs_view(l.0@).len() == l.0@.len());
                }
                if l.0.len() == 0 {
                    return Err(Error::new(crate::errors::ErrorKind::EmptyCall));
                }
                proof {
                    assert(crate::semantics::exprs_view(l.0@)[0] == l.0@[0]@);
                }
                let head = match l.0[0].eval(env, fuel - 1) {
                    Ok(head) => head,
                    Err(e) => {
                        return Err(
                            e.framed(String::from_str("could not evaluate the head of the list")),
                        );
                    },
                };
                let rest = vstd::slice::slice_subrange(l.0.as_slice(), 1, l.0.len());
                proof {
                    assert(crate::semantics::exprs_view(rest@) =~= crate::semantics::exprs_view(
                        l.0@,
                    ).skip(1));
                }
                head.call(rest, env, fuel - 1)
            },
            Expression::Symbol(symbol) => {
                match env.get(symbol) {
                    Some(value) => Ok(value.clone()),
                    None => Err(Error::new(crate::errors::ErrorKind::Unbound(symbol.0.clone()))),
                }
            },
            _ => Ok(self.clone()),
        }
    }

    /// Dispatches a call through this expression as the operator value.
    /// Builtin functions and lambdas evaluate the arguments first; builtin
    /// macros, macros and lists receive them unevaluated; anything else is
    /// not callable.
    pub fn call(&self, arguments: &[Expression], env: &mut Environment, fuel: u64) -> (r: Result<
        Expression,
        Error,
    >)
        ensures
            ({
                let s = crate::semantics::apply_spec(
                    self@,
                    crate::semantics::exprs_view(arguments@),
                    old(env)@,
                    fuel as nat,
                );
                &&& final(env)@ == s.env
                &&& match r {
                    Ok(v) => s.outcome == Ok::<Val, crate::semantics::Fault>(v@),
                    Err(e) => s.outcome == Err::<Val, crate::semantics::Fault>(e@),
                }
            }),
        decreases fuel, 2int,
    {
        if fuel == 0 {
            return Err(Error::new(crate::errors::ErrorKind::OutOfFuel));
        }
        match self {
            Expression::BuiltinFunction(b) => b.call(arguments, env, fuel),
            Expression::BuiltinMacro(b) => b.call(arguments, env, fuel),
            Expression::Lambda(lm) => lm.call(arguments, env, fuel),
            Expression::Macro(mc) => mc.call(arguments, env, fuel),
            Expression::List(l) => l.call(arguments, env),
            other => Err(Error::new(crate::errors::ErrorKind::NotCallable(other.variant()))),
        }
    }
}

impl Expression {
    /// The expression a raw token stands for: a number when its text
    /// parses as one, and a symbol otherwise.
    pub fn parse_from_token(token: &crate::token::Token) -> (r: Expression)
        ensures
            r@ == crate::semantics::atom_of_token(token.value@),
    {
        match Number::parse_from_token(token) {
            Some(number) => Expression::Number(number),
            None => Expression::Symbol(Symbol(token.value.clone())),
        }
    }

    /// Parses one expression from the tokens, consuming a prefix of the
    /// stream and leaving the position just past it.
    pub fn parse(tokens: &Vec<crate::token::Token>, position: &mut usize) -> (r: Result<
        Expression,
        Error,
    >)
        ensures
            ({
                let pr = crate::semantics::parse_spec(
                    crate::token::toks_view(tokens@),
                    *old(position) as int,
                );
                &&& *final(position) == pr.1
                &&& match r {
                    Ok(e) => pr.0 == Ok::<Val, crate::semantics::Fault>(e@),
                    Err(err) => pr.0 == Err::<Val, crate::semantics::Fault>(err@),
                }
            }),
    {
        let (r, next) = parse_at(tokens, *position);
        *position = next;
        r
    }
}

/// Parses one expression from the tokens at the given position, returning
/// the result and the position just past what was consumed.
fn parse_at(tokens: &Vec<crate::token::Token>, pos: usize) -> (r: (Result<Expression, Error>, usize))
    ensures
        ({
            let pr = crate::semantics::parse_spec(crate::token::toks_view(tokens@), pos as int);
            &&& r.1 == pr.1
            &&& match r.0 {
                Ok(e) => pr.0 == Ok::<Val, crate::semantics::Fault>(e@),
                Err(err) => pr.0 == Err::<Val, crate::semantics::Fault>(err@),
            }
        }),
    decreases tokens@.len() - pos, 0int,
{
    broadcast use crate::semantics::view_axioms;

    let ghost toks = crate::token::toks_view(tokens@);
    if pos >= tokens.len() {
        return (Err(Error::new(crate::errors::ErrorKind::RanOutOfTokens)), pos);
    }
    proof {
        assert(toks[pos as int] == tokens@[pos as int]@);
        reveal_strlit("(");
        reveal_strlit(")");
        assert("("@ =~= seq!['(']);
        assert(")"@ =~= seq![')']);
    }
    if crate::token::str_eq(tokens[pos].value.as_str(), "(") {
        let (elements, next) = match parse_list_at(tokens, pos + 1, tokens[pos].position) {
            (Ok(elements), next) => (elements, next),
            (Err(e), next) => {
                return (Err(e), next);
            },
        };
        match rewrite_quotes(elements) {
            Ok(items) => (Ok(Expression::List(List(items))), next),
            Err(e) => (Err(e), next),
        }
    } else if crate::token::str_eq(tokens[pos].value.as_str(), ")") {
        (
            Err(
                Error::new(crate::errors::ErrorKind::UnexpectedClose(tokens[pos].position)),
            ),
            pos,
        )
    } else {
        (Ok(Expression::parse_from_token(&tokens[pos])), pos + 1)
    }
}

/// Parses a list's elements from the given position up to and including
/// the close token, before the quote-prefix rewrite. The open token stood
/// at the given offset, which syntax errors report.
fn parse_list_at(tokens: &Vec<crate::token::Token>, pos: usize, open_at: usize) -> (r: (
    Result<Vec<Expression>, Error>,
    usize,
))
    ensures
        ({
            let pr = crate::semantics::parse_list_spec(
                crate::token::toks_view(tokens@),
                pos as int,
            );
            &&& r.1 == pr.1
            &&& match r.0 {
                Ok(v) => pr.0 == Ok::<Seq<Val>, crate::semantics::Fault>(
                    crate::semantics::exprs_view(v@),
                ),
                Err(err) => pr.0 == Err::<Seq<Val>, crate::semantics::Fault>(err@),
            }
        }),
    decreases tokens@.len() - pos, 1int,
{
    broadcast use crate::semantics::view_axioms;

    let ghost toks = crate::token::toks_view(tokens@);
    let n = tokens.len();
    if pos >= n {
        return (Err(Error::new(crate::errors::ErrorKind::RanOutOfTokens)), pos);
    }
    let mut elements: Vec<Expression> = Vec::new();
    let mut cur = pos;
    proof {
        assert(crate::semantics::exprs_view(elements@) =~= Seq::<Val>::empty());
        if crate::semantics::parse_list_spec(toks, pos as int).0 is Ok {
            assert(crate::semantics::exprs_view(elements@) + crate::semantics::parse_list_spec(
                toks,
                pos as int,
            ).0->Ok_0 =~= crate::semantics::parse_list_spec(toks, pos as int).0->Ok_0);
        }
    }
    loop
        invariant
            toks == crate::token::toks_view(tokens@),
            n == tokens@.len(),
            pos <= cur <= n,
            ({
                let whole = crate::semantics::parse_list_spec(toks, pos as int);
                let here = crate::semantics::parse_list_spec(toks, cur as int);
                match here.0 {
                    Ok(rest) => whole == (
                        Ok::<Seq<Val>, crate::semantics::Fault>(
                            crate::semantics::exprs_view(elements@) + rest,
                        ),
                        here.1,
                    ),
                    Err(f) => whole == (Err::<Seq<Val>, crate::semantics::Fault>(f), here.1),
                }
            }),
        decreases n - cur,
    {
        if cur >= n {
            return (Err(Error::new(crate::errors::ErrorKind::RanOutOfTokens)), cur);
        }
        proof {
            assert(toks[cur as int] == tokens@[cur as int]@);
            reveal_strlit(")");
            assert(")"@ =~= seq![')']);
        }
        if crate::token::str_eq(tokens[cur].value.as_str(), ")") {
            return (Ok(elements), cur + 1);
        }
        let (element, next) = match parse_at(tokens, cur) {
            (Ok(element), next) => (element, next),
            (Err(e), next) => {
                let mut frame = String::from_str("while parsing the list that began at offset ");
                let at = crate::expression::u64_to_string(open_at as u64);
                frame.append(at.as_str());
                return (Err(e.framed(frame)), next);
            },
        };
        proof {
            crate::semantics::lemma_parse_only_bounds(toks, cur as int);
        }
        let ghost elements_pre = elements@;
        let ghost ev = element@;
        elements.push(element);
        proof {
            broadcast use crate::semantics::view_axioms;

            assert(crate::semantics::exprs_view(elements@) =~= crate::semantics::exprs_view(
                elements_pre,
            ).push(ev));
            let here = crate::semantics::parse_list_spec(toks, next as int);
            match here.0 {
                Ok(rest) => {
                    assert(crate::semantics::exprs_view(elements_pre) + (seq![ev] + rest)
                        =~= crate::semantics::exprs_view(elements@) + rest);
                },
                Err(_) => {},
            }
        }
        cur = next;
    }
}

/// The quote-prefix rewrite, left to right: a quote-prefix symbol and the
/// element after it are spliced into one two-element sub-list.
fn rewrite_quotes(elements: Vec<Expression>) -> (r: Result<Vec<Expression>, Error>)
    ensures
        match r {
            Ok(v) => crate::semantics::quote_rewrite(crate::semantics::exprs_view(elements@))
                == Ok::<Seq<Val>, crate::semantics::Fault>(crate::semantics::exprs_view(v@)),
            Err(err) => crate::semantics::quote_rewrite(crate::semantics::exprs_view(elements@))
                == Err::<Seq<Val>, crate::semantics::Fault>(err@),
        },
{
    broadcast use crate::semantics::view_axioms;

    let ghost s = crate::semantics::exprs_view(elements@);
    let n = elements.len();
    let mut out: Vec<Expression> = Vec::new();
    let mut i: usize = 0;
    proof {
        assert(s.skip(0) =~= s);
        assert(crate::semantics::exprs_view(out@) =~= Seq::<Val>::empty());
        if crate::semantics::quote_rewrite(s) is Ok {
            assert(crate::semantics::exprs_view(out@) + crate::semantics::quote_rewrite(s)->Ok_0
                =~= crate::semantics::quote_rewrite(s)->Ok_0);
        }
    }
    while i < n
        invariant
            n == elements@.len(),
            s == crate::semantics::exprs_view(elements@),
            i <= n,
            match crate::semantics::quote_rewrite(s.skip(i as int)) {
                Ok(rest) => crate::semantics::quote_rewrite(s) == Ok::<
                    Seq<Val>,
                    crate::semantics::Fault,
                >(crate::semantics::exprs_view(out@) + rest),
                Err(f) => crate::semantics::quote_rewrite(s) == Err::<
                    Seq<Val>,
                    crate::semantics::Fault,
                >(f),
            },
        decreases n - i,
    {
        proof {
            broadcast use crate::semantics::view_axioms;

            assert(s[i as int] == elements@[i as int]@);
            assert(s.skip(i as int)[0] == s[i as int]);
            reveal_strlit("'");
            assert("'"@ =~= seq!['\'']);
        }
        let is_quote = match &elements[i] {
            Expression::Symbol(sy) => crate::token::str_eq(sy.0.as_str(), "'"),
            _ => false,
        };
        let ghost out_pre = out@;
        if is_quote {
            if i + 1 >= n {
                proof {
                    assert(s.skip(i as int).len() == 1);
                }
                return Err(Error::new(crate::errors::ErrorKind::TrailingQuote));
            }
            proof {
                assert(s[i as int + 1] == elements@[i as int + 1]@);
                assert(s.skip(i as int)[1] == s[i as int + 1]);
                assert(s.skip(i as int).skip(2) =~= s.skip(i as int + 2));
            }
            let mut pair: Vec<Expression> = Vec::new();
            pair.push(elements[i].clone());
            pair.push(elements[i + 1].clone());
            let ghost pv = crate::semantics::Val::List {
                items: seq![s[i as int], s[i as int + 1]],
            };
            proof {
                broadcast use crate::semantics::view_axioms;

                assert(pair@.len() == 2);
                assert(pair@[0]@ == s[i as int]);
                assert(pair@[1]@ == s[i as int + 1]);
                assert(crate::semantics::exprs_view(pair@)[0] == pair@[0]@);
                assert(crate::semantics::exprs_view(pair@)[1] == pair@[1]@);
                assert(crate::semantics::exprs_view(pair@) =~= seq![s[i as int], s[i as int + 1]]);
            }
            let spliced = Expression::List(List(pair));
            proof {
                assert(spliced@ is List);
                assert(spliced@ == pv);
            }
            out.push(spliced);
            proof {
                broadcast use crate::semantics::view_axioms;

                assert(crate::semantics::exprs_view(out@) =~= crate::semantics::exprs_view(
                    out_pre,
                ).push(pv));
                match crate::semantics::quote_rewrite(s.skip(i as int + 2)) {
                    Ok(rest) => {
                        assert(crate::semantics::exprs_view(out_pre) + (seq![pv] + rest)
                            =~= crate::semantics::exprs_view(out@) + rest);
                    },
                    Err(_) => {},
                }
            }
            i = i + 2;
        } else {
            proof {
                assert(s.skip(i as int).skip(1) =~= s.skip(i as int + 1));
            }
            let kept = elements[i].clone();
            let ghost kv = kept@;
            out.push(kept);
            proof {
                broadcast use crate::semantics::view_axioms;

                assert(crate::semantics::exprs_view(out@) =~= crate::semantics::exprs_view(
                    out_pre,
                ).push(kv));
                match crate::semantics::quote_rewrite(s.skip(i as int + 1)) {
                    Ok(rest) => {
                        assert(crate::semantics::exprs_view(out_pre) + (seq![kv] + rest)
                            =~= crate::semantics::exprs_view(out@) + rest);
                    },
                    Err(_) => {},
                }
            }
            i = i + 1;
        }
    }
    proof {
        assert(s.skip(n as int) =~= Seq::<Val>::empty());
        assert(crate::semantics::exprs_view(out@) + Seq::<Val>::empty()
            =~= crate::semantics::exprs_view(out@));
    }
    Ok(out)
}

/// The space-separated renderings of the elements of a list.
fn render_elements(items: &[Expression]) -> (r: String)
    ensures
        r@ == crate::semantics::render_items(crate::semantics::exprs_view(items@)),
    decreases items@,
{
    broadcast use crate::semantics::view_axioms;

    let ghost s = crate::semantics::exprs_view(items@);
    if items.len() == 0 {
        let r = String::new();
        proof {
            assert(r@ =~= crate::semantics::render_items(s));
        }
        r
    } else {
        proof {
            assert(s[0] == items@[0]@);
        }
        let mut r = items[0].render();
        if items.len() > 1 {
            let rest = vstd::slice::slice_subrange(items, 1, items.len());
            proof {
                assert(crate::semantics::exprs_view(rest@) =~= s.skip(1));
            }
            let tail = render_elements(rest);
            r.append(" ");
            r.append(tail.as_str());
            proof {
                reveal_strlit(" ");
                assert(r@ =~= crate::semantics::render_val(s[0]) + seq![' ']
                    + crate::semantics::render_items(s.skip(1)));
            }
        }
        r
    }
}

/// The space-separated names of a parameter list.
fn render_parameters(names: &[Symbol]) -> (r: String)
    ensures
        r@ == crate::semantics::render_names(crate::semantics::params_view(names@)),
    decreases names@.len(),
{
    let ghost s = crate::semantics::params_view(names@);
    if names.len() == 0 {
        let r = String::new();
        proof {
            assert(r@ =~= crate::semantics::render_names(s));
        }
        r
    } else {
        let mut r = names[0].0.clone();
        if names.len() > 1 {
            let rest = vstd::slice::slice_subrange(names, 1, names.len());
            proof {
                assert(crate::semantics::params_view(rest@) =~= s.skip(1));
            }
            let tail = render_parameters(rest);
            r.append(" ");
            r.append(tail.as_str());
            proof {
                reveal_strlit(" ");
                assert(r@ =~= s[0] + seq![' '] + crate::semantics::render_names(s.skip(1)));
            }
        }
        r
    }
}

impl Expression {
    /// The plain text of this expression: what [`Expression::parse`] of the
    /// rendering of a symbol, number or list gives back.
    pub fn render(&self) -> (r: String)
        ensures
            r@ == crate::semantics::render_val(self@),
        decreases self,
    {
        match self {
            Expression::Symbol(s) => s.0.clone(),
            Expression::Number(n) => i64_to_string(n.0),
            Expression::List(l) => {
                let mut r = String::from_str("(");
                let inner = render_elements(l.0.as_slice());
                r.append(inner.as_str());
                r.append(")");
                proof {
                    reveal_strlit("(");
                    reveal_strlit(")");
                    assert(r@ =~= seq!['('] + crate::semantics::render_items(
                        crate::semantics::exprs_view(l.0@),
                    ) + seq![')']);
                }
                r
            },
            Expression::BuiltinFunction(b) => {
                let mut r = String::from_str("\u{ab}builtin function ");
                r.append(b.name);
                r.append("\u{bb}");
                proof {
                    assert(r@ =~= "\u{ab}builtin function "@ + b.name@ + "\u{bb}"@);
                }
                r
            },
            Expression::BuiltinMacro(b) => {
                let mut r = String::from_str("\u{ab}builtin macro ");
                r.append(b.name);
                r.append("\u{bb}");
                proof {
                    assert(r@ =~= "\u{ab}builtin macro "@ + b.name@ + "\u{bb}"@);
                }
                r
            },
            Expression::Lambda(lm) => {
                let mut r = String::from_str("\u{3bb} (");
                let names = render_parameters(lm.parameters.as_slice());
                r.append(names.as_str());
                r.append(") ");
                let body = (*lm.value).render();
                r.append(body.as_str());
                proof {
                    assert(r@ =~= "\u{3bb} ("@ + crate::semantics::render_names(
                        crate::semantics::params_view(lm.parameters@),
                    ) + ") "@ + crate::semantics::render_val(lm.value@));
                }
                r
            },
            Expression::Macro(mc) => {
                let mut r = String::from_str("\u{3bc} (");
                let names = render_parameters(mc.parameters.as_slice());
                r.append(names.as_str());
                r.append(") ");
                let body = (*mc.value).render();
                r.append(body.as_str());
                proof {
                    assert(r@ =~= "\u{3bc} ("@ + crate::semantics::render_names(
                        crate::semantics::params_view(mc.parameters@),
                    ) + ") "@ + crate::semantics::render_val(mc.value@));
                }
                r
            },
        }
    }
}

impl PartialEq for Expression {
    fn eq(&self, other: &Self) -> (r: bool) {
        expr_eq(self, other)
    }
}

impl vstd::std_specs::cmp::PartialEqSpecImpl for Expression {
    open spec fn obeys_eq_spec() -> bool {
        true
    }

    open spec fn eq_spec(&self, other: &Self) -> bool {
        crate::semantics::val_eq(self@, other@)
    }
}

impl From<Symbol> for Expression {
    fn from(value: Symbol) -> (r: Self) {
        Expression::Symbol(value)
    }
}

impl vstd::std_specs::convert::FromSpecImpl<Symbol> for Expression {
    open spec fn obeys_from_spec() -> bool {
        true
    }

    open spec fn from_spec(value: Symbol) -> Self {
        Expression::Symbol(value)
    }
}

impl From<Number> for Expression {
    fn from(value: Number) -> (r: Self) {
        Expression::Number(value)
    }
}

impl vstd::std_specs::convert::FromSpecImpl<Number> for Expression {
    open spec fn obeys_from_spec() -> bool {
        true
    }

    open spec fn from_spec(value: Number) -> Self {
        Expression::Number(value)
    }
}

impl From<List> for Expression {
    fn from(value: List) -> (r: Self) {
        Expression::List(value)
    }
}

impl vstd::std_specs::convert::FromSpecImpl<List> for Expression {
    open spec fn obeys_from_spec() -> bool {
        true
    }

    open spec fn from_spec(value: List) -> Self {
        Expression::List(value)
    }
}

impl From<BuiltinFunction> for Expression {
    fn from(value: BuiltinFunction) -> (r: Self) {
        Expression::BuiltinFunction(value)
    }
}

impl vstd::std_specs::convert::FromSpecImpl<BuiltinFunction> for Expression {
    open spec fn obeys_from_spec() -> bool {
        true
    }

    open spec fn from_spec(value: BuiltinFunction) -> Self {
        Expression::BuiltinFunction(value)
    }
}

impl From<BuiltinMacro> for Expression {
    fn from(value: BuiltinMacro) -> (r: Self) {
        Expression::BuiltinMacro(value)
    }
}

impl vstd::std_specs::convert::FromSpecImpl<BuiltinMacro> for Expression {
    open spec fn obeys_from_spec() -> bool {
        true
    }

    open spec fn from_spec(value: BuiltinMacro) -> Self {
        Expression::BuiltinMacro(value)
    }
}

impl From<Lambda> for Expression {
    fn from(value: Lambda) -> (r: Self) {
        Expression::Lambda(value)
    }
}

impl vstd::std_specs::convert::FromSpecImpl<Lambda> for Expression {
    open spec fn obeys_from_spec() -> bool {
        true
    }

    open spec fn from_spec(value: Lambda) -> Self {
        Expression::Lambda(value)
    }
}

impl From<Macro> for Expression {
    fn from(value: Macro) -> (r: Self) {
        Expression::Macro(value)
    }
}

impl vstd::std_specs::convert::FromSpecImpl<Macro> for Expression {
    open spec fn obeys_from_spec() -> bool {
        true
    }

    open spec fn from_spec(value: Macro) -> Self {
        Expression::Macro(value)
    }
}

/// The shared capability of carrying an atom kind in and out of an
/// expression: every atom kind converts in with `from`, and a reference to
/// it converts back out when the expression holds that kind.
pub trait ToAndFrom<T>: From<T> {
    /// A reference to the carried atom of this kind, or a type error
    /// naming the kind found instead.
    fn try_into_atom<'a>(&'a self) -> Result<&'a T, TypeError>;
}

impl ToAndFrom<Symbol> for Expression {
    fn try_into_atom<'a>(&'a self) -> Result<&'a Symbol, TypeError> {
        self.as_symbol()
    }
}

impl ToAndFrom<Number> for Expression {
    fn try_into_atom<'a>(&'a self) -> Result<&'a Number, TypeError> {
        self.as_number()
    }
}

impl ToAndFrom<List> for Expression {
    fn try_into_atom<'a>(&'a self) -> Result<&'a List, TypeError> {
        self.as_list()
    }
}

impl ToAndFrom<Lambda> for Expression {
    fn try_into_atom<'a>(&'a self) -> Result<&'a Lambda, TypeError> {
        match self {
            Expression::Lambda(lm) => Ok(lm),
            _ => Err(TypeError { expected: "lambda", got: self.variant() }),
        }
    }
}

impl ToAndFrom<Macro> for Expression {
    fn try_into_atom<'a>(&'a self) -> Result<&'a Macro, TypeError> {
        match self {
            Expression::Macro(mc) => Ok(mc),
            _ => Err(TypeError { expected: "macro", got: self.variant() }),
        }
    }
}

impl ToAndFrom<BuiltinFunction> for Expression {
    fn try_into_atom<'a>(&'a self) -> Result<&'a BuiltinFunction, TypeError> {
        match self {
            Expression::BuiltinFunction(b) => Ok(b),
            _ => Err(TypeError { expected: "builtin function", got: self.variant() }),
        }
    }
}

impl ToAndFrom<BuiltinMacro> for Expression {
    fn try_into_atom<'a>(&'a self) -> Result<&'a BuiltinMacro, TypeError> {
        match self {
            Expression::BuiltinMacro(b) => Ok(b),
            _ => Err(TypeError { expected: "builtin macro", got: self.variant() }),
        }
    }
}

} // verus!
