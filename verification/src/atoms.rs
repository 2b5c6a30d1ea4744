//! The atom kinds: each variant of an [`Expression`](crate::expression::Expression)
//! is a struct here, sharing the small [`Atom`] capability contract.

use vstd::prelude::*;

use crate::environment::Environment;
use crate::expression::Expression;
use crate::token::Token;

verus! {

/// The capability every atom kind shares: a fixed label naming the kind,
/// used in diagnostics and type-mismatch errors.
pub trait Atom {
    /// The fixed label of this atom's kind.
    fn name(&self) -> &'static str;
}

/// A name, compared by its text.
#[derive(Debug)]
pub struct Symbol(pub String);

impl View for Symbol {
    type V = Seq<char>;

    open spec fn view(&self) -> Seq<char> {
        self.0@
    }
}

impl Symbol {
    /// The length of the symbol's name, in characters.
    pub fn len(&self) -> (r: usize)
        ensures
            r == self@.len(),
    {
        self.0.as_str().unicode_len()
    }

    /// Whether the symbol's name is empty.
    pub fn is_empty(&self) -> (r: bool)
        ensures
            r == (self@.len() == 0),
    {
        self.0.as_str().unicode_len() == 0
    }
}

impl Clone for Symbol {
    fn clone(&self) -> (r: Self)
        ensures
            r@ == self@,
    {
        Symbol(self.0.clone())
    }
}

impl Symbol {
    /// The symbol a raw token stands for: symbols accept any token text.
    pub fn parse_from_token(token: &Token) -> (r: Option<Symbol>)
        ensures
            r is Some,
            r->0@ == token.value@,
    {
        Some(Symbol(token.value.clone()))
    }
}

impl Atom for Symbol {
    fn name(&self) -> &'static str {
        "symbol"
    }
}

/// A number; the numeric atoms of this language are 64-bit signed integers.
#[derive(Debug)]
pub struct Number(pub i64);

impl View for Number {
    type V = int;

    open spec fn view(&self) -> int {
        self.0 as int
    }
}

impl Clone for Number {
    fn clone(&self) -> (r: Self)
        ensures
            r@ == self@,
    {
        Number(self.0)
    }
}

impl Copy for Number {

}

impl Atom for Number {
    fn name(&self) -> &'static str {
        "number"
    }
}

/// Every character of the text is a decimal digit.
pub open spec fn all_digits(t: Seq<char>) -> bool {
    forall|i: int| 0 <= i < t.len() ==> 48 <= (#[trigger] t[i]) as int <= 57
}

/// The numeric value of a run of decimal digits.
pub open spec fn digits_val(t: Seq<char>) -> int
    decreases t.len(),
{
    if t.len() == 0 {
        0
    } else {
        digits_val(t.drop_last()) * 10 + (t.last() as int - 48)
    }
}

/// What a token's text stands for as a number: a run of digits with an
/// optional leading minus sign, as long as the value fits in 64 signed
/// bits.
pub open spec fn parse_int_spec(t: Seq<char>) -> Option<int> {
    if t.len() > 0 && all_digits(t) {
        if digits_val(t) <= i64::MAX {
            Some(digits_val(t))
        } else {
            None
        }
    } else if t.len() > 1 && t[0] == '-' && all_digits(t.skip(1)) {
        if -digits_val(t.skip(1)) >= i64::MIN {
            Some(-digits_val(t.skip(1)))
        } else {
            None
        }
    } else {
        None
    }
}

/// The value of a digit run is never negative.
pub proof fn lemma_digits_val_nonneg(t: Seq<char>)
    requires
        all_digits(t),
    ensures
        digits_val(t) >= 0,
    decreases t.len(),
{
    if t.len() > 0 {
        assert(all_digits(t.drop_last())) by {
            assert(forall|i: int|
                0 <= i < t.len() - 1 ==> t.drop_last()[i] == #[trigger] t[i]);
        }
        lemma_digits_val_nonneg(t.drop_last());
    }
}

/// Extending a digit run to the right never shrinks its value.
pub proof fn lemma_digits_val_mono(t: Seq<char>, k: int)
    requires
        all_digits(t),
        0 <= k <= t.len(),
    ensures
        digits_val(t) >= digits_val(t.take(k)),
    decreases t.len() - k,
{
    if k < t.len() {
        assert(all_digits(t.take(k))) by {
            assert(forall|i: int| 0 <= i < k ==> t.take(k)[i] == #[trigger] t[i]);
        }
        lemma_digits_val_nonneg(t.take(k));
        assert(t.take(k + 1).drop_last() =~= t.take(k));
        assert(t.take(k + 1).last() == t[k]);
        assert(digits_val(t.take(k + 1)) >= digits_val(t.take(k)));
        lemma_digits_val_mono(t, k + 1);
        assert(t.take(t.len() as int) =~= t);
    } else {
        assert(t.take(k) =~= t);
    }
}

impl Number {
    /// The number a raw token stands for, when its text is a decimal
    /// integer in range.
    pub fn parse_from_token(token: &Token) -> (r: Option<Number>)
        ensures
            match r {
                Some(n) => parse_int_spec(token.value@) == Some(n@),
                None => parse_int_spec(token.value@) is None,
            },
    {
        let t = token.value.as_str();
        let ghost tv = token.value@;
        let len = t.unicode_len();
        if len == 0 {
            return None;
        }
        let negative = t.get_char(0) == '-';
        let start: usize = if negative {
            1
        } else {
            0
        };
        if negative && len == 1 {
            return None;
        }
        let ghost digits = if negative {
            tv.skip(1)
        } else {
            tv
        };
        proof {
            if negative {
                assert(forall|i: int| 0 <= i < digits.len() ==> digits[i] == tv[i + 1]);
            }
        }
        // The value accumulates negated, so that the least 64-bit number
        // parses without an intermediate overflow.
        let mut acc: i64 = 0;
        let mut k: usize = start;
        while k < len
            invariant
                t@ == tv,
                tv == token.value@,
                len == tv.len(),
                negative ==> start == 1 && tv[0] == '-' && digits =~= tv.skip(1),
                !negative ==> start == 0 && tv[0] != '-' && digits =~= tv,
                start <= k <= len,
                digits.len() == len - start,
                forall|i: int| 0 <= i < k - start ==> 48 <= (#[trigger] digits[i]) as int <= 57,
                acc == -digits_val(digits.take(k - start)),
                acc <= 0,
            decreases len - k,
        {
            let c = t.get_char(k);
            let d = c as u32;
            if d < 48 || d > 57 {
                proof {
                    assert(digits[k - start] == tv[k as int]);
                    assert(!all_digits(tv));
                    assert(!all_digits(digits));
                    assert(parse_int_spec(tv) is None);
                }
                return None;
            }
            let step = match acc.checked_mul(10) {
                Some(step) => step,
                None => {
                    proof {
                        lemma_overflow_means_out_of_range(digits, k - start, tv, negative);
                        assert(parse_int_spec(tv) is None);
                    }
                    return None;
                },
            };
            let step = match step.checked_sub((d - 48) as i64) {
                Some(step) => step,
                None => {
                    proof {
                        lemma_overflow_means_out_of_range(digits, k - start, tv, negative);
                        assert(parse_int_spec(tv) is None);
                    }
                    return None;
                },
            };
            proof {
                assert(digits.take(k - start + 1).drop_last() =~= digits.take(k - start));
                assert(digits.take(k - start + 1).last() == digits[k - start]);
                assert(digits[k - start] == tv[k as int]);
            }
            acc = step;
            k = k + 1;
        }
        proof {
            assert(digits.take(len - start) =~= digits);
            assert(all_digits(digits));
        }
        if negative {
            proof {
                assert(('-' as int) < 48);
                assert(!all_digits(tv));
            }
            Some(Number(acc))
        } else {
            if acc == i64::MIN {
                proof {
                    assert(digits_val(digits) > i64::MAX);
                }
                return None;
            }
            Some(Number(-acc))
        }
    }
}

/// When the negated accumulator leaves the 64-bit range at some digit, the
/// whole run's value is out of range on the side being built.
proof fn lemma_overflow_means_out_of_range(
    digits: Seq<char>,
    k: int,
    tv: Seq<char>,
    negative: bool,
)
    requires
        0 <= k < digits.len(),
        forall|i: int| 0 <= i < k ==> 48 <= (#[trigger] digits[i]) as int <= 57,
        48 <= digits[k] as int <= 57,
        -digits_val(digits.take(k)) * 10 - (digits[k] as int - 48) < i64::MIN,
        negative ==> digits =~= tv.skip(1) && tv.len() > 1 && tv[0] == '-',
        !negative ==> digits =~= tv,
    ensures
        parse_int_spec(tv) is None,
{
    if all_digits(digits) {
        assert(digits.take(k + 1).drop_last() =~= digits.take(k));
        assert(digits.take(k + 1).last() == digits[k]);
        assert(digits_val(digits.take(k + 1)) > -(i64::MIN as int));
        lemma_digits_val_mono(digits, k + 1);
        assert(digits_val(digits) > -(i64::MIN as int));
        if negative {
            assert(!all_digits(tv));
        } else {
            assert(digits_val(tv) > i64::MAX);
        }
    } else {
        if negative {
            assert(!all_digits(tv)) by {
                assert(tv[0] as int == '-' as int);
                assert(('-' as int) < 48);
            }
        }
    }
}

/// An ordered, possibly heterogeneous sequence of expressions.
#[derive(Debug)]
pub struct List(pub Vec<Expression>);

impl View for List {
    type V = crate::semantics::Val;

    open spec fn view(&self) -> crate::semantics::Val {
        crate::semantics::Val::List { items: crate::semantics::exprs_view(self.0@) }
    }
}

impl Clone for List {
    fn clone(&self) -> (r: Self)
        ensures
            r@ == self@,
        decreases self,
    {
        let v2 = crate::expression::clone_expressions(self.0.as_slice());
        proof {
            broadcast use crate::semantics::view_axioms;

            assert forall|i: int| 0 <= i < self.0@.len() implies crate::semantics::exprs_view(
                v2@,
            )[i] == crate::semantics::exprs_view(self.0@)[i] by {}
            assert(crate::semantics::exprs_view(v2@) =~= crate::semantics::exprs_view(self.0@));
        }
        List(v2)
    }
}

impl Atom for List {
    fn name(&self) -> &'static str {
        "list"
    }
}

impl List {
    /// Calls this list as an operator: it indexes itself by its single
    /// unevaluated argument, which must be a number inside the range.
    pub fn call(&self, arguments: &[Expression], env: &mut Environment) -> (r: Result<
        Expression,
        crate::errors::Error,
    >)
        ensures
            ({
                let s = crate::semantics::list_index_spec(
                    crate::semantics::exprs_view(self.0@),
                    crate::semantics::exprs_view(arguments@),
                    old(env)@,
                );
                &&& final(env)@ == s.env
                &&& match r {
                    Ok(v) => s.outcome == Ok::<crate::semantics::Val, crate::semantics::Fault>(v@),
                    Err(e) => s.outcome == Err::<crate::semantics::Val, crate::semantics::Fault>(
                        e@,
                    ),
                }
            }),
    {
        broadcast use crate::semantics::view_axioms;

        if arguments.len() != 1 {
            return Err(crate::errors::Error::new(crate::errors::ErrorKind::IndexArity));
        }
        proof {
            assert(crate::semantics::exprs_view(arguments@)[0] == arguments@[0]@);
        }
        match &arguments[0] {
            Expression::Number(number) => {
                let index = number.0;
                if index < 0 || index as u64 >= self.0.len() as u64 {
                    return Err(
                        crate::errors::Error::new(
                            crate::errors::ErrorKind::IndexRange(self.0.len(), index),
                        ),
                    );
                }
                let element = self.0[index as usize].clone();
                proof {
                    let ghost k: int = index as int;
                    assert(crate::semantics::exprs_view(self.0@)[k] == self.0@[k]@);
                }
                Ok(element)
            },
            other => Err(
                crate::errors::Error::new(crate::errors::ErrorKind::IndexType(other.variant())),
            ),
        }
    }
}

/// The operation a [`BuiltinFunction`] performs once its arguments are
/// evaluated.
#[derive(Clone, Copy, PartialEq, Eq, Structural, Debug)]
pub enum Op {
    /// Truthy iff the numeric arguments are non-decreasing.
    Le,
    /// Sum of the numeric arguments.
    Add,
    /// First numeric argument minus the sum of the rest.
    Sub,
    /// Product of the numeric arguments.
    Mul,
    /// First numeric argument divided by the product of the rest.
    Div,
    /// Truthy iff all arguments are equal pairwise in sequence.
    Eq,
    /// Collects the arguments into a list.
    ListOf,
    /// Binds a symbol in the caller's environment.
    Define,
}

/// The operation a [`BuiltinMacro`] performs on its unevaluated arguments.
#[derive(Clone, Copy, PartialEq, Eq, Structural, Debug)]
pub enum MacroOp {
    /// Returns its single argument unevaluated.
    Quote,
    /// Builds a [`Lambda`] closing over the caller's environment.
    LambdaOf,
    /// Builds a [`Macro`] closing over the caller's environment.
    MacroOf,
    /// Evaluates conditions left to right and picks the first truthy pair.
    Cond,
}

/// A native function: its arguments are evaluated eagerly, left to right,
/// before the operation runs.
#[derive(Debug)]
pub struct BuiltinFunction {
    /// The name the function is bound under; builtins compare by name.
    pub name: &'static str,
    /// What the function computes.
    pub op: Op,
    /// Whether the calling convention demands exactly one argument.
    pub single: bool,
}

impl Clone for BuiltinFunction {
    fn clone(&self) -> (r: Self)
        ensures
            r == *self,
    {
        BuiltinFunction { name: self.name, op: self.op, single: self.single }
    }
}

impl Copy for BuiltinFunction {

}

impl Atom for BuiltinFunction {
    fn name(&self) -> &'static str {
        "builtin function"
    }
}

impl View for BuiltinFunction {
    type V = crate::semantics::Val;

    open spec fn view(&self) -> crate::semantics::Val {
        crate::semantics::Val::BuiltinFunction { name: self.name@, op: self.op, single: self.single }
    }
}

impl BuiltinFunction {
    /// Calls this builtin as a function: the arguments are evaluated
    /// eagerly, left to right, in the caller's environment, and the
    /// operation then runs on the values.
    pub fn call(&self, arguments: &[Expression], env: &mut Environment, fuel: u64) -> (r: Result<
        Expression,
        crate::errors::Error,
    >)
        ensures
            ({
                let s = crate::semantics::apply_spec(
                    self@,
                    crate::semantics::exprs_view(arguments@),
                    old(env)@,
                    fuel as nat,
                );
                &&& final(env)@ == s.env
                &&& match r {
                    Ok(v) => s.outcome == Ok::<crate::semantics::Val, crate::semantics::Fault>(v@),
                    Err(e) => s.outcome == Err::<crate::semantics::Val, crate::semantics::Fault>(
                        e@,
                    ),
                }
            }),
        decreases fuel, 1int,
    {
        broadcast use crate::semantics::view_axioms;

        if fuel == 0 {
            return Err(crate::errors::Error::new(crate::errors::ErrorKind::OutOfFuel));
        }
        let values = match crate::expression::eval_arguments(arguments, env, fuel - 1) {
            Ok(values) => values,
            Err(e) => {
                return Err(
                    e.framed(String::from_str("could not evaluate the arguments of a builtin")),
                );
            },
        };
        proof {
            assert(crate::semantics::exprs_view(values@).len() == values@.len());
        }
        if self.single && values.len() != 1 {
            return Err(
                crate::errors::Error::new(crate::errors::ErrorKind::SingleArgument(self.name)),
            );
        }
        match self.op {
            Op::Le => crate::builtins::le(values.as_slice(), env),
            Op::Add => crate::builtins::add(values.as_slice(), env),
            Op::Sub => crate::builtins::sub(values.as_slice(), env),
            Op::Mul => crate::builtins::mul(values.as_slice(), env),
            Op::Div => crate::builtins::div(values.as_slice(), env),
            Op::Eq => crate::builtins::eq(values.as_slice(), env),
            Op::ListOf => crate::builtins::list(values.as_slice(), env),
            Op::Define => crate::builtins::define(values.as_slice(), env),
        }
    }
}

impl BuiltinFunction {
    /// Builds a builtin function value under the given name.
    pub fn new(name: &'static str, op: Op) -> (r: Self)
        ensures
            r.name == name,
            r.op == op,
            !r.single,
    {
        BuiltinFunction { name, op, single: false }
    }

    /// Builds a builtin function value whose calling convention demands a
    /// single argument: a call with any other argument count fails before the
    /// operation runs.
    pub fn new_wrapped(name: &'static str, op: Op) -> (r: Self)
        ensures
            r.name == name,
            r.op == op,
            r.single,
    {
        BuiltinFunction { name, op, single: true }
    }
}

/// A native macro: its arguments reach the operation unevaluated, and the
/// operation decides what to evaluate and in which environment.
#[derive(Debug)]
pub struct BuiltinMacro {
    /// The name the macro is bound under; builtins compare by name.
    pub name: &'static str,
    /// What the macro does.
    pub op: MacroOp,
}

impl Clone for BuiltinMacro {
    fn clone(&self) -> (r: Self)
        ensures
            r == *self,
    {
        BuiltinMacro { name: self.name, op: self.op }
    }
}

impl Copy for BuiltinMacro {

}

impl Atom for BuiltinMacro {
    fn name(&self) -> &'static str {
        "builtin macro"
    }
}

impl View for BuiltinMacro {
    type V = crate::semantics::Val;

    open spec fn view(&self) -> crate::semantics::Val {
        crate::semantics::Val::BuiltinMacro { name: self.name@, op: self.op }
    }
}

impl BuiltinMacro {
    /// Calls this builtin as a macro: the argument expressions reach the
    /// operation unevaluated, and the operation decides what to evaluate
    /// and in which environment.
    pub fn call(&self, arguments: &[Expression], env: &mut Environment, fuel: u64) -> (r: Result<
        Expression,
        crate::errors::Error,
    >)
        ensures
            ({
                let s = crate::semantics::apply_spec(
                    self@,
                    crate::semantics::exprs_view(arguments@),
                    old(env)@,
                    fuel as nat,
                );
                &&& final(env)@ == s.env
                &&& match r {
                    Ok(v) => s.outcome == Ok::<crate::semantics::Val, crate::semantics::Fault>(v@),
                    Err(e) => s.outcome == Err::<crate::semantics::Val, crate::semantics::Fault>(
                        e@,
                    ),
                }
            }),
        decreases fuel, 1int,
    {
        if fuel == 0 {
            return Err(crate::errors::Error::new(crate::errors::ErrorKind::OutOfFuel));
        }
        match self.op {
            MacroOp::Quote => crate::builtins::quote(arguments, env),
            MacroOp::LambdaOf => crate::builtins::lambda(arguments, env),
            MacroOp::MacroOf => crate::builtins::macr(arguments, env),
            MacroOp::Cond => crate::builtins::cond(arguments, env, fuel - 1),
        }
    }
}

impl BuiltinMacro {
    /// Builds a builtin macro value under the given name.
    pub fn new(name: &'static str, op: MacroOp) -> (r: Self)
        ensures
            r.name == name,
            r.op == op,
    {
        BuiltinMacro { name, op }
    }
}

/// A user-defined function: parameters, a body, and a private snapshot of the
/// environment that was active when it was built.
#[derive(Debug)]
pub struct Lambda {
    /// The parameter names, in binding order.
    pub parameters: Vec<Symbol>,
    /// The body evaluated once the parameters are saturated.
    pub value: Box<Expression>,
    /// The captured environment snapshot.
    pub env: Environment,
}

impl Clone for Lambda {
    fn clone(&self) -> (r: Self)
        ensures
            r@ == self@,
        decreases self,
    {
        let r = Lambda {
            parameters: crate::expression::clone_symbols(self.parameters.as_slice()),
            value: Box::new((*self.value).clone()),
            env: self.env.duplicate(),
        };
        proof {
            broadcast use crate::semantics::view_axioms;
            assert(r@ =~~= self@);
        }
        r
    }
}

impl View for Lambda {
    type V = crate::semantics::Val;

    open spec fn view(&self) -> crate::semantics::Val {
        crate::semantics::Val::Lambda {
            params: crate::semantics::params_view(self.parameters@),
            body: Box::new(crate::semantics::expr_view(*self.value)),
            env: crate::semantics::env_view(self.env.entries@),
        }
    }
}

impl Atom for Lambda {
    fn name(&self) -> &'static str {
        "lambda"
    }
}

/// A user-defined macro: shaped as a [`Lambda`], but its arguments are bound
/// unevaluated and its result is evaluated a second time at the call site.
#[derive(Debug)]
pub struct Macro {
    /// The parameter names, in binding order.
    pub parameters: Vec<Symbol>,
    /// The body whose evaluation yields the expansion.
    pub value: Box<Expression>,
    /// The captured environment snapshot.
    pub env: Environment,
}

impl Clone for Macro {
    fn clone(&self) -> (r: Self)
        ensures
            r@ == self@,
        decreases self,
    {
        let r = Macro {
            parameters: crate::expression::clone_symbols(self.parameters.as_slice()),
            value: Box::new((*self.value).clone()),
            env: self.env.duplicate(),
        };
        proof {
            broadcast use crate::semantics::view_axioms;
            assert(r@ =~~= self@);
        }
        r
    }
}

impl View for Macro {
    type V = crate::semantics::Val;

    open spec fn view(&self) -> crate::semantics::Val {
        crate::semantics::Val::Macro {
            params: crate::semantics::params_view(self.parameters@),
            body: Box::new(crate::semantics::expr_view(*self.value)),
            env: crate::semantics::env_view(self.env.entries@),
        }
    }
}

impl Atom for Macro {
    fn name(&self) -> &'static str {
        "macro"
    }
}

/// Binds the values to the matching parameters, left to right, in place.
fn bind_into(env: &mut Environment, parameters: &Vec<Symbol>, values: &[Expression])
    requires
        values@.len() <= parameters@.len(),
    ensures
        final(env)@ == crate::semantics::bind_params(
            old(env)@,
            crate::semantics::params_view(parameters@),
            crate::semantics::exprs_view(values@),
        ),
{
    broadcast use crate::semantics::view_axioms;

    let ghost clo = env@;
    let ghost pv = crate::semantics::params_view(parameters@);
    let ghost vv = crate::semantics::exprs_view(values@);
    let n = values.len();
    let mut k: usize = 0;
    proof {
        assert(vv.take(0) =~= Seq::<crate::semantics::Val>::empty());
    }
    while k < n
        invariant
            n == values@.len(),
            n <= parameters@.len(),
            pv == crate::semantics::params_view(parameters@),
            vv == crate::semantics::exprs_view(values@),
            vv.len() == n,
            k <= n,
            env@ == crate::semantics::bind_params(clo, pv, vv.take(k as int)),
        decreases n - k,
    {
        proof {
            broadcast use crate::semantics::view_axioms;

            assert(vv[k as int] == values@[k as int]@);
            assert(pv[k as int] == parameters@[k as int]@);
            assert(vv.take(k as int + 1).drop_last() =~= vv.take(k as int));
            assert(vv.take(k as int + 1).last() == vv[k as int]);
        }
        env.set(parameters[k].clone(), values[k].clone());
        k = k + 1;
    }
    proof {
        assert(vv.take(n as int) =~= vv);
    }
}

impl Lambda {
    /// Calls this lambda: the arguments are evaluated eagerly in the
    /// caller's environment; more arguments than parameters is an error,
    /// fewer yield a curried lambda, and exactly enough evaluate the body
    /// in a private copy of the captured scope.
    pub fn call(&self, arguments: &[Expression], env: &mut Environment, fuel: u64) -> (r: Result<
        Expression,
        crate::errors::Error,
    >)
        ensures
            ({
                let s = crate::semantics::apply_spec(
                    self@,
                    crate::semantics::exprs_view(arguments@),
                    old(env)@,
                    fuel as nat,
                );
                &&& final(env)@ == s.env
                &&& match r {
                    Ok(v) => s.outcome == Ok::<crate::semantics::Val, crate::semantics::Fault>(v@),
                    Err(e) => s.outcome == Err::<crate::semantics::Val, crate::semantics::Fault>(
                        e@,
                    ),
                }
            }),
        decreases fuel, 1int,
    {
        broadcast use crate::semantics::view_axioms;

        if fuel == 0 {
            return Err(crate::errors::Error::new(crate::errors::ErrorKind::OutOfFuel));
        }
        let values = match crate::expression::eval_arguments(arguments, env, fuel - 1) {
            Ok(values) => values,
            Err(e) => {
                return Err(
                    e.framed(String::from_str("could not evaluate the arguments of a lambda")),
                );
            },
        };
        proof {
            assert(crate::semantics::exprs_view(values@).len() == values@.len());
        }
        if values.len() > self.parameters.len() {
            return Err(crate::errors::Error::new(crate::errors::ErrorKind::TooManyArguments));
        }
        let mut captured = self.env.duplicate();
        bind_into(&mut captured, &self.parameters, values.as_slice());
        if values.len() < self.parameters.len() {
            let remaining = vstd::slice::slice_subrange(
                self.parameters.as_slice(),
                values.len(),
                self.parameters.len(),
            );
            let r = Expression::Lambda(
                Lambda {
                    parameters: crate::expression::clone_symbols(remaining),
                    value: Box::new((*self.value).clone()),
                    env: captured,
                },
            );
            proof {
                assert(crate::semantics::params_view(remaining@) =~= crate::semantics::params_view(
                    self.parameters@,
                ).skip(values@.len() as int));
                assert(r@ =~~= (crate::semantics::Val::Lambda {
                    params: crate::semantics::params_view(self.parameters@).skip(
                        values@.len() as int,
                    ),
                    body: Box::new(crate::semantics::expr_view(*self.value)),
                    env: crate::semantics::bind_params(
                        crate::semantics::env_view(self.env.entries@),
                        crate::semantics::params_view(self.parameters@),
                        crate::semantics::exprs_view(values@),
                    ),
                }));
            }
            Ok(r)
        } else {
            self.value.eval(&mut captured, fuel - 1)
        }
    }
}

impl Macro {
    /// Calls this macro: the arguments are bound unevaluated; more of them
    /// than parameters is an error, fewer yield a curried macro, and
    /// exactly enough evaluate the body in a private copy of the captured
    /// scope, whose result is then evaluated again in the caller's
    /// environment.
    pub fn call(&self, arguments: &[Expression], env: &mut Environment, fuel: u64) -> (r: Result<
        Expression,
        crate::errors::Error,
    >)
        ensures
            ({
                let s = crate::semantics::apply_spec(
                    self@,
                    crate::semantics::exprs_view(arguments@),
                    old(env)@,
                    fuel as nat,
                );
                &&& final(env)@ == s.env
                &&& match r {
                    Ok(v) => s.outcome == Ok::<crate::semantics::Val, crate::semantics::Fault>(v@),
                    Err(e) => s.outcome == Err::<crate::semantics::Val, crate::semantics::Fault>(
                        e@,
                    ),
                }
            }),
        decreases fuel, 1int,
    {
        broadcast use crate::semantics::view_axioms;

        if fuel == 0 {
            return Err(crate::errors::Error::new(crate::errors::ErrorKind::OutOfFuel));
        }
        proof {
            assert(crate::semantics::exprs_view(arguments@).len() == arguments@.len());
        }
        if arguments.len() > self.parameters.len() {
            return Err(crate::errors::Error::new(crate::errors::ErrorKind::TooManyArguments));
        }
        let mut captured = self.env.duplicate();
        bind_into(&mut captured, &self.parameters, arguments);
        if arguments.len() < self.parameters.len() {
            let remaining = vstd::slice::slice_subrange(
                self.parameters.as_slice(),
                arguments.len(),
                self.parameters.len(),
            );
            let r = Expression::Macro(
                Macro {
                    parameters: crate::expression::clone_symbols(remaining),
                    value: Box::new((*self.value).clone()),
                    env: captured,
                },
            );
            proof {
                assert(crate::semantics::params_view(remaining@) =~= crate::semantics::params_view(
                    self.parameters@,
                ).skip(arguments@.len() as int));
                assert(r@ =~~= (crate::semantics::Val::Macro {
                    params: crate::semantics::params_view(self.parameters@).skip(
                        arguments@.len() as int,
                    ),
                    body: Box::new(crate::semantics::expr_view(*self.value)),
                    env: crate::semantics::bind_params(
                        crate::semantics::env_view(self.env.entries@),
                        crate::semantics::params_view(self.parameters@),
                        crate::semantics::exprs_view(arguments@),
                    ),
                }));
            }
            Ok(r)
        } else {
            let expansion = match self.value.eval(&mut captured, fuel - 1) {
                Ok(expansion) => expansion,
                Err(e) => {
                    return Err(e.framed(String::from_str("could not expand the macro")));
                },
            };
            expansion.eval(env, fuel - 1)
        }
    }
}

} // verus!
