//! The standard builtin bindings: the concrete functions and macros behind
//! the operation tags, and the registry that installs them into a root
//! environment.

use vstd::prelude::*;

use crate::atoms::{BuiltinFunction, BuiltinMacro, Lambda, List, Macro, MacroOp, Number, Op, Symbol};
use crate::environment::Environment;
use crate::errors::{Error, ErrorKind, TypeError};
use crate::expression::{expr_eq, u64_to_string, Expression};
use crate::semantics::{
    add_spec, cond_spec, define_spec, div_spec, div_trunc, eq_spec, exprs_view, int_abs, ints_view,
    le_spec, lambda_spec, list_spec, macro_spec, mul_spec, nums_of, quote_spec, sub_spec, syms_of,
    params_view, sum_from, product_from, val_eq, Fault, Val,
};

verus! {

/// The numeric values of the evaluated arguments, left to right, or the
/// error for the first argument that is not a number.
fn numbers_of(arguments: &[Expression]) -> (r: Result<Vec<i64>, Error>)
    ensures
        match r {
            Ok(v) => nums_of(exprs_view(arguments@)) == Ok::<Seq<int>, Fault>(ints_view(v@)),
            Err(e) => nums_of(exprs_view(arguments@)) == Err::<Seq<int>, Fault>(e@),
        },
{
    broadcast use crate::semantics::view_axioms;

    let ghost s = exprs_view(arguments@);
    let n = arguments.len();
    let mut out: Vec<i64> = Vec::new();
    let mut i: usize = 0;
    proof {
        assert(s.skip(0) =~= s);
        assert(ints_view(out@) =~= Seq::<int>::empty());
        if nums_of(s) is Ok {
            assert(ints_view(out@) + nums_of(s)->Ok_0 =~= nums_of(s)->Ok_0);
        }
    }
    while i < n
        invariant
            n == arguments@.len(),
            s == exprs_view(arguments@),
            i <= n,
            match nums_of(s.skip(i as int)) {
                Ok(rest) => nums_of(s) == Ok::<Seq<int>, Fault>(ints_view(out@) + rest),
                Err(f) => nums_of(s) == Err::<Seq<int>, Fault>(f),
            },
        decreases n - i,
    {
        proof {
            broadcast use crate::semantics::view_axioms;

            assert(s[i as int] == arguments@[i as int]@);
            assert(s.skip(i as int)[0] == s[i as int]);
            assert(s.skip(i as int).skip(1) =~= s.skip(i as int + 1));
        }
        let ghost out_pre = out@;
        match &arguments[i] {
            Expression::Number(num) => {
                let v = num.0;
                out.push(v);
                proof {
                    assert(ints_view(out@) =~= ints_view(out_pre).push(v as int));
                    match nums_of(s.skip(i as int + 1)) {
                        Ok(rest) => {
                            assert(ints_view(out_pre) + (seq![v as int] + rest) =~= ints_view(out@)
                                + rest);
                        },
                        Err(_) => {},
                    }
                }
            },
            other => {
                let mut frame = String::from_str("argument number ");
                let index = u64_to_string((i as u64) + 1);
                frame.append(index.as_str());
                return Err(
                    Error::new(
                        ErrorKind::Type(TypeError { expected: "number", got: other.variant() }),
                    ).framed(frame),
                );
            },
        }
        i = i + 1;
    }
    proof {
        assert(s.skip(n as int) =~= Seq::<Val>::empty());
        assert(ints_view(out@) + Seq::<int>::empty() =~= ints_view(out@));
    }
    Ok(out)
}

/// The symbols among the evaluated arguments, left to right, or the error
/// for the first argument that is not a symbol.
fn symbols_of(arguments: &Vec<Expression>) -> (r: Result<Vec<Symbol>, Error>)
    ensures
        match r {
            Ok(v) => syms_of(exprs_view(arguments@)) == Ok::<Seq<Seq<char>>, Fault>(
                params_view(v@),
            ),
            Err(e) => syms_of(exprs_view(arguments@)) == Err::<Seq<Seq<char>>, Fault>(e@),
        },
{
    broadcast use crate::semantics::view_axioms;

    let ghost s = exprs_view(arguments@);
    let n = arguments.len();
    let mut out: Vec<Symbol> = Vec::new();
    let mut i: usize = 0;
    proof {
        assert(s.skip(0) =~= s);
        if syms_of(s) is Ok {
            assert(params_view(out@) + syms_of(s)->Ok_0 =~= syms_of(s)->Ok_0);
        }
    }
    while i < n
        invariant
            n == arguments@.len(),
            s == exprs_view(arguments@),
            i <= n,
            match syms_of(s.skip(i as int)) {
                Ok(rest) => syms_of(s) == Ok::<Seq<Seq<char>>, Fault>(params_view(out@) + rest),
                Err(f) => syms_of(s) == Err::<Seq<Seq<char>>, Fault>(f),
            },
        decreases n - i,
    {
        proof {
            broadcast use crate::semantics::view_axioms;

            assert(s[i as int] == arguments@[i as int]@);
            assert(s.skip(i as int)[0] == s[i as int]);
            assert(s.skip(i as int).skip(1) =~= s.skip(i as int + 1));
        }
        let ghost out_pre = out@;
        match &arguments[i] {
            Expression::Symbol(sym) => {
                let ghost name = sym@;
                out.push(sym.clone());
                proof {
                    assert(params_view(out@) =~= params_view(out_pre).push(name));
                    match syms_of(s.skip(i as int + 1)) {
                        Ok(rest) => {
                            assert(params_view(out_pre) + (seq![name] + rest) =~= params_view(out@)
                                + rest);
                        },
                        Err(_) => {},
                    }
                }
            },
            other => {
                let mut frame = String::from_str("argument number ");
                let index = u64_to_string((i as u64) + 1);
                frame.append(index.as_str());
                return Err(
                    Error::new(
                        ErrorKind::Type(TypeError { expected: "symbol", got: other.variant() }),
                    ).framed(frame),
                );
            },
        }
        i = i + 1;
    }
    proof {
        assert(s.skip(n as int) =~= Seq::<Val>::empty());
        assert(params_view(out@) + Seq::<Seq<char>>::empty() =~= params_view(out@));
    }
    Ok(out)
}

/// Truthy iff the numeric arguments are non-decreasing left to right; at
/// least one argument is required.
#[verifier::rlimit(50)]
pub fn le(arguments: &[Expression], env: &mut Environment) -> (r: Result<Expression, Error>)
    ensures
        final(env)@ == old(env)@,
        match r {
            Ok(v) => le_spec(exprs_view(arguments@)) == Ok::<Val, Fault>(v@),
            Err(e) => le_spec(exprs_view(arguments@)) == Err::<Val, Fault>(e@),
        },
{
    broadcast use crate::semantics::view_axioms;

    if arguments.len() == 0 {
        proof {
            assert(exprs_view(arguments@).len() == 0);
        }
        return Err(Error::new(ErrorKind::Insufficient("le")));
    }
    proof {
        assert(exprs_view(arguments@).len() == arguments@.len());
    }
    let nums = match numbers_of(arguments) {
        Ok(nums) => nums,
        Err(e) => {
            return Err(e.framed(String::from_str("arguments are not all numbers")));
        },
    };
    let n = nums.len();
    let mut i: usize = 0;
    while n >= 1 && i < n - 1
        invariant
            n == nums@.len(),
            i <= n,
            exprs_view(arguments@).len() != 0,
            nums_of(exprs_view(arguments@)) == Ok::<Seq<int>, Fault>(ints_view(nums@)),
            forall|j: int| 0 <= j < i ==> #[trigger] ints_view(nums@)[j] <= ints_view(nums@)[j + 1],
        decreases n - i,
    {
        if nums[i] > nums[i + 1] {
            proof {
                assert(ints_view(nums@)[i as int] > ints_view(nums@)[i as int + 1]);
                assert(!crate::semantics::nondecreasing(ints_view(nums@)));
            }
            return Ok(Expression::null());
        }
        i = i + 1;
    }
    proof {
        assert(crate::semantics::nondecreasing(ints_view(nums@)));
    }
    Ok(Expression::Number(Number(1)))
}

/// The sum of the numeric arguments.
pub fn add(arguments: &[Expression], env: &mut Environment) -> (r: Result<Expression, Error>)
    ensures
        final(env)@ == old(env)@,
        match r {
            Ok(v) => add_spec(exprs_view(arguments@)) == Ok::<Val, Fault>(v@),
            Err(e) => add_spec(exprs_view(arguments@)) == Err::<Val, Fault>(e@),
        },
{
    let nums = match numbers_of(arguments) {
        Ok(nums) => nums,
        Err(e) => {
            return Err(e.framed(String::from_str("arguments are not all numbers")));
        },
    };
    proof {
        assert(ints_view(nums@).skip(0) =~= ints_view(nums@));
    }
    match fold_sum(0, &nums, 0) {
        Ok(total) => Ok(Expression::Number(Number(total))),
        Err(e) => Err(e),
    }
}

/// The first numeric argument minus the sum of the rest.
pub fn sub(arguments: &[Expression], env: &mut Environment) -> (r: Result<Expression, Error>)
    ensures
        final(env)@ == old(env)@,
        match r {
            Ok(v) => sub_spec(exprs_view(arguments@)) == Ok::<Val, Fault>(v@),
            Err(e) => sub_spec(exprs_view(arguments@)) == Err::<Val, Fault>(e@),
        },
{
    let nums = match numbers_of(arguments) {
        Ok(nums) => nums,
        Err(e) => {
            return Err(e.framed(String::from_str("arguments are not all numbers")));
        },
    };
    if nums.len() == 0 {
        return Err(Error::new(ErrorKind::Insufficient("sub")));
    }
    proof {
        assert(ints_view(nums@).skip(1) =~= ints_view(nums@.skip(1)));
    }
    let first = nums[0];
    let rest = match fold_sum(0, &nums, 1) {
        Ok(total) => total,
        Err(e) => {
            return Err(e);
        },
    };
    match first.checked_sub(rest) {
        Some(total) => Ok(Expression::Number(Number(total))),
        None => Err(Error::new(ErrorKind::Overflow)),
    }
}

/// The product of the numeric arguments.
pub fn mul(arguments: &[Expression], env: &mut Environment) -> (r: Result<Expression, Error>)
    ensures
        final(env)@ == old(env)@,
        match r {
            Ok(v) => mul_spec(exprs_view(arguments@)) == Ok::<Val, Fault>(v@),
            Err(e) => mul_spec(exprs_view(arguments@)) == Err::<Val, Fault>(e@),
        },
{
    let nums = match numbers_of(arguments) {
        Ok(nums) => nums,
        Err(e) => {
            return Err(e.framed(String::from_str("arguments are not all numbers")));
        },
    };
    proof {
        assert(ints_view(nums@).skip(0) =~= ints_view(nums@));
    }
    match fold_product(1, &nums, 0) {
        Ok(total) => Ok(Expression::Number(Number(total))),
        Err(e) => Err(e),
    }
}

/// The first numeric argument divided by the product of the rest,
/// truncating toward zero.
pub fn div(arguments: &[Expression], env: &mut Environment) -> (r: Result<Expression, Error>)
    ensures
        final(env)@ == old(env)@,
        match r {
            Ok(v) => div_spec(exprs_view(arguments@)) == Ok::<Val, Fault>(v@),
            Err(e) => div_spec(exprs_view(arguments@)) == Err::<Val, Fault>(e@),
        },
{
    let nums = match numbers_of(arguments) {
        Ok(nums) => nums,
        Err(e) => {
            return Err(e.framed(String::from_str("arguments are not all numbers")));
        },
    };
    if nums.len() == 0 {
        return Err(Error::new(ErrorKind::Insufficient("div")));
    }
    proof {
        assert(ints_view(nums@).skip(1) =~= ints_view(nums@.skip(1)));
    }
    let first = nums[0];
    let divisor = match fold_product(1, &nums, 1) {
        Ok(total) => total,
        Err(e) => {
            return Err(e);
        },
    };
    if divisor == 0 {
        return Err(Error::new(ErrorKind::DivisionByZero));
    }
    if first == i64::MIN && divisor == -1 {
        return Err(Error::new(ErrorKind::Overflow));
    }
    match first.checked_div(divisor) {
        Some(q) => {
            proof {
                lemma_machine_div_is_trunc(first as int, divisor as int);
            }
            Ok(Expression::Number(Number(q)))
        },
        None => {
            proof {
                lemma_machine_div_in_range(first as int, divisor as int);
            }
            Err(Error::new(ErrorKind::Overflow))
        },
    }
}

/// The left fold of the suffix of the numbers from the given position, with
/// a checked addition at each step.
fn fold_sum(acc: i64, nums: &Vec<i64>, from: usize) -> (r: Result<i64, Error>)
    requires
        from <= nums@.len(),
    ensures
        match r {
            Ok(total) => sum_from(acc as int, ints_view(nums@).skip(from as int)) == Ok::<
                int,
                Fault,
            >(total as int),
            Err(e) => sum_from(acc as int, ints_view(nums@).skip(from as int)) == Err::<
                int,
                Fault,
            >(e@) && e@ == Fault::Overflow,
        },
    decreases nums@.len() - from,
{
    let ghost suffix = ints_view(nums@).skip(from as int);
    if from == nums.len() {
        proof {
            assert(suffix =~= Seq::<int>::empty());
        }
        return Ok(acc);
    }
    proof {
        assert(suffix[0] == ints_view(nums@)[from as int]);
        assert(suffix.skip(1) =~= ints_view(nums@).skip(from as int + 1));
    }
    match acc.checked_add(nums[from]) {
        Some(next) => fold_sum(next, nums, from + 1),
        None => Err(Error::new(ErrorKind::Overflow)),
    }
}

/// The left fold of the suffix of the numbers from the given position, with
/// a checked multiplication at each step.
fn fold_product(acc: i64, nums: &Vec<i64>, from: usize) -> (r: Result<i64, Error>)
    requires
        from <= nums@.len(),
    ensures
        match r {
            Ok(total) => product_from(acc as int, ints_view(nums@).skip(from as int)) == Ok::<
                int,
                Fault,
            >(total as int),
            Err(e) => product_from(acc as int, ints_view(nums@).skip(from as int)) == Err::<
                int,
                Fault,
            >(e@) && e@ == Fault::Overflow,
        },
    decreases nums@.len() - from,
{
    let ghost suffix = ints_view(nums@).skip(from as int);
    if from == nums.len() {
        proof {
            assert(suffix =~= Seq::<int>::empty());
        }
        return Ok(acc);
    }
    proof {
        assert(suffix[0] == ints_view(nums@)[from as int]);
        assert(suffix.skip(1) =~= ints_view(nums@).skip(from as int + 1));
    }
    match acc.checked_mul(nums[from]) {
        Some(next) => fold_product(next, nums, from + 1),
        None => Err(Error::new(ErrorKind::Overflow)),
    }
}

/// Machine division truncates toward zero.
proof fn lemma_machine_div_is_trunc(x: int, d: int)
    requires
        d != 0,
        !(x == i64::MIN && d == -1),
        i64::MIN <= x <= i64::MAX,
        i64::MIN <= d <= i64::MAX,
    ensures
        ({
            let output = if x == 0 {
                0int
            } else if x > 0 && d > 0 {
                x / d
            } else if x < 0 && d < 0 {
                ((x * -1) / (d * -1))
            } else if x < 0 {
                ((x * -1) / d) * -1
            } else {
                (x / (d * -1)) * -1
            };
            output == div_trunc(x, d)
        }),
{
    assert(x < 0 ==> x * -1 == int_abs(x));
    assert(d < 0 ==> d * -1 == int_abs(d));
    if x == 0 {
        assert(int_abs(0) / int_abs(d) == 0) by (nonlinear_arith)
            requires
                int_abs(d) >= 1,
        ;
    }
}

/// Machine division of admissible operands stays in the 64-bit range.
proof fn lemma_machine_div_in_range(x: int, d: int)
    requires
        d != 0,
        !(x == i64::MIN && d == -1),
        i64::MIN <= x <= i64::MAX,
        i64::MIN <= d <= i64::MAX,
    ensures
        i64::MIN <= div_trunc(x, d) <= i64::MAX,
{
    assert(int_abs(x) / int_abs(d) <= int_abs(x)) by (nonlinear_arith)
        requires
            int_abs(x) >= 0,
            int_abs(d) >= 1,
    ;
    if int_abs(d) >= 2 {
        assert(int_abs(x) / int_abs(d) <= int_abs(x) / 2) by (nonlinear_arith)
            requires
                int_abs(x) >= 0,
                int_abs(d) >= 2,
        ;
    }
}

/// Truthy iff all evaluated arguments are equal pairwise in sequence;
/// truthy on zero or one arguments.
pub fn eq(arguments: &[Expression], env: &mut Environment) -> (r: Result<Expression, Error>)
    ensures
        final(env)@ == old(env)@,
        match r {
            Ok(v) => eq_spec(exprs_view(arguments@)) == Ok::<Val, Fault>(v@),
            Err(e) => eq_spec(exprs_view(arguments@)) == Err::<Val, Fault>(e@),
        },
{
    broadcast use crate::semantics::view_axioms;

    let ghost s = exprs_view(arguments@);
    let n = arguments.len();
    if n == 0 {
        return Ok(Expression::Number(Number(1)));
    }
    let mut i: usize = 1;
    while i < n
        invariant
            n == arguments@.len(),
            s == exprs_view(arguments@),
            1 <= i <= n,
            forall|j: int| 1 <= j < i ==> val_eq(#[trigger] s[j], s[j - 1]),
        decreases n - i,
    {
        proof {
            broadcast use crate::semantics::view_axioms;

            assert(s[i as int] == arguments@[i as int]@);
            assert(s[i as int - 1] == arguments@[i as int - 1]@);
        }
        if !expr_eq(&arguments[i], &arguments[i - 1]) {
            return Ok(Expression::null());
        }
        i = i + 1;
    }
    Ok(Expression::Number(Number(1)))
}

/// The evaluated arguments, collected into a list.
pub fn list(arguments: &[Expression], env: &mut Environment) -> (r: Result<Expression, Error>)
    ensures
        final(env)@ == old(env)@,
        match r {
            Ok(v) => list_spec(exprs_view(arguments@)) == Ok::<Val, Fault>(v@),
            Err(e) => list_spec(exprs_view(arguments@)) == Err::<Val, Fault>(e@),
        },
{
    let items = crate::expression::clone_expressions(arguments);
    proof {
        broadcast use crate::semantics::view_axioms;

        assert forall|i: int| 0 <= i < arguments@.len() implies exprs_view(items@)[i]
            == exprs_view(arguments@)[i] by {
            broadcast use crate::semantics::view_axioms;

            assert(exprs_view(items@)[i] == items@[i]@);
            assert(exprs_view(arguments@)[i] == arguments@[i]@);
        }
        assert(exprs_view(items@) =~= exprs_view(arguments@));
    }
    let r = Expression::List(List(items));
    Ok(r)
}

/// Binds the first argument, a symbol, to the second in the caller's
/// environment, and returns the bound value. Both arguments are validated
/// before the environment is touched.
pub fn define(arguments: &[Expression], env: &mut Environment) -> (r: Result<Expression, Error>)
    ensures
        ({
            let s = define_spec(exprs_view(arguments@), old(env)@);
            &&& final(env)@ == s.env
            &&& match r {
                Ok(v) => s.outcome == Ok::<Val, Fault>(v@),
                Err(e) => s.outcome == Err::<Val, Fault>(e@),
            }
        }),
{
    broadcast use crate::semantics::view_axioms;

    let ghost s = exprs_view(arguments@);
    if arguments.len() != 2 {
        return Err(Error::new(ErrorKind::DefineArity));
    }
    proof {
        assert(s[0] == arguments@[0]@);
        assert(s[1] == arguments@[1]@);
    }
    let symbol = match arguments[0].as_symbol() {
        Ok(symbol) => symbol.clone(),
        Err(t) => {
            return Err(
                Error::new(ErrorKind::Type(t)).framed(
                    String::from_str("the first argument of a binding must be a symbol"),
                ),
            );
        },
    };
    let value = arguments[1].clone();
    let result = value.clone();
    env.set(symbol, value);
    Ok(result)
}

/// Returns its single argument unevaluated.
pub fn quote(arguments: &[Expression], env: &mut Environment) -> (r: Result<Expression, Error>)
    ensures
        final(env)@ == old(env)@,
        ({
            let s = quote_spec(exprs_view(arguments@), old(env)@);
            match r {
                Ok(v) => s.outcome == Ok::<Val, Fault>(v@),
                Err(e) => s.outcome == Err::<Val, Fault>(e@),
            }
        }),
{
    broadcast use crate::semantics::view_axioms;

    if arguments.len() != 1 {
        return Err(Error::new(ErrorKind::QuoteArity));
    }
    proof {
        assert(exprs_view(arguments@)[0] == arguments@[0]@);
    }
    Ok(arguments[0].clone())
}

/// Builds a lambda: the first argument lists the parameter symbols, the
/// second is the body, and the caller's environment is captured by value.
pub fn lambda(arguments: &[Expression], env: &mut Environment) -> (r: Result<Expression, Error>)
    ensures
        final(env)@ == old(env)@,
        ({
            let s = lambda_spec(exprs_view(arguments@), old(env)@);
            match r {
                Ok(v) => s.outcome == Ok::<Val, Fault>(v@),
                Err(e) => s.outcome == Err::<Val, Fault>(e@),
            }
        }),
{
    broadcast use crate::semantics::view_axioms;

    let ghost s = exprs_view(arguments@);
    if arguments.len() != 2 {
        return Err(Error::new(ErrorKind::LambdaArity));
    }
    proof {
        assert(s[0] == arguments@[0]@);
        assert(s[1] == arguments@[1]@);
    }
    let parameters = match arguments[0].as_list() {
        Ok(l) => l,
        Err(t) => {
            return Err(
                Error::new(ErrorKind::Type(t)).framed(
                    String::from_str("a lambda wants a list of parameters first"),
                ),
            );
        },
    };
    let parameters = match symbols_of(&parameters.0) {
        Ok(symbols) => symbols,
        Err(e) => {
            return Err(e.framed(String::from_str("parameter names must all be symbols")));
        },
    };
    let value = Box::new(arguments[1].clone());
    let captured = env.duplicate();
    Ok(Expression::Lambda(Lambda { parameters, value, env: captured }))
}

/// Builds a macro: shaped as [`lambda`], but the result binds its arguments
/// unevaluated and re-evaluates its expansion at the call site.
pub fn macr(arguments: &[Expression], env: &mut Environment) -> (r: Result<Expression, Error>)
    ensures
        final(env)@ == old(env)@,
        ({
            let s = macro_spec(exprs_view(arguments@), old(env)@);
            match r {
                Ok(v) => s.outcome == Ok::<Val, Fault>(v@),
                Err(e) => s.outcome == Err::<Val, Fault>(e@),
            }
        }),
{
    broadcast use crate::semantics::view_axioms;

    let ghost s = exprs_view(arguments@);
    if arguments.len() != 2 {
        return Err(Error::new(ErrorKind::MacroArity));
    }
    proof {
        assert(s[0] == arguments@[0]@);
        assert(s[1] == arguments@[1]@);
    }
    let parameters = match arguments[0].as_list() {
        Ok(l) => l,
        Err(t) => {
            return Err(
                Error::new(ErrorKind::Type(t)).framed(
                    String::from_str("a macro wants a list of parameters first"),
                ),
            );
        },
    };
    let parameters = match symbols_of(&parameters.0) {
        Ok(symbols) => symbols,
        Err(e) => {
            return Err(e.framed(String::from_str("parameter names must all be symbols")));
        },
    };
    let value = Box::new(arguments[1].clone());
    let captured = env.duplicate();
    Ok(Expression::Macro(Macro { parameters, value, env: captured }))
}

/// Evaluates conditions left to right in the caller's environment and
/// returns the first truthy pair's evaluated consequence; with none, a
/// trailing odd argument is the evaluated default, and otherwise the result
/// is the empty list.
pub fn cond(arguments: &[Expression], env: &mut Environment, fuel: u64) -> (r: Result<
    Expression,
    Error,
>)
    ensures
        ({
            let s = cond_spec(exprs_view(arguments@), old(env)@, fuel as nat);
            &&& final(env)@ == s.env
            &&& match r {
                Ok(v) => s.outcome == Ok::<Val, Fault>(v@),
                Err(e) => s.outcome == Err::<Val, Fault>(e@),
            }
        }),
    decreases fuel, 0int,
{
    broadcast use crate::semantics::view_axioms;

    let ghost s = exprs_view(arguments@);
    if fuel == 0 {
        return Err(Error::new(ErrorKind::OutOfFuel));
    }
    if arguments.len() >= 2 {
        proof {
            assert(s[0] == arguments@[0]@);
            assert(s[1] == arguments@[1]@);
        }
        let condition = match arguments[0].eval(env, fuel - 1) {
            Ok(c) => c,
            Err(e) => {
                return Err(e.framed(String::from_str("could not evaluate a condition")));
            },
        };
        if condition.is_truthy() {
            match arguments[1].eval(env, fuel - 1) {
                Ok(v) => Ok(v),
                Err(e) => Err(e.framed(String::from_str("could not evaluate a consequence"))),
            }
        } else {
            let rest = vstd::slice::slice_subrange(arguments, 2, arguments.len());
            proof {
                assert(exprs_view(rest@) =~= s.skip(2));
            }
            cond(rest, env, fuel - 1)
        }
    } else if arguments.len() == 1 {
        proof {
            assert(s[0] == arguments@[0]@);
        }
        match arguments[0].eval(env, fuel - 1) {
            Ok(v) => Ok(v),
            Err(e) => Err(e.framed(String::from_str("could not evaluate the default"))),
        }
    } else {
        Ok(Expression::null())
    }
}

/// The root environment's builtin bindings, in the order the registry
/// installs them.
pub open spec fn with_builtins(env: crate::semantics::EnvModel) -> crate::semantics::EnvModel {
    let env = crate::semantics::assoc_set(
        env,
        "≤"@,
        Val::BuiltinFunction { name: "≤"@, op: Op::Le, single: false },
    );
    let env = crate::semantics::assoc_set(
        env,
        "cond"@,
        Val::BuiltinMacro { name: "cond"@, op: MacroOp::Cond },
    );
    let env = crate::semantics::assoc_set(
        env,
        "+"@,
        Val::BuiltinFunction { name: "+"@, op: Op::Add, single: false },
    );
    let env = crate::semantics::assoc_set(
        env,
        "*"@,
        Val::BuiltinFunction { name: "*"@, op: Op::Mul, single: false },
    );
    let env = crate::semantics::assoc_set(
        env,
        "-"@,
        Val::BuiltinFunction { name: "-"@, op: Op::Sub, single: false },
    );
    let env = crate::semantics::assoc_set(
        env,
        "/"@,
        Val::BuiltinFunction { name: "/"@, op: Op::Div, single: false },
    );
    let env = crate::semantics::assoc_set(
        env,
        "list"@,
        Val::BuiltinFunction { name: "list"@, op: Op::ListOf, single: false },
    );
    let env = crate::semantics::assoc_set(
        env,
        "="@,
        Val::BuiltinFunction { name: "="@, op: Op::Eq, single: false },
    );
    let env = crate::semantics::assoc_set(
        env,
        "define"@,
        Val::BuiltinFunction { name: "define"@, op: Op::Define, single: false },
    );
    let env = crate::semantics::assoc_set(
        env,
        "'"@,
        Val::BuiltinMacro { name: "'"@, op: MacroOp::Quote },
    );
    let env = crate::semantics::assoc_set(
        env,
        "λ"@,
        Val::BuiltinMacro { name: "λ"@, op: MacroOp::LambdaOf },
    );
    crate::semantics::assoc_set(env, "μ"@, Val::BuiltinMacro { name: "μ"@, op: MacroOp::MacroOf })
}

/// Installs the standard builtin bindings into the environment.
pub fn set_environment(env: &mut Environment)
    ensures
        final(env)@ == with_builtins(old(env)@),
{
    env.set(
        Symbol(String::from_str("≤")),
        Expression::BuiltinFunction(BuiltinFunction::new("≤", Op::Le)),
    );
    env.set(
        Symbol(String::from_str("cond")),
        Expression::BuiltinMacro(BuiltinMacro::new("cond", MacroOp::Cond)),
    );
    env.set(
        Symbol(String::from_str("+")),
        Expression::BuiltinFunction(BuiltinFunction::new("+", Op::Add)),
    );
    env.set(
        Symbol(String::from_str("*")),
        Expression::BuiltinFunction(BuiltinFunction::new("*", Op::Mul)),
    );
    env.set(
        Symbol(String::from_str("-")),
        Expression::BuiltinFunction(BuiltinFunction::new("-", Op::Sub)),
    );
    env.set(
        Symbol(String::from_str("/")),
        Expression::BuiltinFunction(BuiltinFunction::new("/", Op::Div)),
    );
    env.set(
        Symbol(String::from_str("list")),
        Expression::BuiltinFunction(BuiltinFunction::new("list", Op::ListOf)),
    );
    env.set(
        Symbol(String::from_str("=")),
        Expression::BuiltinFunction(BuiltinFunction::new("=", Op::Eq)),
    );
    env.set(
        Symbol(String::from_str("define")),
        Expression::BuiltinFunction(BuiltinFunction::new("define", Op::Define)),
    );
    env.set(
        Symbol(String::from_str("'")),
        Expression::BuiltinMacro(BuiltinMacro::new("'", MacroOp::Quote)),
    );
    env.set(
        Symbol(String::from_str("λ")),
        Expression::BuiltinMacro(BuiltinMacro::new("λ", MacroOp::LambdaOf)),
    );
    env.set(
        Symbol(String::from_str("μ")),
        Expression::BuiltinMacro(BuiltinMacro::new("μ", MacroOp::MacroOf)),
    );
}

} // verus!
