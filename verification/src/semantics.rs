//! The mathematical model of the language: the value model [`Val`], the
//! fault model [`Fault`], and the specification-level tokenizer, parser and
//! evaluator that every executable function of this crate is proved against.

use vstd::prelude::*;

use crate::atoms::{MacroOp, Op};
use crate::expression::Expression;

verus! {

/// The model of an expression value. Environments appear as ordered binding
/// lists, names and labels as character sequences, numbers as integers.
#[verifier::ext_equal]
#[allow(inconsistent_fields)]
pub enum Val {
    /// A name.
    Symbol { name: Seq<char> },
    /// An integer.
    Number { value: int },
    /// An ordered sequence of values.
    List { items: Seq<Val> },
    /// A native function, identified by name.
    BuiltinFunction { name: Seq<char>, op: Op, single: bool },
    /// A native macro, identified by name.
    BuiltinMacro { name: Seq<char>, op: MacroOp },
    /// A user-defined function with its captured scope.
    Lambda { params: Seq<Seq<char>>, body: Box<Val>, env: Seq<(Seq<char>, Val)> },
    /// A user-defined macro with its captured scope.
    Macro { params: Seq<Seq<char>>, body: Box<Val>, env: Seq<(Seq<char>, Val)> },
}

/// The model of a scope: bindings in insertion order, at most one per name.
pub type EnvModel = Seq<(Seq<char>, Val)>;

/// The view of an expression: the [`Val`] it stands for.
pub open spec fn expr_view(e: Expression) -> Val
    decreases e,
{
    match e {
        Expression::Symbol(s) => Val::Symbol { name: s.0@ },
        Expression::Number(n) => Val::Number { value: n.0 as int },
        Expression::List(l) => Val::List { items: exprs_view(l.0@) },
        Expression::BuiltinFunction(b) => Val::BuiltinFunction {
            name: b.name@,
            op: b.op,
            single: b.single,
        },
        Expression::BuiltinMacro(b) => Val::BuiltinMacro { name: b.name@, op: b.op },
        Expression::Lambda(lm) => Val::Lambda {
            params: params_view(lm.parameters@),
            body: Box::new(expr_view(*lm.value)),
            env: env_view(lm.env.entries@),
        },
        Expression::Macro(mc) => Val::Macro {
            params: params_view(mc.parameters@),
            body: Box::new(expr_view(*mc.value)),
            env: env_view(mc.env.entries@),
        },
    }
}

/// The view of a sequence of expressions, element by element.
pub open spec fn exprs_view(s: Seq<Expression>) -> Seq<Val>
    decreases s,
{
    if s.len() == 0 {
        Seq::empty()
    } else {
        exprs_view(s.drop_last()).push(expr_view(s.last()))
    }
}

/// The view of a parameter list: each symbol's name.
pub open spec fn params_view(ps: Seq<crate::atoms::Symbol>) -> Seq<Seq<char>> {
    Seq::new(ps.len(), |i: int| ps[i]@)
}

/// The view of a binding list: each binding's name and value model.
pub open spec fn env_view(entries: Seq<(crate::atoms::Symbol, Expression)>) -> EnvModel
    decreases entries,
{
    if entries.len() == 0 {
        Seq::empty()
    } else {
        env_view(entries.drop_last()).push(
            (entries.last().0@, expr_view(entries.last().1)),
        )
    }
}

/// The length of a sequence view equals the length of the sequence.
pub broadcast proof fn lemma_exprs_view_len(s: Seq<Expression>)
    ensures
        (#[trigger] exprs_view(s)).len() == s.len(),
    decreases s,
{
    if s.len() != 0 {
        lemma_exprs_view_len(s.drop_last());
    }
}

/// The sequence view, read at an index, is the view of the element there.
pub broadcast proof fn lemma_exprs_view_index(s: Seq<Expression>, i: int)
    requires
        0 <= i < s.len(),
    ensures
        #[trigger] exprs_view(s)[i] == s[i]@,
    decreases s,
{
    lemma_exprs_view_len(s);
    if s.len() != 0 {
        lemma_exprs_view_len(s.drop_last());
        if i < s.len() - 1 {
            lemma_exprs_view_index(s.drop_last(), i);
        }
    }
}

/// The length of a binding-list view equals the length of the list.
pub broadcast proof fn lemma_env_view_len(s: Seq<(crate::atoms::Symbol, Expression)>)
    ensures
        (#[trigger] env_view(s)).len() == s.len(),
    decreases s,
{
    if s.len() != 0 {
        lemma_env_view_len(s.drop_last());
    }
}

/// The binding-list view, read at an index, is the view of the binding there.
pub broadcast proof fn lemma_env_view_index(s: Seq<(crate::atoms::Symbol, Expression)>, i: int)
    requires
        0 <= i < s.len(),
    ensures
        #[trigger] env_view(s)[i] == (s[i].0@, s[i].1@),
    decreases s,
{
    lemma_env_view_len(s);
    if s.len() != 0 {
        lemma_env_view_len(s.drop_last());
        if i < s.len() - 1 {
            lemma_env_view_index(s.drop_last(), i);
        }
    }
}

/// Reading an ordered binding list: the first binding of the name wins.
pub open spec fn assoc_get(env: EnvModel, name: Seq<char>) -> Option<Val>
    decreases env.len(),
{
    if env.len() == 0 {
        None
    } else if env[0].0 == name {
        Some(env[0].1)
    } else {
        assoc_get(env.skip(1), name)
    }
}

/// Writing an ordered binding list: the first binding of the name is
/// replaced in place, and a missing name is appended at the end.
pub open spec fn assoc_set(env: EnvModel, name: Seq<char>, value: Val) -> EnvModel
    decreases env.len(),
{
    if env.len() == 0 {
        seq![(name, value)]
    } else if env[0].0 == name {
        seq![(name, value)] + env.skip(1)
    } else {
        seq![env[0]] + assoc_set(env.skip(1), name, value)
    }
}

/// Updating the binding list at the position of the name is what
/// [`assoc_set`] does when the name is present.
pub proof fn lemma_assoc_set_found(env: EnvModel, name: Seq<char>, value: Val, i: int)
    requires
        0 <= i < env.len(),
        env[i].0 == name,
        forall|j: int| 0 <= j < i ==> env[j].0 != name,
    ensures
        assoc_set(env, name, value) =~= env.update(i, (name, value)),
    decreases i,
{
    if i == 0 {
    } else {
        lemma_assoc_set_found(env.skip(1), name, value, i - 1);
        assert(env.skip(1).update(i - 1, (name, value)) =~= env.update(i, (name, value)).skip(1));
    }
}

/// Appending is what [`assoc_set`] does when the name is absent.
pub proof fn lemma_assoc_set_append(env: EnvModel, name: Seq<char>, value: Val)
    requires
        forall|j: int| 0 <= j < env.len() ==> env[j].0 != name,
    ensures
        assoc_set(env, name, value) =~= env.push((name, value)),
    decreases env.len(),
{
    if env.len() == 0 {
    } else {
        lemma_assoc_set_append(env.skip(1), name, value);
        assert(env.skip(1).push((name, value)) =~= env.push((name, value)).skip(1));
    }
}

/// What [`assoc_set`] makes [`assoc_get`] read back.
pub proof fn lemma_assoc_set_get(env: EnvModel, name: Seq<char>, value: Val, read: Seq<char>)
    ensures
        assoc_get(assoc_set(env, name, value), read) == if read == name {
            Some(value)
        } else {
            assoc_get(env, read)
        },
    decreases env.len(),
{
    let out = assoc_set(env, name, value);
    if env.len() == 0 {
        assert(out[0] == (name, value));
        assert(out.skip(1) =~= Seq::<(Seq<char>, Val)>::empty());
        if read == name {
            assert(assoc_get(out, read) == Some(value));
        } else {
            assert(assoc_get(out, read) == assoc_get(out.skip(1), read));
            assert(assoc_get(out, read) is None);
        }
    } else if env[0].0 == name {
        assert(out[0] == (name, value));
        assert(out.skip(1) =~= env.skip(1));
        if read == name {
            assert(assoc_get(out, read) == Some(value));
        } else {
            assert(assoc_get(out, read) == assoc_get(env.skip(1), read));
            assert(assoc_get(env, read) == assoc_get(env.skip(1), read));
        }
    } else {
        lemma_assoc_set_get(env.skip(1), name, value, read);
        assert(out[0] == env[0]);
        assert(out.skip(1) =~= assoc_set(env.skip(1), name, value));
        if env[0].0 == read {
            assert(assoc_get(out, read) == Some(env[0].1));
            assert(assoc_get(env, read) == Some(env[0].1));
        } else {
            assert(assoc_get(out, read) == assoc_get(assoc_set(env.skip(1), name, value), read));
            assert(assoc_get(env, read) == assoc_get(env.skip(1), read));
        }
    }
}

/// The facts about sequence and binding-list views that proofs use
/// throughout the crate.
pub broadcast group view_axioms {
    lemma_exprs_view_len,
    lemma_exprs_view_index,
    lemma_env_view_len,
    lemma_env_view_index,
}

/// The fixed label of a value's kind, as used in diagnostics.
pub open spec fn kind_label(v: Val) -> Seq<char> {
    match v {
        Val::Symbol { .. } => "symbol"@,
        Val::Number { .. } => "number"@,
        Val::List { .. } => "list"@,
        Val::BuiltinFunction { .. } => "builtin function"@,
        Val::BuiltinMacro { .. } => "builtin macro"@,
        Val::Lambda { .. } => "lambda"@,
        Val::Macro { .. } => "macro"@,
    }
}

/// A value is falsy exactly when it is the empty list.
pub open spec fn is_truthy_spec(v: Val) -> bool {
    !(v matches Val::List { items } && items.len() == 0)
}

/// The language's equality: numbers by value, symbols by name, lists
/// elementwise, builtins by name identity, and user-defined callables by
/// parameters, body and captured scope.
pub open spec fn val_eq(a: Val, b: Val) -> bool
    decreases a,
{
    match (a, b) {
        (Val::Symbol { name: na }, Val::Symbol { name: nb }) => na == nb,
        (Val::Number { value: x }, Val::Number { value: y }) => x == y,
        (Val::List { items: xs }, Val::List { items: ys }) => items_eq(xs, ys),
        (
            Val::BuiltinFunction { name: na, .. },
            Val::BuiltinFunction { name: nb, .. },
        ) => na == nb,
        (Val::BuiltinMacro { name: na, .. }, Val::BuiltinMacro { name: nb, .. }) => na == nb,
        (
            Val::Lambda { params: pa, body: ba, env: ea },
            Val::Lambda { params: pb, body: bb, env: eb },
        ) => pa == pb && val_eq(*ba, *bb) && env_eq_at(ea, eb),
        (
            Val::Macro { params: pa, body: ba, env: ea },
            Val::Macro { params: pb, body: bb, env: eb },
        ) => pa == pb && val_eq(*ba, *bb) && env_eq_at(ea, eb),
        _ => false,
    }
}

/// List equality under [`val_eq`]: same length, equal elementwise.
pub open spec fn items_eq(xs: Seq<Val>, ys: Seq<Val>) -> bool
    decreases xs,
{
    xs.len() == ys.len() && forall|i: int|
        0 <= i < xs.len() ==> val_eq(#[trigger] xs[i], ys[i])
}

/// Scope equality under [`val_eq`]: same bindings in the same order.
pub open spec fn env_eq_at(a: EnvModel, b: EnvModel) -> bool
    decreases a,
{
    a.len() == b.len() && forall|i: int|
        0 <= i < a.len() ==> (#[trigger] a[i]).0 == b[i].0 && val_eq(a[i].1, b[i].1)
}

/// The leaf cause of a failure. Every error the library returns models as
/// one of these; context frames are diagnostic text on top.
pub enum Fault {
    /// The evaluation fuel ran out before the expression reduced.
    OutOfFuel,
    /// The token stream ended where an expression was still expected.
    RanOutOfTokens,
    /// A close token with no matching open token, at this offset.
    UnexpectedClose { pos: int },
    /// A quote-prefix symbol at the end of a list, with nothing to quote.
    TrailingQuote,
    /// Tokens were left over after a complete expression.
    ExtraTokens,
    /// A symbol with no binding in the environment.
    Unbound { name: Seq<char> },
    /// An empty list in call position.
    EmptyCall,
    /// A value of this kind in call position.
    NotCallable { kind: Seq<char> },
    /// More arguments than a lambda or macro has parameters.
    TooManyArguments,
    /// A single-argument builtin called with another argument count.
    SingleArgument { name: Seq<char> },
    /// An atom accessed through a kind it does not match.
    WrongType { expected: Seq<char>, got: Seq<char> },
    /// A builtin that needs at least one argument was given none.
    Insufficient { name: Seq<char> },
    /// `define` called with other than two arguments.
    DefineArity,
    /// `'` called with other than one argument.
    QuoteArity,
    /// `λ` called with other than two arguments.
    LambdaArity,
    /// `μ` called with other than two arguments.
    MacroArity,
    /// A list indexed with other than one argument.
    IndexArity,
    /// A list indexed by a value of this kind instead of a number.
    IndexType { got: Seq<char> },
    /// A list of this length indexed outside its range.
    IndexRange { length: int, index: int },
    /// An arithmetic result outside the 64-bit signed range.
    Overflow,
    /// A division whose divisor is zero.
    DivisionByZero,
}

/// One evaluation outcome: the result, and the caller's environment as the
/// step left it.
pub struct Step {
    /// The value produced, or the fault.
    pub outcome: Result<Val, Fault>,
    /// The caller's environment after the step.
    pub env: EnvModel,
}

/// The outcome of evaluating an argument list left to right.
pub struct ArgsStep {
    /// The evaluated arguments, or the first fault.
    pub outcome: Result<Seq<Val>, Fault>,
    /// The caller's environment after the evaluations.
    pub env: EnvModel,
}

/// A successful step.
pub open spec fn step_ok(v: Val, env: EnvModel) -> Step {
    Step { outcome: Ok(v), env }
}

/// A failed step.
pub open spec fn step_err(f: Fault, env: EnvModel) -> Step {
    Step { outcome: Err(f), env }
}

/// The integer values of a vector of 64-bit numbers.
pub open spec fn ints_view(s: Seq<i64>) -> Seq<int> {
    s.map_values(|x: i64| x as int)
}

/// The absolute value of an integer.
pub open spec fn int_abs(a: int) -> int {
    if a >= 0 {
        a
    } else {
        -a
    }
}

/// Division truncating toward zero, as 64-bit machine division does.
pub open spec fn div_trunc(a: int, b: int) -> int {
    if (a >= 0) == (b >= 0) {
        int_abs(a) / int_abs(b)
    } else {
        -(int_abs(a) / int_abs(b))
    }
}

/// The numeric values of the arguments, or the fault for the first
/// argument that is not a number.
pub open spec fn nums_of(vals: Seq<Val>) -> Result<Seq<int>, Fault>
    decreases vals.len(),
{
    if vals.len() == 0 {
        Ok(Seq::empty())
    } else {
        match vals[0] {
            Val::Number { value } => match nums_of(vals.skip(1)) {
                Ok(rest) => Ok(seq![value] + rest),
                Err(f) => Err(f),
            },
            _ => Err(Fault::WrongType { expected: "number"@, got: kind_label(vals[0]) }),
        }
    }
}

/// The names of the arguments, or the fault for the first argument that is
/// not a symbol.
pub open spec fn syms_of(vals: Seq<Val>) -> Result<Seq<Seq<char>>, Fault>
    decreases vals.len(),
{
    if vals.len() == 0 {
        Ok(Seq::empty())
    } else {
        match vals[0] {
            Val::Symbol { name } => match syms_of(vals.skip(1)) {
                Ok(rest) => Ok(seq![name] + rest),
                Err(f) => Err(f),
            },
            _ => Err(Fault::WrongType { expected: "symbol"@, got: kind_label(vals[0]) }),
        }
    }
}

/// A running sum folded left to right, failing at the first partial sum
/// outside the 64-bit signed range.
pub open spec fn sum_from(acc: int, nums: Seq<int>) -> Result<int, Fault>
    decreases nums.len(),
{
    if nums.len() == 0 {
        Ok(acc)
    } else if i64::MIN <= acc + nums[0] <= i64::MAX {
        sum_from(acc + nums[0], nums.skip(1))
    } else {
        Err(Fault::Overflow)
    }
}

/// A running product folded left to right, failing at the first partial
/// product outside the 64-bit signed range.
pub open spec fn product_from(acc: int, nums: Seq<int>) -> Result<int, Fault>
    decreases nums.len(),
{
    if nums.len() == 0 {
        Ok(acc)
    } else if i64::MIN <= acc * nums[0] <= i64::MAX {
        product_from(acc * nums[0], nums.skip(1))
    } else {
        Err(Fault::Overflow)
    }
}

/// The numbers are non-decreasing from left to right.
pub open spec fn nondecreasing(nums: Seq<int>) -> bool {
    forall|i: int| 0 <= i < nums.len() - 1 ==> #[trigger] nums[i] <= nums[i + 1]
}

/// The empty list: the one falsy value.
pub open spec fn null_val() -> Val {
    Val::List { items: Seq::empty() }
}

/// The truthy value the comparison builtins return.
pub open spec fn true_val() -> Val {
    Val::Number { value: 1 }
}

/// What `≤` returns: truthy iff the numeric arguments are non-decreasing;
/// at least one argument is required.
pub open spec fn le_spec(vals: Seq<Val>) -> Result<Val, Fault> {
    if vals.len() == 0 {
        Err(Fault::Insufficient { name: "le"@ })
    } else {
        match nums_of(vals) {
            Err(f) => Err(f),
            Ok(nums) => if nondecreasing(nums) {
                Ok(true_val())
            } else {
                Ok(null_val())
            },
        }
    }
}

/// What `+` returns: the sum of the numeric arguments.
pub open spec fn add_spec(vals: Seq<Val>) -> Result<Val, Fault> {
    match nums_of(vals) {
        Err(f) => Err(f),
        Ok(nums) => match sum_from(0, nums) {
            Err(f) => Err(f),
            Ok(s) => Ok(Val::Number { value: s }),
        },
    }
}

/// What `-` returns: the first numeric argument minus the sum of the rest.
pub open spec fn sub_spec(vals: Seq<Val>) -> Result<Val, Fault> {
    match nums_of(vals) {
        Err(f) => Err(f),
        Ok(nums) => if nums.len() == 0 {
            Err(Fault::Insufficient { name: "sub"@ })
        } else {
            match sum_from(0, nums.skip(1)) {
                Err(f) => Err(f),
                Ok(s) => if i64::MIN <= nums[0] - s <= i64::MAX {
                    Ok(Val::Number { value: nums[0] - s })
                } else {
                    Err(Fault::Overflow)
                },
            }
        },
    }
}

/// What `*` returns: the product of the numeric arguments.
pub open spec fn mul_spec(vals: Seq<Val>) -> Result<Val, Fault> {
    match nums_of(vals) {
        Err(f) => Err(f),
        Ok(nums) => match product_from(1, nums) {
            Err(f) => Err(f),
            Ok(p) => Ok(Val::Number { value: p }),
        },
    }
}

/// What `/` returns: the first numeric argument divided by the product of
/// the rest, truncating toward zero.
pub open spec fn div_spec(vals: Seq<Val>) -> Result<Val, Fault> {
    match nums_of(vals) {
        Err(f) => Err(f),
        Ok(nums) => if nums.len() == 0 {
            Err(Fault::Insufficient { name: "div"@ })
        } else {
            match product_from(1, nums.skip(1)) {
                Err(f) => Err(f),
                Ok(p) => if p == 0 {
                    Err(Fault::DivisionByZero)
                } else if nums[0] == i64::MIN && p == -1 {
                    Err(Fault::Overflow)
                } else {
                    Ok(Val::Number { value: div_trunc(nums[0], p) })
                },
            }
        },
    }
}

/// What `=` returns: truthy iff all arguments are equal pairwise in
/// sequence; truthy on zero or one arguments.
pub open spec fn eq_spec(vals: Seq<Val>) -> Result<Val, Fault> {
    if forall|i: int| 1 <= i < vals.len() ==> val_eq(#[trigger] vals[i], vals[i - 1]) {
        Ok(true_val())
    } else {
        Ok(null_val())
    }
}

/// What `list` returns: its evaluated arguments, collected.
pub open spec fn list_spec(vals: Seq<Val>) -> Result<Val, Fault> {
    Ok(Val::List { items: vals })
}

/// What `define` does: both arguments are validated before the caller's
/// environment is touched, then the symbol is bound to the value, which is
/// also returned.
pub open spec fn define_spec(vals: Seq<Val>, env: EnvModel) -> Step {
    if vals.len() != 2 {
        step_err(Fault::DefineArity, env)
    } else {
        match vals[0] {
            Val::Symbol { name } => Step {
                outcome: Ok(vals[1]),
                env: assoc_set(env, name, vals[1]),
            },
            _ => step_err(
                Fault::WrongType { expected: "symbol"@, got: kind_label(vals[0]) },
                env,
            ),
        }
    }
}

/// What a builtin function computes from its evaluated arguments. Only
/// `define` touches the environment.
pub open spec fn builtin_fn_spec(k: Op, vals: Seq<Val>, env: EnvModel) -> Step {
    match k {
        Op::Le => Step { outcome: le_spec(vals), env },
        Op::Add => Step { outcome: add_spec(vals), env },
        Op::Sub => Step { outcome: sub_spec(vals), env },
        Op::Mul => Step { outcome: mul_spec(vals), env },
        Op::Div => Step { outcome: div_spec(vals), env },
        Op::Eq => Step { outcome: eq_spec(vals), env },
        Op::ListOf => Step { outcome: list_spec(vals), env },
        Op::Define => define_spec(vals, env),
    }
}

/// What `'` returns: its single argument, unevaluated.
pub open spec fn quote_spec(args: Seq<Val>, env: EnvModel) -> Step {
    if args.len() != 1 {
        step_err(Fault::QuoteArity, env)
    } else {
        step_ok(args[0], env)
    }
}

/// What `λ` returns: a lambda whose parameters are the symbols of the first
/// argument, whose body is the second, and whose captured scope is a
/// snapshot of the caller's environment.
pub open spec fn lambda_spec(args: Seq<Val>, env: EnvModel) -> Step {
    if args.len() != 2 {
        step_err(Fault::LambdaArity, env)
    } else {
        match args[0] {
            Val::List { items } => match syms_of(items) {
                Err(f) => step_err(f, env),
                Ok(params) => step_ok(
                    Val::Lambda { params, body: Box::new(args[1]), env },
                    env,
                ),
            },
            _ => step_err(
                Fault::WrongType { expected: "list"@, got: kind_label(args[0]) },
                env,
            ),
        }
    }
}

/// What `μ` returns: as [`lambda_spec`], but a macro.
pub open spec fn macro_spec(args: Seq<Val>, env: EnvModel) -> Step {
    if args.len() != 2 {
        step_err(Fault::MacroArity, env)
    } else {
        match args[0] {
            Val::List { items } => match syms_of(items) {
                Err(f) => step_err(f, env),
                Ok(params) => step_ok(
                    Val::Macro { params, body: Box::new(args[1]), env },
                    env,
                ),
            },
            _ => step_err(
                Fault::WrongType { expected: "list"@, got: kind_label(args[0]) },
                env,
            ),
        }
    }
}

/// What a list in call position does: it indexes itself by its single
/// unevaluated argument, which must be a number inside the range.
pub open spec fn list_index_spec(items: Seq<Val>, args: Seq<Val>, env: EnvModel) -> Step {
    if args.len() != 1 {
        step_err(Fault::IndexArity, env)
    } else {
        match args[0] {
            Val::Number { value } => if 0 <= value < items.len() {
                step_ok(items[value], env)
            } else {
                step_err(Fault::IndexRange { length: items.len() as int, index: value }, env)
            },
            _ => step_err(Fault::IndexType { got: kind_label(args[0]) }, env),
        }
    }
}

/// The captured scope with the first arguments bound to the matching
/// parameters, left to right; a name bound twice keeps the later value.
pub open spec fn bind_params(clo: EnvModel, params: Seq<Seq<char>>, vals: Seq<Val>) -> EnvModel
    decreases vals.len(),
{
    if vals.len() == 0 {
        clo
    } else {
        assoc_set(
            bind_params(clo, params, vals.drop_last()),
            params[vals.len() - 1],
            vals.last(),
        )
    }
}

/// Evaluating an expression against an environment, with the fuel bounding
/// the depth of the reduction: a list applies its evaluated head to the rest
/// of its elements, a symbol is looked up, and everything else evaluates to
/// itself.
pub open spec fn eval_spec(e: Val, env: EnvModel, fuel: nat) -> Step
    decreases fuel,
{
    if fuel == 0 {
        step_err(Fault::OutOfFuel, env)
    } else {
        match e {
            Val::List { items } => if items.len() == 0 {
                step_err(Fault::EmptyCall, env)
            } else {
                let head = eval_spec(items[0], env, (fuel - 1) as nat);
                match head.outcome {
                    Err(f) => Step { outcome: Err(f), env: head.env },
                    Ok(op) => apply_spec(op, items.skip(1), head.env, (fuel - 1) as nat),
                }
            },
            Val::Symbol { name } => match assoc_get(env, name) {
                Some(v) => step_ok(v, env),
                None => step_err(Fault::Unbound { name }, env),
            },
            _ => step_ok(e, env),
        }
    }
}

/// Applying an operator value to unevaluated argument expressions. Builtin
/// functions and lambdas evaluate the arguments first; builtin macros,
/// macros and lists receive them as they stand.
pub open spec fn apply_spec(op: Val, args: Seq<Val>, env: EnvModel, fuel: nat) -> Step
    decreases fuel,
{
    if fuel == 0 {
        step_err(Fault::OutOfFuel, env)
    } else {
        match op {
            Val::BuiltinFunction { name, op: k, single } => {
                let ev = eval_args_spec(args, env, (fuel - 1) as nat);
                match ev.outcome {
                    Err(f) => Step { outcome: Err(f), env: ev.env },
                    Ok(vals) => if single && vals.len() != 1 {
                        step_err(Fault::SingleArgument { name }, ev.env)
                    } else {
                        builtin_fn_spec(k, vals, ev.env)
                    },
                }
            },
            Val::BuiltinMacro { name, op: k } => match k {
                MacroOp::Quote => quote_spec(args, env),
                MacroOp::LambdaOf => lambda_spec(args, env),
                MacroOp::MacroOf => macro_spec(args, env),
                MacroOp::Cond => cond_spec(args, env, (fuel - 1) as nat),
            },
            Val::Lambda { params, body, env: clo } => {
                let ev = eval_args_spec(args, env, (fuel - 1) as nat);
                match ev.outcome {
                    Err(f) => Step { outcome: Err(f), env: ev.env },
                    Ok(vals) => if vals.len() > params.len() {
                        step_err(Fault::TooManyArguments, ev.env)
                    } else if vals.len() < params.len() {
                        step_ok(
                            Val::Lambda {
                                params: params.skip(vals.len() as int),
                                body,
                                env: bind_params(clo, params, vals),
                            },
                            ev.env,
                        )
                    } else {
                        let inner = eval_spec(
                            *body,
                            bind_params(clo, params, vals),
                            (fuel - 1) as nat,
                        );
                        Step { outcome: inner.outcome, env: ev.env }
                    },
                }
            },
            Val::Macro { params, body, env: clo } => {
                if args.len() > params.len() {
                    step_err(Fault::TooManyArguments, env)
                } else if args.len() < params.len() {
                    step_ok(
                        Val::Macro {
                            params: params.skip(args.len() as int),
                            body,
                            env: bind_params(clo, params, args),
                        },
                        env,
                    )
                } else {
                    let expansion = eval_spec(
                        *body,
                        bind_params(clo, params, args),
                        (fuel - 1) as nat,
                    );
                    match expansion.outcome {
                        Err(f) => step_err(f, env),
                        Ok(x) => eval_spec(x, env, (fuel - 1) as nat),
                    }
                }
            },
            Val::List { items } => list_index_spec(items, args, env),
            _ => step_err(Fault::NotCallable { kind: kind_label(op) }, env),
        }
    }
}

/// Evaluating argument expressions left to right, threading the caller's
/// environment, and stopping at the first fault.
pub open spec fn eval_args_spec(args: Seq<Val>, env: EnvModel, fuel: nat) -> ArgsStep
    decreases fuel,
{
    if fuel == 0 {
        ArgsStep { outcome: Err(Fault::OutOfFuel), env }
    } else if args.len() == 0 {
        ArgsStep { outcome: Ok(Seq::empty()), env }
    } else {
        let head = eval_spec(args[0], env, (fuel - 1) as nat);
        match head.outcome {
            Err(f) => ArgsStep { outcome: Err(f), env: head.env },
            Ok(v) => {
                let rest = eval_args_spec(args.skip(1), head.env, (fuel - 1) as nat);
                match rest.outcome {
                    Err(f) => ArgsStep { outcome: Err(f), env: rest.env },
                    Ok(vs) => ArgsStep { outcome: Ok(seq![v] + vs), env: rest.env },
                }
            },
        }
    }
}

/// The plain text of a value: symbols are their names, numbers print in
/// decimal, lists wrap their space-separated elements in parentheses,
/// builtins print as guillemet-quoted labels, and user-defined callables
/// print their parameter list and body behind their constructor's sign.
pub open spec fn render_val(v: Val) -> Seq<char>
    decreases v,
{
    match v {
        Val::Symbol { name } => name,
        Val::Number { value } => crate::expression::int_str(value),
        Val::List { items } => seq!['('] + render_items(items) + seq![')'],
        Val::BuiltinFunction { name, .. } => "\u{ab}builtin function "@ + name + "\u{bb}"@,
        Val::BuiltinMacro { name, .. } => "\u{ab}builtin macro "@ + name + "\u{bb}"@,
        Val::Lambda { params, body, .. } => "\u{3bb} ("@ + render_names(params) + ") "@
            + render_val(*body),
        Val::Macro { params, body, .. } => "\u{3bc} ("@ + render_names(params) + ") "@
            + render_val(*body),
    }
}

/// The space-separated texts of a list's elements.
pub open spec fn render_items(items: Seq<Val>) -> Seq<char>
    decreases items,
{
    if items.len() == 0 {
        Seq::empty()
    } else if items.len() == 1 {
        render_val(items[0])
    } else {
        render_val(items[0]) + seq![' '] + render_items(items.skip(1))
    }
}

/// The space-separated names of a parameter list.
pub open spec fn render_names(names: Seq<Seq<char>>) -> Seq<char>
    decreases names.len(),
{
    if names.len() == 0 {
        Seq::empty()
    } else if names.len() == 1 {
        names[0]
    } else {
        names[0] + seq![' '] + render_names(names.skip(1))
    }
}

/// What evaluating a whole line of source text does: the text is
/// tokenized, one expression is parsed off the front, leftover tokens are
/// refused, and the expression is evaluated against the environment.
pub open spec fn evaluate_spec(input: Seq<char>, env: EnvModel) -> Step {
    let toks = crate::token::tokens_from(input, 0);
    let pr = parse_spec(toks, 0);
    match pr.0 {
        Err(f) => step_err(f, env),
        Ok(v) => if pr.1 < toks.len() {
            step_err(Fault::ExtraTokens, env)
        } else {
            eval_spec(v, env, crate::EVAL_FUEL as nat)
        },
    }
}

/// What a raw token stands for: a number when its text parses as one, and
/// a symbol otherwise.
pub open spec fn atom_of_token(t: Seq<char>) -> Val {
    match crate::atoms::parse_int_spec(t) {
        Some(v) => Val::Number { value: v },
        None => Val::Symbol { name: t },
    }
}

/// The quote-prefix rewrite: left to right, a quote-prefix symbol and the
/// element after it are spliced into one two-element sub-list; a trailing
/// quote-prefix with nothing following it is a syntax error.
pub open spec fn quote_rewrite(elems: Seq<Val>) -> Result<Seq<Val>, Fault>
    decreases elems.len(),
{
    if elems.len() == 0 {
        Ok(Seq::empty())
    } else if elems[0] == (Val::Symbol { name: seq!['\''] }) {
        if elems.len() == 1 {
            Err(Fault::TrailingQuote)
        } else {
            match quote_rewrite(elems.skip(2)) {
                Ok(rest) => Ok(seq![Val::List { items: seq![elems[0], elems[1]] }] + rest),
                Err(f) => Err(f),
            }
        }
    } else {
        match quote_rewrite(elems.skip(1)) {
            Ok(rest) => Ok(seq![elems[0]] + rest),
            Err(f) => Err(f),
        }
    }
}

/// One expression parsed from the tokens at position `i`, by recursive
/// descent: an open token collects elements to the matching close token and
/// applies the quote-prefix rewrite; a bare close token is a syntax error;
/// any other token is an atom. The second component is the position just
/// past what was consumed.
pub open spec fn parse_spec(toks: Seq<crate::token::TokenModel>, i: int) -> (Result<Val, Fault>, int)
    decreases toks.len() - i, 0int,
{
    if i >= toks.len() {
        (Err(Fault::RanOutOfTokens), i)
    } else if toks[i].text == seq!['('] {
        match parse_list_spec(toks, i + 1) {
            (Ok(elems), j) => match quote_rewrite(elems) {
                Ok(q) => (Ok(Val::List { items: q }), j),
                Err(f) => (Err(f), j),
            },
            (Err(f), j) => (Err(f), j),
        }
    } else if toks[i].text == seq![')'] {
        (Err(Fault::UnexpectedClose { pos: toks[i].pos }), i)
    } else {
        (Ok(atom_of_token(toks[i].text)), i + 1)
    }
}

/// The elements of a list parsed from position `i` up to and including its
/// close token, before the quote-prefix rewrite.
pub open spec fn parse_list_spec(toks: Seq<crate::token::TokenModel>, i: int) -> (
    Result<Seq<Val>, Fault>,
    int,
)
    decreases toks.len() - i, 1int,
{
    if i >= toks.len() {
        (Err(Fault::RanOutOfTokens), i)
    } else if toks[i].text == seq![')'] {
        (Ok(Seq::empty()), i + 1)
    } else {
        match parse_spec(toks, i) {
            (Ok(v), j) => {
                let j2 = if j < i + 1 {
                    i + 1
                } else if j > toks.len() {
                    toks.len() as int
                } else {
                    j
                };
                match parse_list_spec(toks, j2) {
                    (Ok(rest), k) => (Ok(seq![v] + rest), k),
                    (Err(f), k) => (Err(f), k),
                }
            },
            (Err(f), j) => (Err(f), j),
        }
    }
}

/// Parsing a list's elements never moves backwards nor past the end of the
/// tokens.
pub proof fn lemma_parse_list_bounds(toks: Seq<crate::token::TokenModel>, i: int)
    requires
        0 <= i <= toks.len(),
    ensures
        i <= parse_list_spec(toks, i).1 <= toks.len(),
    decreases toks.len() - i, 1int,
{
    if i < toks.len() && toks[i].text != seq![')'] {
        lemma_parse_only_bounds(toks, i);
        match parse_spec(toks, i) {
            (Ok(_), j) => {
                let j2 = if j < i + 1 {
                    i + 1
                } else if j > toks.len() {
                    toks.len() as int
                } else {
                    j
                };
                lemma_parse_list_bounds(toks, j2);
            },
            (Err(_), j) => {},
        }
    }
}

/// Parsing one expression never moves backwards nor past the end of the
/// tokens, and a parsed expression consumes at least one token.
pub proof fn lemma_parse_only_bounds(toks: Seq<crate::token::TokenModel>, i: int)
    requires
        0 <= i <= toks.len(),
    ensures
        i <= parse_spec(toks, i).1 <= toks.len(),
        parse_spec(toks, i).0 is Ok ==> parse_spec(toks, i).1 >= i + 1,
    decreases toks.len() - i, 0int,
{
    if i < toks.len() {
        if toks[i].text == seq!['('] {
            lemma_parse_list_bounds(toks, i + 1);
        }
    }
}

/// What `cond` does: conditions are evaluated left to right in the caller's
/// environment; the first truthy condition's consequence is evaluated and
/// returned; with no truthy condition, a trailing odd argument is the
/// evaluated default, and without one the result is the empty list.
pub open spec fn cond_spec(args: Seq<Val>, env: EnvModel, fuel: nat) -> Step
    decreases fuel,
{
    if fuel == 0 {
        step_err(Fault::OutOfFuel, env)
    } else if args.len() >= 2 {
        let c = eval_spec(args[0], env, (fuel - 1) as nat);
        match c.outcome {
            Err(f) => Step { outcome: Err(f), env: c.env },
            Ok(v) => if is_truthy_spec(v) {
                eval_spec(args[1], c.env, (fuel - 1) as nat)
            } else {
                cond_spec(args.skip(2), c.env, (fuel - 1) as nat)
            },
        }
    } else if args.len() == 1 {
        eval_spec(args[0], env, (fuel - 1) as nat)
    } else {
        step_ok(null_val(), env)
    }
}

} // verus!
