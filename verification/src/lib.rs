//! A small Lisp-family expression language: source text is tokenized, parsed
//! into an expression tree, and evaluated against a lexical environment.
//!
//! Symbols, numbers, lists, builtin functions and macros, and user-defined
//! lambdas and macros are all first-class expression values. Environments
//! capture by value, so a closure never sees bindings added to its defining
//! scope after capture. Every public operation is specified against the
//! mathematical model in `semantics`.

pub mod atoms;
pub mod builtins;
pub mod environment;
pub mod errors;
pub mod expression;
pub mod laws;
pub mod semantics;
pub mod token;

pub use atoms::{Atom, BuiltinFunction, BuiltinMacro, Lambda, List, Macro, Number, Op, MacroOp, Symbol};
pub use environment::Environment;
pub use builtins::set_environment;
pub use errors::{Error, ErrorKind, TypeError};
pub use expression::{Expression, ToAndFrom};
pub use token::{tokenize, Token, TokenIterator};

use vstd::prelude::*;

verus! {

/// Evaluation fuel handed out by `evaluate`: one unit is spent on every step
/// of the evaluator, so this bound is far beyond what any call stack survives.
pub const EVAL_FUEL: u64 = 0xFFFF_FFFF_FFFF_FFFF;

/// Tokenizes the input, parses one expression off the front of the stream,
/// refuses leftover tokens, and evaluates the expression against the
/// environment.
pub fn evaluate(input: &str, env: &mut Environment) -> (r: Result<Expression, Error>)
    ensures
        ({
            let s = semantics::evaluate_spec(input@, old(env)@);
            &&& final(env)@ == s.env
            &&& match r {
                Ok(v) => s.outcome == Ok::<semantics::Val, semantics::Fault>(v@),
                Err(e) => s.outcome == Err::<semantics::Val, semantics::Fault>(e@),
            }
        }),
{
    let mut lexer = token::tokenize(input);
    let tokens = lexer.collect_tokens();
    let mut position: usize = 0;
    let expression = match Expression::parse(&tokens, &mut position) {
        Ok(expression) => expression,
        Err(e) => {
            let mut frame = String::from_str("could not parse the input ");
            frame.append(input);
            return Err(e.framed(frame));
        },
    };
    if position < tokens.len() {
        return Err(Error::new(ErrorKind::ExtraTokens));
    }
    match expression.eval(env, EVAL_FUEL) {
        Ok(value) => Ok(value),
        Err(e) => {
            let mut frame = String::from_str("could not evaluate the input ");
            frame.append(input);
            Err(e.framed(frame))
        },
    }
}

} // verus!
