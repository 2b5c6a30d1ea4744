//! The error values: a leaf cause plus a stack of context frames. No error
//! is process-fatal; every failure is returned to the caller as a value.

use vstd::prelude::*;

use crate::semantics::Fault;

verus! {

/// An atom was accessed through a kind it does not match.
#[derive(Debug)]
pub struct TypeError {
    /// The label of the kind that was expected.
    pub expected: &'static str,
    /// The label of the kind that was found.
    pub got: &'static str,
}

impl View for TypeError {
    type V = (Seq<char>, Seq<char>);

    open spec fn view(&self) -> (Seq<char>, Seq<char>) {
        (self.expected@, self.got@)
    }
}

impl Clone for TypeError {
    fn clone(&self) -> (r: Self)
        ensures
            r == *self,
    {
        TypeError { expected: self.expected, got: self.got }
    }
}

impl Copy for TypeError {

}

/// The leaf cause of an error, mirroring [`Fault`] with carried values.
#[derive(Debug)]
pub enum ErrorKind {
    /// The evaluation fuel ran out before the expression reduced.
    OutOfFuel,
    /// The token stream ended where an expression was still expected.
    RanOutOfTokens,
    /// A close token with no matching open token, at this offset.
    UnexpectedClose(usize),
    /// A quote-prefix symbol at the end of a list, with nothing to quote.
    TrailingQuote,
    /// Tokens were left over after a complete expression.
    ExtraTokens,
    /// A symbol with no binding in the environment.
    Unbound(String),
    /// An empty list in call position.
    EmptyCall,
    /// A value of this kind in call position.
    NotCallable(&'static str),
    /// More arguments than a lambda or macro has parameters.
    TooManyArguments,
    /// A single-argument builtin called with another argument count.
    SingleArgument(&'static str),
    /// An atom accessed through a kind it does not match.
    Type(TypeError),
    /// A builtin that needs at least one argument was given none.
    Insufficient(&'static str),
    /// `define` called with other than two arguments.
    DefineArity,
    /// `'` called with other than one argument.
    QuoteArity,
    /// `λ` called with other than two arguments.
    LambdaArity,
    /// `μ` called with other than two arguments.
    MacroArity,
    /// A list indexed with other than one argument.
    IndexArity,
    /// A list indexed by a value of this kind instead of a number.
    IndexType(&'static str),
    /// A list of this length indexed outside its range.
    IndexRange(usize, i64),
    /// An arithmetic result outside the 64-bit signed range.
    Overflow,
    /// A division whose divisor is zero.
    DivisionByZero,
}

/// The fault an error kind stands for.
pub open spec fn kind_fault(k: ErrorKind) -> Fault {
    match k {
        ErrorKind::OutOfFuel => Fault::OutOfFuel,
        ErrorKind::RanOutOfTokens => Fault::RanOutOfTokens,
        ErrorKind::UnexpectedClose(pos) => Fault::UnexpectedClose { pos: pos as int },
        ErrorKind::TrailingQuote => Fault::TrailingQuote,
        ErrorKind::ExtraTokens => Fault::ExtraTokens,
        ErrorKind::Unbound(name) => Fault::Unbound { name: name@ },
        ErrorKind::EmptyCall => Fault::EmptyCall,
        ErrorKind::NotCallable(kind) => Fault::NotCallable { kind: kind@ },
        ErrorKind::TooManyArguments => Fault::TooManyArguments,
        ErrorKind::SingleArgument(name) => Fault::SingleArgument { name: name@ },
        ErrorKind::Type(t) => Fault::WrongType { expected: t.expected@, got: t.got@ },
        ErrorKind::Insufficient(name) => Fault::Insufficient { name: name@ },
        ErrorKind::DefineArity => Fault::DefineArity,
        ErrorKind::QuoteArity => Fault::QuoteArity,
        ErrorKind::LambdaArity => Fault::LambdaArity,
        ErrorKind::MacroArity => Fault::MacroArity,
        ErrorKind::IndexArity => Fault::IndexArity,
        ErrorKind::IndexType(got) => Fault::IndexType { got: got@ },
        ErrorKind::IndexRange(length, index) => Fault::IndexRange {
            length: length as int,
            index: index as int,
        },
        ErrorKind::Overflow => Fault::Overflow,
        ErrorKind::DivisionByZero => Fault::DivisionByZero,
    }
}

/// An error: its leaf cause, and the context frames that were wrapped
/// around it on the way out, innermost first.
#[derive(Debug)]
pub struct Error {
    /// The leaf cause.
    pub kind: ErrorKind,
    /// The context frames, innermost first.
    pub frames: Vec<String>,
}

impl View for Error {
    type V = Fault;

    open spec fn view(&self) -> Fault {
        kind_fault(self.kind)
    }
}

impl Error {
    /// An error with no context frames yet.
    pub fn new(kind: ErrorKind) -> (r: Self)
        ensures
            r@ == kind_fault(kind),
    {
        Error { kind, frames: Vec::new() }
    }

    /// The same error with one more context frame around it.
    pub fn framed(self, frame: String) -> (r: Self)
        ensures
            r@ == self@,
    {
        let mut r = self;
        r.frames.push(frame);
        r
    }

    /// The message of the leaf cause alone.
    pub fn leaf_message(&self) -> String {
        match &self.kind {
            ErrorKind::OutOfFuel => String::from_str("ran out of evaluation fuel"),
            ErrorKind::RanOutOfTokens => String::from_str("ran out of tokens"),
            ErrorKind::UnexpectedClose(pos) => {
                let mut m = String::from_str("unexpected close bracket at offset ");
                let at = crate::expression::u64_to_string(*pos as u64);
                m.append(at.as_str());
                m
            },
            ErrorKind::TrailingQuote => String::from_str("trailing quote in input"),
            ErrorKind::ExtraTokens => String::from_str("extra tokens in line"),
            ErrorKind::Unbound(name) => {
                let mut m = String::from_str("variable `");
                m.append(name.as_str());
                m.append("` unbound");
                m
            },
            ErrorKind::EmptyCall => String::from_str("attempt to evaluate empty list"),
            ErrorKind::NotCallable(kind) => {
                let mut m = String::from_str("cannot call ");
                m.append(kind);
                m.append(" as if it were a function");
                m
            },
            ErrorKind::TooManyArguments => String::from_str("too many arguments to lambda"),
            ErrorKind::SingleArgument(name) => {
                let mut m = String::from_str("function ");
                m.append(name);
                m.append(" must be called with a single argument");
                m
            },
            ErrorKind::Type(t) => {
                let mut m = String::from_str("type error: expected ");
                m.append(t.expected);
                m.append(" and got ");
                m.append(t.got);
                m
            },
            ErrorKind::Insufficient(name) => {
                let mut m = String::from_str("insufficient arguments to ");
                m.append(name);
                m
            },
            ErrorKind::DefineArity => String::from_str("a binding requires two arguments"),
            ErrorKind::QuoteArity => String::from_str(
                "quote must be called on exactly one argument",
            ),
            ErrorKind::LambdaArity => String::from_str(
                "lambdas must be constructed with exactly two arguments",
            ),
            ErrorKind::MacroArity => String::from_str(
                "macros must be constructed with exactly two arguments",
            ),
            ErrorKind::IndexArity => String::from_str(
                "cannot index a list using more than one index",
            ),
            ErrorKind::IndexType(got) => {
                let mut m = String::from_str("can only index into a list using numbers, not ");
                m.append(got);
                m
            },
            ErrorKind::IndexRange(length, index) => {
                let mut m = String::from_str("cannot index a list of length ");
                let l = crate::expression::u64_to_string(*length as u64);
                m.append(l.as_str());
                m.append(" at ");
                let i = crate::expression::i64_to_string(*index);
                m.append(i.as_str());
                m
            },
            ErrorKind::Overflow => String::from_str("a number left the 64-bit signed range"),
            ErrorKind::DivisionByZero => String::from_str("division by zero"),
        }
    }

    /// The full derivation: the context frames from the outermost in, then
    /// the leaf cause.
    pub fn describe(&self) -> String {
        let mut m = String::new();
        let n = self.frames.len();
        let mut i: usize = n;
        while i > 0
            invariant
                n == self.frames@.len(),
                i <= n,
            decreases i,
        {
            i = i - 1;
            m.append(self.frames[i].as_str());
            m.append(": ");
        }
        let leaf = self.leaf_message();
        m.append(leaf.as_str());
        m
    }
}

} // verus!
