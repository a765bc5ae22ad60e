use vstd::prelude::*;
use crate::token::Span;

verus! {

/// The program was started without a script to run.
#[derive(Debug)]
pub struct Usage;

/// A value that is not a function, after forcing, stood in function position.
#[derive(Debug)]
pub struct CallNotFunction {
    pub path: String,
    pub span: Span,
}

impl CallNotFunction {
    pub fn new(path: &String, span: Span) -> (r: Self)
        ensures
            r.path == *path,
            r.span == span,
    {
        CallNotFunction { path: path.clone(), span }
    }
}

/// A name that no scope and no global binds.
#[derive(Debug)]
pub struct NoVar {
    pub path: String,
    pub span: Span,
    pub name: String,
}

impl NoVar {
    pub fn new(path: &String, span: Span, name: &String) -> (r: Self)
        ensures
            r.path == *path,
            r.span == span,
            r.name == *name,
    {
        NoVar { path: path.clone(), span, name: name.clone() }
    }
}

/// A native function was handed something that does not reduce to a number.
#[derive(Debug)]
pub struct BadNumber;

/// An operation that a value does not support.
#[derive(Debug)]
pub struct NotImplemented;

/// Why evaluating a statement failed.
#[derive(Debug)]
pub enum EvalError {
    NoVar(NoVar),
    CallNotFunction(CallNotFunction),
    BadNumber(BadNumber),
    /// Forcing went deeper than the depth budget allows.
    DepthExceeded,
}

} // verus!
