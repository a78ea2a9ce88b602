use vstd::prelude::*;

use crate::context::Context;
use crate::error::{Error, ErrorModel};
use crate::value::{Value, ValueModel};

verus! {

/// The leaf of an expression: a literal value or a variable reference.
#[derive(Debug, Clone, PartialEq)]
pub enum Term {
    Constant(Value),
    Variable(String),
}

/// What a term evaluates to: a constant is itself, a variable is its binding,
/// and an unbound variable is an error naming it.
pub open spec fn term_result(term: Term, context: Context) -> Result<ValueModel, ErrorModel> {
    match term {
        Term::Constant(v) => Ok(v@),
        Term::Variable(name) => match context.binding(name@) {
            Some(v) => Ok(v),
            None => Err(ErrorModel::UndefinedVariable(name@)),
        },
    }
}

impl Term {
    /// A constant term.
    pub fn constant(value: Value) -> (r: Term)
        ensures
            r == Term::Constant(value),
    {
        Term::Constant(value)
    }

    /// A reference to the variable `name`.
    pub fn variable(name: String) -> (r: Term)
        ensures
            r == Term::Variable(name),
    {
        Term::Variable(name)
    }

    /// The term's value in `context`.
    pub fn evaluate(&self, context: &Context) -> (r: Result<Value, Error>)
        ensures
            crate::error::outcome(r) == term_result(*self, *context),
    {
        match self {
            Term::Constant(v) => Ok(v.duplicate()),
            Term::Variable(name) => match context.get(name.as_str()) {
                Some(v) => Ok(v),
                None => Err(Error::UndefinedVariable(name.clone())),
            },
        }
    }
}

} // verus!
