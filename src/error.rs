use vstd::prelude::*;

use crate::token::{tmodel, TokenModel, TokenWithContext};
use crate::value::ValueModel;

verus! {

/// Everything that can go wrong while lexing, parsing or evaluating an expression.
#[derive(Debug, Clone, PartialEq)]
pub enum Error {
    /// The token stream ended where a token was required.
    Eof,
    /// A token stands where the grammar forbids it.
    ExpressionSyntax(TokenWithContext),
    /// A variable is not bound in the context.
    UndefinedVariable(String),
    /// An operator was applied to values it cannot handle.
    TypeError,
    /// An operator was used where it has no meaning (a binary operator in prefix position).
    UnsupportedOperation,
    /// Integer division or remainder by zero.
    DivisionByZero,
    /// An integer result does not fit in 64 bits.
    Overflow,
    /// The source text holds a character sequence that is no token, at this character index.
    Lexical(usize),
}

/// What an [`Error`] says: the offending token of a syntax error (its model
/// and position) and the name of an undefined variable.
pub enum ErrorModel {
    Eof,
    Syntax(TokenModel, usize),
    UndefinedVariable(Seq<char>),
    TypeError,
    UnsupportedOperation,
    DivisionByZero,
    Overflow,
    Lexical(usize),
}

impl View for Error {
    type V = ErrorModel;

    open spec fn view(&self) -> ErrorModel {
        match self {
            Error::Eof => ErrorModel::Eof,
            Error::ExpressionSyntax(t) => ErrorModel::Syntax(tmodel(t.token), t.position),
            Error::UndefinedVariable(name) => ErrorModel::UndefinedVariable(name@),
            Error::TypeError => ErrorModel::TypeError,
            Error::UnsupportedOperation => ErrorModel::UnsupportedOperation,
            Error::DivisionByZero => ErrorModel::DivisionByZero,
            Error::Overflow => ErrorModel::Overflow,
            Error::Lexical(at) => ErrorModel::Lexical(*at),
        }
    }
}

/// The model of an evaluation result.
pub open spec fn outcome(r: Result<crate::value::Value, Error>) -> Result<ValueModel, ErrorModel> {
    match r {
        Ok(v) => Ok(v@),
        Err(e) => Err(e@),
    }
}

} // verus!
