//! A small template expression language: values, tokens, a lexer, a
//! precedence-climbing parser and a tree-walking evaluator, together with a
//! plain model of HTTP responses, a request router's handler list and a
//! template cache.
use vstd::prelude::*;

pub mod balance;
pub mod cache;
pub mod context;
pub mod error;
pub mod expression;
pub mod grammar;
pub mod laws;
pub mod lexer;
pub mod op;
pub mod response;
pub mod server;
pub mod term;
pub mod token;
pub mod value;

verus! {

} // verus!
